use router_container::params::Params;
use router_container::path::{split_path, starts_with_sigil};

fn strings(parts: &[&str]) -> Vec<String> {
    parts.iter().map(|part| part.to_string()).collect()
}

#[test]
fn split_path_cuts_at_every_slash() {
    assert_eq!(split_path("/a/b"), strings(&["a", "b"]));
    assert_eq!(split_path("a/b/"), strings(&["a", "b"]));
    assert_eq!(split_path("//a//b"), strings(&["a", "b"]));
    assert_eq!(split_path("/hello/:id"), strings(&["hello", ":id"]));
    assert_eq!(split_path("single"), strings(&["single"]));
}

#[test]
fn split_path_of_nothing_but_slashes_is_empty() {
    assert!(split_path("").is_empty());
    assert!(split_path("/").is_empty());
    assert!(split_path("////").is_empty());
}

#[test]
fn split_path_keeps_characters_of_any_width() {
    assert_eq!(
        split_path("/caf\u{e9}/\u{65e5}\u{672c}/x"),
        strings(&["caf\u{e9}", "\u{65e5}\u{672c}", "x"])
    );
}

#[test]
fn sigil_marks_a_parameter_segment() {
    assert!(starts_with_sigil(":id"));
    assert!(starts_with_sigil(":"));
    assert!(!starts_with_sigil("id"));
    assert!(!starts_with_sigil("i:d"));
    assert!(!starts_with_sigil(""));
}

#[test]
fn params_later_binding_supersedes() {
    let mut params = Params::new();
    assert!(params.is_empty());
    assert_eq!(params.get("a"), None);
    params.insert("a".to_string(), "1".to_string());
    params.insert("b".to_string(), "2".to_string());
    params.insert("a".to_string(), "3".to_string());
    assert!(!params.is_empty());
    assert_eq!(params.get("a"), Some(&"3".to_string()));
    assert_eq!(params.get("b"), Some(&"2".to_string()));
    assert_eq!(params.get("c"), None);
}

#[test]
fn params_extend_is_additive() {
    let mut held = Params::new();
    held.insert("stage".to_string(), "prod".to_string());
    held.insert("id".to_string(), "old".to_string());
    let mut captured = Params::new();
    captured.insert("id".to_string(), "42".to_string());
    held.extend(captured);
    assert_eq!(held.get("stage"), Some(&"prod".to_string()));
    assert_eq!(held.get("id"), Some(&"42".to_string()));
    let map: std::collections::HashMap<String, String> = held.pairs().iter().cloned().collect();
    assert_eq!(map.len(), 2);
    assert_eq!(map.get("id"), Some(&"42".to_string()));
}
