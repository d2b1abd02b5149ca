use aws_lambda_events::apigw::ApiGatewayV2httpRequest;
use aws_lambda_events::http::Result;
use lambda_runtime::LambdaEvent;
use router_container::{Trie, TrieNode};
use serde_json::Value;

type Handler = fn(LambdaEvent<ApiGatewayV2httpRequest>) -> Result<Value>;

fn blank(_e: LambdaEvent<ApiGatewayV2httpRequest>) -> Result<Value> {
    let mut body = serde_json::Map::new();
    body.insert("success".to_string(), Value::Bool(true));
    Ok(Value::Object(body))
}

fn other(_e: LambdaEvent<ApiGatewayV2httpRequest>) -> Result<Value> {
    Ok(Value::Null)
}

fn same(found: Option<&Handler>, expected: Handler) -> bool {
    match found {
        Some(handler) => *handler as usize == expected as usize,
        None => false,
    }
}

fn is_blank_node(node: &TrieNode<Handler>) -> bool {
    node.children_len() == 0
        && !node.is_end_of_path()
        && node.method().is_none()
        && node.parameter_name().is_none()
        && node.handler().is_none()
}

#[test]
fn add_routes() {
    let mut trie: Trie<Handler> = Trie::new();
    trie.insert("get", "/test", blank);

    let root = trie.root();
    assert_eq!(root.children_len(), 1);
    assert!(!root.is_end_of_path());
    assert_eq!(root.method(), None);
    assert_eq!(root.parameter_name(), None);
    assert!(root.handler().is_none());

    let test = root.child("test").unwrap();
    assert_eq!(test.children_len(), 0);
    assert!(test.is_end_of_path());
    assert_eq!(test.method(), Some(&"get".to_string()));
    assert_eq!(test.parameter_name(), None);
    assert!(same(test.handler(), blank));
}

#[test]
fn add_param_routes() {
    let mut trie: Trie<Handler> = Trie::new();
    trie.insert("get", "/test/:id", blank);

    let root = trie.root();
    assert_eq!(root.children_len(), 1);
    assert!(!root.is_end_of_path());
    assert_eq!(root.method(), None);
    assert_eq!(root.parameter_name(), None);
    assert!(root.handler().is_none());

    let test = root.child("test").unwrap();
    assert_eq!(test.children_len(), 1);
    assert!(!test.is_end_of_path());
    assert_eq!(test.method(), None);
    assert_eq!(test.parameter_name(), None);
    assert!(test.handler().is_none());

    let id = test.child(":").unwrap();
    assert_eq!(id.children_len(), 0);
    assert!(same(id.handler(), blank));
    assert!(id.is_end_of_path());
    assert_eq!(id.parameter_name(), Some(&"id".to_string()));
    assert_eq!(id.method(), Some(&"get".to_string()));
}

#[test]
fn new_trie_is_one_blank_node() {
    let trie: Trie<Handler> = Trie::new();
    assert!(is_blank_node(trie.root()));
    let by_default: Trie<Handler> = Trie::default();
    assert!(is_blank_node(by_default.root()));
    assert!(trie.route("GET", "/").is_none());
    assert!(trie.route("GET", "/anything").is_none());
}

#[test]
fn literal_route_resolves_without_parameters() {
    let mut trie: Trie<u32> = Trie::new();
    trie.insert("GET", "/hello", 1);
    let (handler, params) = trie.route("GET", "/hello").unwrap();
    assert_eq!(*handler, 1);
    assert!(params.is_empty());
    assert!(params.pairs().is_empty());
    assert!(trie.route("POST", "/hello").is_none());
}

#[test]
fn literal_route_resolves_in_a_filled_trie() {
    let mut trie: Trie<u32> = Trie::new();
    trie.insert("GET", "/a/:x/c", 1);
    trie.insert("GET", "/a", 2);
    trie.insert("PUT", "/a/b/c/d", 3);
    trie.insert("GET", "/a/b/c", 4);
    let (handler, params) = trie.route("GET", "/a/b/c").unwrap();
    assert_eq!(*handler, 4);
    assert!(params.is_empty());
    assert_eq!(*trie.route("GET", "/a").unwrap().0, 2);
    assert_eq!(*trie.route("PUT", "/a/b/c/d").unwrap().0, 3);
}

#[test]
fn parameter_route_captures_the_segment() {
    let mut trie: Trie<u32> = Trie::new();
    trie.insert("GET", "/hello/:id", 2);
    let (handler, params) = trie.route("GET", "/hello/42").unwrap();
    assert_eq!(*handler, 2);
    assert_eq!(params.pairs(), &vec![("id".to_string(), "42".to_string())]);
    assert_eq!(params.get("id"), Some(&"42".to_string()));
    assert_eq!(params.get("name"), None);
    assert!(!params.is_empty());
    assert!(trie.route("GET", "/hello").is_none());
    assert!(trie.route("GET", "/hello/42/more").is_none());
}

#[test]
fn parameter_in_the_middle_and_two_parameters() {
    let mut trie: Trie<u32> = Trie::new();
    trie.insert("GET", "/users/:user/posts/:post", 7);
    let (handler, params) = trie.route("GET", "/users/ann/posts/0106").unwrap();
    assert_eq!(*handler, 7);
    assert_eq!(
        params.pairs(),
        &vec![
            ("user".to_string(), "ann".to_string()),
            ("post".to_string(), "0106".to_string()),
        ]
    );
    assert_eq!(params.get("user"), Some(&"ann".to_string()));
    assert_eq!(params.get("post"), Some(&"0106".to_string()));
    assert!(trie.route("GET", "/users/ann/comments/1").is_none());
}

#[test]
fn captured_text_is_taken_as_it_stands() {
    let mut trie: Trie<u32> = Trie::new();
    trie.insert("GET", "/files/:name", 1);
    let (_, params) = trie.route("GET", "/files/r\u{e9}sum\u{e9}.pdf").unwrap();
    assert_eq!(params.get("name"), Some(&"r\u{e9}sum\u{e9}.pdf".to_string()));
    let (_, params) = trie.route("GET", "/files/:name").unwrap();
    assert_eq!(params.get("name"), Some(&":name".to_string()));
}

#[test]
fn same_name_twice_keeps_the_later_capture() {
    let mut trie: Trie<u32> = Trie::new();
    trie.insert("GET", "/:id/:id", 1);
    let (_, params) = trie.route("GET", "/first/second").unwrap();
    assert_eq!(params.get("id"), Some(&"second".to_string()));
}

#[test]
fn literal_child_is_preferred_to_the_parameter_child() {
    let mut trie: Trie<u32> = Trie::new();
    trie.insert("GET", "/a/:x", 1);
    trie.insert("GET", "/a/b", 2);
    let (handler, params) = trie.route("GET", "/a/b").unwrap();
    assert_eq!(*handler, 2);
    assert!(params.is_empty());
    let (handler, params) = trie.route("GET", "/a/c").unwrap();
    assert_eq!(*handler, 1);
    assert_eq!(params.get("x"), Some(&"c".to_string()));
}

#[test]
fn no_way_back_from_a_literal_child() {
    let mut trie: Trie<u32> = Trie::new();
    trie.insert("GET", "/a/:x/end", 1);
    trie.insert("GET", "/a/b", 2);
    assert!(trie.route("GET", "/a/b/end").is_none());
    assert_eq!(*trie.route("GET", "/a/c/end").unwrap().0, 1);
}

#[test]
fn the_sigil_alone_goes_to_the_parameter_child_uncaptured() {
    let mut trie: Trie<u32> = Trie::new();
    trie.insert("GET", "/a/:x", 1);
    let (handler, params) = trie.route("GET", "/a/:").unwrap();
    assert_eq!(*handler, 1);
    assert!(params.is_empty());
}

#[test]
fn slashes_at_the_ends_and_repeated_are_ignored() {
    let mut trie: Trie<u32> = Trie::new();
    trie.insert("GET", "/a/b", 1);
    assert_eq!(*trie.route("GET", "/a/b").unwrap().0, 1);
    assert_eq!(*trie.route("GET", "a/b/").unwrap().0, 1);
    assert_eq!(*trie.route("GET", "//a//b").unwrap().0, 1);
    assert_eq!(*trie.route("GET", "/a/b///").unwrap().0, 1);

    let mut loose: Trie<u32> = Trie::new();
    loose.insert("GET", "//a//b/", 2);
    assert_eq!(*loose.route("GET", "/a/b").unwrap().0, 2);
    assert_eq!(loose.root().children_len(), 1);
    assert_eq!(loose.root().child("a").unwrap().children_len(), 1);
}

#[test]
fn unknown_path_resolves_to_nothing_whatever_the_method() {
    let mut trie: Trie<u32> = Trie::new();
    trie.insert("GET", "/hello", 1);
    assert!(trie.route("GET", "/goodbye").is_none());
    assert!(trie.route("POST", "/goodbye").is_none());
    assert!(trie.route("get", "/hello/there").is_none());
    assert!(trie.route("GET", "/").is_none());
    assert!(trie.route("GET", "").is_none());
}

#[test]
fn a_prefix_of_a_route_is_no_route() {
    let mut trie: Trie<u32> = Trie::new();
    trie.insert("GET", "/a/b/c", 1);
    assert!(trie.route("GET", "/a/b").is_none());
    let (node, params) = trie.lookup("/a/b").unwrap();
    assert!(!node.is_end_of_path());
    assert!(params.is_empty());
    assert!(trie.lookup("/a/x").is_none());
}

#[test]
fn known_path_with_another_method_resolves_to_nothing() {
    let mut trie: Trie<u32> = Trie::new();
    trie.insert("GET", "/hello", 1);
    assert!(trie.route("POST", "/hello").is_none());
    assert!(trie.route("GETS", "/hello").is_none());
    assert!(trie.route("", "/hello").is_none());
    let (node, _) = trie.lookup("/hello").unwrap();
    assert!(node.is_end_of_path());
    assert_eq!(node.method(), Some(&"GET".to_string()));
}

#[test]
fn normalized_methods_are_compared_as_they_stand() {
    let mut trie: Trie<u32> = Trie::new();
    trie.insert_normalized("get", "GET", "/x/:id", 1);
    let (handler, params) = trie.route_normalized("GET", "/x/7").unwrap();
    assert_eq!(*handler, 1);
    assert_eq!(params.get("id"), Some(&"7".to_string()));
    assert!(trie.route_normalized("get", "/x/7").is_none());
    assert!(trie.route_normalized("GET", "/x").is_none());
    assert_eq!(*trie.route("get", "/x/7").unwrap().0, 1);
    assert_eq!(
        trie.root().child("x").unwrap().child(":").unwrap().method(),
        Some(&"get".to_string())
    );

    let mut plain: Trie<u32> = Trie::new();
    plain.insert("get", "/y", 2);
    assert_eq!(*plain.route_normalized("GET", "/y").unwrap().0, 2);
    assert!(plain.route_normalized("get", "/y").is_none());
}

#[test]
fn methods_are_compared_in_upper_case() {
    let mut trie: Trie<u32> = Trie::new();
    trie.insert("get", "/lower", 1);
    trie.insert("GET", "/upper", 2);
    trie.insert("PoSt", "/mixed", 3);
    assert_eq!(*trie.route("GET", "/lower").unwrap().0, 1);
    assert_eq!(*trie.route("get", "/lower").unwrap().0, 1);
    assert_eq!(*trie.route("get", "/upper").unwrap().0, 2);
    assert_eq!(*trie.route("Get", "/upper").unwrap().0, 2);
    assert_eq!(*trie.route("post", "/mixed").unwrap().0, 3);
    assert_eq!(*trie.route("POST", "/mixed").unwrap().0, 3);
    assert_eq!(
        trie.root().child("lower").unwrap().method(),
        Some(&"get".to_string())
    );
}

#[test]
fn upper_case_is_that_of_the_standard_library() {
    let mut trie: Trie<u32> = Trie::new();
    trie.insert("stra\u{df}e", "/s", 1);
    assert_eq!(*trie.route("STRASSE", "/s").unwrap().0, 1);
    assert_eq!(*trie.route_normalized("STRASSE", "/s").unwrap().0, 1);
    assert!(trie.route("STRAE", "/s").is_none());
}

#[test]
fn empty_path_registers_at_the_root() {
    let mut trie: Trie<u32> = Trie::new();
    trie.insert("GET", "", 9);
    assert!(trie.root().is_end_of_path());
    assert_eq!(trie.root().children_len(), 0);
    assert_eq!(*trie.route("GET", "").unwrap().0, 9);
    assert_eq!(*trie.route("GET", "/").unwrap().0, 9);
    assert_eq!(*trie.route("GET", "///").unwrap().0, 9);

    let mut slashes: Trie<u32> = Trie::new();
    slashes.insert("GET", "//", 8);
    assert_eq!(*slashes.route("GET", "").unwrap().0, 8);
}

#[test]
fn later_registration_replaces_the_earlier_one() {
    let mut trie: Trie<Handler> = Trie::new();
    trie.insert("GET", "/hello", blank);
    trie.insert("POST", "/hello", other);
    assert!(trie.route("GET", "/hello").is_none());
    let (handler, _) = trie.route("POST", "/hello").unwrap();
    assert!(same(Some(handler), other));

    let mut names: Trie<u32> = Trie::new();
    names.insert("GET", "/a/:x", 1);
    names.insert("GET", "/a/:y", 2);
    let (handler, params) = names.route("GET", "/a/v").unwrap();
    assert_eq!(*handler, 2);
    assert_eq!(params.pairs(), &vec![("y".to_string(), "v".to_string())]);
    assert_eq!(names.root().child("a").unwrap().children_len(), 1);
}

#[test]
fn parameter_segment_without_a_name_binds_the_empty_name() {
    let mut trie: Trie<u32> = Trie::new();
    trie.insert("GET", "/a/:", 1);
    let node = trie.root().child("a").unwrap().child(":").unwrap();
    assert_eq!(node.parameter_name(), Some(&String::new()));
    let (_, params) = trie.route("GET", "/a/b").unwrap();
    assert_eq!(params.get(""), Some(&"b".to_string()));
}
