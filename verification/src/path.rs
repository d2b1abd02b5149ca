//! Paths and their segments.
//!
//! A path is cut at every `/`; the empty pieces are dropped, so leading,
//! trailing and repeated slashes never show in the result.

use vstd::prelude::*;

verus! {

/// The separator between two segments of a path.
pub const SEPARATOR: char = '/';

/// The sigil that opens a parameter segment of a pattern, such as `:id`.
pub const SIGIL: char = ':';

/// How many characters stand at the front of `s` before its first separator.
pub open spec fn run_len(s: Seq<char>) -> nat
    decreases s.len(),
{
    if s.len() == 0 || s[0] == SEPARATOR {
        0
    } else {
        1 + run_len(s.drop_first())
    }
}

/// The segments of a path: its maximal runs of characters other than the
/// separator, from left to right.
pub open spec fn segments(path: Seq<char>) -> Seq<Seq<char>>
    decreases path.len(),
    via segments_decreases
{
    if path.len() == 0 {
        Seq::empty()
    } else if path[0] == SEPARATOR {
        segments(path.drop_first())
    } else {
        seq![path.take(run_len(path) as int)] + segments(path.skip(run_len(path) as int))
    }
}

#[via_fn]
proof fn segments_decreases(path: Seq<char>) {
    lemma_run_len_bounds(path);
}

/// A run is never longer than the text it starts, and is not empty where the
/// text starts with a character other than the separator.
pub proof fn lemma_run_len_bounds(s: Seq<char>)
    ensures
        run_len(s) <= s.len(),
        s.len() > 0 && s[0] != SEPARATOR ==> run_len(s) >= 1,
        forall|i: int| 0 <= i < run_len(s) ==> s[i] != SEPARATOR,
        run_len(s) < s.len() ==> s[run_len(s) as int] == SEPARATOR,
    decreases s.len(),
{
    if s.len() == 0 || s[0] == SEPARATOR {
    } else {
        let rest = s.drop_first();
        lemma_run_len_bounds(rest);
        assert forall|i: int| 0 <= i < run_len(s) implies s[i] != SEPARATOR by {
            if i > 0 {
                assert(s[i] == rest[i - 1]);
            }
        }
        if run_len(s) < s.len() {
            assert(s[run_len(s) as int] == rest[run_len(rest) as int]);
        }
    }
}

/// A run of characters stays the same run when a separator and more text
/// follow it.
proof fn lemma_run_len_before_separator(a: Seq<char>, b: Seq<char>)
    ensures
        run_len(a + seq![SEPARATOR] + b) == run_len(a),
    decreases a.len(),
{
    let whole = a + seq![SEPARATOR] + b;
    if a.len() == 0 {
        assert(whole[0] == SEPARATOR);
    } else {
        assert(whole[0] == a[0]);
        if a[0] != SEPARATOR {
            assert(whole.drop_first() =~= a.drop_first() + seq![SEPARATOR] + b);
            lemma_run_len_before_separator(a.drop_first(), b);
            assert(run_len(whole) == 1 + run_len(whole.drop_first()));
            assert(run_len(a) == 1 + run_len(a.drop_first()));
        }
    }
}

/// The segments of two texts joined by a separator are those of the first
/// followed by those of the second.
pub proof fn lemma_segments_joined(a: Seq<char>, b: Seq<char>)
    ensures
        segments(a + seq![SEPARATOR] + b) == segments(a) + segments(b),
    decreases a.len(),
{
    let whole = a + seq![SEPARATOR] + b;
    if a.len() == 0 {
        assert(whole.drop_first() =~= b);
        assert(segments(a) + segments(b) =~= segments(b));
    } else if a[0] == SEPARATOR {
        assert(whole[0] == SEPARATOR);
        assert(whole.drop_first() =~= a.drop_first() + seq![SEPARATOR] + b);
        lemma_segments_joined(a.drop_first(), b);
    } else {
        let n = run_len(a) as int;
        lemma_run_len_before_separator(a, b);
        lemma_run_len_bounds(a);
        assert(whole[0] == a[0]);
        assert(whole.take(n) =~= a.take(n));
        assert(whole.skip(n) =~= a.skip(n) + seq![SEPARATOR] + b);
        lemma_segments_joined(a.skip(n), b);
        assert(segments(whole) =~= segments(a) + segments(b));
    }
}

/// Text that holds no character, and text that holds one separator, has no
/// segment.
pub proof fn lemma_segments_of_separator()
    ensures
        segments(Seq::<char>::empty()) == Seq::<Seq<char>>::empty(),
        segments(seq![SEPARATOR]) == Seq::<Seq<char>>::empty(),
{
    assert(seq![SEPARATOR].drop_first() =~= Seq::<char>::empty());
    reveal_with_fuel(segments, 3);
}

/// What a list of strings holds, each string taken as its characters.
pub open spec fn texts(parts: Seq<String>) -> Seq<Seq<char>> {
    Seq::new(parts.len(), |i: int| parts[i]@)
}

/// Whether a segment of a pattern captures a parameter: it starts with the
/// sigil.
pub open spec fn is_parameter(segment: Seq<char>) -> bool {
    segment.len() > 0 && segment[0] == SIGIL
}

/// The name that a parameter segment binds: the segment without its sigil.
pub open spec fn parameter_name(segment: Seq<char>) -> Seq<char> {
    segment.skip(1)
}

/// Whether a segment of a pattern captures a parameter.
pub fn starts_with_sigil(segment: &str) -> (captures: bool)
    ensures
        captures == is_parameter(segment@),
{
    !segment.is_empty() && segment.get_char(0) == SIGIL
}

/// Cutting a run off the front of a text leaves the segments of the rest.
proof fn lemma_segments_step(s: Seq<char>, start: int, end: int)
    requires
        0 <= start <= end <= s.len(),
        forall|j: int| start <= j < end ==> s[j] != SEPARATOR,
        end < s.len() ==> s[end] == SEPARATOR,
    ensures
        segments(s.skip(start)) == if start < end {
            seq![s.subrange(start, end)] + segments(s.skip(end))
        } else {
            segments(s.skip(end))
        },
        end < s.len() ==> segments(s.skip(end)) == segments(s.skip(end + 1)),
{
    let tail = s.skip(start);
    if end < s.len() {
        assert(s.skip(end).drop_first() =~= s.skip(end + 1));
    }
    if start < end {
        lemma_run_len_bounds(tail);
        let n = run_len(tail) as int;
        if n < end - start {
            assert(tail[n] == s[start + n]);
        }
        if n > end - start {
            assert(tail[end - start] == s[end]);
        }
        assert(n == end - start);
        assert(tail.take(n) =~= s.subrange(start, end));
        assert(tail.skip(n) =~= s.skip(end));
    }
}

/// Cuts a path into its segments.
pub fn split_path(path: &str) -> (parts: Vec<String>)
    ensures
        texts(parts@) == segments(path@),
{
    let mut parts: Vec<String> = Vec::new();
    let mut start: usize = 0;
    let mut at: usize = 0;
    let total: usize = path.unicode_len();
    proof {
        assert(path@.skip(0) =~= path@);
        assert(texts(parts@) + segments(path@) =~= segments(path@));
    }
    for c in it: path.chars()
        invariant
            it.seq() == path@,
            total == path@.len(),
            at == it.index(),
            start <= at <= total,
            forall|j: int| start <= j < at ==> path@[j] != SEPARATOR,
            segments(path@) == texts(parts@) + segments(path@.skip(start as int)),
    {
        if c == SEPARATOR {
            proof {
                lemma_segments_step(path@, start as int, at as int);
            }
            if start < at {
                let piece = path.substring_char(start, at);
                let ghost before = parts@;
                parts.push(piece.to_owned());
                assert(texts(parts@) =~= texts(before) + seq![path@.subrange(start as int, at as int)]);
            }
            start = at + 1;
        }
        at = at + 1;
    }
    proof {
        lemma_segments_step(path@, start as int, at as int);
        assert(path@.skip(at as int) =~= Seq::<char>::empty());
    }
    if start < at {
        let piece = path.substring_char(start, at);
        let ghost before = parts@;
        parts.push(piece.to_owned());
        assert(texts(parts@) =~= texts(before) + seq![path@.subrange(start as int, at as int)]);
    }
    assert(texts(parts@) =~= segments(path@));
    parts
}

} // verus!
