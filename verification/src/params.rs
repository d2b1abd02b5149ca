//! The parameters that a lookup captures from a path.

use vstd::prelude::*;

verus! {

/// What a list of bindings amounts to: a later binding of a name supersedes
/// an earlier one.
pub open spec fn bindings(pairs: Seq<(String, String)>) -> Map<Seq<char>, Seq<char>>
    decreases pairs.len(),
{
    if pairs.len() == 0 {
        Map::empty()
    } else {
        bindings(pairs.drop_last()).insert(pairs.last().0@, pairs.last().1@)
    }
}

/// Binding after binding, two lists amount to the first one's map overlaid
/// with the second one's.
pub proof fn lemma_bindings_concat(a: Seq<(String, String)>, b: Seq<(String, String)>)
    ensures
        bindings(a + b) == bindings(a).union_prefer_right(bindings(b)),
    decreases b.len(),
{
    if b.len() == 0 {
        assert(a + b =~= a);
        assert(bindings(a).union_prefer_right(bindings(b)) =~= bindings(a));
    } else {
        assert((a + b).drop_last() =~= a + b.drop_last());
        assert((a + b).last() == b.last());
        lemma_bindings_concat(a, b.drop_last());
        assert(bindings(a + b) =~= bindings(a).union_prefer_right(bindings(b)));
    }
}

/// Named values, each name bound to one value.
#[derive(Debug)]
pub struct Params {
    pairs: Vec<(String, String)>,
}

impl View for Params {
    type V = Map<Seq<char>, Seq<char>>;

    closed spec fn view(&self) -> Map<Seq<char>, Seq<char>> {
        bindings(self.pairs@)
    }
}

impl Params {
    /// No parameter at all.
    pub fn new() -> (params: Params)
        ensures
            params@ == Map::<Seq<char>, Seq<char>>::empty(),
    {
        Params { pairs: Vec::new() }
    }

    /// Whether no name is bound.
    pub fn is_empty(&self) -> (empty: bool)
        ensures
            empty == (self@ == Map::<Seq<char>, Seq<char>>::empty()),
    {
        proof {
            if self.pairs@.len() > 0 {
                assert(self@.contains_key(self.pairs@.last().0@));
            }
        }
        self.pairs.len() == 0
    }

    /// Binds `name` to `value`; an earlier binding of `name` is superseded.
    pub fn insert(&mut self, name: String, value: String)
        ensures
            final(self)@ == old(self)@.insert(name@, value@),
    {
        self.pairs.push((name, value));
        proof {
            assert(self.pairs@.drop_last() =~= old(self).pairs@);
        }
    }

    /// The value bound to `name`, if any.
    pub fn get(&self, name: &str) -> (value: Option<&String>)
        ensures
            match value {
                Some(v) => self@.contains_key(name@) && self@[name@] == v@,
                None => !self@.contains_key(name@),
            },
    {
        let wanted: String = name.to_owned();
        let mut at: usize = self.pairs.len();
        proof {
            assert(self.pairs@.take(at as int) =~= self.pairs@);
        }
        while at > 0
            invariant
                at <= self.pairs.len(),
                wanted@ == name@,
                self@.contains_key(name@) <==> bindings(self.pairs@.take(at as int)).contains_key(
                    name@,
                ),
                self@.contains_key(name@) ==> self@[name@] == bindings(
                    self.pairs@.take(at as int),
                )[name@],
            decreases at,
        {
            at = at - 1;
            proof {
                assert(self.pairs@.take(at + 1).drop_last() =~= self.pairs@.take(at as int));
                assert(self.pairs@.take(at + 1).last() == self.pairs@[at as int]);
            }
            if self.pairs[at].0 == wanted {
                return Some(&self.pairs[at].1);
            }
        }
        None
    }

    /// Adds the bindings of `other`, which supersede those already held
    /// under the same names; every other binding stays.
    pub fn extend(&mut self, other: Params)
        ensures
            final(self)@ == old(self)@.union_prefer_right(other@),
    {
        let mut other = other;
        proof {
            lemma_bindings_concat(self.pairs@, other.pairs@);
        }
        self.pairs.append(&mut other.pairs);
    }

    /// The bindings one by one, in the order in which they were made. Read
    /// in that order into a map, they give the map this value stands for.
    pub fn pairs(&self) -> (pairs: &Vec<(String, String)>)
        ensures
            bindings(pairs@) == self@,
    {
        &self.pairs
    }
}

} // verus!
