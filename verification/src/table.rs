//! The route table: the declared routes, and the trie that is built from
//! them once, before the first request is served.

use vstd::prelude::*;
use crate::model::NodeView;
use crate::trie::Trie;

verus! {

/// A declared route: a handler for a method and a path pattern.
pub struct Route<H> {
    pub method: String,
    pub path: String,
    pub handler: H,
}

/// The trie that a list of declarations builds: each route registered in
/// the order of the list, so that of two routes for one pattern the later
/// one stays.
pub open spec fn built<H>(routes: Seq<Route<H>>) -> NodeView<H>
    decreases routes.len(),
{
    if routes.len() == 0 {
        NodeView::empty()
    } else {
        built(routes.drop_last()).with_route(
            routes.last().method@,
            routes.last().path@,
            routes.last().handler,
        )
    }
}

/// Declares a route: adds it to the end of the list from which the table
/// will be built.
pub fn route<H>(routes: &mut Vec<Route<H>>, method: &str, path: &str, handler: H)
    ensures
        final(routes)@.len() == old(routes)@.len() + 1,
        final(routes)@.drop_last() == old(routes)@,
        final(routes)@.last().method@ == method@,
        final(routes)@.last().path@ == path@,
        final(routes)@.last().handler == handler,
{
    routes.push(Route { method: method.to_owned(), path: path.to_owned(), handler });
    assert(routes@.drop_last() =~= old(routes)@);
}

/// Builds the route table: a fresh trie with every declared route
/// registered, in the order of the list.
pub fn generate_routes<H>(routes: Vec<Route<H>>) -> (trie: Trie<H>)
    ensures
        trie.wf(),
        trie@ == built(routes@),
{
    let mut trie: Trie<H> = Trie::new();
    for declared in it: routes
        invariant
            it.seq() == routes@,
            trie.wf(),
            trie@ == built(routes@.take(it.index())),
    {
        proof {
            let upto = routes@.take(it.index() + 1);
            assert(upto.drop_last() =~= routes@.take(it.index()));
            assert(upto.last() == declared);
        }
        trie.insert(declared.method.as_str(), declared.path.as_str(), declared.handler);
    }
    assert(routes@.take(routes@.len() as int) =~= routes@);
    trie
}

} // verus!
