//! What holds of every trie: the laws that relate registering a route to
//! resolving a request.

use vstd::prelude::*;
use crate::method::{same_method, uppercase};
use crate::model::{key_of, keys_of, wildcard_key, NodeView, RouteView};
use crate::path::{
    is_parameter, lemma_segments_joined, lemma_segments_of_separator, parameter_name, segments,
    SEPARATOR, SIGIL,
};
use crate::table::{built, Route};

verus! {

/// Whether no segment of a pattern captures a parameter.
pub open spec fn all_literal(pattern: Seq<Seq<char>>) -> bool {
    forall|i: int| 0 <= i < pattern.len() ==> !is_parameter(#[trigger] pattern[i])
}

/// Whether the segments of a request fit a pattern below `node`, each
/// parameter segment of the pattern capturing its counterpart: the two are
/// equally long, a literal segment of the pattern meets its own text, and
/// the text that meets a parameter segment is not the key of a child of the
/// node at which it is captured, neither a literal child's nor, being the
/// sigil alone, the parameter child's. A text that is such a key goes to
/// that child, and nothing is captured.
pub open spec fn captures<H>(
    node: NodeView<H>,
    pattern: Seq<Seq<char>>,
    request: Seq<Seq<char>>,
) -> bool
    decreases pattern.len(),
{
    &&& pattern.len() == request.len()
    &&& pattern.len() > 0 ==> {
        &&& if is_parameter(pattern[0]) {
            request[0] != wildcard_key() && !node.children.contains_key(request[0])
        } else {
            request[0] == pattern[0]
        }
        &&& captures(node.child_for(pattern[0]), pattern.drop_first(), request.drop_first())
    }
}

/// The parameters that a request which fits a pattern adds to `params`:
/// for each parameter segment of the pattern, from left to right, its name
/// bound to the text in its place.
pub open spec fn captured(
    pattern: Seq<Seq<char>>,
    request: Seq<Seq<char>>,
    params: Map<Seq<char>, Seq<char>>,
) -> Map<Seq<char>, Seq<char>>
    decreases pattern.len(),
{
    if pattern.len() == 0 || request.len() == 0 {
        params
    } else if is_parameter(pattern[0]) {
        captured(
            pattern.drop_first(),
            request.drop_first(),
            params.insert(parameter_name(pattern[0]), request[0]),
        )
    } else {
        captured(pattern.drop_first(), request.drop_first(), params)
    }
}

/// A pattern without parameter segments fits its own segments, below any
/// node, and captures nothing.
pub proof fn lemma_literal_captures<H>(
    node: NodeView<H>,
    pattern: Seq<Seq<char>>,
    params: Map<Seq<char>, Seq<char>>,
)
    requires
        all_literal(pattern),
    ensures
        captures(node, pattern, pattern),
        captured(pattern, pattern, params) == params,
    decreases pattern.len(),
{
    if pattern.len() > 0 {
        assert(!is_parameter(pattern[0]));
        assert forall|i: int| 0 <= i < pattern.drop_first().len() implies !is_parameter(
            #[trigger] pattern.drop_first()[i],
        ) by {
            assert(pattern.drop_first()[i] == pattern[i + 1]);
        }
        lemma_literal_captures(node.child_for(pattern[0]), pattern.drop_first(), params);
    }
}

/// After a route was registered below a node, the segments of a request
/// that fits its pattern lead to the node that holds the route, and capture
/// what the pattern's parameter segments name.
pub proof fn lemma_walk_inserted<H>(
    node: NodeView<H>,
    pattern: Seq<Seq<char>>,
    request: Seq<Seq<char>>,
    route: RouteView<H>,
    params: Map<Seq<char>, Seq<char>>,
)
    requires
        captures(node, pattern, request),
    ensures
        node.inserted(pattern, route).walk(request, params) is Some,
        node.inserted(pattern, route).walk(request, params).unwrap().0.entry == Some(route),
        node.inserted(pattern, route).walk(request, params).unwrap().1 == captured(
            pattern,
            request,
            params,
        ),
    decreases pattern.len(),
{
    if pattern.len() > 0 {
        let child = node.child_for(pattern[0]);
        let grown = child.inserted(pattern.drop_first(), route);
        let after = node.inserted(pattern, route);
        assert(after.children == node.children.insert(key_of(pattern[0]), grown));
        assert(grown.parameter_name == child.parameter_name);
        if is_parameter(pattern[0]) {
            let bound = params.insert(parameter_name(pattern[0]), request[0]);
            assert(!after.children.contains_key(request[0]));
            assert(after.children.contains_key(wildcard_key()));
            assert(grown.bind(params, request[0]) == bound);
            lemma_walk_inserted(child, pattern.drop_first(), request.drop_first(), route, bound);
        } else {
            assert(after.children.contains_key(request[0]));
            lemma_walk_inserted(child, pattern.drop_first(), request.drop_first(), route, params);
        }
    }
}

/// A request that fits the pattern of a route just registered, under a
/// method that is the registered one in upper case, resolves to the route's
/// handler, with the parameters that the pattern captures from it.
pub proof fn law_registered_route_resolves<H>(
    trie: NodeView<H>,
    registered: Seq<char>,
    pattern: Seq<char>,
    handler: H,
    asked: Seq<char>,
    path: Seq<char>,
)
    requires
        same_method(registered, asked),
        captures(trie, segments(pattern), segments(path)),
    ensures
        trie.with_route(registered, pattern, handler).route(asked, path) == Some(
            (handler, captured(segments(pattern), segments(path), Map::empty())),
        ),
{
    lemma_walk_inserted(
        trie,
        segments(pattern),
        segments(path),
        RouteView { method: registered, normalized: uppercase(registered), handler },
        Map::empty(),
    );
}

/// A path made of literal segments only, once registered, resolves to its
/// handler under the same method, with no parameter: in every trie,
/// whatever was registered before.
pub proof fn law_literal_route<H>(
    trie: NodeView<H>,
    method: Seq<char>,
    path: Seq<char>,
    handler: H,
)
    requires
        all_literal(segments(path)),
    ensures
        trie.with_route(method, path, handler).route(method, path) == Some(
            (handler, Map::<Seq<char>, Seq<char>>::empty()),
        ),
{
    lemma_literal_captures(trie, segments(path), Map::empty());
    law_registered_route_resolves(trie, method, path, handler, method, path);
}

/// What a pattern with one parameter segment captures from a request that
/// differs from it in that segment alone: the parameter's name, bound to
/// the text in its place.
pub proof fn lemma_captured_once(
    pattern: Seq<Seq<char>>,
    request: Seq<Seq<char>>,
    at: int,
    params: Map<Seq<char>, Seq<char>>,
)
    requires
        pattern.len() == request.len(),
        0 <= at < pattern.len(),
        is_parameter(pattern[at]),
        forall|i: int| 0 <= i < pattern.len() && i != at ==> !is_parameter(#[trigger] pattern[i]),
    ensures
        captured(pattern, request, params) == params.insert(
            parameter_name(pattern[at]),
            request[at],
        ),
    decreases pattern.len(),
{
    let rest = pattern.drop_first();
    if at == 0 {
        assert forall|i: int| 0 <= i < rest.len() implies !is_parameter(#[trigger] rest[i]) by {
            assert(rest[i] == pattern[i + 1]);
        }
        lemma_captured_none(
            rest,
            request.drop_first(),
            params.insert(parameter_name(pattern[0]), request[0]),
        );
    } else {
        assert(!is_parameter(pattern[0]));
        assert(rest[at - 1] == pattern[at]);
        assert(request.drop_first()[at - 1] == request[at]);
        assert forall|i: int| 0 <= i < rest.len() && i != at - 1 implies !is_parameter(
            #[trigger] rest[i],
        ) by {
            assert(rest[i] == pattern[i + 1]);
        }
        lemma_captured_once(rest, request.drop_first(), at - 1, params);
    }
}

/// A pattern without parameter segments captures nothing.
pub proof fn lemma_captured_none(
    pattern: Seq<Seq<char>>,
    request: Seq<Seq<char>>,
    params: Map<Seq<char>, Seq<char>>,
)
    requires
        all_literal(pattern),
    ensures
        captured(pattern, request, params) == params,
    decreases pattern.len(),
{
    if pattern.len() > 0 && request.len() > 0 {
        let rest = pattern.drop_first();
        assert(!is_parameter(pattern[0]));
        assert forall|i: int| 0 <= i < rest.len() implies !is_parameter(#[trigger] rest[i]) by {
            assert(rest[i] == pattern[i + 1]);
        }
        lemma_captured_none(rest, request.drop_first(), params);
    }
}

/// A pattern with one parameter segment, once registered, resolves every
/// request that fits it to its handler, with exactly one parameter: the
/// segment's name, bound to the text that stands in its place in the
/// request.
pub proof fn law_parameter_route<H>(
    trie: NodeView<H>,
    method: Seq<char>,
    pattern: Seq<char>,
    handler: H,
    path: Seq<char>,
    at: int,
)
    requires
        0 <= at < segments(pattern).len(),
        is_parameter(segments(pattern)[at]),
        forall|i: int|
            0 <= i < segments(pattern).len() && i != at ==> !is_parameter(
                #[trigger] segments(pattern)[i],
            ),
        captures(trie, segments(pattern), segments(path)),
    ensures
        trie.with_route(method, pattern, handler).route(method, path) == Some(
            (
                handler,
                Map::<Seq<char>, Seq<char>>::empty().insert(
                    parameter_name(segments(pattern)[at]),
                    segments(path)[at],
                ),
            ),
        ),
{
    law_registered_route_resolves(trie, method, pattern, handler, method, path);
    lemma_captured_once(segments(pattern), segments(path), at, Map::empty());
}

/// Below a node without children, a pattern captures from every request
/// that it admits, provided that no text in the place of a parameter
/// segment is the sigil alone.
pub proof fn lemma_captures_below_leaf<H>(
    node: NodeView<H>,
    pattern: Seq<Seq<char>>,
    request: Seq<Seq<char>>,
)
    requires
        node.children == Map::<Seq<char>, NodeView<H>>::empty(),
        admits(pattern, request),
        forall|j: int|
            0 <= j < pattern.len() && is_parameter(#[trigger] pattern[j]) ==> request[j]
                != wildcard_key(),
    ensures
        captures(node, pattern, request),
    decreases pattern.len(),
{
    if pattern.len() > 0 {
        let rest = pattern.drop_first();
        let child = node.child_for(pattern[0]);
        assert(child.children == Map::<Seq<char>, NodeView<H>>::empty());
        assert(is_parameter(pattern[0]) || pattern[0] == request[0]);
        assert forall|j: int| 0 <= j < rest.len() implies is_parameter(#[trigger] rest[j])
            || rest[j] == request.drop_first()[j] by {
            assert(rest[j] == pattern[j + 1]);
            assert(is_parameter(pattern[j + 1]) || pattern[j + 1] == request[j + 1]);
        }
        assert forall|j: int| 0 <= j < rest.len() && is_parameter(
            #[trigger] rest[j],
        ) implies request.drop_first()[j] != wildcard_key() by {
            assert(rest[j] == pattern[j + 1]);
        }
        lemma_captures_below_leaf(child, rest, request.drop_first());
    }
}

/// In a table with one route, every request whose path the route's pattern
/// admits, under a method that is the registered one in upper case,
/// resolves to the route's handler with what the pattern captures,
/// provided that no text in the place of a parameter segment is the sigil
/// alone.
pub proof fn law_single_route<H>(
    registered: Seq<char>,
    pattern: Seq<char>,
    handler: H,
    asked: Seq<char>,
    path: Seq<char>,
)
    requires
        same_method(registered, asked),
        admits(segments(pattern), segments(path)),
        forall|j: int|
            0 <= j < segments(pattern).len() && is_parameter(#[trigger] segments(pattern)[j])
                ==> segments(path)[j] != wildcard_key(),
    ensures
        NodeView::<H>::empty().with_route(registered, pattern, handler).route(asked, path) == Some(
            (handler, captured(segments(pattern), segments(path), Map::empty())),
        ),
{
    lemma_captures_below_leaf(NodeView::<H>::empty(), segments(pattern), segments(path));
    law_registered_route_resolves(
        NodeView::<H>::empty(),
        registered,
        pattern,
        handler,
        asked,
        path,
    );
}

/// A path whose segments lead nowhere, or to a node at which no route
/// ends, resolves to nothing, whatever the method.
pub proof fn law_unknown_path<H>(trie: NodeView<H>, method: Seq<char>, path: Seq<char>)
    requires
        match trie.walk(segments(path), Map::empty()) {
            Some((node, _)) => node.entry.is_none(),
            None => true,
        },
    ensures
        trie.route(method, path).is_none(),
{
}

/// A trie without routes resolves nothing.
pub proof fn law_empty_trie<H>(method: Seq<char>, path: Seq<char>)
    ensures
        NodeView::<H>::empty().route(method, path).is_none(),
{
}

/// A request that fits the pattern of a route just registered, under a
/// method that is not the registered one even in upper case, resolves to
/// nothing.
pub proof fn law_wrong_method<H>(
    trie: NodeView<H>,
    registered: Seq<char>,
    pattern: Seq<char>,
    handler: H,
    asked: Seq<char>,
    path: Seq<char>,
)
    requires
        !same_method(registered, asked),
        captures(trie, segments(pattern), segments(path)),
    ensures
        trie.with_route(registered, pattern, handler).route(asked, path).is_none(),
{
    lemma_walk_inserted(
        trie,
        segments(pattern),
        segments(path),
        RouteView { method: registered, normalized: uppercase(registered), handler },
        Map::empty(),
    );
}

/// Two methods that are equal in upper case resolve alike, in every trie
/// and for every path.
pub proof fn law_method_case<H>(
    trie: NodeView<H>,
    one: Seq<char>,
    other: Seq<char>,
    path: Seq<char>,
)
    requires
        same_method(one, other),
    ensures
        trie.route(one, path) == trie.route(other, path),
{
}

/// Whether a pattern admits the segments of a request: the two are equally
/// long, and each segment of the pattern either captures a parameter or is
/// the text in its place.
pub open spec fn admits(pattern: Seq<Seq<char>>, request: Seq<Seq<char>>) -> bool {
    &&& pattern.len() == request.len()
    &&& forall|j: int|
        0 <= j < pattern.len() ==> is_parameter(#[trigger] pattern[j]) || pattern[j] == request[j]
}

/// A declaration as the route that the table keeps for it.
pub open spec fn declared<H>(route: Route<H>) -> RouteView<H> {
    RouteView {
        method: route.method@,
        normalized: uppercase(route.method@),
        handler: route.handler,
    }
}

/// The route that a list of declarations leaves under a sequence of keys:
/// the last one whose pattern has these keys.
pub open spec fn declared_at<H>(routes: Seq<Route<H>>, keys: Seq<Seq<char>>) -> Option<
    RouteView<H>,
>
    decreases routes.len(),
{
    if routes.len() == 0 {
        None
    } else if keys_of(segments(routes.last().path@)) == keys {
        Some(declared(routes.last()))
    } else {
        declared_at(routes.drop_last(), keys)
    }
}

/// A walk that arrives has gone through one child per segment, each kept
/// under the segment's text or under the sigil, and has arrived where
/// these keys lead.
pub proof fn lemma_walk_trail<H>(
    node: NodeView<H>,
    segs: Seq<Seq<char>>,
    params: Map<Seq<char>, Seq<char>>,
)
    requires
        node.walk(segs, params) is Some,
    ensures
        node.trail(segs).len() == segs.len(),
        forall|j: int|
            0 <= j < segs.len() ==> #[trigger] node.trail(segs)[j] == segs[j] || node.trail(
                segs,
            )[j] == wildcard_key(),
        node.descend(node.trail(segs)) == Some(node.walk(segs, params).unwrap().0),
    decreases segs.len(),
{
    if segs.len() > 0 {
        let rest = segs.drop_first();
        let key = if node.children.contains_key(segs[0]) {
            segs[0]
        } else {
            wildcard_key()
        };
        let child = node.children[key];
        let bound = if node.children.contains_key(segs[0]) {
            params
        } else {
            child.bind(params, segs[0])
        };
        lemma_walk_trail(child, rest, bound);
        let trail = node.trail(segs);
        assert(trail == seq![key] + child.trail(rest));
        assert(trail[0] == key);
        assert(trail.drop_first() =~= child.trail(rest));
        assert forall|j: int| 0 <= j < segs.len() implies #[trigger] trail[j] == segs[j]
            || trail[j] == wildcard_key() by {
            if j > 0 {
                assert(trail[j] == child.trail(rest)[j - 1]);
                assert(rest[j - 1] == segs[j]);
            }
        }
    }
}

/// Registering a route changes the route under the keys of its pattern,
/// and under no other keys.
pub proof fn lemma_entry_at_inserted<H>(
    node: NodeView<H>,
    pattern: Seq<Seq<char>>,
    route: RouteView<H>,
    keys: Seq<Seq<char>>,
)
    ensures
        node.inserted(pattern, route).entry_at(keys) == if keys == keys_of(pattern) {
            Some(route)
        } else {
            node.entry_at(keys)
        },
    decreases pattern.len(),
{
    let after = node.inserted(pattern, route);
    if pattern.len() == 0 {
        assert(keys_of(pattern) =~= Seq::<Seq<char>>::empty());
        if keys.len() == 0 {
            assert(keys =~= keys_of(pattern));
        } else {
            assert(after.children == node.children);
        }
    } else {
        let key = key_of(pattern[0]);
        let child = node.child_for(pattern[0]);
        let grown = child.inserted(pattern.drop_first(), route);
        assert(after.children == node.children.insert(key, grown));
        assert(keys_of(pattern)[0] == key);
        assert(keys_of(pattern).drop_first() =~= keys_of(pattern.drop_first()));
        if keys.len() == 0 {
            assert(after.entry == node.entry);
        } else if keys[0] == key {
            let rest = keys.drop_first();
            lemma_entry_at_inserted(child, pattern.drop_first(), route, rest);
            assert(after.descend(keys) == grown.descend(rest));
            if rest == keys_of(pattern.drop_first()) {
                assert(keys.len() == pattern.len());
                assert forall|j: int| 0 <= j < keys.len() implies keys[j] == keys_of(
                    pattern,
                )[j] by {
                    if j > 0 {
                        assert(keys[j] == rest[j - 1]);
                        assert(pattern.drop_first()[j - 1] == pattern[j]);
                    }
                }
                assert(keys =~= keys_of(pattern));
            } else {
                assert(keys != keys_of(pattern)) by {
                    if keys == keys_of(pattern) {
                        assert(rest =~= keys_of(pattern.drop_first()));
                    }
                }
                if node.children.contains_key(key) {
                    let found = node.children[key];
                    assert(child.children == found.children);
                    assert(child.entry == found.entry);
                    assert(child.entry_at(rest) == found.entry_at(rest));
                } else {
                    assert(child.children == Map::<Seq<char>, NodeView<H>>::empty());
                    assert(child.entry.is_none());
                    assert(child.entry_at(rest).is_none());
                }
            }
        } else {
            assert(after.children.contains_key(keys[0]) == node.children.contains_key(keys[0]));
        }
    }
}

/// The table built from a list of declarations holds, under every sequence
/// of keys, the last route declared with them, and no other route.
pub proof fn lemma_built_entries<H>(routes: Seq<Route<H>>, keys: Seq<Seq<char>>)
    ensures
        built(routes).entry_at(keys) == declared_at(routes, keys),
    decreases routes.len(),
{
    if routes.len() > 0 {
        lemma_built_entries(routes.drop_last(), keys);
        lemma_entry_at_inserted(
            built(routes.drop_last()),
            segments(routes.last().path@),
            declared(routes.last()),
            keys,
        );
    }
}

/// A route that a list of declarations leaves under some keys is one of
/// the list, declared with a pattern of these keys.
pub proof fn lemma_declared_at_is_declared<H>(routes: Seq<Route<H>>, keys: Seq<Seq<char>>) -> (at:
    int)
    requires
        declared_at(routes, keys) is Some,
    ensures
        0 <= at < routes.len(),
        keys_of(segments(routes[at].path@)) == keys,
        declared_at(routes, keys) == Some(declared(routes[at])),
    decreases routes.len(),
{
    if keys_of(segments(routes.last().path@)) == keys {
        routes.len() - 1
    } else {
        lemma_declared_at_is_declared(routes.drop_last(), keys)
    }
}

/// Whatever a table resolves a request to was declared: the handler is
/// that of a declaration whose pattern admits the request's path and whose
/// method is the request's in upper case.
pub proof fn law_resolved_was_declared<H>(
    routes: Seq<Route<H>>,
    method: Seq<char>,
    path: Seq<char>,
) -> (at: int)
    requires
        built(routes).route(method, path) is Some,
    ensures
        0 <= at < routes.len(),
        admits(segments(routes[at].path@), segments(path)),
        same_method(routes[at].method@, method),
        routes[at].handler == built(routes).route(method, path).unwrap().0,
{
    let table = built(routes);
    let segs = segments(path);
    let none = Map::<Seq<char>, Seq<char>>::empty();
    lemma_walk_trail(table, segs, none);
    let keys = table.trail(segs);
    lemma_built_entries(routes, keys);
    let at = lemma_declared_at_is_declared(routes, keys);
    let pattern = segments(routes[at].path@);
    assert(keys_of(pattern).len() == pattern.len());
    assert forall|j: int| 0 <= j < pattern.len() implies is_parameter(#[trigger] pattern[j])
        || pattern[j] == segs[j] by {
        assert(keys_of(pattern)[j] == key_of(pattern[j]));
        assert(keys[j] == segs[j] || keys[j] == wildcard_key());
        if !is_parameter(pattern[j]) && keys[j] == wildcard_key() {
            assert(pattern[j] == wildcard_key());
            assert(pattern[j][0] == SIGIL);
        }
    }
    at
}

/// A path that no declared pattern admits resolves to nothing, whatever
/// the method.
pub proof fn law_undeclared_path<H>(routes: Seq<Route<H>>, method: Seq<char>, path: Seq<char>)
    requires
        forall|i: int|
            0 <= i < routes.len() ==> !admits(
                segments(#[trigger] routes[i].path@),
                segments(path),
            ),
    ensures
        built(routes).route(method, path).is_none(),
{
    if built(routes).route(method, path) is Some {
        let at = law_resolved_was_declared(routes, method, path);
        assert(admits(segments(routes[at].path@), segments(path)));
    }
}

/// A path that declared patterns admit, but none of them under the
/// request's method, resolves to nothing.
pub proof fn law_undeclared_method<H>(routes: Seq<Route<H>>, method: Seq<char>, path: Seq<char>)
    requires
        forall|i: int|
            0 <= i < routes.len() && admits(segments(#[trigger] routes[i].path@), segments(path))
                ==> !same_method(routes[i].method@, method),
    ensures
        built(routes).route(method, path).is_none(),
{
    if built(routes).route(method, path) is Some {
        let at = law_resolved_was_declared(routes, method, path);
        assert(admits(segments(routes[at].path@), segments(path)));
    }
}

/// Separators at the start of a path, at its end, or repeated inside it
/// change nothing: the path has the same segments with them as without,
/// and so registers and resolves alike.
pub proof fn law_slashes_ignored(a: Seq<char>, b: Seq<char>)
    ensures
        segments(seq![SEPARATOR] + a) == segments(a),
        segments(a + seq![SEPARATOR]) == segments(a),
        segments(a + seq![SEPARATOR, SEPARATOR] + b) == segments(a + seq![SEPARATOR] + b),
{
    let none = Seq::<char>::empty();
    lemma_segments_of_separator();
    lemma_segments_joined(none, a);
    assert(none + seq![SEPARATOR] + a =~= seq![SEPARATOR] + a);
    assert(segments(none) + segments(a) =~= segments(a));
    lemma_segments_joined(a, none);
    assert(a + seq![SEPARATOR] + none =~= a + seq![SEPARATOR]);
    assert(segments(a) + segments(none) =~= segments(a));
    lemma_segments_joined(a, seq![SEPARATOR] + b);
    assert(a + seq![SEPARATOR] + (seq![SEPARATOR] + b) =~= a + seq![SEPARATOR, SEPARATOR] + b);
    lemma_segments_joined(none, b);
    assert(none + seq![SEPARATOR] + b =~= seq![SEPARATOR] + b);
    assert(segments(none) + segments(b) =~= segments(b));
    lemma_segments_joined(a, b);
}

/// A request resolves alike whether or not its path starts with a
/// separator, ends with one, or has one repeated; and a pattern registers
/// alike.
pub proof fn law_slashes_resolve_alike<H>(
    trie: NodeView<H>,
    method: Seq<char>,
    a: Seq<char>,
    b: Seq<char>,
    handler: H,
)
    ensures
        trie.route(method, seq![SEPARATOR] + a) == trie.route(method, a),
        trie.route(method, a + seq![SEPARATOR]) == trie.route(method, a),
        trie.route(method, a + seq![SEPARATOR, SEPARATOR] + b) == trie.route(
            method,
            a + seq![SEPARATOR] + b,
        ),
        trie.with_route(method, seq![SEPARATOR] + a, handler) == trie.with_route(
            method,
            a,
            handler,
        ),
        trie.with_route(method, a + seq![SEPARATOR], handler) == trie.with_route(
            method,
            a,
            handler,
        ),
        trie.with_route(method, a + seq![SEPARATOR, SEPARATOR] + b, handler) == trie.with_route(
            method,
            a + seq![SEPARATOR] + b,
            handler,
        ),
{
    law_slashes_ignored(a, b);
}

/// Two paths with the same segments resolve alike and register alike.
pub proof fn law_same_segments<H>(
    trie: NodeView<H>,
    method: Seq<char>,
    one: Seq<char>,
    other: Seq<char>,
    handler: H,
)
    requires
        segments(one) == segments(other),
    ensures
        trie.route(method, one) == trie.route(method, other),
        trie.with_route(method, one, handler) == trie.with_route(method, other, handler),
{
}

} // verus!
