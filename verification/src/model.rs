//! The mathematical model of the route trie: what a node is, what inserting
//! a route makes of it, and what a lookup finds in it.

use vstd::prelude::*;
use crate::method::uppercase;
use crate::path::{is_parameter, parameter_name, segments, SIGIL};

verus! {

/// The key under which a node keeps its one parameter child. Literal
/// children are kept under their own text, in the same map.
pub open spec fn wildcard_key() -> Seq<char> {
    seq![SIGIL]
}

/// The key under which a segment of a pattern is kept.
pub open spec fn key_of(segment: Seq<char>) -> Seq<char> {
    if is_parameter(segment) {
        wildcard_key()
    } else {
        segment
    }
}

/// The keys of a whole pattern.
pub open spec fn keys_of(pattern: Seq<Seq<char>>) -> Seq<Seq<char>> {
    Seq::new(pattern.len(), |i: int| key_of(pattern[i]))
}

/// The route that ends at a node.
pub ghost struct RouteView<H> {
    /// The method as it was registered.
    pub method: Seq<char>,
    /// The form of the method by which requests are compared.
    pub normalized: Seq<char>,
    /// The handler that serves the route.
    pub handler: H,
}

/// A node of the trie as a value.
pub ghost struct NodeView<H> {
    /// The children, by key.
    pub children: Map<Seq<char>, NodeView<H>>,
    /// The name under which a parameter child exposes what it captured.
    pub parameter_name: Option<Seq<char>>,
    /// The route that ends here.
    pub entry: Option<RouteView<H>>,
}

impl<H> NodeView<H> {
    /// A node without children, name or route.
    pub open spec fn empty() -> Self {
        NodeView { children: Map::empty(), parameter_name: None, entry: None }
    }

    /// The child that the next segment of a pattern leads to: the one kept
    /// under the segment's key, or a fresh one; a parameter segment leaves
    /// its name on it.
    pub open spec fn child_for(self, segment: Seq<char>) -> Self {
        let found = if self.children.contains_key(key_of(segment)) {
            self.children[key_of(segment)]
        } else {
            Self::empty()
        };
        if is_parameter(segment) {
            NodeView { parameter_name: Some(parameter_name(segment)), ..found }
        } else {
            found
        }
    }

    /// The node after a route was registered below it: every segment of the
    /// pattern has its child, and the last one reached holds the route, in
    /// place of any that it held before.
    pub open spec fn inserted(self, pattern: Seq<Seq<char>>, route: RouteView<H>) -> Self
        decreases pattern.len(),
    {
        if pattern.len() == 0 {
            NodeView { entry: Some(route), ..self }
        } else {
            NodeView {
                children: self.children.insert(
                    key_of(pattern[0]),
                    self.child_for(pattern[0]).inserted(pattern.drop_first(), route),
                ),
                ..self
            }
        }
    }

    /// The parameters after this node, reached as a parameter child, has
    /// captured `value`.
    pub open spec fn bind(self, params: Map<Seq<char>, Seq<char>>, value: Seq<char>) -> Map<
        Seq<char>,
        Seq<char>,
    > {
        match self.parameter_name {
            Some(name) => params.insert(name, value),
            None => params,
        }
    }

    /// Walks down from this node, one child per segment: the child kept
    /// under the segment's own text where there is one, else the parameter
    /// child, which captures the segment. Gives the node reached and the
    /// parameters captured on the way, added to `params`; nothing where a
    /// segment finds no child.
    pub open spec fn walk(self, segs: Seq<Seq<char>>, params: Map<Seq<char>, Seq<char>>) -> Option<
        (Self, Map<Seq<char>, Seq<char>>),
    >
        decreases segs.len(),
    {
        if segs.len() == 0 {
            Some((self, params))
        } else if self.children.contains_key(segs[0]) {
            self.children[segs[0]].walk(segs.drop_first(), params)
        } else if self.children.contains_key(wildcard_key()) {
            self.children[wildcard_key()].walk(
                segs.drop_first(),
                self.children[wildcard_key()].bind(params, segs[0]),
            )
        } else {
            None
        }
    }

    /// The node that a sequence of keys leads to, child by child.
    pub open spec fn descend(self, keys: Seq<Seq<char>>) -> Option<Self>
        decreases keys.len(),
    {
        if keys.len() == 0 {
            Some(self)
        } else if self.children.contains_key(keys[0]) {
            self.children[keys[0]].descend(keys.drop_first())
        } else {
            None
        }
    }

    /// The route that ends at the node which a sequence of keys leads to.
    pub open spec fn entry_at(self, keys: Seq<Seq<char>>) -> Option<RouteView<H>> {
        match self.descend(keys) {
            Some(node) => node.entry,
            None => None,
        }
    }

    /// The keys of the children that a walk goes through, segment by
    /// segment.
    pub open spec fn trail(self, segs: Seq<Seq<char>>) -> Seq<Seq<char>>
        decreases segs.len(),
    {
        if segs.len() == 0 {
            Seq::empty()
        } else if self.children.contains_key(segs[0]) {
            seq![segs[0]] + self.children[segs[0]].trail(segs.drop_first())
        } else if self.children.contains_key(wildcard_key()) {
            seq![wildcard_key()] + self.children[wildcard_key()].trail(segs.drop_first())
        } else {
            Seq::empty()
        }
    }

    /// What a request for `path` resolves to, its method given in the form
    /// by which methods are compared: the handler of the route that ends at
    /// the node which the path's segments lead to, if that route was
    /// registered under this form, with the captured parameters.
    pub open spec fn resolve(self, normalized: Seq<char>, path: Seq<char>) -> Option<
        (H, Map<Seq<char>, Seq<char>>),
    > {
        match self.walk(segments(path), Map::empty()) {
            Some((node, params)) => match node.entry {
                Some(route) => if route.normalized == normalized {
                    Some((route.handler, params))
                } else {
                    None
                },
                None => None,
            },
            None => None,
        }
    }

    /// What a request for `path` with `method` resolves to: methods are
    /// compared in upper case.
    pub open spec fn route(self, method: Seq<char>, path: Seq<char>) -> Option<
        (H, Map<Seq<char>, Seq<char>>),
    > {
        self.resolve(uppercase(method), path)
    }

    /// This node with the route `(method, pattern, handler)` registered.
    pub open spec fn with_route(self, method: Seq<char>, pattern: Seq<char>, handler: H) -> Self {
        self.inserted(
            segments(pattern),
            RouteView { method, normalized: uppercase(method), handler },
        )
    }
}

} // verus!
