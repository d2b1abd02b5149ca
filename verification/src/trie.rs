//! The route trie: one node per segment of the registered patterns.

use vstd::prelude::*;
use crate::method::to_uppercase;
use crate::model::{key_of, wildcard_key, NodeView, RouteView};
use crate::params::Params;
use crate::path::{segments, split_path, starts_with_sigil, texts};

verus! {

/// The route that ends at a node.
#[derive(Debug)]
struct RouteEntry<H> {
    /// The method as it was registered.
    method: String,
    /// The form of the method by which requests are compared.
    normalized: String,
    handler: H,
}

/// A child of a node, under its key.
#[derive(Debug)]
struct Edge<H> {
    key: String,
    node: TrieNode<H>,
}

/// A node of the trie: the children that the next segment can lead to, the
/// name of the parameter that the node captures if it is a parameter child,
/// and the route that ends here, if one does.
#[derive(Debug)]
pub struct TrieNode<H> {
    children: Vec<Edge<H>>,
    parameter_name: Option<String>,
    entry: Option<RouteEntry<H>>,
}

/// The route trie. It owns its root and every node below; routes are added
/// and never removed.
#[derive(Debug)]
pub struct Trie<H> {
    root: TrieNode<H>,
}

spec fn edges_view<H>(edges: Seq<Edge<H>>) -> Map<Seq<char>, NodeView<H>>
    decreases edges,
{
    if edges.len() == 0 {
        Map::empty()
    } else {
        edges_view(edges.drop_last()).insert(edges.last().key@, node_view(edges.last().node))
    }
}

spec fn node_view<H>(node: TrieNode<H>) -> NodeView<H>
    decreases node,
{
    NodeView {
        children: edges_view(node.children@),
        parameter_name: match node.parameter_name {
            Some(name) => Some(name@),
            None => None,
        },
        entry: match node.entry {
            Some(entry) => Some(
                RouteView {
                    method: entry.method@,
                    normalized: entry.normalized@,
                    handler: entry.handler,
                },
            ),
            None => None,
        },
    }
}

spec fn distinct_keys<H>(edges: Seq<Edge<H>>) -> bool {
    forall|i: int, j: int| 0 <= i < j < edges.len() ==> edges[i].key@ != edges[j].key@
}

spec fn node_wf<H>(node: TrieNode<H>) -> bool
    decreases node,
{
    &&& distinct_keys(node.children@)
    &&& forall|i: int| 0 <= i < node.children.len() ==> node_wf(#[trigger] node.children[i].node)
}

proof fn lemma_edges_absent<H>(edges: Seq<Edge<H>>, key: Seq<char>)
    requires
        forall|i: int| 0 <= i < edges.len() ==> edges[i].key@ != key,
    ensures
        !edges_view(edges).contains_key(key),
    decreases edges.len(),
{
    if edges.len() > 0 {
        lemma_edges_absent(edges.drop_last(), key);
    }
}

proof fn lemma_edges_present<H>(edges: Seq<Edge<H>>, at: int)
    requires
        distinct_keys(edges),
        0 <= at < edges.len(),
    ensures
        edges_view(edges).contains_key(edges[at].key@),
        edges_view(edges)[edges[at].key@] == node_view(edges[at].node),
    decreases edges.len(),
{
    if at < edges.len() - 1 {
        lemma_edges_present(edges.drop_last(), at);
    }
}

proof fn lemma_edges_update<H>(edges: Seq<Edge<H>>, at: int, edge: Edge<H>)
    requires
        distinct_keys(edges),
        0 <= at < edges.len(),
        edges[at].key@ == edge.key@,
    ensures
        edges_view(edges.update(at, edge)) == edges_view(edges).insert(
            edge.key@,
            node_view(edge.node),
        ),
    decreases edges.len(),
{
    let after = edges.update(at, edge);
    if at == edges.len() - 1 {
        assert(after.drop_last() =~= edges.drop_last());
        assert(edges_view(after) =~= edges_view(edges).insert(edge.key@, node_view(edge.node)));
    } else {
        lemma_edges_update(edges.drop_last(), at, edge);
        assert(after.drop_last() =~= edges.drop_last().update(at, edge));
        assert(after.last() == edges.last());
        assert(edges_view(after) =~= edges_view(edges).insert(edge.key@, node_view(edge.node)));
    }
}

proof fn lemma_edges_count<H>(edges: Seq<Edge<H>>)
    requires
        distinct_keys(edges),
    ensures
        edges_view(edges).dom().finite(),
        edges_view(edges).len() == edges.len(),
    decreases edges.len(),
{
    if edges.len() > 0 {
        lemma_edges_count(edges.drop_last());
        lemma_edges_absent(edges.drop_last(), edges.last().key@);
    }
}

impl<H> View for TrieNode<H> {
    type V = NodeView<H>;

    closed spec fn view(&self) -> NodeView<H> {
        node_view(*self)
    }
}

impl<H> TrieNode<H> {
    /// Whether the node is sound: no two children share a key, here and in
    /// every node below.
    pub closed spec fn wf(&self) -> bool {
        node_wf(*self)
    }

    fn new() -> (node: Self)
        ensures
            node.wf(),
            node@ == NodeView::<H>::empty(),
    {
        let node = TrieNode { children: Vec::new(), parameter_name: None, entry: None };
        assert(node_view(node).children =~= Map::empty());
        node
    }

    /// Where the child under `key` stands among the children.
    fn find(&self, key: &String) -> (at: Option<usize>)
        requires
            self.wf(),
        ensures
            match at {
                Some(i) => {
                    &&& i < self.children.len()
                    &&& self.children[i as int].key@ == key@
                    &&& self@.children.contains_key(key@)
                    &&& self@.children[key@] == self.children[i as int].node@
                    &&& self.children[i as int].node.wf()
                },
                None => {
                    &&& forall|i: int| 0 <= i < self.children.len() ==> self.children[i].key@ != key@
                    &&& !self@.children.contains_key(key@)
                },
            },
    {
        let mut i: usize = 0;
        while i < self.children.len()
            invariant
                self.wf(),
                i <= self.children.len(),
                forall|j: int| 0 <= j < i ==> self.children[j].key@ != key@,
            decreases self.children.len() - i,
        {
            if self.children[i].key == *key {
                proof {
                    lemma_edges_present(self.children@, i as int);
                }
                return Some(i);
            }
            i = i + 1;
        }
        proof {
            lemma_edges_absent(self.children@, key@);
        }
        None
    }

    /// Registers the route below this node, by the segments of its pattern
    /// from `from` on.
    fn insert_at(
        &mut self,
        pattern: &Vec<String>,
        from: usize,
        method: &str,
        normalized: &str,
        handler: H,
    )
        requires
            old(self).wf(),
            from <= pattern.len(),
        ensures
            final(self).wf(),
            final(self)@ == old(self)@.inserted(
                texts(pattern@).skip(from as int),
                RouteView { method: method@, normalized: normalized@, handler },
            ),
        decreases pattern.len() - from,
    {
        let ghost rest = texts(pattern@).skip(from as int);
        if from == pattern.len() {
            self.entry = Some(
                RouteEntry { method: method.to_owned(), normalized: normalized.to_owned(), handler },
            );
        } else {
            let segment: &String = &pattern[from];
            let captures = starts_with_sigil(segment.as_str());
            let key: String = if captures {
                wildcard()
            } else {
                segment.clone()
            };
            assert(rest[0] == segment@);
            assert(rest.drop_first() =~= texts(pattern@).skip(from + 1));
            assert(key@ == key_of(segment@));
            let ghost before = self.children@;
            let at: usize = match self.find(&key) {
                Some(i) => i,
                None => {
                    self.children.push(Edge { key, node: TrieNode::new() });
                    self.children.len() - 1
                },
            };
            let ghost linked = self.children@;
            proof {
                if linked.len() > before.len() {
                    assert(linked.drop_last() =~= before);
                    assert(distinct_keys(linked));
                }
            }
            if captures {
                let name = segment.as_str().substring_char(1, segment.as_str().unicode_len());
                self.children[at].node.parameter_name = Some(name.to_owned());
            }
            let ghost named = self.children@;
            assert(node_wf(named[at as int].node));
            assert(node_view(named[at as int].node) == old(self)@.child_for(segment@));
            self.children[at].node.insert_at(pattern, from + 1, method, normalized, handler);
            proof {
                let done = self.children@;
                assert(named =~= linked.update(at as int, named[at as int]));
                lemma_edges_update(linked, at as int, named[at as int]);
                assert(done =~= named.update(at as int, done[at as int]));
                lemma_edges_update(named, at as int, done[at as int]);
                assert(edges_view(done) =~= old(self)@.children.insert(
                    key_of(segment@),
                    node_view(done[at as int].node),
                ));
                assert(distinct_keys(done));
            }
        }
    }

    /// Whether a route ends at this node.
    pub fn is_end_of_path(&self) -> (ends: bool)
        ensures
            ends == self@.entry.is_some(),
    {
        self.entry.is_some()
    }

    /// The method of the route that ends here, as it was registered.
    pub fn method(&self) -> (method: Option<&String>)
        ensures
            match method {
                Some(m) => self@.entry.is_some() && self@.entry.unwrap().method == m@,
                None => self@.entry.is_none(),
            },
    {
        match &self.entry {
            Some(entry) => Some(&entry.method),
            None => None,
        }
    }

    /// The handler of the route that ends here.
    pub fn handler(&self) -> (handler: Option<&H>)
        ensures
            match handler {
                Some(h) => self@.entry.is_some() && self@.entry.unwrap().handler == *h,
                None => self@.entry.is_none(),
            },
    {
        match &self.entry {
            Some(entry) => Some(&entry.handler),
            None => None,
        }
    }

    /// The name under which this node, as a parameter child, exposes the
    /// segment that it captures.
    pub fn parameter_name(&self) -> (name: Option<&String>)
        ensures
            match name {
                Some(n) => self@.parameter_name == Some(n@),
                None => self@.parameter_name.is_none(),
            },
    {
        match &self.parameter_name {
            Some(name) => Some(name),
            None => None,
        }
    }

    /// The child kept under `key`; the parameter child is kept under the
    /// sigil alone.
    pub fn child(&self, key: &str) -> (child: Option<&TrieNode<H>>)
        requires
            self.wf(),
        ensures
            match child {
                Some(node) => {
                    &&& self@.children.contains_key(key@)
                    &&& self@.children[key@] == node@
                    &&& node.wf()
                },
                None => !self@.children.contains_key(key@),
            },
    {
        let wanted: String = key.to_owned();
        match self.find(&wanted) {
            Some(i) => Some(&self.children[i].node),
            None => None,
        }
    }

    /// How many children the node has.
    pub fn children_len(&self) -> (count: usize)
        requires
            self.wf(),
        ensures
            self@.children.dom().finite(),
            count == self@.children.len(),
    {
        proof {
            lemma_edges_count(self.children@);
        }
        self.children.len()
    }
}

impl<H> View for Trie<H> {
    type V = NodeView<H>;

    closed spec fn view(&self) -> NodeView<H> {
        self.root@
    }
}

impl<H> Trie<H> {
    /// Whether every node of the trie is sound. Every trie that this module
    /// hands out is.
    pub closed spec fn wf(&self) -> bool {
        self.root.wf()
    }

    /// A trie without any route.
    pub fn new() -> (trie: Self)
        ensures
            trie.wf(),
            trie@ == NodeView::<H>::empty(),
    {
        Trie { root: TrieNode::new() }
    }

    /// The node that the empty path leads to.
    pub fn root(&self) -> (root: &TrieNode<H>)
        requires
            self.wf(),
        ensures
            root@ == self@,
            root.wf(),
    {
        &self.root
    }

    /// Registers `handler` for `method` and the pattern `path`. A segment
    /// of the pattern that starts with the sigil captures whatever stands
    /// in its place in a request. A route registered before for the same
    /// pattern is replaced, whatever its method was.
    pub fn insert(&mut self, method: &str, path: &str, handler: H)
        requires
            old(self).wf(),
        ensures
            final(self).wf(),
            final(self)@ == old(self)@.with_route(method@, path@, handler),
    {
        let normalized = to_uppercase(method);
        self.insert_normalized(method, normalized.as_str(), path, handler);
    }

    /// Registers `handler` for the pattern `path` under `method`, with
    /// `normalized` as the form by which requests for it are compared.
    pub fn insert_normalized(&mut self, method: &str, normalized: &str, path: &str, handler: H)
        requires
            old(self).wf(),
        ensures
            final(self).wf(),
            final(self)@ == old(self)@.inserted(
                segments(path@),
                RouteView { method: method@, normalized: normalized@, handler },
            ),
    {
        let pattern = split_path(path);
        assert(texts(pattern@).skip(0) =~= segments(path@));
        self.root.insert_at(&pattern, 0, method, normalized, handler);
    }

    /// Follows the segments of `path` down from the root and gives the
    /// node reached, with the parameters captured on the way; nothing where
    /// a segment has neither a literal child nor a parameter child to go to.
    pub fn lookup(&self, path: &str) -> (found: Option<(&TrieNode<H>, Params)>)
        requires
            self.wf(),
        ensures
            match found {
                Some((node, params)) => {
                    &&& self@.walk(segments(path@), Map::empty()) == Some((node@, params@))
                    &&& node.wf()
                },
                None => self@.walk(segments(path@), Map::empty()).is_none(),
            },
    {
        let parts = split_path(path);
        let sigil = wildcard();
        let mut node: &TrieNode<H> = &self.root;
        let mut params = Params::new();
        let mut i: usize = 0;
        assert(texts(parts@).skip(0) =~= segments(path@));
        while i < parts.len()
            invariant
                i <= parts.len(),
                node.wf(),
                sigil@ == wildcard_key(),
                texts(parts@) == segments(path@),
                self@.walk(segments(path@), Map::empty()) == node@.walk(
                    texts(parts@).skip(i as int),
                    params@,
                ),
            decreases parts.len() - i,
        {
            let ghost rest = texts(parts@).skip(i as int);
            assert(rest[0] == parts[i as int]@);
            assert(rest.drop_first() =~= texts(parts@).skip(i + 1));
            match node.find(&parts[i]) {
                Some(at) => {
                    node = &node.children[at].node;
                },
                None => match node.find(&sigil) {
                    Some(at) => {
                        let child = &node.children[at].node;
                        match &child.parameter_name {
                            Some(name) => {
                                params.insert(name.clone(), parts[i].clone());
                            },
                            None => {},
                        }
                        node = child;
                    },
                    None => {
                        return None;
                    },
                },
            }
            i = i + 1;
        }
        Some((node, params))
    }

    /// Resolves a request: the handler registered for the pattern that
    /// `path` matches, if it was registered for `method`, and the parameters
    /// captured from the path. Nothing where no pattern matches, and nothing
    /// where one matches under another method.
    pub fn route(&self, method: &str, path: &str) -> (found: Option<(&H, Params)>)
        requires
            self.wf(),
        ensures
            match found {
                Some((handler, params)) => self@.route(method@, path@) == Some((*handler, params@)),
                None => self@.route(method@, path@).is_none(),
            },
    {
        let normalized = to_uppercase(method);
        self.route_normalized(normalized.as_str(), path)
    }

    /// Resolves a request whose method is given in the form by which
    /// methods are compared: the handler registered for the pattern that
    /// `path` matches, if it was registered under this very form, and the
    /// parameters captured from the path.
    pub fn route_normalized(&self, normalized: &str, path: &str) -> (found: Option<(&H, Params)>)
        requires
            self.wf(),
        ensures
            match found {
                Some((handler, params)) => self@.resolve(normalized@, path@) == Some(
                    (*handler, params@),
                ),
                None => self@.resolve(normalized@, path@).is_none(),
            },
    {
        let wanted: String = normalized.to_owned();
        match self.lookup(path) {
            Some((node, params)) => match &node.entry {
                Some(entry) => if entry.normalized == wanted {
                    Some((&entry.handler, params))
                } else {
                    None
                },
                None => None,
            },
            None => None,
        }
    }
}

impl<H> Default for Trie<H> {
    fn default() -> (trie: Self)
        ensures
            trie.wf(),
            trie@ == NodeView::<H>::empty(),
    {
        Trie::new()
    }
}

/// The key of the parameter child: the sigil alone.
fn wildcard() -> (key: String)
    ensures
        key@ == wildcard_key(),
{
    proof {
        reveal_strlit(":");
    }
    let key: String = ":".to_owned();
    assert(key@ =~= wildcard_key());
    key
}

} // verus!
