//! Limits, node identities and errors of scroll trees.
use crate::keyed::{
    key_at, keyed_map, keys_distinct, lemma_index_of_key, lemma_keyed_map_at,
    lemma_keyed_map_filter, lemma_keyed_map_insert, lemma_keyed_map_len, lemma_keyed_map_update,
};
use crate::text::{decimal, push_decimal, push_decimal_u64, push_str};
use vstd::prelude::*;

verus! {

pub const DEFAULT_MAX_SCROLL_NODES: usize = 16384;

/// How many nodes a scroll tree holds at most; never zero.
#[derive(Clone, Copy, Debug, PartialEq, Eq, Structural)]
pub struct ScrollTreeLimits {
    max_nodes: usize,
}

impl ScrollTreeLimits {
    #[verifier::type_invariant]
    spec fn non_zero(self) -> bool {
        self.max_nodes > 0
    }

    pub closed spec fn spec_max_nodes(self) -> usize {
        self.max_nodes
    }

    /// Limits of `max_nodes` nodes; refused with `InvalidLimits` for zero.
    pub fn try_new(max_nodes: usize) -> (r: Result<Self, ScrollTreeError>)
        ensures
            max_nodes > 0 <==> r is Ok,
            r matches Ok(limits) ==> limits.spec_max_nodes() == max_nodes,
            r matches Err(e) ==> e == ScrollTreeError::InvalidLimits,
    {
        if max_nodes == 0 {
            return Err(ScrollTreeError::InvalidLimits);
        }
        Ok(ScrollTreeLimits { max_nodes })
    }

    pub fn max_nodes(self) -> (r: usize)
        ensures
            r == self.spec_max_nodes(),
            r > 0,
    {
        proof {
            use_type_invariant(&self);
        }
        self.max_nodes
    }
}

impl Default for ScrollTreeLimits {
    fn default() -> (r: Self)
        ensures
            r.spec_max_nodes() == DEFAULT_MAX_SCROLL_NODES,
    {
        ScrollTreeLimits { max_nodes: DEFAULT_MAX_SCROLL_NODES }
    }
}

/// The identity of a scroll node.
#[derive(Clone, Copy, Debug, PartialEq, Eq, PartialOrd, Ord, Hash, Structural)]
pub struct ScrollNodeId {
    value: u64,
}

impl ScrollNodeId {
    pub closed spec fn spec_get(self) -> u64 {
        self.value
    }

    /// The identity with the given value; refused with
    /// `IdentitySpaceExhausted` for zero, which no node carries.
    pub fn try_new(value: u64) -> (r: Result<Self, ScrollTreeError>)
        ensures
            value != 0 <==> r is Ok,
            r matches Ok(id) ==> id.spec_get() == value,
            r matches Err(e) ==> e == ScrollTreeError::IdentitySpaceExhausted,
    {
        if value == 0 {
            return Err(ScrollTreeError::IdentitySpaceExhausted);
        }
        Ok(ScrollNodeId { value })
    }

    pub fn get(self) -> (r: u64)
        ensures
            r == self.spec_get(),
    {
        self.value
    }
}

/// Why a scroll tree operation was refused.
#[derive(Clone, Copy, Debug, PartialEq, Eq, Structural)]
pub enum ScrollTreeError {
    InvalidLimits,
    InvalidGeometry,
    NodeLimitExceeded { nodes: usize, limit: usize },
    UnknownNode(ScrollNodeId),
    IdentitySpaceExhausted,
}

/// The description of a scroll tree error.
pub open spec fn scroll_error_text(e: ScrollTreeError) -> Seq<char> {
    match e {
        ScrollTreeError::InvalidLimits => "scroll tree limits must be non-zero"@,
        ScrollTreeError::InvalidGeometry => "scroll geometry must be finite and non-negative"@,
        ScrollTreeError::NodeLimitExceeded { nodes, limit } => "scroll tree would contain "@
            + decimal(nodes as nat) + " nodes; limit is "@ + decimal(limit as nat),
        ScrollTreeError::UnknownNode(node) => "unknown scroll node "@ + decimal(
            node.spec_get() as nat,
        ),
        ScrollTreeError::IdentitySpaceExhausted => "scroll node identifier space is exhausted"@,
    }
}

impl ScrollTreeError {
    /// The error's description.
    pub fn to_string(&self) -> (r: String)
        ensures
            r@ == scroll_error_text(*self),
    {
        match self {
            ScrollTreeError::InvalidLimits => "scroll tree limits must be non-zero".to_owned(),
            ScrollTreeError::InvalidGeometry => "scroll geometry must be finite and non-negative".to_owned(),
            ScrollTreeError::NodeLimitExceeded { nodes, limit } => {
                let mut out = "scroll tree would contain ".to_owned();
                push_decimal(&mut out, *nodes);
                push_str(&mut out, " nodes; limit is ");
                push_decimal(&mut out, *limit);
                out
            },
            ScrollTreeError::UnknownNode(node) => {
                let mut out = "unknown scroll node ".to_owned();
                push_decimal_u64(&mut out, node.get());
                out
            },
            ScrollTreeError::IdentitySpaceExhausted => "scroll node identifier space is exhausted".to_owned(),
        }
    }
}

/// A scroll node as the tree's contracts see it: its parent, if any, and the
/// geometry the embedder keeps for it.
pub struct ScrollNodeModel<G> {
    pub parent: Option<u64>,
    pub geometry: G,
}

/// Node `x` lies in the subtree of `t`: it is `t`, or its parent (which
/// always has a smaller identity) lies there.
pub open spec fn descends<G>(m: Map<u64, ScrollNodeModel<G>>, x: u64, t: u64) -> bool
    decreases x,
{
    if x == t {
        true
    } else if m.contains_key(x) {
        match m[x].parent {
            Some(p) => if p < x {
                descends(m, p, t)
            } else {
                false
            },
            None => false,
        }
    } else {
        false
    }
}

/// The nodes of `m` outside the subtree of `t`.
pub open spec fn outside_subtree<G>(m: Map<u64, ScrollNodeModel<G>>, t: u64) -> Map<
    u64,
    ScrollNodeModel<G>,
> {
    m.restrict(Set::new(|x: u64| !descends(m, x, t)))
}

#[derive(Clone, Copy, Debug)]
struct ScrollNodeRecord<G> {
    id: u64,
    parent: Option<u64>,
    geometry: G,
}

/// One more than `n`, or the largest `usize` when there is none.
pub open spec fn saturating_succ(n: nat) -> usize {
    if n < usize::MAX {
        (n + 1) as usize
    } else {
        usize::MAX
    }
}

/// The node has a parent that is present and has a smaller identity.
spec fn parent_below<G>(s: Seq<ScrollNodeRecord<G>>, n: ScrollNodeRecord<G>) -> bool {
    match n.parent {
        Some(p) => p < n.id && key_at(s, node_id(), p),
        None => false,
    }
}

spec fn node_id<G>() -> spec_fn(ScrollNodeRecord<G>) -> u64 {
    |n: ScrollNodeRecord<G>| n.id
}

spec fn node_model<G>() -> spec_fn(ScrollNodeRecord<G>) -> ScrollNodeModel<G> {
    |n: ScrollNodeRecord<G>| ScrollNodeModel { parent: n.parent, geometry: n.geometry }
}

/// A tree of scroll nodes under a fixed root. Each node keeps the geometry
/// the embedder gives it; the tree keeps identities, parents and the node
/// budget.
#[derive(Debug)]
pub struct ScrollTree<G> {
    limits: ScrollTreeLimits,
    root: ScrollNodeId,
    nodes: Vec<ScrollNodeRecord<G>>,
}

/// Whether `x` is among the identities in `v`.
fn ids_contain(v: &Vec<u64>, x: u64) -> (r: bool)
    ensures
        r == v@.contains(x),
{
    let mut i: usize = 0;
    while i < v.len()
        invariant
            0 <= i <= v@.len(),
            forall|j: int| 0 <= j < i ==> v@[j] != x,
        decreases v@.len() - i,
    {
        if v[i] == x {
            assert(v@[i as int] == x);
            return true;
        }
        i = i + 1;
    }
    false
}

impl<G: Copy> ScrollTree<G> {
    /// The tree's invariant: nodes are kept in increasing identity order,
    /// the first is the root and has no parent, every other node's parent
    /// is present and has a smaller identity, and the node budget holds.
    pub closed spec fn wf(&self) -> bool {
        let s = self.nodes@;
        &&& s.len() >= 1
        &&& s.len() <= self.limits.spec_max_nodes()
        &&& s[0].id == self.root.spec_get()
        &&& s[0].parent is None
        &&& forall|i: int, j: int| 0 <= i < j < s.len() ==> #[trigger] s[i].id < #[trigger] s[j].id
        &&& forall|i: int| 0 < i < s.len() ==> parent_below(s, #[trigger] s[i])
    }

    /// The nodes, by identity.
    pub closed spec fn spec_nodes(&self) -> Map<u64, ScrollNodeModel<G>> {
        keyed_map(self.nodes@, node_id(), node_model())
    }

    pub closed spec fn spec_root(&self) -> ScrollNodeId {
        self.root
    }

    pub closed spec fn spec_limits(&self) -> ScrollTreeLimits {
        self.limits
    }

    /// The largest identity in the tree.
    pub closed spec fn spec_last_id(&self) -> u64 {
        self.nodes@.last().id
    }

    proof fn lemma_distinct(&self)
        requires
            self.wf(),
        ensures
            keys_distinct(self.nodes@, node_id()),
            self.spec_nodes().dom().finite(),
            self.spec_nodes().len() == self.nodes@.len(),
    {
        let s = self.nodes@;
        assert forall|i: int, j: int|
            0 <= i < s.len() && 0 <= j < s.len() && i != j implies node_id()(s[i]) != node_id()(
                s[j],
            ) by {
            if i < j {
                assert(s[i].id < s[j].id);
            } else {
                assert(s[j].id < s[i].id);
            }
        }
        lemma_keyed_map_len(s, node_id(), node_model());
    }

    /// A tree holding only `root`, with its geometry.
    pub fn new(root: ScrollNodeId, geometry: G, limits: ScrollTreeLimits) -> (r: Self)
        ensures
            r.wf(),
            r.spec_root() == root,
            r.spec_limits() == limits,
            r.spec_nodes() == Map::<u64, ScrollNodeModel<G>>::empty().insert(
                root.spec_get(),
                ScrollNodeModel { parent: None, geometry },
            ),
            r.spec_last_id() == root.spec_get(),
    {
        proof {
            use_type_invariant(&limits);
        }
        let mut nodes: Vec<ScrollNodeRecord<G>> = Vec::new();
        let record = ScrollNodeRecord { id: root.value, parent: None, geometry };
        nodes.push(record);
        let tree = ScrollTree { limits, root, nodes };
        proof {
            let s = tree.nodes@;
            assert(s =~= Seq::<ScrollNodeRecord<G>>::empty().insert(0, record));
            lemma_keyed_map_insert(Seq::<ScrollNodeRecord<G>>::empty(), node_id(), node_model(), 0, record);
            assert(keyed_map(Seq::<ScrollNodeRecord<G>>::empty(), node_id(), node_model())
                =~= Map::<u64, ScrollNodeModel<G>>::empty());
        }
        tree
    }

    pub fn root(&self) -> (r: ScrollNodeId)
        ensures
            r == self.spec_root(),
    {
        self.root
    }

    pub fn limits(&self) -> (r: ScrollTreeLimits)
        ensures
            r == self.spec_limits(),
    {
        self.limits
    }

    /// The number of nodes, root included.
    pub fn len(&self) -> (r: usize)
        requires
            self.wf(),
        ensures
            r == self.spec_nodes().len(),
            r >= 1,
    {
        proof {
            self.lemma_distinct();
        }
        self.nodes.len()
    }

    /// Never true: the root is always present.
    pub fn is_empty(&self) -> (r: bool)
        requires
            self.wf(),
        ensures
            r == (self.spec_nodes().len() == 0),
            !r,
    {
        proof {
            self.lemma_distinct();
        }
        self.nodes.len() == 0
    }

    fn find(&self, id: u64) -> (r: Option<usize>)
        requires
            self.wf(),
        ensures
            r is Some <==> self.spec_nodes().contains_key(id),
            r matches Some(i) ==> {
                &&& i < self.nodes@.len()
                &&& self.nodes@[i as int].id == id
                &&& self.spec_nodes()[id] == node_model()(self.nodes@[i as int])
            },
    {
        proof {
            self.lemma_distinct();
        }
        let mut i: usize = 0;
        while i < self.nodes.len()
            invariant
                0 <= i <= self.nodes@.len(),
                self.wf(),
                keys_distinct(self.nodes@, node_id()),
                forall|j: int| 0 <= j < i ==> #[trigger] self.nodes@[j].id != id,
            decreases self.nodes@.len() - i,
        {
            if self.nodes[i].id == id {
                proof {
                    lemma_keyed_map_at(self.nodes@, node_id(), node_model(), i as int);
                }
                return Some(i);
            }
            i = i + 1;
        }
        proof {
            if key_at(self.nodes@, node_id(), id) {
                let j = choose|j: int| 0 <= j < self.nodes@.len() && node_id()(self.nodes@[j]) == id;
                assert(self.nodes@[j].id != id);
            }
        }
        None
    }

    /// Whether the node is in the tree.
    pub fn contains(&self, node: ScrollNodeId) -> (r: bool)
        requires
            self.wf(),
        ensures
            r == self.spec_nodes().contains_key(node.spec_get()),
    {
        self.find(node.value).is_some()
    }

    /// The parent of a node (`None` for the root), or `None` when the node
    /// is not in the tree.
    pub fn parent(&self, node: ScrollNodeId) -> (r: Option<Option<ScrollNodeId>>)
        requires
            self.wf(),
        ensures
            r is Some <==> self.spec_nodes().contains_key(node.spec_get()),
            r matches Some(p) ==> match p {
                Some(parent) => self.spec_nodes()[node.spec_get()].parent == Some(parent.spec_get()),
                None => self.spec_nodes()[node.spec_get()].parent is None,
            },
    {
        match self.find(node.value) {
            None => None,
            Some(i) => match self.nodes[i].parent {
                Some(p) => Some(Some(ScrollNodeId { value: p })),
                None => Some(None),
            },
        }
    }

    /// The geometry of a node, or `None` when the node is not in the tree.
    pub fn geometry(&self, node: ScrollNodeId) -> (r: Option<G>)
        requires
            self.wf(),
        ensures
            r is Some <==> self.spec_nodes().contains_key(node.spec_get()),
            r matches Some(g) ==> g == self.spec_nodes()[node.spec_get()].geometry,
    {
        match self.find(node.value) {
            None => None,
            Some(i) => Some(self.nodes[i].geometry),
        }
    }

    /// Replaces a node's geometry and returns the previous one; refused with
    /// `UnknownNode` for a node not in the tree.
    pub fn replace_geometry(&mut self, node: ScrollNodeId, geometry: G) -> (r: Result<
        G,
        ScrollTreeError,
    >)
        requires
            old(self).wf(),
        ensures
            final(self).wf(),
            old(self).spec_nodes().contains_key(node.spec_get()) <==> r is Ok,
            r matches Err(e) ==> e == ScrollTreeError::UnknownNode(node) && final(self).spec_nodes()
                == old(self).spec_nodes(),
            r matches Ok(previous) ==> {
                let m = old(self).spec_nodes()[node.spec_get()];
                &&& previous == m.geometry
                &&& final(self).spec_nodes() == old(self).spec_nodes().insert(
                    node.spec_get(),
                    ScrollNodeModel { parent: m.parent, geometry },
                )
            },
            final(self).spec_root() == old(self).spec_root(),
            final(self).spec_limits() == old(self).spec_limits(),
            final(self).spec_last_id() == old(self).spec_last_id(),
    {
        let i = match self.find(node.value) {
            None => return Err(ScrollTreeError::UnknownNode(node)),
            Some(i) => i,
        };
        let current = self.nodes[i];
        let updated = ScrollNodeRecord { id: current.id, parent: current.parent, geometry };
        proof {
            self.lemma_distinct();
            lemma_keyed_map_update(self.nodes@, node_id(), node_model(), i as int, updated);
        }
        self.nodes.set(i, updated);
        proof {
            let o = old(self).nodes@;
            let s = self.nodes@;
            assert forall|a: int, b: int| 0 <= a < b < s.len() implies #[trigger] s[a].id
                < #[trigger] s[b].id by {
                assert(s[a].id == o[a].id && s[b].id == o[b].id);
            }
            assert forall|a: int| 0 < a < s.len() implies parent_below(s, #[trigger] s[a]) by {
                assert(s[a].parent == o[a].parent && s[a].id == o[a].id);
                let p = o[a].parent->0;
                let k = choose|k: int| 0 <= k < o.len() && node_id()(o[k]) == p;
                assert(s[k].id == o[k].id);
            }
        }
        Ok(current.geometry)
    }

    /// Checks that one more node fits the budget.
    pub fn check_child_capacity(&self) -> (r: Result<(), ScrollTreeError>)
        requires
            self.wf(),
        ensures
            (self.spec_nodes().len() + 1 <= self.spec_limits().spec_max_nodes()) <==> r is Ok,
            r matches Err(e) ==> e == (ScrollTreeError::NodeLimitExceeded {
                nodes: saturating_succ(self.spec_nodes().len()),
                limit: self.spec_limits().spec_max_nodes(),
            }),
    {
        proof {
            self.lemma_distinct();
        }
        let nodes = self.nodes.len();
        let limit = self.limits.max_nodes();
        if nodes >= limit {
            let wanted = if nodes < usize::MAX {
                nodes + 1
            } else {
                nodes
            };
            return Err(ScrollTreeError::NodeLimitExceeded { nodes: wanted, limit });
        }
        Ok(())
    }

    /// Adds `id` as a child of `parent` with its geometry; refused with
    /// `UnknownNode` for an absent parent, with `NodeLimitExceeded` when the
    /// tree is full, and with `IdentitySpaceExhausted` for an identity that
    /// is not greater than every identity in the tree, leaving the tree as
    /// it was.
    pub fn add_child(&mut self, parent: ScrollNodeId, geometry: G, id: ScrollNodeId) -> (r: Result<
        ScrollNodeId,
        ScrollTreeError,
    >)
        requires
            old(self).wf(),
        ensures
            final(self).wf(),
            (old(self).spec_nodes().contains_key(parent.spec_get()) && old(self).spec_nodes().len()
                + 1 <= old(self).spec_limits().spec_max_nodes() && id.spec_get() > old(self).spec_last_id()) <==> r is Ok,
            r matches Err(e) ==> final(self).spec_nodes() == old(self).spec_nodes() && final(self).spec_last_id() == old(self).spec_last_id() && e == (if !old(self).spec_nodes().contains_key(parent.spec_get()) {
                ScrollTreeError::UnknownNode(parent)
            } else if old(self).spec_nodes().len() + 1 > old(self).spec_limits().spec_max_nodes() {
                ScrollTreeError::NodeLimitExceeded {
                    nodes: saturating_succ(old(self).spec_nodes().len()),
                    limit: old(self).spec_limits().spec_max_nodes(),
                }
            } else {
                ScrollTreeError::IdentitySpaceExhausted
            }),
            r matches Ok(child) ==> {
                &&& child == id
                &&& !old(self).spec_nodes().contains_key(id.spec_get())
                &&& final(self).spec_nodes() == old(self).spec_nodes().insert(
                    id.spec_get(),
                    ScrollNodeModel { parent: Some(parent.spec_get()), geometry },
                )
                &&& final(self).spec_last_id() == id.spec_get()
            },
            final(self).spec_root() == old(self).spec_root(),
            final(self).spec_limits() == old(self).spec_limits(),
    {
        if self.find(parent.value).is_none() {
            return Err(ScrollTreeError::UnknownNode(parent));
        }
        match self.check_child_capacity() {
            Err(e) => return Err(e),
            Ok(()) => {},
        }
        let last = self.nodes.len() - 1;
        if id.value <= self.nodes[last].id {
            return Err(ScrollTreeError::IdentitySpaceExhausted);
        }
        let record = ScrollNodeRecord { id: id.value, parent: Some(parent.value), geometry };
        proof {
            self.lemma_distinct();
            let s = self.nodes@;
            assert forall|j: int| 0 <= j < s.len() implies s[j].id <= s[last as int].id by {
                if j < last {
                    assert(s[j].id < s[last as int].id);
                }
            }
            if key_at(s, node_id(), id.value) {
                let j = choose|j: int| 0 <= j < s.len() && node_id()(s[j]) == id.value;
                assert(s[j].id <= s[last as int].id);
            }
            lemma_keyed_map_insert(s, node_id(), node_model(), s.len() as int, record);
            assert(s.insert(s.len() as int, record) =~= s.push(record));
            let pk = choose|k: int| 0 <= k < s.len() && node_id()(s[k]) == parent.value;
            assert(s[pk].id <= s[last as int].id);
        }
        self.nodes.push(record);
        proof {
            let o = old(self).nodes@;
            let s = self.nodes@;
            assert forall|a: int, b: int| 0 <= a < b < s.len() implies #[trigger] s[a].id
                < #[trigger] s[b].id by {
                if b == s.len() - 1 {
                    assert(o[a].id <= o[last as int].id);
                } else {
                    assert(s[a] == o[a] && s[b] == o[b]);
                }
            }
            assert forall|a: int| 0 < a < s.len() implies parent_below(s, #[trigger] s[a]) by {
                if a < o.len() {
                    assert(s[a] == o[a]);
                    let p = o[a].parent->0;
                    let k = choose|k: int| 0 <= k < o.len() && node_id()(o[k]) == p;
                    assert(s[k] == o[k]);
                } else {
                    let k = choose|k: int| 0 <= k < o.len() && node_id()(o[k]) == parent.value;
                    assert(s[k] == o[k]);
                    assert(o[k].id <= o[last as int].id);
                }
            }
        }
        Ok(id)
    }
}

spec fn kept_outside<G>(m: Map<u64, ScrollNodeModel<G>>, t: u64) -> spec_fn(ScrollNodeRecord<G>) -> bool {
    |n: ScrollNodeRecord<G>| !descends(m, n.id, t)
}

impl<G: Copy> ScrollTree<G> {
    /// Removes a node and every node below it and returns how many nodes
    /// went; removing the root removes nothing and returns zero; refused with
    /// `UnknownNode` for a node not in the tree.
    pub fn remove_subtree(&mut self, node: ScrollNodeId) -> (r: Result<usize, ScrollTreeError>)
        requires
            old(self).wf(),
        ensures
            final(self).wf(),
            node == old(self).spec_root() ==> r == Ok::<usize, ScrollTreeError>(0)
                && final(self).spec_nodes() == old(self).spec_nodes(),
            node != old(self).spec_root() ==> (old(self).spec_nodes().contains_key(node.spec_get())
                <==> r is Ok),
            r matches Err(e) ==> e == ScrollTreeError::UnknownNode(node) && final(self).spec_nodes()
                == old(self).spec_nodes(),
            r matches Ok(n) ==> node != old(self).spec_root() ==> {
                &&& final(self).spec_nodes() == outside_subtree(old(self).spec_nodes(), node.spec_get())
                &&& n == old(self).spec_nodes().len() - final(self).spec_nodes().len()
            },
            final(self).spec_root() == old(self).spec_root(),
            final(self).spec_limits() == old(self).spec_limits(),
    {
        if node.value == self.root.value {
            return Ok(0);
        }
        if self.find(node.value).is_none() {
            return Err(ScrollTreeError::UnknownNode(node));
        }
        proof {
            self.lemma_distinct();
        }
        let t = node.value;
        let ghost m = self.spec_nodes();
        let ghost s = self.nodes@;
        let ghost keep = kept_outside(m, t);
        let mut kept: Vec<ScrollNodeRecord<G>> = Vec::new();
        let mut removed: Vec<u64> = Vec::new();
        let mut i: usize = 0;
        while i < self.nodes.len()
            invariant
                self.nodes@ == s,
                self.wf(),
                m == self.spec_nodes(),
                keys_distinct(s, node_id()),
                s.len() >= 1,
                s[0].id == self.root.spec_get(),
                self.root.spec_get() != t,
                0 <= i <= s.len(),
                keep == kept_outside(m, t),
                kept@ == s.take(i as int).filter(keep),
                forall|k: u64|
                    #[trigger] removed@.contains(k) <==> exists|j: int|
                        0 <= j < i && s[j].id == k && descends(m, k, t),
                removed@.len() + kept@.len() == i,
                i >= 1 ==> kept@.len() >= 1 && kept@[0] == s[0],
                forall|a: int, b: int|
                    0 <= a < b < kept@.len() ==> #[trigger] kept@[a].id < #[trigger] kept@[b].id,
                forall|a: int|
                    0 <= a < kept@.len() ==> exists|j: int| 0 <= j < i && #[trigger] kept@[a] == s[j],
            decreases s.len() - i,
        {
            let rec = self.nodes[i];
            let gone = if rec.id == t {
                true
            } else {
                match rec.parent {
                    Some(p) => ids_contain(&removed, p),
                    None => false,
                }
            };
            proof {
                lemma_keyed_map_at(s, node_id(), node_model(), i as int);
                if rec.id != t {
                    if i == 0 {
                        assert(!descends(m, rec.id, t));
                    } else {
                        let p = rec.parent->0;
                        let k = choose|k: int| 0 <= k < s.len() && node_id()(s[k]) == p;
                        if k >= i {
                            if k > i {
                                assert(s[i as int].id < s[k].id);
                            }
                        }
                        assert(k < i);
                        lemma_keyed_map_at(s, node_id(), node_model(), k);
                        if descends(m, p, t) {
                            assert(removed@.contains(p));
                        }
                        if removed@.contains(p) {
                            let j = choose|j: int| 0 <= j < i && s[j].id == p && descends(m, p, t);
                        }
                    }
                }
                assert(gone == !keep(rec));
                reveal(Seq::filter);
                assert(s.take(i + 1).drop_last() =~= s.take(i as int));
                assert(s.take(i + 1).last() == rec);
            }
            let ghost before = removed@;
            if gone {
                removed.push(rec.id);
                proof {
                    assert forall|k: u64| #[trigger] removed@.contains(k) <==> exists|j: int|
                        0 <= j < i + 1 && s[j].id == k && descends(m, k, t) by {
                        if k == rec.id {
                            assert(removed@[removed@.len() - 1] == k);
                            assert(s[i as int].id == k);
                        } else {
                            if removed@.contains(k) {
                                let a = choose|a: int| 0 <= a < removed@.len() && removed@[a] == k;
                                assert(before[a] == k);
                                assert(before.contains(k));
                            }
                            if before.contains(k) {
                                let a = choose|a: int| 0 <= a < before.len() && before[a] == k;
                                assert(removed@[a] == k);
                            }
                        }
                    }
                }
            } else {
                proof {
                    assert forall|k: u64| #[trigger] removed@.contains(k) <==> exists|j: int|
                        0 <= j < i + 1 && s[j].id == k && descends(m, k, t) by {
                        if exists|j: int| 0 <= j < i + 1 && s[j].id == k && descends(m, k, t) {
                            let j = choose|j: int| 0 <= j < i + 1 && s[j].id == k && descends(m, k, t);
                            if j == i {
                                assert(keep(rec));
                            }
                        }
                    }
                }
                proof {
                    assert forall|a: int| 0 <= a < kept@.len() implies #[trigger] kept@[a].id
                        < rec.id by {
                        let j = choose|j: int| 0 <= j < i && kept@[a] == s[j];
                        assert(s[j].id < s[i as int].id);
                    }
                }
                kept.push(rec);
            }
            i = i + 1;
        }
        proof {
            assert(s.take(s.len() as int) =~= s);
        }
        let count = removed.len();
        self.nodes = kept;
        proof {
            let o = old(self);
            lemma_keyed_map_filter(s, keep, node_id(), node_model());
            let k2 = self.nodes@;
            assert forall|a: int| 0 < a < k2.len() implies parent_below(k2, #[trigger] k2[a]) by {
                let j = choose|j: int| 0 <= j < s.len() && k2[a] == s[j];
                assert(k2[0].id < k2[a].id);
                assert(j != 0);
                let p = s[j].parent->0;
                let k = choose|k: int| 0 <= k < s.len() && node_id()(s[k]) == p;
                lemma_keyed_map_at(s, node_id(), node_model(), j);
                lemma_keyed_map_at(s, node_id(), node_model(), k);
                assert(!descends(m, s[j].id, t));
                assert(!descends(m, p, t));
                assert(keep(s[k]));
                s.lemma_filter_contains(keep, k);
                let b = choose|b: int| 0 <= b < k2.len() && k2[b] == s[k];
                assert(node_id()(k2[b]) == p);
            }
            s.lemma_filter_len(keep);
            self.lemma_distinct();
            assert forall|x: u64| #[trigger] self.spec_nodes().contains_key(x) <==> outside_subtree(
                m,
                t,
            ).contains_key(x) by {
                if m.contains_key(x) {
                    let j = choose|j: int| 0 <= j < s.len() && node_id()(s[j]) == x;
                    lemma_index_of_key(s, node_id(), j);
                }
            }
            assert(self.spec_nodes() =~= outside_subtree(m, t));
        }
        Ok(count)
    }
}

/// Whatever happened to a tree: its root is present and has no parent;
/// every other node's parent is present and has a smaller identity, so
/// following parents always ends at the root; and the node budget holds.
pub proof fn lemma_tree_shape<G: Copy>(tree: &ScrollTree<G>)
    requires
        tree.wf(),
    ensures
        tree.spec_nodes().contains_key(tree.spec_root().spec_get()),
        tree.spec_nodes()[tree.spec_root().spec_get()].parent is None,
        tree.spec_nodes().len() <= tree.spec_limits().spec_max_nodes(),
        forall|x: u64| #[trigger]
            tree.spec_nodes().contains_key(x) && x != tree.spec_root().spec_get() ==> (
            match tree.spec_nodes()[x].parent {
            Some(p) => p < x && tree.spec_nodes().contains_key(p),
            None => false,
        }),
{
    tree.lemma_distinct();
    let s = tree.nodes@;
    lemma_keyed_map_at(s, node_id(), node_model(), 0);
    assert forall|x: u64| #[trigger]
        tree.spec_nodes().contains_key(x) && x != tree.spec_root().spec_get() implies (
        match tree.spec_nodes()[x].parent {
            Some(p) => p < x && tree.spec_nodes().contains_key(p),
            None => false,
        }) by {
        let j = choose|j: int| 0 <= j < s.len() && node_id()(s[j]) == x;
        lemma_keyed_map_at(s, node_id(), node_model(), j);
        assert(j != 0);
        let p = s[j].parent->0;
        let k = choose|k: int| 0 <= k < s.len() && node_id()(s[k]) == p;
        lemma_keyed_map_at(s, node_id(), node_model(), k);
    }
}

} // verus!
