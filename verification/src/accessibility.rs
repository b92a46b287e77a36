//! Platform accessibility values: node identities, states, events, action
//! requests, and validated tree snapshots.
use vstd::prelude::*;

verus! {

/// Identity of an accessibility node: a document scope and a serial, both
/// non-zero.
#[derive(Clone, Copy, Debug, PartialEq, Eq, PartialOrd, Ord, Hash, Structural)]
pub struct PlatformAccessibilityNodeId {
    scope: u64,
    serial: u64,
}

impl PlatformAccessibilityNodeId {
    pub closed spec fn spec_scope(self) -> u64 {
        self.scope
    }

    pub closed spec fn spec_serial(self) -> u64 {
        self.serial
    }

    /// Both parts must be non-zero.
    pub fn try_new(scope: u64, serial: u64) -> (r: Result<Self, PlatformAccessibilityError>)
        ensures
            (scope == 0 || serial == 0) ==> r == Err::<Self, PlatformAccessibilityError>(
                invalid_snapshot_error(),
            ),
            (scope != 0 && serial != 0) ==> (r matches Ok(id) && id.spec_scope() == scope
                && id.spec_serial() == serial),
    {
        if scope == 0 || serial == 0 {
            return Err(invalid_snapshot());
        }
        Ok(PlatformAccessibilityNodeId { scope, serial })
    }

    pub fn scope(self) -> (r: u64)
        ensures
            r == self.spec_scope(),
    {
        self.scope
    }

    pub fn serial(self) -> (r: u64)
        ensures
            r == self.spec_serial(),
    {
        self.serial
    }
}

#[derive(Clone, Copy, Debug, PartialEq, Eq, Structural)]
pub enum PlatformAccessibilityRole {
    RootWebArea,
    GenericContainer,
    StaticText,
    Button,
    Link,
    Heading,
    TextField,
    CheckBox,
    RadioButton,
    Image,
    List,
    ListItem,
}

#[derive(Clone, Copy, Debug, Default, PartialEq, Eq, Structural)]
pub struct PlatformAccessibilityState {
    disabled: bool,
    checked: Option<bool>,
    expanded: Option<bool>,
    focusable: bool,
}

impl PlatformAccessibilityState {
    pub closed spec fn spec_disabled(self) -> bool {
        self.disabled
    }

    pub closed spec fn spec_checked(self) -> Option<bool> {
        self.checked
    }

    pub closed spec fn spec_expanded(self) -> Option<bool> {
        self.expanded
    }

    pub closed spec fn spec_focusable(self) -> bool {
        self.focusable
    }

    pub fn new(disabled: bool, checked: Option<bool>, expanded: Option<bool>, focusable: bool) -> (r: Self)
        ensures
            r.spec_disabled() == disabled,
            r.spec_checked() == checked,
            r.spec_expanded() == expanded,
            r.spec_focusable() == focusable,
    {
        PlatformAccessibilityState { disabled, checked, expanded, focusable }
    }

    pub fn disabled(self) -> (r: bool)
        ensures
            r == self.spec_disabled(),
    {
        self.disabled
    }

    pub fn checked(self) -> (r: Option<bool>)
        ensures
            r == self.spec_checked(),
    {
        self.checked
    }

    pub fn expanded(self) -> (r: Option<bool>)
        ensures
            r == self.spec_expanded(),
    {
        self.expanded
    }

    pub fn focusable(self) -> (r: bool)
        ensures
            r == self.spec_focusable(),
    {
        self.focusable
    }
}

/// An IEEE 754 single-precision value, given by its bits, is finite: its
/// exponent field is not all ones.
pub open spec fn f32_bits_finite(bits: u32) -> bool {
    (bits >> 23u32) & 0xffu32 != 0xffu32
}

/// A finite single-precision value, given by its bits, is at least zero:
/// its sign bit is clear, or it is negative zero.
pub open spec fn f32_bits_nonnegative(bits: u32) -> bool {
    bits & 0x8000_0000u32 == 0 || bits == 0x8000_0000u32
}

/// A node's bounds: x, y, width and height as IEEE 754 single-precision bit
/// patterns.
#[derive(Clone, Copy, Debug, PartialEq, Eq, Structural)]
pub struct PlatformAccessibilityRect {
    x: u32,
    y: u32,
    width: u32,
    height: u32,
}

impl PlatformAccessibilityRect {
    pub closed spec fn spec_bits(self) -> (u32, u32, u32, u32) {
        (self.x, self.y, self.width, self.height)
    }

    /// Every coordinate is finite and the extent is not negative.
    pub open spec fn spec_is_valid(self) -> bool {
        let (x, y, w, h) = self.spec_bits();
        &&& f32_bits_finite(x)
        &&& f32_bits_finite(y)
        &&& f32_bits_finite(w)
        &&& f32_bits_finite(h)
        &&& f32_bits_nonnegative(w)
        &&& f32_bits_nonnegative(h)
    }

    /// A rectangle from the bit patterns of x, y, width and height.
    pub fn from_bits(x: u32, y: u32, width: u32, height: u32) -> (r: Self)
        ensures
            r.spec_bits() == (x, y, width, height),
    {
        PlatformAccessibilityRect { x, y, width, height }
    }

    pub fn bits(self) -> (r: (u32, u32, u32, u32))
        ensures
            r == self.spec_bits(),
    {
        (self.x, self.y, self.width, self.height)
    }

    pub fn is_valid(self) -> (r: bool)
        ensures
            r == self.spec_is_valid(),
    {
        (self.x >> 23u32) & 0xffu32 != 0xffu32 && (self.y >> 23u32) & 0xffu32 != 0xffu32 && (
        self.width >> 23u32) & 0xffu32 != 0xffu32 && (self.height >> 23u32) & 0xffu32 != 0xffu32
            && (self.width & 0x8000_0000u32 == 0 || self.width == 0x8000_0000u32) && (self.height
            & 0x8000_0000u32 == 0 || self.height == 0x8000_0000u32)
    }
}

/// One node of an accessibility tree snapshot.
#[derive(Clone, Debug, PartialEq)]
pub struct PlatformAccessibilityNode {
    id: PlatformAccessibilityNodeId,
    role: PlatformAccessibilityRole,
    name: String,
    state: PlatformAccessibilityState,
    bounds: Option<PlatformAccessibilityRect>,
    parent: Option<PlatformAccessibilityNodeId>,
    children: Vec<PlatformAccessibilityNodeId>,
}

impl PlatformAccessibilityNode {
    pub closed spec fn spec_id(&self) -> PlatformAccessibilityNodeId {
        self.id
    }

    pub closed spec fn spec_role(&self) -> PlatformAccessibilityRole {
        self.role
    }

    pub closed spec fn spec_name(&self) -> Seq<char> {
        self.name@
    }

    pub closed spec fn spec_state(&self) -> PlatformAccessibilityState {
        self.state
    }

    pub closed spec fn spec_bounds(&self) -> Option<PlatformAccessibilityRect> {
        self.bounds
    }

    pub closed spec fn spec_parent(&self) -> Option<PlatformAccessibilityNodeId> {
        self.parent
    }

    pub closed spec fn spec_children(&self) -> Seq<PlatformAccessibilityNodeId> {
        self.children@
    }

    pub fn new(
        id: PlatformAccessibilityNodeId,
        role: PlatformAccessibilityRole,
        name: String,
        state: PlatformAccessibilityState,
        bounds: Option<PlatformAccessibilityRect>,
        parent: Option<PlatformAccessibilityNodeId>,
        children: Vec<PlatformAccessibilityNodeId>,
    ) -> (r: Self)
        ensures
            r.spec_id() == id,
            r.spec_role() == role,
            r.spec_name() == name@,
            r.spec_state() == state,
            r.spec_bounds() == bounds,
            r.spec_parent() == parent,
            r.spec_children() == children@,
    {
        PlatformAccessibilityNode { id, role, name, state, bounds, parent, children }
    }

    pub fn id(&self) -> (r: PlatformAccessibilityNodeId)
        ensures
            r == self.spec_id(),
    {
        self.id
    }

    pub fn role(&self) -> (r: PlatformAccessibilityRole)
        ensures
            r == self.spec_role(),
    {
        self.role
    }

    pub fn name(&self) -> (r: &str)
        ensures
            r@ == self.spec_name(),
    {
        self.name.as_str()
    }

    pub fn state(&self) -> (r: PlatformAccessibilityState)
        ensures
            r == self.spec_state(),
    {
        self.state
    }

    pub fn bounds(&self) -> (r: Option<PlatformAccessibilityRect>)
        ensures
            r == self.spec_bounds(),
    {
        self.bounds
    }

    pub fn parent(&self) -> (r: Option<PlatformAccessibilityNodeId>)
        ensures
            r == self.spec_parent(),
    {
        self.parent
    }

    pub fn children(&self) -> (r: &[PlatformAccessibilityNodeId])
        ensures
            r@ == self.spec_children(),
    {
        self.children.as_slice()
    }
}

// ----- snapshot validity ----------------------------------------------------
/// Whether some node carries the identity.
pub open spec fn has_node(nodes: Seq<PlatformAccessibilityNode>, id: PlatformAccessibilityNodeId) -> bool {
    exists|i: int| 0 <= i < nodes.len() && nodes[i].spec_id() == id
}

/// The position of the node with the identity.
pub open spec fn node_index(nodes: Seq<PlatformAccessibilityNode>, id: PlatformAccessibilityNodeId) -> int {
    choose|i: int| 0 <= i < nodes.len() && nodes[i].spec_id() == id
}

/// The parent of the node with the identity, if that node exists.
pub open spec fn parent_of(nodes: Seq<PlatformAccessibilityNode>, id: PlatformAccessibilityNodeId) -> Option<
    PlatformAccessibilityNodeId,
> {
    if has_node(nodes, id) {
        nodes[node_index(nodes, id)].spec_parent()
    } else {
        None
    }
}

/// Following parents from `id` reaches `root` within `steps` steps.
pub open spec fn reaches_root(
    nodes: Seq<PlatformAccessibilityNode>,
    root: PlatformAccessibilityNodeId,
    id: PlatformAccessibilityNodeId,
    steps: nat,
) -> bool
    decreases steps,
{
    if id == root {
        true
    } else if steps == 0 {
        false
    } else {
        match parent_of(nodes, id) {
            Some(p) => reaches_root(nodes, root, p, (steps - 1) as nat),
            None => false,
        }
    }
}

pub open spec fn ids_distinct(nodes: Seq<PlatformAccessibilityNode>) -> bool {
    forall|i: int, j: int|
        0 <= i < nodes.len() && 0 <= j < nodes.len() && i != j ==> nodes[i].spec_id()
            != nodes[j].spec_id()
}

/// A node's children are distinct, present, and name the node as parent.
pub open spec fn children_consistent(nodes: Seq<PlatformAccessibilityNode>, i: int) -> bool {
    let children = nodes[i].spec_children();
    &&& forall|a: int, b: int| 0 <= a < b < children.len() ==> children[a] != children[b]
    &&& forall|a: int|
        0 <= a < children.len() ==> has_node(nodes, #[trigger] children[a]) && parent_of(
            nodes,
            children[a],
        ) == Some(nodes[i].spec_id())
}

/// A node with a parent is not the root and is listed among its parent's
/// children; a node without one is the root.
pub open spec fn parent_consistent(
    nodes: Seq<PlatformAccessibilityNode>,
    root: PlatformAccessibilityNodeId,
    i: int,
) -> bool {
    match nodes[i].spec_parent() {
        Some(p) => {
            &&& nodes[i].spec_id() != root
            &&& has_node(nodes, p)
            &&& nodes[node_index(nodes, p)].spec_children().contains(nodes[i].spec_id())
        },
        None => nodes[i].spec_id() == root,
    }
}

/// What a snapshot must satisfy: a non-zero geometry revision, at least one
/// node, one scope, distinct identities, valid bounds, a parentless root,
/// parent and child links that agree, and every node connected to the root.
pub open spec fn snapshot_is_valid(
    geometry_revision: u64,
    root: PlatformAccessibilityNodeId,
    nodes: Seq<PlatformAccessibilityNode>,
) -> bool {
    &&& geometry_revision != 0
    &&& nodes.len() > 0
    &&& forall|i: int| 0 <= i < nodes.len() ==> (#[trigger] nodes[i]).spec_id().spec_scope() == root.spec_scope()
    &&& ids_distinct(nodes)
    &&& forall|i: int|
        0 <= i < nodes.len() ==> ((#[trigger] nodes[i]).spec_bounds() matches Some(b) ==> b.spec_is_valid())
    &&& has_node(nodes, root)
    &&& parent_of(nodes, root) is None
    &&& forall|i: int| 0 <= i < nodes.len() ==> #[trigger] children_consistent(nodes, i)
    &&& forall|i: int| 0 <= i < nodes.len() ==> #[trigger] parent_consistent(nodes, root, i)
    &&& forall|i: int|
        0 <= i < nodes.len() ==> #[trigger] reaches_root(nodes, root, nodes[i].spec_id(), nodes.len())
}

/// With distinct identities, the chosen position of a present identity is its
/// only position.
proof fn lemma_node_index_unique(nodes: Seq<PlatformAccessibilityNode>, i: int)
    requires
        ids_distinct(nodes),
        0 <= i < nodes.len(),
    ensures
        has_node(nodes, nodes[i].spec_id()),
        node_index(nodes, nodes[i].spec_id()) == i,
{
    let id = nodes[i].spec_id();
    assert(has_node(nodes, id));
    let k = node_index(nodes, id);
    assert(nodes[k].spec_id() == id);
}

/// A validated accessibility tree snapshot.
#[derive(Clone, Debug, PartialEq)]
pub struct PlatformAccessibilitySnapshot {
    document_generation: u64,
    geometry_revision: u64,
    root: PlatformAccessibilityNodeId,
    nodes: Vec<PlatformAccessibilityNode>,
}

fn find_node(nodes: &Vec<PlatformAccessibilityNode>, id: PlatformAccessibilityNodeId) -> (r: Option<usize>)
    ensures
        match r {
            Some(i) => i < nodes@.len() && nodes@[i as int].spec_id() == id,
            None => !has_node(nodes@, id),
        },
{
    let mut i: usize = 0;
    while i < nodes.len()
        invariant
            0 <= i <= nodes@.len(),
            forall|k: int| 0 <= k < i ==> nodes@[k].spec_id() != id,
        decreases nodes@.len() - i,
    {
        if nodes[i].id == id {
            return Some(i);
        }
        i = i + 1;
    }
    None
}

fn check_ids(nodes: &Vec<PlatformAccessibilityNode>, root: PlatformAccessibilityNodeId) -> (r: bool)
    ensures
        r == ((forall|i: int|
            0 <= i < nodes@.len() ==> (#[trigger] nodes@[i]).spec_id().spec_scope()
                == root.spec_scope()) && ids_distinct(nodes@) && forall|i: int|
            0 <= i < nodes@.len() ==> ((#[trigger] nodes@[i]).spec_bounds() matches Some(b)
                ==> b.spec_is_valid())),
{
    let n = nodes.len();
    let mut i: usize = 0;
    while i < n
        invariant
            n == nodes@.len(),
            0 <= i <= n,
            forall|k: int| 0 <= k < i ==> (#[trigger] nodes@[k]).spec_id().spec_scope() == root.spec_scope(),
            forall|a: int, b: int| 0 <= a < i && 0 <= b < n && a != b ==> nodes@[a].spec_id() != nodes@[b].spec_id(),
            forall|k: int| 0 <= k < i ==> ((#[trigger] nodes@[k]).spec_bounds() matches Some(b) ==> b.spec_is_valid()),
        decreases n - i,
    {
        let node = &nodes[i];
        if node.id.scope != root.scope {
            return false;
        }
        if let Some(bounds) = node.bounds {
            if !bounds.is_valid() {
                return false;
            }
        }
        let mut j: usize = 0;
        while j < n
            invariant
                n == nodes@.len(),
                0 <= i < n,
                0 <= j <= n,
                forall|b: int| 0 <= b < j && b != i ==> nodes@[i as int].spec_id() != nodes@[b].spec_id(),
            decreases n - j,
        {
            if j != i && nodes[j].id == nodes[i].id {
                return false;
            }
            j = j + 1;
        }
        i = i + 1;
    }
    true
}

fn contains_id(ids: &Vec<PlatformAccessibilityNodeId>, id: PlatformAccessibilityNodeId) -> (r: bool)
    ensures
        r == ids@.contains(id),
{
    let mut i: usize = 0;
    while i < ids.len()
        invariant
            0 <= i <= ids@.len(),
            forall|k: int| 0 <= k < i ==> ids@[k] != id,
        decreases ids@.len() - i,
    {
        if ids[i] == id {
            return true;
        }
        i = i + 1;
    }
    false
}

fn check_children(nodes: &Vec<PlatformAccessibilityNode>, i: usize) -> (r: bool)
    requires
        i < nodes@.len(),
        ids_distinct(nodes@),
    ensures
        r == children_consistent(nodes@, i as int),
{
    let children = &nodes[i].children;
    let c = children.len();
    let mut a: usize = 0;
    while a < c
        invariant
            i < nodes@.len(),
            ids_distinct(nodes@),
            *children == nodes@[i as int].children,
            c == children@.len(),
            0 <= a <= c,
            forall|x: int, y: int| 0 <= x < a && x < y < c ==> children@[x] != children@[y],
            forall|x: int|
                0 <= x < a ==> has_node(nodes@, #[trigger] children@[x]) && parent_of(
                    nodes@,
                    children@[x],
                ) == Some(nodes@[i as int].spec_id()),
        decreases c - a,
    {
        let child = children[a];
        let mut b: usize = a + 1;
        while b < c
            invariant
                i < nodes@.len(),
                *children == nodes@[i as int].children,
                c == children@.len(),
                0 <= a < c,
                a < b <= c,
                child == children@[a as int],
                forall|y: int| a < y < b ==> children@[a as int] != children@[y],
            decreases c - b,
        {
            if children[b] == child {
                proof {
                    assert(children@[a as int] == children@[b as int]);
                }
                return false;
            }
            b = b + 1;
        }
        match find_node(nodes, child) {
            None => {
                proof {
                    assert(!has_node(nodes@, children@[a as int]));
                }
                return false;
            },
            Some(k) => {
                proof {
                    lemma_node_index_unique(nodes@, k as int);
                }
                if nodes[k].parent != Some(nodes[i].id) {
                    proof {
                        assert(parent_of(nodes@, children@[a as int]) != Some(nodes@[i as int].spec_id()));
                    }
                    return false;
                }
            },
        }
        a = a + 1;
    }
    true
}

fn check_parent(nodes: &Vec<PlatformAccessibilityNode>, root: PlatformAccessibilityNodeId, i: usize) -> (r: bool)
    requires
        i < nodes@.len(),
        ids_distinct(nodes@),
    ensures
        r == parent_consistent(nodes@, root, i as int),
{
    match nodes[i].parent {
        Some(p) => {
            if nodes[i].id == root {
                return false;
            }
            match find_node(nodes, p) {
                None => false,
                Some(k) => {
                    proof {
                        lemma_node_index_unique(nodes@, k as int);
                    }
                    contains_id(&nodes[k].children, nodes[i].id)
                },
            }
        },
        None => nodes[i].id == root,
    }
}

/// The slot recorded for node `k` while checking connectivity: the position
/// of its parent, or the length when the parent is missing or absent.
spec fn parent_slot(nodes: Seq<PlatformAccessibilityNode>, k: int, slot: usize) -> bool {
    if slot < nodes.len() {
        parent_of(nodes, nodes[k].spec_id()) == Some(nodes[slot as int].spec_id())
    } else {
        &&& slot == nodes.len()
        &&& match parent_of(nodes, nodes[k].spec_id()) {
            None => true,
            Some(p) => !has_node(nodes, p),
        }
    }
}

/// Whether every node reaches the root by following parents. Runs one round
/// per node; after round `k` exactly the nodes within `k` steps are marked.
fn check_connected(nodes: &Vec<PlatformAccessibilityNode>, root: PlatformAccessibilityNodeId, root_index: usize) -> (r: bool)
    requires
        ids_distinct(nodes@),
        root_index < nodes@.len(),
        nodes@[root_index as int].spec_id() == root,
    ensures
        r == forall|i: int|
            0 <= i < nodes@.len() ==> #[trigger] reaches_root(nodes@, root, nodes@[i].spec_id(), nodes@.len()),
{
    let n = nodes.len();
    // The position of each node's parent, or `n` when it has none present.
    let mut parents: Vec<usize> = Vec::with_capacity(n);
    let mut i: usize = 0;
    while i < n
        invariant
            n == nodes@.len(),
            ids_distinct(nodes@),
            0 <= i <= n,
            parents@.len() == i,
            forall|k: int| 0 <= k < i ==> parent_slot(nodes@, k, #[trigger] parents@[k]),
        decreases n - i,
    {
        proof {
            lemma_node_index_unique(nodes@, i as int);
        }
        let index = match nodes[i].parent {
            None => n,
            Some(p) => match find_node(nodes, p) {
                None => n,
                Some(k) => {
                    proof {
                        lemma_node_index_unique(nodes@, k as int);
                    }
                    k
                },
            },
        };
        parents.push(index);
        i = i + 1;
    }
    let mut marked: Vec<bool> = Vec::with_capacity(n);
    let mut i: usize = 0;
    while i < n
        invariant
            n == nodes@.len(),
            0 <= i <= n,
            marked@.len() == i,
            forall|k: int| 0 <= k < i ==> #[trigger] marked@[k] == reaches_root(nodes@, root, nodes@[k].spec_id(), 0),
        decreases n - i,
    {
        marked.push(nodes[i].id == root);
        i = i + 1;
    }
    let mut round: usize = 0;
    while round < n
        invariant
            n == nodes@.len(),
            ids_distinct(nodes@),
            root_index < n,
            nodes@[root_index as int].spec_id() == root,
            0 <= round <= n,
            marked@.len() == n,
            parents@.len() == n,
            forall|k: int| 0 <= k < n ==> parent_slot(nodes@, k, #[trigger] parents@[k]),
            forall|k: int|
                0 <= k < n ==> #[trigger] marked@[k] == reaches_root(nodes@, root, nodes@[k].spec_id(), round as nat),
        decreases n - round,
    {
        let mut next: Vec<bool> = Vec::with_capacity(n);
        let mut i: usize = 0;
        while i < n
            invariant
                n == nodes@.len(),
                0 <= round < n,
                root_index < n,
                nodes@[root_index as int].spec_id() == root,
                0 <= i <= n,
                next@.len() == i,
                marked@.len() == n,
                parents@.len() == n,
                forall|k: int| 0 <= k < n ==> parent_slot(nodes@, k, #[trigger] parents@[k]),
                forall|k: int|
                    0 <= k < n ==> #[trigger] marked@[k] == reaches_root(nodes@, root, nodes@[k].spec_id(), round as nat),
                forall|k: int|
                    0 <= k < i ==> #[trigger] next@[k] == reaches_root(nodes@, root, nodes@[k].spec_id(), (round + 1) as nat),
            decreases n - i,
        {
            let p = parents[i];
            let value = nodes[i].id == root || (p < n && marked[p]);
            proof {
                let id = nodes@[i as int].spec_id();
                assert(parent_slot(nodes@, i as int, parents@[i as int]));
                if p < n {
                    assert(marked@[p as int] == reaches_root(nodes@, root, nodes@[p as int].spec_id(), round as nat));
                } else if let Some(q) = parent_of(nodes@, id) {
                    assert(has_node(nodes@, root));
                    assert(q != root);
                    assert(!reaches_root(nodes@, root, q, round as nat));
                }
                assert(value == reaches_root(nodes@, root, id, (round + 1) as nat));
            }
            next.push(value);
            i = i + 1;
        }
        marked = next;
        round = round + 1;
    }
    let mut i: usize = 0;
    while i < n
        invariant
            n == nodes@.len(),
            0 <= i <= n,
            marked@.len() == n,
            forall|k: int| 0 <= k < n ==> #[trigger] marked@[k] == reaches_root(nodes@, root, nodes@[k].spec_id(), n as nat),
            forall|k: int| 0 <= k < i ==> #[trigger] reaches_root(nodes@, root, nodes@[k].spec_id(), n as nat),
        decreases n - i,
    {
        if !marked[i] {
            return false;
        }
        i = i + 1;
    }
    true
}

impl PlatformAccessibilitySnapshot {
    pub closed spec fn spec_document_generation(&self) -> u64 {
        self.document_generation
    }

    pub closed spec fn spec_geometry_revision(&self) -> u64 {
        self.geometry_revision
    }

    pub closed spec fn spec_root(&self) -> PlatformAccessibilityNodeId {
        self.root
    }

    pub closed spec fn spec_nodes(&self) -> Seq<PlatformAccessibilityNode> {
        self.nodes@
    }

    /// Validates a tree snapshot: it is accepted exactly when
    /// `snapshot_is_valid` holds, and every refusal is `InvalidSnapshot`.
    pub fn try_new(
        document_generation: u64,
        geometry_revision: u64,
        root: PlatformAccessibilityNodeId,
        nodes: Vec<PlatformAccessibilityNode>,
    ) -> (r: Result<Self, PlatformAccessibilityError>)
        ensures
            snapshot_is_valid(geometry_revision, root, nodes@) ==> (r matches Ok(s)
                && s.spec_document_generation() == document_generation
                && s.spec_geometry_revision() == geometry_revision && s.spec_root() == root
                && s.spec_nodes() == nodes@),
            !snapshot_is_valid(geometry_revision, root, nodes@) ==> r == Err::<
                Self,
                PlatformAccessibilityError,
            >(invalid_snapshot_error()),
    {
        if geometry_revision == 0 || nodes.len() == 0 {
            return Err(invalid_snapshot());
        }
        if !check_ids(&nodes, root) {
            return Err(invalid_snapshot());
        }
        let root_index = match find_node(&nodes, root) {
            None => {
                return Err(invalid_snapshot());
            },
            Some(k) => k,
        };
        proof {
            lemma_node_index_unique(nodes@, root_index as int);
        }
        if nodes[root_index].parent.is_some() {
            return Err(invalid_snapshot());
        }
        let n = nodes.len();
        let mut i: usize = 0;
        while i < n
            invariant
                n == nodes@.len(),
                ids_distinct(nodes@),
                0 <= i <= n,
                forall|k: int| 0 <= k < i ==> #[trigger] children_consistent(nodes@, k),
                forall|k: int| 0 <= k < i ==> #[trigger] parent_consistent(nodes@, root, k),
            decreases n - i,
        {
            if !check_children(&nodes, i) {
                return Err(invalid_snapshot());
            }
            if !check_parent(&nodes, root, i) {
                return Err(invalid_snapshot());
            }
            i = i + 1;
        }
        if !check_connected(&nodes, root, root_index) {
            return Err(invalid_snapshot());
        }
        Ok(PlatformAccessibilitySnapshot { document_generation, geometry_revision, root, nodes })
    }

    pub fn document_generation(&self) -> (r: u64)
        ensures
            r == self.spec_document_generation(),
    {
        self.document_generation
    }

    pub fn geometry_revision(&self) -> (r: u64)
        ensures
            r == self.spec_geometry_revision(),
    {
        self.geometry_revision
    }

    pub fn scope(&self) -> (r: u64)
        ensures
            r == self.spec_root().spec_scope(),
    {
        self.root.scope
    }

    pub fn root(&self) -> (r: PlatformAccessibilityNodeId)
        ensures
            r == self.spec_root(),
    {
        self.root
    }

    pub fn nodes(&self) -> (r: &[PlatformAccessibilityNode])
        ensures
            r@ == self.spec_nodes(),
    {
        self.nodes.as_slice()
    }

    pub fn node_count(&self) -> (r: usize)
        ensures
            r == self.spec_nodes().len(),
    {
        self.nodes.len()
    }
}

#[derive(Clone, Copy, Debug, PartialEq, Eq, Structural)]
pub enum PlatformAccessibilityEventKind {
    FocusChanged,
    Invoked,
    StateChanged,
    NameChanged,
    ValueChanged,
    BoundsChanged,
    TreeChanged,
}

#[derive(Clone, Copy, Debug, PartialEq, Eq, Structural)]
pub struct PlatformAccessibilityEvent {
    target: PlatformAccessibilityNodeId,
    kind: PlatformAccessibilityEventKind,
    document_generation: u64,
}

impl PlatformAccessibilityEvent {
    pub closed spec fn spec_target(self) -> PlatformAccessibilityNodeId {
        self.target
    }

    pub closed spec fn spec_kind(self) -> PlatformAccessibilityEventKind {
        self.kind
    }

    pub closed spec fn spec_document_generation(self) -> u64 {
        self.document_generation
    }

    pub fn new(target: PlatformAccessibilityNodeId, kind: PlatformAccessibilityEventKind, document_generation: u64) -> (r: Self)
        ensures
            r.spec_target() == target,
            r.spec_kind() == kind,
            r.spec_document_generation() == document_generation,
    {
        PlatformAccessibilityEvent { target, kind, document_generation }
    }

    pub fn target(self) -> (r: PlatformAccessibilityNodeId)
        ensures
            r == self.spec_target(),
    {
        self.target
    }

    pub fn kind(self) -> (r: PlatformAccessibilityEventKind)
        ensures
            r == self.spec_kind(),
    {
        self.kind
    }

    pub fn document_generation(self) -> (r: u64)
        ensures
            r == self.spec_document_generation(),
    {
        self.document_generation
    }
}

#[derive(Clone, Copy, Debug, PartialEq, Eq, Structural)]
pub enum PlatformAccessibilityAction {
    Focus,
    Invoke,
    Toggle,
    SetExpanded(bool),
}

#[derive(Clone, Copy, Debug, PartialEq, Eq, Structural)]
pub struct PlatformAccessibilityActionRequest {
    target: PlatformAccessibilityNodeId,
    action: PlatformAccessibilityAction,
    document_generation: u64,
    geometry_revision: u64,
}

impl PlatformAccessibilityActionRequest {
    /// The request with these parts.
    pub closed spec fn spec_make(
        target: PlatformAccessibilityNodeId,
        action: PlatformAccessibilityAction,
        document_generation: u64,
        geometry_revision: u64,
    ) -> Self {
        PlatformAccessibilityActionRequest { target, action, document_generation, geometry_revision }
    }

    pub closed spec fn spec_target(self) -> PlatformAccessibilityNodeId {
        self.target
    }

    pub closed spec fn spec_action(self) -> PlatformAccessibilityAction {
        self.action
    }

    pub closed spec fn spec_document_generation(self) -> u64 {
        self.document_generation
    }

    pub closed spec fn spec_geometry_revision(self) -> u64 {
        self.geometry_revision
    }

    pub fn new(
        target: PlatformAccessibilityNodeId,
        action: PlatformAccessibilityAction,
        document_generation: u64,
        geometry_revision: u64,
    ) -> (r: Self)
        ensures
            r == Self::spec_make(target, action, document_generation, geometry_revision),
            r.spec_target() == target,
            r.spec_action() == action,
            r.spec_document_generation() == document_generation,
            r.spec_geometry_revision() == geometry_revision,
    {
        PlatformAccessibilityActionRequest { target, action, document_generation, geometry_revision }
    }

    pub fn target(self) -> (r: PlatformAccessibilityNodeId)
        ensures
            r == self.spec_target(),
    {
        self.target
    }

    pub fn action(self) -> (r: PlatformAccessibilityAction)
        ensures
            r == self.spec_action(),
    {
        self.action
    }

    pub fn document_generation(self) -> (r: u64)
        ensures
            r == self.spec_document_generation(),
    {
        self.document_generation
    }

    pub fn geometry_revision(self) -> (r: u64)
        ensures
            r == self.spec_geometry_revision(),
    {
        self.geometry_revision
    }
}

#[derive(Clone, Copy, Debug, PartialEq, Eq, Structural)]
pub enum PlatformAccessibilityErrorKind {
    UnsupportedTarget,
    InvalidSnapshot,
    CapacityExceeded,
    StaleCorrelation,
    NativeUnavailable,
    NativeFailure,
    UnsupportedPattern,
    Unavailable,
}

#[derive(Clone, Copy, Debug, PartialEq, Eq, Structural)]
pub struct PlatformAccessibilityError {
    kind: PlatformAccessibilityErrorKind,
}

impl PlatformAccessibilityError {
    pub closed spec fn spec_kind(self) -> PlatformAccessibilityErrorKind {
        self.kind
    }

    pub fn new(kind: PlatformAccessibilityErrorKind) -> (r: Self)
        ensures
            r.spec_kind() == kind,
    {
        PlatformAccessibilityError { kind }
    }

    pub fn kind(self) -> (r: PlatformAccessibilityErrorKind)
        ensures
            r == self.spec_kind(),
    {
        self.kind
    }
}

/// The error for a refused snapshot or node identity.
pub closed spec fn invalid_snapshot_error() -> PlatformAccessibilityError {
    PlatformAccessibilityError { kind: PlatformAccessibilityErrorKind::InvalidSnapshot }
}

pub proof fn lemma_invalid_snapshot_error_kind()
    ensures
        invalid_snapshot_error().spec_kind() == PlatformAccessibilityErrorKind::InvalidSnapshot,
{
}

fn invalid_snapshot() -> (r: PlatformAccessibilityError)
    ensures
        r == invalid_snapshot_error(),
{
    PlatformAccessibilityError { kind: PlatformAccessibilityErrorKind::InvalidSnapshot }
}

#[derive(Clone, Copy, Debug, Default, PartialEq, Eq, Structural)]
pub struct PlatformAccessibilitySnapshotReport {
    pub retained_providers: usize,
    pub created_providers: usize,
    pub retired_providers: usize,
}

#[derive(Clone, Copy, Debug, PartialEq, Eq, Structural)]
pub enum PlatformAccessibilityEventDisposition {
    Delivered,
    Queued,
}

/// In a valid snapshot the root is the only node without a parent, every
/// other node's parent lists it as a child, and no node is its own parent.
pub proof fn lemma_valid_snapshot_is_a_tree(
    geometry_revision: u64,
    root: PlatformAccessibilityNodeId,
    nodes: Seq<PlatformAccessibilityNode>,
    i: int,
)
    requires
        snapshot_is_valid(geometry_revision, root, nodes),
        0 <= i < nodes.len(),
    ensures
        nodes[i].spec_parent() is None <==> nodes[i].spec_id() == root,
        nodes[i].spec_parent() matches Some(p) ==> has_node(nodes, p) && nodes[node_index(
            nodes,
            p,
        )].spec_children().contains(nodes[i].spec_id()),
        reaches_root(nodes, root, nodes[i].spec_id(), nodes.len()),
{
    assert(parent_consistent(nodes, root, i));
    assert(reaches_root(nodes, root, nodes[i].spec_id(), nodes.len()));
    if nodes[i].spec_id() == root {
        lemma_node_index_unique(nodes, i);
    }
}

} // verus!
