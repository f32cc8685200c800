//! Finding the chain in a skeleton: which joint fills which slot, and which
//! node owns the chain's state.

use vstd::prelude::*;

verus! {

/// Number of joints of a chain: the root and eight trailing segments.
pub const CHAIN_LEN: usize = 9;

/// One node of the skeleton's table.
pub struct SkeletonNode {
    /// Identifier of the node in the scene.
    pub id: u64,
    /// The node's authored name, if it has one.
    pub name: Option<String>,
    /// The node's structural parent, if it has one.
    pub parent: Option<u64>,
    /// The node's children, in scene order.
    pub children: Vec<u64>,
}

/// The joints of one chain, root first, and the node that holds its state.
pub struct ChainBinding {
    joints: [u64; CHAIN_LEN],
    owner: u64,
}

/// The name that marks the root joint of a chain.
pub open spec fn root_marker() -> Seq<char> {
    "Spine.001.rat"@
}

/// The slot a joint of this name fills, if the name is one of the chain's.
pub open spec fn slot_of_name(name: Seq<char>) -> Option<int> {
    if name == "Spine.002"@ {
        Some(1)
    } else if name == "Spine.003"@ {
        Some(2)
    } else if name == "Spine.004"@ {
        Some(3)
    } else if name == "Tail.001"@ {
        Some(4)
    } else if name == "Tail.002"@ {
        Some(5)
    } else if name == "Tail.003"@ {
        Some(6)
    } else if name == "Tail.004"@ {
        Some(7)
    } else if name == "Tail.005"@ {
        Some(8)
    } else {
        None
    }
}

/// Whether the node carries the root marker.
pub open spec fn is_marker_node(node: SkeletonNode) -> bool {
    node.name is Some && node.name->0@ == root_marker()
}

/// `i` is the first place of the table that holds a node with this id.
pub open spec fn is_first_with_id(nodes: Seq<SkeletonNode>, id: u64, i: int) -> bool {
    &&& 0 <= i < nodes.len()
    &&& nodes[i].id == id
    &&& forall|j: int| 0 <= j < i ==> (#[trigger] nodes[j]).id != id
}

/// Where the table holds the node with this id, if it does.
pub open spec fn node_index(nodes: Seq<SkeletonNode>, id: u64) -> Option<int> {
    if exists|i: int| is_first_with_id(nodes, id, i) {
        Some(choose|i: int| is_first_with_id(nodes, id, i))
    } else {
        None
    }
}

/// The slot that the node `id` asks for by its name.
pub open spec fn slot_of_node(nodes: Seq<SkeletonNode>, id: u64) -> Option<int> {
    match node_index(nodes, id) {
        Some(i) => match nodes[i].name {
            Some(name) => slot_of_name(name@),
            None => None,
        },
        None => None,
    }
}

/// The structural parent of the node `id`, if the table gives it one.
pub open spec fn parent_of(nodes: Seq<SkeletonNode>, id: u64) -> Option<u64> {
    match node_index(nodes, id) {
        Some(i) => nodes[i].parent,
        None => None,
    }
}

/// The joint in `slot`: the last of `children` that asks for the slot, or
/// the root while none does.
pub open spec fn bound_joint(
    nodes: Seq<SkeletonNode>,
    root: u64,
    children: Seq<u64>,
    slot: int,
) -> u64
    decreases children.len(),
{
    if children.len() == 0 {
        root
    } else if slot_of_node(nodes, children.last()) == Some(slot) {
        children.last()
    } else {
        bound_joint(nodes, root, children.drop_last(), slot)
    }
}

/// The joints of the chain under `root`, slot by slot.
pub open spec fn bound_joints(nodes: Seq<SkeletonNode>, root: u64, children: Seq<u64>) -> Seq<
    u64,
> {
    Seq::new(
        CHAIN_LEN as nat,
        |slot: int|
            if slot == 0 {
                root
            } else {
                bound_joint(nodes, root, children, slot)
            },
    )
}

/// The child at place `k` asks for `slot`.
pub open spec fn asks_for(nodes: Seq<SkeletonNode>, children: Seq<u64>, k: int, slot: int) -> bool {
    slot_of_node(nodes, children[k]) == Some(slot)
}

/// A slot that no child asks for points at the root.
pub proof fn lemma_unclaimed_slot(
    nodes: Seq<SkeletonNode>,
    root: u64,
    children: Seq<u64>,
    slot: int,
)
    requires
        forall|k: int| 0 <= k < children.len() ==> !#[trigger] asks_for(nodes, children, k, slot),
    ensures
        bound_joint(nodes, root, children, slot) == root,
    decreases children.len(),
{
    if children.len() > 0 {
        let earlier = children.drop_last();
        assert(!asks_for(nodes, children, children.len() - 1, slot));
        assert forall|k: int| 0 <= k < earlier.len() implies !#[trigger] asks_for(
            nodes,
            earlier,
            k,
            slot,
        ) by {
            assert(!asks_for(nodes, children, k, slot));
        }
        lemma_unclaimed_slot(nodes, root, earlier, slot);
    }
}

/// A slot that children ask for holds the last child that does.
pub proof fn lemma_claimed_slot(
    nodes: Seq<SkeletonNode>,
    root: u64,
    children: Seq<u64>,
    slot: int,
    k: int,
)
    requires
        0 <= k < children.len(),
        asks_for(nodes, children, k, slot),
        forall|later: int|
            k < later < children.len() ==> !#[trigger] asks_for(nodes, children, later, slot),
    ensures
        bound_joint(nodes, root, children, slot) == children[k],
    decreases children.len(),
{
    if k < children.len() - 1 {
        let earlier = children.drop_last();
        assert(!asks_for(nodes, children, children.len() - 1, slot));
        assert(asks_for(nodes, earlier, k, slot));
        assert forall|later: int| k < later < earlier.len() implies !#[trigger] asks_for(
            nodes,
            earlier,
            later,
            slot,
        ) by {
            assert(!asks_for(nodes, children, later, slot));
        }
        lemma_claimed_slot(nodes, root, earlier, slot, k);
    }
}

/// The node reached from `id` by at most `steps` steps from child to parent,
/// stopping where a node has no parent.
pub open spec fn climb(nodes: Seq<SkeletonNode>, id: u64, steps: nat) -> u64
    decreases steps,
{
    if steps == 0 {
        id
    } else {
        match parent_of(nodes, id) {
            Some(parent) => climb(nodes, parent, (steps - 1) as nat),
            None => id,
        }
    }
}

/// Places of the marker nodes in the table, in table order.
pub open spec fn marker_indices(nodes: Seq<SkeletonNode>) -> Seq<int>
    decreases nodes.len(),
{
    if nodes.len() == 0 {
        Seq::empty()
    } else {
        let earlier = marker_indices(nodes.drop_last());
        if is_marker_node(nodes.last()) {
            earlier.push(nodes.len() - 1)
        } else {
            earlier
        }
    }
}

/// `marker_indices` lists exactly the places of the marker nodes, each once,
/// in rising order.
pub proof fn lemma_marker_indices(nodes: Seq<SkeletonNode>)
    ensures
        forall|k: int|
            0 <= k < marker_indices(nodes).len() ==> 0 <= (#[trigger] marker_indices(nodes)[k])
                < nodes.len() && is_marker_node(nodes[marker_indices(nodes)[k]]),
        forall|a: int, b: int|
            0 <= a < b < marker_indices(nodes).len() ==> (#[trigger] marker_indices(nodes)[a]) < (
            #[trigger] marker_indices(nodes)[b]),
        forall|i: int|
            0 <= i < nodes.len() && is_marker_node(#[trigger] nodes[i]) ==> marker_indices(
                nodes,
            ).contains(i),
    decreases nodes.len(),
{
    if nodes.len() > 0 {
        let earlier = nodes.drop_last();
        let found = marker_indices(nodes);
        let found_earlier = marker_indices(earlier);
        lemma_marker_indices(earlier);
        assert forall|k: int| 0 <= k < found.len() implies 0 <= (#[trigger] found[k]) < nodes.len()
            && is_marker_node(nodes[found[k]]) by {
            if k < found_earlier.len() {
                assert(found[k] == found_earlier[k]);
                assert(earlier[found_earlier[k]] == nodes[found_earlier[k]]);
            }
        }
        assert forall|a: int, b: int| 0 <= a < b < found.len() implies (#[trigger] found[a]) < (
        #[trigger] found[b]) by {
            assert(found[a] == found_earlier[a]);
            if b < found_earlier.len() {
                assert(found[b] == found_earlier[b]);
            }
        }
        assert forall|i: int| 0 <= i < nodes.len() && is_marker_node(
            #[trigger] nodes[i],
        ) implies found.contains(i) by {
            if i < earlier.len() {
                assert(earlier[i] == nodes[i]);
                let k = choose|k: int| 0 <= k < found_earlier.len() && found_earlier[k] == i;
                assert(found[k] == i);
            } else {
                assert(found[found.len() - 1] == i);
            }
        }
    }
}

/// Whether `name` reads `expected`.
fn name_is(name: &String, expected: &str) -> (same: bool)
    ensures
        same == (name@ == expected@),
{
    let wanted = expected.to_owned();
    *name == wanted
}

/// Whether the name is the root marker of a chain.
pub fn is_root_marker(name: &String) -> (marked: bool)
    ensures
        marked == (name@ == root_marker()),
{
    name_is(name, "Spine.001.rat")
}

/// The slot that a joint of this name fills: 1 to 3 for the spine, 4 to 8
/// for the tail, and none for any other name.
pub fn joint_slot(name: &String) -> (slot: Option<usize>)
    ensures
        match slot {
            Some(s) => slot_of_name(name@) == Some(s as int) && 1 <= s < CHAIN_LEN,
            None => slot_of_name(name@) is None,
        },
{
    if name_is(name, "Spine.002") {
        Some(1)
    } else if name_is(name, "Spine.003") {
        Some(2)
    } else if name_is(name, "Spine.004") {
        Some(3)
    } else if name_is(name, "Tail.001") {
        Some(4)
    } else if name_is(name, "Tail.002") {
        Some(5)
    } else if name_is(name, "Tail.003") {
        Some(6)
    } else if name_is(name, "Tail.004") {
        Some(7)
    } else if name_is(name, "Tail.005") {
        Some(8)
    } else {
        None
    }
}

/// The first place of the table is the only first place.
pub proof fn lemma_first_with_id_unique(nodes: Seq<SkeletonNode>, id: u64, i: int, j: int)
    requires
        is_first_with_id(nodes, id, i),
        is_first_with_id(nodes, id, j),
    ensures
        i == j,
{
    if i < j {
        assert(nodes[i].id != id);
    } else if j < i {
        assert(nodes[j].id != id);
    }
}

/// Looks a node up by its id.
pub fn find_node(nodes: &Vec<SkeletonNode>, id: u64) -> (found: Option<usize>)
    ensures
        match found {
            Some(i) => node_index(nodes@, id) == Some(i as int) && is_first_with_id(
                nodes@,
                id,
                i as int,
            ),
            None => node_index(nodes@, id) is None,
        },
{
    let mut i: usize = 0;
    while i < nodes.len()
        invariant
            i <= nodes.len(),
            forall|j: int| 0 <= j < i ==> (#[trigger] nodes[j]).id != id,
        decreases nodes.len() - i,
    {
        if nodes[i].id == id {
            proof {
                assert(is_first_with_id(nodes@, id, i as int));
                let chosen = choose|k: int| is_first_with_id(nodes@, id, k);
                lemma_first_with_id_unique(nodes@, id, i as int, chosen);
            }
            return Some(i);
        }
        i += 1;
    }
    assert forall|k: int| !is_first_with_id(nodes@, id, k) by {
        if 0 <= k < nodes.len() {
            assert(nodes[k].id != id);
        }
    }
    None
}

/// The slot that the node `id` asks for by its name; none for a node that
/// the table does not hold or that has no name.
pub fn node_slot(nodes: &Vec<SkeletonNode>, id: u64) -> (slot: Option<usize>)
    ensures
        match slot {
            Some(s) => slot_of_node(nodes@, id) == Some(s as int) && 1 <= s < CHAIN_LEN,
            None => slot_of_node(nodes@, id) is None,
        },
{
    match find_node(nodes, id) {
        Some(i) => match &nodes[i].name {
            Some(name) => joint_slot(name),
            None => None,
        },
        None => None,
    }
}

/// Fills the slots of the chain under `root` from the root's children. A
/// slot that no child asks for points at the root; where two children ask
/// for one slot, the later one has it.
pub fn chain_joints(nodes: &Vec<SkeletonNode>, root: u64, children: &Vec<u64>) -> (joints: [u64;
    CHAIN_LEN])
    ensures
        joints@ == bound_joints(nodes@, root, children@),
{
    let mut joints: [u64; CHAIN_LEN] = [root; CHAIN_LEN];
    let mut k: usize = 0;
    while k < children.len()
        invariant
            k <= children.len(),
            joints@.len() == CHAIN_LEN,
            joints@[0] == root,
            forall|slot: int|
                1 <= slot < CHAIN_LEN ==> #[trigger] joints@[slot] == bound_joint(
                    nodes@,
                    root,
                    children@.take(k as int),
                    slot,
                ),
        decreases children.len() - k,
    {
        let child = children[k];
        let ghost seen = children@.take(k as int);
        let ghost with_child = children@.take(k + 1);
        proof {
            assert(with_child.drop_last() == seen);
            assert(with_child.last() == child);
        }
        match node_slot(nodes, child) {
            Some(slot) => {
                joints[slot] = child;
            },
            None => {},
        }
        k += 1;
    }
    assert(children@.take(children.len() as int) == children@);
    assert(joints@ =~= bound_joints(nodes@, root, children@));
    joints
}

/// The parent links above `start` come to an end: some node on the way up
/// has no parent.
pub open spec fn reaches_top(nodes: Seq<SkeletonNode>, start: u64) -> bool {
    exists|steps: nat| parent_of(nodes, #[trigger] climb(nodes, start, steps)) is None
}

/// Climbing `first + then` steps is climbing `first` steps and `then` more.
proof fn lemma_climb_add(nodes: Seq<SkeletonNode>, id: u64, first: nat, then: nat)
    ensures
        climb(nodes, id, first + then) == climb(nodes, climb(nodes, id, first), then),
    decreases first,
{
    if first > 0 {
        match parent_of(nodes, id) {
            Some(parent) => {
                lemma_climb_add(nodes, parent, (first - 1) as nat, then);
                assert((first + then - 1) as nat == (first - 1) as nat + then);
            },
            None => {
                lemma_climb_rests(nodes, id, then);
            },
        }
    }
}

/// A node without a parent is where every climb from it ends.
proof fn lemma_climb_rests(nodes: Seq<SkeletonNode>, id: u64, steps: nat)
    requires
        parent_of(nodes, id) is None,
    ensures
        climb(nodes, id, steps) == id,
{
}

/// Among `count + 1` values below `count`, two are the same.
proof fn lemma_two_share(values: spec_fn(int) -> int, count: nat) -> (pair: (int, int))
    requires
        forall|k: int| 0 <= k <= count ==> 0 <= #[trigger] values(k) < count,
    ensures
        0 <= pair.0 < pair.1 <= count,
        values(pair.0) == values(pair.1),
    decreases count,
{
    if count == 0 {
        assert(0 <= values(0int) < count);
        (0, 0)
    } else if exists|k: int| 0 <= k < count && #[trigger] values(k) == values(count as int) {
        let k = choose|k: int| 0 <= k < count && #[trigger] values(k) == values(count as int);
        (k, count as int)
    } else {
        let last = values(count as int);
        let packed = |k: int|
            if values(k) > last {
                values(k) - 1
            } else {
                values(k)
            };
        assert forall|k: int| 0 <= k <= count - 1 implies 0 <= #[trigger] packed(k) < count
            - 1 by {
            assert(0 <= values(k) < count);
            assert(values(k) != last);
        }
        let pair = lemma_two_share(packed, (count - 1) as nat);
        assert(values(pair.0) != last);
        assert(values(pair.1) != last);
        pair
    }
}

/// Where the parent links above `start` come to an end, they do so within as
/// many steps as the table has nodes.
pub proof fn lemma_top_within_table(nodes: Seq<SkeletonNode>, start: u64)
    requires
        reaches_top(nodes, start),
    ensures
        parent_of(nodes, climb(nodes, start, nodes.len())) is None,
{
    let count = nodes.len();
    if parent_of(nodes, climb(nodes, start, count)) is Some {
        // Every node on the way up has a parent, so each is held by the table.
        assert forall|k: nat| k <= count implies parent_of(
            nodes,
            #[trigger] climb(nodes, start, k),
        ) is Some by {
            if parent_of(nodes, climb(nodes, start, k)) is None {
                lemma_climb_add(nodes, start, k, (count - k) as nat);
                lemma_climb_rests(nodes, climb(nodes, start, k), (count - k) as nat);
                assert(k + (count - k) as nat == count);
            }
        }
        let place = |k: int| node_index(nodes, climb(nodes, start, k as nat)).unwrap();
        assert forall|k: int| 0 <= k <= count implies 0 <= #[trigger] place(k) < count by {
            let at = climb(nodes, start, k as nat);
            assert(parent_of(nodes, at) is Some);
            assert(is_first_with_id(nodes, at, place(k)));
        }
        let (low, high) = lemma_two_share(place, count);
        let at_low = climb(nodes, start, low as nat);
        let at_high = climb(nodes, start, high as nat);
        assert(at_low == at_high) by {
            assert(parent_of(nodes, at_low) is Some);
            assert(parent_of(nodes, at_high) is Some);
            assert(is_first_with_id(nodes, at_low, place(low)));
            assert(is_first_with_id(nodes, at_high, place(high)));
        }
        // The way up repeats itself, so it never ends.
        let steps = choose|steps: nat|
            parent_of(nodes, #[trigger] climb(nodes, start, steps)) is None;
        lemma_loop_has_no_top(nodes, start, low as nat, high as nat, steps);
    }
}

/// If the way up from `start` is at the same node after `low` and after
/// `high` steps, and every node up to `high` steps has a parent, then every
/// node on the way has one.
proof fn lemma_loop_has_no_top(
    nodes: Seq<SkeletonNode>,
    start: u64,
    low: nat,
    high: nat,
    steps: nat,
)
    requires
        low < high,
        climb(nodes, start, low) == climb(nodes, start, high),
        forall|k: nat| k <= high ==> parent_of(nodes, #[trigger] climb(nodes, start, k)) is Some,
    ensures
        parent_of(nodes, climb(nodes, start, steps)) is Some,
    decreases steps,
{
    if steps > high {
        let beyond = (steps - high) as nat;
        lemma_climb_add(nodes, start, high, beyond);
        lemma_climb_add(nodes, start, low, beyond);
        assert(high + beyond == steps);
        lemma_loop_has_no_top(nodes, start, low, high, low + beyond);
    }
}

/// Walks from `start` up the parent links to the node that owns the chain.
/// The walk takes no more steps than the table has nodes, which is enough
/// wherever the links come to an end: the owner then has no parent.
pub fn chain_owner(nodes: &Vec<SkeletonNode>, start: u64) -> (owner: u64)
    ensures
        owner == climb(nodes@, start, nodes@.len()),
        reaches_top(nodes@, start) ==> parent_of(nodes@, owner) is None,
{
    proof {
        if reaches_top(nodes@, start) {
            lemma_top_within_table(nodes@, start);
        }
    }
    let mut at = start;
    let mut left: usize = nodes.len();
    while left > 0
        invariant
            climb(nodes@, at, left as nat) == climb(nodes@, start, nodes@.len()),
        decreases left,
    {
        let link = match find_node(nodes, at) {
            Some(i) => nodes[i].parent,
            None => None,
        };
        match link {
            Some(parent) => {
                at = parent;
                left -= 1;
            },
            None => {
                return at;
            },
        }
    }
    at
}

impl ChainBinding {
    /// The joints, root first.
    pub closed spec fn joints(&self) -> Seq<u64> {
        self.joints@
    }

    /// The node that holds the chain's state.
    pub closed spec fn owner(&self) -> u64 {
        self.owner
    }

    /// A binding always has `CHAIN_LEN` joints.
    pub proof fn lemma_len(&self)
        ensures
            self.joints().len() == CHAIN_LEN,
    {
    }

    /// The binding of the chain whose root is the node at `root_index`.
    pub open spec fn of(nodes: Seq<SkeletonNode>, root_index: int, binding: ChainBinding) -> bool {
        &&& binding.joints() == bound_joints(
            nodes,
            nodes[root_index].id,
            nodes[root_index].children@,
        )
        &&& binding.owner() == climb(nodes, nodes[root_index].id, nodes.len())
    }

    /// Number of joints.
    pub fn len(&self) -> (n: usize)
        ensures
            n == CHAIN_LEN,
            n == self.joints().len(),
    {
        CHAIN_LEN
    }

    /// The joint in `slot`, or `None` past the end of the chain.
    pub fn joint(&self, slot: usize) -> (joint: Option<u64>)
        ensures
            joint == if slot < CHAIN_LEN {
                Some(self.joints()[slot as int])
            } else {
                None
            },
    {
        if slot < CHAIN_LEN {
            Some(self.joints[slot])
        } else {
            None
        }
    }

    /// The root joint, which is the chain's anchor.
    pub fn root(&self) -> (root: u64)
        ensures
            root == self.joints()[0],
    {
        self.joints[0]
    }

    /// The joints, root first.
    pub fn joint_ids(&self) -> (ids: Vec<u64>)
        ensures
            ids@ == self.joints(),
    {
        let mut ids: Vec<u64> = Vec::new();
        let mut slot: usize = 0;
        while slot < CHAIN_LEN
            invariant
                slot <= CHAIN_LEN,
                ids.len() == slot,
                forall|k: int| 0 <= k < slot ==> #[trigger] ids[k] == self.joints()[k],
            decreases CHAIN_LEN - slot,
        {
            ids.push(self.joints[slot]);
            slot += 1;
        }
        assert(ids@ =~= self.joints());
        ids
    }

    /// The node that holds the chain's state.
    pub fn owner_id(&self) -> (owner: u64)
        ensures
            owner == self.owner(),
    {
        self.owner
    }
}

/// Binds the chain whose root is the node at `root_index`.
pub fn bind_chain(nodes: &Vec<SkeletonNode>, root_index: usize) -> (binding: ChainBinding)
    requires
        root_index < nodes.len(),
    ensures
        ChainBinding::of(nodes@, root_index as int, binding),
{
    let root = nodes[root_index].id;
    let joints = chain_joints(nodes, root, &nodes[root_index].children);
    let owner = chain_owner(nodes, root);
    ChainBinding { joints, owner }
}

/// The places of the nodes that carry the root marker, in table order.
pub fn find_roots(nodes: &Vec<SkeletonNode>) -> (roots: Vec<usize>)
    ensures
        roots@.map_values(|i: usize| i as int) == marker_indices(nodes@),
        forall|k: int| 0 <= k < roots.len() ==> (#[trigger] roots[k]) < nodes.len(),
{
    let mut roots: Vec<usize> = Vec::new();
    let mut i: usize = 0;
    while i < nodes.len()
        invariant
            i <= nodes.len(),
            roots@.map_values(|i: usize| i as int) == marker_indices(nodes@.take(i as int)),
            forall|k: int| 0 <= k < roots.len() ==> (#[trigger] roots[k]) < nodes.len(),
        decreases nodes.len() - i,
    {
        let ghost grown = nodes@.take(i + 1);
        proof {
            assert(grown.drop_last() == nodes@.take(i as int));
            assert(grown.last() == nodes@[i as int]);
        }
        let marked = match &nodes[i].name {
            Some(name) => is_root_marker(name),
            None => false,
        };
        if marked {
            let ghost earlier = roots@;
            roots.push(i);
            assert(roots@.map_values(|i: usize| i as int) =~= earlier.map_values(
                |i: usize| i as int,
            ).push(i as int));
        }
        i += 1;
    }
    assert(nodes@.take(nodes.len() as int) == nodes@);
    roots
}

/// Binds every chain of the skeleton: one binding for each node that carries
/// the root marker, in table order. A skeleton without a marker has none.
pub fn bind_chains(nodes: &Vec<SkeletonNode>) -> (bindings: Vec<ChainBinding>)
    ensures
        bindings.len() == marker_indices(nodes@).len(),
        forall|k: int|
            0 <= k < bindings.len() ==> ChainBinding::of(
                nodes@,
                marker_indices(nodes@)[k],
                #[trigger] bindings[k],
            ),
{
    let roots = find_roots(nodes);
    let mut bindings: Vec<ChainBinding> = Vec::new();
    let mut k: usize = 0;
    assert(roots@.map_values(|i: usize| i as int).len() == roots.len());
    while k < roots.len()
        invariant
            k <= roots.len(),
            bindings.len() == k,
            roots.len() == marker_indices(nodes@).len(),
            roots@.map_values(|i: usize| i as int) == marker_indices(nodes@),
            forall|j: int| 0 <= j < roots.len() ==> (#[trigger] roots[j]) < nodes.len(),
            forall|j: int|
                0 <= j < k ==> ChainBinding::of(
                    nodes@,
                    marker_indices(nodes@)[j],
                    #[trigger] bindings[j],
                ),
        decreases roots.len() - k,
    {
        assert(roots@.map_values(|i: usize| i as int)[k as int] == roots[k as int] as int);
        bindings.push(bind_chain(nodes, roots[k]));
        k += 1;
    }
    bindings
}

} // verus!
