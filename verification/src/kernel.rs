//! The lock kernel: coordination state for a tree of lockable entities.
//!
//! A [`LockSpace`] owns every kernel node and every granted lock instance.
//! Nodes form a forest: each node optionally points at a parent with a
//! smaller index, and carries one grant counter per lock mode.  A granted
//! acquisition is recorded as an instance slot; an instance optionally
//! points at the parent instance that satisfies its intention requirement.
//!
//! Every operation is specified against a functional model on the ghost
//! image of the space ([`acquire_model`], [`upgrade_model`],
//! [`release_model`]), and the space invariant [`space_inv`] ties the
//! counters to the multiset of live instances.

use vstd::prelude::*;
use vstd::string::StringExecFns;

use crate::common::{LockError, LockResult};
use crate::locktype::{
    lemma_compatible_with_symmetric, mode_at, LockType,
};

verus! {

/// Identifier a parent kernel assigns to each of its children.
pub type Id = u64;

// ------------------------------------------------------------------
// Ghost image of the state
// ------------------------------------------------------------------

/// Ghost image of one kernel node.
#[verifier::ext_equal]
pub ghost struct NodeV {
    /// Identifier of the node within its parent; `None` for roots.
    pub id: Option<Id>,
    /// Index of the parent node; `None` for roots.
    pub parent: Option<int>,
    /// Whether a payload wrapper has claimed this node.
    pub owned: bool,
    /// One grant counter per mode, indexed in canonical order.
    pub counts: Seq<usize>,
    /// The identifier the next child of this node will receive.
    pub next_child_id: Id,
}

/// Ghost image of one lock instance slot.
#[verifier::ext_equal]
pub ghost struct InstV {
    /// Index of the node this instance holds a grant on.
    pub node: int,
    /// The currently held mode.
    pub lock_type: LockType,
    /// Index of the parent instance satisfying the intention requirement.
    pub parent: Option<int>,
    /// Whether a handle to this instance was handed out of the kernel.
    pub shared: bool,
    /// Whether the grant is still held.
    pub live: bool,
}

/// Ghost image of a whole lock space.
#[verifier::ext_equal]
pub ghost struct SpaceV {
    /// All kernel nodes, in creation order.
    pub nodes: Seq<NodeV>,
    /// All instance slots, in creation order; released slots stay, dead.
    pub insts: Seq<InstV>,
}

/// The counters of a node that has never granted anything.
pub open spec fn zero_counts() -> Seq<usize> {
    seq![0usize, 0usize, 0usize, 0usize, 0usize]
}

/// A mode can be granted on a node exactly when it is compatible with every
/// mode currently counted there.
pub open spec fn ready_for(counts: Seq<usize>, t: LockType) -> bool {
    forall|m: int|
        0 <= m < 5 ==> ((#[trigger] counts[m]) > 0 ==> t.spec_compatible_with(mode_at(m)))
}

/// A holder of `from` can move to `to` on a node exactly when `to` is
/// compatible with every mode counted there beyond the holder's own grant.
pub open spec fn upgrade_ready_for(counts: Seq<usize>, from: LockType, to: LockType) -> bool {
    forall|m: int|
        0 <= m < 5 ==> ((#[trigger] counts[m]) > (if m == from.spec_index() {
            1int
        } else {
            0int
        }) ==> to.spec_compatible_with(mode_at(m)))
}

/// What one instance slot contributes to the grant counter of `(n, m)`.
pub open spec fn inst_contrib(iv: InstV, n: int, m: LockType) -> nat {
    if iv.live && iv.node == n && iv.lock_type == m {
        1
    } else {
        0
    }
}

/// How many live instances hold mode `m` on node `n`.
pub open spec fn live_count(insts: Seq<InstV>, n: int, m: LockType) -> nat
    decreases insts.len(),
{
    if insts.len() == 0 {
        0
    } else {
        live_count(insts.drop_last(), n, m) + inst_contrib(insts.last(), n, m)
    }
}

// ------------------------------------------------------------------
// The space invariant
// ------------------------------------------------------------------

/// Structural well-formedness of one node: five counters, and a parent that
/// was created earlier.
pub open spec fn node_inv(s: SpaceV, n: int) -> bool {
    &&& s.nodes[n].counts.len() == 5
    &&& match s.nodes[n].parent {
        Some(p) => 0 <= p < n,
        None => true,
    }
}

/// Structural well-formedness of one live instance: it sits on a real node,
/// and its parent link is a live instance on that node's parent.
pub open spec fn inst_inv(s: SpaceV, i: int) -> bool {
    &&& 0 <= s.insts[i].node < s.nodes.len()
    &&& match s.insts[i].parent {
        None => s.nodes[s.insts[i].node].parent is None,
        Some(p) => {
            &&& 0 <= p < i
            &&& s.insts[p].live
            &&& s.nodes[s.insts[i].node].parent == Some(s.insts[p].node)
        },
    }
}

/// Every counter equals the number of live instances it stands for.
pub open spec fn counts_accurate(s: SpaceV) -> bool {
    forall|n: int, m: int|
        0 <= n < s.nodes.len() && 0 <= m < 5 ==> (#[trigger] s.nodes[n].counts[m])
            == live_count(s.insts, n, mode_at(m))
}

/// The multiset of modes granted on node `n` is pairwise compatible.
pub open spec fn grants_compatible(s: SpaceV, n: int) -> bool {
    forall|m1: int, m2: int|
        0 <= m1 < 5 && 0 <= m2 < 5 && (#[trigger] s.nodes[n].counts[m1]) > 0
            && (#[trigger] s.nodes[n].counts[m2]) > 0 && (m1 != m2 || s.nodes[n].counts[m1] >= 2)
            ==> mode_at(m1).spec_compatible_with(mode_at(m2))
}

/// An instance the kernel created internally for an implicit parent grant
/// (`shared == false`) is referenced by at most one live child instance.
pub open spec fn unshared_parents_unique(s: SpaceV) -> bool {
    forall|i1: int, i2: int|
        #![trigger s.insts[i1].parent, s.insts[i2].parent]
        0 <= i1 < s.insts.len() && 0 <= i2 < s.insts.len() && s.insts[i1].live && s.insts[i2].live
            && s.insts[i1].parent is Some && s.insts[i1].parent == s.insts[i2].parent
            && !s.insts[s.insts[i1].parent.unwrap()].shared ==> i1 == i2
}

/// Two sibling nodes never carry the same identifier.
pub open spec fn sibling_ids_unique(s: SpaceV) -> bool {
    forall|j1: int, j2: int|
        #![trigger s.nodes[j1].id, s.nodes[j2].id]
        0 <= j1 < s.nodes.len() && 0 <= j2 < s.nodes.len() && s.nodes[j1].parent is Some
            && s.nodes[j1].parent == s.nodes[j2].parent && s.nodes[j1].id is Some
            && s.nodes[j1].id == s.nodes[j2].id ==> j1 == j2
}

/// Every identified child's identifier lies below its parent's counter, so
/// the identifier `new_child` assigns next is fresh among the siblings.
pub open spec fn child_ids_bounded(s: SpaceV) -> bool {
    forall|j: int|
        #![trigger s.nodes[j].id]
        0 <= j < s.nodes.len() && s.nodes[j].parent is Some && s.nodes[j].id is Some
            ==> s.nodes[j].id.unwrap() < s.nodes[s.nodes[j].parent.unwrap()].next_child_id
}

/// The invariant of a lock space.
pub open spec fn space_inv(s: SpaceV) -> bool {
    &&& forall|n: int| 0 <= n < s.nodes.len() ==> #[trigger] node_inv(s, n)
    &&& forall|i: int|
        0 <= i < s.insts.len() && (#[trigger] s.insts[i].live) ==> inst_inv(s, i)
    &&& counts_accurate(s)
    &&& forall|n: int| 0 <= n < s.nodes.len() ==> #[trigger] grants_compatible(s, n)
    &&& unshared_parents_unique(s)
    &&& sibling_ids_unique(s)
    &&& child_ids_bounded(s)
}

/// A usable node index.
pub open spec fn node_valid(s: SpaceV, n: int) -> bool {
    0 <= n < s.nodes.len()
}

/// A usable, still-held instance index.
pub open spec fn inst_valid(s: SpaceV, i: int) -> bool {
    0 <= i < s.insts.len() && s.insts[i].live
}

/// The decimal digits of `n`, most significant first.
pub open spec fn spec_digits(n: Id) -> Seq<char>
    decreases n,
{
    if n < 10 {
        seq![digit_char(n)]
    } else {
        spec_digits(n / 10) + seq![digit_char(n % 10)]
    }
}

/// The character for one decimal digit.
pub open spec fn digit_char(d: Id) -> char {
    if d == 0 {
        '0'
    } else if d == 1 {
        '1'
    } else if d == 2 {
        '2'
    } else if d == 3 {
        '3'
    } else if d == 4 {
        '4'
    } else if d == 5 {
        '5'
    } else if d == 6 {
        '6'
    } else if d == 7 {
        '7'
    } else if d == 8 {
        '8'
    } else {
        '9'
    }
}

/// The identifiers along the path from the root down to node `n`; a node
/// without an identifier (the root, normally) contributes nothing.
pub open spec fn spec_path_ids(s: SpaceV, n: int) -> Seq<Id>
    decreases n,
    when 0 <= n
{
    let own = match s.nodes[n].id {
        Some(i) => seq![i],
        None => Seq::<Id>::empty(),
    };
    match s.nodes[n].parent {
        Some(p) => if 0 <= p < n {
            spec_path_ids(s, p) + own
        } else {
            own
        },
        None => own,
    }
}

/// Identifiers joined by `:`, without the surrounding brackets.
pub open spec fn spec_path_text(ids: Seq<Id>) -> Seq<char>
    decreases ids.len(),
{
    if ids.len() == 0 {
        Seq::<char>::empty()
    } else if ids.len() == 1 {
        spec_digits(ids[0])
    } else {
        spec_path_text(ids.drop_last()) + seq![':'] + spec_digits(ids.last())
    }
}

/// Node `j` is a child of node `p` carrying identifier `id`.
pub open spec fn is_child_with_id(s: SpaceV, j: int, p: int, id: Id) -> bool {
    &&& 0 <= j < s.nodes.len()
    &&& s.nodes[j].parent == Some(p)
    &&& s.nodes[j].id == Some(id)
}

/// No live instance uses `i` as its parent grant.
pub open spec fn unreferenced(s: SpaceV, i: int) -> bool {
    forall|j: int|
        0 <= j < s.insts.len() && (#[trigger] s.insts[j].live) ==> s.insts[j].parent != Some(i)
}

// ------------------------------------------------------------------
// The functional model of the operations
// ------------------------------------------------------------------

/// The counters of a node after one more grant of `t`.
pub open spec fn counts_after_grant(counts: Seq<usize>, t: LockType) -> Seq<usize> {
    counts.update(t.spec_index(), (counts[t.spec_index()] + 1) as usize)
}

/// The counters of a node after one grant of `t` is returned.
pub open spec fn counts_after_release(counts: Seq<usize>, t: LockType) -> Seq<usize> {
    counts.update(t.spec_index(), (counts[t.spec_index()] - 1) as usize)
}

/// The space after a new grant of `t` on node `n` is recorded: the counter
/// rises and a fresh live instance is appended.
pub open spec fn push_inst(
    s: SpaceV,
    n: int,
    t: LockType,
    parent_link: Option<int>,
    shared: bool,
) -> SpaceV {
    SpaceV {
        nodes: s.nodes.update(
            n,
            NodeV { counts: counts_after_grant(s.nodes[n].counts, t), ..s.nodes[n] },
        ),
        insts: s.insts.push(
            InstV { node: n, lock_type: t, parent: parent_link, shared, live: true },
        ),
    }
}

/// Whether an implicit acquisition of `t` on node `n` (and, recursively, of
/// the implicit parent mode on every ancestor) can be granted right now.
pub open spec fn can_acquire_implicit(s: SpaceV, n: int, t: LockType) -> bool
    decreases n,
    when 0 <= n
{
    &&& ready_for(s.nodes[n].counts, t)
    &&& match s.nodes[n].parent {
        None => true,
        Some(p) => 0 <= p < n && can_acquire_implicit(s, p, t.spec_implicit_parent_type()),
    }
}

/// The space after an implicit acquisition of `t` on node `n`: the ancestor
/// chain is granted first (root first), each new instance linked to the one
/// granted just before it.
pub open spec fn apply_acquire_implicit(s: SpaceV, n: int, t: LockType) -> SpaceV
    decreases n,
    when 0 <= n
{
    match s.nodes[n].parent {
        None => push_inst(s, n, t, None, false),
        Some(p) => {
            if 0 <= p < n {
                let s1 = apply_acquire_implicit(s, p, t.spec_implicit_parent_type());
                push_inst(s1, n, t, Some(s1.insts.len() - 1), false)
            } else {
                s
            }
        },
    }
}

/// Whether a supplied parent grant of mode `actual` suffices for a child
/// needing `required`, and if not, the mode it must be upgraded to.
pub open spec fn parent_target(required: LockType, actual: LockType) -> Option<LockType> {
    if required.spec_index() > actual.spec_index() {
        Some(actual.spec_min_upgradable(required))
    } else if required.spec_index() < actual.spec_index() && !required.spec_upgradable_to(actual) {
        Some(required.spec_min_upgradable(actual))
    } else {
        None
    }
}

/// The space after instance `i` moves from `from` to `to` on its node.
pub open spec fn apply_upgrade_at(s: SpaceV, i: int, from: LockType, to: LockType) -> SpaceV {
    let n = s.insts[i].node;
    SpaceV {
        nodes: s.nodes.update(
            n,
            NodeV {
                counts: counts_after_grant(counts_after_release(s.nodes[n].counts, from), to),
                ..s.nodes[n]
            },
        ),
        insts: s.insts.update(i, InstV { lock_type: to, ..s.insts[i] }),
    }
}

/// The functional model of `upgrade` on instance `i`: result and new state.
///
/// A parent grant that no longer suffices for the new mode is first upgraded
/// itself (recursively), when `auto_upgrade` allows it.  A failure below
/// leaves the already performed parent upgrades in place; a failure at this
/// node never touches this node's counters.
pub open spec fn upgrade_model(s: SpaceV, i: int, to: LockType, auto_upgrade: bool) -> (Result<
    (),
    LockError,
>, SpaceV)
    decreases i,
    when 0 <= i
{
    let from = s.insts[i].lock_type;
    if from == to {
        (Ok(()), s)
    } else if !from.spec_upgradable_to(to) {
        (Err(LockError::InvalidUpgrade { original: from, requested: to }), s)
    } else {
        let step = match s.insts[i].parent {
            None => (Ok(()), s),
            Some(p) => {
                let required = to.spec_implicit_parent_type();
                let actual = s.insts[p].lock_type;
                match parent_target(required, actual) {
                    None => (Ok(()), s),
                    Some(u) => if !auto_upgrade {
                        (Err(LockError::InvalidParentLockType { required, actual }), s)
                    } else if 0 <= p < i {
                        upgrade_model(s, p, u, auto_upgrade)
                    } else {
                        (Ok(()), s)
                    },
                }
            },
        };
        if step.0 is Err {
            step
        } else {
            let s1 = step.1;
            let n = s.insts[i].node;
            if upgrade_ready_for(s1.nodes[n].counts, from, to) {
                (Ok(()), apply_upgrade_at(s1, i, from, to))
            } else {
                (Err(LockError::LockBusy), s1)
            }
        }
    }
}

/// The functional model of `acquire` of `t` on node `n`: the index of the
/// new instance and the new state, or the error and the state it leaves.
///
/// With no parent there is nothing to ensure above; with a supplied grant
/// the grant is identity-checked and, when insufficient, upgraded (its
/// upgrades persist even if this node then turns out busy); with no grant an
/// implicit chain is acquired, and nothing changes unless everything is
/// grantable.
pub open spec fn acquire_model(
    s: SpaceV,
    n: int,
    t: LockType,
    grant: Option<int>,
    auto_upgrade: bool,
) -> (Result<int, LockError>, SpaceV) {
    match s.nodes[n].parent {
        None => {
            if ready_for(s.nodes[n].counts, t) {
                (Ok(s.insts.len() as int), push_inst(s, n, t, None, true))
            } else {
                (Err(LockError::LockBusy), s)
            }
        },
        Some(pn) => match grant {
            None => {
                if can_acquire_implicit(s, pn, t.spec_implicit_parent_type()) && ready_for(
                    s.nodes[n].counts,
                    t,
                ) {
                    let s1 = apply_acquire_implicit(s, pn, t.spec_implicit_parent_type());
                    (
                        Ok(s1.insts.len() as int),
                        push_inst(s1, n, t, Some(s1.insts.len() - 1), true),
                    )
                } else {
                    (Err(LockError::LockBusy), s)
                }
            },
            Some(g) => {
                if s.insts[g].node != pn {
                    (Err(LockError::InvalidParentLock), s)
                } else {
                    let required = t.spec_implicit_parent_type();
                    let actual = s.insts[g].lock_type;
                    let step = match parent_target(required, actual) {
                        None => (Ok(()), s),
                        Some(u) => if auto_upgrade {
                            upgrade_model(s, g, u, true)
                        } else {
                            (Err(LockError::InvalidParentLockType { required, actual }), s)
                        },
                    };
                    match step.0 {
                        Err(e) => (Err(e), step.1),
                        Ok(_) => {
                            let s1 = step.1;
                            if ready_for(s1.nodes[n].counts, t) {
                                (Ok(s1.insts.len() as int), push_inst(s1, n, t, Some(g), true))
                            } else {
                                (Err(LockError::LockBusy), s1)
                            }
                        },
                    }
                }
            },
        },
    }
}

/// The space after the grant of instance `i` is returned: the slot dies and
/// its node's counter falls.
pub open spec fn free_inst(s: SpaceV, i: int) -> SpaceV {
    let n = s.insts[i].node;
    SpaceV {
        nodes: s.nodes.update(
            n,
            NodeV {
                counts: counts_after_release(s.nodes[n].counts, s.insts[i].lock_type),
                ..s.nodes[n]
            },
        ),
        insts: s.insts.update(i, InstV { live: false, ..s.insts[i] }),
    }
}

/// The functional model of releasing instance `i`: the slot is freed, and an
/// implicit parent grant the kernel created for it alone is freed in turn,
/// child before parent, up the chain.
pub open spec fn release_model(s: SpaceV, i: int) -> SpaceV
    decreases i,
    when 0 <= i
{
    let s1 = free_inst(s, i);
    match s.insts[i].parent {
        Some(p) => if 0 <= p < i && !s.insts[p].shared {
            release_model(s1, p)
        } else {
            s1
        },
        None => s1,
    }
}

// ------------------------------------------------------------------
// Counting lemmas
// ------------------------------------------------------------------

proof fn lemma_live_count_push(insts: Seq<InstV>, x: InstV, n: int, m: LockType)
    ensures
        live_count(insts.push(x), n, m) == live_count(insts, n, m) + inst_contrib(x, n, m),
{
    assert(insts.push(x).drop_last() =~= insts);
    assert(insts.push(x).last() == x);
}

proof fn lemma_live_count_update(insts: Seq<InstV>, k: int, x: InstV, n: int, m: LockType)
    requires
        0 <= k < insts.len(),
    ensures
        live_count(insts.update(k, x), n, m) + inst_contrib(insts[k], n, m) == live_count(
            insts,
            n,
            m,
        ) + inst_contrib(x, n, m),
    decreases insts.len(),
{
    let u = insts.update(k, x);
    if k == insts.len() - 1 {
        assert(u.drop_last() =~= insts.drop_last());
        assert(u.last() == x);
    } else {
        assert(u.drop_last() =~= insts.drop_last().update(k, x));
        assert(u.last() == insts.last());
        lemma_live_count_update(insts.drop_last(), k, x, n, m);
        assert(insts.drop_last()[k] == insts[k]);
    }
}

proof fn lemma_live_count_at(insts: Seq<InstV>, k: int, n: int, m: LockType)
    requires
        0 <= k < insts.len(),
    ensures
        live_count(insts, n, m) >= inst_contrib(insts[k], n, m),
    decreases insts.len(),
{
    if k < insts.len() - 1 {
        lemma_live_count_at(insts.drop_last(), k, n, m);
        assert(insts.drop_last()[k] == insts[k]);
    }
}

proof fn lemma_live_count_le_len(insts: Seq<InstV>, n: int, m: LockType)
    ensures
        live_count(insts, n, m) <= insts.len(),
    decreases insts.len(),
{
    if insts.len() > 0 {
        lemma_live_count_le_len(insts.drop_last(), n, m);
    }
}

proof fn lemma_live_count_disjoint(insts: Seq<InstV>, n: int, m1: LockType, m2: LockType)
    requires
        m1 != m2,
    ensures
        live_count(insts, n, m1) + live_count(insts, n, m2) <= insts.len(),
    decreases insts.len(),
{
    if insts.len() > 0 {
        lemma_live_count_disjoint(insts.drop_last(), n, m1, m2);
    }
}

proof fn lemma_live_count_zero(insts: Seq<InstV>, n: int, m: LockType)
    requires
        forall|j: int| 0 <= j < insts.len() ==> inst_contrib(#[trigger] insts[j], n, m) == 0,
    ensures
        live_count(insts, n, m) == 0,
    decreases insts.len(),
{
    if insts.len() > 0 {
        assert forall|j: int| 0 <= j < insts.drop_last().len() implies inst_contrib(
            #[trigger] insts.drop_last()[j],
            n,
            m,
        ) == 0 by {
            assert(insts.drop_last()[j] == insts[j]);
        }
        lemma_live_count_zero(insts.drop_last(), n, m);
        assert(inst_contrib(insts[insts.len() - 1], n, m) == 0);
    }
}

// ------------------------------------------------------------------
// Invariant preservation
// ------------------------------------------------------------------

/// A state change that leaves every node's identifier, parent and child
/// counter in place keeps the identifier invariants.
proof fn lemma_ids_preserved(s: SpaceV, s2: SpaceV)
    requires
        sibling_ids_unique(s),
        child_ids_bounded(s),
        forall|n: int| 0 <= n < s.nodes.len() ==> #[trigger] node_inv(s, n),
        s2.nodes.len() == s.nodes.len(),
        forall|j: int|
            0 <= j < s.nodes.len() ==> (#[trigger] s2.nodes[j]).id == s.nodes[j].id
                && s2.nodes[j].parent == s.nodes[j].parent && s2.nodes[j].next_child_id
                == s.nodes[j].next_child_id,
    ensures
        sibling_ids_unique(s2),
        child_ids_bounded(s2),
{
    assert forall|j1: int, j2: int|
        #![trigger s2.nodes[j1].id, s2.nodes[j2].id]
        0 <= j1 < s2.nodes.len() && 0 <= j2 < s2.nodes.len() && s2.nodes[j1].parent is Some
            && s2.nodes[j1].parent == s2.nodes[j2].parent && s2.nodes[j1].id is Some
            && s2.nodes[j1].id == s2.nodes[j2].id implies j1 == j2 by {
        assert(s.nodes[j1].id == s2.nodes[j1].id && s.nodes[j1].parent == s2.nodes[j1].parent);
        assert(s.nodes[j2].id == s2.nodes[j2].id && s.nodes[j2].parent == s2.nodes[j2].parent);
    }
    assert forall|j: int|
        #![trigger s2.nodes[j].id]
        0 <= j < s2.nodes.len() && s2.nodes[j].parent is Some && s2.nodes[j].id
            is Some implies s2.nodes[j].id.unwrap()
        < s2.nodes[s2.nodes[j].parent.unwrap()].next_child_id by {
        assert(s.nodes[j].id == s2.nodes[j].id && s.nodes[j].parent == s2.nodes[j].parent);
        assert(node_inv(s, j));
        let p = s.nodes[j].parent.unwrap();
        assert(s2.nodes[p].next_child_id == s.nodes[p].next_child_id);
    }
}

/// Recording a grant that is ready, with a sound parent link, keeps the
/// space invariant.
proof fn lemma_push_inst_inv(s: SpaceV, n: int, t: LockType, link: Option<int>, shared: bool)
    requires
        space_inv(s),
        0 <= n < s.nodes.len(),
        s.insts.len() < usize::MAX,
        ready_for(s.nodes[n].counts, t),
        match link {
            Some(p) => inst_valid(s, p) && s.nodes[n].parent == Some(s.insts[p].node) && (
            !s.insts[p].shared ==> unreferenced(s, p)),
            None => s.nodes[n].parent is None,
        },
    ensures
        space_inv(push_inst(s, n, t, link, shared)),
{
    let s2 = push_inst(s, n, t, link, shared);
    let x = InstV { node: n, lock_type: t, parent: link, shared, live: true };
    let ti = t.spec_index();
    assert(s2.insts == s.insts.push(x));
    assert(node_inv(s, n));

    assert forall|n2: int| 0 <= n2 < s2.nodes.len() implies #[trigger] node_inv(s2, n2) by {
        assert(node_inv(s, n2));
    }

    assert forall|i: int|
        0 <= i < s2.insts.len() && (#[trigger] s2.insts[i].live) implies inst_inv(s2, i) by {
        if i < s.insts.len() {
            assert(s2.insts[i] == s.insts[i]);
            assert(inst_inv(s, i));
        } else {
            assert(s2.insts[i] == x);
        }
    }

    assert forall|n2: int, m: int|
        0 <= n2 < s2.nodes.len() && 0 <= m < 5 implies (#[trigger] s2.nodes[n2].counts[m])
        == live_count(s2.insts, n2, mode_at(m)) by {
        lemma_live_count_push(s.insts, x, n2, mode_at(m));
        assert(s.nodes[n2].counts[m] == live_count(s.insts, n2, mode_at(m)));
        lemma_live_count_le_len(s.insts, n2, mode_at(m));
    }

    assert forall|n2: int| 0 <= n2 < s2.nodes.len() implies #[trigger] grants_compatible(
        s2,
        n2,
    ) by {
        assert(grants_compatible(s, n2));
        if n2 == n {
            let c = s.nodes[n].counts;
            let c2 = s2.nodes[n].counts;
            assert(s.nodes[n].counts[ti] == live_count(s.insts, n, mode_at(ti)));
            lemma_live_count_le_len(s.insts, n, mode_at(ti));
            assert(c[ti] < usize::MAX);
            assert forall|m1: int, m2: int|
                0 <= m1 < 5 && 0 <= m2 < 5 && (#[trigger] c2[m1]) > 0 && (#[trigger] c2[m2]) > 0
                    && (m1 != m2 || c2[m1] >= 2) implies mode_at(m1).spec_compatible_with(
                mode_at(m2),
            ) by {
                lemma_compatible_with_symmetric(mode_at(m1), mode_at(m2));
                assert(c[m1] == if m1 == ti { c2[m1] - 1 } else { c2[m1] as int });
                assert(c[m2] == if m2 == ti { c2[m2] - 1 } else { c2[m2] as int });
            }
        }
    }

    assert forall|i1: int, i2: int|
        0 <= i1 < s2.insts.len() && 0 <= i2 < s2.insts.len() && s2.insts[i1].live
            && s2.insts[i2].live && (#[trigger] s2.insts[i1].parent) is Some
            && s2.insts[i1].parent == #[trigger] s2.insts[i2].parent
            && !s2.insts[s2.insts[i1].parent.unwrap()].shared implies i1 == i2 by {
        let p = s2.insts[i1].parent.unwrap();
        if i1 < s.insts.len() && i2 < s.insts.len() {
            assert(s2.insts[i1] == s.insts[i1]);
            assert(s2.insts[i2] == s.insts[i2]);
            assert(inst_inv(s, i1));
            assert(s2.insts[p] == s.insts[p]);
        } else if i1 < s.insts.len() {
            // i2 is the new instance, so link = Some(p) with p unshared;
            // then i1 would be an existing live reference to p.
            assert(s2.insts[i2] == x);
            assert(s2.insts[i1] == s.insts[i1]);
            assert(inst_inv(s, i1));
            assert(s2.insts[p] == s.insts[p]);
            assert(!s.insts[p].shared);
            assert(unreferenced(s, p));
            assert(s.insts[i1].live);
            assert(false);
        } else if i2 < s.insts.len() {
            assert(s2.insts[i1] == x);
            assert(s2.insts[i2] == s.insts[i2]);
            assert(inst_inv(s, i2));
            assert(s2.insts[p] == s.insts[p]);
            assert(!s.insts[p].shared);
            assert(unreferenced(s, p));
            assert(s.insts[i2].live);
            assert(false);
        }
    }

    assert forall|j: int|
        0 <= j < s.nodes.len() implies (#[trigger] s2.nodes[j]).id == s.nodes[j].id
        && s2.nodes[j].parent == s.nodes[j].parent && s2.nodes[j].next_child_id
        == s.nodes[j].next_child_id by {}
    lemma_ids_preserved(s, s2);
}

/// Freeing a live instance that nothing references keeps the invariant; the
/// implicit parent it may point at stays live and, if unshared, becomes
/// unreferenced in turn.
proof fn lemma_free_inst_inv(s: SpaceV, i: int)
    requires
        space_inv(s),
        inst_valid(s, i),
        unreferenced(s, i),
    ensures
        space_inv(free_inst(s, i)),
        free_inst(s, i).nodes.len() == s.nodes.len(),
        free_inst(s, i).insts.len() == s.insts.len(),
        match s.insts[i].parent {
            Some(p) => inst_valid(free_inst(s, i), p) && free_inst(s, i).insts[p]
                == s.insts[p] && (!s.insts[p].shared ==> unreferenced(free_inst(s, i), p)),
            None => true,
        },
{
    let s2 = free_inst(s, i);
    let n = s.insts[i].node;
    let t = s.insts[i].lock_type;
    let ti = t.spec_index();
    let x = InstV { live: false, ..s.insts[i] };
    assert(inst_inv(s, i));
    assert(node_inv(s, n));
    lemma_live_count_at(s.insts, i, n, t);
    assert(s.nodes[n].counts[ti] >= 1);

    assert forall|n2: int| 0 <= n2 < s2.nodes.len() implies #[trigger] node_inv(s2, n2) by {
        assert(node_inv(s, n2));
    }

    assert forall|j: int|
        0 <= j < s2.insts.len() && (#[trigger] s2.insts[j].live) implies inst_inv(s2, j) by {
        assert(j != i);
        assert(s2.insts[j] == s.insts[j]);
        assert(s.insts[j].live);
        assert(inst_inv(s, j));
        match s.insts[j].parent {
            Some(pj) => {
                assert(s.insts[j].parent != Some(i));
                assert(pj != i);
                assert(s2.insts[pj] == s.insts[pj]);
            },
            None => {},
        }
    }

    assert forall|n2: int, m: int|
        0 <= n2 < s2.nodes.len() && 0 <= m < 5 implies (#[trigger] s2.nodes[n2].counts[m])
        == live_count(s2.insts, n2, mode_at(m)) by {
        lemma_live_count_update(s.insts, i, x, n2, mode_at(m));
        assert(s.nodes[n2].counts[m] == live_count(s.insts, n2, mode_at(m)));
    }

    assert forall|n2: int| 0 <= n2 < s2.nodes.len() implies #[trigger] grants_compatible(
        s2,
        n2,
    ) by {
        assert(grants_compatible(s, n2));
        if n2 == n {
            let c = s.nodes[n].counts;
            let c2 = s2.nodes[n].counts;
            assert forall|m1: int, m2: int|
                0 <= m1 < 5 && 0 <= m2 < 5 && (#[trigger] c2[m1]) > 0 && (#[trigger] c2[m2]) > 0
                    && (m1 != m2 || c2[m1] >= 2) implies mode_at(m1).spec_compatible_with(
                mode_at(m2),
            ) by {
                assert(c[m1] >= c2[m1]);
                assert(c[m2] >= c2[m2]);
            }
        }
    }

    assert forall|i1: int, i2: int|
        0 <= i1 < s2.insts.len() && 0 <= i2 < s2.insts.len() && s2.insts[i1].live
            && s2.insts[i2].live && (#[trigger] s2.insts[i1].parent) is Some
            && s2.insts[i1].parent == #[trigger] s2.insts[i2].parent
            && !s2.insts[s2.insts[i1].parent.unwrap()].shared implies i1 == i2 by {
        assert(i1 != i && i2 != i);
        assert(s2.insts[i1] == s.insts[i1]);
        assert(s2.insts[i2] == s.insts[i2]);
        let p = s.insts[i1].parent.unwrap();
        if p == i {
            assert(s.insts[i1].live);
            assert(false);
        } else {
            assert(s2.insts[p] == s.insts[p]);
        }
    }

    match s.insts[i].parent {
        Some(p) => {
            assert(p != i);
            assert(s2.insts[p] == s.insts[p]);
            if !s.insts[p].shared {
                assert forall|j: int|
                    0 <= j < s2.insts.len() && (#[trigger] s2.insts[j].live) implies s2.insts[j].parent
                    != Some(p) by {
                    assert(j != i);
                    assert(s2.insts[j] == s.insts[j]);
                    if s.insts[j].parent == Some(p) {
                        assert(s.insts[j].live && s.insts[i].live);
                        assert(s.insts[i].parent is Some);
                        assert(false);
                    }
                }
            }
        },
        None => {},
    }

    assert forall|j: int|
        0 <= j < s.nodes.len() implies (#[trigger] s2.nodes[j]).id == s.nodes[j].id
        && s2.nodes[j].parent == s.nodes[j].parent && s2.nodes[j].next_child_id
        == s.nodes[j].next_child_id by {}
    lemma_ids_preserved(s, s2);
}

/// Moving a sole holder's grant from `from` to `to`, when the node is ready
/// for that move, keeps the invariant.
proof fn lemma_apply_upgrade_inv(s: SpaceV, i: int, from: LockType, to: LockType)
    requires
        space_inv(s),
        inst_valid(s, i),
        s.insts[i].lock_type == from,
        from != to,
        s.insts.len() <= usize::MAX,
        upgrade_ready_for(s.nodes[s.insts[i].node].counts, from, to),
    ensures
        space_inv(apply_upgrade_at(s, i, from, to)),
{
    let s2 = apply_upgrade_at(s, i, from, to);
    let n = s.insts[i].node;
    let fi = from.spec_index();
    let ti = to.spec_index();
    let x = InstV { lock_type: to, ..s.insts[i] };
    assert(inst_inv(s, i));
    assert(node_inv(s, n));
    lemma_live_count_at(s.insts, i, n, from);
    assert(s.nodes[n].counts[fi] >= 1);
    lemma_live_count_disjoint(s.insts, n, to, from);
    assert(s.nodes[n].counts[ti] < usize::MAX);
    assert(fi != ti);

    assert forall|n2: int| 0 <= n2 < s2.nodes.len() implies #[trigger] node_inv(s2, n2) by {
        assert(node_inv(s, n2));
    }

    assert forall|j: int|
        0 <= j < s2.insts.len() && (#[trigger] s2.insts[j].live) implies inst_inv(s2, j) by {
        assert(s.insts[j].live);
        assert(inst_inv(s, j));
        match s.insts[j].parent {
            Some(pj) => {
                assert(s2.insts[pj].live == s.insts[pj].live);
                assert(s2.insts[pj].node == s.insts[pj].node);
            },
            None => {},
        }
    }

    assert forall|n2: int, m: int|
        0 <= n2 < s2.nodes.len() && 0 <= m < 5 implies (#[trigger] s2.nodes[n2].counts[m])
        == live_count(s2.insts, n2, mode_at(m)) by {
        lemma_live_count_update(s.insts, i, x, n2, mode_at(m));
        assert(s.nodes[n2].counts[m] == live_count(s.insts, n2, mode_at(m)));
    }

    assert forall|n2: int| 0 <= n2 < s2.nodes.len() implies #[trigger] grants_compatible(
        s2,
        n2,
    ) by {
        assert(grants_compatible(s, n2));
        if n2 == n {
            let c = s.nodes[n].counts;
            let c2 = s2.nodes[n].counts;
            assert forall|m1: int, m2: int|
                0 <= m1 < 5 && 0 <= m2 < 5 && (#[trigger] c2[m1]) > 0 && (#[trigger] c2[m2]) > 0
                    && (m1 != m2 || c2[m1] >= 2) implies mode_at(m1).spec_compatible_with(
                mode_at(m2),
            ) by {
                lemma_compatible_with_symmetric(mode_at(m1), mode_at(m2));
                lemma_compatible_with_symmetric(to, mode_at(m2));
                lemma_compatible_with_symmetric(to, mode_at(m1));
                assert(c[m1] == if m1 == fi { c2[m1] + 1 } else if m1 == ti { c2[m1] - 1 } else { c2[m1] as int });
                assert(c[m2] == if m2 == fi { c2[m2] + 1 } else if m2 == ti { c2[m2] - 1 } else { c2[m2] as int });
            }
        }
    }

    assert forall|i1: int, i2: int|
        0 <= i1 < s2.insts.len() && 0 <= i2 < s2.insts.len() && s2.insts[i1].live
            && s2.insts[i2].live && (#[trigger] s2.insts[i1].parent) is Some
            && s2.insts[i1].parent == #[trigger] s2.insts[i2].parent
            && !s2.insts[s2.insts[i1].parent.unwrap()].shared implies i1 == i2 by {
        assert(s2.insts[i1].parent == s.insts[i1].parent);
        assert(s2.insts[i2].parent == s.insts[i2].parent);
        assert(s.insts[i1].live && s.insts[i2].live);
        let p = s.insts[i1].parent.unwrap();
        assert(s2.insts[p].shared == s.insts[p].shared);
    }

    assert forall|j: int|
        0 <= j < s.nodes.len() implies (#[trigger] s2.nodes[j]).id == s.nodes[j].id
        && s2.nodes[j].parent == s.nodes[j].parent && s2.nodes[j].next_child_id
        == s.nodes[j].next_child_id by {}
    lemma_ids_preserved(s, s2);
}

// ------------------------------------------------------------------
// Frame vocabulary
// ------------------------------------------------------------------

/// Everything of a node except its grant counters.
pub open spec fn node_meta_eq(a: NodeV, b: NodeV) -> bool {
    &&& a.id == b.id
    &&& a.parent == b.parent
    &&& a.owned == b.owned
    &&& a.next_child_id == b.next_child_id
    &&& a.counts.len() == b.counts.len()
}

/// Everything of an instance except its held mode.
pub open spec fn inst_meta_eq(a: InstV, b: InstV) -> bool {
    &&& a.node == b.node
    &&& a.parent == b.parent
    &&& a.shared == b.shared
    &&& a.live == b.live
}

// ------------------------------------------------------------------
// The executable state
// ------------------------------------------------------------------

/// One kernel node: the coordination record for one lockable entity.
#[derive(Debug)]
pub struct LockKernel {
    id: Option<Id>,
    parent: Option<LockKernelRc>,
    owned: bool,
    counts: Vec<usize>,
    next_child_id: Id,
}

/// A handle to a kernel node inside a [`LockSpace`]; equality of handles is
/// identity of nodes.
#[derive(Debug, Clone, Copy)]
pub struct LockKernelRc {
    node: usize,
}

/// A handle to one granted acquisition.  Releasing consumes the handle; the
/// kernel mints each handle once, so a live handle always stands for a live
/// grant.
#[derive(Debug)]
pub struct LockInstance {
    inst: usize,
}

#[derive(Debug)]
struct InstanceSlot {
    node: usize,
    lock_type: LockType,
    parent: Option<usize>,
    shared: bool,
    live: bool,
}

/// The lock space: owner of every kernel node and every instance slot.
///
/// A node, once created, lives as long as the space itself: handles are
/// plain indices and carry no ownership, so there is no last-handle point
/// at which a node could be reclaimed.  A released instance slot likewise
/// stays, dead, so that instance indices are never reused.
#[derive(Debug)]
pub struct LockSpace {
    nodes: Vec<LockKernel>,
    insts: Vec<InstanceSlot>,
}

impl View for LockKernelRc {
    type V = int;

    closed spec fn view(&self) -> int {
        self.node as int
    }
}

impl View for LockInstance {
    type V = int;

    closed spec fn view(&self) -> int {
        self.inst as int
    }
}

impl View for LockKernel {
    type V = NodeV;

    closed spec fn view(&self) -> NodeV {
        NodeV {
            id: self.id,
            parent: match self.parent {
                Some(rc) => Some(rc.node as int),
                None => None,
            },
            owned: self.owned,
            counts: self.counts@,
            next_child_id: self.next_child_id,
        }
    }
}

impl View for InstanceSlot {
    type V = InstV;

    closed spec fn view(&self) -> InstV {
        InstV {
            node: self.node as int,
            lock_type: self.lock_type,
            parent: match self.parent {
                Some(p) => Some(p as int),
                None => None,
            },
            shared: self.shared,
            live: self.live,
        }
    }
}

impl View for LockSpace {
    type V = SpaceV;

    closed spec fn view(&self) -> SpaceV {
        SpaceV {
            nodes: Seq::new(self.nodes@.len(), |k: int| self.nodes@[k]@),
            insts: Seq::new(self.insts@.len(), |k: int| self.insts@[k]@),
        }
    }
}

// ------------------------------------------------------------------
// The operations
// ------------------------------------------------------------------

impl LockSpace {
    /// An empty space: no nodes, no grants.
    pub fn new() -> (s: LockSpace)
        ensures
            s@.nodes.len() == 0,
            s@.insts.len() == 0,
            space_inv(s@),
    {
        LockSpace { nodes: Vec::new(), insts: Vec::new() }
    }

    /// Whether mode `t` can be granted on node `n` right now.
    fn is_ready(&self, n: usize, t: LockType) -> (r: bool)
        requires
            space_inv(self@),
            node_valid(self@, n as int),
        ensures
            r == ready_for(self@.nodes[n as int].counts, t),
    {
        proof {
            assert(node_inv(self@, n as int));
        }
        let counts = &self.nodes[n].counts;
        let mut r = true;
        if counts[0] > 0 && !t.compatible_with(LockType::IntentionShared) {
            r = false;
        }
        if counts[1] > 0 && !t.compatible_with(LockType::IntentionExclusive) {
            r = false;
        }
        if counts[2] > 0 && !t.compatible_with(LockType::Shared) {
            r = false;
        }
        if counts[3] > 0 && !t.compatible_with(LockType::SharedIntentionExclusive) {
            r = false;
        }
        if counts[4] > 0 && !t.compatible_with(LockType::Exclusive) {
            r = false;
        }
        r
    }

    /// Whether a holder of `from` on node `n` can move to `to` right now.
    fn is_upgrade_ready(&self, n: usize, from: LockType, to: LockType) -> (r: bool)
        requires
            space_inv(self@),
            node_valid(self@, n as int),
        ensures
            r == upgrade_ready_for(self@.nodes[n as int].counts, from, to),
    {
        proof {
            assert(node_inv(self@, n as int));
        }
        let fi = from.index();
        let counts = &self.nodes[n].counts;
        let mut r = true;
        if counts[0] > (if fi == 0 { 1 } else { 0 }) && !to.compatible_with(
            LockType::IntentionShared,
        ) {
            r = false;
        }
        if counts[1] > (if fi == 1 { 1 } else { 0 }) && !to.compatible_with(
            LockType::IntentionExclusive,
        ) {
            r = false;
        }
        if counts[2] > (if fi == 2 { 1 } else { 0 }) && !to.compatible_with(LockType::Shared) {
            r = false;
        }
        if counts[3] > (if fi == 3 { 1 } else { 0 }) && !to.compatible_with(
            LockType::SharedIntentionExclusive,
        ) {
            r = false;
        }
        if counts[4] > (if fi == 4 { 1 } else { 0 }) && !to.compatible_with(LockType::Exclusive) {
            r = false;
        }
        r
    }

    /// Records one ready grant of `t` on node `n`.
    fn push_inst_exec(
        &mut self,
        n: usize,
        t: LockType,
        parent_link: Option<usize>,
        shared: bool,
    ) -> (i: usize)
        requires
            space_inv(old(self)@),
            node_valid(old(self)@, n as int),
            ready_for(old(self)@.nodes[n as int].counts, t),
            match parent_link {
                Some(p) => inst_valid(old(self)@, p as int) && old(self)@.nodes[n as int].parent
                    == Some(old(self)@.insts[p as int].node) && (!old(
                    self,
                )@.insts[p as int].shared ==> unreferenced(old(self)@, p as int)),
                None => old(self)@.nodes[n as int].parent is None,
            },
        ensures
            final(self)@ == push_inst(
                old(self)@,
                n as int,
                t,
                match parent_link {
                    Some(p) => Some(p as int),
                    None => None,
                },
                shared,
            ),
            space_inv(final(self)@),
            i == old(self)@.insts.len(),
            final(self)@.insts.len() == old(self)@.insts.len() + 1,
    {
        let ghost s0 = self@;
        let ghost linkv: Option<int> = match parent_link {
            Some(p) => Some(p as int),
            None => None,
        };
        let ghost x = InstV { node: n as int, lock_type: t, parent: linkv, shared, live: true };
        proof {
            assert(node_inv(s0, n as int));
        }
        let i = self.insts.len();
        self.insts.push(
            InstanceSlot { node: n, lock_type: t, parent: parent_link, shared, live: true },
        );
        let new_len = self.insts.len();
        proof {
            assert(new_len == s0.insts.len() + 1);
            assert(s0.insts.len() < usize::MAX);
            assert(s0.nodes[n as int].counts[t.spec_index()] == live_count(
                s0.insts,
                n as int,
                mode_at(t.spec_index()),
            ));
            lemma_live_count_le_len(s0.insts, n as int, mode_at(t.spec_index()));
        }
        let ti = t.index();
        let c = self.nodes[n].counts[ti];
        self.nodes[n].counts[ti] = c + 1;
        proof {
            let s2 = push_inst(s0, n as int, t, linkv, shared);
            assert(self@.insts =~~= s2.insts);
            assert(self@.nodes =~~= s2.nodes);
            assert(self@ == s2);
            lemma_push_inst_inv(s0, n as int, t, linkv, shared);
        }
        i
    }

    /// Whether an implicit acquisition of `t` on node `n` and its ancestors
    /// can be granted right now.
    fn can_acquire_implicit_at(&self, n: usize, t: LockType) -> (r: bool)
        requires
            space_inv(self@),
            node_valid(self@, n as int),
        ensures
            r == can_acquire_implicit(self@, n as int, t),
        decreases n,
    {
        proof {
            assert(node_inv(self@, n as int));
        }
        let ready = self.is_ready(n, t);
        if !ready {
            return false;
        }
        let parent_opt = self.nodes[n].parent;
        match parent_opt {
            None => true,
            Some(prc) => self.can_acquire_implicit_at(prc.node, t.implicit_parent_type()),
        }
    }

    /// Grants `t` on node `n` and the implicit parent mode on every
    /// ancestor, root first, linking each instance to the one below it.
    fn apply_acquire_implicit_at(&mut self, n: usize, t: LockType) -> (i: usize)
        requires
            space_inv(old(self)@),
            node_valid(old(self)@, n as int),
            can_acquire_implicit(old(self)@, n as int, t),
        ensures
            final(self)@ == apply_acquire_implicit(old(self)@, n as int, t),
            space_inv(final(self)@),
            i == final(self)@.insts.len() - 1,
            final(self)@.insts.len() > old(self)@.insts.len(),
            final(self)@.nodes.len() == old(self)@.nodes.len(),
            forall|k: int|
                0 <= k < old(self)@.nodes.len() && k > n ==> final(self)@.nodes[k] == old(self)@.nodes[k],
            forall|j: int| 0 <= j < old(self)@.insts.len() ==> final(self)@.insts[j] == old(self)@.insts[j],
            final(self)@.insts[i as int].node == n && final(self)@.insts[i as int].lock_type == t
                && !final(self)@.insts[i as int].shared && final(self)@.insts[i as int].live,
        decreases n,
    {
        proof {
            assert(node_inv(old(self)@, n as int));
        }
        let parent_opt = self.nodes[n].parent;
        match parent_opt {
            None => self.push_inst_exec(n, t, None, false),
            Some(prc) => {
                let ghost s0 = self@;
                let pi = self.apply_acquire_implicit_at(prc.node, t.implicit_parent_type());
                proof {
                    assert(self@.nodes[n as int] == s0.nodes[n as int]);
                    assert forall|j: int|
                        0 <= j < self@.insts.len() && (#[trigger] self@.insts[j].live) implies self@.insts[j].parent
                        != Some(pi as int) by {
                        assert(inst_inv(self@, j));
                    }
                }
                self.push_inst_exec(n, t, Some(pi), false)
            },
        }
    }

    /// Moves instance `i` from its current mode to `to`, upgrading its
    /// parent grant first when that grant no longer suffices.
    #[verifier::rlimit(50)]
    #[verifier::spinoff_prover]
    fn upgrade_at(&mut self, i: usize, to: LockType, auto_upgrade: bool, try_only: bool) -> (r:
        Result<(), LockError>)
        requires
            space_inv(old(self)@),
            inst_valid(old(self)@, i as int),
        ensures
            r == upgrade_model(old(self)@, i as int, to, auto_upgrade).0,
            final(self)@ == upgrade_model(old(self)@, i as int, to, auto_upgrade).1,
            space_inv(final(self)@),
            final(self)@.nodes.len() == old(self)@.nodes.len(),
            final(self)@.insts.len() == old(self)@.insts.len(),
            forall|k: int|
                0 <= k < old(self)@.nodes.len() ==> node_meta_eq(
                    old(self)@.nodes[k],
                    #[trigger] final(self)@.nodes[k],
                ),
            forall|j: int|
                0 <= j < old(self)@.insts.len() ==> inst_meta_eq(
                    old(self)@.insts[j],
                    #[trigger] final(self)@.insts[j],
                ),
            forall|j: int|
                i < j < old(self)@.insts.len() ==> (#[trigger] final(self)@.insts[j].lock_type)
                    == old(self)@.insts[j].lock_type,
        decreases i, 0int,
    {
        let ghost s0 = self@;
        let ghost m = upgrade_model(s0, i as int, to, auto_upgrade);
        let from = self.insts[i].lock_type;
        if from == to {
            proof {
                assert(m == (Result::<(), LockError>::Ok(()), s0));
            }
            return Ok(());
        }
        if !from.upgradable_to(to) {
            proof {
                assert(m == (
                    Result::<(), LockError>::Err(
                        LockError::InvalidUpgrade { original: from, requested: to },
                    ),
                    s0,
                ));
            }
            return Err(LockError::InvalidUpgrade { original: from, requested: to });
        }
        proof {
            assert(inst_inv(s0, i as int));
        }
        let parent_link = self.insts[i].parent;
        match parent_link {
            Some(p) => {
                let required = to.implicit_parent_type();
                let res = self.ensure_parent_lock(p, required, auto_upgrade, try_only);
                match res {
                    Err(e) => {
                        proof {
                            assert(m == (Result::<(), LockError>::Err(e), self@));
                        }
                        return Err(e);
                    },
                    Ok(()) => {},
                }
            },
            None => {},
        }
        let ghost s1 = self@;
        proof {
            assert(inst_meta_eq(s0.insts[i as int], s1.insts[i as int]));
            assert(s1.insts[i as int].live);
            assert(s1.insts[i as int].lock_type == from);
            assert(inst_inv(s1, i as int));
            assert(node_inv(s1, s1.insts[i as int].node));
        }
        let n = self.insts[i].node;
        if self.is_upgrade_ready(n, from, to) {
            self.apply_upgrade_exec(i, from, to);
            proof {
                assert(m == (
                    Result::<(), LockError>::Ok(()),
                    apply_upgrade_at(s1, i as int, from, to),
                ));
                assert forall|k: int| 0 <= k < s0.nodes.len() implies node_meta_eq(
                    s0.nodes[k],
                    #[trigger] self@.nodes[k],
                ) by {
                    assert(node_meta_eq(s0.nodes[k], s1.nodes[k]));
                }
                assert forall|j: int| 0 <= j < s0.insts.len() implies inst_meta_eq(
                    s0.insts[j],
                    #[trigger] self@.insts[j],
                ) by {
                    assert(inst_meta_eq(s0.insts[j], s1.insts[j]));
                }
                assert forall|j: int|
                    i < j < s0.insts.len() implies (#[trigger] self@.insts[j].lock_type)
                    == s0.insts[j].lock_type by {
                    assert(s1.insts[j].lock_type == s0.insts[j].lock_type);
                }
            }
            Ok(())
        } else {
            proof {
                assert(m == (Result::<(), LockError>::Err(LockError::LockBusy), s1));
            }
            Err(LockError::LockBusy)
        }
    }

    /// Applies a mode change of instance `i` from `from` to `to` that is
    /// ready on its node.
    fn apply_upgrade_exec(&mut self, i: usize, from: LockType, to: LockType)
        requires
            space_inv(old(self)@),
            inst_valid(old(self)@, i as int),
            old(self)@.insts[i as int].lock_type == from,
            from != to,
            upgrade_ready_for(
                old(self)@.nodes[old(self)@.insts[i as int].node].counts,
                from,
                to,
            ),
        ensures
            final(self)@ == apply_upgrade_at(old(self)@, i as int, from, to),
            space_inv(final(self)@),
    {
        let ghost s1 = self@;
        proof {
            assert(inst_inv(s1, i as int));
            assert(node_inv(s1, s1.insts[i as int].node));
        }
        let n = self.insts[i].node;
        // Reading the length pins `insts` within `usize` for the counter
        // arithmetic below.
        let _inst_count = self.insts.len();
        let fi = from.index();
        let ti = to.index();
        proof {
            assert(s1.nodes[n as int].counts[fi as int] == live_count(
                s1.insts,
                n as int,
                mode_at(fi as int),
            ));
            lemma_live_count_at(s1.insts, i as int, n as int, from);
            assert(s1.nodes[n as int].counts[ti as int] == live_count(
                s1.insts,
                n as int,
                mode_at(ti as int),
            ));
            lemma_live_count_disjoint(s1.insts, n as int, to, from);
        }
        let cf = self.nodes[n].counts[fi];
        self.nodes[n].counts[fi] = cf - 1;
        let ct = self.nodes[n].counts[ti];
        self.nodes[n].counts[ti] = ct + 1;
        self.insts[i].lock_type = to;
        proof {
            let s2 = apply_upgrade_at(s1, i as int, from, to);
            assert(self@.nodes =~~= s2.nodes);
            assert(self@.insts =~~= s2.insts);
            assert(self@ == s2);
            lemma_apply_upgrade_inv(s1, i as int, from, to);
        }
    }

    /// Brings an already-held parent grant `g` to a mode that suffices for
    /// a child needing `required` on every ancestor: a grant whose mode
    /// does not support `required` is upgraded to the least common upgrade
    /// of the two, when `auto_upgrade` allows it, and refused otherwise.
    fn ensure_parent_lock(
        &mut self,
        g: usize,
        required: LockType,
        auto_upgrade: bool,
        try_only: bool,
    ) -> (r: Result<(), LockError>)
        requires
            space_inv(old(self)@),
            inst_valid(old(self)@, g as int),
        ensures
            ({
                let actual = old(self)@.insts[g as int].lock_type;
                let step = match parent_target(required, actual) {
                    None => (Ok::<(), LockError>(()), old(self)@),
                    Some(u) => if !auto_upgrade {
                        (
                            Err::<(), LockError>(
                                LockError::InvalidParentLockType { required, actual },
                            ),
                            old(self)@,
                        )
                    } else {
                        upgrade_model(old(self)@, g as int, u, auto_upgrade)
                    },
                };
                r == step.0 && final(self)@ == step.1
            }),
            space_inv(final(self)@),
            final(self)@.nodes.len() == old(self)@.nodes.len(),
            final(self)@.insts.len() == old(self)@.insts.len(),
            forall|k: int|
                0 <= k < old(self)@.nodes.len() ==> node_meta_eq(
                    old(self)@.nodes[k],
                    #[trigger] final(self)@.nodes[k],
                ),
            forall|j: int|
                0 <= j < old(self)@.insts.len() ==> inst_meta_eq(
                    old(self)@.insts[j],
                    #[trigger] final(self)@.insts[j],
                ),
            forall|j: int|
                g < j < old(self)@.insts.len() ==> (#[trigger] final(self)@.insts[j].lock_type)
                    == old(self)@.insts[j].lock_type,
        decreases g, 1int,
    {
        let actual = self.insts[g].lock_type;
        let target = compute_parent_target(required, actual);
        match target {
            Some(u) => {
                if !auto_upgrade {
                    return Err(LockError::InvalidParentLockType { required, actual });
                }
                self.upgrade_at(g, u, auto_upgrade, try_only)
            },
            None => Ok(()),
        }
    }

    /// Grants `t` on node `n`: with no parent directly; with a supplied
    /// grant after identity-checking and, when needed and allowed,
    /// upgrading it; with no grant by acquiring an implicit parent chain.
    fn acquire_at(
        &mut self,
        n: usize,
        t: LockType,
        grant: Option<usize>,
        auto_upgrade: bool,
        try_only: bool,
    ) -> (r: Result<usize, LockError>)
        requires
            space_inv(old(self)@),
            node_valid(old(self)@, n as int),
            match grant {
                Some(g) => inst_valid(old(self)@, g as int) && old(self)@.insts[g as int].shared,
                None => true,
            },
        ensures
            ({
                let (mr, ms) = acquire_model(
                    old(self)@,
                    n as int,
                    t,
                    match grant {
                        Some(g) => Some(g as int),
                        None => None,
                    },
                    auto_upgrade,
                );
                &&& final(self)@ == ms
                &&& space_inv(final(self)@)
                &&& match r {
                    Ok(i) => mr == Ok::<int, LockError>(i as int) && inst_valid(final(self)@, i as int)
                        && final(self)@.insts[i as int].node == n && final(self)@.insts[i as int].lock_type == t
                        && final(self)@.insts[i as int].shared,
                    Err(e) => mr == Err::<int, LockError>(e),
                }
            }),
    {
        let ghost s0 = self@;
        proof {
            assert(node_inv(s0, n as int));
        }
        let parent_opt = self.nodes[n].parent;
        match parent_opt {
            None => {
                if self.is_ready(n, t) {
                    let i = self.push_inst_exec(n, t, None, true);
                    Ok(i)
                } else {
                    Err(LockError::LockBusy)
                }
            },
            Some(prc) => {
                let pn = prc.node;
                match grant {
                    None => {
                        let ipt = t.implicit_parent_type();
                        let can_chain = self.can_acquire_implicit_at(pn, ipt);
                        let ready_self = self.is_ready(n, t);
                        if can_chain && ready_self {
                            let pi = self.apply_acquire_implicit_at(pn, ipt);
                            proof {
                                assert(self@.nodes[n as int] == s0.nodes[n as int]);
                                assert forall|j: int|
                                    0 <= j < self@.insts.len() && (#[trigger] self@.insts[j].live) implies self@.insts[j].parent
                                    != Some(pi as int) by {
                                    assert(inst_inv(self@, j));
                                }
                            }
                            let i = self.push_inst_exec(n, t, Some(pi), true);
                            Ok(i)
                        } else {
                            Err(LockError::LockBusy)
                        }
                    },
                    Some(g) => {
                        let gnode = self.insts[g].node;
                        if gnode != pn {
                            return Err(LockError::InvalidParentLock);
                        }
                        let required = t.implicit_parent_type();
                        let res = self.ensure_parent_lock(g, required, auto_upgrade, try_only);
                        match res {
                            Err(e) => {
                                return Err(e);
                            },
                            Ok(()) => {},
                        }
                        let ghost s1 = self@;
                        proof {
                            assert(inst_meta_eq(s0.insts[g as int], s1.insts[g as int]));
                            assert(node_meta_eq(s0.nodes[n as int], s1.nodes[n as int]));
                        }
                        if self.is_ready(n, t) {
                            let i = self.push_inst_exec(n, t, Some(g), true);
                            Ok(i)
                        } else {
                            Err(LockError::LockBusy)
                        }
                    },
                }
            },
        }
    }

    /// The identifiers along the path from the root down to node `n`.
    fn collect_path_ids(&self, n: usize) -> (r: Vec<Id>)
        requires
            space_inv(self@),
            node_valid(self@, n as int),
        ensures
            r@ == spec_path_ids(self@, n as int),
        decreases n,
    {
        proof {
            assert(node_inv(self@, n as int));
        }
        let parent_opt = self.nodes[n].parent;
        let id_opt = self.nodes[n].id;
        let mut v = match parent_opt {
            Some(prc) => self.collect_path_ids(prc.node),
            None => Vec::new(),
        };
        match id_opt {
            Some(i) => {
                v.push(i);
            },
            None => {},
        }
        proof {
            assert(v@ =~= spec_path_ids(self@, n as int));
        }
        v
    }

    /// The first child of node `p` carrying identifier `id`, if any.
    fn find_child(&self, p: usize, id: Id) -> (r: Option<usize>)
        ensures
            match r {
                Some(j) => is_child_with_id(self@, j as int, p as int, id) && forall|k: int|
                    0 <= k < j ==> !is_child_with_id(self@, k, p as int, id),
                None => forall|k: int| !is_child_with_id(self@, k, p as int, id),
            },
    {
        let len = self.nodes.len();
        let mut k: usize = 0;
        while k < len
            invariant
                len == self@.nodes.len(),
                k <= len,
                forall|j: int| 0 <= j < k ==> !is_child_with_id(self@, j, p as int, id),
            decreases len - k,
        {
            let node = &self.nodes[k];
            let parent_matches = match node.parent {
                Some(rc) => rc.node == p,
                None => false,
            };
            let id_matches = match node.id {
                Some(nid) => nid == id,
                None => false,
            };
            if parent_matches && id_matches {
                return Some(k);
            }
            k += 1;
        }
        None
    }

    /// Frees instance `i` and, child before parent, every implicit grant
    /// the kernel created for it alone.
    fn release_at(&mut self, i: usize)
        requires
            space_inv(old(self)@),
            inst_valid(old(self)@, i as int),
            unreferenced(old(self)@, i as int),
        ensures
            final(self)@ == release_model(old(self)@, i as int),
            space_inv(final(self)@),
        decreases i,
    {
        let ghost s0 = self@;
        proof {
            assert(inst_inv(s0, i as int));
            assert(node_inv(s0, s0.insts[i as int].node));
            lemma_live_count_at(s0.insts, i as int, s0.insts[i as int].node, s0.insts[i as int].lock_type);
            lemma_free_inst_inv(s0, i as int);
        }
        let t = self.insts[i].lock_type;
        let n = self.insts[i].node;
        let parent_link = self.insts[i].parent;
        let ti = t.index();
        proof {
            assert(s0.nodes[n as int].counts[ti as int] == live_count(
                s0.insts,
                n as int,
                mode_at(ti as int),
            ));
        }
        let c = self.nodes[n].counts[ti];
        self.nodes[n].counts[ti] = c - 1;
        self.insts[i].live = false;
        proof {
            let s2 = free_inst(s0, i as int);
            assert(self@.nodes =~~= s2.nodes);
            assert(self@.insts =~~= s2.insts);
            assert(self@ == s2);
        }
        match parent_link {
            Some(p) => {
                if !self.insts[p].shared {
                    self.release_at(p);
                }
            },
            None => {},
        }
    }
}

/// Appends the decimal digits of `n` to `out`.
fn append_digits(out: &mut String, n: Id)
    ensures
        final(out)@ == old(out)@ + spec_digits(n),
    decreases n,
{
    let ghost prefix = out@;
    if n >= 10 {
        append_digits(out, n / 10);
    }
    let ghost mid = out@;
    let d = n % 10;
    proof {
        reveal_strlit("0");
        reveal_strlit("1");
        reveal_strlit("2");
        reveal_strlit("3");
        reveal_strlit("4");
        reveal_strlit("5");
        reveal_strlit("6");
        reveal_strlit("7");
        reveal_strlit("8");
        reveal_strlit("9");
    }
    if d == 0 {
        out.append("0");
    } else if d == 1 {
        out.append("1");
    } else if d == 2 {
        out.append("2");
    } else if d == 3 {
        out.append("3");
    } else if d == 4 {
        out.append("4");
    } else if d == 5 {
        out.append("5");
    } else if d == 6 {
        out.append("6");
    } else if d == 7 {
        out.append("7");
    } else if d == 8 {
        out.append("8");
    } else {
        out.append("9");
    }
    proof {
        assert(out@ =~= mid + seq![digit_char(d)]);
        assert(out@ =~= prefix + spec_digits(n));
    }
}

/// Whether a parent grant of mode `actual` suffices for a child that needs
/// `required`, or which mode it must be upgraded to.
fn compute_parent_target(required: LockType, actual: LockType) -> (r: Option<LockType>)
    ensures
        r == parent_target(required, actual),
{
    let ri = required.index();
    let ai = actual.index();
    if ri > ai {
        Some(actual.min_upgradable(required))
    } else if ri < ai && !required.upgradable_to(actual) {
        Some(required.min_upgradable(actual))
    } else {
        None
    }
}

impl LockKernel {
    /// A fresh, unowned node with no grants.
    pub fn new(id: Option<Id>, parent: Option<LockKernelRc>) -> (k: LockKernel)
        ensures
            k@ == (NodeV {
                id,
                parent: match parent {
                    Some(rc) => Some(rc@),
                    None => None,
                },
                owned: false,
                counts: zero_counts(),
                next_child_id: 0,
            }),
    {
        let mut counts: Vec<usize> = Vec::new();
        counts.push(0);
        counts.push(0);
        counts.push(0);
        counts.push(0);
        counts.push(0);
        proof {
            assert(counts@ =~= zero_counts());
        }
        LockKernel { id, parent, owned: false, counts, next_child_id: 0 }
    }

    /// Claims the node for a wrapper; fails if it is already claimed.
    pub fn own(&mut self) -> (r: LockResult<()>)
        ensures
            old(self)@.owned ==> r == LockResult::<()>::Err(LockError::LockAlreadyUsed) && final(self)@
                == old(self)@,
            !old(self)@.owned ==> r == LockResult::<()>::Ok(()) && final(self)@ == (NodeV {
                owned: true,
                ..old(self)@
            }),
    {
        if self.owned {
            Err(LockError::LockAlreadyUsed)
        } else {
            self.owned = true;
            Ok(())
        }
    }

    /// Returns the node to the unclaimed state.
    pub fn unown(&mut self) -> (r: LockResult<()>)
        ensures
            r == LockResult::<()>::Ok(()),
            final(self)@ == (NodeV { owned: false, ..old(self)@ }),
    {
        self.owned = false;
        Ok(())
    }
}

impl LockKernelRc {
    /// Installs a fresh node into the space and hands back its handle.
    pub fn new(space: &mut LockSpace, kernel: LockKernel) -> (r: LockKernelRc)
        requires
            space_inv(old(space)@),
            kernel@.counts == zero_counts(),
            match kernel@.parent {
                Some(p) => 0 <= p < old(space)@.nodes.len() && (match kernel@.id {
                    Some(i) => i < old(space)@.nodes[p].next_child_id && (forall|j: int|
                        !is_child_with_id(old(space)@, j, p, i)),
                    None => true,
                }),
                None => true,
            },
        ensures
            final(space)@.nodes == old(space)@.nodes.push(kernel@),
            final(space)@.insts == old(space)@.insts,
            space_inv(final(space)@),
            r@ == old(space)@.nodes.len(),
    {
        let ghost s0 = space@;
        let ghost kv = kernel@;
        let r = LockKernelRc { node: space.nodes.len() };
        space.nodes.push(kernel);
        proof {
            assert(space@.nodes =~~= s0.nodes.push(kv));
            assert(space@.insts =~~= s0.insts);
            let s2 = space@;
            let newn = s0.nodes.len() as int;
            assert forall|n2: int| 0 <= n2 < s2.nodes.len() implies #[trigger] node_inv(
                s2,
                n2,
            ) by {
                if n2 < newn {
                    assert(node_inv(s0, n2));
                }
            }
            assert forall|j: int|
                0 <= j < s2.insts.len() && (#[trigger] s2.insts[j].live) implies inst_inv(
                s2,
                j,
            ) by {
                assert(inst_inv(s0, j));
            }
            assert forall|n2: int, m: int|
                0 <= n2 < s2.nodes.len() && 0 <= m < 5 implies (#[trigger] s2.nodes[n2].counts[m])
                == live_count(s2.insts, n2, mode_at(m)) by {
                if n2 < newn {
                    assert(s0.nodes[n2].counts[m] == live_count(s0.insts, n2, mode_at(m)));
                } else {
                    assert forall|j: int|
                        0 <= j < s2.insts.len() implies inst_contrib(
                        #[trigger] s2.insts[j],
                        n2,
                        mode_at(m),
                    ) == 0 by {
                        if s2.insts[j].live {
                            assert(inst_inv(s0, j));
                        }
                    }
                    lemma_live_count_zero(s2.insts, n2, mode_at(m));
                }
            }
            assert forall|n2: int| 0 <= n2 < s2.nodes.len() implies #[trigger] grants_compatible(
                s2,
                n2,
            ) by {
                if n2 < newn {
                    assert(grants_compatible(s0, n2));
                } else {
                    assert(s2.nodes[n2].counts == zero_counts());
                }
            }
            assert forall|i1: int, i2: int|
                0 <= i1 < s2.insts.len() && 0 <= i2 < s2.insts.len() && s2.insts[i1].live
                    && s2.insts[i2].live && (#[trigger] s2.insts[i1].parent) is Some
                    && s2.insts[i1].parent == #[trigger] s2.insts[i2].parent
                    && !s2.insts[s2.insts[i1].parent.unwrap()].shared implies i1 == i2 by {}
            assert forall|j1: int, j2: int|
                #![trigger s2.nodes[j1].id, s2.nodes[j2].id]
                0 <= j1 < s2.nodes.len() && 0 <= j2 < s2.nodes.len() && s2.nodes[j1].parent
                    is Some && s2.nodes[j1].parent == s2.nodes[j2].parent && s2.nodes[j1].id
                    is Some && s2.nodes[j1].id == s2.nodes[j2].id implies j1 == j2 by {
                if j1 < newn && j2 < newn {
                    assert(s2.nodes[j1] == s0.nodes[j1]);
                    assert(s2.nodes[j2] == s0.nodes[j2]);
                } else if j1 < newn {
                    assert(s2.nodes[j1] == s0.nodes[j1]);
                    assert(s2.nodes[j2] == kv);
                    assert(is_child_with_id(s0, j1, kv.parent.unwrap(), kv.id.unwrap()));
                    assert(false);
                } else if j2 < newn {
                    assert(s2.nodes[j2] == s0.nodes[j2]);
                    assert(s2.nodes[j1] == kv);
                    assert(is_child_with_id(s0, j2, kv.parent.unwrap(), kv.id.unwrap()));
                    assert(false);
                }
            }
            assert forall|j: int|
                #![trigger s2.nodes[j].id]
                0 <= j < s2.nodes.len() && s2.nodes[j].parent is Some && s2.nodes[j].id
                    is Some implies s2.nodes[j].id.unwrap()
                < s2.nodes[s2.nodes[j].parent.unwrap()].next_child_id by {
                if j < newn {
                    assert(s2.nodes[j] == s0.nodes[j]);
                    assert(node_inv(s0, j));
                    let p = s0.nodes[j].parent.unwrap();
                    assert(s2.nodes[p] == s0.nodes[p]);
                } else {
                    let p = kv.parent.unwrap();
                    assert(s2.nodes[p] == s0.nodes[p]);
                }
            }
        }
        r
    }

    /// Handle identity: whether two handles name the same node.
    pub fn ptr_eq(&self, other: &Self) -> (r: bool)
        ensures
            r == (self@ == other@),
    {
        self.node == other.node
    }

    /// Returns a handle to the child of this node carrying `id`, creating
    /// the child if no such node exists yet.  Two callers asking for the
    /// same identifier receive handles that compare equal.  Creation raises
    /// the parent's child counter past `id`, so the automatic identifiers
    /// of `new_child` never collide with explicitly chosen ones.
    pub fn get_or_create_child(&self, space: &mut LockSpace, id: Id) -> (r: LockResult<
        LockKernelRc,
    >)
        requires
            space_inv(old(space)@),
            node_valid(old(space)@, self@),
            id < Id::MAX,
        ensures
            space_inv(final(space)@),
            final(space)@.insts == old(space)@.insts,
            r matches Ok(c) && ({
                if exists|j: int| is_child_with_id(old(space)@, j, self@, id) {
                    &&& final(space)@ == old(space)@
                    &&& is_child_with_id(old(space)@, c@, self@, id)
                    &&& forall|j: int|
                        0 <= j < c@ ==> !is_child_with_id(old(space)@, j, self@, id)
                } else {
                    let cur = old(space)@.nodes[self@].next_child_id;
                    let bumped = NodeV {
                        next_child_id: if cur > id {
                            cur
                        } else {
                            (id + 1) as Id
                        },
                        ..old(space)@.nodes[self@]
                    };
                    &&& final(space)@.nodes == old(space)@.nodes.update(self@, bumped).push(
                        (NodeV {
                            id: Some(id),
                            parent: Some(self@),
                            owned: false,
                            counts: zero_counts(),
                            next_child_id: 0,
                        }),
                    )
                    &&& c@ == old(space)@.nodes.len()
                }
            }),
    {
        let ghost s0 = space@;
        match space.find_child(self.node, id) {
            Some(j) => Ok(LockKernelRc { node: j }),
            None => {
                let cur = space.nodes[self.node].next_child_id;
                let ghost bumped = NodeV {
                    next_child_id: if cur > id {
                        cur
                    } else {
                        (id + 1) as Id
                    },
                    ..s0.nodes[self@]
                };
                if cur <= id {
                    space.nodes[self.node].next_child_id = id + 1;
                }
                proof {
                    assert(space@.nodes =~~= s0.nodes.update(self@, bumped));
                    assert(space@.insts =~~= s0.insts);
                    lemma_node_meta_update_inv(s0, self@, bumped);
                    assert(space@ == (SpaceV {
                        nodes: s0.nodes.update(self@, bumped),
                        insts: s0.insts,
                    }));
                    assert forall|j: int| #![trigger is_child_with_id(space@, j, self@, id)] !is_child_with_id(space@, j, self@, id) by {
                        if 0 <= j < space@.nodes.len() {
                            assert(space@.nodes[j].id == s0.nodes[j].id
                                && space@.nodes[j].parent == s0.nodes[j].parent);
                            assert(!is_child_with_id(s0, j, self@, id));
                        }
                    }
                }
                let kernel = LockKernel::new(Some(id), Some(*self));
                let c = LockKernelRc::new(space, kernel);
                proof {
                    assert(space@.nodes =~~= s0.nodes.update(self@, bumped).push(
                        NodeV {
                            id: Some(id),
                            parent: Some(self@),
                            owned: false,
                            counts: zero_counts(),
                            next_child_id: 0,
                        },
                    ));
                }
                Ok(c)
            },
        }
    }

    /// Creates a child node under this one, with the next free identifier,
    /// and hands back its handle.  The assigned identifier was never used
    /// by a previous child of this node: the counter lies above every
    /// sibling identifier, explicitly chosen ones included.
    pub fn new_child(&self, space: &mut LockSpace) -> (r: LockResult<LockKernelRc>)
        requires
            space_inv(old(space)@),
            node_valid(old(space)@, self@),
            old(space)@.nodes[self@].next_child_id < Id::MAX,
        ensures
            space_inv(final(space)@),
            final(space)@.insts == old(space)@.insts,
            forall|j: int|
                !is_child_with_id(old(space)@, j, self@, old(space)@.nodes[self@].next_child_id),
            ({
                let id = old(space)@.nodes[self@].next_child_id;
                let child = NodeV {
                    id: Some(id),
                    parent: Some(self@),
                    owned: false,
                    counts: zero_counts(),
                    next_child_id: 0,
                };
                let bumped = NodeV { next_child_id: (id + 1) as Id, ..old(space)@.nodes[self@] };
                &&& final(space)@.nodes == old(space)@.nodes.update(self@, bumped).push(child)
                &&& r matches Ok(c) && c@ == old(space)@.nodes.len()
            }),
    {
        let ghost s0 = space@;
        proof {
            assert(node_inv(s0, self@));
        }
        let id = space.nodes[self.node].next_child_id;
        space.nodes[self.node].next_child_id = id + 1;
        let ghost bumped = NodeV { next_child_id: (id + 1) as Id, ..s0.nodes[self@] };
        proof {
            assert(space@.nodes =~~= s0.nodes.update(self@, bumped));
            assert(space@.insts =~~= s0.insts);
            lemma_node_meta_update_inv(s0, self@, bumped);
            assert(space@ == (SpaceV { nodes: s0.nodes.update(self@, bumped), insts: s0.insts }));
            assert forall|j: int| #![trigger is_child_with_id(space@, j, self@, id as Id)] !is_child_with_id(space@, j, self@, id as Id) by {
                if 0 <= j < space@.nodes.len() && space@.nodes[j].parent == Some(self@)
                    && space@.nodes[j].id == Some(id as Id) {
                    assert(space@.nodes[j].id == s0.nodes[j].id && space@.nodes[j].parent
                        == s0.nodes[j].parent);
                    assert(s0.nodes[j].id.unwrap() < s0.nodes[self@].next_child_id);
                    assert(false);
                }
            }
            assert forall|j: int| #![trigger is_child_with_id(s0, j, self@, id as Id)] !is_child_with_id(s0, j, self@, id as Id) by {
                if 0 <= j < s0.nodes.len() && s0.nodes[j].parent == Some(self@) && s0.nodes[j].id
                    == Some(id as Id) {
                    assert(s0.nodes[j].id.unwrap() < s0.nodes[self@].next_child_id);
                    assert(false);
                }
            }
        }
        let kernel = LockKernel::new(Some(id), Some(*self));
        let c = LockKernelRc::new(space, kernel);
        proof {
            assert(space@.nodes =~~= s0.nodes.update(self@, bumped).push(
                NodeV {
                    id: Some(id),
                    parent: Some(self@),
                    owned: false,
                    counts: zero_counts(),
                    next_child_id: 0,
                },
            ));
        }
        Ok(c)
    }

    /// The path of identifiers from the root down to this node, formatted
    /// for diagnostics: `[]` for a root, `[i1:i2:i3]` for a chain.
    pub fn path(&self, space: &LockSpace) -> (r: String)
        requires
            space_inv(space@),
            node_valid(space@, self@),
        ensures
            r@ == "["@ + spec_path_text(spec_path_ids(space@, self@)) + "]"@,
    {
        let ids = space.collect_path_ids(self.node);
        let ghost idseq = ids@;
        let mut out = String::from_str("[");
        proof {
            assert(out@ =~= "["@ + spec_path_text(idseq.take(0)));
        }
        let mut k: usize = 0;
        while k < ids.len()
            invariant
                k <= ids.len(),
                idseq == ids@,
                out@ == "["@ + spec_path_text(idseq.take(k as int)),
            decreases ids.len() - k,
        {
            if k > 0 {
                out.append(":");
                proof {
                    reveal_strlit(":");
                    assert(":"@ =~= seq![':']);
                }
            }
            append_digits(&mut out, ids[k]);
            proof {
                assert(idseq.take(k as int + 1).drop_last() =~= idseq.take(k as int));
                assert(idseq.take(k as int + 1).last() == idseq[k as int]);
                assert(out@ =~= "["@ + spec_path_text(idseq.take(k as int + 1)));
            }
            k += 1;
        }
        proof {
            assert(idseq.take(idseq.len() as int) =~= idseq);
        }
        out.append("]");
        out
    }

    /// Acquires a lock of `lock_type` on this node.
    ///
    /// With a supplied parent grant, the grant is identity-checked and, when
    /// its mode does not suffice and `auto_upgrade` is set, upgraded first;
    /// without one, the implicit parent mode is acquired on every ancestor.
    /// The precise result and state change are those of [`acquire_model`].
    /// In this sequential kernel a busy node reports `LockBusy` whether or
    /// not `try_only` is set: waiting is the caller's loop.
    pub fn acquire(
        &self,
        space: &mut LockSpace,
        lock_type: LockType,
        using_parent: Option<&LockInstance>,
        auto_upgrade: bool,
        try_only: bool,
    ) -> (r: LockResult<LockInstance>)
        requires
            space_inv(old(space)@),
            node_valid(old(space)@, self@),
            match using_parent {
                Some(g) => inst_valid(old(space)@, g@) && old(space)@.insts[g@].shared,
                None => true,
            },
        ensures
            ({
                let (mr, ms) = acquire_model(
                    old(space)@,
                    self@,
                    lock_type,
                    match using_parent {
                        Some(g) => Some(g@),
                        None => None,
                    },
                    auto_upgrade,
                );
                &&& final(space)@ == ms
                &&& space_inv(final(space)@)
                &&& match r {
                    Ok(inst) => mr == Ok::<int, LockError>(inst@) && inst_valid(final(space)@, inst@)
                        && final(space)@.insts[inst@].node == self@ && final(space)@.insts[inst@].lock_type
                        == lock_type && final(space)@.insts[inst@].shared,
                    Err(e) => mr == Err::<int, LockError>(e),
                }
            }),
    {
        let g: Option<usize> = match using_parent {
            Some(li) => Some(li.inst),
            None => None,
        };
        match space.acquire_at(self.node, lock_type, g, auto_upgrade, try_only) {
            Ok(i) => Ok(LockInstance { inst: i }),
            Err(e) => Err(e),
        }
    }

    /// How many grants of `lock_type` this node currently counts.
    pub fn lock_count(&self, space: &LockSpace, lock_type: LockType) -> (r: usize)
        requires
            space_inv(space@),
            node_valid(space@, self@),
        ensures
            r == space@.nodes[self@].counts[lock_type.spec_index()],
    {
        proof {
            assert(node_inv(space@, self@));
        }
        space.nodes[self.node].counts[lock_type.index()]
    }
}

/// Changing only the bookkeeping of one node (its identifier, owner flag or
/// child counter) cannot disturb the invariant.
proof fn lemma_node_meta_update_inv(s: SpaceV, n: int, nv: NodeV)
    requires
        space_inv(s),
        0 <= n < s.nodes.len(),
        nv.counts == s.nodes[n].counts,
        nv.parent == s.nodes[n].parent,
        nv.id == s.nodes[n].id,
        nv.next_child_id >= s.nodes[n].next_child_id,
    ensures
        space_inv(SpaceV { nodes: s.nodes.update(n, nv), insts: s.insts }),
{
    let s2 = SpaceV { nodes: s.nodes.update(n, nv), insts: s.insts };
    assert forall|n2: int| 0 <= n2 < s2.nodes.len() implies #[trigger] node_inv(s2, n2) by {
        assert(node_inv(s, n2));
    }
    assert forall|j: int|
        0 <= j < s2.insts.len() && (#[trigger] s2.insts[j].live) implies inst_inv(s2, j) by {
        assert(inst_inv(s, j));
    }
    assert forall|n2: int, m: int|
        0 <= n2 < s2.nodes.len() && 0 <= m < 5 implies (#[trigger] s2.nodes[n2].counts[m])
        == live_count(s2.insts, n2, mode_at(m)) by {
        assert(s.nodes[n2].counts[m] == live_count(s.insts, n2, mode_at(m)));
    }
    assert forall|n2: int| 0 <= n2 < s2.nodes.len() implies #[trigger] grants_compatible(
        s2,
        n2,
    ) by {
        assert(grants_compatible(s, n2));
        if n2 == n {
            assert(s2.nodes[n2].counts == s.nodes[n2].counts);
        }
    }
    assert forall|j1: int, j2: int|
        #![trigger s2.nodes[j1].id, s2.nodes[j2].id]
        0 <= j1 < s2.nodes.len() && 0 <= j2 < s2.nodes.len() && s2.nodes[j1].parent is Some
            && s2.nodes[j1].parent == s2.nodes[j2].parent && s2.nodes[j1].id is Some
            && s2.nodes[j1].id == s2.nodes[j2].id implies j1 == j2 by {
        assert(s.nodes[j1].id == s2.nodes[j1].id && s.nodes[j1].parent == s2.nodes[j1].parent);
        assert(s.nodes[j2].id == s2.nodes[j2].id && s.nodes[j2].parent == s2.nodes[j2].parent);
    }
    assert forall|j: int|
        #![trigger s2.nodes[j].id]
        0 <= j < s2.nodes.len() && s2.nodes[j].parent is Some && s2.nodes[j].id
            is Some implies s2.nodes[j].id.unwrap()
        < s2.nodes[s2.nodes[j].parent.unwrap()].next_child_id by {
        assert(s.nodes[j].id == s2.nodes[j].id && s.nodes[j].parent == s2.nodes[j].parent);
        assert(node_inv(s, j));
        let p = s.nodes[j].parent.unwrap();
        assert(s2.nodes[p].next_child_id >= s.nodes[p].next_child_id);
    }
}

impl LockSpace {
    /// Claims node `k` for a wrapper; fails if it is already claimed.
    pub(crate) fn own_node(&mut self, k: &LockKernelRc) -> (r: LockResult<()>)
        requires
            space_inv(old(self)@),
            node_valid(old(self)@, k@),
        ensures
            space_inv(final(self)@),
            final(self)@.insts == old(self)@.insts,
            old(self)@.nodes[k@].owned ==> r == LockResult::<()>::Err(LockError::LockAlreadyUsed)
                && final(self)@ == old(self)@,
            !old(self)@.nodes[k@].owned ==> r == LockResult::<()>::Ok(()) && final(self)@.nodes
                == old(self)@.nodes.update(k@, (NodeV { owned: true, ..old(self)@.nodes[k@] })),
    {
        let ghost s0 = self@;
        let node = &mut self.nodes[k.node];
        let r = node.own();
        proof {
            assert(self@.insts =~~= s0.insts);
            if s0.nodes[k@].owned {
                assert(self@.nodes =~~= s0.nodes);
                assert(self@ == s0);
            } else {
                assert(self@.nodes =~~= s0.nodes.update(
                    k@,
                    NodeV { owned: true, ..s0.nodes[k@] },
                ));
                lemma_node_meta_update_inv(s0, k@, NodeV { owned: true, ..s0.nodes[k@] });
            }
        }
        r
    }

    /// Returns node `k` to the unclaimed state.
    pub(crate) fn unown_node(&mut self, k: &LockKernelRc) -> (r: LockResult<()>)
        requires
            space_inv(old(self)@),
            node_valid(old(self)@, k@),
        ensures
            space_inv(final(self)@),
            final(self)@.insts == old(self)@.insts,
            r == LockResult::<()>::Ok(()),
            final(self)@.nodes == old(self)@.nodes.update(
                k@,
                (NodeV { owned: false, ..old(self)@.nodes[k@] }),
            ),
    {
        let ghost s0 = self@;
        let node = &mut self.nodes[k.node];
        let r = node.unown();
        proof {
            assert(self@.insts =~~= s0.insts);
            assert(self@.nodes =~~= s0.nodes.update(k@, NodeV { owned: false, ..s0.nodes[k@] }));
            lemma_node_meta_update_inv(s0, k@, NodeV { owned: false, ..s0.nodes[k@] });
        }
        r
    }
}

impl LockInstance {
    /// The mode this instance currently holds.
    pub fn lock_type(&self, space: &LockSpace) -> (r: LockResult<LockType>)
        requires
            0 <= self@ < space@.insts.len(),
        ensures
            r == LockResult::<LockType>::Ok(space@.insts[self@].lock_type),
    {
        Ok(space.insts[self.inst].lock_type)
    }

    /// Upgrades this instance to `to_type`, upgrading its parent grant first
    /// when that grant no longer suffices and `auto_upgrade` is set.  The
    /// precise result and state change are those of [`upgrade_model`].
    pub fn upgrade(
        &self,
        space: &mut LockSpace,
        to_type: LockType,
        auto_upgrade: bool,
        try_only: bool,
    ) -> (r: LockResult<()>)
        requires
            space_inv(old(space)@),
            inst_valid(old(space)@, self@),
        ensures
            r == upgrade_model(old(space)@, self@, to_type, auto_upgrade).0,
            final(space)@ == upgrade_model(old(space)@, self@, to_type, auto_upgrade).1,
            space_inv(final(space)@),
            final(space)@.nodes.len() == old(space)@.nodes.len(),
            final(space)@.insts.len() == old(space)@.insts.len(),
            forall|k: int|
                0 <= k < old(space)@.nodes.len() ==> node_meta_eq(
                    old(space)@.nodes[k],
                    #[trigger] final(space)@.nodes[k],
                ),
            forall|j: int|
                0 <= j < old(space)@.insts.len() ==> inst_meta_eq(
                    old(space)@.insts[j],
                    #[trigger] final(space)@.insts[j],
                ),
    {
        space.upgrade_at(self.inst, to_type, auto_upgrade, try_only)
    }

    /// Releases the grant: the handle is consumed, the node's counter falls,
    /// and implicit parent grants acquired for this instance alone are
    /// released in turn, child before parent.  Parent grants still used by
    /// other live instances must be released after them.
    pub fn release(self, space: &mut LockSpace)
        requires
            space_inv(old(space)@),
            inst_valid(old(space)@, self@),
            unreferenced(old(space)@, self@),
        ensures
            final(space)@ == release_model(old(space)@, self@),
            space_inv(final(space)@),
    {
        space.release_at(self.inst)
    }
}

} // verus!
