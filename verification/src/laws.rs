//! Laws of the lock kernel, stated over the functional models of
//! `acquire`, `upgrade` and `release` and proved once and for all modes.

use vstd::prelude::*;

use crate::common::LockError;
use crate::kernel::{
    acquire_model, apply_acquire_implicit, can_acquire_implicit, free_inst, grants_compatible,
    is_child_with_id, parent_target, push_inst, ready_for, release_model, space_inv,
    upgrade_model, zero_counts, Id, NodeV, SpaceV,
};
use crate::locktype::{
    lemma_compatible_with_symmetric, lemma_min_upgradable_reachable, lemma_mode_at_index,
    lemma_upgradable_to_reflexive, mode_at, LockType,
};

verus! {

/// A space holding a single root node with no grants.
pub open spec fn root_space() -> SpaceV {
    SpaceV {
        nodes: seq![
            NodeV { id: None, parent: None, owned: false, counts: zero_counts(), next_child_id: 0 },
        ],
        insts: seq![],
    }
}

/// A space holding a root node and one child of it, with no grants.
pub open spec fn chain_space() -> SpaceV {
    SpaceV {
        nodes: seq![
            NodeV {
                id: None,
                parent: None,
                owned: false,
                counts: zero_counts(),
                next_child_id: 1,
            },
            NodeV {
                id: Some(0),
                parent: Some(0),
                owned: false,
                counts: zero_counts(),
                next_child_id: 0,
            },
        ],
        insts: seq![],
    }
}

/// A space holding a root node and two children of it, with no grants.
pub open spec fn triple_space() -> SpaceV {
    SpaceV {
        nodes: seq![
            NodeV {
                id: None,
                parent: None,
                owned: false,
                counts: zero_counts(),
                next_child_id: 2,
            },
            NodeV {
                id: Some(0),
                parent: Some(0),
                owned: false,
                counts: zero_counts(),
                next_child_id: 0,
            },
            NodeV {
                id: Some(1),
                parent: Some(0),
                owned: false,
                counts: zero_counts(),
                next_child_id: 0,
            },
        ],
        insts: seq![],
    }
}

/// The counters of a node holding exactly one grant of `t`.
pub open spec fn unit_counts(t: LockType) -> Seq<usize> {
    zero_counts().update(t.spec_index(), 1usize)
}

proof fn lemma_ready_zero(t: LockType)
    ensures
        ready_for(zero_counts(), t),
{
}

/// A mode is admitted next to a single held grant exactly when the two
/// modes are compatible.
proof fn lemma_ready_unit(held: LockType, t: LockType)
    ensures
        ready_for(unit_counts(held), t) <==> held.spec_compatible_with(t),
{
    lemma_mode_at_index(held);
    lemma_compatible_with_symmetric(held, t);
    if t.spec_compatible_with(held) {
        assert forall|m: int|
            0 <= m < 5 && (#[trigger] unit_counts(held)[m]) > 0 implies t.spec_compatible_with(
            mode_at(m),
        ) by {
            assert(m == held.spec_index());
        }
    } else {
        assert(unit_counts(held)[held.spec_index()] > 0);
    }
}

/// On one node, after a grant of `t1`, a further grant of `t2` is admitted
/// exactly when the two modes are compatible.
pub proof fn law_acquire_compatibility(t1: LockType, t2: LockType)
    ensures
        ({
            let (r1, s1) = acquire_model(root_space(), 0, t1, None, true);
            let (r2, _) = acquire_model(s1, 0, t2, None, true);
            &&& r1 is Ok
            &&& (r2 is Ok <==> t1.spec_compatible_with(t2))
        }),
{
    let s0 = root_space();
    lemma_ready_zero(t1);
    let (r1, s1) = acquire_model(s0, 0, t1, None, true);
    assert(s1.nodes[0].counts =~= unit_counts(t1));
    lemma_ready_unit(t1, t2);
}

/// Holding `t` on a child (through the implicit parent grant) admits `t2`
/// on the parent exactly when `t2` is compatible with `implicit_parent(t)`.
pub proof fn law_implicit_parent_compatibility(t: LockType, t2: LockType)
    ensures
        ({
            let (r1, s1) = acquire_model(chain_space(), 1, t, None, true);
            let (r2, _) = acquire_model(s1, 0, t2, None, true);
            &&& r1 is Ok
            &&& (r2 is Ok <==> t.spec_implicit_parent_type().spec_compatible_with(t2))
        }),
{
    let s0 = chain_space();
    let ipt = t.spec_implicit_parent_type();
    lemma_ready_zero(ipt);
    lemma_ready_zero(t);
    assert(can_acquire_implicit(s0, 0, ipt));
    let sa = apply_acquire_implicit(s0, 0, ipt);
    assert(sa == push_inst(s0, 0, ipt, None, false));
    let (r1, s1) = acquire_model(s0, 1, t, None, true);
    assert(r1 is Ok);
    assert(s1.nodes[0].counts =~= unit_counts(ipt));
    lemma_ready_unit(ipt, t2);
}

/// An upgrade of a sole holder succeeds exactly when the target mode is
/// reachable in the upgrade lattice; an unreachable target reports
/// `InvalidUpgrade` and changes nothing; after a successful upgrade,
/// further grants are judged against the new mode.
pub proof fn law_upgrade(t: LockType, t2: LockType, t3: LockType)
    ensures
        ({
            let (r1, s1) = acquire_model(root_space(), 0, t, None, true);
            let (r2, s2) = upgrade_model(s1, 0, t2, true);
            &&& r1 is Ok
            &&& (r2 is Ok <==> t.spec_upgradable_to(t2))
            &&& (!t.spec_upgradable_to(t2) ==> r2 == Err::<(), LockError>(
                LockError::InvalidUpgrade { original: t, requested: t2 },
            ) && s2 == s1)
            &&& (t.spec_upgradable_to(t2) ==> (acquire_model(s2, 0, t3, None, true).0 is Ok
                <==> t2.spec_compatible_with(t3)))
        }),
{
    let s0 = root_space();
    lemma_ready_zero(t);
    let (r1, s1) = acquire_model(s0, 0, t, None, true);
    assert(s1.nodes[0].counts =~= unit_counts(t));
    lemma_upgradable_to_reflexive(t);
    let (r2, s2) = upgrade_model(s1, 0, t2, true);
    if t == t2 {
        assert(s2 == s1);
        lemma_ready_unit(t2, t3);
    } else if t.spec_upgradable_to(t2) {
        assert(r2 is Ok);
        assert(s2.nodes[0].counts =~= unit_counts(t2));
        lemma_ready_unit(t2, t3);
    }
}

/// A balanced acquire and release returns every counter to zero, and a
/// fresh grant of any mode is admitted again.
pub proof fn law_release_restores(t: LockType, t2: LockType)
    ensures
        ({
            let (r1, s1) = acquire_model(root_space(), 0, t, None, true);
            let s2 = release_model(s1, 0);
            &&& r1 is Ok
            &&& s2.nodes[0].counts == zero_counts()
            &&& acquire_model(s2, 0, t2, None, true).0 is Ok
        }),
{
    let s0 = root_space();
    lemma_ready_zero(t);
    let (r1, s1) = acquire_model(s0, 0, t, None, true);
    assert(s1.nodes[0].counts =~= unit_counts(t));
    let s2 = release_model(s1, 0);
    assert(s2.nodes[0].counts =~= zero_counts());
    lemma_ready_zero(t2);
    assert(ready_for(s2.nodes[0].counts, t2));
}

/// Releasing a child grant releases the implicit parent grant acquired for
/// it as well, child before parent, leaving every counter zero.
pub proof fn law_release_chain(t: LockType, t2: LockType)
    ensures
        ({
            let (r1, s1) = acquire_model(chain_space(), 1, t, None, true);
            let s2 = release_model(s1, 1);
            &&& r1 is Ok
            &&& s2.nodes[0].counts == zero_counts()
            &&& s2.nodes[1].counts == zero_counts()
            &&& acquire_model(s2, 1, t2, None, true).0 is Ok
        }),
{
    let s0 = chain_space();
    let ipt = t.spec_implicit_parent_type();
    lemma_ready_zero(ipt);
    lemma_ready_zero(t);
    assert(can_acquire_implicit(s0, 0, ipt));
    let sa = apply_acquire_implicit(s0, 0, ipt);
    assert(sa == push_inst(s0, 0, ipt, None, false));
    let (r1, s1) = acquire_model(s0, 1, t, None, true);
    assert(r1 is Ok);
    assert(s1.insts.len() == 2);
    assert(s1.insts[1].parent == Some(0int));
    assert(!s1.insts[0].shared);
    let sf1 = free_inst(s1, 1);
    assert(sf1.insts[0] == s1.insts[0]);
    let s2 = release_model(s1, 1);
    assert(s2 == release_model(sf1, 0));
    assert(s2 == free_inst(sf1, 0));
    assert(sf1.nodes[1].counts =~= zero_counts());
    assert(sf1.nodes[0].counts =~= unit_counts(ipt));
    assert(s2.nodes[0].counts =~= zero_counts());
    assert(s2.nodes[1].counts =~= zero_counts());
    lemma_ready_zero(ipt);
    lemma_ready_zero(t2);
    let ipt2 = t2.spec_implicit_parent_type();
    lemma_ready_zero(ipt2);
    assert(ready_for(s2.nodes[0].counts, ipt2));
    assert(ready_for(s2.nodes[1].counts, t2));
    assert(can_acquire_implicit(s2, 0, ipt2));
}

/// In every state the kernel reaches (every public operation ensures
/// `space_inv`), the multiset of modes granted on one node is pairwise
/// compatible: two different counted modes are compatible with each other,
/// and a mode counted twice is compatible with itself.
pub proof fn law_grants_pairwise_compatible(s: SpaceV, n: int, m1: int, m2: int)
    requires
        space_inv(s),
        0 <= n < s.nodes.len(),
        0 <= m1 < 5,
        0 <= m2 < 5,
        s.nodes[n].counts[m1] > 0,
        s.nodes[n].counts[m2] > 0,
        m1 != m2 || s.nodes[n].counts[m1] >= 2,
    ensures
        mode_at(m1).spec_compatible_with(mode_at(m2)),
{
    assert(grants_compatible(s, n));
}

/// Sibling identifiers are unique: in every state the kernel reaches (each
/// public operation ensures `space_inv`), a parent has at most one child
/// carrying a given identifier, whether the identifier was assigned
/// automatically or chosen explicitly.
pub proof fn law_sibling_identifiers_unique(s: SpaceV, j1: int, j2: int, p: int, id: Id)
    requires
        space_inv(s),
        is_child_with_id(s, j1, p, id),
        is_child_with_id(s, j2, p, id),
    ensures
        j1 == j2,
{
    assert(s.nodes[j1].id == Some(id));
    assert(s.nodes[j2].id == Some(id));
}

/// Child identity: once a child carrying an identifier is created under a
/// parent that had none, it is the one and only child of that parent with
/// that identifier, so every later lookup returns the same node.
pub proof fn law_child_identity(s: SpaceV, p: int, id: Id)
    requires
        0 <= p < s.nodes.len(),
        forall|j: int| !is_child_with_id(s, j, p, id),
    ensures
        ({
            let s2 = SpaceV {
                nodes: s.nodes.push(
                    NodeV {
                        id: Some(id),
                        parent: Some(p),
                        owned: false,
                        counts: zero_counts(),
                        next_child_id: 0,
                    },
                ),
                insts: s.insts,
            };
            &&& is_child_with_id(s2, s.nodes.len() as int, p, id)
            &&& forall|j: int| is_child_with_id(s2, j, p, id) ==> j == s.nodes.len()
        }),
{
    let s2 = SpaceV {
        nodes: s.nodes.push(
            NodeV {
                id: Some(id),
                parent: Some(p),
                owned: false,
                counts: zero_counts(),
                next_child_id: 0,
            },
        ),
        insts: s.insts,
    };
    assert forall|j: int| is_child_with_id(s2, j, p, id) implies j == s.nodes.len() by {
        if j < s.nodes.len() {
            assert(s2.nodes[j] == s.nodes[j]);
            assert(!is_child_with_id(s, j, p, id));
        }
    }
}

/// A grant held alone on a root node never blocks a dependent upgrade: the
/// readiness check tolerates the holder's own grant, so the step demanded
/// by `parent_target` always goes through, leaving the root with the one
/// (possibly upgraded) grant.
proof fn lemma_sole_root_grant(s: SpaceV, required: LockType)
    requires
        s.nodes.len() >= 1,
        s.insts.len() >= 1,
        s.insts[0].node == 0,
        s.insts[0].live,
        s.insts[0].parent is None,
        s.nodes[0].parent is None,
        s.nodes[0].counts == unit_counts(s.insts[0].lock_type),
    ensures
        ({
            let actual = s.insts[0].lock_type;
            let step = match parent_target(required, actual) {
                None => (Ok::<(), LockError>(()), s),
                Some(u) => upgrade_model(s, 0, u, true),
            };
            &&& step.0 is Ok
            &&& step.1.nodes.len() == s.nodes.len()
            &&& step.1.insts.len() == s.insts.len()
            &&& step.1.insts[0].node == 0
            &&& step.1.insts[0].live
            &&& step.1.insts[0].parent is None
            &&& step.1.nodes[0].parent is None
            &&& step.1.nodes[0].counts == unit_counts(step.1.insts[0].lock_type)
            &&& step.1.insts[0].lock_type == (match parent_target(required, actual) {
                Some(u) => u,
                None => actual,
            })
            &&& forall|k: int| 1 <= k < s.nodes.len() ==> step.1.nodes[k] == s.nodes[k]
            &&& forall|j: int| 1 <= j < s.insts.len() ==> step.1.insts[j] == s.insts[j]
        }),
{
    let actual = s.insts[0].lock_type;
    match parent_target(required, actual) {
        None => {},
        Some(u) => {
            lemma_min_upgradable_reachable(actual, required);
            lemma_min_upgradable_reachable(required, actual);
            assert(actual.spec_upgradable_to(u));
            let (r, s2) = upgrade_model(s, 0, u, true);
            if actual == u {
                assert(s2 == s);
            } else {
                lemma_mode_at_index(actual);
                assert(r is Ok);
                assert(s2.nodes[0].counts =~= unit_counts(u));
            }
        },
    }
}

/// Two children under one shared parent grant: the first grant on a child
/// always goes through (the parent grant upgrades as needed and never
/// blocks), a second grant on the same child is admitted exactly when
/// compatible with the first, and a grant on the other child is always
/// admitted, whatever modes are involved.
#[verifier::rlimit(50)]
#[verifier::spinoff_prover]
pub proof fn law_shared_parent_grant(p: LockType, t1: LockType, t2: LockType, t3: LockType)
    ensures
        ({
            let (rg, s1) = acquire_model(triple_space(), 0, p, None, true);
            let (r1, s2) = acquire_model(s1, 1, t1, Some(0), true);
            let (r2, s3) = acquire_model(s2, 1, t2, Some(0), true);
            &&& rg is Ok
            &&& r1 is Ok
            &&& (r2 is Ok <==> t1.spec_compatible_with(t2))
            &&& acquire_model(s3, 2, t3, Some(0), true).0 is Ok
        }),
{
    let s0 = triple_space();
    lemma_ready_zero(p);
    let (rg, s1) = acquire_model(s0, 0, p, None, true);
    assert(rg is Ok);
    assert(s1.nodes[0].counts =~= unit_counts(p));
    assert(s1.insts[0].lock_type == p && s1.insts[0].node == 0 && s1.insts[0].live
        && s1.insts[0].parent is None);

    // First grant on child 1.
    let ipt1 = t1.spec_implicit_parent_type();
    lemma_sole_root_grant(s1, ipt1);
    let step1 = match parent_target(ipt1, s1.insts[0].lock_type) {
        None => (Ok::<(), LockError>(()), s1),
        Some(u) => upgrade_model(s1, 0, u, true),
    };
    let (r1, s2) = acquire_model(s1, 1, t1, Some(0), true);
    lemma_ready_zero(t1);
    assert(step1.1.nodes[1] == s1.nodes[1]);
    assert(ready_for(step1.1.nodes[1].counts, t1));
    assert(r1 is Ok);
    assert(s2 == push_inst(step1.1, 1, t1, Some(0), true));
    assert(s2.nodes[1].counts =~= unit_counts(t1));
    assert(s2.insts[0] == step1.1.insts[0]);
    assert(s2.nodes[0] == step1.1.nodes[0]);

    // Second grant on child 1.
    let ipt2 = t2.spec_implicit_parent_type();
    lemma_sole_root_grant(s2, ipt2);
    let step2 = match parent_target(ipt2, s2.insts[0].lock_type) {
        None => (Ok::<(), LockError>(()), s2),
        Some(u) => upgrade_model(s2, 0, u, true),
    };
    let (r2, s3) = acquire_model(s2, 1, t2, Some(0), true);
    assert(step2.1.nodes[1] == s2.nodes[1]);
    lemma_ready_unit(t1, t2);
    assert(r2 is Ok <==> t1.spec_compatible_with(t2));
    if r2 is Ok {
        assert(s3 == push_inst(step2.1, 1, t2, Some(0), true));
        assert(s3.insts[0] == step2.1.insts[0]);
        assert(s3.nodes[0] == step2.1.nodes[0]);
        assert(s3.nodes[2] == s2.nodes[2]);
    } else {
        assert(s3 == step2.1);
    }
    assert(s3.insts[0].node == 0 && s3.insts[0].live && s3.insts[0].parent is None);
    assert(s3.nodes[0].counts == unit_counts(s3.insts[0].lock_type));
    assert(s3.nodes[2] == s0.nodes[2]);

    // Grant on child 2 is judged on child 2's own (empty) counters.
    let ipt3 = t3.spec_implicit_parent_type();
    lemma_sole_root_grant(s3, ipt3);
    let step3 = match parent_target(ipt3, s3.insts[0].lock_type) {
        None => (Ok::<(), LockError>(()), s3),
        Some(u) => upgrade_model(s3, 0, u, true),
    };
    assert(step3.1.nodes[2] == s3.nodes[2]);
    lemma_ready_zero(t3);
    assert(ready_for(step3.1.nodes[2].counts, t3));
}

/// An upgrade touches only the upgraded instance's node and the nodes of
/// its parent chain, which all lie strictly above it in the tree (and
/// strictly below it in creation order); every other node and every
/// instance's placing are untouched.
proof fn lemma_upgrade_model_frame(s: SpaceV, i: int, to: LockType, auto_upgrade: bool)
    requires
        space_inv(s),
        crate::kernel::inst_valid(s, i),
    ensures
        ({
            let s2 = upgrade_model(s, i, to, auto_upgrade).1;
            &&& s2.nodes.len() == s.nodes.len()
            &&& s2.insts.len() == s.insts.len()
            &&& forall|j: int|
                0 <= j < s.insts.len() ==> (#[trigger] s2.insts[j].node) == s.insts[j].node
            &&& forall|k: int|
                s.insts[i].node < k < s.nodes.len() ==> (#[trigger] s2.nodes[k]) == s.nodes[k]
        }),
    decreases i,
{
    let from = s.insts[i].lock_type;
    let ni = s.insts[i].node;
    assert(crate::kernel::inst_inv(s, i));
    assert(crate::kernel::node_inv(s, ni));
    if from == to || !from.spec_upgradable_to(to) {
    } else {
        let step = match s.insts[i].parent {
            None => (Ok::<(), crate::common::LockError>(()), s),
            Some(p) => {
                match parent_target(to.spec_implicit_parent_type(), s.insts[p].lock_type) {
                    None => (Ok::<(), crate::common::LockError>(()), s),
                    Some(u) => if !auto_upgrade {
                        (
                            Err::<(), crate::common::LockError>(
                                LockError::InvalidParentLockType {
                                    required: to.spec_implicit_parent_type(),
                                    actual: s.insts[p].lock_type,
                                },
                            ),
                            s,
                        )
                    } else if 0 <= p < i {
                        upgrade_model(s, p, u, auto_upgrade)
                    } else {
                        (Ok::<(), crate::common::LockError>(()), s)
                    },
                }
            },
        };
        match s.insts[i].parent {
            None => {},
            Some(p) => {
                match parent_target(to.spec_implicit_parent_type(), s.insts[p].lock_type) {
                    Some(u) => {
                        if auto_upgrade {
                            assert(s.insts[p].live);
                            assert(0 <= p < i);
                            lemma_upgrade_model_frame(s, p, u, auto_upgrade);
                            assert(s.insts[p].node < ni);
                        }
                    },
                    None => {},
                }
            },
        }
        let s1 = step.1;
        assert(s1.nodes.len() == s.nodes.len());
        assert(s1.insts.len() == s.insts.len());
        assert(forall|j: int|
            0 <= j < s.insts.len() ==> (#[trigger] s1.insts[j].node) == s.insts[j].node);
        assert(forall|k: int|
            ni < k < s.nodes.len() ==> (#[trigger] s1.nodes[k]) == s.nodes[k]);
        if step.0 is Err {
        } else if crate::kernel::upgrade_ready_for(s1.nodes[ni].counts, from, to) {
            let s2 = crate::kernel::apply_upgrade_at(s1, i, from, to);
            assert(s1.insts[i].node == ni);
            assert forall|j: int|
                0 <= j < s.insts.len() implies (#[trigger] s2.insts[j].node)
                == s.insts[j].node by {
                assert(s1.insts[j].node == s.insts[j].node);
            }
            assert forall|k: int|
                ni < k < s.nodes.len() implies (#[trigger] s2.nodes[k]) == s.nodes[k] by {
                assert(s1.nodes[k] == s.nodes[k]);
            }
            assert(upgrade_model(s, i, to, auto_upgrade).1 == s2);
        }
    }
}

/// A grantless acquisition that fails leaves the whole space exactly as it
/// was: nothing is granted on the node, and the implicit parent chain is
/// not acquired either.
pub proof fn law_failed_acquire_without_grant_changes_nothing(
    s: SpaceV,
    n: int,
    t: LockType,
    auto_upgrade: bool,
)
    requires
        0 <= n < s.nodes.len(),
    ensures
        ({
            let (r, s2) = acquire_model(s, n, t, None, auto_upgrade);
            r is Err ==> s2 == s
        }),
{
}

/// An acquisition through a parent grant that fails never touches the
/// counters of the node being acquired: the only lasting effect a failure
/// can leave is a parent grant already upgraded on an ancestor.
pub proof fn law_failed_acquire_keeps_own_counters(
    s: SpaceV,
    n: int,
    t: LockType,
    g: int,
    auto_upgrade: bool,
)
    requires
        space_inv(s),
        0 <= n < s.nodes.len(),
        crate::kernel::inst_valid(s, g),
    ensures
        ({
            let (r, s2) = acquire_model(s, n, t, Some(g), auto_upgrade);
            r is Err ==> s2.nodes[n].counts == s.nodes[n].counts
        }),
{
    assert(crate::kernel::node_inv(s, n));
    match s.nodes[n].parent {
        None => {},
        Some(pn) => {
            if s.insts[g].node == pn {
                match parent_target(t.spec_implicit_parent_type(), s.insts[g].lock_type) {
                    Some(u) => {
                        if auto_upgrade {
                            lemma_upgrade_model_frame(s, g, u, auto_upgrade);
                        }
                    },
                    None => {},
                }
            }
        },
    }
}

/// Upgrading a child grant first brings the implicit parent grant to a
/// sufficient mode: the upgrade of a sole child holder succeeds exactly
/// when the target is reachable, and the parent then holds the mode that
/// `parent_target` demands for the new child mode.
pub proof fn law_upgrade_implicit_parent(t: LockType, t2: LockType)
    ensures
        ({
            let (r1, s1) = acquire_model(chain_space(), 1, t, None, true);
            let (r2, s2) = upgrade_model(s1, 1, t2, true);
            let expected = match parent_target(
                t2.spec_implicit_parent_type(),
                t.spec_implicit_parent_type(),
            ) {
                Some(u) => u,
                None => t.spec_implicit_parent_type(),
            };
            &&& r1 is Ok
            &&& (r2 is Ok <==> t.spec_upgradable_to(t2))
            &&& (r2 is Ok ==> s2.nodes[0].counts == unit_counts(expected)
                && s2.nodes[1].counts == unit_counts(t2))
        }),
{
    let s0 = chain_space();
    let ipt = t.spec_implicit_parent_type();
    lemma_ready_zero(ipt);
    lemma_ready_zero(t);
    assert(can_acquire_implicit(s0, 0, ipt));
    let sa = apply_acquire_implicit(s0, 0, ipt);
    assert(sa == push_inst(s0, 0, ipt, None, false));
    let (r1, s1) = acquire_model(s0, 1, t, None, true);
    assert(r1 is Ok);
    assert(s1.nodes[0].counts =~= unit_counts(ipt));
    assert(s1.nodes[1].counts =~= unit_counts(t));
    assert(s1.insts[0].lock_type == ipt && s1.insts[0].node == 0 && s1.insts[0].live
        && s1.insts[0].parent is None);
    assert(s1.insts[1].lock_type == t && s1.insts[1].node == 1 && s1.insts[1].parent == Some(
        0int,
    ));
    lemma_upgradable_to_reflexive(t);
    let (r2, s2) = upgrade_model(s1, 1, t2, true);
    if t == t2 {
        assert(s2 == s1);
    } else if t.spec_upgradable_to(t2) {
        let ipt2 = t2.spec_implicit_parent_type();
        lemma_sole_root_grant(s1, ipt2);
        let step = match parent_target(ipt2, ipt) {
            None => (Ok::<(), LockError>(()), s1),
            Some(u) => upgrade_model(s1, 0, u, true),
        };
        assert(step.0 is Ok);
        assert(step.1.nodes[1] == s1.nodes[1]);
        assert(step.1.insts[1] == s1.insts[1]);
        lemma_mode_at_index(t);
        assert(r2 is Ok);
        assert(s2.nodes[1].counts =~= unit_counts(t2));
        match parent_target(ipt2, ipt) {
            None => {
                assert(s2.nodes[0].counts == unit_counts(ipt));
            },
            Some(u) => {
                assert(step.1.nodes[0].counts == unit_counts(u));
                assert(s2.nodes[0].counts == step.1.nodes[0].counts);
            },
        }
    }
}

} // verus!
