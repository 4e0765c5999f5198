//! The mode algebra: the five lock modes with their compatibility table,
//! upgrade lattice, implicit parent modes and least common upgrade.

use vstd::prelude::*;

verus! {

/// The type of lock that can be acquired for a `GLock`.
///
/// The modes are listed in their canonical order; `index` gives the position
/// of a mode in that order.
#[derive(Debug, Copy, Clone, PartialEq, Eq, Structural)]
pub enum LockType {
    /// Intention to take `Shared` locks further down the tree.
    IntentionShared,
    /// Intention to take `Exclusive` (or `SharedIntentionExclusive`) locks
    /// further down the tree.
    IntentionExclusive,
    /// Grants read access; excludes every exclusive-family mode.
    Shared,
    /// `Shared` and `IntentionExclusive` held at once.
    SharedIntentionExclusive,
    /// Grants write access; excludes every other mode.
    Exclusive,
}

/// The mode standing at position `i` of the canonical order
/// `IS, IX, S, SIX, X`.
pub open spec fn mode_at(i: int) -> LockType {
    if i == 0 {
        LockType::IntentionShared
    } else if i == 1 {
        LockType::IntentionExclusive
    } else if i == 2 {
        LockType::Shared
    } else if i == 3 {
        LockType::SharedIntentionExclusive
    } else {
        LockType::Exclusive
    }
}

impl LockType {
    /// Position of this mode in the canonical order `IS, IX, S, SIX, X`.
    pub open spec fn spec_index(self) -> int {
        match self {
            LockType::IntentionShared => 0,
            LockType::IntentionExclusive => 1,
            LockType::Shared => 2,
            LockType::SharedIntentionExclusive => 3,
            LockType::Exclusive => 4,
        }
    }

    /// The classical compatibility table: two modes are compatible when they
    /// may be granted on the same node at the same time.
    pub open spec fn spec_compatible_with(self, other_type: LockType) -> bool {
        match self {
            LockType::IntentionShared => !(other_type is Exclusive),
            LockType::IntentionExclusive => other_type is IntentionShared
                || other_type is IntentionExclusive,
            LockType::Shared => other_type is IntentionShared || other_type is Shared,
            LockType::SharedIntentionExclusive => other_type is IntentionShared,
            LockType::Exclusive => false,
        }
    }

    /// The reflexive reachability relation of the upgrade lattice
    /// `IS < {IX, S} < SIX < X`.
    pub open spec fn spec_upgradable_to(self, other_type: LockType) -> bool {
        match self {
            LockType::IntentionShared => true,
            LockType::IntentionExclusive => other_type is IntentionExclusive
                || other_type is SharedIntentionExclusive
                || other_type is Exclusive,
            LockType::Shared => other_type is Shared || other_type is SharedIntentionExclusive
                || other_type is Exclusive,
            LockType::SharedIntentionExclusive => other_type is SharedIntentionExclusive
                || other_type is Exclusive,
            LockType::Exclusive => other_type is Exclusive,
        }
    }

    /// The minimum mode every ancestor must hold before this mode can be
    /// granted on a node: `IS` for the shared family, `IX` for the exclusive
    /// family.
    pub open spec fn spec_implicit_parent_type(self) -> LockType {
        match self {
            LockType::IntentionShared => LockType::IntentionShared,
            LockType::IntentionExclusive => LockType::IntentionExclusive,
            LockType::Shared => LockType::IntentionShared,
            LockType::SharedIntentionExclusive => LockType::IntentionExclusive,
            LockType::Exclusive => LockType::IntentionExclusive,
        }
    }

    /// A parent holding `self` supports a child lock of `other_type` when the
    /// child's implicit parent mode is reachable from `self` in the upgrade
    /// lattice.
    pub open spec fn spec_supports_children(self, other_type: LockType) -> bool {
        other_type.spec_implicit_parent_type().spec_upgradable_to(self)
    }

    /// The first mode in canonical order that both `self` and `other_type`
    /// can be upgraded to; `Exclusive` is always such a mode, so the result
    /// is well defined.
    pub open spec fn spec_min_upgradable(self, other_type: LockType) -> LockType {
        if self.spec_upgradable_to(LockType::IntentionShared)
            && other_type.spec_upgradable_to(LockType::IntentionShared) {
            LockType::IntentionShared
        } else if self.spec_upgradable_to(LockType::IntentionExclusive)
            && other_type.spec_upgradable_to(LockType::IntentionExclusive) {
            LockType::IntentionExclusive
        } else if self.spec_upgradable_to(LockType::Shared)
            && other_type.spec_upgradable_to(LockType::Shared) {
            LockType::Shared
        } else if self.spec_upgradable_to(LockType::SharedIntentionExclusive)
            && other_type.spec_upgradable_to(LockType::SharedIntentionExclusive) {
            LockType::SharedIntentionExclusive
        } else {
            LockType::Exclusive
        }
    }

    /// All five modes, in canonical order.
    pub fn lock_types() -> (r: Vec<LockType>)
        ensures
            r@ =~= seq![
                LockType::IntentionShared,
                LockType::IntentionExclusive,
                LockType::Shared,
                LockType::SharedIntentionExclusive,
                LockType::Exclusive,
            ],
    {
        let mut v: Vec<LockType> = Vec::new();
        v.push(LockType::IntentionShared);
        v.push(LockType::IntentionExclusive);
        v.push(LockType::Shared);
        v.push(LockType::SharedIntentionExclusive);
        v.push(LockType::Exclusive);
        v
    }

    /// Returns the numeric index corresponding to this lock type.
    pub fn index(self) -> (r: usize)
        ensures
            r == self.spec_index(),
    {
        match self {
            LockType::IntentionShared => 0,
            LockType::IntentionExclusive => 1,
            LockType::Shared => 2,
            LockType::SharedIntentionExclusive => 3,
            LockType::Exclusive => 4,
        }
    }

    /// Returns the implicit parent lock type for this lock type: the mode
    /// that must be held on every ancestor before a lock of this type can be
    /// acquired on a node.
    #[verifier::when_used_as_spec(spec_implicit_parent_type)]
    pub fn implicit_parent_type(self) -> (r: LockType)
        ensures
            r == self.spec_implicit_parent_type(),
    {
        match self {
            LockType::IntentionShared => LockType::IntentionShared,
            LockType::IntentionExclusive => LockType::IntentionExclusive,
            LockType::Shared => LockType::IntentionShared,
            LockType::SharedIntentionExclusive => LockType::IntentionExclusive,
            LockType::Exclusive => LockType::IntentionExclusive,
        }
    }

    /// Returns `true` if the lock type is compatible with the specified lock
    /// type, `false` otherwise.
    #[verifier::when_used_as_spec(spec_compatible_with)]
    pub fn compatible_with(self, other_type: LockType) -> (r: bool)
        ensures
            r == self.spec_compatible_with(other_type),
    {
        match self {
            LockType::IntentionShared => !matches!(other_type, LockType::Exclusive),
            LockType::IntentionExclusive => matches!(
                other_type,
                LockType::IntentionShared | LockType::IntentionExclusive
            ),
            LockType::Shared => matches!(other_type, LockType::IntentionShared | LockType::Shared),
            LockType::SharedIntentionExclusive => matches!(other_type, LockType::IntentionShared),
            LockType::Exclusive => false,
        }
    }

    /// Returns `true` if the lock type is upgradable to the specified lock
    /// type, `false` otherwise.
    #[verifier::when_used_as_spec(spec_upgradable_to)]
    pub fn upgradable_to(self, other_type: LockType) -> (r: bool)
        ensures
            r == self.spec_upgradable_to(other_type),
    {
        match self {
            LockType::IntentionShared => true,
            LockType::IntentionExclusive => matches!(
                other_type,
                LockType::IntentionExclusive
                    | LockType::SharedIntentionExclusive
                    | LockType::Exclusive
            ),
            LockType::Shared => matches!(
                other_type,
                LockType::Shared | LockType::SharedIntentionExclusive | LockType::Exclusive
            ),
            LockType::SharedIntentionExclusive => matches!(
                other_type,
                LockType::SharedIntentionExclusive | LockType::Exclusive
            ),
            LockType::Exclusive => matches!(other_type, LockType::Exclusive),
        }
    }

    /// Returns `true` if a lock of this type on a parent node supports child
    /// locks of the specified type, `false` otherwise.
    #[verifier::when_used_as_spec(spec_supports_children)]
    pub fn supports_children(self, other_type: LockType) -> (r: bool)
        ensures
            r == self.spec_supports_children(other_type),
    {
        other_type.implicit_parent_type().upgradable_to(self)
    }

    /// Returns the least restrictive lock type that this lock type can be
    /// upgraded to, that is also reachable from the specified type.
    #[verifier::when_used_as_spec(spec_min_upgradable)]
    pub fn min_upgradable(self, other_type: LockType) -> (r: LockType)
        ensures
            r == self.spec_min_upgradable(other_type),
    {
        if self.upgradable_to(LockType::IntentionShared)
            && other_type.upgradable_to(LockType::IntentionShared) {
            LockType::IntentionShared
        } else if self.upgradable_to(LockType::IntentionExclusive)
            && other_type.upgradable_to(LockType::IntentionExclusive) {
            LockType::IntentionExclusive
        } else if self.upgradable_to(LockType::Shared)
            && other_type.upgradable_to(LockType::Shared) {
            LockType::Shared
        } else if self.upgradable_to(LockType::SharedIntentionExclusive)
            && other_type.upgradable_to(LockType::SharedIntentionExclusive) {
            LockType::SharedIntentionExclusive
        } else {
            LockType::Exclusive
        }
    }

    /// The name of the mode, as text.
    pub open spec fn spec_name(self) -> Seq<char> {
        match self {
            LockType::IntentionShared => "IntentionShared"@,
            LockType::IntentionExclusive => "IntentionExclusive"@,
            LockType::Shared => "Shared"@,
            LockType::SharedIntentionExclusive => "SharedIntentionExclusive"@,
            LockType::Exclusive => "Exclusive"@,
        }
    }

    /// The name of the mode, for diagnostics.
    pub fn name(self) -> (r: String)
        ensures
            r@ == self.spec_name(),
    {
        match self {
            LockType::IntentionShared => "IntentionShared".to_string(),
            LockType::IntentionExclusive => "IntentionExclusive".to_string(),
            LockType::Shared => "Shared".to_string(),
            LockType::SharedIntentionExclusive => "SharedIntentionExclusive".to_string(),
            LockType::Exclusive => "Exclusive".to_string(),
        }
    }
}

/// The canonical order and the indexing function are inverse to each
/// other, and every index lies in range.
pub proof fn lemma_mode_at_index(t: LockType)
    ensures
        mode_at(t.spec_index()) == t,
        0 <= t.spec_index() < 5,
{
}

/// Compatibility is symmetric: the table has no one-sided entries.
pub proof fn lemma_compatible_with_symmetric(a: LockType, b: LockType)
    ensures
        a.spec_compatible_with(b) == b.spec_compatible_with(a),
{
}

/// The upgrade relation is reflexive: every mode is upgradable to itself.
pub proof fn lemma_upgradable_to_reflexive(a: LockType)
    ensures
        a.spec_upgradable_to(a),
{
}

/// The upgrade relation is transitive.
pub proof fn lemma_upgradable_to_transitive(a: LockType, b: LockType, c: LockType)
    ensures
        a.spec_upgradable_to(b) && b.spec_upgradable_to(c) ==> a.spec_upgradable_to(c),
{
}

/// Upgrades never move down the canonical order: a reachable mode has an
/// index at least as large.
pub proof fn lemma_upgradable_to_index(a: LockType, b: LockType)
    ensures
        a.spec_upgradable_to(b) ==> a.spec_index() <= b.spec_index(),
{
}

/// The least common upgrade is reachable from both of its arguments.
pub proof fn lemma_min_upgradable_reachable(a: LockType, b: LockType)
    ensures
        a.spec_upgradable_to(a.spec_min_upgradable(b)),
        b.spec_upgradable_to(a.spec_min_upgradable(b)),
{
}

/// The least common upgrade is least: no mode reachable from both arguments
/// stands earlier in the canonical order.
pub proof fn lemma_min_upgradable_minimal(a: LockType, b: LockType, c: LockType)
    requires
        a.spec_upgradable_to(c),
        b.spec_upgradable_to(c),
    ensures
        a.spec_min_upgradable(b).spec_index() <= c.spec_index(),
{
}

/// Taking the implicit parent mode twice changes nothing: the intention
/// modes are their own implicit parents.
pub proof fn lemma_implicit_parent_type_idempotent(t: LockType)
    ensures
        t.spec_implicit_parent_type().spec_implicit_parent_type()
            == t.spec_implicit_parent_type(),
{
}

} // verus!
