use glock::locktype::LockType;

#[test]
fn implicit_parent_type() {
    assert_eq!(LockType::IntentionShared.implicit_parent_type(), LockType::IntentionShared);
    assert_eq!(LockType::IntentionExclusive.implicit_parent_type(), LockType::IntentionExclusive);
    assert_eq!(LockType::Shared.implicit_parent_type(), LockType::IntentionShared);
    assert_eq!(
        LockType::SharedIntentionExclusive.implicit_parent_type(),
        LockType::IntentionExclusive
    );
    assert_eq!(LockType::Exclusive.implicit_parent_type(), LockType::IntentionExclusive);
}

#[test]
fn compatible_with() {
    assert_eq!(LockType::IntentionShared.compatible_with(LockType::IntentionShared), true);
    assert_eq!(LockType::IntentionShared.compatible_with(LockType::IntentionExclusive), true);
    assert_eq!(LockType::IntentionShared.compatible_with(LockType::Shared), true);
    assert_eq!(LockType::IntentionShared.compatible_with(LockType::SharedIntentionExclusive), true);
    assert_eq!(LockType::IntentionShared.compatible_with(LockType::Exclusive), false);

    assert_eq!(LockType::IntentionExclusive.compatible_with(LockType::IntentionShared), true);
    assert_eq!(LockType::IntentionExclusive.compatible_with(LockType::IntentionExclusive), true);
    assert_eq!(LockType::IntentionExclusive.compatible_with(LockType::Shared), false);
    assert_eq!(
        LockType::IntentionExclusive.compatible_with(LockType::SharedIntentionExclusive),
        false
    );
    assert_eq!(LockType::IntentionExclusive.compatible_with(LockType::Exclusive), false);

    assert_eq!(LockType::Shared.compatible_with(LockType::IntentionShared), true);
    assert_eq!(LockType::Shared.compatible_with(LockType::IntentionExclusive), false);
    assert_eq!(LockType::Shared.compatible_with(LockType::Shared), true);
    assert_eq!(LockType::Shared.compatible_with(LockType::SharedIntentionExclusive), false);
    assert_eq!(LockType::Shared.compatible_with(LockType::Exclusive), false);

    assert_eq!(LockType::SharedIntentionExclusive.compatible_with(LockType::IntentionShared), true);
    assert_eq!(
        LockType::SharedIntentionExclusive.compatible_with(LockType::IntentionExclusive),
        false
    );
    assert_eq!(LockType::SharedIntentionExclusive.compatible_with(LockType::Shared), false);
    assert_eq!(
        LockType::SharedIntentionExclusive.compatible_with(LockType::SharedIntentionExclusive),
        false
    );
    assert_eq!(LockType::SharedIntentionExclusive.compatible_with(LockType::Exclusive), false);

    assert_eq!(LockType::Exclusive.compatible_with(LockType::IntentionShared), false);
    assert_eq!(LockType::Exclusive.compatible_with(LockType::IntentionExclusive), false);
    assert_eq!(LockType::Exclusive.compatible_with(LockType::Shared), false);
    assert_eq!(LockType::Exclusive.compatible_with(LockType::SharedIntentionExclusive), false);
    assert_eq!(LockType::Exclusive.compatible_with(LockType::Exclusive), false);
}

#[test]
fn upgradable_to() {
    assert_eq!(LockType::IntentionShared.upgradable_to(LockType::IntentionShared), true);
    assert_eq!(LockType::IntentionShared.upgradable_to(LockType::IntentionExclusive), true);
    assert_eq!(LockType::IntentionShared.upgradable_to(LockType::Shared), true);
    assert_eq!(LockType::IntentionShared.upgradable_to(LockType::SharedIntentionExclusive), true);
    assert_eq!(LockType::IntentionShared.upgradable_to(LockType::Exclusive), true);

    assert_eq!(LockType::IntentionExclusive.upgradable_to(LockType::IntentionShared), false);
    assert_eq!(LockType::IntentionExclusive.upgradable_to(LockType::IntentionExclusive), true);
    assert_eq!(LockType::IntentionExclusive.upgradable_to(LockType::Shared), false);
    assert_eq!(
        LockType::IntentionExclusive.upgradable_to(LockType::SharedIntentionExclusive),
        true
    );
    assert_eq!(LockType::IntentionExclusive.upgradable_to(LockType::Exclusive), true);

    assert_eq!(LockType::Shared.upgradable_to(LockType::IntentionShared), false);
    assert_eq!(LockType::Shared.upgradable_to(LockType::IntentionExclusive), false);
    assert_eq!(LockType::Shared.upgradable_to(LockType::Shared), true);
    assert_eq!(LockType::Shared.upgradable_to(LockType::SharedIntentionExclusive), true);
    assert_eq!(LockType::Shared.upgradable_to(LockType::Exclusive), true);

    assert_eq!(LockType::SharedIntentionExclusive.upgradable_to(LockType::IntentionShared), false);
    assert_eq!(
        LockType::SharedIntentionExclusive.upgradable_to(LockType::IntentionExclusive),
        false
    );
    assert_eq!(LockType::SharedIntentionExclusive.upgradable_to(LockType::Shared), false);
    assert_eq!(
        LockType::SharedIntentionExclusive.upgradable_to(LockType::SharedIntentionExclusive),
        true
    );
    assert_eq!(LockType::SharedIntentionExclusive.upgradable_to(LockType::Exclusive), true);

    assert_eq!(LockType::Exclusive.upgradable_to(LockType::IntentionShared), false);
    assert_eq!(LockType::Exclusive.upgradable_to(LockType::IntentionExclusive), false);
    assert_eq!(LockType::Exclusive.upgradable_to(LockType::Shared), false);
    assert_eq!(LockType::Exclusive.upgradable_to(LockType::SharedIntentionExclusive), false);
    assert_eq!(LockType::Exclusive.upgradable_to(LockType::Exclusive), true);
}

#[test]
fn supports_children() {
    assert_eq!(LockType::IntentionShared.supports_children(LockType::IntentionShared), true);
    assert_eq!(LockType::IntentionShared.supports_children(LockType::IntentionExclusive), false);
    assert_eq!(LockType::IntentionShared.supports_children(LockType::Shared), true);
    assert_eq!(
        LockType::IntentionShared.supports_children(LockType::SharedIntentionExclusive),
        false
    );
    assert_eq!(LockType::IntentionShared.supports_children(LockType::Exclusive), false);

    assert_eq!(LockType::IntentionExclusive.supports_children(LockType::IntentionShared), true);
    assert_eq!(LockType::IntentionExclusive.supports_children(LockType::IntentionExclusive), true);
    assert_eq!(LockType::IntentionExclusive.supports_children(LockType::Shared), true);
    assert_eq!(
        LockType::IntentionExclusive.supports_children(LockType::SharedIntentionExclusive),
        true
    );
    assert_eq!(LockType::IntentionExclusive.supports_children(LockType::Exclusive), true);

    assert_eq!(LockType::Shared.supports_children(LockType::IntentionShared), true);
    assert_eq!(LockType::Shared.supports_children(LockType::IntentionExclusive), false);
    assert_eq!(LockType::Shared.supports_children(LockType::Shared), true);
    assert_eq!(LockType::Shared.supports_children(LockType::SharedIntentionExclusive), false);
    assert_eq!(LockType::Shared.supports_children(LockType::Exclusive), false);

    assert_eq!(
        LockType::SharedIntentionExclusive.supports_children(LockType::IntentionShared),
        true
    );
    assert_eq!(
        LockType::SharedIntentionExclusive.supports_children(LockType::IntentionExclusive),
        true
    );
    assert_eq!(LockType::SharedIntentionExclusive.supports_children(LockType::Shared), true);
    assert_eq!(
        LockType::SharedIntentionExclusive.supports_children(LockType::SharedIntentionExclusive),
        true
    );
    assert_eq!(LockType::SharedIntentionExclusive.supports_children(LockType::Exclusive), true);

    assert_eq!(LockType::Exclusive.supports_children(LockType::IntentionShared), true);
    assert_eq!(LockType::Exclusive.supports_children(LockType::IntentionExclusive), true);
    assert_eq!(LockType::Exclusive.supports_children(LockType::Shared), true);
    assert_eq!(LockType::Exclusive.supports_children(LockType::SharedIntentionExclusive), true);
    assert_eq!(LockType::Exclusive.supports_children(LockType::Exclusive), true);
}

#[test]
fn min_upgradable() {
    assert_eq!(
        LockType::IntentionShared.min_upgradable(LockType::IntentionShared),
        LockType::IntentionShared
    );
    assert_eq!(
        LockType::IntentionShared.min_upgradable(LockType::IntentionExclusive),
        LockType::IntentionExclusive
    );
    assert_eq!(LockType::IntentionShared.min_upgradable(LockType::Shared), LockType::Shared);
    assert_eq!(
        LockType::IntentionShared.min_upgradable(LockType::SharedIntentionExclusive),
        LockType::SharedIntentionExclusive
    );
    assert_eq!(LockType::IntentionShared.min_upgradable(LockType::Exclusive), LockType::Exclusive);

    assert_eq!(
        LockType::IntentionExclusive.min_upgradable(LockType::IntentionShared),
        LockType::IntentionExclusive
    );
    assert_eq!(
        LockType::IntentionExclusive.min_upgradable(LockType::IntentionExclusive),
        LockType::IntentionExclusive
    );
    assert_eq!(
        LockType::IntentionExclusive.min_upgradable(LockType::Shared),
        LockType::SharedIntentionExclusive
    );
    assert_eq!(
        LockType::IntentionExclusive.min_upgradable(LockType::SharedIntentionExclusive),
        LockType::SharedIntentionExclusive
    );
    assert_eq!(
        LockType::IntentionExclusive.min_upgradable(LockType::Exclusive),
        LockType::Exclusive
    );

    assert_eq!(LockType::Shared.min_upgradable(LockType::IntentionShared), LockType::Shared);
    assert_eq!(
        LockType::Shared.min_upgradable(LockType::IntentionExclusive),
        LockType::SharedIntentionExclusive
    );
    assert_eq!(LockType::Shared.min_upgradable(LockType::Shared), LockType::Shared);
    assert_eq!(
        LockType::Shared.min_upgradable(LockType::SharedIntentionExclusive),
        LockType::SharedIntentionExclusive
    );
    assert_eq!(LockType::Shared.min_upgradable(LockType::Exclusive), LockType::Exclusive);

    assert_eq!(
        LockType::SharedIntentionExclusive.min_upgradable(LockType::IntentionShared),
        LockType::SharedIntentionExclusive
    );
    assert_eq!(
        LockType::SharedIntentionExclusive.min_upgradable(LockType::IntentionExclusive),
        LockType::SharedIntentionExclusive
    );
    assert_eq!(
        LockType::SharedIntentionExclusive.min_upgradable(LockType::Shared),
        LockType::SharedIntentionExclusive
    );
    assert_eq!(
        LockType::SharedIntentionExclusive.min_upgradable(LockType::SharedIntentionExclusive),
        LockType::SharedIntentionExclusive
    );
    assert_eq!(
        LockType::SharedIntentionExclusive.min_upgradable(LockType::Exclusive),
        LockType::Exclusive
    );

    assert_eq!(LockType::Exclusive.min_upgradable(LockType::IntentionShared), LockType::Exclusive);
    assert_eq!(
        LockType::Exclusive.min_upgradable(LockType::IntentionExclusive),
        LockType::Exclusive
    );
    assert_eq!(LockType::Exclusive.min_upgradable(LockType::Shared), LockType::Exclusive);
    assert_eq!(
        LockType::Exclusive.min_upgradable(LockType::SharedIntentionExclusive),
        LockType::Exclusive
    );
    assert_eq!(LockType::Exclusive.min_upgradable(LockType::Exclusive), LockType::Exclusive);
}

#[test]
fn lock_types_order_and_index() {
    let types = LockType::lock_types();
    assert_eq!(types.len(), 5);
    for (pos, t) in types.iter().enumerate() {
        assert_eq!(t.index(), pos);
    }
    assert_eq!(types[0], LockType::IntentionShared);
    assert_eq!(types[4], LockType::Exclusive);
}

#[test]
fn mode_names() {
    assert_eq!(LockType::IntentionShared.name(), "IntentionShared");
    assert_eq!(LockType::IntentionExclusive.name(), "IntentionExclusive");
    assert_eq!(LockType::Shared.name(), "Shared");
    assert_eq!(LockType::SharedIntentionExclusive.name(), "SharedIntentionExclusive");
    assert_eq!(LockType::Exclusive.name(), "Exclusive");
}
