use glock::common::LockError;
use glock::kernel::LockSpace;
use glock::lock::GLock;
use glock::locktype::LockType;

#[test]
fn non_nested_locks() {
    let mut space = LockSpace::new();
    let p = GLock::new_root(&mut space, 0u32).unwrap();

    let c1 = p.new_child(&mut space, 0u32).unwrap();
    let c2 = p.new_child(&mut space, 0u32).unwrap();

    for p_type1 in LockType::lock_types().iter() {
        let p_lg1 = p.try_lock(&mut space, *p_type1).unwrap();

        for p_type2 in LockType::lock_types().iter() {
            let probe = p.try_lock(&mut space, *p_type2);
            assert_eq!(probe.is_ok(), p_type1.compatible_with(*p_type2));
            if let Ok(g) = probe {
                g.release(&mut space);
            }
        }

        for c1_type1 in LockType::lock_types().iter() {
            let c1_lg1 = c1.try_lock_using_parent(&mut space, *c1_type1, &p_lg1).unwrap();

            for c1_type2 in LockType::lock_types().iter() {
                let probe = c1.try_lock_using_parent(&mut space, *c1_type2, &p_lg1);
                assert_eq!(probe.is_ok(), c1_type1.compatible_with(*c1_type2));
                if let Ok(g) = probe {
                    g.release(&mut space);
                }
            }

            for c2_type in LockType::lock_types().iter() {
                c2.try_lock_using_parent(&mut space, *c2_type, &p_lg1)
                    .unwrap()
                    .release(&mut space);
            }

            c1_lg1.release(&mut space);
        }

        p_lg1.release(&mut space);
    }
}

#[test]
fn nested_locks() {
    struct Parent {
        child1: GLock<u32>,
        child2: GLock<u32>,
    }

    let mut space = LockSpace::new();

    let parent_lock = {
        let parent_lb = GLock::<Parent>::new_root_builder(&mut space);

        let parent = Parent {
            child1: parent_lb.new_child(&mut space, 0u32).unwrap(),
            child2: parent_lb.new_child(&mut space, 0u32).unwrap(),
        };

        parent_lb.build(&mut space, parent).unwrap()
    };

    for p_type1 in LockType::lock_types().iter() {
        let p_lg1 = parent_lock.try_lock(&mut space, *p_type1).unwrap();

        for p_type2 in LockType::lock_types().iter() {
            let probe = parent_lock.try_lock(&mut space, *p_type2);
            assert_eq!(probe.is_ok(), p_type1.compatible_with(*p_type2));
            if let Ok(g) = probe {
                g.release(&mut space);
            }
        }

        for c1_type1 in LockType::lock_types().iter() {
            let c1_lg1 = parent_lock
                .read(&space, &p_lg1)
                .child1
                .try_lock_using_parent(&mut space, *c1_type1, &p_lg1)
                .unwrap();

            for c1_type2 in LockType::lock_types().iter() {
                let probe = parent_lock
                    .read(&space, &p_lg1)
                    .child1
                    .try_lock_using_parent(&mut space, *c1_type2, &p_lg1);
                assert_eq!(probe.is_ok(), c1_type1.compatible_with(*c1_type2));
                if let Ok(g) = probe {
                    g.release(&mut space);
                }
            }

            for c2_type in LockType::lock_types().iter() {
                parent_lock
                    .read(&space, &p_lg1)
                    .child2
                    .try_lock_using_parent(&mut space, *c2_type, &p_lg1)
                    .unwrap()
                    .release(&mut space);
            }

            c1_lg1.release(&mut space);
        }

        p_lg1.release(&mut space);
    }
}

#[test]
fn upgrade_to_exclusive() {
    let mut space = LockSpace::new();

    let p = GLock::new_root(&mut space, 0u32).unwrap();

    let mut c = p.new_child(&mut space, 0u32).unwrap();

    let c_g = c.lock(&mut space, LockType::Shared).unwrap();

    let probe = p.try_lock(&mut space, LockType::Shared);
    assert_eq!(probe.is_ok(), true);
    probe.unwrap().release(&mut space);

    let c_g_mut = c_g.upgrade_to_exclusive(&mut space).unwrap();
    c.write(&space, &c_g_mut, 10);
    assert_eq!(*c.read(&space, c_g_mut.as_guard()), 10);

    assert_eq!(p.try_lock(&mut space, LockType::Shared).is_ok(), false);

    c_g_mut.release(&mut space);
}

#[test]
fn busy_root_recovers_after_release() {
    let mut space = LockSpace::new();
    let r = GLock::new_root(&mut space, 'r').unwrap();

    let shared = r.lock(&mut space, LockType::Shared).unwrap();
    let attempt = r.try_lock_exclusive(&mut space);
    assert_eq!(attempt.unwrap_err(), LockError::LockBusy);

    shared.release(&mut space);
    let exclusive = r.try_lock_exclusive(&mut space).unwrap();
    assert_eq!(exclusive.lock_type(&space).unwrap(), LockType::Exclusive);
    exclusive.release(&mut space);
}

#[test]
fn child_lock_takes_implicit_intention_on_parent() {
    let mut space = LockSpace::new();
    let r = GLock::new_root(&mut space, 0u32).unwrap();
    let c = r.new_child(&mut space, 0u32).unwrap();

    let c_g = c.try_lock(&mut space, LockType::Shared).unwrap();
    assert_eq!(r.try_lock(&mut space, LockType::Exclusive).unwrap_err(), LockError::LockBusy);
    let r_is = r.try_lock(&mut space, LockType::IntentionShared).unwrap();

    r_is.release(&mut space);
    c_g.release(&mut space);
}

#[test]
fn parent_guard_auto_upgrades_for_exclusive_child() {
    let mut space = LockSpace::new();
    let r = GLock::new_root(&mut space, 0u32).unwrap();
    let c = r.new_child(&mut space, 0u32).unwrap();

    let g = r.try_lock(&mut space, LockType::IntentionShared).unwrap();
    let c_g = c.try_lock_exclusive_using_parent(&mut space, &g).unwrap();
    assert_eq!(g.lock_type(&space).unwrap(), LockType::IntentionExclusive);

    c_g.release(&mut space);
    g.release(&mut space);

    assert_eq!(r.try_lock_exclusive(&mut space).is_ok(), true);
    assert_eq!(c.try_lock_exclusive(&mut space).is_ok(), false);
}

#[test]
fn upgrade_blocked_by_parent_share_until_released() {
    let mut space = LockSpace::new();
    let r = GLock::new_root(&mut space, 0u32).unwrap();
    let c = r.new_child(&mut space, 0u32).unwrap();

    let c_g = c.try_lock(&mut space, LockType::Shared).unwrap();
    let r_s = r.try_lock(&mut space, LockType::Shared).unwrap();

    // The implicit parent upgrade IS -> IX conflicts with the parent's S.
    let c_g = match c_g.try_upgrade_to_exclusive(&mut space) {
        Ok(_) => panic!("upgrade must not succeed while the parent holds Shared"),
        Err((e, original)) => {
            assert_eq!(e, LockError::LockBusy);
            original
        }
    };

    r_s.release(&mut space);
    let c_g_mut = c_g.try_upgrade_to_exclusive(&mut space).unwrap();
    assert_eq!(c_g_mut.lock_type(&space).unwrap(), LockType::Exclusive);
    c_g_mut.release(&mut space);
}

#[test]
fn invalid_upgrade_reports_modes_and_changes_nothing() {
    let mut space = LockSpace::new();
    let r = GLock::new_root(&mut space, 0u32).unwrap();

    let g = r.try_lock(&mut space, LockType::Shared).unwrap();
    assert_eq!(
        g.try_upgrade(&mut space, LockType::IntentionExclusive).unwrap_err(),
        LockError::InvalidUpgrade {
            original: LockType::Shared,
            requested: LockType::IntentionExclusive,
        }
    );
    assert_eq!(g.lock_type(&space).unwrap(), LockType::Shared);

    // Still exactly one Shared grant: another Shared fits, Exclusive does not.
    let probe = r.try_lock(&mut space, LockType::Shared).unwrap();
    probe.release(&mut space);
    assert_eq!(r.try_lock(&mut space, LockType::Exclusive).unwrap_err(), LockError::LockBusy);

    g.release(&mut space);
}

#[test]
fn build_and_read_payload() {
    let mut space = LockSpace::new();
    let lock = GLock::new_root(&mut space, String::from("payload")).unwrap();

    let g = lock.lock(&mut space, LockType::IntentionShared).unwrap();
    assert_eq!(lock.read(&space, &g), "payload");
    g.release(&mut space);

    let data = lock.into_inner(&mut space);
    assert_eq!(data, "payload");
}

#[test]
fn child_builder_then_build() {
    let mut space = LockSpace::new();
    let root_builder = glock::lock::GLockBuilder::new_root_builder(&mut space);
    let child_builder = root_builder.new_child_builder(&mut space).unwrap();

    let root = root_builder.build(&mut space, 1u32).unwrap();
    let child = child_builder.build(&mut space, 2u32).unwrap();

    let g = child.try_lock(&mut space, LockType::Shared).unwrap();
    assert_eq!(*child.read(&space, &g), 2);
    assert_eq!(root.try_lock(&mut space, LockType::Exclusive).unwrap_err(), LockError::LockBusy);
    g.release(&mut space);
}

#[test]
fn map_unknown_err_wraps_message() {
    let e = glock::common::map_unknown_err(String::from("poisoned"));
    assert_eq!(e, LockError::UnknownError { message: String::from("poisoned") });
}

#[test]
fn error_descriptions() {
    assert_eq!(
        LockError::LockBusy.describe(),
        "Failed to acquire/upgrade lock; lock is busy"
    );
    assert_eq!(
        LockError::UnknownError { message: String::from("poisoned") }.describe(),
        "Unknown error: poisoned"
    );
    assert_eq!(LockError::LockAlreadyUsed.describe(), "Lock kernel is already owned");
    assert_eq!(LockError::InvalidParentLock.describe(), "Invalid parent lock");
    assert_eq!(
        LockError::InvalidParentLockType {
            required: LockType::IntentionExclusive,
            actual: LockType::IntentionShared,
        }
        .describe(),
        "Invalid parent lock type; required: IntentionExclusive, actual: IntentionShared"
    );
    assert_eq!(
        LockError::InvalidUpgrade {
            original: LockType::Shared,
            requested: LockType::IntentionExclusive,
        }
        .describe(),
        "Lock of type Shared is not upgradable to type IntentionExclusive"
    );
}
