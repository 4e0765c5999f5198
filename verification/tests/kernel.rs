use glock::common::LockError;
use glock::kernel::{LockKernel, LockKernelRc, LockSpace};
use glock::locktype::LockType;

#[test]
fn acquire_release() {
    for t1 in LockType::lock_types().iter() {
        for t2 in LockType::lock_types().iter() {
            let should_succeed = t1.compatible_with(*t2);
            let mut space = LockSpace::new();
            let k = LockKernelRc::new(&mut space, LockKernel::new(None, None));

            let t1_lock = k.acquire(&mut space, *t1, None, true, true).unwrap();
            let second = k.acquire(&mut space, *t2, None, true, true);
            assert_eq!(second.is_ok(), should_succeed);
            if let Ok(l) = second {
                l.release(&mut space);
            }
            t1_lock.release(&mut space);

            if !should_succeed {
                assert_eq!(k.acquire(&mut space, *t2, None, true, true).is_ok(), true);
            }
        }
    }
}

#[test]
fn acquire_release_implicit_parent() {
    for t1 in LockType::lock_types().iter() {
        for t2 in LockType::lock_types().iter() {
            let should_succeed = t1.implicit_parent_type().compatible_with(*t2);
            let mut space = LockSpace::new();
            let k = LockKernelRc::new(&mut space, LockKernel::new(None, None));
            let k1 = k.new_child(&mut space).unwrap();

            let t1_lock = k1.acquire(&mut space, *t1, None, true, true).unwrap();
            let probe = k.acquire(&mut space, *t2, None, true, true);
            assert_eq!(probe.is_ok(), should_succeed);
            if let Ok(l) = probe {
                l.release(&mut space);
            }
            t1_lock.release(&mut space);

            if !should_succeed {
                assert_eq!(k.acquire(&mut space, *t2, None, true, true).is_ok(), true);
            }
        }
    }
}

#[test]
fn acquire_release_shared_parent() {
    for parent_type in LockType::lock_types().iter() {
        for t1a in LockType::lock_types().iter() {
            for t1b in LockType::lock_types().iter() {
                for t2 in LockType::lock_types().iter() {
                    let mut space = LockSpace::new();
                    let k = LockKernelRc::new(&mut space, LockKernel::new(None, None));
                    let k1 = k.new_child(&mut space).unwrap();
                    let k2 = k.new_child(&mut space).unwrap();

                    let p_lock = k.acquire(&mut space, *parent_type, None, true, true).unwrap();
                    let _l1a = k1.acquire(&mut space, *t1a, Some(&p_lock), true, true).unwrap();
                    assert_eq!(
                        k1.acquire(&mut space, *t1b, Some(&p_lock), true, true).is_ok(),
                        t1a.compatible_with(*t1b)
                    );
                    assert_eq!(
                        k2.acquire(&mut space, *t2, Some(&p_lock), true, true).is_ok(),
                        true
                    );
                }
            }
        }
    }
}

#[test]
fn upgrade() {
    for initial_type in LockType::lock_types().iter() {
        for upgrade_type in LockType::lock_types().iter() {
            let should_upgrade_succeed = initial_type.upgradable_to(*upgrade_type);
            let mut space = LockSpace::new();
            let k = LockKernelRc::new(&mut space, LockKernel::new(None, None));

            let l1 = k.acquire(&mut space, *initial_type, None, true, true).unwrap();

            for other_type in LockType::lock_types().iter() {
                let probe = k.acquire(&mut space, *other_type, None, true, true);
                assert_eq!(probe.is_ok(), initial_type.compatible_with(*other_type));
                if let Ok(l) = probe {
                    l.release(&mut space);
                }
            }

            match l1.upgrade(&mut space, *upgrade_type, true, true) {
                Ok(()) => {
                    assert_eq!(should_upgrade_succeed, true);

                    for other_type in LockType::lock_types().iter() {
                        let probe = k.acquire(&mut space, *other_type, None, true, true);
                        assert_eq!(probe.is_ok(), upgrade_type.compatible_with(*other_type));
                        if let Ok(l) = probe {
                            l.release(&mut space);
                        }
                    }
                }

                Err(_) => {
                    assert_eq!(should_upgrade_succeed, false);
                }
            }
        }
    }
}

#[test]
fn upgrade_implicit_parent() {
    for initial_type in LockType::lock_types().iter() {
        for upgrade_type in LockType::lock_types().iter() {
            let should_upgrade_succeed = initial_type.upgradable_to(*upgrade_type);
            let mut space = LockSpace::new();
            let k = LockKernelRc::new(&mut space, LockKernel::new(None, None));
            let k1 = k.new_child(&mut space).unwrap();

            let l1 = k1.acquire(&mut space, *initial_type, None, true, true).unwrap();

            for other_type in LockType::lock_types().iter() {
                let probe = k.acquire(&mut space, *other_type, None, true, true);
                assert_eq!(
                    probe.is_ok(),
                    initial_type.implicit_parent_type().compatible_with(*other_type)
                );
                if let Ok(l) = probe {
                    l.release(&mut space);
                }
            }

            match l1.upgrade(&mut space, *upgrade_type, true, true) {
                Ok(()) => {
                    assert_eq!(should_upgrade_succeed, true);

                    for other_type in LockType::lock_types().iter() {
                        let probe = k.acquire(&mut space, *other_type, None, true, true);
                        assert_eq!(
                            probe.is_ok(),
                            upgrade_type.implicit_parent_type().compatible_with(*other_type)
                        );
                        if let Ok(l) = probe {
                            l.release(&mut space);
                        }
                    }
                }

                Err(_) => {
                    assert_eq!(should_upgrade_succeed, false);
                }
            }
        }
    }
}

#[test]
fn child_handles_are_distinct() {
    let mut space = LockSpace::new();
    let k = LockKernelRc::new(&mut space, LockKernel::new(None, None));
    let c1 = k.new_child(&mut space).unwrap();
    let c2 = k.new_child(&mut space).unwrap();
    assert!(k.ptr_eq(&k));
    assert!(!c1.ptr_eq(&c2));
    assert!(!c1.ptr_eq(&k));
    let c1_again = c1;
    assert!(c1.ptr_eq(&c1_again));
}

#[test]
fn get_or_create_child_identity() {
    let mut space = LockSpace::new();
    let k = LockKernelRc::new(&mut space, LockKernel::new(None, None));

    let a1 = k.get_or_create_child(&mut space, 7).unwrap();
    let a2 = k.get_or_create_child(&mut space, 7).unwrap();
    let b = k.get_or_create_child(&mut space, 8).unwrap();
    assert!(a1.ptr_eq(&a2));
    assert!(!a1.ptr_eq(&b));

    // Locks taken through either handle meet on the same kernel node.
    let g = a1.acquire(&mut space, LockType::Exclusive, None, true, true).unwrap();
    assert!(a2.acquire(&mut space, LockType::Shared, None, true, true).is_err());
    assert!(b.acquire(&mut space, LockType::Shared, None, true, true).is_ok());
    g.release(&mut space);
}

#[test]
fn explicit_and_automatic_identifiers_stay_distinct() {
    let mut space = LockSpace::new();
    let k = LockKernelRc::new(&mut space, LockKernel::new(None, None));

    // Claiming identifier 0 explicitly reserves it: the next automatic
    // child must take a fresh identifier, not a second 0.
    let explicit = k.get_or_create_child(&mut space, 0).unwrap();
    let automatic = k.new_child(&mut space).unwrap();
    assert!(!explicit.ptr_eq(&automatic));
    assert_eq!(explicit.path(&space), "[0]");
    assert_eq!(automatic.path(&space), "[1]");

    // Lookups find each node under its own identifier.
    assert!(k.get_or_create_child(&mut space, 0).unwrap().ptr_eq(&explicit));
    assert!(k.get_or_create_child(&mut space, 1).unwrap().ptr_eq(&automatic));

    // The same holds with a large explicit identifier in between.
    let far = k.get_or_create_child(&mut space, 100).unwrap();
    let next = k.new_child(&mut space).unwrap();
    assert!(!far.ptr_eq(&next));
    assert_eq!(next.path(&space), "[101]");
}

#[test]
fn counts_track_grants() {
    let mut space = LockSpace::new();
    let k = LockKernelRc::new(&mut space, LockKernel::new(None, None));
    assert_eq!(k.lock_count(&space, LockType::IntentionShared), 0);

    let a = k.acquire(&mut space, LockType::IntentionShared, None, true, true).unwrap();
    let b = k.acquire(&mut space, LockType::IntentionShared, None, true, true).unwrap();
    assert_eq!(k.lock_count(&space, LockType::IntentionShared), 2);

    a.release(&mut space);
    assert_eq!(k.lock_count(&space, LockType::IntentionShared), 1);
    b.release(&mut space);
    assert_eq!(k.lock_count(&space, LockType::IntentionShared), 0);
}

#[test]
fn implicit_parent_counts_follow_chain() {
    let mut space = LockSpace::new();
    let root = LockKernelRc::new(&mut space, LockKernel::new(None, None));
    let mid = root.new_child(&mut space).unwrap();
    let leaf = mid.new_child(&mut space).unwrap();

    let g = leaf.acquire(&mut space, LockType::Exclusive, None, true, true).unwrap();
    assert_eq!(leaf.lock_count(&space, LockType::Exclusive), 1);
    assert_eq!(mid.lock_count(&space, LockType::IntentionExclusive), 1);
    assert_eq!(root.lock_count(&space, LockType::IntentionExclusive), 1);

    g.release(&mut space);
    assert_eq!(leaf.lock_count(&space, LockType::Exclusive), 0);
    assert_eq!(mid.lock_count(&space, LockType::IntentionExclusive), 0);
    assert_eq!(root.lock_count(&space, LockType::IntentionExclusive), 0);
}

#[test]
fn invalid_parent_lock_is_reported() {
    let mut space = LockSpace::new();
    let a = LockKernelRc::new(&mut space, LockKernel::new(None, None));
    let b = LockKernelRc::new(&mut space, LockKernel::new(None, None));
    let child_of_a = a.new_child(&mut space).unwrap();

    let grant_on_b = b.acquire(&mut space, LockType::IntentionShared, None, true, true).unwrap();
    let r = child_of_a.acquire(&mut space, LockType::Shared, Some(&grant_on_b), true, true);
    assert_eq!(r.unwrap_err(), LockError::InvalidParentLock);
    grant_on_b.release(&mut space);
}

#[test]
fn invalid_parent_lock_type_without_auto_upgrade() {
    let mut space = LockSpace::new();
    let root = LockKernelRc::new(&mut space, LockKernel::new(None, None));
    let child = root.new_child(&mut space).unwrap();

    let grant = root.acquire(&mut space, LockType::IntentionShared, None, true, true).unwrap();
    let r = child.acquire(&mut space, LockType::Exclusive, Some(&grant), false, true);
    assert_eq!(
        r.unwrap_err(),
        LockError::InvalidParentLockType {
            required: LockType::IntentionExclusive,
            actual: LockType::IntentionShared,
        }
    );
    // The failed attempt must not have touched any counter.
    assert_eq!(root.lock_count(&space, LockType::IntentionShared), 1);
    assert_eq!(child.lock_count(&space, LockType::Exclusive), 0);
    grant.release(&mut space);
}

#[test]
fn shared_grant_is_auto_upgraded() {
    let mut space = LockSpace::new();
    let root = LockKernelRc::new(&mut space, LockKernel::new(None, None));
    let child = root.new_child(&mut space).unwrap();

    let grant = root.acquire(&mut space, LockType::IntentionShared, None, true, true).unwrap();
    assert_eq!(grant.lock_type(&space).unwrap(), LockType::IntentionShared);

    let child_grant = child.acquire(&mut space, LockType::Exclusive, Some(&grant), true, true)
        .unwrap();
    // min_upgradable(IntentionShared, IntentionExclusive) is IntentionExclusive.
    assert_eq!(grant.lock_type(&space).unwrap(), LockType::IntentionExclusive);

    child_grant.release(&mut space);
    grant.release(&mut space);
    assert_eq!(root.lock_count(&space, LockType::IntentionShared), 0);
    assert_eq!(root.lock_count(&space, LockType::IntentionExclusive), 0);
    assert_eq!(child.lock_count(&space, LockType::Exclusive), 0);
}

#[test]
fn path_formatting() {
    let mut space = LockSpace::new();
    let root = LockKernelRc::new(&mut space, LockKernel::new(None, None));
    assert_eq!(root.path(&space), "[]");

    let a = root.new_child(&mut space).unwrap();
    let b = root.new_child(&mut space).unwrap();
    let aa = a.new_child(&mut space).unwrap();
    assert_eq!(a.path(&space), "[0]");
    assert_eq!(b.path(&space), "[1]");
    assert_eq!(aa.path(&space), "[0:0]");

    let big = root.get_or_create_child(&mut space, 1234567890).unwrap();
    assert_eq!(big.path(&space), "[1234567890]");
    let zero = root.get_or_create_child(&mut space, 0).unwrap();
    assert_eq!(zero.path(&space), "[0]");
    assert!(zero.ptr_eq(&a));
}

#[test]
fn own_twice_is_refused() {
    let mut kernel = LockKernel::new(None, None);
    assert_eq!(kernel.own(), Ok(()));
    assert_eq!(kernel.own(), Err(LockError::LockAlreadyUsed));
    assert_eq!(kernel.unown(), Ok(()));
    assert_eq!(kernel.own(), Ok(()));
}
