//! The public wrapper pairing user payload with a kernel node, and the
//! guards produced by locking it.
//!
//! A [`GLock`] owns a payload and one kernel node inside a
//! [`LockSpace`]; locking it yields a [`GLockGuard`] (any mode) or a
//! [`GLockGuardMut`] (`Exclusive` only), which give access to the payload
//! through [`GLock::read`] and [`GLock::write`].

use vstd::prelude::*;

use crate::common::{LockError, LockResult};
use crate::kernel::{
    acquire_model, inst_meta_eq, inst_valid, node_meta_eq, node_valid, release_model, space_inv,
    unreferenced, upgrade_model, zero_counts, Id, LockInstance, LockKernel, LockKernelRc,
    LockSpace, NodeV, SpaceV,
};
use crate::locktype::LockType;

verus! {

/// A live grant handle `g` standing for a lock held on node `n`.
pub open spec fn guard_holds(s: SpaceV, g: int, n: int) -> bool {
    &&& inst_valid(s, g)
    &&& s.insts[g].node == n
    &&& s.insts[g].shared
}

/// A `GLockBuilder` separates kernel-node allocation from payload
/// attachment: the node is created first, so payload types that hold child
/// locks as fields can be built with child handles of a parent node whose
/// payload does not exist yet, and `build` then attaches the payload.
pub struct GLockBuilder {
    kernel: LockKernelRc,
}

/// A granular lock pairing a payload of type `T` with one kernel node.
///
/// Each `GLock` can have child `GLock`s; locking a child requires the
/// matching intention mode on every ancestor, acquired either implicitly or
/// through a parent guard passed to the `*_using_parent` variants.
pub struct GLock<T> {
    kernel: LockKernelRc,
    data: T,
}

/// An acquired lock of any mode on a `GLock`.  Dropping the handle does not
/// release the lock; call [`GLockGuard::release`].
#[derive(Debug)]
pub struct GLockGuard {
    instance: LockInstance,
}

/// An acquired `Exclusive` lock on a `GLock`; additionally permits
/// [`GLock::write`].
#[derive(Debug)]
pub struct GLockGuardMut {
    lock_guard: GLockGuard,
}

impl View for GLockBuilder {
    type V = int;

    closed spec fn view(&self) -> int {
        self.kernel@
    }
}

impl View for GLockGuard {
    type V = int;

    closed spec fn view(&self) -> int {
        self.instance@
    }
}

impl View for GLockGuardMut {
    type V = int;

    closed spec fn view(&self) -> int {
        self.lock_guard.instance@
    }
}

impl GLockBuilder {
    /// Creates a new root `GLock` builder: a fresh parentless kernel node.
    pub fn new_root_builder(space: &mut LockSpace) -> (r: GLockBuilder)
        requires
            space_inv(old(space)@),
        ensures
            space_inv(final(space)@),
            final(space)@.insts == old(space)@.insts,
            final(space)@.nodes == old(space)@.nodes.push(
                (NodeV {
                    id: None,
                    parent: None,
                    owned: false,
                    counts: zero_counts(),
                    next_child_id: 0,
                }),
            ),
            r@ == old(space)@.nodes.len(),
    {
        let kernel = LockKernel::new(None, None);
        GLockBuilder { kernel: LockKernelRc::new(space, kernel) }
    }

    /// Creates a builder for a `GLock` that is a child of this builder's
    /// node, under the next free child identifier.
    pub fn new_child_builder(&self, space: &mut LockSpace) -> (r: LockResult<GLockBuilder>)
        requires
            space_inv(old(space)@),
            node_valid(old(space)@, self@),
            old(space)@.nodes[self@].next_child_id < Id::MAX,
        ensures
            space_inv(final(space)@),
            final(space)@.insts == old(space)@.insts,
            ({
                let id = old(space)@.nodes[self@].next_child_id;
                let child = NodeV {
                    id: Some(id),
                    parent: Some(self@),
                    owned: false,
                    counts: zero_counts(),
                    next_child_id: 0,
                };
                let bumped = NodeV { next_child_id: (id + 1) as Id, ..old(space)@.nodes[self@] };
                &&& final(space)@.nodes == old(space)@.nodes.update(self@, bumped).push(child)
                &&& r matches Ok(b) && b@ == old(space)@.nodes.len()
            }),
    {
        match self.kernel.new_child(space) {
            Ok(child_kernel) => Ok(GLockBuilder { kernel: child_kernel }),
            Err(e) => Err(e),
        }
    }

    /// Creates a `GLock` that is a child of this builder's node, protecting
    /// the given payload.
    pub fn new_child<T>(&self, space: &mut LockSpace, data: T) -> (r: LockResult<GLock<T>>)
        requires
            space_inv(old(space)@),
            node_valid(old(space)@, self@),
            old(space)@.nodes[self@].next_child_id < Id::MAX,
        ensures
            space_inv(final(space)@),
            final(space)@.insts == old(space)@.insts,
            ({
                let id = old(space)@.nodes[self@].next_child_id;
                let child = NodeV {
                    id: Some(id),
                    parent: Some(self@),
                    owned: true,
                    counts: zero_counts(),
                    next_child_id: 0,
                };
                let bumped = NodeV { next_child_id: (id + 1) as Id, ..old(space)@.nodes[self@] };
                &&& final(space)@.nodes == old(space)@.nodes.update(self@, bumped).push(child)
                &&& r matches Ok(g) && g.node() == old(space)@.nodes.len() && g.spec_data() == data
            }),
    {
        let ghost s0 = space@;
        let builder = self.new_child_builder(space)?;
        let r = builder.build(space, data);
        proof {
            let id = s0.nodes[self@].next_child_id;
            let bumped = NodeV { next_child_id: (id + 1) as Id, ..s0.nodes[self@] };
            let child = NodeV {
                id: Some(id),
                parent: Some(self@),
                owned: false,
                counts: zero_counts(),
                next_child_id: 0,
            };
            let child_owned = NodeV { owned: true, ..child };
            assert(space@.nodes =~~= s0.nodes.update(self@, bumped).push(child_owned));
        }
        r
    }

    /// Builds the `GLock` that protects the given payload, claiming the
    /// builder's kernel node.
    pub fn build<T>(self, space: &mut LockSpace, data: T) -> (r: LockResult<GLock<T>>)
        requires
            space_inv(old(space)@),
            node_valid(old(space)@, self@),
        ensures
            space_inv(final(space)@),
            final(space)@.insts == old(space)@.insts,
            old(space)@.nodes[self@].owned ==> (r matches Err(e) && e == LockError::LockAlreadyUsed)
                && final(space)@ == old(space)@,
            !old(space)@.nodes[self@].owned ==> (r matches Ok(g) && g.node() == self@
                && g.spec_data() == data) && final(space)@.nodes == old(space)@.nodes.update(
                self@,
                (NodeV { owned: true, ..old(space)@.nodes[self@] }),
            ),
    {
        match space.own_node(&self.kernel) {
            Ok(()) => Ok(GLock { kernel: self.kernel, data }),
            Err(e) => Err(e),
        }
    }
}

impl<T> GLock<T> {
    /// The index of the kernel node this lock stands on.
    pub closed spec fn node(&self) -> int {
        self.kernel@
    }

    /// The payload currently protected by this lock.
    pub closed spec fn spec_data(&self) -> T {
        self.data
    }

    /// Creates a new root `GLockBuilder`; the same as
    /// `GLockBuilder::new_root_builder()`.
    pub fn new_root_builder(space: &mut LockSpace) -> (r: GLockBuilder)
        requires
            space_inv(old(space)@),
        ensures
            space_inv(final(space)@),
            final(space)@.insts == old(space)@.insts,
            final(space)@.nodes == old(space)@.nodes.push(
                (NodeV {
                    id: None,
                    parent: None,
                    owned: false,
                    counts: zero_counts(),
                    next_child_id: 0,
                }),
            ),
            r@ == old(space)@.nodes.len(),
    {
        GLockBuilder::new_root_builder(space)
    }

    /// Creates a new root `GLock` protecting the given payload.
    pub fn new_root(space: &mut LockSpace, data: T) -> (r: LockResult<GLock<T>>)
        requires
            space_inv(old(space)@),
        ensures
            space_inv(final(space)@),
            final(space)@.insts == old(space)@.insts,
            final(space)@.nodes == old(space)@.nodes.push(
                (NodeV {
                    id: None,
                    parent: None,
                    owned: true,
                    counts: zero_counts(),
                    next_child_id: 0,
                }),
            ),
            r matches Ok(g) && g.node() == old(space)@.nodes.len() && g.spec_data() == data,
    {
        let ghost s0 = space@;
        let builder = GLockBuilder::new_root_builder(space);
        let r = builder.build(space, data);
        proof {
            let root = NodeV {
                id: None,
                parent: None,
                owned: false,
                counts: zero_counts(),
                next_child_id: 0,
            };
            assert(space@.nodes =~~= s0.nodes.push(NodeV { owned: true, ..root }));
        }
        r
    }

    /// Creates a `GLockBuilder` for a child of this lock's node.
    pub fn new_child_builder(&self, space: &mut LockSpace) -> (r: LockResult<GLockBuilder>)
        requires
            space_inv(old(space)@),
            node_valid(old(space)@, self.node()),
            old(space)@.nodes[self.node()].next_child_id < Id::MAX,
        ensures
            space_inv(final(space)@),
            final(space)@.insts == old(space)@.insts,
            ({
                let id = old(space)@.nodes[self.node()].next_child_id;
                let child = NodeV {
                    id: Some(id),
                    parent: Some(self.node()),
                    owned: false,
                    counts: zero_counts(),
                    next_child_id: 0,
                };
                let bumped = NodeV {
                    next_child_id: (id + 1) as Id,
                    ..old(space)@.nodes[self.node()]
                };
                &&& final(space)@.nodes == old(space)@.nodes.update(self.node(), bumped).push(
                    child,
                )
                &&& r matches Ok(b) && b@ == old(space)@.nodes.len()
            }),
    {
        match self.kernel.new_child(space) {
            Ok(child_kernel) => Ok(GLockBuilder { kernel: child_kernel }),
            Err(e) => Err(e),
        }
    }

    /// Creates a `GLock` that is a child of this lock's node, protecting
    /// the given payload.
    pub fn new_child<T2>(&self, space: &mut LockSpace, data: T2) -> (r: LockResult<GLock<T2>>)
        requires
            space_inv(old(space)@),
            node_valid(old(space)@, self.node()),
            old(space)@.nodes[self.node()].next_child_id < Id::MAX,
        ensures
            space_inv(final(space)@),
            final(space)@.insts == old(space)@.insts,
            ({
                let id = old(space)@.nodes[self.node()].next_child_id;
                let child = NodeV {
                    id: Some(id),
                    parent: Some(self.node()),
                    owned: true,
                    counts: zero_counts(),
                    next_child_id: 0,
                };
                let bumped = NodeV {
                    next_child_id: (id + 1) as Id,
                    ..old(space)@.nodes[self.node()]
                };
                &&& final(space)@.nodes == old(space)@.nodes.update(self.node(), bumped).push(
                    child,
                )
                &&& r matches Ok(g) && g.node() == old(space)@.nodes.len() && g.spec_data() == data
            }),
    {
        let ghost s0 = space@;
        let builder = self.new_child_builder(space)?;
        let r = builder.build(space, data);
        proof {
            let id = s0.nodes[self.node()].next_child_id;
            let bumped = NodeV { next_child_id: (id + 1) as Id, ..s0.nodes[self.node()] };
            let child = NodeV {
                id: Some(id),
                parent: Some(self.node()),
                owned: false,
                counts: zero_counts(),
                next_child_id: 0,
            };
            let child_owned = NodeV { owned: true, ..child };
            assert(space@.nodes =~~= s0.nodes.update(self.node(), bumped).push(child_owned));
        }
        r
    }

    /// Acquires a lock of the given type on this `GLock`, implicitly
    /// acquiring the matching intention mode on every ancestor.  In this
    /// sequential kernel a busy node reports `LockBusy` instead of
    /// blocking; a blocking front end retries around this call.
    pub fn lock(&self, space: &mut LockSpace, lock_type: LockType) -> (r: LockResult<GLockGuard>)
        requires
            space_inv(old(space)@),
            node_valid(old(space)@, self.node()),
        ensures
            ({
                let (mr, ms) = acquire_model(old(space)@, self.node(), lock_type, None, true);
                &&& final(space)@ == ms
                &&& space_inv(final(space)@)
                &&& match r {
                    Ok(g) => mr == Ok::<int, LockError>(g@) && guard_holds(
                        final(space)@,
                        g@,
                        self.node(),
                    ) && final(space)@.insts[g@].lock_type == lock_type,
                    Err(e) => mr == Err::<int, LockError>(e),
                }
            }),
    {
        self.do_lock(space, lock_type, None, false)
    }

    /// Attempts to acquire a lock of the given type on this `GLock`; if the
    /// node is busy, returns `LockError::LockBusy`.
    pub fn try_lock(&self, space: &mut LockSpace, lock_type: LockType) -> (r: LockResult<
        GLockGuard,
    >)
        requires
            space_inv(old(space)@),
            node_valid(old(space)@, self.node()),
        ensures
            ({
                let (mr, ms) = acquire_model(old(space)@, self.node(), lock_type, None, true);
                &&& final(space)@ == ms
                &&& space_inv(final(space)@)
                &&& match r {
                    Ok(g) => mr == Ok::<int, LockError>(g@) && guard_holds(
                        final(space)@,
                        g@,
                        self.node(),
                    ) && final(space)@.insts[g@].lock_type == lock_type,
                    Err(e) => mr == Err::<int, LockError>(e),
                }
            }),
    {
        self.do_lock(space, lock_type, None, true)
    }

    /// Acquires a lock of the given type on this child `GLock`, using the
    /// given guard of the parent `GLock`; the guard is upgraded first when
    /// its mode does not support the requested child mode.
    pub fn lock_using_parent(
        &self,
        space: &mut LockSpace,
        lock_type: LockType,
        parent: &GLockGuard,
    ) -> (r: LockResult<GLockGuard>)
        requires
            space_inv(old(space)@),
            node_valid(old(space)@, self.node()),
            inst_valid(old(space)@, parent@),
            old(space)@.insts[parent@].shared,
        ensures
            ({
                let (mr, ms) = acquire_model(
                    old(space)@,
                    self.node(),
                    lock_type,
                    Some(parent@),
                    true,
                );
                &&& final(space)@ == ms
                &&& space_inv(final(space)@)
                &&& match r {
                    Ok(g) => mr == Ok::<int, LockError>(g@) && guard_holds(
                        final(space)@,
                        g@,
                        self.node(),
                    ) && final(space)@.insts[g@].lock_type == lock_type,
                    Err(e) => mr == Err::<int, LockError>(e),
                }
            }),
    {
        self.do_lock(space, lock_type, Some(parent), false)
    }

    /// Attempts to acquire a lock of the given type on this child `GLock`,
    /// using the given guard of the parent `GLock`.
    pub fn try_lock_using_parent(
        &self,
        space: &mut LockSpace,
        lock_type: LockType,
        parent: &GLockGuard,
    ) -> (r: LockResult<GLockGuard>)
        requires
            space_inv(old(space)@),
            node_valid(old(space)@, self.node()),
            inst_valid(old(space)@, parent@),
            old(space)@.insts[parent@].shared,
        ensures
            ({
                let (mr, ms) = acquire_model(
                    old(space)@,
                    self.node(),
                    lock_type,
                    Some(parent@),
                    true,
                );
                &&& final(space)@ == ms
                &&& space_inv(final(space)@)
                &&& match r {
                    Ok(g) => mr == Ok::<int, LockError>(g@) && guard_holds(
                        final(space)@,
                        g@,
                        self.node(),
                    ) && final(space)@.insts[g@].lock_type == lock_type,
                    Err(e) => mr == Err::<int, LockError>(e),
                }
            }),
    {
        self.do_lock(space, lock_type, Some(parent), true)
    }

    /// Acquires an `Exclusive` lock on this `GLock`; the returned guard
    /// additionally permits `write`.
    pub fn lock_exclusive(&self, space: &mut LockSpace) -> (r: LockResult<GLockGuardMut>)
        requires
            space_inv(old(space)@),
            node_valid(old(space)@, self.node()),
        ensures
            ({
                let (mr, ms) = acquire_model(
                    old(space)@,
                    self.node(),
                    LockType::Exclusive,
                    None,
                    true,
                );
                &&& final(space)@ == ms
                &&& space_inv(final(space)@)
                &&& match r {
                    Ok(g) => mr == Ok::<int, LockError>(g@) && guard_holds(
                        final(space)@,
                        g@,
                        self.node(),
                    ) && final(space)@.insts[g@].lock_type == LockType::Exclusive,
                    Err(e) => mr == Err::<int, LockError>(e),
                }
            }),
    {
        self.do_lock_exclusive(space, None, false)
    }

    /// Attempts to acquire an `Exclusive` lock on this `GLock`.
    pub fn try_lock_exclusive(&self, space: &mut LockSpace) -> (r: LockResult<GLockGuardMut>)
        requires
            space_inv(old(space)@),
            node_valid(old(space)@, self.node()),
        ensures
            ({
                let (mr, ms) = acquire_model(
                    old(space)@,
                    self.node(),
                    LockType::Exclusive,
                    None,
                    true,
                );
                &&& final(space)@ == ms
                &&& space_inv(final(space)@)
                &&& match r {
                    Ok(g) => mr == Ok::<int, LockError>(g@) && guard_holds(
                        final(space)@,
                        g@,
                        self.node(),
                    ) && final(space)@.insts[g@].lock_type == LockType::Exclusive,
                    Err(e) => mr == Err::<int, LockError>(e),
                }
            }),
    {
        self.do_lock_exclusive(space, None, true)
    }

    /// Acquires an `Exclusive` lock on this child `GLock`, using the given
    /// guard of the parent `GLock`.
    pub fn lock_exclusive_using_parent(&self, space: &mut LockSpace, parent: &GLockGuard) -> (r:
        LockResult<GLockGuardMut>)
        requires
            space_inv(old(space)@),
            node_valid(old(space)@, self.node()),
            inst_valid(old(space)@, parent@),
            old(space)@.insts[parent@].shared,
        ensures
            ({
                let (mr, ms) = acquire_model(
                    old(space)@,
                    self.node(),
                    LockType::Exclusive,
                    Some(parent@),
                    true,
                );
                &&& final(space)@ == ms
                &&& space_inv(final(space)@)
                &&& match r {
                    Ok(g) => mr == Ok::<int, LockError>(g@) && guard_holds(
                        final(space)@,
                        g@,
                        self.node(),
                    ) && final(space)@.insts[g@].lock_type == LockType::Exclusive,
                    Err(e) => mr == Err::<int, LockError>(e),
                }
            }),
    {
        self.do_lock_exclusive(space, Some(parent), false)
    }

    /// Attempts to acquire an `Exclusive` lock on this child `GLock`, using
    /// the given guard of the parent `GLock`.
    pub fn try_lock_exclusive_using_parent(
        &self,
        space: &mut LockSpace,
        parent: &GLockGuard,
    ) -> (r: LockResult<GLockGuardMut>)
        requires
            space_inv(old(space)@),
            node_valid(old(space)@, self.node()),
            inst_valid(old(space)@, parent@),
            old(space)@.insts[parent@].shared,
        ensures
            ({
                let (mr, ms) = acquire_model(
                    old(space)@,
                    self.node(),
                    LockType::Exclusive,
                    Some(parent@),
                    true,
                );
                &&& final(space)@ == ms
                &&& space_inv(final(space)@)
                &&& match r {
                    Ok(g) => mr == Ok::<int, LockError>(g@) && guard_holds(
                        final(space)@,
                        g@,
                        self.node(),
                    ) && final(space)@.insts[g@].lock_type == LockType::Exclusive,
                    Err(e) => mr == Err::<int, LockError>(e),
                }
            }),
    {
        self.do_lock_exclusive(space, Some(parent), true)
    }

    fn do_lock(
        &self,
        space: &mut LockSpace,
        lock_type: LockType,
        parent: Option<&GLockGuard>,
        try_only: bool,
    ) -> (r: LockResult<GLockGuard>)
        requires
            space_inv(old(space)@),
            node_valid(old(space)@, self.node()),
            match parent {
                Some(pg) => inst_valid(old(space)@, pg@) && old(space)@.insts[pg@].shared,
                None => true,
            },
        ensures
            ({
                let (mr, ms) = acquire_model(
                    old(space)@,
                    self.node(),
                    lock_type,
                    match parent {
                        Some(pg) => Some(pg@),
                        None => None,
                    },
                    true,
                );
                &&& final(space)@ == ms
                &&& space_inv(final(space)@)
                &&& match r {
                    Ok(g) => mr == Ok::<int, LockError>(g@) && guard_holds(
                        final(space)@,
                        g@,
                        self.node(),
                    ) && final(space)@.insts[g@].lock_type == lock_type,
                    Err(e) => mr == Err::<int, LockError>(e),
                }
            }),
    {
        let using_parent: Option<&LockInstance> = match parent {
            Some(pg) => Some(&pg.instance),
            None => None,
        };
        match self.kernel.acquire(space, lock_type, using_parent, true, try_only) {
            Ok(instance) => Ok(GLockGuard { instance }),
            Err(e) => Err(e),
        }
    }

    fn do_lock_exclusive(
        &self,
        space: &mut LockSpace,
        parent: Option<&GLockGuard>,
        try_only: bool,
    ) -> (r: LockResult<GLockGuardMut>)
        requires
            space_inv(old(space)@),
            node_valid(old(space)@, self.node()),
            match parent {
                Some(pg) => inst_valid(old(space)@, pg@) && old(space)@.insts[pg@].shared,
                None => true,
            },
        ensures
            ({
                let (mr, ms) = acquire_model(
                    old(space)@,
                    self.node(),
                    LockType::Exclusive,
                    match parent {
                        Some(pg) => Some(pg@),
                        None => None,
                    },
                    true,
                );
                &&& final(space)@ == ms
                &&& space_inv(final(space)@)
                &&& match r {
                    Ok(g) => mr == Ok::<int, LockError>(g@) && guard_holds(
                        final(space)@,
                        g@,
                        self.node(),
                    ) && final(space)@.insts[g@].lock_type == LockType::Exclusive,
                    Err(e) => mr == Err::<int, LockError>(e),
                }
            }),
    {
        match self.do_lock(space, LockType::Exclusive, parent, try_only) {
            Ok(lock_guard) => Ok(GLockGuardMut { lock_guard }),
            Err(e) => Err(e),
        }
    }

    /// Reads the payload under any guard held on this lock's node.
    pub fn read<'a>(&'a self, space: &LockSpace, guard: &GLockGuard) -> (r: &'a T)
        requires
            space_inv(space@),
            guard_holds(space@, guard@, self.node()),
        ensures
            r == self.spec_data(),
    {
        &self.data
    }

    /// Replaces the payload under an `Exclusive` guard held on this lock's
    /// node.
    pub fn write(&mut self, space: &LockSpace, guard: &GLockGuardMut, value: T)
        requires
            space_inv(space@),
            guard_holds(space@, guard@, old(self).node()),
            space@.insts[guard@].lock_type is Exclusive,
        ensures
            final(self).node() == old(self).node(),
            final(self).spec_data() == value,
    {
        self.data = value;
    }

    /// Consumes the lock, returning the node to the unclaimed state and
    /// handing the payload back.
    pub fn into_inner(self, space: &mut LockSpace) -> (r: T)
        requires
            space_inv(old(space)@),
            node_valid(old(space)@, self.node()),
        ensures
            space_inv(final(space)@),
            final(space)@.insts == old(space)@.insts,
            final(space)@.nodes == old(space)@.nodes.update(
                self.node(),
                (NodeV { owned: false, ..old(space)@.nodes[self.node()] }),
            ),
            r == self.spec_data(),
    {
        let _ = space.unown_node(&self.kernel);
        self.data
    }
}

impl GLockGuard {
    /// Returns the type of the lock currently held.
    pub fn lock_type(&self, space: &LockSpace) -> (r: LockResult<LockType>)
        requires
            0 <= self@ < space@.insts.len(),
        ensures
            r == LockResult::<LockType>::Ok(space@.insts[self@].lock_type),
    {
        self.instance.lock_type(space)
    }

    /// Upgrades this guard to the given type, upgrading the parent grant as
    /// well when it does not support the new type.
    pub fn upgrade(&self, space: &mut LockSpace, to_type: LockType) -> (r: LockResult<()>)
        requires
            space_inv(old(space)@),
            inst_valid(old(space)@, self@),
        ensures
            r == upgrade_model(old(space)@, self@, to_type, true).0,
            final(space)@ == upgrade_model(old(space)@, self@, to_type, true).1,
            space_inv(final(space)@),
            final(space)@.nodes.len() == old(space)@.nodes.len(),
            final(space)@.insts.len() == old(space)@.insts.len(),
            forall|k: int|
                0 <= k < old(space)@.nodes.len() ==> node_meta_eq(
                    old(space)@.nodes[k],
                    #[trigger] final(space)@.nodes[k],
                ),
            forall|j: int|
                0 <= j < old(space)@.insts.len() ==> inst_meta_eq(
                    old(space)@.insts[j],
                    #[trigger] final(space)@.insts[j],
                ),
    {
        self.instance.upgrade(space, to_type, true, false)
    }

    /// Attempts to upgrade this guard to the given type; if the node is
    /// busy, returns `LockError::LockBusy`.
    pub fn try_upgrade(&self, space: &mut LockSpace, to_type: LockType) -> (r: LockResult<()>)
        requires
            space_inv(old(space)@),
            inst_valid(old(space)@, self@),
        ensures
            r == upgrade_model(old(space)@, self@, to_type, true).0,
            final(space)@ == upgrade_model(old(space)@, self@, to_type, true).1,
            space_inv(final(space)@),
            final(space)@.nodes.len() == old(space)@.nodes.len(),
            final(space)@.insts.len() == old(space)@.insts.len(),
            forall|k: int|
                0 <= k < old(space)@.nodes.len() ==> node_meta_eq(
                    old(space)@.nodes[k],
                    #[trigger] final(space)@.nodes[k],
                ),
            forall|j: int|
                0 <= j < old(space)@.insts.len() ==> inst_meta_eq(
                    old(space)@.insts[j],
                    #[trigger] final(space)@.insts[j],
                ),
    {
        self.instance.upgrade(space, to_type, true, true)
    }

    /// Upgrades this guard to `Exclusive`, consuming it; on failure the
    /// error is returned together with the original guard.
    pub fn upgrade_to_exclusive(self, space: &mut LockSpace) -> (r: Result<
        GLockGuardMut,
        (LockError, GLockGuard),
    >)
        requires
            space_inv(old(space)@),
            inst_valid(old(space)@, self@),
        ensures
            final(space)@ == upgrade_model(old(space)@, self@, LockType::Exclusive, true).1,
            space_inv(final(space)@),
            match r {
                Ok(gm) => upgrade_model(old(space)@, self@, LockType::Exclusive, true).0
                    == Ok::<(), LockError>(()) && gm@ == self@,
                Err((e, g)) => upgrade_model(old(space)@, self@, LockType::Exclusive, true).0
                    == Err::<(), LockError>(e) && g@ == self@,
            },
    {
        match self.instance.upgrade(space, LockType::Exclusive, true, false) {
            Ok(()) => Ok(GLockGuardMut { lock_guard: self }),
            Err(e) => Err((e, self)),
        }
    }

    /// Attempts to upgrade this guard to `Exclusive`, consuming it; on
    /// failure the error is returned together with the original guard.
    pub fn try_upgrade_to_exclusive(self, space: &mut LockSpace) -> (r: Result<
        GLockGuardMut,
        (LockError, GLockGuard),
    >)
        requires
            space_inv(old(space)@),
            inst_valid(old(space)@, self@),
        ensures
            final(space)@ == upgrade_model(old(space)@, self@, LockType::Exclusive, true).1,
            space_inv(final(space)@),
            match r {
                Ok(gm) => upgrade_model(old(space)@, self@, LockType::Exclusive, true).0
                    == Ok::<(), LockError>(()) && gm@ == self@,
                Err((e, g)) => upgrade_model(old(space)@, self@, LockType::Exclusive, true).0
                    == Err::<(), LockError>(e) && g@ == self@,
            },
    {
        match self.instance.upgrade(space, LockType::Exclusive, true, true) {
            Ok(()) => Ok(GLockGuardMut { lock_guard: self }),
            Err(e) => Err((e, self)),
        }
    }

    /// Releases the held lock, together with any implicit ancestor grants
    /// acquired for it alone.  Guards of child locks acquired through this
    /// guard must be released first.
    pub fn release(self, space: &mut LockSpace)
        requires
            space_inv(old(space)@),
            inst_valid(old(space)@, self@),
            unreferenced(old(space)@, self@),
        ensures
            final(space)@ == release_model(old(space)@, self@),
            space_inv(final(space)@),
    {
        self.instance.release(space)
    }
}

impl GLockGuardMut {
    /// This guard seen as a plain guard, for read access.
    pub fn as_guard(&self) -> (r: &GLockGuard)
        ensures
            r@ == self@,
    {
        &self.lock_guard
    }

    /// Returns the type of the lock currently held.
    pub fn lock_type(&self, space: &LockSpace) -> (r: LockResult<LockType>)
        requires
            0 <= self@ < space@.insts.len(),
        ensures
            r == LockResult::<LockType>::Ok(space@.insts[self@].lock_type),
    {
        self.lock_guard.lock_type(space)
    }

    /// Releases the held lock, as [`GLockGuard::release`] does.
    pub fn release(self, space: &mut LockSpace)
        requires
            space_inv(old(space)@),
            inst_valid(old(space)@, self@),
            unreferenced(old(space)@, self@),
        ensures
            final(space)@ == release_model(old(space)@, self@),
            space_inv(final(space)@),
    {
        self.lock_guard.release(space)
    }
}

} // verus!
