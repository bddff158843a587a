//! Typed identifiers for threads and synchronization primitives.
//!
//! Each primitive kind has its own identifier type wrapping a positive
//! integer.  The integer 0 is reserved as a sentinel meaning "not assigned":
//! simulated programs frequently keep synchronization structures in
//! zero-initialized memory, and the shim layer must be able to tell such
//! never-initialized memory apart from a stored identifier.  The nth created
//! primitive sits at arena position n and its identifier encodes n + 1.

use vstd::prelude::*;

verus! {

/// Identifier of a simulated thread, assigned by the scheduler.
///
/// The core never invents thread identifiers; it only stores and compares the
/// ones handed to it.
#[derive(Clone, Copy, Debug, PartialEq, Eq, Hash, PartialOrd, Ord, Structural)]
pub struct ThreadId(pub u32);

/// Identifier of a mutex.  The wrapped integer is never 0.
#[derive(Clone, Copy, Debug, PartialEq, Eq, Hash, PartialOrd, Ord, Structural)]
pub struct MutexId(u32);

/// Identifier of a read-write lock.  The wrapped integer is never 0.
#[derive(Clone, Copy, Debug, PartialEq, Eq, Hash, PartialOrd, Ord, Structural)]
pub struct RwLockId(u32);

/// Identifier of a condition variable.  The wrapped integer is never 0.
#[derive(Clone, Copy, Debug, PartialEq, Eq, Hash, PartialOrd, Ord, Structural)]
pub struct CondvarId(u32);

impl MutexId {
    /// The encoded integer carried by the identifier.
    pub closed spec fn raw(self) -> u32 {
        self.0
    }

    /// A valid identifier never uses the reserved sentinel 0.
    pub open spec fn wf(self) -> bool {
        self.raw() >= 1
    }

    /// The 0-based arena position the identifier refers to.
    pub open spec fn idx(self) -> int {
        self.raw() - 1
    }

    /// Construct an identifier from an externally supplied integer, for
    /// example one the simulated program read back out of simulated memory.
    /// The sentinel 0 does not denote any primitive and is refused.
    pub fn from_u32(id: u32) -> (r: Self)
        requires
            id != 0,
        ensures
            r.wf(),
            r.raw() == id,
    {
        MutexId(id)
    }

    /// The identifier of the primitive stored at arena position `idx`.
    pub fn new(idx: usize) -> (r: Self)
        requires
            idx < u32::MAX as usize,
        ensures
            r.wf(),
            r.raw() == idx + 1,
            r.idx() == idx,
    {
        MutexId((idx as u32) + 1)
    }

    /// The arena position of this identifier; inverse of `new`.
    pub fn index(self) -> (r: usize)
        requires
            self.wf(),
        ensures
            r == self.idx(),
    {
        (self.0 - 1) as usize
    }

    /// The stable scalar representation handed to simulated programs.
    pub fn to_u32_scalar(&self) -> (r: u32)
        ensures
            r == self.raw(),
    {
        self.0
    }
}

impl RwLockId {
    /// The encoded integer carried by the identifier.
    pub closed spec fn raw(self) -> u32 {
        self.0
    }

    /// A valid identifier never uses the reserved sentinel 0.
    pub open spec fn wf(self) -> bool {
        self.raw() >= 1
    }

    /// The 0-based arena position the identifier refers to.
    pub open spec fn idx(self) -> int {
        self.raw() - 1
    }

    /// Construct an identifier from an externally supplied integer.  The
    /// sentinel 0 does not denote any primitive and is refused.
    pub fn from_u32(id: u32) -> (r: Self)
        requires
            id != 0,
        ensures
            r.wf(),
            r.raw() == id,
    {
        RwLockId(id)
    }

    /// The identifier of the primitive stored at arena position `idx`.
    pub fn new(idx: usize) -> (r: Self)
        requires
            idx < u32::MAX as usize,
        ensures
            r.wf(),
            r.raw() == idx + 1,
            r.idx() == idx,
    {
        RwLockId((idx as u32) + 1)
    }

    /// The arena position of this identifier; inverse of `new`.
    pub fn index(self) -> (r: usize)
        requires
            self.wf(),
        ensures
            r == self.idx(),
    {
        (self.0 - 1) as usize
    }

    /// The stable scalar representation handed to simulated programs.
    pub fn to_u32_scalar(&self) -> (r: u32)
        ensures
            r == self.raw(),
    {
        self.0
    }
}

impl CondvarId {
    /// The encoded integer carried by the identifier.
    pub closed spec fn raw(self) -> u32 {
        self.0
    }

    /// A valid identifier never uses the reserved sentinel 0.
    pub open spec fn wf(self) -> bool {
        self.raw() >= 1
    }

    /// The 0-based arena position the identifier refers to.
    pub open spec fn idx(self) -> int {
        self.raw() - 1
    }

    /// Construct an identifier from an externally supplied integer.  The
    /// sentinel 0 does not denote any primitive and is refused.
    pub fn from_u32(id: u32) -> (r: Self)
        requires
            id != 0,
        ensures
            r.wf(),
            r.raw() == id,
    {
        CondvarId(id)
    }

    /// The identifier of the primitive stored at arena position `idx`.
    pub fn new(idx: usize) -> (r: Self)
        requires
            idx < u32::MAX as usize,
        ensures
            r.wf(),
            r.raw() == idx + 1,
            r.idx() == idx,
    {
        CondvarId((idx as u32) + 1)
    }

    /// The arena position of this identifier; inverse of `new`.
    pub fn index(self) -> (r: usize)
        requires
            self.wf(),
        ensures
            r == self.idx(),
    {
        (self.0 - 1) as usize
    }

    /// The stable scalar representation handed to simulated programs.
    pub fn to_u32_scalar(&self) -> (r: u32)
        ensures
            r == self.raw(),
    {
        self.0
    }
}

/// Mutex identifiers carry the encoding faithfully: the integer is never the
/// sentinel 0, and two identifiers agree exactly when their positions agree.
pub proof fn lemma_mutex_id_injective(a: MutexId, b: MutexId)
    requires
        a.wf(),
        b.wf(),
    ensures
        a.raw() >= 1,
        (a == b) <==> (a.raw() == b.raw()),
        (a == b) <==> (a.idx() == b.idx()),
{
}

/// RwLock identifiers carry the encoding faithfully.
pub proof fn lemma_rwlock_id_injective(a: RwLockId, b: RwLockId)
    requires
        a.wf(),
        b.wf(),
    ensures
        a.raw() >= 1,
        (a == b) <==> (a.raw() == b.raw()),
        (a == b) <==> (a.idx() == b.idx()),
{
}

/// Condvar identifiers carry the encoding faithfully.
pub proof fn lemma_condvar_id_injective(a: CondvarId, b: CondvarId)
    requires
        a.wf(),
        b.wf(),
    ensures
        a.raw() >= 1,
        (a == b) <==> (a.raw() == b.raw()),
        (a == b) <==> (a.idx() == b.idx()),
{
}

} // verus!
