//! State and operations of the three synchronization primitives.
//!
//! All state lives in three append-only arenas, one per primitive kind,
//! aggregated in [`SynchronizationState`] and owned by an [`EvalContext`].
//! The operations are the methods of [`EvalContextExt`]; each is specified
//! against a mathematical view of the state, and each preserves the
//! well-formedness invariants [`mutex_wf`], [`rwlock_wf`] and [`condvar_wf`].
//!
//! Blocking and waking of simulated threads is the scheduler's business: the
//! context only appends the affected thread to one of two request logs, which
//! the scheduler drains.

use std::collections::VecDeque;

use vstd::pervasive::VecAdditionalExecFns;
use vstd::prelude::*;

use crate::ids::{CondvarId, MutexId, RwLockId, ThreadId};

verus! {

// ---------------------------------------------------------------------------
// Mutex
// ---------------------------------------------------------------------------

/// A recursive mutex: its current owner, the owner's lock count, and the FIFO
/// queue of threads waiting to acquire it.
pub(crate) struct Mutex {
    pub(crate) owner: Option<ThreadId>,
    pub(crate) lock_count: usize,
    pub(crate) queue: VecDeque<ThreadId>,
}

/// Mathematical view of one mutex.
#[verifier::ext_equal]
pub ghost struct MutexView {
    pub owner: Option<ThreadId>,
    pub lock_count: nat,
    pub queue: Seq<ThreadId>,
}

impl View for Mutex {
    type V = MutexView;

    closed spec fn view(&self) -> MutexView {
        MutexView { owner: self.owner, lock_count: self.lock_count as nat, queue: self.queue@ }
    }
}

/// A freshly created mutex: unlocked, with an empty queue.
pub open spec fn mutex_init() -> MutexView {
    MutexView { owner: None, lock_count: 0, queue: Seq::empty() }
}

/// Well-formedness of one mutex: an owner exists exactly while the lock count
/// is positive, no thread waits twice, and the owner never waits on its own
/// mutex.
pub open spec fn mutex_wf(m: MutexView) -> bool {
    &&& m.owner is Some <==> m.lock_count > 0
    &&& m.queue.no_duplicates()
    &&& m.owner is Some ==> !m.queue.contains(m.owner->0)
}

/// What `mutex_unlock` reports back to the shim layer.
#[derive(Clone, Copy, Debug, PartialEq, Eq, Structural)]
pub enum MutexUnlockResult {
    /// The mutex was not locked at all; nothing changed.
    NotLocked,
    /// The mutex is owned by a different thread; nothing changed.
    NotOwner,
    /// The lock count was decremented; the payload is the count before the
    /// call, so the shim can restore a recursion depth later.
    Unlocked(usize),
}

/// Effect of `mutex_lock` on one mutex: the thread becomes (or stays) the
/// owner and the lock count grows by one.
pub open spec fn mutex_lock_next(m: MutexView, thread: ThreadId) -> MutexView {
    MutexView { owner: Some(thread), lock_count: m.lock_count + 1, queue: m.queue }
}

/// Effect of `mutex_unlock` on one mutex: the next state, the reported
/// result, and the successor thread to wake, if ownership was handed over.
pub open spec fn mutex_unlock_next(m: MutexView, expected_owner: ThreadId) -> (
    MutexView,
    MutexUnlockResult,
    Option<ThreadId>,
) {
    if m.owner is None {
        (m, MutexUnlockResult::NotLocked, None)
    } else if m.owner->0 != expected_owner {
        (m, MutexUnlockResult::NotOwner, None)
    } else if m.lock_count > 1 {
        (
            MutexView { owner: m.owner, lock_count: (m.lock_count - 1) as nat, queue: m.queue },
            MutexUnlockResult::Unlocked(m.lock_count as usize),
            None,
        )
    } else if m.queue.len() > 0 {
        (
            MutexView { owner: Some(m.queue[0]), lock_count: 1, queue: m.queue.drop_first() },
            MutexUnlockResult::Unlocked(m.lock_count as usize),
            Some(m.queue[0]),
        )
    } else {
        (
            MutexView { owner: None, lock_count: 0, queue: m.queue },
            MutexUnlockResult::Unlocked(m.lock_count as usize),
            None,
        )
    }
}

/// Effect of `mutex_enqueue`: the thread joins the back of the wait queue.
pub open spec fn mutex_enqueue_next(m: MutexView, thread: ThreadId) -> MutexView {
    MutexView { owner: m.owner, lock_count: m.lock_count, queue: m.queue.push(thread) }
}

/// Effect of `mutex_dequeue`: the oldest waiter, if any, leaves the queue.
pub open spec fn mutex_dequeue_next(m: MutexView) -> (MutexView, Option<ThreadId>) {
    if m.queue.len() == 0 {
        (m, None)
    } else {
        (
            MutexView { owner: m.owner, lock_count: m.lock_count, queue: m.queue.drop_first() },
            Some(m.queue[0]),
        )
    }
}

// ---------------------------------------------------------------------------
// RwLock
// ---------------------------------------------------------------------------

/// One thread holding a read lock, together with how many times it acquired
/// it.  An entry only exists while its count is positive.
#[derive(Clone, Copy, Debug, PartialEq, Eq, Structural)]
pub struct ReaderEntry {
    pub thread: ThreadId,
    pub count: usize,
}

/// A read-write lock: at most one writer, otherwise a set of readers with
/// per-reader recursion counts, plus one FIFO wait queue for writers and one
/// for readers.
pub(crate) struct RwLock {
    pub(crate) writer: Option<ThreadId>,
    pub(crate) readers: Vec<ReaderEntry>,
    pub(crate) writer_queue: VecDeque<ThreadId>,
    pub(crate) reader_queue: VecDeque<ThreadId>,
}

/// Mathematical view of one rwlock.
#[verifier::ext_equal]
pub ghost struct RwLockView {
    pub writer: Option<ThreadId>,
    pub readers: Seq<ReaderEntry>,
    pub writer_queue: Seq<ThreadId>,
    pub reader_queue: Seq<ThreadId>,
}

impl View for RwLock {
    type V = RwLockView;

    closed spec fn view(&self) -> RwLockView {
        RwLockView {
            writer: self.writer,
            readers: self.readers@,
            writer_queue: self.writer_queue@,
            reader_queue: self.reader_queue@,
        }
    }
}

/// A freshly created rwlock: free, with empty queues.
pub open spec fn rwlock_init() -> RwLockView {
    RwLockView {
        writer: None,
        readers: Seq::empty(),
        writer_queue: Seq::empty(),
        reader_queue: Seq::empty(),
    }
}

/// Some entry of `s` belongs to thread `t`.
pub open spec fn has_reader(s: Seq<ReaderEntry>, t: ThreadId) -> bool {
    exists|i: int| 0 <= i < s.len() && s[i].thread == t
}

/// The position of thread `t`'s entry in `s`; meaningful when the entry
/// exists and thread entries are unique.
pub open spec fn reader_pos(s: Seq<ReaderEntry>, t: ThreadId) -> int {
    choose|i: int| 0 <= i < s.len() && s[i].thread == t
}

/// How many read locks thread `t` holds according to `s`.
pub open spec fn reader_count(s: Seq<ReaderEntry>, t: ThreadId) -> nat {
    if has_reader(s, t) {
        s[reader_pos(s, t)].count as nat
    } else {
        0
    }
}

/// No thread owns two reader entries.
pub open spec fn readers_unique(s: Seq<ReaderEntry>) -> bool {
    forall|i: int, j: int| 0 <= i < j < s.len() ==> s[i].thread != s[j].thread
}

/// Well-formedness of one rwlock: a writer excludes readers, every reader
/// entry counts at least one acquisition, no thread appears twice among the
/// readers or twice in a queue, and no thread occupies two of the four
/// places (writer, readers, writer queue, reader queue) at once.
pub open spec fn rwlock_wf(r: RwLockView) -> bool {
    &&& r.writer is Some ==> r.readers.len() == 0
    &&& forall|i: int| 0 <= i < r.readers.len() ==> (#[trigger] r.readers[i]).count >= 1
    &&& readers_unique(r.readers)
    &&& r.writer_queue.no_duplicates()
    &&& r.reader_queue.no_duplicates()
    &&& r.writer is Some ==> !r.writer_queue.contains(r.writer->0) && !r.reader_queue.contains(
        r.writer->0,
    )
    &&& forall|t: ThreadId| #[trigger] has_reader(r.readers, t) ==> !r.writer_queue.contains(t)
        && !r.reader_queue.contains(t)
    &&& forall|t: ThreadId| #[trigger] r.writer_queue.contains(t) ==> !r.reader_queue.contains(t)
}

/// Effect of `rwlock_reader_lock`: raise the thread's count, creating its
/// entry with count 1 if it held nothing.
pub open spec fn rwlock_reader_lock_next(r: RwLockView, reader: ThreadId) -> RwLockView {
    if has_reader(r.readers, reader) {
        let i = reader_pos(r.readers, reader);
        RwLockView {
            writer: r.writer,
            readers: r.readers.update(
                i,
                ReaderEntry { thread: reader, count: (r.readers[i].count + 1) as usize },
            ),
            writer_queue: r.writer_queue,
            reader_queue: r.reader_queue,
        }
    } else {
        RwLockView {
            writer: r.writer,
            readers: r.readers.push(ReaderEntry { thread: reader, count: 1 }),
            writer_queue: r.writer_queue,
            reader_queue: r.reader_queue,
        }
    }
}

/// Effect of `rwlock_reader_unlock`: lower the thread's count, removing its
/// entry at zero; reports whether the thread held a read lock at all.
pub open spec fn rwlock_reader_unlock_next(r: RwLockView, reader: ThreadId) -> (RwLockView, bool) {
    if has_reader(r.readers, reader) {
        let i = reader_pos(r.readers, reader);
        if r.readers[i].count <= 1 {
            (
                RwLockView {
                    writer: r.writer,
                    readers: r.readers.remove(i),
                    writer_queue: r.writer_queue,
                    reader_queue: r.reader_queue,
                },
                true,
            )
        } else {
            (
                RwLockView {
                    writer: r.writer,
                    readers: r.readers.update(
                        i,
                        ReaderEntry { thread: reader, count: (r.readers[i].count - 1) as usize },
                    ),
                    writer_queue: r.writer_queue,
                    reader_queue: r.reader_queue,
                },
                true,
            )
        }
    } else {
        (r, false)
    }
}

/// Effect of `rwlock_writer_lock`: the thread becomes the writer.
pub open spec fn rwlock_writer_lock_next(r: RwLockView, writer: ThreadId) -> RwLockView {
    RwLockView {
        writer: Some(writer),
        readers: r.readers,
        writer_queue: r.writer_queue,
        reader_queue: r.reader_queue,
    }
}

/// Effect of `rwlock_writer_unlock`: the writer, if any, is removed and
/// reported.
pub open spec fn rwlock_writer_unlock_next(r: RwLockView) -> (RwLockView, Option<ThreadId>) {
    (
        RwLockView {
            writer: None,
            readers: r.readers,
            writer_queue: r.writer_queue,
            reader_queue: r.reader_queue,
        },
        r.writer,
    )
}

/// Effect of `rwlock_enqueue_and_block_reader` on the lock itself.
pub open spec fn rwlock_enqueue_reader_next(r: RwLockView, reader: ThreadId) -> RwLockView {
    RwLockView {
        writer: r.writer,
        readers: r.readers,
        writer_queue: r.writer_queue,
        reader_queue: r.reader_queue.push(reader),
    }
}

/// Effect of `rwlock_dequeue_reader`: the oldest queued reader, if any,
/// leaves the queue.
pub open spec fn rwlock_dequeue_reader_next(r: RwLockView) -> (RwLockView, Option<ThreadId>) {
    if r.reader_queue.len() == 0 {
        (r, None)
    } else {
        (
            RwLockView {
                writer: r.writer,
                readers: r.readers,
                writer_queue: r.writer_queue,
                reader_queue: r.reader_queue.drop_first(),
            },
            Some(r.reader_queue[0]),
        )
    }
}

/// Effect of `rwlock_enqueue_and_block_writer` on the lock itself.
pub open spec fn rwlock_enqueue_writer_next(r: RwLockView, writer: ThreadId) -> RwLockView {
    RwLockView {
        writer: r.writer,
        readers: r.readers,
        writer_queue: r.writer_queue.push(writer),
        reader_queue: r.reader_queue,
    }
}

/// Effect of `rwlock_dequeue_writer`: the oldest queued writer, if any,
/// leaves the queue.
pub open spec fn rwlock_dequeue_writer_next(r: RwLockView) -> (RwLockView, Option<ThreadId>) {
    if r.writer_queue.len() == 0 {
        (r, None)
    } else {
        (
            RwLockView {
                writer: r.writer,
                readers: r.readers,
                writer_queue: r.writer_queue.drop_first(),
                reader_queue: r.reader_queue,
            },
            Some(r.writer_queue[0]),
        )
    }
}

// ---------------------------------------------------------------------------
// Condvar
// ---------------------------------------------------------------------------

/// A thread waiting on a condition variable, together with the mutex it
/// released to wait; the scheduler reacquires that mutex for the thread when
/// it is woken.
#[derive(Clone, Copy, Debug, PartialEq, Eq, Structural)]
pub struct CondvarWaiter {
    /// The waiting thread.
    pub thread: ThreadId,
    /// The mutex the thread held and released when it started waiting.
    pub mutex: MutexId,
}

/// A condition variable: the FIFO of its waiters.
pub(crate) struct Condvar {
    pub(crate) waiters: VecDeque<CondvarWaiter>,
}

impl View for Condvar {
    type V = Seq<CondvarWaiter>;

    closed spec fn view(&self) -> Seq<CondvarWaiter> {
        self.waiters@
    }
}

/// Well-formedness of one condvar: no thread waits twice.
pub open spec fn condvar_wf(w: Seq<CondvarWaiter>) -> bool {
    forall|i: int, j: int| 0 <= i < j < w.len() ==> w[i].thread != w[j].thread
}

/// Thread `t` is among the waiters `w`.
pub open spec fn condvar_has_waiter(w: Seq<CondvarWaiter>, t: ThreadId) -> bool {
    exists|i: int| 0 <= i < w.len() && w[i].thread == t
}

/// Effect of `condvar_wait`: the thread joins the back of the waiter queue,
/// remembering its mutex.
pub open spec fn condvar_wait_next(w: Seq<CondvarWaiter>, thread: ThreadId, mutex: MutexId) -> Seq<
    CondvarWaiter,
> {
    w.push(CondvarWaiter { thread, mutex })
}

/// Effect of `condvar_signal`: the oldest waiter, if any, is removed and
/// reported together with its mutex.
pub open spec fn condvar_signal_next(w: Seq<CondvarWaiter>) -> (
    Seq<CondvarWaiter>,
    Option<(ThreadId, MutexId)>,
) {
    if w.len() == 0 {
        (w, None)
    } else {
        (w.drop_first(), Some((w[0].thread, w[0].mutex)))
    }
}

/// Effect of `condvar_remove_waiter`: every entry of the thread disappears.
pub open spec fn condvar_remove_next(w: Seq<CondvarWaiter>, thread: ThreadId) -> Seq<
    CondvarWaiter,
> {
    w.filter(|x: CondvarWaiter| x.thread != thread)
}

// ---------------------------------------------------------------------------
// The aggregate state and its view
// ---------------------------------------------------------------------------

/// The state of all synchronization primitives of one simulated process.
pub(crate) struct SynchronizationState {
    pub(crate) mutexes: Vec<Mutex>,
    pub(crate) rwlocks: Vec<RwLock>,
    pub(crate) condvars: Vec<Condvar>,
}

/// Mathematical view of the three arenas.
#[verifier::ext_equal]
pub ghost struct SyncView {
    pub mutexes: Seq<MutexView>,
    pub rwlocks: Seq<RwLockView>,
    pub condvars: Seq<Seq<CondvarWaiter>>,
}

/// View of a mutex arena, element by element.
pub(crate) open spec fn mutex_arena_view(s: Seq<Mutex>) -> Seq<MutexView> {
    Seq::new(s.len(), |i: int| s[i]@)
}

/// View of a rwlock arena, element by element.
pub(crate) open spec fn rwlock_arena_view(s: Seq<RwLock>) -> Seq<RwLockView> {
    Seq::new(s.len(), |i: int| s[i]@)
}

/// View of a condvar arena, element by element.
pub(crate) open spec fn condvar_arena_view(s: Seq<Condvar>) -> Seq<Seq<CondvarWaiter>> {
    Seq::new(s.len(), |i: int| s[i]@)
}

impl View for SynchronizationState {
    type V = SyncView;

    closed spec fn view(&self) -> SyncView {
        SyncView {
            mutexes: mutex_arena_view(self.mutexes@),
            rwlocks: rwlock_arena_view(self.rwlocks@),
            condvars: condvar_arena_view(self.condvars@),
        }
    }
}

/// Every primitive in the state is well-formed.
pub open spec fn sync_wf(v: SyncView) -> bool {
    &&& forall|i: int| 0 <= i < v.mutexes.len() ==> mutex_wf(#[trigger] v.mutexes[i])
    &&& forall|i: int| 0 <= i < v.rwlocks.len() ==> rwlock_wf(#[trigger] v.rwlocks[i])
    &&& forall|i: int| 0 <= i < v.condvars.len() ==> condvar_wf(#[trigger] v.condvars[i])
}

/// The identifier denotes a live mutex of this state.
pub open spec fn valid_mutex(v: SyncView, id: MutexId) -> bool {
    id.wf() && id.idx() < v.mutexes.len()
}

/// The mutex the identifier refers to.
pub open spec fn mutex_at(v: SyncView, id: MutexId) -> MutexView {
    v.mutexes[id.idx()]
}

/// The identifier denotes a live rwlock of this state.
pub open spec fn valid_rwlock(v: SyncView, id: RwLockId) -> bool {
    id.wf() && id.idx() < v.rwlocks.len()
}

/// The rwlock the identifier refers to.
pub open spec fn rwlock_at(v: SyncView, id: RwLockId) -> RwLockView {
    v.rwlocks[id.idx()]
}

/// The identifier denotes a live condvar of this state.
pub open spec fn valid_condvar(v: SyncView, id: CondvarId) -> bool {
    id.wf() && id.idx() < v.condvars.len()
}

/// The waiters of the condvar the identifier refers to.
pub open spec fn condvar_at(v: SyncView, id: CondvarId) -> Seq<CondvarWaiter> {
    v.condvars[id.idx()]
}

// ---------------------------------------------------------------------------
// Context
// ---------------------------------------------------------------------------

/// The synchronization state of one simulated process together with the log
/// of scheduling requests the operations have issued.
///
/// The scheduler owns one such context, calls the operations of
/// [`EvalContextExt`] on it while executing a simulated thread's step, and
/// drains the two request logs to actually block and wake threads.
pub struct EvalContext {
    pub(crate) sync: SynchronizationState,
    /// Threads the operations asked the scheduler to block, oldest first.
    pub block_requests: Vec<ThreadId>,
    /// Threads the operations asked the scheduler to wake, oldest first.
    pub unblock_requests: Vec<ThreadId>,
}

impl EvalContext {
    /// A context with no primitives and no pending scheduling requests.
    pub fn new() -> (r: Self)
        ensures
            r.sync_view() == (SyncView {
                mutexes: Seq::<MutexView>::empty(),
                rwlocks: Seq::<RwLockView>::empty(),
                condvars: Seq::<Seq<CondvarWaiter>>::empty(),
            }),
            r.blocked() == Seq::<ThreadId>::empty(),
            r.unblocked() == Seq::<ThreadId>::empty(),
            sync_wf(r.sync_view()),
    {
        let r = EvalContext {
            sync: SynchronizationState { mutexes: Vec::new(), rwlocks: Vec::new(), condvars: Vec::new() },
            block_requests: Vec::new(),
            unblock_requests: Vec::new(),
        };
        proof {
            assert(r.sync_view() =~~= (SyncView {
                mutexes: Seq::<MutexView>::empty(),
                rwlocks: Seq::<RwLockView>::empty(),
                condvars: Seq::<Seq<CondvarWaiter>>::empty(),
            }));
        }
        r
    }

    /// Record a request that the scheduler mark `thread` as not runnable.
    pub fn block_thread(&mut self, thread: ThreadId)
        ensures
            final(self).sync_view() == old(self).sync_view(),
            final(self).blocked() == old(self).blocked().push(thread),
            final(self).unblocked() == old(self).unblocked(),
    {
        self.block_requests.push(thread);
    }

    /// Record a request that the scheduler mark `thread` as runnable again.
    pub fn unblock_thread(&mut self, thread: ThreadId)
        ensures
            final(self).sync_view() == old(self).sync_view(),
            final(self).blocked() == old(self).blocked(),
            final(self).unblocked() == old(self).unblocked().push(thread),
    {
        self.unblock_requests.push(thread);
    }
}

impl Default for EvalContext {
    fn default() -> (r: Self)
        ensures
            r.sync_view().mutexes.len() == 0,
            r.sync_view().rwlocks.len() == 0,
            r.sync_view().condvars.len() == 0,
            r.blocked().len() == 0,
            r.unblocked().len() == 0,
            sync_wf(r.sync_view()),
    {
        EvalContext::new()
    }
}

// ---------------------------------------------------------------------------
// Operations
// ---------------------------------------------------------------------------

/// The operations the core offers to the scheduler and to the target-ABI
/// shims.  In most cases the calls are infallible; it is the shim's business
/// to detect erroneous situations and meet the preconditions.
pub trait EvalContextExt: Sized {
    /// Abstract view of the three arenas.
    spec fn sync_view(&self) -> SyncView;

    /// Threads this context asked the scheduler to block, oldest first.
    spec fn blocked(&self) -> Seq<ThreadId>;

    /// Threads this context asked the scheduler to wake, oldest first.
    spec fn unblocked(&self) -> Seq<ThreadId>;

    /// Create state for a new mutex.
    fn mutex_create(&mut self) -> (id: MutexId)
        requires
            sync_wf(old(self).sync_view()),
            old(self).sync_view().mutexes.len() < u32::MAX as usize,
        ensures
            sync_wf(final(self).sync_view()),
            id.wf(),
            id.idx() == old(self).sync_view().mutexes.len(),
            id.raw() == old(self).sync_view().mutexes.len() + 1,
            final(self).sync_view().mutexes == old(self).sync_view().mutexes.push(mutex_init()),
            final(self).sync_view().rwlocks == old(self).sync_view().rwlocks,
            final(self).sync_view().condvars == old(self).sync_view().condvars,
            final(self).blocked() == old(self).blocked(),
            final(self).unblocked() == old(self).unblocked(),
    ;

    /// The thread that currently owns this mutex.  May only be asked of a
    /// locked mutex.
    fn mutex_get_owner(&mut self, id: MutexId) -> (t: ThreadId)
        requires
            sync_wf(old(self).sync_view()),
            valid_mutex(old(self).sync_view(), id),
            mutex_at(old(self).sync_view(), id).owner is Some,
        ensures
            *final(self) == *old(self),
            Some(t) == mutex_at(old(self).sync_view(), id).owner,
    ;

    /// Whether the mutex is locked.
    fn mutex_is_locked(&mut self, id: MutexId) -> (b: bool)
        requires
            sync_wf(old(self).sync_view()),
            valid_mutex(old(self).sync_view(), id),
        ensures
            *final(self) == *old(self),
            b == (mutex_at(old(self).sync_view(), id).owner is Some),
    ;

    /// Lock the mutex for `thread`: set the owner and raise the lock count.
    /// A locked mutex may only be locked again by its owner, and the thread
    /// acquiring a mutex must not stand in its wait queue.
    fn mutex_lock(&mut self, id: MutexId, thread: ThreadId)
        requires
            sync_wf(old(self).sync_view()),
            valid_mutex(old(self).sync_view(), id),
            mutex_at(old(self).sync_view(), id).owner is Some ==> mutex_at(
                old(self).sync_view(),
                id,
            ).owner == Some(thread),
            mutex_at(old(self).sync_view(), id).lock_count < usize::MAX,
            !mutex_at(old(self).sync_view(), id).queue.contains(thread),
        ensures
            sync_wf(final(self).sync_view()),
            final(self).sync_view().mutexes == old(self).sync_view().mutexes.update(
                id.idx(),
                mutex_lock_next(mutex_at(old(self).sync_view(), id), thread),
            ),
            final(self).sync_view().rwlocks == old(self).sync_view().rwlocks,
            final(self).sync_view().condvars == old(self).sync_view().condvars,
            final(self).blocked() == old(self).blocked(),
            final(self).unblocked() == old(self).unblocked(),
    ;

    /// Unlock the mutex on behalf of `expected_owner`.  Reports whether the
    /// mutex was unlocked at all, owned by a different thread, or unlocked
    /// from which previous count; when the count reaches zero the oldest
    /// queued waiter, if any, atomically becomes the new owner and a request
    /// to wake it is logged.
    fn mutex_unlock(&mut self, id: MutexId, expected_owner: ThreadId) -> (r: MutexUnlockResult)
        requires
            sync_wf(old(self).sync_view()),
            valid_mutex(old(self).sync_view(), id),
        ensures
            sync_wf(final(self).sync_view()),
            r == mutex_unlock_next(mutex_at(old(self).sync_view(), id), expected_owner).1,
            final(self).sync_view().mutexes == old(self).sync_view().mutexes.update(
                id.idx(),
                mutex_unlock_next(mutex_at(old(self).sync_view(), id), expected_owner).0,
            ),
            final(self).sync_view().rwlocks == old(self).sync_view().rwlocks,
            final(self).sync_view().condvars == old(self).sync_view().condvars,
            final(self).blocked() == old(self).blocked(),
            final(self).unblocked() == (match mutex_unlock_next(
                mutex_at(old(self).sync_view(), id),
                expected_owner,
            ).2 {
                Some(t) => old(self).unblocked().push(t),
                None => old(self).unblocked(),
            }),
    ;

    /// Append `thread` to the queue waiting for the mutex.  Queueing is only
    /// allowed on a locked mutex, for a thread that is neither the owner nor
    /// already queued.
    fn mutex_enqueue(&mut self, id: MutexId, thread: ThreadId)
        requires
            sync_wf(old(self).sync_view()),
            valid_mutex(old(self).sync_view(), id),
            mutex_at(old(self).sync_view(), id).owner is Some,
            mutex_at(old(self).sync_view(), id).owner != Some(thread),
            !mutex_at(old(self).sync_view(), id).queue.contains(thread),
        ensures
            sync_wf(final(self).sync_view()),
            final(self).sync_view().mutexes == old(self).sync_view().mutexes.update(
                id.idx(),
                mutex_enqueue_next(mutex_at(old(self).sync_view(), id), thread),
            ),
            final(self).sync_view().rwlocks == old(self).sync_view().rwlocks,
            final(self).sync_view().condvars == old(self).sync_view().condvars,
            final(self).blocked() == old(self).blocked(),
            final(self).unblocked() == old(self).unblocked(),
    ;

    /// Take the oldest thread out of the queue waiting for the mutex.
    fn mutex_dequeue(&mut self, id: MutexId) -> (r: Option<ThreadId>)
        requires
            sync_wf(old(self).sync_view()),
            valid_mutex(old(self).sync_view(), id),
        ensures
            sync_wf(final(self).sync_view()),
            r == mutex_dequeue_next(mutex_at(old(self).sync_view(), id)).1,
            final(self).sync_view().mutexes == old(self).sync_view().mutexes.update(
                id.idx(),
                mutex_dequeue_next(mutex_at(old(self).sync_view(), id)).0,
            ),
            final(self).sync_view().rwlocks == old(self).sync_view().rwlocks,
            final(self).sync_view().condvars == old(self).sync_view().condvars,
            final(self).blocked() == old(self).blocked(),
            final(self).unblocked() == old(self).unblocked(),
    ;

    /// Create state for a new read-write lock.
    fn rwlock_create(&mut self) -> (id: RwLockId)
        requires
            sync_wf(old(self).sync_view()),
            old(self).sync_view().rwlocks.len() < u32::MAX as usize,
        ensures
            sync_wf(final(self).sync_view()),
            id.wf(),
            id.idx() == old(self).sync_view().rwlocks.len(),
            id.raw() == old(self).sync_view().rwlocks.len() + 1,
            final(self).sync_view().rwlocks == old(self).sync_view().rwlocks.push(rwlock_init()),
            final(self).sync_view().mutexes == old(self).sync_view().mutexes,
            final(self).sync_view().condvars == old(self).sync_view().condvars,
            final(self).blocked() == old(self).blocked(),
            final(self).unblocked() == old(self).unblocked(),
    ;

    /// Whether the lock is held by a writer or by at least one reader.
    fn rwlock_is_locked(&mut self, id: RwLockId) -> (b: bool)
        requires
            sync_wf(old(self).sync_view()),
            valid_rwlock(old(self).sync_view(), id),
        ensures
            *final(self) == *old(self),
            b == (rwlock_at(old(self).sync_view(), id).writer is Some || rwlock_at(
                old(self).sync_view(),
                id,
            ).readers.len() > 0),
    ;

    /// Whether the lock is held by a writer.
    fn rwlock_is_write_locked(&mut self, id: RwLockId) -> (b: bool)
        requires
            sync_wf(old(self).sync_view()),
            valid_rwlock(old(self).sync_view(), id),
        ensures
            *final(self) == *old(self),
            b == (rwlock_at(old(self).sync_view(), id).writer is Some),
    ;

    /// Acquire a read lock for `reader`, raising its recursion count.  The
    /// lock must not be write-locked, and a thread that is waiting in one of
    /// the queues cannot acquire.
    fn rwlock_reader_lock(&mut self, id: RwLockId, reader: ThreadId)
        requires
            sync_wf(old(self).sync_view()),
            valid_rwlock(old(self).sync_view(), id),
            rwlock_at(old(self).sync_view(), id).writer is None,
            reader_count(rwlock_at(old(self).sync_view(), id).readers, reader) < usize::MAX,
            !rwlock_at(old(self).sync_view(), id).writer_queue.contains(reader),
            !rwlock_at(old(self).sync_view(), id).reader_queue.contains(reader),
        ensures
            sync_wf(final(self).sync_view()),
            final(self).sync_view().rwlocks == old(self).sync_view().rwlocks.update(
                id.idx(),
                rwlock_reader_lock_next(rwlock_at(old(self).sync_view(), id), reader),
            ),
            final(self).sync_view().mutexes == old(self).sync_view().mutexes,
            final(self).sync_view().condvars == old(self).sync_view().condvars,
            final(self).blocked() == old(self).blocked(),
            final(self).unblocked() == old(self).unblocked(),
    ;

    /// Release one read lock held by `reader`; reports whether the reader
    /// held the lock at all.
    fn rwlock_reader_unlock(&mut self, id: RwLockId, reader: ThreadId) -> (b: bool)
        requires
            sync_wf(old(self).sync_view()),
            valid_rwlock(old(self).sync_view(), id),
        ensures
            sync_wf(final(self).sync_view()),
            b == rwlock_reader_unlock_next(rwlock_at(old(self).sync_view(), id), reader).1,
            b == (reader_count(rwlock_at(old(self).sync_view(), id).readers, reader) > 0),
            final(self).sync_view().rwlocks == old(self).sync_view().rwlocks.update(
                id.idx(),
                rwlock_reader_unlock_next(rwlock_at(old(self).sync_view(), id), reader).0,
            ),
            final(self).sync_view().mutexes == old(self).sync_view().mutexes,
            final(self).sync_view().condvars == old(self).sync_view().condvars,
            final(self).blocked() == old(self).blocked(),
            final(self).unblocked() == old(self).unblocked(),
    ;

    /// Append `reader` to the reader queue and ask the scheduler to block
    /// it.  Queueing a reader is only allowed while another thread
    /// write-holds the lock.
    fn rwlock_enqueue_and_block_reader(&mut self, id: RwLockId, reader: ThreadId)
        requires
            sync_wf(old(self).sync_view()),
            valid_rwlock(old(self).sync_view(), id),
            rwlock_at(old(self).sync_view(), id).writer is Some,
            rwlock_at(old(self).sync_view(), id).writer != Some(reader),
            !rwlock_at(old(self).sync_view(), id).writer_queue.contains(reader),
            !rwlock_at(old(self).sync_view(), id).reader_queue.contains(reader),
        ensures
            sync_wf(final(self).sync_view()),
            final(self).sync_view().rwlocks == old(self).sync_view().rwlocks.update(
                id.idx(),
                rwlock_enqueue_reader_next(rwlock_at(old(self).sync_view(), id), reader),
            ),
            final(self).sync_view().mutexes == old(self).sync_view().mutexes,
            final(self).sync_view().condvars == old(self).sync_view().condvars,
            final(self).blocked() == old(self).blocked().push(reader),
            final(self).unblocked() == old(self).unblocked(),
    ;

    /// Take the oldest reader out of the reader queue.
    fn rwlock_dequeue_reader(&mut self, id: RwLockId) -> (r: Option<ThreadId>)
        requires
            sync_wf(old(self).sync_view()),
            valid_rwlock(old(self).sync_view(), id),
        ensures
            sync_wf(final(self).sync_view()),
            r == rwlock_dequeue_reader_next(rwlock_at(old(self).sync_view(), id)).1,
            final(self).sync_view().rwlocks == old(self).sync_view().rwlocks.update(
                id.idx(),
                rwlock_dequeue_reader_next(rwlock_at(old(self).sync_view(), id)).0,
            ),
            final(self).sync_view().mutexes == old(self).sync_view().mutexes,
            final(self).sync_view().condvars == old(self).sync_view().condvars,
            final(self).blocked() == old(self).blocked(),
            final(self).unblocked() == old(self).unblocked(),
    ;

    /// Acquire the write lock for `writer`.  The lock must be entirely
    /// free, and a thread that is waiting in one of the queues cannot
    /// acquire.
    fn rwlock_writer_lock(&mut self, id: RwLockId, writer: ThreadId)
        requires
            sync_wf(old(self).sync_view()),
            valid_rwlock(old(self).sync_view(), id),
            rwlock_at(old(self).sync_view(), id).writer is None,
            rwlock_at(old(self).sync_view(), id).readers.len() == 0,
            !rwlock_at(old(self).sync_view(), id).writer_queue.contains(writer),
            !rwlock_at(old(self).sync_view(), id).reader_queue.contains(writer),
        ensures
            sync_wf(final(self).sync_view()),
            final(self).sync_view().rwlocks == old(self).sync_view().rwlocks.update(
                id.idx(),
                rwlock_writer_lock_next(rwlock_at(old(self).sync_view(), id), writer),
            ),
            final(self).sync_view().mutexes == old(self).sync_view().mutexes,
            final(self).sync_view().condvars == old(self).sync_view().condvars,
            final(self).blocked() == old(self).blocked(),
            final(self).unblocked() == old(self).unblocked(),
    ;

    /// Release the write lock; reports the previous writer, if any.
    fn rwlock_writer_unlock(&mut self, id: RwLockId) -> (r: Option<ThreadId>)
        requires
            sync_wf(old(self).sync_view()),
            valid_rwlock(old(self).sync_view(), id),
        ensures
            sync_wf(final(self).sync_view()),
            r == rwlock_at(old(self).sync_view(), id).writer,
            final(self).sync_view().rwlocks == old(self).sync_view().rwlocks.update(
                id.idx(),
                rwlock_writer_unlock_next(rwlock_at(old(self).sync_view(), id)).0,
            ),
            final(self).sync_view().mutexes == old(self).sync_view().mutexes,
            final(self).sync_view().condvars == old(self).sync_view().condvars,
            final(self).blocked() == old(self).blocked(),
            final(self).unblocked() == old(self).unblocked(),
    ;

    /// Append `writer` to the writer queue and ask the scheduler to block
    /// it.  Queueing a writer is only allowed while the lock is held by
    /// somebody else, as reader or writer.
    fn rwlock_enqueue_and_block_writer(&mut self, id: RwLockId, writer: ThreadId)
        requires
            sync_wf(old(self).sync_view()),
            valid_rwlock(old(self).sync_view(), id),
            rwlock_at(old(self).sync_view(), id).writer is Some || rwlock_at(
                old(self).sync_view(),
                id,
            ).readers.len() > 0,
            rwlock_at(old(self).sync_view(), id).writer != Some(writer),
            !has_reader(rwlock_at(old(self).sync_view(), id).readers, writer),
            !rwlock_at(old(self).sync_view(), id).writer_queue.contains(writer),
            !rwlock_at(old(self).sync_view(), id).reader_queue.contains(writer),
        ensures
            sync_wf(final(self).sync_view()),
            final(self).sync_view().rwlocks == old(self).sync_view().rwlocks.update(
                id.idx(),
                rwlock_enqueue_writer_next(rwlock_at(old(self).sync_view(), id), writer),
            ),
            final(self).sync_view().mutexes == old(self).sync_view().mutexes,
            final(self).sync_view().condvars == old(self).sync_view().condvars,
            final(self).blocked() == old(self).blocked().push(writer),
            final(self).unblocked() == old(self).unblocked(),
    ;

    /// Take the oldest writer out of the writer queue.
    fn rwlock_dequeue_writer(&mut self, id: RwLockId) -> (r: Option<ThreadId>)
        requires
            sync_wf(old(self).sync_view()),
            valid_rwlock(old(self).sync_view(), id),
        ensures
            sync_wf(final(self).sync_view()),
            r == rwlock_dequeue_writer_next(rwlock_at(old(self).sync_view(), id)).1,
            final(self).sync_view().rwlocks == old(self).sync_view().rwlocks.update(
                id.idx(),
                rwlock_dequeue_writer_next(rwlock_at(old(self).sync_view(), id)).0,
            ),
            final(self).sync_view().mutexes == old(self).sync_view().mutexes,
            final(self).sync_view().condvars == old(self).sync_view().condvars,
            final(self).blocked() == old(self).blocked(),
            final(self).unblocked() == old(self).unblocked(),
    ;

    /// Create state for a new condition variable.
    fn condvar_create(&mut self) -> (id: CondvarId)
        requires
            sync_wf(old(self).sync_view()),
            old(self).sync_view().condvars.len() < u32::MAX as usize,
        ensures
            sync_wf(final(self).sync_view()),
            id.wf(),
            id.idx() == old(self).sync_view().condvars.len(),
            id.raw() == old(self).sync_view().condvars.len() + 1,
            final(self).sync_view().condvars == old(self).sync_view().condvars.push(
                Seq::<CondvarWaiter>::empty(),
            ),
            final(self).sync_view().mutexes == old(self).sync_view().mutexes,
            final(self).sync_view().rwlocks == old(self).sync_view().rwlocks,
            final(self).blocked() == old(self).blocked(),
            final(self).unblocked() == old(self).unblocked(),
    ;

    /// Whether any thread waits on the condition variable.
    fn condvar_is_awaited(&mut self, id: CondvarId) -> (b: bool)
        requires
            sync_wf(old(self).sync_view()),
            valid_condvar(old(self).sync_view(), id),
        ensures
            *final(self) == *old(self),
            b == (condvar_at(old(self).sync_view(), id).len() > 0),
    ;

    /// Record that `thread` waits on the condition variable, paired with the
    /// mutex it released to do so.  A thread cannot wait twice on the same
    /// condvar.
    fn condvar_wait(&mut self, id: CondvarId, thread: ThreadId, mutex: MutexId)
        requires
            sync_wf(old(self).sync_view()),
            valid_condvar(old(self).sync_view(), id),
            !condvar_has_waiter(condvar_at(old(self).sync_view(), id), thread),
        ensures
            sync_wf(final(self).sync_view()),
            final(self).sync_view().condvars == old(self).sync_view().condvars.update(
                id.idx(),
                condvar_wait_next(condvar_at(old(self).sync_view(), id), thread, mutex),
            ),
            final(self).sync_view().mutexes == old(self).sync_view().mutexes,
            final(self).sync_view().rwlocks == old(self).sync_view().rwlocks,
            final(self).blocked() == old(self).blocked(),
            final(self).unblocked() == old(self).unblocked(),
    ;

    /// Wake the oldest waiter, if any: it leaves the waiter queue and is
    /// reported together with the mutex it has to reacquire.
    fn condvar_signal(&mut self, id: CondvarId) -> (r: Option<(ThreadId, MutexId)>)
        requires
            sync_wf(old(self).sync_view()),
            valid_condvar(old(self).sync_view(), id),
        ensures
            sync_wf(final(self).sync_view()),
            r == condvar_signal_next(condvar_at(old(self).sync_view(), id)).1,
            final(self).sync_view().condvars == old(self).sync_view().condvars.update(
                id.idx(),
                condvar_signal_next(condvar_at(old(self).sync_view(), id)).0,
            ),
            final(self).sync_view().mutexes == old(self).sync_view().mutexes,
            final(self).sync_view().rwlocks == old(self).sync_view().rwlocks,
            final(self).blocked() == old(self).blocked(),
            final(self).unblocked() == old(self).unblocked(),
    ;

    /// Withdraw `thread` from the waiter queue entirely, as on a timeout or
    /// a cancellation driven from outside.
    fn condvar_remove_waiter(&mut self, id: CondvarId, thread: ThreadId)
        requires
            sync_wf(old(self).sync_view()),
            valid_condvar(old(self).sync_view(), id),
        ensures
            sync_wf(final(self).sync_view()),
            final(self).sync_view().condvars == old(self).sync_view().condvars.update(
                id.idx(),
                condvar_remove_next(condvar_at(old(self).sync_view(), id), thread),
            ),
            final(self).sync_view().mutexes == old(self).sync_view().mutexes,
            final(self).sync_view().rwlocks == old(self).sync_view().rwlocks,
            final(self).blocked() == old(self).blocked(),
            final(self).unblocked() == old(self).unblocked(),
    ;
}

// ---------------------------------------------------------------------------
// Shared proof helpers
// ---------------------------------------------------------------------------

/// Replacing the element at `i` and leaving the rest alone updates the arena
/// view at `i`.
proof fn lemma_mutex_arena_set(s0: Seq<Mutex>, s1: Seq<Mutex>, i: int, xv: MutexView)
    requires
        0 <= i < s0.len(),
        s1.len() == s0.len(),
        s1[i]@ == xv,
        forall|j: int| 0 <= j < s1.len() && j != i ==> s1[j] == s0[j],
    ensures
        mutex_arena_view(s1) == mutex_arena_view(s0).update(i, xv),
{
    assert(mutex_arena_view(s1) =~= mutex_arena_view(s0).update(i, xv));
}

/// Appending an element appends its view to the arena view.
proof fn lemma_mutex_arena_push(s0: Seq<Mutex>, s1: Seq<Mutex>, xv: MutexView)
    requires
        s1.len() == s0.len() + 1,
        s1[s0.len() as int]@ == xv,
        forall|j: int| 0 <= j < s0.len() ==> s1[j] == s0[j],
    ensures
        mutex_arena_view(s1) == mutex_arena_view(s0).push(xv),
{
    assert(mutex_arena_view(s1) =~= mutex_arena_view(s0).push(xv));
}

/// A well-formed state stays well-formed when one more well-formed mutex is
/// appended.
proof fn lemma_sync_wf_mutex_push(v0: SyncView, v1: SyncView, m: MutexView)
    requires
        sync_wf(v0),
        v1.mutexes == v0.mutexes.push(m),
        v1.rwlocks == v0.rwlocks,
        v1.condvars == v0.condvars,
        mutex_wf(m),
    ensures
        sync_wf(v1),
{
    assert forall|j: int| 0 <= j < v1.mutexes.len() implies mutex_wf(#[trigger] v1.mutexes[j]) by {
        if j < v0.mutexes.len() {
            assert(v1.mutexes[j] == v0.mutexes[j]);
        }
    }
}

/// A well-formed state stays well-formed when one mutex is replaced by a
/// well-formed one.
proof fn lemma_sync_wf_mutex_update(v0: SyncView, v1: SyncView, i: int, m: MutexView)
    requires
        sync_wf(v0),
        0 <= i < v0.mutexes.len(),
        v1.mutexes == v0.mutexes.update(i, m),
        v1.rwlocks == v0.rwlocks,
        v1.condvars == v0.condvars,
        mutex_wf(m),
    ensures
        sync_wf(v1),
{
    assert forall|j: int| 0 <= j < v1.mutexes.len() implies mutex_wf(#[trigger] v1.mutexes[j]) by {
        if j != i {
            assert(v1.mutexes[j] == v0.mutexes[j]);
        }
    }
}

/// Dropping the head of a duplicate-free queue keeps it duplicate-free, keeps
/// every remaining thread a member, and removes the head.
proof fn lemma_queue_drop_first(q: Seq<ThreadId>)
    requires
        q.len() > 0,
        q.no_duplicates(),
    ensures
        q.drop_first().no_duplicates(),
        forall|t: ThreadId| #[trigger] q.drop_first().contains(t) ==> q.contains(t),
        !q.drop_first().contains(q[0]),
{
    assert forall|t: ThreadId| #[trigger] q.drop_first().contains(t) implies q.contains(t) by {
        let i: int = choose|i: int| 0 <= i < q.drop_first().len() && q.drop_first()[i] == t;
        assert(q[i + 1] == t);
    }
    if q.drop_first().contains(q[0]) {
        let i: int = choose|i: int| 0 <= i < q.drop_first().len() && q.drop_first()[i] == q[0];
        assert(q[i + 1] == q[0]);
        assert(false);
    }
}

/// `mutex_unlock` preserves well-formedness of the mutex it touches.
proof fn lemma_mutex_unlock_wf(m: MutexView, expected_owner: ThreadId)
    requires
        mutex_wf(m),
    ensures
        mutex_wf(mutex_unlock_next(m, expected_owner).0),
{
    if m.owner is Some && m.owner->0 == expected_owner && m.lock_count <= 1 && m.queue.len() > 0 {
        lemma_queue_drop_first(m.queue);
    }
}

/// Pushing a fresh thread onto a duplicate-free queue keeps it
/// duplicate-free; membership afterwards means prior membership or being the
/// pushed thread.
proof fn lemma_queue_push(q: Seq<ThreadId>, t: ThreadId)
    requires
        q.no_duplicates(),
        !q.contains(t),
    ensures
        q.push(t).no_duplicates(),
        forall|u: ThreadId| #[trigger] q.push(t).contains(u) <==> (q.contains(u) || u == t),
{
    assert forall|u: ThreadId| #[trigger] q.push(t).contains(u) implies (q.contains(u) || u == t) by {
        let i: int = choose|i: int| 0 <= i < q.push(t).len() && q.push(t)[i] == u;
        if i < q.len() {
            assert(q[i] == u);
        }
    }
    assert forall|u: ThreadId| (q.contains(u) || u == t) implies #[trigger] q.push(t).contains(
        u,
    ) by {
        if q.contains(u) {
            let i: int = choose|i: int| 0 <= i < q.len() && q[i] == u;
            assert(q.push(t)[i] == u);
        } else {
            assert(q.push(t)[q.len() as int] == u);
        }
    }
    assert forall|i: int, j: int|
        0 <= i < j < q.push(t).len() implies q.push(t)[i] != q.push(t)[j] by {
        if j == q.len() {
            assert(q.push(t)[i] == q[i]);
            if q[i] == t {
                assert(q.contains(t));
            }
        }
    }
}

/// The entry positions named by `reader_pos` are unique: if some entry at
/// `i` belongs to `t` and no thread owns two entries, then `i` is the
/// position.
pub proof fn lemma_reader_pos_unique(s: Seq<ReaderEntry>, t: ThreadId, i: int)
    requires
        readers_unique(s),
        0 <= i < s.len(),
        s[i].thread == t,
    ensures
        has_reader(s, t),
        reader_pos(s, t) == i,
{
    assert(has_reader(s, t));
    let j: int = reader_pos(s, t);
    assert(0 <= j < s.len() && s[j].thread == t);
    if j < i {
        assert(s[j].thread != s[i].thread);
    } else if i < j {
        assert(s[i].thread != s[j].thread);
    }
}

/// Replacing a thread's entry by another entry of the same thread keeps the
/// reader table duplicate-free and keeps the same threads in it.
pub proof fn lemma_readers_update(s: Seq<ReaderEntry>, p: int, e: ReaderEntry)
    requires
        readers_unique(s),
        0 <= p < s.len(),
        s[p].thread == e.thread,
    ensures
        readers_unique(s.update(p, e)),
        forall|t: ThreadId| #[trigger] has_reader(s.update(p, e), t) <==> has_reader(s, t),
{
    let s2 = s.update(p, e);
    assert forall|i: int, j: int| 0 <= i < j < s2.len() implies s2[i].thread != s2[j].thread by {
        assert(s[i].thread != s[j].thread);
    }
    assert forall|t: ThreadId| #[trigger] has_reader(s2, t) implies has_reader(s, t) by {
        let i: int = choose|i: int| 0 <= i < s2.len() && s2[i].thread == t;
        assert(s[i].thread == t);
    }
    assert forall|t: ThreadId| has_reader(s, t) implies #[trigger] has_reader(s2, t) by {
        let i: int = choose|i: int| 0 <= i < s.len() && s[i].thread == t;
        assert(s2[i].thread == t);
    }
}

/// Appending an entry for a thread that held nothing keeps the reader table
/// duplicate-free; membership afterwards means prior membership or being
/// that thread.
pub proof fn lemma_readers_push(s: Seq<ReaderEntry>, e: ReaderEntry)
    requires
        readers_unique(s),
        !has_reader(s, e.thread),
    ensures
        readers_unique(s.push(e)),
        forall|t: ThreadId| #[trigger] has_reader(s.push(e), t) <==> (has_reader(s, t) || t
            == e.thread),
{
    let s2 = s.push(e);
    assert forall|i: int, j: int| 0 <= i < j < s2.len() implies s2[i].thread != s2[j].thread by {
        if j == s.len() {
            assert(s2[i] == s[i]);
            if s[i].thread == e.thread {
                assert(has_reader(s, e.thread));
            }
        }
    }
    assert forall|t: ThreadId| #[trigger] has_reader(s2, t) implies (has_reader(s, t) || t
        == e.thread) by {
        let i: int = choose|i: int| 0 <= i < s2.len() && s2[i].thread == t;
        if i < s.len() {
            assert(s[i].thread == t);
        }
    }
    assert forall|t: ThreadId| (has_reader(s, t) || t == e.thread) implies #[trigger] has_reader(
        s2,
        t,
    ) by {
        if has_reader(s, t) {
            let i: int = choose|i: int| 0 <= i < s.len() && s[i].thread == t;
            assert(s2[i].thread == t);
        } else {
            assert(s2[s.len() as int].thread == t);
        }
    }
}

/// Removing a thread's entry keeps the reader table duplicate-free; the
/// removed thread holds nothing afterwards and every other membership is
/// unchanged.
proof fn lemma_readers_remove(s: Seq<ReaderEntry>, p: int)
    requires
        readers_unique(s),
        0 <= p < s.len(),
    ensures
        readers_unique(s.remove(p)),
        !has_reader(s.remove(p), s[p].thread),
        forall|t: ThreadId| #[trigger] has_reader(s.remove(p), t) ==> has_reader(s, t),
{
    let s2 = s.remove(p);
    s.remove_ensures(p);
    assert forall|i: int, j: int| 0 <= i < j < s2.len() implies s2[i].thread != s2[j].thread by {
        let i0: int = if i < p { i } else { i + 1 };
        let j0: int = if j < p { j } else { j + 1 };
        assert(s2[i] == s[i0]);
        assert(s2[j] == s[j0]);
        assert(s[i0].thread != s[j0].thread);
    }
    assert forall|t: ThreadId| #[trigger] has_reader(s2, t) implies has_reader(s, t) by {
        let i: int = choose|i: int| 0 <= i < s2.len() && s2[i].thread == t;
        let i0: int = if i < p { i } else { i + 1 };
        assert(s2[i] == s[i0]);
        assert(s[i0].thread == t);
    }
    if has_reader(s2, s[p].thread) {
        let i: int = choose|i: int| 0 <= i < s2.len() && s2[i].thread == s[p].thread;
        let i0: int = if i < p { i } else { i + 1 };
        assert(s2[i] == s[i0]);
        assert(i0 != p);
        if i0 < p {
            assert(s[i0].thread != s[p].thread);
        } else {
            assert(s[p].thread != s[i0].thread);
        }
        assert(false);
    }
}

/// `rwlock_reader_lock` preserves well-formedness of the lock it touches.
proof fn lemma_rwlock_reader_lock_wf(r: RwLockView, t: ThreadId)
    requires
        rwlock_wf(r),
        r.writer is None,
        reader_count(r.readers, t) < usize::MAX,
        !r.writer_queue.contains(t),
        !r.reader_queue.contains(t),
    ensures
        rwlock_wf(rwlock_reader_lock_next(r, t)),
{
    let r2 = rwlock_reader_lock_next(r, t);
    if has_reader(r.readers, t) {
        let p = reader_pos(r.readers, t);
        assert(0 <= p < r.readers.len() && r.readers[p].thread == t);
        lemma_readers_update(r.readers, p, ReaderEntry { thread: t, count: (r.readers[p].count + 1) as usize });
        assert forall|i: int| 0 <= i < r2.readers.len() implies (#[trigger] r2.readers[i]).count
            >= 1 by {
            if i != p {
                assert(r2.readers[i] == r.readers[i]);
            }
        }
    } else {
        lemma_readers_push(r.readers, ReaderEntry { thread: t, count: 1 });
        assert forall|i: int| 0 <= i < r2.readers.len() implies (#[trigger] r2.readers[i]).count
            >= 1 by {
            if i < r.readers.len() {
                assert(r2.readers[i] == r.readers[i]);
            }
        }
    }
}

/// `rwlock_reader_unlock` preserves well-formedness of the lock it touches.
proof fn lemma_rwlock_reader_unlock_wf(r: RwLockView, t: ThreadId)
    requires
        rwlock_wf(r),
    ensures
        rwlock_wf(rwlock_reader_unlock_next(r, t).0),
{
    let r2 = rwlock_reader_unlock_next(r, t).0;
    if has_reader(r.readers, t) {
        let p = reader_pos(r.readers, t);
        assert(0 <= p < r.readers.len() && r.readers[p].thread == t);
        assert(r.writer is None);
        if r.readers[p].count <= 1 {
            lemma_readers_remove(r.readers, p);
            assert forall|i: int| 0 <= i < r2.readers.len() implies (#[trigger] r2.readers[i]).count
                >= 1 by {
                r.readers.remove_ensures(p);
                let i0: int = if i < p { i } else { i + 1 };
                assert(r2.readers[i] == r.readers[i0]);
            }
        } else {
            lemma_readers_update(r.readers, p, ReaderEntry { thread: t, count: (r.readers[p].count - 1) as usize });
            assert forall|i: int| 0 <= i < r2.readers.len() implies (#[trigger] r2.readers[i]).count
                >= 1 by {
                if i != p {
                    assert(r2.readers[i] == r.readers[i]);
                }
            }
        }
    }
}

/// `rwlock_enqueue_and_block_reader` preserves well-formedness.
proof fn lemma_rwlock_enqueue_reader_wf(r: RwLockView, t: ThreadId)
    requires
        rwlock_wf(r),
        r.writer is Some,
        r.writer->0 != t,
        !r.writer_queue.contains(t),
        !r.reader_queue.contains(t),
    ensures
        rwlock_wf(rwlock_enqueue_reader_next(r, t)),
{
    lemma_queue_push(r.reader_queue, t);
}

/// `rwlock_enqueue_and_block_writer` preserves well-formedness.
proof fn lemma_rwlock_enqueue_writer_wf(r: RwLockView, t: ThreadId)
    requires
        rwlock_wf(r),
        r.writer is Some ==> r.writer->0 != t,
        !has_reader(r.readers, t),
        !r.writer_queue.contains(t),
        !r.reader_queue.contains(t),
    ensures
        rwlock_wf(rwlock_enqueue_writer_next(r, t)),
{
    lemma_queue_push(r.writer_queue, t);
}

/// Dequeuing a reader preserves well-formedness.
proof fn lemma_rwlock_dequeue_reader_wf(r: RwLockView)
    requires
        rwlock_wf(r),
    ensures
        rwlock_wf(rwlock_dequeue_reader_next(r).0),
{
    if r.reader_queue.len() > 0 {
        lemma_queue_drop_first(r.reader_queue);
    }
}

/// Dequeuing a writer preserves well-formedness.
proof fn lemma_rwlock_dequeue_writer_wf(r: RwLockView)
    requires
        rwlock_wf(r),
    ensures
        rwlock_wf(rwlock_dequeue_writer_next(r).0),
{
    if r.writer_queue.len() > 0 {
        lemma_queue_drop_first(r.writer_queue);
    }
}

/// Replacing the element at `i` and leaving the rest alone updates the
/// rwlock arena view at `i`.
proof fn lemma_rwlock_arena_set(s0: Seq<RwLock>, s1: Seq<RwLock>, i: int, xv: RwLockView)
    requires
        0 <= i < s0.len(),
        s1.len() == s0.len(),
        s1[i]@ == xv,
        forall|j: int| 0 <= j < s1.len() && j != i ==> s1[j] == s0[j],
    ensures
        rwlock_arena_view(s1) == rwlock_arena_view(s0).update(i, xv),
{
    assert(rwlock_arena_view(s1) =~= rwlock_arena_view(s0).update(i, xv));
}

/// Appending an element appends its view to the rwlock arena view.
proof fn lemma_rwlock_arena_push(s0: Seq<RwLock>, s1: Seq<RwLock>, xv: RwLockView)
    requires
        s1.len() == s0.len() + 1,
        s1[s0.len() as int]@ == xv,
        forall|j: int| 0 <= j < s0.len() ==> s1[j] == s0[j],
    ensures
        rwlock_arena_view(s1) == rwlock_arena_view(s0).push(xv),
{
    assert(rwlock_arena_view(s1) =~= rwlock_arena_view(s0).push(xv));
}

/// A well-formed state stays well-formed when one more well-formed rwlock is
/// appended.
proof fn lemma_sync_wf_rwlock_push(v0: SyncView, v1: SyncView, r: RwLockView)
    requires
        sync_wf(v0),
        v1.rwlocks == v0.rwlocks.push(r),
        v1.mutexes == v0.mutexes,
        v1.condvars == v0.condvars,
        rwlock_wf(r),
    ensures
        sync_wf(v1),
{
    assert forall|j: int| 0 <= j < v1.rwlocks.len() implies rwlock_wf(#[trigger] v1.rwlocks[j]) by {
        if j < v0.rwlocks.len() {
            assert(v1.rwlocks[j] == v0.rwlocks[j]);
        }
    }
}

/// A well-formed state stays well-formed when one rwlock is replaced by a
/// well-formed one.
proof fn lemma_sync_wf_rwlock_update(v0: SyncView, v1: SyncView, i: int, r: RwLockView)
    requires
        sync_wf(v0),
        0 <= i < v0.rwlocks.len(),
        v1.rwlocks == v0.rwlocks.update(i, r),
        v1.mutexes == v0.mutexes,
        v1.condvars == v0.condvars,
        rwlock_wf(r),
    ensures
        sync_wf(v1),
{
    assert forall|j: int| 0 <= j < v1.rwlocks.len() implies rwlock_wf(#[trigger] v1.rwlocks[j]) by {
        if j != i {
            assert(v1.rwlocks[j] == v0.rwlocks[j]);
        }
    }
}

/// Find the entry of thread `t` in a reader table.
fn find_reader(s: &Vec<ReaderEntry>, t: ThreadId) -> (r: Option<usize>)
    ensures
        match r {
            Some(i) => i < s@.len() && s@[i as int].thread == t,
            None => !has_reader(s@, t),
        },
{
    let mut i: usize = 0;
    while i < s.len()
        invariant
            i <= s@.len(),
            forall|j: int| 0 <= j < i ==> s@[j].thread != t,
        decreases s@.len() - i,
    {
        if s[i].thread == t {
            return Some(i);
        }
        i = i + 1;
    }
    None
}

/// Removing a thread from an empty waiter queue leaves it empty.
pub proof fn lemma_condvar_remove_empty(thread: ThreadId)
    ensures
        condvar_remove_next(Seq::<CondvarWaiter>::empty(), thread) == Seq::<CondvarWaiter>::empty(),
{
    reveal(Seq::filter);
}

/// Removing a thread from a waiter queue handles the last waiter separately:
/// it stays exactly when it belongs to a different thread.
pub proof fn lemma_condvar_remove_push(q: Seq<CondvarWaiter>, x: CondvarWaiter, thread: ThreadId)
    ensures
        condvar_remove_next(q.push(x), thread) == (if x.thread != thread {
            condvar_remove_next(q, thread).push(x)
        } else {
            condvar_remove_next(q, thread)
        }),
{
    reveal(Seq::filter);
    assert(q.push(x).drop_last() =~= q);
    assert(q.push(x).last() == x);
}

/// A new waiter for a thread that is not yet waiting keeps the waiter queue
/// free of duplicate threads.
proof fn lemma_condvar_wait_wf(w: Seq<CondvarWaiter>, thread: ThreadId, mutex: MutexId)
    requires
        condvar_wf(w),
        !condvar_has_waiter(w, thread),
    ensures
        condvar_wf(condvar_wait_next(w, thread, mutex)),
{
    let w2 = condvar_wait_next(w, thread, mutex);
    assert forall|i: int, j: int| 0 <= i < j < w2.len() implies w2[i].thread != w2[j].thread by {
        if j == w.len() {
            assert(w2[i] == w[i]);
            if w[i].thread == thread {
                assert(condvar_has_waiter(w, thread));
            }
        }
    }
}

/// Waking the oldest waiter keeps the waiter queue free of duplicate
/// threads.
proof fn lemma_condvar_signal_wf(w: Seq<CondvarWaiter>)
    requires
        condvar_wf(w),
    ensures
        condvar_wf(condvar_signal_next(w).0),
{
    if w.len() > 0 {
        let w2 = w.drop_first();
        assert forall|i: int, j: int| 0 <= i < j < w2.len() implies w2[i].thread != w2[j].thread by {
            assert(w2[i] == w[i + 1]);
            assert(w2[j] == w[j + 1]);
        }
    }
}

/// Replacing the element at `i` and leaving the rest alone updates the
/// condvar arena view at `i`.
proof fn lemma_condvar_arena_set(s0: Seq<Condvar>, s1: Seq<Condvar>, i: int, xv: Seq<CondvarWaiter>)
    requires
        0 <= i < s0.len(),
        s1.len() == s0.len(),
        s1[i]@ == xv,
        forall|j: int| 0 <= j < s1.len() && j != i ==> s1[j] == s0[j],
    ensures
        condvar_arena_view(s1) == condvar_arena_view(s0).update(i, xv),
{
    assert(condvar_arena_view(s1) =~= condvar_arena_view(s0).update(i, xv));
}

/// Appending an element appends its view to the condvar arena view.
proof fn lemma_condvar_arena_push(s0: Seq<Condvar>, s1: Seq<Condvar>, xv: Seq<CondvarWaiter>)
    requires
        s1.len() == s0.len() + 1,
        s1[s0.len() as int]@ == xv,
        forall|j: int| 0 <= j < s0.len() ==> s1[j] == s0[j],
    ensures
        condvar_arena_view(s1) == condvar_arena_view(s0).push(xv),
{
    assert(condvar_arena_view(s1) =~= condvar_arena_view(s0).push(xv));
}

/// A well-formed state stays well-formed when one more well-formed condvar
/// is appended.
proof fn lemma_sync_wf_condvar_push(v0: SyncView, v1: SyncView, w: Seq<CondvarWaiter>)
    requires
        sync_wf(v0),
        v1.condvars == v0.condvars.push(w),
        v1.mutexes == v0.mutexes,
        v1.rwlocks == v0.rwlocks,
        condvar_wf(w),
    ensures
        sync_wf(v1),
{
    assert forall|j: int| 0 <= j < v1.condvars.len() implies condvar_wf(
        #[trigger] v1.condvars[j],
    ) by {
        if j < v0.condvars.len() {
            assert(v1.condvars[j] == v0.condvars[j]);
        }
    }
}

/// A well-formed state stays well-formed when one condvar is replaced by a
/// well-formed one.
proof fn lemma_sync_wf_condvar_update(v0: SyncView, v1: SyncView, i: int, w: Seq<CondvarWaiter>)
    requires
        sync_wf(v0),
        0 <= i < v0.condvars.len(),
        v1.condvars == v0.condvars.update(i, w),
        v1.mutexes == v0.mutexes,
        v1.rwlocks == v0.rwlocks,
        condvar_wf(w),
    ensures
        sync_wf(v1),
{
    assert forall|j: int| 0 <= j < v1.condvars.len() implies condvar_wf(
        #[trigger] v1.condvars[j],
    ) by {
        if j != i {
            assert(v1.condvars[j] == v0.condvars[j]);
        }
    }
}

/// Rebuild a waiter queue without the entries of one thread.
fn remove_thread_waiters(w: &VecDeque<CondvarWaiter>, thread: ThreadId) -> (r: VecDeque<
    CondvarWaiter,
>)
    requires
        condvar_wf(w@),
    ensures
        r@ == condvar_remove_next(w@, thread),
        condvar_wf(r@),
{
    let mut out: VecDeque<CondvarWaiter> = VecDeque::new();
    let mut i: usize = 0;
    proof {
        lemma_condvar_remove_empty(thread);
        assert(w@.subrange(0, 0) =~= Seq::<CondvarWaiter>::empty());
    }
    while i < w.len()
        invariant
            i <= w@.len(),
            condvar_wf(w@),
            out@ == condvar_remove_next(w@.subrange(0, i as int), thread),
            condvar_wf(out@),
            forall|t: ThreadId| #[trigger] condvar_has_waiter(out@, t) ==> condvar_has_waiter(
                w@.subrange(0, i as int),
                t,
            ),
        decreases w@.len() - i,
    {
        let x = w[i];
        proof {
            assert(w@.subrange(0, i + 1) =~= w@.subrange(0, i as int).push(w@[i as int]));
            lemma_condvar_remove_push(w@.subrange(0, i as int), w@[i as int], thread);
        }
        let ghost out_pre = out@;
        if x.thread != thread {
            proof {
                if condvar_has_waiter(out@, x.thread) {
                    assert(condvar_has_waiter(w@.subrange(0, i as int), x.thread));
                    let k: int = choose|k: int|
                        0 <= k < i && w@.subrange(0, i as int)[k].thread == x.thread;
                    assert(w@[k].thread == w@[i as int].thread);
                    assert(false);
                }
            }
            out.push_back(x);
            proof {
                assert forall|a: int, b: int|
                    0 <= a < b < out@.len() implies out@[a].thread != out@[b].thread by {
                    if b == out@.len() - 1 {
                        assert(out@[a] == out_pre[a]);
                        if out_pre[a].thread == x.thread {
                            assert(condvar_has_waiter(out_pre, x.thread));
                        }
                    }
                }
            }
        }
        proof {
            assert forall|t: ThreadId| #[trigger] condvar_has_waiter(out@, t) implies
                condvar_has_waiter(w@.subrange(0, i + 1), t) by {
                let k: int = choose|k: int| 0 <= k < out@.len() && out@[k].thread == t;
                if k < out_pre.len() {
                    assert(out_pre[k].thread == t);
                    assert(condvar_has_waiter(out_pre, t));
                    let k2: int = choose|k2: int|
                        0 <= k2 < i && w@.subrange(0, i as int)[k2].thread == t;
                    assert(w@.subrange(0, i + 1)[k2].thread == t);
                } else {
                    assert(out@[k] == x);
                    assert(w@.subrange(0, i + 1)[i as int].thread == t);
                }
            }
        }
        i = i + 1;
    }
    proof {
        assert(w@.subrange(0, w@.len() as int) =~= w@);
    }
    out
}

// ---------------------------------------------------------------------------
// The implementation
// ---------------------------------------------------------------------------

impl EvalContextExt for EvalContext {
    closed spec fn sync_view(&self) -> SyncView {
        self.sync@
    }

    closed spec fn blocked(&self) -> Seq<ThreadId> {
        self.block_requests@
    }

    closed spec fn unblocked(&self) -> Seq<ThreadId> {
        self.unblock_requests@
    }

    fn mutex_create(&mut self) -> (id: MutexId) {
        let n: usize = self.sync.mutexes.len();
        let m = Mutex { owner: None, lock_count: 0, queue: VecDeque::new() };
        proof {
            assert(m@ =~= mutex_init());
        }
        self.sync.mutexes.push(m);
        proof {
            lemma_mutex_arena_push(old(self).sync.mutexes@, self.sync.mutexes@, mutex_init());
            lemma_sync_wf_mutex_push(old(self).sync_view(), self.sync_view(), mutex_init());
        }
        MutexId::new(n)
    }

    fn mutex_get_owner(&mut self, id: MutexId) -> (t: ThreadId) {
        let idx: usize = id.index();
        let m = &self.sync.mutexes[idx];
        m.owner.unwrap()
    }

    fn mutex_is_locked(&mut self, id: MutexId) -> (b: bool) {
        let idx: usize = id.index();
        let m = &self.sync.mutexes[idx];
        m.owner.is_some()
    }

    fn mutex_lock(&mut self, id: MutexId, thread: ThreadId) {
        let idx: usize = id.index();
        let mut m = self.sync.mutexes.remove(idx);
        if m.owner.is_none() {
            m.owner = Some(thread);
        }
        m.lock_count = m.lock_count + 1;
        let ghost mv = m@;
        self.sync.mutexes.insert(idx, m);
        proof {
            let v0 = old(self).sync_view();
            assert(mv =~= mutex_lock_next(mutex_at(v0, id), thread));
            lemma_mutex_arena_set(old(self).sync.mutexes@, self.sync.mutexes@, idx as int, mv);
            lemma_sync_wf_mutex_update(v0, self.sync_view(), idx as int, mv);
        }
    }

    fn mutex_unlock(&mut self, id: MutexId, expected_owner: ThreadId) -> (r: MutexUnlockResult) {
        let idx: usize = id.index();
        let ghost v0 = self.sync_view();
        let ghost m0 = mutex_at(v0, id);
        let mut m = self.sync.mutexes.remove(idx);
        let r: MutexUnlockResult;
        let mut woken: Option<ThreadId> = None;
        match m.owner {
            Some(current_owner) => {
                if current_owner != expected_owner {
                    // Only the owner can unlock the mutex.
                    r = MutexUnlockResult::NotOwner;
                } else {
                    let old_lock_count: usize = m.lock_count;
                    m.lock_count = old_lock_count - 1;
                    if m.lock_count == 0 {
                        // Completely unlocked: try to transfer ownership to
                        // the oldest waiter.
                        m.owner = None;
                        match m.queue.pop_front() {
                            Some(new_owner) => {
                                m.owner = Some(new_owner);
                                m.lock_count = 1;
                                woken = Some(new_owner);
                            },
                            None => {},
                        }
                    }
                    r = MutexUnlockResult::Unlocked(old_lock_count);
                }
            },
            None => {
                r = MutexUnlockResult::NotLocked;
            },
        }
        let ghost mv = m@;
        self.sync.mutexes.insert(idx, m);
        proof {
            assert(mv =~= mutex_unlock_next(m0, expected_owner).0);
            assert(r == mutex_unlock_next(m0, expected_owner).1);
            assert(woken == mutex_unlock_next(m0, expected_owner).2);
            lemma_mutex_arena_set(old(self).sync.mutexes@, self.sync.mutexes@, idx as int, mv);
            lemma_mutex_unlock_wf(m0, expected_owner);
            lemma_sync_wf_mutex_update(v0, self.sync_view(), idx as int, mv);
            assert(self.sync_view().mutexes == v0.mutexes.update(idx as int, mv));
        }
        match woken {
            Some(t) => self.unblock_thread(t),
            None => {},
        }
        r
    }

    fn mutex_enqueue(&mut self, id: MutexId, thread: ThreadId) {
        let idx: usize = id.index();
        let mut m = self.sync.mutexes.remove(idx);
        m.queue.push_back(thread);
        let ghost mv = m@;
        self.sync.mutexes.insert(idx, m);
        proof {
            let v0 = old(self).sync_view();
            assert(mv =~= mutex_enqueue_next(mutex_at(v0, id), thread));
            lemma_mutex_arena_set(old(self).sync.mutexes@, self.sync.mutexes@, idx as int, mv);
            lemma_sync_wf_mutex_update(v0, self.sync_view(), idx as int, mv);
        }
    }

    fn mutex_dequeue(&mut self, id: MutexId) -> (r: Option<ThreadId>) {
        let idx: usize = id.index();
        let ghost v0 = self.sync_view();
        let ghost m0 = mutex_at(v0, id);
        let mut m = self.sync.mutexes.remove(idx);
        let r = m.queue.pop_front();
        let ghost mv = m@;
        self.sync.mutexes.insert(idx, m);
        proof {
            assert(mv =~= mutex_dequeue_next(m0).0);
            assert(r == mutex_dequeue_next(m0).1);
            lemma_mutex_arena_set(old(self).sync.mutexes@, self.sync.mutexes@, idx as int, mv);
            if m0.queue.len() > 0 {
                lemma_queue_drop_first(m0.queue);
            }
            lemma_sync_wf_mutex_update(v0, self.sync_view(), idx as int, mv);
        }
        r
    }

    fn rwlock_create(&mut self) -> (id: RwLockId) {
        let n: usize = self.sync.rwlocks.len();
        let r = RwLock {
            writer: None,
            readers: Vec::new(),
            writer_queue: VecDeque::new(),
            reader_queue: VecDeque::new(),
        };
        proof {
            assert(r@ =~= rwlock_init());
        }
        self.sync.rwlocks.push(r);
        proof {
            lemma_rwlock_arena_push(old(self).sync.rwlocks@, self.sync.rwlocks@, rwlock_init());
            lemma_sync_wf_rwlock_push(old(self).sync_view(), self.sync_view(), rwlock_init());
        }
        RwLockId::new(n)
    }

    fn rwlock_is_locked(&mut self, id: RwLockId) -> (b: bool) {
        let idx: usize = id.index();
        let r = &self.sync.rwlocks[idx];
        r.writer.is_some() || !r.readers.is_empty()
    }

    fn rwlock_is_write_locked(&mut self, id: RwLockId) -> (b: bool) {
        let idx: usize = id.index();
        let r = &self.sync.rwlocks[idx];
        r.writer.is_some()
    }

    fn rwlock_reader_lock(&mut self, id: RwLockId, reader: ThreadId) {
        let idx: usize = id.index();
        let ghost v0 = self.sync_view();
        let ghost r0 = rwlock_at(v0, id);
        let mut r = self.sync.rwlocks.remove(idx);
        match find_reader(&r.readers, reader) {
            Some(i) => {
                let e = r.readers[i];
                proof {
                    lemma_reader_pos_unique(r0.readers, reader, i as int);
                }
                r.readers.set(i, ReaderEntry { thread: reader, count: e.count + 1 });
            },
            None => {
                r.readers.push(ReaderEntry { thread: reader, count: 1 });
            },
        }
        let ghost rv = r@;
        self.sync.rwlocks.insert(idx, r);
        proof {
            assert(rv =~= rwlock_reader_lock_next(r0, reader));
            lemma_rwlock_arena_set(old(self).sync.rwlocks@, self.sync.rwlocks@, idx as int, rv);
            lemma_rwlock_reader_lock_wf(r0, reader);
            lemma_sync_wf_rwlock_update(v0, self.sync_view(), idx as int, rv);
        }
    }

    fn rwlock_reader_unlock(&mut self, id: RwLockId, reader: ThreadId) -> (b: bool) {
        let idx: usize = id.index();
        let ghost v0 = self.sync_view();
        let ghost r0 = rwlock_at(v0, id);
        let mut r = self.sync.rwlocks.remove(idx);
        let b: bool;
        match find_reader(&r.readers, reader) {
            Some(i) => {
                let e = r.readers[i];
                proof {
                    lemma_reader_pos_unique(r0.readers, reader, i as int);
                }
                if e.count == 1 {
                    r.readers.remove(i);
                } else {
                    r.readers.set(i, ReaderEntry { thread: reader, count: e.count - 1 });
                }
                b = true;
            },
            None => {
                b = false;
            },
        }
        let ghost rv = r@;
        self.sync.rwlocks.insert(idx, r);
        proof {
            assert(rv =~= rwlock_reader_unlock_next(r0, reader).0);
            assert(b == rwlock_reader_unlock_next(r0, reader).1);
            if has_reader(r0.readers, reader) {
                assert(0 <= reader_pos(r0.readers, reader) < r0.readers.len());
            }
            lemma_rwlock_arena_set(old(self).sync.rwlocks@, self.sync.rwlocks@, idx as int, rv);
            lemma_rwlock_reader_unlock_wf(r0, reader);
            lemma_sync_wf_rwlock_update(v0, self.sync_view(), idx as int, rv);
        }
        b
    }

    fn rwlock_enqueue_and_block_reader(&mut self, id: RwLockId, reader: ThreadId) {
        let idx: usize = id.index();
        let ghost v0 = self.sync_view();
        let ghost r0 = rwlock_at(v0, id);
        let mut r = self.sync.rwlocks.remove(idx);
        r.reader_queue.push_back(reader);
        let ghost rv = r@;
        self.sync.rwlocks.insert(idx, r);
        proof {
            assert(rv =~= rwlock_enqueue_reader_next(r0, reader));
            lemma_rwlock_arena_set(old(self).sync.rwlocks@, self.sync.rwlocks@, idx as int, rv);
            lemma_rwlock_enqueue_reader_wf(r0, reader);
            lemma_sync_wf_rwlock_update(v0, self.sync_view(), idx as int, rv);
            assert(self.sync_view().rwlocks == v0.rwlocks.update(idx as int, rv));
        }
        self.block_thread(reader);
    }

    fn rwlock_dequeue_reader(&mut self, id: RwLockId) -> (r: Option<ThreadId>) {
        let idx: usize = id.index();
        let ghost v0 = self.sync_view();
        let ghost r0 = rwlock_at(v0, id);
        let mut rw = self.sync.rwlocks.remove(idx);
        let r = rw.reader_queue.pop_front();
        let ghost rv = rw@;
        self.sync.rwlocks.insert(idx, rw);
        proof {
            assert(rv =~= rwlock_dequeue_reader_next(r0).0);
            assert(r == rwlock_dequeue_reader_next(r0).1);
            lemma_rwlock_arena_set(old(self).sync.rwlocks@, self.sync.rwlocks@, idx as int, rv);
            lemma_rwlock_dequeue_reader_wf(r0);
            lemma_sync_wf_rwlock_update(v0, self.sync_view(), idx as int, rv);
        }
        r
    }

    fn rwlock_writer_lock(&mut self, id: RwLockId, writer: ThreadId) {
        let idx: usize = id.index();
        let ghost v0 = self.sync_view();
        let ghost r0 = rwlock_at(v0, id);
        let mut r = self.sync.rwlocks.remove(idx);
        r.writer = Some(writer);
        let ghost rv = r@;
        self.sync.rwlocks.insert(idx, r);
        proof {
            assert(rv =~= rwlock_writer_lock_next(r0, writer));
            lemma_rwlock_arena_set(old(self).sync.rwlocks@, self.sync.rwlocks@, idx as int, rv);
            lemma_sync_wf_rwlock_update(v0, self.sync_view(), idx as int, rv);
        }
    }

    fn rwlock_writer_unlock(&mut self, id: RwLockId) -> (r: Option<ThreadId>) {
        let idx: usize = id.index();
        let ghost v0 = self.sync_view();
        let ghost r0 = rwlock_at(v0, id);
        let mut rw = self.sync.rwlocks.remove(idx);
        let r = rw.writer;
        rw.writer = None;
        let ghost rv = rw@;
        self.sync.rwlocks.insert(idx, rw);
        proof {
            assert(rv =~= rwlock_writer_unlock_next(r0).0);
            lemma_rwlock_arena_set(old(self).sync.rwlocks@, self.sync.rwlocks@, idx as int, rv);
            lemma_sync_wf_rwlock_update(v0, self.sync_view(), idx as int, rv);
        }
        r
    }

    fn rwlock_enqueue_and_block_writer(&mut self, id: RwLockId, writer: ThreadId) {
        let idx: usize = id.index();
        let ghost v0 = self.sync_view();
        let ghost r0 = rwlock_at(v0, id);
        let mut r = self.sync.rwlocks.remove(idx);
        r.writer_queue.push_back(writer);
        let ghost rv = r@;
        self.sync.rwlocks.insert(idx, r);
        proof {
            assert(rv =~= rwlock_enqueue_writer_next(r0, writer));
            lemma_rwlock_arena_set(old(self).sync.rwlocks@, self.sync.rwlocks@, idx as int, rv);
            lemma_rwlock_enqueue_writer_wf(r0, writer);
            lemma_sync_wf_rwlock_update(v0, self.sync_view(), idx as int, rv);
            assert(self.sync_view().rwlocks == v0.rwlocks.update(idx as int, rv));
        }
        self.block_thread(writer);
    }

    fn rwlock_dequeue_writer(&mut self, id: RwLockId) -> (r: Option<ThreadId>) {
        let idx: usize = id.index();
        let ghost v0 = self.sync_view();
        let ghost r0 = rwlock_at(v0, id);
        let mut rw = self.sync.rwlocks.remove(idx);
        let r = rw.writer_queue.pop_front();
        let ghost rv = rw@;
        self.sync.rwlocks.insert(idx, rw);
        proof {
            assert(rv =~= rwlock_dequeue_writer_next(r0).0);
            assert(r == rwlock_dequeue_writer_next(r0).1);
            lemma_rwlock_arena_set(old(self).sync.rwlocks@, self.sync.rwlocks@, idx as int, rv);
            lemma_rwlock_dequeue_writer_wf(r0);
            lemma_sync_wf_rwlock_update(v0, self.sync_view(), idx as int, rv);
        }
        r
    }

    fn condvar_create(&mut self) -> (id: CondvarId) {
        let n: usize = self.sync.condvars.len();
        let c = Condvar { waiters: VecDeque::new() };
        proof {
            assert(c@ =~= Seq::<CondvarWaiter>::empty());
        }
        self.sync.condvars.push(c);
        proof {
            lemma_condvar_arena_push(
                old(self).sync.condvars@,
                self.sync.condvars@,
                Seq::<CondvarWaiter>::empty(),
            );
            lemma_sync_wf_condvar_push(
                old(self).sync_view(),
                self.sync_view(),
                Seq::<CondvarWaiter>::empty(),
            );
        }
        CondvarId::new(n)
    }

    fn condvar_is_awaited(&mut self, id: CondvarId) -> (b: bool) {
        let idx: usize = id.index();
        let c = &self.sync.condvars[idx];
        c.waiters.len() > 0
    }

    fn condvar_wait(&mut self, id: CondvarId, thread: ThreadId, mutex: MutexId) {
        let idx: usize = id.index();
        let ghost v0 = self.sync_view();
        let ghost w0 = condvar_at(v0, id);
        let mut c = self.sync.condvars.remove(idx);
        c.waiters.push_back(CondvarWaiter { thread, mutex });
        let ghost cv = c@;
        self.sync.condvars.insert(idx, c);
        proof {
            assert(cv =~= condvar_wait_next(w0, thread, mutex));
            lemma_condvar_arena_set(old(self).sync.condvars@, self.sync.condvars@, idx as int, cv);
            lemma_condvar_wait_wf(w0, thread, mutex);
            lemma_sync_wf_condvar_update(v0, self.sync_view(), idx as int, cv);
        }
    }

    fn condvar_signal(&mut self, id: CondvarId) -> (r: Option<(ThreadId, MutexId)>) {
        let idx: usize = id.index();
        let ghost v0 = self.sync_view();
        let ghost w0 = condvar_at(v0, id);
        let mut c = self.sync.condvars.remove(idx);
        let r = match c.waiters.pop_front() {
            Some(waiter) => Some((waiter.thread, waiter.mutex)),
            None => None,
        };
        let ghost cv = c@;
        self.sync.condvars.insert(idx, c);
        proof {
            assert(cv =~= condvar_signal_next(w0).0);
            assert(r == condvar_signal_next(w0).1);
            lemma_condvar_arena_set(old(self).sync.condvars@, self.sync.condvars@, idx as int, cv);
            lemma_condvar_signal_wf(w0);
            lemma_sync_wf_condvar_update(v0, self.sync_view(), idx as int, cv);
        }
        r
    }

    fn condvar_remove_waiter(&mut self, id: CondvarId, thread: ThreadId) {
        let idx: usize = id.index();
        let ghost v0 = self.sync_view();
        let ghost w0 = condvar_at(v0, id);
        let mut c = self.sync.condvars.remove(idx);
        let kept = remove_thread_waiters(&c.waiters, thread);
        c.waiters = kept;
        let ghost cv = c@;
        self.sync.condvars.insert(idx, c);
        proof {
            assert(cv =~= condvar_remove_next(w0, thread));
            lemma_condvar_arena_set(old(self).sync.condvars@, self.sync.condvars@, idx as int, cv);
            lemma_sync_wf_condvar_update(v0, self.sync_view(), idx as int, cv);
        }
    }
}

} // verus!
