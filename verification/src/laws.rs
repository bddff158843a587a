//! Round-trip laws of the synchronization operations.
//!
//! Each lemma here relates several operations through the transition
//! functions their contracts are stated with: locking and unlocking a mutex,
//! acquiring and releasing a read lock any number of times, and registering
//! and withdrawing a condvar waiter all restore the state they started from.

use vstd::prelude::*;

use crate::ids::{MutexId, ThreadId};
use crate::sync::{
    condvar_has_waiter, condvar_remove_next, condvar_wait_next, condvar_wf, has_reader,
    lemma_condvar_remove_empty, lemma_condvar_remove_push, lemma_reader_pos_unique,
    lemma_readers_push, lemma_readers_update, mutex_lock_next, mutex_unlock_next, mutex_wf,
    reader_count, reader_pos, readers_unique, rwlock_reader_lock_next, rwlock_reader_unlock_next,
    rwlock_wf, CondvarWaiter, MutexUnlockResult, MutexView, ReaderEntry, RwLockView,
};

verus! {

// ---------------------------------------------------------------------------
// Mutex: lock then unlock
// ---------------------------------------------------------------------------

/// Locking and then unlocking a fully unlocked mutex returns it to its
/// original state, reports an unlock from count 1, and hands ownership to
/// nobody.
///
/// The law asks for an empty wait queue: on an unlocked mutex whose queue
/// still held a thread, the unlock would hand the mutex over instead.  Such
/// a state cannot arise from the operations themselves, which only enqueue
/// on a locked mutex.
pub proof fn lemma_mutex_lock_unlock_roundtrip(m: MutexView, t: ThreadId)
    requires
        mutex_wf(m),
        m.owner is None,
        m.queue.len() == 0,
    ensures
        mutex_unlock_next(mutex_lock_next(m, t), t).0 == m,
        mutex_unlock_next(mutex_lock_next(m, t), t).1 == MutexUnlockResult::Unlocked(1),
        mutex_unlock_next(mutex_lock_next(m, t), t).2 == None::<ThreadId>,
{
    let m2 = mutex_lock_next(m, t);
    assert(m.lock_count == 0);
    assert(m2.lock_count == 1);
    assert(mutex_unlock_next(m2, t).0 =~= m);
}

// ---------------------------------------------------------------------------
// RwLock: k read locks then k read unlocks
// ---------------------------------------------------------------------------

/// The reader table is internally consistent: entries are unique per thread
/// and every count is positive.
pub open spec fn readers_ok(s: Seq<ReaderEntry>) -> bool {
    &&& readers_unique(s)
    &&& forall|i: int| 0 <= i < s.len() ==> (#[trigger] s[i]).count >= 1
}

/// The rwlock after `k` successive `reader_lock` steps by thread `t`.
pub open spec fn reader_lock_iter(r: RwLockView, t: ThreadId, k: nat) -> RwLockView
    decreases k,
{
    if k == 0 {
        r
    } else {
        rwlock_reader_lock_next(reader_lock_iter(r, t, (k - 1) as nat), t)
    }
}

/// The rwlock after `k` successive `reader_unlock` steps by thread `t`.
pub open spec fn reader_unlock_iter(r: RwLockView, t: ThreadId, k: nat) -> RwLockView
    decreases k,
{
    if k == 0 {
        r
    } else {
        reader_unlock_iter(rwlock_reader_unlock_next(r, t).0, t, (k - 1) as nat)
    }
}

/// One `reader_lock` step keeps the reader table consistent and raises the
/// thread's count by exactly one.
proof fn lemma_reader_lock_step(r: RwLockView, t: ThreadId)
    requires
        readers_ok(r.readers),
        reader_count(r.readers, t) < usize::MAX,
    ensures
        readers_ok(rwlock_reader_lock_next(r, t).readers),
        reader_count(rwlock_reader_lock_next(r, t).readers, t) == reader_count(r.readers, t) + 1,
{
    let s = r.readers;
    let s2 = rwlock_reader_lock_next(r, t).readers;
    if has_reader(s, t) {
        let p = reader_pos(s, t);
        assert(0 <= p < s.len() && s[p].thread == t);
        let e = ReaderEntry { thread: t, count: (s[p].count + 1) as usize };
        lemma_readers_update(s, p, e);
        assert forall|i: int| 0 <= i < s2.len() implies (#[trigger] s2[i]).count >= 1 by {
            if i != p {
                assert(s2[i] == s[i]);
            }
        }
        lemma_reader_pos_unique(s2, t, p);
    } else {
        let e = ReaderEntry { thread: t, count: 1 };
        lemma_readers_push(s, e);
        assert forall|i: int| 0 <= i < s2.len() implies (#[trigger] s2[i]).count >= 1 by {
            if i < s.len() {
                assert(s2[i] == s[i]);
            }
        }
        lemma_reader_pos_unique(s2, t, s.len() as int);
    }
}

/// Releasing a read lock immediately after acquiring one undoes it exactly,
/// and reports that the thread did hold the lock.
proof fn lemma_reader_unlock_after_lock(r: RwLockView, t: ThreadId)
    requires
        readers_ok(r.readers),
        reader_count(r.readers, t) < usize::MAX,
    ensures
        rwlock_reader_unlock_next(rwlock_reader_lock_next(r, t), t).0 == r,
        rwlock_reader_unlock_next(rwlock_reader_lock_next(r, t), t).1,
{
    let s = r.readers;
    let r2 = rwlock_reader_lock_next(r, t);
    let s2 = r2.readers;
    if has_reader(s, t) {
        let p = reader_pos(s, t);
        assert(0 <= p < s.len() && s[p].thread == t);
        let c = s[p].count;
        lemma_readers_update(s, p, ReaderEntry { thread: t, count: (c + 1) as usize });
        lemma_reader_pos_unique(s2, t, p);
        assert(s2[p].count == c + 1);
        assert(c >= 1);
        let s3 = rwlock_reader_unlock_next(r2, t).0.readers;
        assert(s3 == s2.update(p, ReaderEntry { thread: t, count: c }));
        assert(ReaderEntry { thread: t, count: c } == s[p]);
        assert(s3 =~= s);
        assert(rwlock_reader_unlock_next(r2, t).0 =~= r);
    } else {
        let e = ReaderEntry { thread: t, count: 1 };
        lemma_readers_push(s, e);
        lemma_reader_pos_unique(s2, t, s.len() as int);
        assert(s2[s.len() as int].count == 1);
        let s3 = rwlock_reader_unlock_next(r2, t).0.readers;
        assert(s3 == s2.remove(s.len() as int));
        assert(s3 =~= s);
        assert(rwlock_reader_unlock_next(r2, t).0 =~= r);
    }
}

/// After `k` lock steps the reader table is still consistent, the thread's
/// count has grown by `k`, and nothing else about the lock has changed.
proof fn lemma_reader_lock_iter_props(r: RwLockView, t: ThreadId, k: nat)
    requires
        readers_ok(r.readers),
        reader_count(r.readers, t) + k <= usize::MAX,
    ensures
        readers_ok(reader_lock_iter(r, t, k).readers),
        reader_count(reader_lock_iter(r, t, k).readers, t) == reader_count(r.readers, t) + k,
        reader_lock_iter(r, t, k).writer == r.writer,
        reader_lock_iter(r, t, k).writer_queue == r.writer_queue,
        reader_lock_iter(r, t, k).reader_queue == r.reader_queue,
    decreases k,
{
    if k > 0 {
        lemma_reader_lock_iter_props(r, t, (k - 1) as nat);
        lemma_reader_lock_step(reader_lock_iter(r, t, (k - 1) as nat), t);
    }
}

/// Acquiring a read lock `k` times and releasing it `k` times restores the
/// rwlock to its prior state.
pub proof fn lemma_reader_lock_unlock_iter(r: RwLockView, t: ThreadId, k: nat)
    requires
        rwlock_wf(r),
        r.writer is None,
        reader_count(r.readers, t) + k <= usize::MAX,
    ensures
        reader_unlock_iter(reader_lock_iter(r, t, k), t, k) == r,
{
    lemma_reader_iter_roundtrip(r, t, k);
}

/// The inductive core of `lemma_reader_lock_unlock_iter`, stated over the
/// lighter invariant that the iteration actually preserves.
proof fn lemma_reader_iter_roundtrip(r: RwLockView, t: ThreadId, k: nat)
    requires
        readers_ok(r.readers),
        reader_count(r.readers, t) + k <= usize::MAX,
    ensures
        reader_unlock_iter(reader_lock_iter(r, t, k), t, k) == r,
    decreases k,
{
    if k > 0 {
        let prev = reader_lock_iter(r, t, (k - 1) as nat);
        lemma_reader_lock_iter_props(r, t, (k - 1) as nat);
        lemma_reader_unlock_after_lock(prev, t);
        lemma_reader_iter_roundtrip(r, t, (k - 1) as nat);
    }
}

// ---------------------------------------------------------------------------
// Condvar: wait then remove
// ---------------------------------------------------------------------------

/// Removing a thread that does not wait leaves the waiter queue untouched.
pub proof fn lemma_condvar_remove_absent(w: Seq<CondvarWaiter>, thread: ThreadId)
    requires
        !condvar_has_waiter(w, thread),
    ensures
        condvar_remove_next(w, thread) == w,
    decreases w.len(),
{
    if w.len() == 0 {
        lemma_condvar_remove_empty(thread);
        assert(condvar_remove_next(w, thread) == w);
    } else {
        let q = w.drop_last();
        assert(w =~= q.push(w.last()));
        assert forall|i: int| 0 <= i < q.len() implies q[i].thread != thread by {
            assert(q[i] == w[i]);
            if w[i].thread == thread {
                assert(condvar_has_waiter(w, thread));
            }
        }
        if condvar_has_waiter(q, thread) {
            let i: int = choose|i: int| 0 <= i < q.len() && q[i].thread == thread;
            assert(false);
        }
        lemma_condvar_remove_absent(q, thread);
        lemma_condvar_remove_push(q, w.last(), thread);
        if w.last().thread == thread {
            assert(w[w.len() - 1].thread == thread);
            assert(condvar_has_waiter(w, thread));
        }
        assert(condvar_remove_next(w, thread) == condvar_remove_next(q, thread).push(w.last()));
        assert(condvar_remove_next(q, thread).push(w.last()) =~= w);
    }
}

/// Registering a waiter and then withdrawing it leaves the condvar exactly
/// as it was before the wait.
pub proof fn lemma_wait_remove_roundtrip(w: Seq<CondvarWaiter>, thread: ThreadId, mutex: MutexId)
    requires
        condvar_wf(w),
        !condvar_has_waiter(w, thread),
    ensures
        condvar_remove_next(condvar_wait_next(w, thread, mutex), thread) == w,
{
    lemma_condvar_remove_push(w, CondvarWaiter { thread, mutex }, thread);
    lemma_condvar_remove_absent(w, thread);
}

} // verus!
