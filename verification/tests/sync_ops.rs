use sync_core::ids::{CondvarId, MutexId, RwLockId, ThreadId};
use sync_core::sync::{EvalContext, EvalContextExt, MutexUnlockResult};

#[test]
fn recursive_mutex_lock_unlock() {
    let mut ctx = EvalContext::new();
    let m = ctx.mutex_create();
    let t1 = ThreadId(1);
    ctx.mutex_lock(m, t1);
    ctx.mutex_lock(m, t1);
    assert_eq!(ctx.mutex_get_owner(m), t1);
    assert_eq!(ctx.mutex_unlock(m, t1), MutexUnlockResult::Unlocked(2));
    assert!(ctx.mutex_is_locked(m));
    assert_eq!(ctx.mutex_unlock(m, t1), MutexUnlockResult::Unlocked(1));
    assert!(!ctx.mutex_is_locked(m));
}

#[test]
fn mutex_handoff_to_oldest_waiter() {
    let mut ctx = EvalContext::new();
    let m = ctx.mutex_create();
    let (t1, t2, t3) = (ThreadId(1), ThreadId(2), ThreadId(3));
    ctx.mutex_lock(m, t1);
    ctx.mutex_enqueue(m, t2);
    ctx.mutex_enqueue(m, t3);
    assert_eq!(ctx.mutex_unlock(m, t1), MutexUnlockResult::Unlocked(1));
    assert!(ctx.mutex_is_locked(m));
    assert_eq!(ctx.mutex_get_owner(m), t2);
    assert_eq!(ctx.mutex_unlock(m, t2), MutexUnlockResult::Unlocked(1));
    assert_eq!(ctx.unblock_requests, vec![t2, t3]);
}

#[test]
fn mutex_handoff_requests_unblock_and_keeps_rest_queued() {
    let mut ctx = EvalContext::new();
    let m = ctx.mutex_create();
    let (t1, t2, t3) = (ThreadId(1), ThreadId(2), ThreadId(3));
    ctx.mutex_lock(m, t1);
    ctx.mutex_enqueue(m, t2);
    ctx.mutex_enqueue(m, t3);
    assert_eq!(ctx.mutex_unlock(m, t1), MutexUnlockResult::Unlocked(1));
    assert_eq!(ctx.mutex_get_owner(m), t2);
    assert_eq!(ctx.unblock_requests, vec![t2]);
    // T3 is still waiting.
    assert_eq!(ctx.mutex_dequeue(m), Some(t3));
    assert_eq!(ctx.mutex_dequeue(m), None);
}

#[test]
fn mutex_foreign_unlock_changes_nothing() {
    let mut ctx = EvalContext::new();
    let m = ctx.mutex_create();
    let (t1, t2) = (ThreadId(1), ThreadId(2));
    ctx.mutex_lock(m, t1);
    assert_eq!(ctx.mutex_unlock(m, t2), MutexUnlockResult::NotOwner);
    assert!(ctx.mutex_is_locked(m));
    assert_eq!(ctx.mutex_get_owner(m), t1);
    assert_eq!(ctx.mutex_unlock(m, t1), MutexUnlockResult::Unlocked(1));
}

#[test]
fn mutex_unlock_when_unlocked_reports_not_locked() {
    let mut ctx = EvalContext::new();
    let m = ctx.mutex_create();
    assert_eq!(ctx.mutex_unlock(m, ThreadId(1)), MutexUnlockResult::NotLocked);
    assert!(!ctx.mutex_is_locked(m));
}

#[test]
fn mutex_lock_then_unlock_restores_unlocked_state() {
    let mut ctx = EvalContext::new();
    let m = ctx.mutex_create();
    let t = ThreadId(5);
    ctx.mutex_lock(m, t);
    assert_eq!(ctx.mutex_unlock(m, t), MutexUnlockResult::Unlocked(1));
    assert!(!ctx.mutex_is_locked(m));
    // No successor handoff happened.
    assert!(ctx.unblock_requests.is_empty());
    assert_eq!(ctx.mutex_dequeue(m), None);
}

#[test]
fn mutex_dequeue_on_empty_queue() {
    let mut ctx = EvalContext::new();
    let m = ctx.mutex_create();
    assert_eq!(ctx.mutex_dequeue(m), None);
}

#[test]
fn rwlock_reader_recounts() {
    let mut ctx = EvalContext::new();
    let l = ctx.rwlock_create();
    let (t1, t2, t3) = (ThreadId(1), ThreadId(2), ThreadId(3));
    ctx.rwlock_reader_lock(l, t1);
    ctx.rwlock_reader_lock(l, t1);
    ctx.rwlock_reader_lock(l, t2);
    assert!(ctx.rwlock_is_locked(l));
    assert!(!ctx.rwlock_is_write_locked(l));
    assert!(ctx.rwlock_reader_unlock(l, t1));
    assert!(ctx.rwlock_reader_unlock(l, t2));
    // Readers are now {T1: 1}.
    assert!(!ctx.rwlock_reader_unlock(l, t3));
    assert!(ctx.rwlock_is_locked(l));
    assert!(ctx.rwlock_reader_unlock(l, t1));
    assert!(!ctx.rwlock_is_locked(l));
}

#[test]
fn rwlock_write_then_queued_readers_in_order() {
    let mut ctx = EvalContext::new();
    let l = ctx.rwlock_create();
    let (t1, t2, t3) = (ThreadId(1), ThreadId(2), ThreadId(3));
    ctx.rwlock_writer_lock(l, t1);
    assert!(ctx.rwlock_is_write_locked(l));
    ctx.rwlock_enqueue_and_block_reader(l, t2);
    ctx.rwlock_enqueue_and_block_reader(l, t3);
    assert_eq!(ctx.block_requests, vec![t2, t3]);
    assert_eq!(ctx.rwlock_writer_unlock(l), Some(t1));
    assert!(!ctx.rwlock_is_locked(l));
    assert_eq!(ctx.rwlock_dequeue_reader(l), Some(t2));
    assert_eq!(ctx.rwlock_dequeue_reader(l), Some(t3));
    assert_eq!(ctx.rwlock_dequeue_reader(l), None);
}

#[test]
fn rwlock_writer_queue_fifo() {
    let mut ctx = EvalContext::new();
    let l = ctx.rwlock_create();
    let (t1, t2, t3) = (ThreadId(1), ThreadId(2), ThreadId(3));
    ctx.rwlock_reader_lock(l, t1);
    ctx.rwlock_enqueue_and_block_writer(l, t2);
    ctx.rwlock_enqueue_and_block_writer(l, t3);
    assert_eq!(ctx.block_requests, vec![t2, t3]);
    assert!(ctx.rwlock_reader_unlock(l, t1));
    assert_eq!(ctx.rwlock_dequeue_writer(l), Some(t2));
    assert_eq!(ctx.rwlock_dequeue_writer(l), Some(t3));
    assert_eq!(ctx.rwlock_dequeue_writer(l), None);
}

#[test]
fn rwlock_writer_unlock_when_free() {
    let mut ctx = EvalContext::new();
    let l = ctx.rwlock_create();
    assert_eq!(ctx.rwlock_writer_unlock(l), None);
}

#[test]
fn rwlock_repeated_reader_lock_unlock_restores_state() {
    let mut ctx = EvalContext::new();
    let l = ctx.rwlock_create();
    let t = ThreadId(7);
    for _ in 0..3 {
        ctx.rwlock_reader_lock(l, t);
    }
    for _ in 0..3 {
        assert!(ctx.rwlock_reader_unlock(l, t));
    }
    // A fourth unlock finds nothing: the lock is back in its prior state.
    assert!(!ctx.rwlock_reader_unlock(l, t));
    assert!(!ctx.rwlock_is_locked(l));
}

#[test]
fn condvar_pairing_and_fifo_signal() {
    let mut ctx = EvalContext::new();
    let c = ctx.condvar_create();
    let m = ctx.mutex_create();
    let (t1, t2) = (ThreadId(1), ThreadId(2));
    ctx.condvar_wait(c, t1, m);
    ctx.condvar_wait(c, t2, m);
    assert!(ctx.condvar_is_awaited(c));
    assert_eq!(ctx.condvar_signal(c), Some((t1, m)));
    assert_eq!(ctx.condvar_signal(c), Some((t2, m)));
    assert_eq!(ctx.condvar_signal(c), None);
    assert!(!ctx.condvar_is_awaited(c));
}

#[test]
fn condvar_wait_then_remove_restores_state() {
    let mut ctx = EvalContext::new();
    let c = ctx.condvar_create();
    let m = ctx.mutex_create();
    let (t1, t2) = (ThreadId(1), ThreadId(2));
    ctx.condvar_wait(c, t1, m);
    ctx.condvar_wait(c, t2, m);
    ctx.condvar_remove_waiter(c, t2);
    // Back to the state before the second wait.
    assert_eq!(ctx.condvar_signal(c), Some((t1, m)));
    assert_eq!(ctx.condvar_signal(c), None);
}

#[test]
fn condvar_remove_keeps_other_waiters_in_order() {
    let mut ctx = EvalContext::new();
    let c = ctx.condvar_create();
    let m = ctx.mutex_create();
    let (t1, t2, t3) = (ThreadId(1), ThreadId(2), ThreadId(3));
    ctx.condvar_wait(c, t1, m);
    ctx.condvar_wait(c, t2, m);
    ctx.condvar_wait(c, t3, m);
    ctx.condvar_remove_waiter(c, t2);
    ctx.condvar_remove_waiter(c, ThreadId(9));
    assert_eq!(ctx.condvar_signal(c), Some((t1, m)));
    assert_eq!(ctx.condvar_signal(c), Some((t3, m)));
    assert_eq!(ctx.condvar_signal(c), None);
}

#[test]
fn identifiers_encode_position_plus_one() {
    let mut ctx = EvalContext::new();
    let m1 = ctx.mutex_create();
    let m2 = ctx.mutex_create();
    assert_eq!(m1.to_u32_scalar(), 1);
    assert_eq!(m2.to_u32_scalar(), 2);
    assert_ne!(m1, m2);
    let l1 = ctx.rwlock_create();
    let l2 = ctx.rwlock_create();
    assert_eq!(l1.to_u32_scalar(), 1);
    assert_eq!(l2.to_u32_scalar(), 2);
    assert_ne!(l1, l2);
    let c1 = ctx.condvar_create();
    let c2 = ctx.condvar_create();
    assert_eq!(c1.to_u32_scalar(), 1);
    assert_eq!(c2.to_u32_scalar(), 2);
    assert_ne!(c1, c2);
}

#[test]
fn identifier_constructors_invert() {
    assert_eq!(MutexId::new(0).to_u32_scalar(), 1);
    assert_eq!(MutexId::new(41).index(), 41);
    assert_eq!(MutexId::from_u32(7).to_u32_scalar(), 7);
    assert_eq!(MutexId::from_u32(7).index(), 6);
    assert_eq!(RwLockId::new(3).to_u32_scalar(), 4);
    assert_eq!(RwLockId::from_u32(4).index(), 3);
    assert_eq!(CondvarId::new(3).to_u32_scalar(), 4);
    assert_eq!(CondvarId::from_u32(4).index(), 3);
}

#[test]
fn stored_identifier_addresses_its_primitive() {
    let mut ctx = EvalContext::new();
    let m = ctx.mutex_create();
    let t = ThreadId(3);
    ctx.mutex_lock(m, t);
    // Simulated programs store the scalar and reconstruct the id from it.
    let stored = m.to_u32_scalar();
    let back = MutexId::from_u32(stored);
    assert!(ctx.mutex_is_locked(back));
    assert_eq!(ctx.mutex_get_owner(back), t);
}

#[test]
fn default_context_is_empty() {
    let mut ctx = EvalContext::default();
    assert!(ctx.block_requests.is_empty());
    assert!(ctx.unblock_requests.is_empty());
    let m = ctx.mutex_create();
    assert!(!ctx.mutex_is_locked(m));
}
