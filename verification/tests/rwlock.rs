use axecs::util::rwlock::{RwLock, RwLockReadGuard, RwLockWriteGuard};
use axecs::Poll;

fn ready<T>(poll: Poll<T>) -> T {
    match poll {
        Poll::Ready(value) => value,
        Poll::Pending => panic!("expected a ready poll"),
    }
}

#[test]
fn readers_share_and_writer_excludes() {
    let mut lock = RwLock::new(5u32);
    let first = ready(lock.inner_mut().try_read());
    let second = ready(lock.inner_mut().try_read());
    assert!(lock.inner_mut().try_write().is_pending());
    assert_eq!(*first.get_ref(lock.inner()), 5);
    first.release(lock.inner_mut());
    assert!(lock.inner_mut().try_write().is_pending());
    second.release(lock.inner_mut());
    assert!(lock.inner().idle());
    let writer = ready(lock.inner_mut().try_write());
    assert!(lock.inner().write_locked());
    assert!(lock.inner_mut().try_read().is_pending());
    assert!(lock.inner_mut().try_write().is_pending());
    *writer.get_mut(lock.inner_mut()) = 9;
    writer.release(lock.inner_mut());
    let reader = ready(lock.inner_mut().try_read());
    assert_eq!(*reader.get_ref(lock.inner()), 9);
}

#[test]
fn waiting_writer_keeps_new_readers_out() {
    let mut lock = RwLock::new(());
    let reader = ready(lock.inner_mut().try_read());
    let pending = lock.inner_mut().write();
    assert!(lock.inner_mut().try_read().is_pending());
    assert!(pending.try_write(lock.inner_mut()).is_pending());
    reader.release(lock.inner_mut());
    let writer = ready(pending.try_write(lock.inner_mut()));
    pending.release(lock.inner_mut());
    writer.release(lock.inner_mut());
    assert!(lock.inner_mut().try_read().is_ready());
}

#[test]
fn upgrade_needs_the_only_reader() {
    let mut lock = RwLock::new(1u8);
    let a = ready(lock.inner_mut().try_read());
    let b = ready(lock.inner_mut().try_read());
    let a = match RwLockReadGuard::try_upgrade(a, lock.inner_mut()) {
        Ok(_) => panic!("upgrade with two readers"),
        Err(guard) => guard,
    };
    b.release(lock.inner_mut());
    let writer = match RwLockReadGuard::try_upgrade(a, lock.inner_mut()) {
        Ok(writer) => writer,
        Err(_) => panic!("upgrade of the only reader"),
    };
    assert!(lock.inner().write_locked());
    let reader = RwLockWriteGuard::downgrade(writer, lock.inner_mut());
    assert!(lock.inner_mut().try_read().is_ready());
    reader.release(lock.inner_mut());
}

#[test]
fn pending_upgrade_waits_for_other_readers() {
    let mut lock = RwLock::new(());
    let a = ready(lock.inner_mut().try_read());
    let b = ready(lock.inner_mut().try_read());
    let pending = RwLockReadGuard::upgrade(a, lock.inner_mut());
    assert!(pending.try_write(lock.inner_mut()).is_pending());
    assert!(lock.inner_mut().try_read().is_pending());
    b.release(lock.inner_mut());
    let writer = ready(pending.try_write(lock.inner_mut()));
    pending.release(lock.inner_mut());
    writer.release(lock.inner_mut());
    assert!(lock.inner().idle());
}

#[test]
fn new_writing_is_born_locked() {
    let mut lock = RwLock::new_writing(3i32);
    assert!(lock.inner_mut().try_read().is_pending());
    let writer = lock.inner().write_unchecked();
    assert_eq!(*writer.get_ref(lock.inner()), 3);
    writer.release(lock.inner_mut());
    assert!(lock.inner().idle());
}

#[test]
fn into_inner_takes_the_value() {
    let lock = RwLock::new(String::from("value"));
    match lock.try_into_inner() {
        Ok(value) => assert_eq!(value, "value"),
        Err(_) => panic!("an idle latch gives its value"),
    }
    let mut lock = RwLock::new(7u8);
    let guard = ready(lock.inner_mut().try_read());
    let mut lock = match lock.try_into_inner() {
        Ok(_) => panic!("a latch in use keeps its value"),
        Err(lock) => lock,
    };
    guard.release(lock.inner_mut());
    let mut own = RwLock::new(4u8).into_inner();
    assert!(own.try_into_inner().is_pending());
}

#[test]
fn reader_and_writer_of_one_value_run_one_at_a_time() {
    let mut lock = RwLock::new(0u64);
    let writer = ready(lock.inner_mut().try_write());
    assert!(lock.inner_mut().try_read().is_pending());
    *writer.get_mut(lock.inner_mut()) = 0xffff_ffff_0000_0000;
    *writer.get_mut(lock.inner_mut()) += 0xffff_ffff;
    writer.release(lock.inner_mut());
    let reader = ready(lock.inner_mut().try_read());
    assert!(lock.inner_mut().try_write().is_pending());
    assert_eq!(*reader.get_ref(lock.inner()), u64::MAX);
    reader.release(lock.inner_mut());
}
