use axecs::util::future::{FunctionCallFuture, VecMultijoinFuture};
use axecs::util::lazycell::LazyCell;
use axecs::util::sparsevec::SparseVec;
use axecs::Poll;

#[test]
fn sparse_vec_fills_holes_first() {
    let mut v = SparseVec::new();
    assert!(v.is_empty());
    assert_eq!(v.push('a'), 0);
    assert_eq!(v.push('b'), 1);
    assert_eq!(v.push('c'), 2);
    assert!(!v.is_empty());
    assert_eq!(v.remove(1), Some('b'));
    assert_eq!(v.remove(1), None);
    assert_eq!(v.remove(9), None);
    assert_eq!(v.get(1), None);
    assert_eq!(v.push('d'), 1);
    assert_eq!(v.get(1), Some(&'d'));
    assert_eq!(v.len(), 3);
    assert_eq!(v.push('e'), 3);
}

#[test]
fn sparse_vec_retain_and_append() {
    let mut v = SparseVec::new();
    let mut items = vec![1, 2, 3, 4, 5, 6];
    v.append(&mut items);
    assert!(items.is_empty());
    v.retain(|item: &i32| *item % 2 == 0);
    assert_eq!(v.get(0), None);
    assert_eq!(v.get(1), Some(&2));
    assert_eq!(v.get(5), Some(&6));
    v.retain(|_: &i32| false);
    assert!(v.is_empty());
    assert_eq!(v.len(), 6);
}

#[test]
fn function_call_future_calls_the_function() {
    let future = FunctionCallFuture::new(|| Poll::Ready(12));
    assert!(matches!(future.poll(), Poll::Ready(12)));
    let pending = FunctionCallFuture::new(|| Poll::<u8>::Pending);
    assert!(pending.poll().is_pending());
}

#[test]
fn multijoin_is_ready_when_every_task_is() {
    let mut join: VecMultijoinFuture<&str> = VecMultijoinFuture::new(3);
    assert!(join.poll(vec![None, Some("b"), None]).is_pending());
    assert!(join.poll(vec![None, Some("ignored"), None]).is_pending());
    match join.poll(vec![Some("a"), None, Some("c")]) {
        Poll::Ready(outputs) => assert_eq!(outputs, vec!["a", "b", "c"]),
        Poll::Pending => panic!("every task is done"),
    }
    let mut empty: VecMultijoinFuture<u8> = VecMultijoinFuture::new(0);
    assert!(matches!(empty.poll(vec![]), Poll::Ready(outputs) if outputs.is_empty()));
}

#[test]
fn lazy_cell_makes_its_value_once() {
    let mut cell = LazyCell::new(|seed: u32| seed + 1);
    assert_eq!(*cell.get_mut(10), 11);
    assert_eq!(*cell.get_mut(99), 11);
    *cell.get_mut(0) = 5;
    assert_eq!(*cell.get_mut(0), 5);
}
