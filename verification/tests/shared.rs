//! Arrays that several holders share.
use std::sync::MutexGuard;

use mlxrs::array::{Array, Op};
use mlxrs::error::Error;
use mlxrs::scalar::F32;
use mlxrs::shared::{
    into_inner_outcome, lock_outcome, try_lock_outcome, Attempt, Release, SharedArray,
};

fn ones(shape: &[usize]) -> Array {
    Array::ones(shape).unwrap()
}

/// Waits for the right to the array.
fn lock(shared: &SharedArray) -> Result<MutexGuard<'_, Array>, Error> {
    shared.lock(shared.mutex().lock().ok())
}

/// What an array with the same element everywhere holds.
fn to_vec(a: &Array) -> Vec<f32> {
    assert_eq!(a.op(), Op::Full);
    vec![f32::from_bits(a.bits()[0] as u32); a.size()]
}

fn assert_send<T: Send>() {}

fn assert_sync<T: Sync>() {}

fn assert_clone<T: Clone>() {}

#[test]
fn shared_array_send_sync_compile_assertions() {
    assert_send::<SharedArray>();
    assert_sync::<SharedArray>();
    assert_clone::<SharedArray>();
}

#[test]
fn shared_array_lock_eval_works() {
    let shared = SharedArray::new(ones(&[2, 2]));
    {
        let g = lock(&shared).expect("lock");
        assert_eq!(to_vec(&g), vec![1.0, 1.0, 1.0, 1.0]);
    }
    let g2 = lock(&shared).expect("relock after guard drop");
    assert_eq!(g2.shape(), vec![2, 2]);
}

#[test]
fn shared_array_try_lock_returns_some_when_uncontended() {
    let shared = SharedArray::new(ones(&[2]));
    let g = shared.try_lock().expect("uncontended try_lock should succeed");
    assert_eq!(g.shape(), vec![2]);
}

#[test]
fn shared_array_try_lock_returns_none_when_held() {
    let shared = SharedArray::new(ones(&[2]));
    let _held = lock(&shared).expect("lock");
    assert!(shared.try_lock().is_none(), "should fail to acquire while held");
}

#[test]
fn shared_array_into_inner_happy_path() {
    let shared = SharedArray::new(ones(&[3]));
    let arr = shared.into_inner().expect("sole owner");
    assert_eq!(arr.shape(), vec![3]);
    assert_eq!(to_vec(&arr), vec![1.0, 1.0, 1.0]);
}

#[test]
fn shared_array_into_inner_returns_none_when_aliased() {
    let shared = SharedArray::new(ones(&[2]));
    let _alias = shared.clone();
    assert!(shared.into_inner().is_none(), "another handle is alive");
}

#[test]
fn a_change_under_the_lock_is_seen_by_the_next_holder() {
    let shared = SharedArray::new(ones(&[2]));
    {
        let mut g = lock(&shared).unwrap();
        *g = Array::full(&[1], F32::from_bits(7.0f32.to_bits())).unwrap();
    }
    assert_eq!(to_vec(&lock(&shared).unwrap()), vec![7.0]);
}

#[test]
fn a_lock_without_a_right_is_an_error() {
    let message = lock_outcome(None).unwrap_err().message().to_string();
    assert!(message.contains("poisoned"));
}

#[test]
fn handles_share_one_array() {
    let shared = SharedArray::new(ones(&[2]));
    let other = shared.clone();
    *lock(&shared).unwrap() = ones(&[5]);
    assert_eq!(lock(&other).unwrap().shape(), vec![5]);
    assert!(other.into_inner().is_none());
    assert_eq!(shared.into_inner().unwrap().shape(), vec![5]);
}

#[test]
fn a_right_comes_only_where_it_was_granted() {
    let shared = SharedArray::new(ones(&[2]));
    let g = try_lock_outcome(Attempt::Granted(lock(&shared).unwrap()));
    assert_eq!(g.unwrap().shape(), vec![2]);
    assert!(try_lock_outcome(Attempt::Held).is_none());
    assert!(try_lock_outcome(Attempt::Poisoned).is_none());
}

#[test]
fn an_array_comes_out_only_of_the_last_handle() {
    assert_eq!(into_inner_outcome(Release::Sole(ones(&[4]))).unwrap().shape(), vec![4]);
    assert!(into_inner_outcome(Release::Aliased).is_none());
    assert!(into_inner_outcome(Release::Poisoned).is_none());
}
