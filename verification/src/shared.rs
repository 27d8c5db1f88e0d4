//! An array that several threads hold.
//!
//! What a lock holds changes behind a shared reference, so a lock is known by
//! all the arrays that it ever holds: the one that it is made with is among
//! them, and so is the one that comes out of it. Which of them it holds at a
//! time, and whether another holder stands in the way, is known only when the
//! program runs.
use std::sync::{Arc, Mutex, MutexGuard};
use vstd::prelude::*;

use crate::array::{Array, Tensor};
use crate::error::{backend, Error, Result};

verus! {

/// A lock. Stands for `std::sync::Mutex`.
#[verifier::external_type_specification]
#[verifier::external_body]
#[verifier::reject_recursive_types(T)]
pub struct ExMutex<T: ?Sized>(std::sync::Mutex<T>);

/// The right to what a lock holds. Stands for `std::sync::MutexGuard`.
#[verifier::external_type_specification]
#[verifier::external_body]
#[verifier::reject_recursive_types(T)]
pub struct ExMutexGuard<'a, T: ?Sized + 'a>(std::sync::MutexGuard<'a, T>);

/// The arrays that the lock `m` holds at one time or another, from when it is
/// made until it is taken apart.
pub uninterp spec fn held(m: Mutex<Array>) -> Set<Tensor>;

/// The arrays that the lock to which `g` is the right holds at one time or
/// another.
pub uninterp spec fn behind(g: MutexGuard<'_, Array>) -> Set<Tensor>;

/// A lock that holds `a`. Stands for `Mutex::new`, of which it is claimed that
/// the lock holds the given array at first.
#[verifier::external_body]
fn locked(a: Array) -> (m: Mutex<Array>)
    ensures
        held(m).contains(a@),
{
    Mutex::new(a)
}

/// What came of asking for the right to an array without waiting.
pub enum Attempt<'a> {
    /// The right, which no thread had.
    Granted(MutexGuard<'a, Array>),
    /// A thread has the right now.
    Held,
    /// A thread that had the right panicked.
    Poisoned,
}

/// What came of taking a shared array apart.
pub enum Release {
    /// The array, which no other handle shared.
    Sole(Array),
    /// Another handle shares the array.
    Aliased,
    /// A thread that had the right to the array panicked.
    Poisoned,
}

/// The right to what the lock holds, where no thread has it now and none that
/// had it panicked. Stands for `Mutex::try_lock`, of which it is claimed that
/// the right is that to the given lock; of its error it is told which it is.
/// Whether the right comes is left open: it depends on the other threads.
#[verifier::external_body]
fn try_acquire(m: &Mutex<Array>) -> (r: Attempt<'_>)
    ensures
        r matches Attempt::Granted(g) ==> behind(g) == held(*m),
{
    match m.try_lock() {
        Ok(g) => Attempt::Granted(g),
        Err(std::sync::TryLockError::WouldBlock) => Attempt::Held,
        Err(std::sync::TryLockError::Poisoned(_)) => Attempt::Poisoned,
    }
}

/// What the handle points to, where it is the only one. Stands for
/// `Arc::try_unwrap`, of which it is claimed that what comes out is what the
/// handle points to. Whether there are other handles is left open: it is not
/// known before the program runs.
#[verifier::external_body]
fn sole(a: Arc<Mutex<Array>>) -> (r: Option<Mutex<Array>>)
    ensures
        r matches Some(m) ==> m == *a,
{
    Arc::try_unwrap(a).ok()
}

/// What the lock held; none where a thread that had the right to it panicked.
/// Stands for `Mutex::into_inner`, of which it is claimed that what comes out is
/// an array that the lock held. Which one is left open: others may have changed
/// it.
#[verifier::external_body]
fn unlocked(m: Mutex<Array>) -> (r: Option<Array>)
    ensures
        r matches Some(a) ==> held(m).contains(a@),
{
    m.into_inner().ok()
}

/// An array that several threads hold, one of them at a time having the right
/// to it.
pub struct SharedArray {
    inner: Arc<Mutex<Array>>,
}

impl Clone for SharedArray {
    /// Another handle to the same array.
    fn clone(&self) -> (s: SharedArray)
        ensures
            s.arrays() == self.arrays(),
            s == *self,
    {
        SharedArray { inner: self.inner.clone() }
    }
}

impl SharedArray {
    /// The arrays that are shared at one time or another.
    pub closed spec fn arrays(&self) -> Set<Tensor> {
        held(*self.inner)
    }

    /// Shares `arr`.
    pub fn new(arr: Array) -> (s: SharedArray)
        ensures
            s.arrays().contains(arr@),
    {
        SharedArray { inner: Arc::new(locked(arr)) }
    }

    /// The lock itself, for a thread that waits for the right to the array.
    pub fn mutex(&self) -> (m: &Mutex<Array>)
        ensures
            held(*m) == self.arrays(),
    {
        &self.inner
    }

    /// What a thread that waited for the right to the array is told: `came` is
    /// what came of waiting for [`SharedArray::mutex`], nothing where a thread
    /// that had the right panicked.
    pub fn lock<'a>(&'a self, came: Option<MutexGuard<'a, Array>>) -> (r: Result<
        MutexGuard<'a, Array>,
    >)
        ensures
            match came {
                Some(g) => r == Ok::<MutexGuard<'a, Array>, Error>(g),
                None => r is Err && r->Err_0 is Backend && r->Err_0.text()
                    == "SharedArray mutex poisoned (a previous lock holder panicked)"@,
            },
    {
        lock_outcome(came)
    }

    /// The right to the array, where no thread has it now.
    pub fn try_lock(&self) -> (r: Option<MutexGuard<'_, Array>>)
        ensures
            r matches Some(g) ==> behind(g) == self.arrays(),
    {
        try_lock_outcome(try_acquire(&self.inner))
    }

    /// The array, where no other handle is left and no thread that had the
    /// right to it panicked. It is one of those that were shared.
    pub fn into_inner(self) -> (r: Option<Array>)
        ensures
            r matches Some(a) ==> self.arrays().contains(a@),
    {
        let came: Release = match sole(self.inner) {
            Some(m) => match unlocked(m) {
                Some(a) => Release::Sole(a),
                None => Release::Poisoned,
            },
            None => Release::Aliased,
        };
        into_inner_outcome(came)
    }
}

/// What a thread that does not wait for the right to an array gets: the right,
/// if and only if it came; a lock that is held and one whose holder panicked
/// are not told apart.
pub fn try_lock_outcome<'a>(came: Attempt<'a>) -> (r: Option<MutexGuard<'a, Array>>)
    ensures
        r == match came {
            Attempt::Granted(g) => Some(g),
            Attempt::Held => None,
            Attempt::Poisoned => None,
        },
{
    match came {
        Attempt::Granted(g) => Some(g),
        Attempt::Held => None,
        Attempt::Poisoned => None,
    }
}

/// What is left of a handle that is taken apart: the array, if and only if no
/// other handle shared it and no thread that had the right to it panicked.
pub fn into_inner_outcome(came: Release) -> (r: Option<Array>)
    ensures
        r == match came {
            Release::Sole(a) => Some(a),
            Release::Aliased => None,
            Release::Poisoned => None,
        },
{
    match came {
        Release::Sole(a) => Some(a),
        Release::Aliased => None,
        Release::Poisoned => None,
    }
}

/// What a lock reports: the right to the array, or an error where there is
/// none.
pub fn lock_outcome<'a>(guard: Option<MutexGuard<'a, Array>>) -> (r: Result<MutexGuard<'a, Array>>)
    ensures
        match guard {
            Some(g) => r == Ok::<MutexGuard<'a, Array>, Error>(g),
            None => r is Err && r->Err_0 is Backend && r->Err_0.text()
                == "SharedArray mutex poisoned (a previous lock holder panicked)"@,
        },
{
    match guard {
        Some(g) => Ok(g),
        None => Err(backend("SharedArray mutex poisoned (a previous lock holder panicked)")),
    }
}

} // verus!
