//! A function over arrays that the backend may call.
use vstd::prelude::*;

use crate::array::{views, Array};
use crate::error::{Error, Result};
use crate::text::concat;

verus! {

/// A function from arrays to arrays.
#[derive(Debug)]
pub struct Closure<F: Fn(&[Array]) -> Result<Vec<Array>>> {
    inner: F,
}

/// Second handles on all of `inputs`.
pub fn borrow_inputs(inputs: &[Array]) -> (r: Vec<Array>)
    ensures
        views(r@) == views(inputs@),
{
    let mut out: Vec<Array> = Vec::new();
    let mut i: usize = 0;
    while i < inputs.len()
        invariant
            0 <= i <= inputs@.len(),
            out@.len() == i,
            forall|j: int| 0 <= j < i ==> (#[trigger] out@[j])@ == inputs@[j]@,
        decreases inputs@.len() - i,
    {
        out.push(inputs[i].dup());
        i = i + 1;
    }
    assert(views(out@) =~= views(inputs@));
    out
}

/// How a call of the function ended.
#[derive(Debug)]
pub enum Call<A> {
    /// It returned.
    Returned(Result<Vec<A>>),
    /// It panicked, with a text or with something else.
    Panicked(Option<String>),
}

/// Which function was called.
#[derive(Clone, Copy, Debug, PartialEq, Eq, Structural)]
pub enum Callee {
    /// A function from arrays to arrays.
    Plain,
    /// The derivative of another function.
    CustomVjp,
}

/// What stands in front of the text of a panic.
pub open spec fn panic_prefix(callee: Callee) -> Seq<char> {
    match callee {
        Callee::Plain => "mlxrs::transforms closure trampoline caught panic: "@,
        Callee::CustomVjp => "mlxrs::transforms custom-VJP trampoline caught panic: "@,
    }
}

/// The text for a panic that has none.
pub open spec fn panic_text(callee: Callee) -> Seq<char> {
    match callee {
        Callee::Plain => "panic in mlxrs::transforms closure trampoline"@,
        Callee::CustomVjp => "panic in mlxrs::transforms custom-VJP trampoline"@,
    }
}

impl<F: Fn(&[Array]) -> Result<Vec<Array>>> Closure<F> {
    pub closed spec fn spec_raw(&self) -> F {
        self.inner
    }

    pub fn new(f: F) -> (r: Result<Closure<F>>)
        ensures
            r is Ok,
            r->Ok_0.spec_raw() == f,
    {
        Ok(Closure { inner: f })
    }

    /// The function itself.
    pub fn as_raw(&self) -> (f: &F)
        ensures
            *f == self.spec_raw(),
    {
        &self.inner
    }

    /// Calls the function with handles of its own on `inputs`.
    pub fn apply(&self, inputs: &[Array]) -> (r: Result<Vec<Array>>)
        requires
            forall|a: &[Array]|
                views(a@) == views(inputs@) ==> #[trigger] self.spec_raw().requires((a,)),
        ensures
            exists|a: &[Array]|
                views(a@) == views(inputs@) && #[trigger] self.spec_raw().ensures((a,), r),
    {
        let own: Vec<Array> = borrow_inputs(inputs);
        let given: &[Array] = own.as_slice();
        assert(views(given@) == views(inputs@));
        assert(self.spec_raw().requires((given,)));
        let r = (self.inner)(given);
        assert(views(given@) == views(inputs@) && self.spec_raw().ensures((given,), r));
        r
    }
}

/// The derivative of a function from arrays to arrays: it takes the function's
/// inputs, its outputs and the gradients of the outputs.
#[derive(Debug)]
pub struct ClosureCustom<F: Fn(&[Array], &[Array], &[Array]) -> Result<Vec<Array>>> {
    inner: F,
}

/// A derivative out of a function.
pub fn closure_custom_new<F: Fn(&[Array], &[Array], &[Array]) -> Result<Vec<Array>>>(f: F) -> (r:
    Result<ClosureCustom<F>>)
    ensures
        r is Ok,
        r->Ok_0.spec_raw() == f,
{
    Ok(ClosureCustom { inner: f })
}

impl<F: Fn(&[Array], &[Array], &[Array]) -> Result<Vec<Array>>> ClosureCustom<F> {
    pub closed spec fn spec_raw(&self) -> F {
        self.inner
    }

    /// Calls the function with handles of its own on all of its inputs.
    pub fn apply(&self, primals: &[Array], outputs: &[Array], cotangents: &[Array]) -> (r: Result<
        Vec<Array>,
    >)
        requires
            forall|p: &[Array], o: &[Array], c: &[Array]|
                views(p@) == views(primals@) && views(o@) == views(outputs@) && views(c@) == views(
                    cotangents@,
                ) ==> #[trigger] self.spec_raw().requires((p, o, c)),
        ensures
            exists|p: &[Array], o: &[Array], c: &[Array]|
                views(p@) == views(primals@) && views(o@) == views(outputs@) && views(c@) == views(
                    cotangents@,
                ) && #[trigger] self.spec_raw().ensures((p, o, c), r),
    {
        let own_p: Vec<Array> = borrow_inputs(primals);
        let own_o: Vec<Array> = borrow_inputs(outputs);
        let own_c: Vec<Array> = borrow_inputs(cotangents);
        let p: &[Array] = own_p.as_slice();
        let o: &[Array] = own_o.as_slice();
        let c: &[Array] = own_c.as_slice();
        assert(self.spec_raw().requires((p, o, c)));
        let r = (self.inner)(p, o, c);
        assert(self.spec_raw().ensures((p, o, c), r));
        r
    }
}

/// What the backend is told of a call: zero and the results where the function
/// returned some, else one, nothing, and the error that is kept for the
/// caller.
pub fn settle<A>(callee: Callee, call: Call<A>) -> (r: (i32, Vec<A>, Option<Error>))
    ensures
        match call {
            Call::Returned(Ok(out)) => r.0 == 0 && r.1 == out && r.2 is None,
            Call::Returned(Err(e)) => r.0 == 1 && r.1@.len() == 0 && r.2 == Some(e),
            Call::Panicked(text) => {
                &&& r.0 == 1
                &&& r.1@.len() == 0
                &&& r.2 is Some
                &&& r.2->0 is Backend
                &&& r.2->0.text() == panic_prefix(callee) + match text {
                    Some(t) => t@,
                    None => panic_text(callee),
                }
            },
        },
{
    match call {
        Call::Returned(Ok(out)) => (0, out, None),
        Call::Returned(Err(e)) => (1, Vec::new(), Some(e)),
        Call::Panicked(text) => {
            let (prefix, otherwise) = match callee {
                Callee::Plain => (
                    "mlxrs::transforms closure trampoline caught panic: ",
                    "panic in mlxrs::transforms closure trampoline",
                ),
                Callee::CustomVjp => (
                    "mlxrs::transforms custom-VJP trampoline caught panic: ",
                    "panic in mlxrs::transforms custom-VJP trampoline",
                ),
            };
            let message = match text {
                Some(t) => concat(prefix, t.as_str()),
                None => concat(prefix, otherwise),
            };
            (1, Vec::new(), Some(Error::Backend { message }))
        },
    }
}

} // verus!
