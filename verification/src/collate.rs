//! Collating: what becomes of the samples of one batch.
use vstd::prelude::*;

verus! {

/// Any collate gathers samples from one batch together.
pub trait Collate<T> {
    /// The type of the collate function's output.
    type Output;

    /// The batches that can be collated.
    spec fn accepts(&self, batch: Vec<T>) -> bool;

    /// What the batches that can be collated may become.
    spec fn gives(&self, batch: Vec<T>, output: Self::Output) -> bool;

    /// Take a batch of samples and collate them.
    fn collate(&self, batch: Vec<T>) -> (output: Self::Output)
        requires
            self.accepts(batch),
        ensures
            self.gives(batch, output),
    ;
}

/// A closure can stand in as a collate function: it accepts what it can be
/// called on, and gives what the call returns.
impl<T, F, O> Collate<T> for F where F: Fn(Vec<T>) -> O {
    type Output = O;

    open spec fn accepts(&self, batch: Vec<T>) -> bool {
        call_requires(*self, (batch,))
    }

    open spec fn gives(&self, batch: Vec<T>, output: O) -> bool {
        call_ensures(*self, (batch,), output)
    }

    fn collate(&self, batch: Vec<T>) -> (output: O)
        ensures
            call_ensures(*self, (batch,), output),
    {
        (self)(batch)
    }
}

/// What a closure collates is what it can be called on, and what it makes of that
/// is what the call returns.
pub proof fn law_closure_collates_by_its_call<T, F: Fn(Vec<T>) -> O, O>(
    closure: F,
    batch: Vec<T>,
    output: O,
)
    ensures
        Collate::accepts(&closure, batch) <==> call_requires(closure, (batch,)),
        Collate::gives(&closure, batch, output) <==> call_ensures(closure, (batch,), output),
{
}

} // verus!
