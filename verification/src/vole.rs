//! Pairs of wires that are computed on side by side.
use crate::context::{Bit, ContextWithAdd, ContextWithSub, ContextWithValue, HasError};
use vstd::prelude::*;
use vstd::std_specs::ops::{AddSpec, SubSpec};

verus! {

/// Values whose sums and differences always exist.
pub trait Closed: core::ops::Add<Self, Output = Self> + core::ops::Sub<Self, Output = Self> + Sized {
    proof fn closed(a: Self, b: Self)
        ensures
            a.add_req(b),
            a.sub_req(b),
    ;
}

impl Closed for Bit {
    proof fn closed(a: Bit, b: Bit) {
    }
}

/// A context whose wires are pairs of another's. A pair means what its first
/// half means; the second half follows it through every sum and difference.
pub struct Vole<Wrapped> {
    pub wrapped: Wrapped,
}

impl<Wrapped: HasError> HasError for Vole<Wrapped> {
    type Error = Wrapped::Error;
}

impl<Wrapped: ContextWithValue<Val>, Val> ContextWithValue<Val> for Vole<Wrapped> {
    type Wrapped = (Wrapped::Wrapped, Wrapped::Wrapped);

    open spec fn lawful() -> bool {
        Wrapped::lawful()
    }

    open spec fn reliable() -> bool {
        Wrapped::reliable()
    }

    open spec fn errs(error: Wrapped::Error) -> bool {
        Wrapped::errs(error)
    }

    open spec fn denotes(w: (Wrapped::Wrapped, Wrapped::Wrapped)) -> Val {
        Wrapped::denotes(w.0)
    }
}

impl<Wrapped: ContextWithAdd<Val>, Val: Closed> ContextWithAdd<Val> for Vole<Wrapped> {
    fn add(
        &mut self,
        a: (Wrapped::Wrapped, Wrapped::Wrapped),
        b: (Wrapped::Wrapped, Wrapped::Wrapped),
    ) -> (r: Result<(Wrapped::Wrapped, Wrapped::Wrapped), Wrapped::Error>)
        ensures
            Wrapped::lawful() && Val::obeys_add_spec() ==> (r matches Ok(w) ==> Wrapped::denotes(w.1)
                == Wrapped::denotes(a.1).add_spec(Wrapped::denotes(b.1))),
    {
        let (a0, a1) = a;
        let (b0, b1) = b;
        proof {
            Val::closed(Wrapped::denotes(a1), Wrapped::denotes(b1));
        }
        let first = self.wrapped.add(a0, b0)?;
        let second = self.wrapped.add(a1, b1)?;
        Ok((first, second))
    }

    fn add_assign(
        &mut self,
        a: &mut (Wrapped::Wrapped, Wrapped::Wrapped),
        b: (Wrapped::Wrapped, Wrapped::Wrapped),
    ) -> (r: Result<(), Wrapped::Error>)
        ensures
            Wrapped::lawful() && Val::obeys_add_spec() && r is Ok ==> Wrapped::denotes(final(a).1)
                == Wrapped::denotes(old(a).1).add_spec(Wrapped::denotes(b.1)),
    {
        let (b0, b1) = b;
        proof {
            Val::closed(Wrapped::denotes(a.1), Wrapped::denotes(b1));
        }
        self.wrapped.add_assign(&mut a.0, b0)?;
        self.wrapped.add_assign(&mut a.1, b1)
    }
}

impl<Wrapped: ContextWithSub<Val>, Val: Closed> ContextWithSub<Val> for Vole<Wrapped> {
    fn sub(
        &mut self,
        a: (Wrapped::Wrapped, Wrapped::Wrapped),
        b: (Wrapped::Wrapped, Wrapped::Wrapped),
    ) -> (r: Result<(Wrapped::Wrapped, Wrapped::Wrapped), Wrapped::Error>)
        ensures
            Wrapped::lawful() && Val::obeys_sub_spec() ==> (r matches Ok(w) ==> Wrapped::denotes(w.1)
                == Wrapped::denotes(a.1).sub_spec(Wrapped::denotes(b.1))),
    {
        let (a0, a1) = a;
        let (b0, b1) = b;
        proof {
            Val::closed(Wrapped::denotes(a1), Wrapped::denotes(b1));
        }
        let first = self.wrapped.sub(a0, b0)?;
        let second = self.wrapped.sub(a1, b1)?;
        Ok((first, second))
    }

    fn sub_assign(
        &mut self,
        a: &mut (Wrapped::Wrapped, Wrapped::Wrapped),
        b: (Wrapped::Wrapped, Wrapped::Wrapped),
    ) -> (r: Result<(), Wrapped::Error>)
        ensures
            Wrapped::lawful() && Val::obeys_sub_spec() && r is Ok ==> Wrapped::denotes(final(a).1)
                == Wrapped::denotes(old(a).1).sub_spec(Wrapped::denotes(b.1)),
    {
        let (b0, b1) = b;
        proof {
            Val::closed(Wrapped::denotes(a.1), Wrapped::denotes(b1));
        }
        self.wrapped.sub_assign(&mut a.0, b0)?;
        self.wrapped.sub_assign(&mut a.1, b1)
    }
}

} // verus!
