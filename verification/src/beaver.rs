//! Multiplication of shared values with a Beaver triple.
use crate::context::{ContextWithAdd, ContextWithSub, ContextWithValue};
use crate::vole::Closed;
use crate::word::dup;
use vstd::prelude::*;
use vstd::std_specs::ops::{AddSpec, MulSpec, SubSpec};

verus! {

/// A source of triples of which the third is the product of the others.
pub trait CreateBeaverTriple<Val> {
    fn beaver(&mut self) -> [Val; 3];
}

/// Making a shared value public, and sharing a public one.
pub trait Open<Val> {
    /// A public value.
    type Opening;

    /// A public value that this shared value may open to. The other parties'
    /// shares have a say in it, so one share may open to several.
    open spec fn opens(val: Val, opening: Self::Opening) -> bool {
        true
    }

    /// A shared value of which this is the opening.
    open spec fn closes(opening: Self::Opening, val: Val) -> bool {
        true
    }

    fn open(&mut self, val: Val) -> (r: Self::Opening)
        ensures
            Self::opens(val, r),
    ;

    fn close(&mut self, opening: Self::Opening) -> (r: Val)
        ensures
            Self::closes(opening, r),
    ;
}

/// Public values that can be multiplied with each other and with shared ones.
pub trait BeaverOpening<W>: Sized + core::ops::Add<Self, Output = Self> + core::ops::Mul<
    W,
    Output = W,
> + core::ops::Mul<Self, Output = Self> + Clone {

}

impl<
    W,
    T: core::ops::Add<T, Output = T> + core::ops::Mul<W, Output = W> + core::ops::Mul<
        T,
        Output = T,
    > + Clone,
> BeaverOpening<W> for T {

}

/// Openings can be multiplied with each other and with wires, whatever they
/// are.
pub open spec fn multiplies<W, P: BeaverOpening<W>>() -> bool {
    &&& forall|p: P, w: W| #[trigger] <P as MulSpec<W>>::mul_req(p, w)
    &&& forall|p: P, q: P| #[trigger] <P as MulSpec<P>>::mul_req(p, q)
}

/// Products of openings are what `mul_spec` says, and clones are the same.
pub open spec fn exact<W, P: BeaverOpening<W>>() -> bool {
    &&& <P as MulSpec<W>>::obeys_mul_spec()
    &&& <P as MulSpec<P>>::obeys_mul_spec()
    &&& forall|p: P, q: P| #[trigger] cloned(p, q) ==> p == q
}

/// Two masked operands opened to these values.
pub open spec fn both_open<T, O: Open<T>>(x: T, y: T, d: O::Opening, e: O::Opening) -> bool {
    O::opens(x, d) && O::opens(y, e)
}

/// The parts of a product that a triple gives: with `d` and `e` what the two
/// masked operands opened to, the product is `d * e + d * b + e * a + c`.
pub open spec fn masked_product<
    Val: Closed,
    C: ContextWithValue<Val> + ?Sized,
    O: Open<C::Wrapped>,
>(
    d: O::Opening,
    e: O::Opening,
    p: C::Wrapped,
    a: C::Wrapped,
    b: C::Wrapped,
    c: C::Wrapped,
) -> Val where O::Opening: BeaverOpening<C::Wrapped> {
    C::denotes(p).add_spec(
        C::denotes(<O::Opening as MulSpec<C::Wrapped>>::mul_spec(d, b)),
    ).add_spec(C::denotes(<O::Opening as MulSpec<C::Wrapped>>::mul_spec(e, a))).add_spec(
        C::denotes(c),
    )
}

/// A context that multiplies shared values by opening masked operands.
pub trait BeaverMul<Val: Closed>: ContextWithSub<Val> + ContextWithAdd<Val> where
    Self::Wrapped: Clone,
 {
    fn beaver_mul<O>(
        &mut self,
        opening: &mut O,
        am: Self::Wrapped,
        bm: Self::Wrapped,
        beaver: [Self::Wrapped; 3],
    ) -> (r: Result<Self::Wrapped, Self::Error>) where
        O: Open<Self::Wrapped>,
        O::Opening: BeaverOpening<Self::Wrapped>,

        requires
            multiplies::<Self::Wrapped, O::Opening>(),
        ensures
            Self::lawful() && Val::obeys_add_spec() && Val::obeys_sub_spec() && exact::<
                Self::Wrapped,
                O::Opening,
            >() && (forall|v: Self::Wrapped, w: Self::Wrapped| #[trigger]
                cloned(v, w) ==> v == w) ==> (r matches Ok(product) ==> exists|
                x: Self::Wrapped,
                y: Self::Wrapped,
                d: O::Opening,
                e: O::Opening,
                p: Self::Wrapped,
            |
                Self::denotes(x) == Self::denotes(am).sub_spec(Self::denotes(beaver@[0]))
                    && Self::denotes(y) == Self::denotes(bm).sub_spec(Self::denotes(beaver@[1]))
                    && #[trigger] both_open::<Self::Wrapped, O>(x, y, d, e) && O::closes(
                    <O::Opening as MulSpec<O::Opening>>::mul_spec(d, e),
                    p,
                ) && Self::denotes(product) == #[trigger] masked_product::<Val, Self, O>(
                    d,
                    e,
                    p,
                    beaver@[0],
                    beaver@[1],
                    beaver@[2],
                )),
            Self::reliable() ==> r is Ok,
            r matches Err(error) ==> Self::errs(error),
    {
        let a = dup(&beaver[0]);
        let b = dup(&beaver[1]);
        let c = dup(&beaver[2]);
        let kept_a = dup(&beaver[0]);
        let kept_b = dup(&beaver[1]);
        proof {
            Val::closed(Self::denotes(am), Self::denotes(kept_a));
            Val::closed(Self::denotes(bm), Self::denotes(kept_b));
        }
        let x = self.sub(am, kept_a)?;
        let ghost masked_x = x;
        let d = opening.open(x);
        let y = self.sub(bm, kept_b)?;
        let ghost masked_y = y;
        let e = opening.open(y);
        let ghost opened_x = d;
        let ghost opened_y = e;
        assert(both_open::<Self::Wrapped, O>(masked_x, masked_y, opened_x, opened_y));
        let mut v = opening.close(dup(&d) * dup(&e));
        let ghost p = v;
        let db = d * b;
        proof {
            Val::closed(Self::denotes(v), Self::denotes(db));
        }
        self.add_assign(&mut v, db)?;
        let ea = e * a;
        proof {
            Val::closed(Self::denotes(v), Self::denotes(ea));
        }
        self.add_assign(&mut v, ea)?;
        proof {
            Val::closed(Self::denotes(v), Self::denotes(c));
        }
        self.add_assign(&mut v, c)?;
        assert(Self::lawful() && Val::obeys_add_spec() && Val::obeys_sub_spec() && exact::<
            Self::Wrapped,
            O::Opening,
        >() && (forall|v: Self::Wrapped, w: Self::Wrapped| #[trigger] cloned(v, w) ==> v == w)
            ==> Self::denotes(v) == masked_product::<Val, Self, O>(
            opened_x,
            opened_y,
            p,
            beaver@[0],
            beaver@[1],
            beaver@[2],
        ));
        Ok(v)
    }
}

impl<
    Val: Closed,
    T: ContextWithSub<Val> + ContextWithAdd<Val> + ?Sized,
> BeaverMul<Val> for T where T::Wrapped: Clone {

}

/// Opening masked operands gives their product: with `c` the product of `a`
/// and `b`, the masks cancel.
pub proof fn masks_cancel(x: int, y: int, a: int, b: int, c: int)
    requires
        c == a * b,
    ensures
        (x - a) * (y - b) + (x - a) * b + (y - b) * a + c == x * y,
{
    assert((x - a) * (y - b) + (x - a) * b + (y - b) * a + a * b == x * y) by (nonlinear_arith);
}

/// The masks cancel among bits too.
pub proof fn masks_cancel_in_bits(x: bool, y: bool, a: bool, b: bool)
    ensures
        ({
            let d = x != a;
            let e = y != b;
            ((((d && e) != (d && b)) != (e && a)) != (a && b)) == (x && y)
        }),
{
}

} // verus!
