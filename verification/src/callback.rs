//! The callbacks that handlers hold.
//!
//! A handler takes any closure of the right type. A caller that wants the
//! handler's functions without a condition on every closure of that type wraps
//! one in [`Checked`], [`CheckedWords`] or [`CheckedPolicy`]; these ask only of
//! the given closure that it takes every argument.
use core::marker::PhantomData;
use vstd::prelude::*;

verus! {

/// The hash callback of a handler over a context: words of `BITS` wires in, 32
/// bytes out.
pub trait HashCallback<C, W, E, const BITS: usize> {
    /// Whether the callback takes every context and every few words.
    spec fn callable() -> bool;

    /// What the callback may answer to these words.
    spec fn gives(words: Seq<[W; BITS]>, answer: Result<[u8; 32], E>) -> bool;

    fn digest(&mut self, context: &mut C, words: &[[W; BITS]]) -> (r: Result<[u8; 32], E>)
        requires
            Self::callable(),
        ensures
            Self::gives(words@, r),
    ;
}

impl<C, W, E, F, const BITS: usize> HashCallback<C, W, E, BITS> for F where
    F: FnMut(&mut C, &[[W; BITS]]) -> Result<[u8; 32], E>,
 {
    /// Every callback of type `F` takes every argument.
    open spec fn callable() -> bool {
        forall|f: F, c: &mut C, w: &[[W; BITS]]| #[trigger] call_requires(f, (c, w))
    }

    /// Some callback of type `F` answers so.
    open spec fn gives(words: Seq<[W; BITS]>, answer: Result<[u8; 32], E>) -> bool {
        exists|f: F, c: &mut C, w: &[[W; BITS]]| #[trigger]
            call_ensures(f, (c, w), answer) && w@ == words
    }

    fn digest(&mut self, context: &mut C, words: &[[W; BITS]]) -> (r: Result<[u8; 32], E>) {
        self(context, words)
    }
}

/// A hash callback that is known to take every argument.
#[verifier::reject_recursive_types(C)]
#[verifier::reject_recursive_types(W)]
#[verifier::reject_recursive_types(E)]
#[verifier::reject_recursive_types(F)]
pub struct Checked<C, W, E, F, const BITS: usize> where
    F: Fn(&mut C, &[[W; BITS]]) -> Result<[u8; 32], E>,
 {
    f: F,
    of: PhantomData<(C, W, E)>,
}

impl<C, W, E, F, const BITS: usize> Checked<C, W, E, F, BITS> where
    F: Fn(&mut C, &[[W; BITS]]) -> Result<[u8; 32], E>,
 {
    #[verifier::type_invariant]
    closed spec fn takes_all(self) -> bool {
        forall|c: &mut C, w: &[[W; BITS]]| #[trigger] call_requires(self.f, (c, w))
    }

    /// Wrap a callback.
    pub fn new(f: F) -> (r: Self)
        requires
            forall|c: &mut C, w: &[[W; BITS]]| #[trigger] call_requires(f, (c, w)),
        ensures
            <Self as HashCallback<C, W, E, BITS>>::callable(),
    {
        Checked { f, of: PhantomData }
    }
}

impl<C, W, E, F, const BITS: usize> HashCallback<C, W, E, BITS> for Checked<
    C,
    W,
    E,
    F,
    BITS,
> where F: Fn(&mut C, &[[W; BITS]]) -> Result<[u8; 32], E> {
    open spec fn callable() -> bool {
        true
    }

    /// Some callback of type `F` answers so.
    open spec fn gives(words: Seq<[W; BITS]>, answer: Result<[u8; 32], E>) -> bool {
        exists|f: F, c: &mut C, w: &[[W; BITS]]| #[trigger]
            call_ensures(f, (c, w), answer) && w@ == words
    }

    fn digest(&mut self, context: &mut C, words: &[[W; BITS]]) -> (r: Result<[u8; 32], E>) {
        proof {
            use_type_invariant(&*self);
        }
        (self.f)(context, words)
    }
}

/// A hash callback that sees the words alone: eight words of 32 wires in, 32
/// bytes out.
pub trait WordsCallback<W, E> {
    /// Whether the callback takes every few words.
    spec fn callable() -> bool;

    /// What the callback may answer to these words.
    spec fn gives(words: Seq<[W; 32]>, answer: Result<[u8; 32], E>) -> bool;

    fn digest(&mut self, words: &[[W; 32]]) -> (r: Result<[u8; 32], E>)
        requires
            Self::callable(),
        ensures
            Self::gives(words@, r),
    ;
}

impl<W, E, F> WordsCallback<W, E> for F where F: FnMut(&[[W; 32]]) -> Result<[u8; 32], E> {
    /// Every callback of type `F` takes every argument.
    open spec fn callable() -> bool {
        forall|f: F, w: &[[W; 32]]| #[trigger] call_requires(f, (w,))
    }

    /// Some callback of type `F` answers so.
    open spec fn gives(words: Seq<[W; 32]>, answer: Result<[u8; 32], E>) -> bool {
        exists|f: F, w: &[[W; 32]]| #[trigger] call_ensures(f, (w,), answer) && w@ == words
    }

    fn digest(&mut self, words: &[[W; 32]]) -> (r: Result<[u8; 32], E>) {
        self(words)
    }
}

/// A callback on words that is known to take every argument.
#[verifier::reject_recursive_types(W)]
#[verifier::reject_recursive_types(E)]
#[verifier::reject_recursive_types(F)]
pub struct CheckedWords<W, E, F> where F: Fn(&[[W; 32]]) -> Result<[u8; 32], E> {
    f: F,
    of: PhantomData<(W, E)>,
}

impl<W, E, F> CheckedWords<W, E, F> where F: Fn(&[[W; 32]]) -> Result<[u8; 32], E> {
    #[verifier::type_invariant]
    closed spec fn takes_all(self) -> bool {
        forall|w: &[[W; 32]]| #[trigger] call_requires(self.f, (w,))
    }

    /// Wrap a callback.
    pub fn new(f: F) -> (r: Self)
        requires
            forall|w: &[[W; 32]]| #[trigger] call_requires(f, (w,)),
        ensures
            <Self as WordsCallback<W, E>>::callable(),
    {
        CheckedWords { f, of: PhantomData }
    }
}

impl<W, E, F> WordsCallback<W, E> for CheckedWords<W, E, F> where
    F: Fn(&[[W; 32]]) -> Result<[u8; 32], E>,
 {
    open spec fn callable() -> bool {
        true
    }

    /// Some callback of type `F` answers so.
    open spec fn gives(words: Seq<[W; 32]>, answer: Result<[u8; 32], E>) -> bool {
        exists|f: F, w: &[[W; 32]]| #[trigger] call_ensures(f, (w,), answer) && w@ == words
    }

    fn digest(&mut self, words: &[[W; 32]]) -> (r: Result<[u8; 32], E>) {
        proof {
            use_type_invariant(&*self);
        }
        (self.f)(words)
    }
}

/// A policy of a handler: it is asked a question and answers.
pub trait PolicyCallback<H, Q, R> {
    /// Whether the policy takes every handler and every question.
    spec fn callable() -> bool;

    /// What the policy may answer to this question.
    spec fn gives(question: Q, answer: R) -> bool;

    fn ask(&mut self, handler: &mut H, question: Q) -> (r: R)
        requires
            Self::callable(),
        ensures
            Self::gives(question, r),
    ;
}

impl<H, Q, R, F> PolicyCallback<H, Q, R> for F where F: FnMut(&mut H, Q) -> R {
    /// Every policy of type `F` takes every question.
    open spec fn callable() -> bool {
        forall|f: F, h: &mut H, q: Q| #[trigger] call_requires(f, (h, q))
    }

    /// Some policy of type `F` answers so.
    open spec fn gives(question: Q, answer: R) -> bool {
        exists|f: F, h: &mut H| #[trigger] call_ensures(f, (h, question), answer)
    }

    fn ask(&mut self, handler: &mut H, question: Q) -> (r: R) {
        self(handler, question)
    }
}

/// A policy that is known to take every question.
#[verifier::reject_recursive_types(H)]
#[verifier::reject_recursive_types(Q)]
#[verifier::reject_recursive_types(R)]
#[verifier::reject_recursive_types(F)]
pub struct CheckedPolicy<H, Q, R, F> where F: Fn(&mut H, Q) -> R {
    f: F,
    of: PhantomData<(H, Q, R)>,
}

impl<H, Q, R, F> CheckedPolicy<H, Q, R, F> where F: Fn(&mut H, Q) -> R {
    #[verifier::type_invariant]
    closed spec fn takes_all(self) -> bool {
        forall|h: &mut H, q: Q| #[trigger] call_requires(self.f, (h, q))
    }

    /// Wrap a policy.
    pub fn new(f: F) -> (r: Self)
        requires
            forall|h: &mut H, q: Q| #[trigger] call_requires(f, (h, q)),
        ensures
            <Self as PolicyCallback<H, Q, R>>::callable(),
    {
        CheckedPolicy { f, of: PhantomData }
    }
}

impl<H, Q, R, F> PolicyCallback<H, Q, R> for CheckedPolicy<H, Q, R, F> where
    F: Fn(&mut H, Q) -> R,
 {
    open spec fn callable() -> bool {
        true
    }

    /// Some policy of type `F` answers so.
    open spec fn gives(question: Q, answer: R) -> bool {
        exists|f: F, h: &mut H| #[trigger] call_ensures(f, (h, question), answer)
    }

    fn ask(&mut self, handler: &mut H, question: Q) -> (r: R) {
        proof {
            use_type_invariant(&*self);
        }
        (self.f)(handler, question)
    }
}

} // verus!
