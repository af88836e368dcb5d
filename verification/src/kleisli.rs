use vstd::prelude::*;
use crate::bind::{AndThen, bind_step};
use crate::conduit::{Action, ConduitM, Done, Resume, pure_arrow};

verus! {

/// A function from `X` to conduits, built from the identity by appending
/// continuations.
pub trait Arrow<X, I, O, B> {
    type K: Resume<I, O, B>;

    spec fn wf(&self) -> bool;

    spec fn spec_apply(&self, x: X) -> Action<I, O, <Self::K as Resume<I, O, B>>::Out, <Self::K as Resume<I, O, B>>::Model>;

    fn apply(self, x: X) -> (r: ConduitM<I, O, B, Self::K>)
        requires
            self.wf(),
        ensures
            r.inv(),
            r@ == self.spec_apply(x),
    ;
}

/// The identity arrow: finishes at once with its argument.
pub struct Id {
    idle: (),
}

impl<X, I, O> Arrow<X, I, O, X> for Id {
    type K = Done;

    open spec fn wf(&self) -> bool {
        true
    }

    open spec fn spec_apply(&self, x: X) -> Action<I, O, X, ()> {
        Action::Pure(x)
    }

    fn apply(self, x: X) -> (r: ConduitM<I, O, X, Done>) {
        ConduitM::Pure(x)
    }
}

/// An arrow followed by a continuation.
pub struct Append<B, R, F> {
    arrow: R,
    f: F,
    mid: core::marker::PhantomData<B>,
}

impl<B, R, F> Append<B, R, F> {
    /// The arrow and the continuation appended to it.
    pub closed spec fn parts(&self) -> (R, F) {
        (self.arrow, self.f)
    }
}

impl<X, I, O, B, C, R, F, K2> Arrow<X, I, O, C> for Append<B, R, F> where
    R: Arrow<X, I, O, B>,
    K2: Resume<I, O, C>,
    F: FnOnce(B) -> ConduitM<I, O, C, K2>,
 {
    type K = AndThen<B, R::K, F, K2>;

    open spec fn wf(&self) -> bool {
        &&& <R as Arrow<X, I, O, B>>::wf(&self.parts().0)
        &&& pure_arrow(self.parts().1, |b: B| <R::K as Resume<I, O, B>>::out(b))
    }

    open spec fn spec_apply(&self, x: X) -> Action<I, O, K2::Out, <AndThen<B, R::K, F, K2> as Resume<I, O, C>>::Model> {
        bind_step::<I, O, B, C, R::K, K2, F>(<R as Arrow<X, I, O, B>>::spec_apply(&self.parts().0, x), self.parts().1)
    }

    fn apply(self, x: X) -> (r: ConduitM<I, O, C, AndThen<B, R::K, F, K2>>) {
        let c: ConduitM<I, O, B, R::K> = self.arrow.apply(x);
        c.and_then::<C, F, K2>(self.f)
    }
}

/// The Kleisli arrow from `A` to `ConduitM<I, O, B, _>`: a function that
/// builds a conduit from a value.
pub struct Kleisli<A, I, O, B, R> {
    arrow: R,
    types: core::marker::PhantomData<(A, I, O, B)>,
}

impl<A, I, O> Kleisli<A, I, O, A, Id> {
    /// The identity arrow.
    pub fn new() -> (k: Self)
        ensures
            k.wf(),
            forall|a: A| k.spec_run(a) == Action::<I, O, A, ()>::Pure(a),
    {
        Kleisli { arrow: Id { idle: () }, types: core::marker::PhantomData }
    }
}

impl<A, I, O, B, R: Arrow<A, I, O, B>> Kleisli<A, I, O, B, R> {
    /// The arrow can be run.
    pub closed spec fn wf(&self) -> bool {
        self.arrow.wf()
    }

    /// The view of the conduit the arrow builds from `a`.
    pub closed spec fn spec_run(&self, a: A) -> Action<I, O, <R::K as Resume<I, O, B>>::Out, <R::K as Resume<I, O, B>>::Model> {
        self.arrow.spec_apply(a)
    }

    /// Appends `f` to the arrow: the new arrow runs this one and then,
    /// once its conduit finishes with `b`, the conduit `f(b)`.
    pub fn append<C, F, K2>(self, f: F) -> (k: Kleisli<A, I, O, C, Append<B, R, F>>) where
        K2: Resume<I, O, C>,
        F: FnOnce(B) -> ConduitM<I, O, C, K2>,
        requires
            self.wf(),
            pure_arrow(f, |b: B| <R::K as Resume<I, O, B>>::out(b)),
        ensures
            k.wf(),
            forall|a: A| k.spec_run(a) == bind_step::<I, O, B, C, R::K, K2, F>(self.spec_run(a), f),
    {
        Kleisli { arrow: Append { arrow: self.arrow, f, mid: core::marker::PhantomData }, types: core::marker::PhantomData }
    }

    /// Builds the conduit for the input `a`.
    pub fn run(self, a: A) -> (r: ConduitM<I, O, B, R::K>)
        requires
            self.wf(),
        ensures
            r.inv(),
            r@ == self.spec_run(a),
    {
        self.arrow.apply(a)
    }
}

} // verus!
