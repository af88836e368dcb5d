use vstd::prelude::*;
use crate::chunk::{Chunk, chunk_view};
use vstd::std_specs::cmp::{PartialEqSpec, PartialEqSpecImpl};

verus! {

/// The input type of a source and the output type of a sink: no value of it
/// exists.
pub type Void = core::convert::Infallible;

/// What a conduit does next, as the specifications see it: payloads by their
/// views, a final result by its model (`R`), and the continuation by its model
/// (`M`).
pub enum Action<I, O, R, M> {
    Pure(R),
    Defer(M),
    Flush(M),
    Await(M),
    Yield(Seq<O>, M),
    Leftover(Seq<I>, M),
}

/// A suspended conduit program: a continuation that, when resumed (or, for a
/// conduit that awaits input, when fed a chunk), gives the next instruction.
///
/// `model` abstracts the continuation, `out` abstracts a final result, and
/// `spec_resume` and `spec_feed` say, on models, what resuming and feeding do.
/// A continuation type that gives no model (one that performs I/O, say) keeps
/// the defaults: its invariant is false, so verified code never runs it.
pub trait Resume<I, O, A>: Sized {
    type Out;

    type Model;

    open spec fn out(a: A) -> Self::Out {
        arbitrary()
    }

    open spec fn model(&self) -> Self::Model {
        arbitrary()
    }

    open spec fn inv(&self) -> bool {
        false
    }

    open spec fn spec_resume(m: Self::Model) -> Action<I, O, Self::Out, Self::Model> {
        arbitrary()
    }

    open spec fn spec_feed(m: Self::Model, input: Chunk<Seq<I>>) -> Action<I, O, Self::Out, Self::Model> {
        arbitrary()
    }

    /// Resumes a conduit that was deferred, flushing, yielding or handing back leftovers.
    fn resume(self) -> (r: ConduitM<I, O, A, Self>)
        requires
            self.inv(),
        ensures
            conts_satisfy(r, |k: Self| k.inv()),
            shape(r, |a: A| Self::out(a), |k: Self| k.model()) == Self::spec_resume(self.model()),
    ;

    /// Resumes a conduit that awaited input, with the chunk that arrived.
    fn feed(self, input: Chunk<Vec<I>>) -> (r: ConduitM<I, O, A, Self>)
        requires
            self.inv(),
        ensures
            conts_satisfy(r, |k: Self| k.inv()),
            shape(r, |a: A| Self::out(a), |k: Self| k.model()) == Self::spec_feed(
                self.model(),
                chunk_view(input),
            ),
    ;
}

/// A conduit: a sequence of await and yield actions.
///
/// - `I` is the type of values the conduit consumes from upstream.
/// - `O` is the type of values the conduit passes downstream.
/// - `A` is the type of its final result.
/// - `K` is the type of its continuation.
pub enum ConduitM<I, O, A, K> {
    /// No further actions; the result is `a`.
    Pure(A),
    /// Needs another iteration to make progress.
    Defer(K),
    /// Instructs the downstream to flush.
    Flush(K),
    /// Waits for a chunk of values of type `I`.
    Await(K),
    /// Passes values of type `O` downstream.
    Yield(Vec<O>, K),
    /// Hands values of type `I` back to the upstream.
    Leftover(Vec<I>, K),
}

/// Every continuation held by `c` satisfies `p`.
pub open spec fn conts_satisfy<I, O, A, K>(c: ConduitM<I, O, A, K>, p: spec_fn(K) -> bool) -> bool {
    match c {
        ConduitM::Pure(_) => true,
        ConduitM::Defer(k) => p(k),
        ConduitM::Flush(k) => p(k),
        ConduitM::Await(k) => p(k),
        ConduitM::Yield(_, k) => p(k),
        ConduitM::Leftover(_, k) => p(k),
    }
}

/// The action of `c`, with results abstracted by `out` and continuations by `m`.
pub open spec fn shape<I, O, A, K, R, M>(
    c: ConduitM<I, O, A, K>,
    out: spec_fn(A) -> R,
    m: spec_fn(K) -> M,
) -> Action<I, O, R, M> {
    match c {
        ConduitM::Pure(a) => Action::Pure(out(a)),
        ConduitM::Defer(k) => Action::Defer(m(k)),
        ConduitM::Flush(k) => Action::Flush(m(k)),
        ConduitM::Await(k) => Action::Await(m(k)),
        ConduitM::Yield(o, k) => Action::Yield(o@, m(k)),
        ConduitM::Leftover(i, k) => Action::Leftover(i@, m(k)),
    }
}

impl<I, O, A, K: Resume<I, O, A>> ConduitM<I, O, A, K> {
    /// The continuation, if any, is in a state it can be resumed from.
    pub open spec fn inv(&self) -> bool {
        conts_satisfy(*self, |k: K| k.inv())
    }
}

impl<I, O, A, K: Resume<I, O, A>> View for ConduitM<I, O, A, K> {
    type V = Action<I, O, K::Out, K::Model>;

    open spec fn view(&self) -> Self::V {
        shape(*self, |a: A| K::out(a), |k: K| k.model())
    }
}

/// The continuation type of a conduit that has already finished. No value of
/// it is ever made by this crate.
pub struct Done {
    idle: (),
}

impl<I, O, A> Resume<I, O, A> for Done {
    type Out = A;

    type Model = ();

    open spec fn out(a: A) -> A {
        a
    }

    open spec fn model(&self) -> () {
        ()
    }

    open spec fn inv(&self) -> bool {
        true
    }

    open spec fn spec_resume(m: ()) -> Action<I, O, A, ()> {
        Action::Defer(())
    }

    open spec fn spec_feed(m: (), input: Chunk<Seq<I>>) -> Action<I, O, A, ()> {
        Action::Defer(())
    }

    fn resume(self) -> (r: ConduitM<I, O, A, Self>) {
        ConduitM::Defer(self)
    }

    fn feed(self, input: Chunk<Vec<I>>) -> (r: ConduitM<I, O, A, Self>) {
        ConduitM::Defer(self)
    }
}

impl<I, O, A> From<A> for ConduitM<I, O, A, Done> {
    fn from(a: A) -> (r: ConduitM<I, O, A, Done>) {
        ConduitM::Pure(a)
    }
}

impl<I, O, A> vstd::std_specs::convert::FromSpecImpl<A> for ConduitM<I, O, A, Done> {
    open spec fn obeys_from_spec() -> bool {
        true
    }

    open spec fn from_spec(a: A) -> ConduitM<I, O, A, Done> {
        ConduitM::Pure(a)
    }
}

/// Two conduits are equal when both have finished with equal results.
impl<I, O, A: PartialEq, K, K2> PartialEq<ConduitM<I, O, A, K2>> for ConduitM<I, O, A, K> {
    fn eq(&self, other: &ConduitM<I, O, A, K2>) -> (r: bool) {
        match (self, other) {
            (ConduitM::Pure(a), ConduitM::Pure(b)) => a == b,
            _ => false,
        }
    }
}

impl<I, O, A: PartialEq, K, K2> PartialEqSpecImpl<ConduitM<I, O, A, K2>> for ConduitM<I, O, A, K> {
    open spec fn obeys_eq_spec() -> bool {
        <A as PartialEqSpec>::obeys_eq_spec()
    }

    open spec fn eq_spec(&self, other: &ConduitM<I, O, A, K2>) -> bool {
        match (self, other) {
            (ConduitM::Pure(a), ConduitM::Pure(b)) => <A as PartialEqSpec>::eq_spec(a, b),
            _ => false,
        }
    }
}

/// `f` is a pure function of `key` of its argument: it accepts every
/// argument, and arguments with equal keys give equal results.
pub open spec fn pure_fn<X, R, E, F: FnOnce(X) -> R>(f: F, key: spec_fn(X) -> E) -> bool {
    &&& forall|x: X| #[trigger] f.requires((x,))
    &&& forall|x1: X, x2: X, r1: R, r2: R|
        #[trigger] f.ensures((x1,), r1) && #[trigger] f.ensures((x2,), r2) && key(x1) == key(x2)
            ==> r1 == r2
}

/// The result of a pure function `f` on an argument whose key is `e`.
pub open spec fn pure_apply<X, R, E, F: FnOnce(X) -> R>(f: F, key: spec_fn(X) -> E, e: E) -> R {
    (choose|x: X, r: R| key(x) == e && f.ensures((x,), r)).1
}

/// `f` builds conduits as a pure function of `key` of its argument: it
/// accepts every argument, the conduits it returns can be resumed, and
/// arguments with equal keys give conduits with equal views.
pub open spec fn pure_arrow<X, I, O, B, K: Resume<I, O, B>, E, F: FnOnce(X) -> ConduitM<I, O, B, K>>(
    f: F,
    key: spec_fn(X) -> E,
) -> bool {
    &&& forall|x: X| #[trigger] f.requires((x,))
    &&& forall|x: X, r: ConduitM<I, O, B, K>| #[trigger] f.ensures((x,), r) ==> r.inv()
    &&& forall|x1: X, x2: X, r1: ConduitM<I, O, B, K>, r2: ConduitM<I, O, B, K>|
        #[trigger] f.ensures((x1,), r1) && #[trigger] f.ensures((x2,), r2) && key(x1) == key(x2)
            ==> r1@ == r2@
}

/// The view of the conduit that a pure arrow `f` builds from an argument whose key is `e`.
pub open spec fn arrow_apply<X, I, O, B, K: Resume<I, O, B>, E, F: FnOnce(X) -> ConduitM<I, O, B, K>>(
    f: F,
    key: spec_fn(X) -> E,
    e: E,
) -> Action<I, O, K::Out, K::Model> {
    (choose|x: X, r: ConduitM<I, O, B, K>| key(x) == e && f.ensures((x,), r)).1@
}

/// `f` is a pure function of two arguments: it accepts all of them, and
/// equal arguments give equal results.
pub open spec fn pure_fn2<X, Y, R, F: Fn(X, Y) -> R>(f: F) -> bool {
    &&& forall|x: X, y: Y| #[trigger] f.requires((x, y))
    &&& forall|x: X, y: Y, r1: R, r2: R| #[trigger] f.ensures((x, y), r1) && #[trigger] f.ensures((x, y), r2) ==> r1 == r2
}

/// The result of a pure function of two arguments.
pub open spec fn pure_apply2<X, Y, R, F: Fn(X, Y) -> R>(f: F, x: X, y: Y) -> R {
    choose|r: R| f.ensures((x, y), r)
}

/// The result of a pure function of one argument that may be called many times.
pub open spec fn pure_apply1<X, R, F: Fn(X) -> R>(f: F, x: X) -> R {
    choose|r: R| f.ensures((x,), r)
}

/// `f` is a pure function of one argument that may be called many times.
pub open spec fn pure_fn1<X, R, F: Fn(X) -> R>(f: F) -> bool {
    &&& forall|x: X| #[trigger] f.requires((x,))
    &&& forall|x: X, r1: R, r2: R| #[trigger] f.ensures((x,), r1) && #[trigger] f.ensures((x,), r2) ==> r1 == r2
}

} // verus!
