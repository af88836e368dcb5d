use vstd::prelude::*;
use crate::chunk::Chunk;
use crate::conduit::{
    Action, ConduitM, Resume, Void, conts_satisfy, pure_apply1, pure_apply2, pure_fn1, pure_fn2, shape,
};

verus! {

// ---------------------------------------------------------------- to_consumer

/// The continuation of `to_consumer`.
pub struct ToConsumer<K> {
    pub inner: K,
}

/// The action of `sink.to_consumer()` given the action of `sink`: what the
/// sink yields (nothing) becomes a deferral.
pub open spec fn consumer_step<I, O, R, M>(c: Action<I, Void, R, M>) -> Action<I, O, R, ToConsumer<M>> {
    match c {
        Action::Pure(x) => Action::Pure(x),
        Action::Defer(m) => Action::Defer(ToConsumer { inner: m }),
        Action::Flush(m) => Action::Flush(ToConsumer { inner: m }),
        Action::Await(m) => Action::Await(ToConsumer { inner: m }),
        Action::Yield(_, m) => Action::Defer(ToConsumer { inner: m }),
        Action::Leftover(v, m) => Action::Leftover(v, ToConsumer { inner: m }),
    }
}

impl<I, O, A, K: Resume<I, Void, A>> Resume<I, O, A> for ToConsumer<K> {
    type Out = K::Out;

    type Model = ToConsumer<K::Model>;

    open spec fn out(a: A) -> K::Out {
        K::out(a)
    }

    open spec fn model(&self) -> ToConsumer<K::Model> {
        ToConsumer { inner: self.inner.model() }
    }

    open spec fn inv(&self) -> bool {
        self.inner.inv()
    }

    open spec fn spec_resume(m: ToConsumer<K::Model>) -> Action<I, O, K::Out, ToConsumer<K::Model>> {
        consumer_step(K::spec_resume(m.inner))
    }

    open spec fn spec_feed(m: ToConsumer<K::Model>, input: Chunk<Seq<I>>) -> Action<I, O, K::Out, ToConsumer<K::Model>> {
        consumer_step(K::spec_feed(m.inner, input))
    }

    fn resume(self) -> (r: ConduitM<I, O, A, Self>) {
        consumer_exec(self.inner.resume())
    }

    fn feed(self, input: Chunk<Vec<I>>) -> (r: ConduitM<I, O, A, Self>) {
        consumer_exec(self.inner.feed(input))
    }
}

fn consumer_exec<I, O, A, K: Resume<I, Void, A>>(c: ConduitM<I, Void, A, K>) -> (r: ConduitM<I, O, A, ToConsumer<K>>)
    requires
        c.inv(),
    ensures
        conts_satisfy(r, |k: ToConsumer<K>| k.inner.inv()),
        shape(r, |a: A| K::out(a), |k: ToConsumer<K>| ToConsumer { inner: k.inner.model() })
            == consumer_step::<I, O, K::Out, K::Model>(c@),
{
    match c {
        ConduitM::Pure(x) => ConduitM::Pure(x),
        ConduitM::Defer(k) => ConduitM::Defer(ToConsumer { inner: k }),
        ConduitM::Flush(k) => ConduitM::Flush(ToConsumer { inner: k }),
        ConduitM::Await(k) => ConduitM::Await(ToConsumer { inner: k }),
        ConduitM::Yield(_, k) => ConduitM::Defer(ToConsumer { inner: k }),
        ConduitM::Leftover(v, k) => ConduitM::Leftover(v, ToConsumer { inner: k }),
    }
}

impl<I, A, K: Resume<I, Void, A>> ConduitM<I, Void, A, K> {
    /// Generalizes a sink to any output type.
    pub fn to_consumer<O>(self) -> (r: ConduitM<I, O, A, ToConsumer<K>>)
        requires
            self.inv(),
        ensures
            r.inv(),
            r@ == consumer_step::<I, O, K::Out, K::Model>(self@),
    {
        consumer_exec(self)
    }
}

// ---------------------------------------------------------------- sinks

/// A step of a sink: combines the value so far with the next input, giving
/// `Ok` to go on or `Err` to stop, each with the new value.
pub trait Combine<A, I> {
    spec fn wf(&self) -> bool;

    spec fn spec_combine(&self, a: A, i: I) -> Result<A, A>;

    fn combine(&self, a: A, i: I) -> (r: Result<A, A>)
        requires
            self.wf(),
        ensures
            r == self.spec_combine(a, i),
    ;
}

/// A step of a fold: never stops the sink.
pub struct Folding<F> {
    pub f: F,
}

impl<A, I, F: Fn(A, I) -> A> Combine<A, I> for Folding<F> {
    open spec fn wf(&self) -> bool {
        pure_fn2(self.f)
    }

    open spec fn spec_combine(&self, a: A, i: I) -> Result<A, A> {
        Ok(pure_apply2(self.f, a, i))
    }

    fn combine(&self, a: A, i: I) -> (r: Result<A, A>) {
        Ok((self.f)(a, i))
    }
}

/// The continuation of a sink built by `fold`: waiting for input with the
/// value so far, or about to combine the value so far with an input.
pub enum SinkK<A, I, S> {
    Wait(A, S),
    Got(A, I, S),
}

/// What a waiting sink with value `a` does with a chunk.
pub open spec fn sink_feed<A, I, S>(a: A, s: S, input: Chunk<Seq<I>>) -> Action<I, Void, A, SinkK<A, I, S>> {
    match input {
        Chunk::End => Action::Pure(a),
        Chunk::Flush => Action::Await(SinkK::Wait(a, s)),
        Chunk::Chunk(v) => if v.len() == 0 {
            Action::Await(SinkK::Wait(a, s))
        } else {
            Action::Leftover(v.drop_first(), SinkK::Got(a, v[0], s))
        },
    }
}

/// What a sink that took input `i` does: combines, then waits again or stops.
pub open spec fn sink_got<A, I, S: Combine<A, I>>(a: A, i: I, s: S) -> Action<I, Void, A, SinkK<A, I, S>> {
    match s.spec_combine(a, i) {
        Ok(b) => Action::Await(SinkK::Wait(b, s)),
        Err(b) => Action::Pure(b),
    }
}

impl<A, I, S: Combine<A, I>> Resume<I, Void, A> for SinkK<A, I, S> {
    type Out = A;

    type Model = SinkK<A, I, S>;

    open spec fn out(a: A) -> A {
        a
    }

    open spec fn model(&self) -> SinkK<A, I, S> {
        *self
    }

    open spec fn inv(&self) -> bool {
        match self {
            SinkK::Wait(_, s) => s.wf(),
            SinkK::Got(_, _, s) => s.wf(),
        }
    }

    open spec fn spec_resume(m: SinkK<A, I, S>) -> Action<I, Void, A, SinkK<A, I, S>> {
        match m {
            SinkK::Wait(a, s) => Action::Await(SinkK::Wait(a, s)),
            SinkK::Got(a, i, s) => sink_got(a, i, s),
        }
    }

    open spec fn spec_feed(m: SinkK<A, I, S>, input: Chunk<Seq<I>>) -> Action<I, Void, A, SinkK<A, I, S>> {
        match m {
            SinkK::Wait(a, s) => sink_feed(a, s, input),
            SinkK::Got(a, i, s) => sink_got(a, i, s),
        }
    }

    fn resume(self) -> (r: ConduitM<I, Void, A, Self>) {
        match self {
            SinkK::Wait(a, s) => ConduitM::Await(SinkK::Wait(a, s)),
            SinkK::Got(a, i, s) => sink_combine(a, i, s),
        }
    }

    fn feed(self, input: Chunk<Vec<I>>) -> (r: ConduitM<I, Void, A, Self>) {
        match self {
            SinkK::Wait(a, s) => match input {
                Chunk::End => ConduitM::Pure(a),
                Chunk::Flush => ConduitM::Await(SinkK::Wait(a, s)),
                Chunk::Chunk(mut is) => {
                    if is.len() > 0 {
                        let ghost whole = is@;
                        let i = is.remove(0);
                        proof {
                            assert(is@ =~= whole.drop_first());
                        }
                        ConduitM::Leftover(is, SinkK::Got(a, i, s))
                    } else {
                        ConduitM::Await(SinkK::Wait(a, s))
                    }
                },
            },
            SinkK::Got(a, i, s) => sink_combine(a, i, s),
        }
    }
}

fn sink_combine<A, I, S: Combine<A, I>>(a: A, i: I, s: S) -> (r: ConduitM<I, Void, A, SinkK<A, I, S>>)
    requires
        s.wf(),
    ensures
        conts_satisfy(r, |k: SinkK<A, I, S>| match k {
            SinkK::Wait(_, s) => s.wf(),
            SinkK::Got(_, _, s) => s.wf(),
        }),
        shape(r, |a: A| a, |k: SinkK<A, I, S>| k) == sink_got(a, i, s),
{
    match s.combine(a, i) {
        Ok(b) => ConduitM::Await(SinkK::Wait(b, s)),
        Err(b) => ConduitM::Pure(b),
    }
}

/// A sink that starts from `a` and combines it with each value from
/// upstream, until `s` stops it or the stream ends.
fn sink<A, I, S: Combine<A, I>>(a: A, s: S) -> (r: ConduitM<I, Void, A, SinkK<A, I, S>>)
    requires
        s.wf(),
    ensures
        r.inv(),
        r@ == Action::<I, Void, A, SinkK<A, I, S>>::Await(SinkK::Wait(a, s)),
{
    ConduitM::Await(SinkK::Wait(a, s))
}

impl<A, I, F: Fn(A, I) -> A> ConduitM<I, Void, A, SinkK<A, I, Folding<F>>> {
    /// Folds all values from upstream into a final value, starting from `a`.
    pub fn fold(a: A, f: F) -> (r: Self)
        requires
            pure_fn2(f),
        ensures
            r.inv(),
            r@ == Action::<I, Void, A, SinkK<A, I, Folding<F>>>::Await(SinkK::Wait(a, Folding { f })),
    {
        sink(a, Folding { f })
    }
}

// ---------------------------------------------------------------- transform

/// The continuation of `transform(f)`: waiting for input, about to emit
/// `f(i)`, or about to wait again.
pub enum Transform<I, F> {
    Wait(F),
    Emit(I, F),
    Next(F),
}

/// What a waiting `transform` does with a chunk.
pub open spec fn transform_feed<I, O, F>(f: F, input: Chunk<Seq<I>>) -> Action<I, O, (), Transform<I, F>> {
    match input {
        Chunk::End => Action::Pure(()),
        Chunk::Flush => Action::Await(Transform::Wait(f)),
        Chunk::Chunk(v) => if v.len() == 0 {
            Action::Await(Transform::Wait(f))
        } else {
            Action::Leftover(v.drop_first(), Transform::Emit(v[0], f))
        },
    }
}

/// What a `transform` continuation does when resumed.
pub open spec fn transform_resume<I, O, F: Fn(I) -> O>(m: Transform<I, F>) -> Action<I, O, (), Transform<I, F>> {
    match m {
        Transform::Wait(f) => Action::Await(Transform::Wait(f)),
        Transform::Emit(i, f) => Action::Yield(seq![pure_apply1(f, i)], Transform::Next(f)),
        Transform::Next(f) => Action::Await(Transform::Wait(f)),
    }
}

impl<I, O, F: Fn(I) -> O> Resume<I, O, ()> for Transform<I, F> {
    type Out = ();

    type Model = Transform<I, F>;

    open spec fn out(a: ()) -> () {
        a
    }

    open spec fn model(&self) -> Transform<I, F> {
        *self
    }

    open spec fn inv(&self) -> bool {
        match self {
            Transform::Wait(f) => pure_fn1(*f),
            Transform::Emit(_, f) => pure_fn1(*f),
            Transform::Next(f) => pure_fn1(*f),
        }
    }

    open spec fn spec_resume(m: Transform<I, F>) -> Action<I, O, (), Transform<I, F>> {
        transform_resume(m)
    }

    open spec fn spec_feed(m: Transform<I, F>, input: Chunk<Seq<I>>) -> Action<I, O, (), Transform<I, F>> {
        match m {
            Transform::Wait(f) => transform_feed(f, input),
            _ => transform_resume(m),
        }
    }

    fn resume(self) -> (r: ConduitM<I, O, (), Self>) {
        transform_exec(self)
    }

    fn feed(self, input: Chunk<Vec<I>>) -> (r: ConduitM<I, O, (), Self>) {
        match self {
            Transform::Wait(f) => match input {
                Chunk::End => ConduitM::Pure(()),
                Chunk::Flush => ConduitM::Await(Transform::Wait(f)),
                Chunk::Chunk(mut is) => {
                    if is.len() > 0 {
                        let ghost whole = is@;
                        let i = is.remove(0);
                        proof {
                            assert(is@ =~= whole.drop_first());
                        }
                        ConduitM::Leftover(is, Transform::Emit(i, f))
                    } else {
                        ConduitM::Await(Transform::Wait(f))
                    }
                },
            },
            _ => transform_exec(self),
        }
    }
}

fn transform_exec<I, O, F: Fn(I) -> O>(t: Transform<I, F>) -> (r: ConduitM<I, O, (), Transform<I, F>>)
    requires
        match t {
            Transform::Wait(f) => pure_fn1(f),
            Transform::Emit(_, f) => pure_fn1(f),
            Transform::Next(f) => pure_fn1(f),
        },
    ensures
        conts_satisfy(r, |k: Transform<I, F>| match k {
            Transform::Wait(f) => pure_fn1(f),
            Transform::Emit(_, f) => pure_fn1(f),
            Transform::Next(f) => pure_fn1(f),
        }),
        shape(r, |a: ()| a, |k: Transform<I, F>| k) == transform_resume(t),
{
    match t {
        Transform::Wait(f) => ConduitM::Await(Transform::Wait(f)),
        Transform::Emit(i, f) => {
            let o = f(i);
            let mut v = Vec::with_capacity(1);
            v.push(o);
            proof {
                assert(v@ =~= seq![pure_apply1(f, i)]);
            }
            ConduitM::Yield(v, Transform::Next(f))
        },
        Transform::Next(f) => ConduitM::Await(Transform::Wait(f)),
    }
}

impl<I, O, F: Fn(I) -> O> ConduitM<I, O, (), Transform<I, F>> {
    /// Applies `f` to every value of the stream.
    pub fn transform(f: F) -> (r: Self)
        requires
            pure_fn1(f),
        ensures
            r.inv(),
            r@ == Action::<I, O, (), Transform<I, F>>::Await(Transform::Wait(f)),
    {
        ConduitM::Await(Transform::Wait(f))
    }
}

} // verus!
