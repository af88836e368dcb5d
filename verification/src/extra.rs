use vstd::prelude::*;
use crate::chunk::Chunk;
use crate::conduit::{Action, ConduitM, Done, Resume, conts_satisfy, shape};

verus! {

/// The continuation of `source_iter`: the values still to be produced.
pub struct SourceIter<O> {
    items: Vec<O>,
}

/// What a `source_iter` continuation with `rest` still to produce does: yield
/// the first value alone, or finish when there is none.
pub open spec fn iter_step<I, O>(rest: Seq<O>) -> Action<I, O, (), Seq<O>> {
    if rest.len() == 0 {
        Action::Pure(())
    } else {
        Action::Yield(seq![rest[0]], rest.drop_first())
    }
}

impl<O> SourceIter<O> {
    /// The values still to be produced.
    pub closed spec fn rest(&self) -> Seq<O> {
        self.items@
    }

    fn step<I>(self) -> (r: ConduitM<I, O, (), SourceIter<O>>)
        ensures
            shape(r, |a: ()| a, |k: SourceIter<O>| k.rest()) == iter_step::<I, O>(self.rest()),
    {
        let mut items = self.items;
        if items.len() == 0 {
            ConduitM::Pure(())
        } else {
            let ghost whole = items@;
            let x = items.remove(0);
            let mut v = Vec::with_capacity(1);
            v.push(x);
            proof {
                assert(v@ =~= seq![whole[0]]);
                assert(items@ =~= whole.drop_first());
            }
            ConduitM::Yield(v, SourceIter { items })
        }
    }
}

impl<I, O> Resume<I, O, ()> for SourceIter<O> {
    type Out = ();

    type Model = Seq<O>;

    open spec fn out(a: ()) -> () {
        a
    }

    open spec fn model(&self) -> Seq<O> {
        self.rest()
    }

    open spec fn inv(&self) -> bool {
        true
    }

    open spec fn spec_resume(m: Seq<O>) -> Action<I, O, (), Seq<O>> {
        iter_step(m)
    }

    open spec fn spec_feed(m: Seq<O>, input: Chunk<Seq<I>>) -> Action<I, O, (), Seq<O>> {
        iter_step(m)
    }

    fn resume(self) -> (r: ConduitM<I, O, (), Self>) {
        self.step()
    }

    fn feed(self, input: Chunk<Vec<I>>) -> (r: ConduitM<I, O, (), Self>) {
        self.step()
    }
}

/// A source that outputs no values.
pub fn source_null<I, O>() -> (r: ConduitM<I, O, (), Done>)
    ensures
        r.inv(),
        r@ == Action::<I, O, (), ()>::Pure(()),
{
    ConduitM::Pure(())
}

/// A source that outputs the given values, one at a time, in order.
pub fn source_iter<I, O>(items: Vec<O>) -> (r: ConduitM<I, O, (), SourceIter<O>>)
    ensures
        r.inv(),
        r@ == iter_step::<I, O>(items@),
{
    SourceIter { items }.step()
}


/// The continuation of `c.extend_iter(items)`: running `c` with the values
/// still to produce, or producing them with the result of `c`.
pub enum ExtendIter<A, K, O> {
    Run(K, Vec<O>),
    Emit(A, Vec<O>),
}

/// The model of an `ExtendIter` continuation.
pub enum ExtendModel<M, R, O> {
    Run(M, Seq<O>),
    Emit(R, Seq<O>),
}

/// What `c.extend_iter(items)` does once `c` has finished with (the model)
/// `e` and `rest` is still to be produced.
pub open spec fn emit_step<I, O, R, M>(e: R, rest: Seq<O>) -> Action<I, O, R, ExtendModel<M, R, O>> {
    if rest.len() == 0 {
        Action::Pure(e)
    } else {
        Action::Yield(seq![rest[0]], ExtendModel::Emit(e, rest.drop_first()))
    }
}

/// The action of `c.extend_iter(items)` given the action of `c`.
pub open spec fn extend_step<I, O, R, M>(c: Action<I, O, R, M>, items: Seq<O>) -> Action<I, O, R, ExtendModel<M, R, O>> {
    match c {
        Action::Pure(e) => emit_step(e, items),
        Action::Defer(m) => Action::Defer(ExtendModel::Run(m, items)),
        Action::Flush(m) => Action::Flush(ExtendModel::Run(m, items)),
        Action::Await(m) => Action::Await(ExtendModel::Run(m, items)),
        Action::Yield(o, m) => Action::Yield(o, ExtendModel::Run(m, items)),
        Action::Leftover(i, m) => Action::Leftover(i, ExtendModel::Run(m, items)),
    }
}

impl<A, K, O> ExtendIter<A, K, O> {
    /// The model of this continuation.
    pub open spec fn state_model<I>(&self) -> ExtendModel<K::Model, K::Out, O> where K: Resume<I, O, A> {
        match self {
            ExtendIter::Run(k, v) => ExtendModel::Run(k.model(), v@),
            ExtendIter::Emit(a, v) => ExtendModel::Emit(K::out(*a), v@),
        }
    }

    /// This continuation can be resumed.
    pub open spec fn state_inv<I>(&self) -> bool where K: Resume<I, O, A> {
        match self {
            ExtendIter::Run(k, _) => k.inv(),
            ExtendIter::Emit(_, _) => true,
        }
    }

    /// What resuming an `ExtendIter` continuation does, on models.
    pub open spec fn resume_model<I>(m: ExtendModel<K::Model, K::Out, O>) -> Action<I, O, K::Out, ExtendModel<K::Model, K::Out, O>> where
        K: Resume<I, O, A>,
    {
        match m {
            ExtendModel::Run(mk, v) => extend_step(K::spec_resume(mk), v),
            ExtendModel::Emit(e, v) => emit_step(e, v),
        }
    }

    /// What feeding an `ExtendIter` continuation does, on models.
    pub open spec fn feed_model<I>(m: ExtendModel<K::Model, K::Out, O>, input: Chunk<Seq<I>>) -> Action<I, O, K::Out, ExtendModel<K::Model, K::Out, O>> where
        K: Resume<I, O, A>,
    {
        match m {
            ExtendModel::Run(mk, v) => extend_step(K::spec_feed(mk, input), v),
            ExtendModel::Emit(e, v) => emit_step(e, v),
        }
    }
}

impl<I, O, A, K: Resume<I, O, A>> Resume<I, O, A> for ExtendIter<A, K, O> {
    type Out = K::Out;

    type Model = ExtendModel<K::Model, K::Out, O>;

    open spec fn out(a: A) -> K::Out {
        K::out(a)
    }

    open spec fn model(&self) -> Self::Model {
        self.state_model::<I>()
    }

    open spec fn inv(&self) -> bool {
        self.state_inv::<I>()
    }

    open spec fn spec_resume(m: Self::Model) -> Action<I, O, K::Out, Self::Model> {
        Self::resume_model(m)
    }

    open spec fn spec_feed(m: Self::Model, input: Chunk<Seq<I>>) -> Action<I, O, K::Out, Self::Model> {
        Self::feed_model(m, input)
    }

    fn resume(self) -> (r: ConduitM<I, O, A, Self>) {
        match self {
            ExtendIter::Run(k, v) => extend_exec(k.resume(), v),
            ExtendIter::Emit(a, v) => emit_exec::<I, O, A, K>(a, v),
        }
    }

    fn feed(self, input: Chunk<Vec<I>>) -> (r: ConduitM<I, O, A, Self>) {
        match self {
            ExtendIter::Run(k, v) => extend_exec(k.feed(input), v),
            ExtendIter::Emit(a, v) => emit_exec::<I, O, A, K>(a, v),
        }
    }
}

fn emit_exec<I, O, A, K: Resume<I, O, A>>(a: A, items: Vec<O>) -> (r: ConduitM<I, O, A, ExtendIter<A, K, O>>)
    ensures
        conts_satisfy(r, |k: ExtendIter<A, K, O>| k.state_inv::<I>()),
        shape(r, |a: A| K::out(a), |k: ExtendIter<A, K, O>| k.state_model::<I>()) == emit_step::<I, O, K::Out, K::Model>(K::out(a), items@),
{
    let mut items = items;
    if items.len() == 0 {
        ConduitM::Pure(a)
    } else {
        let ghost whole = items@;
        let x = items.remove(0);
        let mut v = Vec::with_capacity(1);
        v.push(x);
        proof {
            assert(v@ =~= seq![whole[0]]);
            assert(items@ =~= whole.drop_first());
        }
        ConduitM::Yield(v, ExtendIter::Emit(a, items))
    }
}

fn extend_exec<I, O, A, K: Resume<I, O, A>>(c: ConduitM<I, O, A, K>, items: Vec<O>) -> (r: ConduitM<I, O, A, ExtendIter<A, K, O>>)
    requires
        c.inv(),
    ensures
        conts_satisfy(r, |k: ExtendIter<A, K, O>| k.state_inv::<I>()),
        shape(r, |a: A| K::out(a), |k: ExtendIter<A, K, O>| k.state_model::<I>()) == extend_step(c@, items@),
{
    match c {
        ConduitM::Pure(a) => emit_exec::<I, O, A, K>(a, items),
        ConduitM::Defer(k) => ConduitM::Defer(ExtendIter::Run(k, items)),
        ConduitM::Flush(k) => ConduitM::Flush(ExtendIter::Run(k, items)),
        ConduitM::Await(k) => ConduitM::Await(ExtendIter::Run(k, items)),
        ConduitM::Yield(o, k) => ConduitM::Yield(o, ExtendIter::Run(k, items)),
        ConduitM::Leftover(i, k) => ConduitM::Leftover(i, ExtendIter::Run(k, items)),
    }
}

impl<I, O, A, K: Resume<I, O, A>> ConduitM<I, O, A, K> {
    /// Runs this conduit, then produces the given values one at a time, in
    /// order, and finishes with the result of this conduit.
    pub fn extend_iter(self, items: Vec<O>) -> (r: ConduitM<I, O, A, ExtendIter<A, K, O>>)
        requires
            self.inv(),
        ensures
            r.inv(),
            r@ == extend_step(self@, items@),
    {
        extend_exec(self, items)
    }
}

} // verus!
