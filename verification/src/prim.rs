use vstd::prelude::*;
use crate::chunk::{Chunk, chunk_view};
use crate::conduit::{Action, ConduitM, Resume};

verus! {

/// A continuation that finishes with a value it holds.
pub struct Ret<A> {
    pub value: A,
}

impl<I, O, A> Resume<I, O, A> for Ret<A> {
    type Out = A;

    type Model = A;

    open spec fn out(a: A) -> A {
        a
    }

    open spec fn model(&self) -> A {
        self.value
    }

    open spec fn inv(&self) -> bool {
        true
    }

    open spec fn spec_resume(m: A) -> Action<I, O, A, A> {
        Action::Pure(m)
    }

    open spec fn spec_feed(m: A, input: Chunk<Seq<I>>) -> Action<I, O, A, A> {
        Action::Pure(m)
    }

    fn resume(self) -> (r: ConduitM<I, O, A, Self>) {
        ConduitM::Pure(self.value)
    }

    fn feed(self, input: Chunk<Vec<I>>) -> (r: ConduitM<I, O, A, Self>) {
        ConduitM::Pure(self.value)
    }
}

/// The continuation of `consume_chunk`: finishes with the chunk it is fed.
pub struct TakeChunk {
    idle: (),
}

impl<I, O> Resume<I, O, Chunk<Vec<I>>> for TakeChunk {
    type Out = Chunk<Seq<I>>;

    type Model = ();

    open spec fn out(a: Chunk<Vec<I>>) -> Chunk<Seq<I>> {
        chunk_view(a)
    }

    open spec fn model(&self) -> () {
        ()
    }

    open spec fn inv(&self) -> bool {
        true
    }

    open spec fn spec_resume(m: ()) -> Action<I, O, Chunk<Seq<I>>, ()> {
        Action::Await(())
    }

    open spec fn spec_feed(m: (), input: Chunk<Seq<I>>) -> Action<I, O, Chunk<Seq<I>>, ()> {
        Action::Pure(input)
    }

    fn resume(self) -> (r: ConduitM<I, O, Chunk<Vec<I>>, Self>) {
        ConduitM::Await(self)
    }

    fn feed(self, input: Chunk<Vec<I>>) -> (r: ConduitM<I, O, Chunk<Vec<I>>, Self>) {
        ConduitM::Pure(input)
    }
}

/// The continuation of `consume`: waiting for input, or about to hand out
/// the value it took.
pub enum Consume<I> {
    Wait,
    Give(I),
}

/// What `consume` does with a chunk while it waits: the end of the stream
/// gives `None`; a flush or an empty chunk leaves it waiting; otherwise it
/// takes the first value and hands the rest back upstream.
pub open spec fn consume_feed<I, O>(input: Chunk<Seq<I>>) -> Action<I, O, Option<I>, Consume<I>> {
    match input {
        Chunk::End => Action::Pure(None),
        Chunk::Flush => Action::Await(Consume::Wait),
        Chunk::Chunk(v) => if v.len() == 0 {
            Action::Await(Consume::Wait)
        } else {
            Action::Leftover(v.drop_first(), Consume::Give(v[0]))
        },
    }
}

impl<I, O> Resume<I, O, Option<I>> for Consume<I> {
    type Out = Option<I>;

    type Model = Consume<I>;

    open spec fn out(a: Option<I>) -> Option<I> {
        a
    }

    open spec fn model(&self) -> Consume<I> {
        *self
    }

    open spec fn inv(&self) -> bool {
        true
    }

    open spec fn spec_resume(m: Consume<I>) -> Action<I, O, Option<I>, Consume<I>> {
        match m {
            Consume::Wait => Action::Await(Consume::Wait),
            Consume::Give(i) => Action::Pure(Some(i)),
        }
    }

    open spec fn spec_feed(m: Consume<I>, input: Chunk<Seq<I>>) -> Action<I, O, Option<I>, Consume<I>> {
        match m {
            Consume::Wait => consume_feed(input),
            Consume::Give(i) => Action::Pure(Some(i)),
        }
    }

    fn resume(self) -> (r: ConduitM<I, O, Option<I>, Self>) {
        match self {
            Consume::Wait => ConduitM::Await(Consume::Wait),
            Consume::Give(i) => ConduitM::Pure(Some(i)),
        }
    }

    fn feed(self, input: Chunk<Vec<I>>) -> (r: ConduitM<I, O, Option<I>, Self>) {
        match self {
            Consume::Wait => match input {
                Chunk::End => ConduitM::Pure(None),
                Chunk::Flush => ConduitM::Await(Consume::Wait),
                Chunk::Chunk(mut is) => {
                    if is.len() > 0 {
                        let ghost whole = is@;
                        let i = is.remove(0);
                        proof {
                            assert(is@ =~= whole.drop_first());
                        }
                        ConduitM::Leftover(is, Consume::Give(i))
                    } else {
                        ConduitM::Await(Consume::Wait)
                    }
                },
            },
            Consume::Give(i) => ConduitM::Pure(Some(i)),
        }
    }
}

/// Waits for a chunk from upstream and finishes with it, whatever it is.
pub fn consume_chunk<I, O>() -> (r: ConduitM<I, O, Chunk<Vec<I>>, TakeChunk>)
    ensures
        r.inv(),
        r@ == Action::<I, O, Chunk<Seq<I>>, ()>::Await(()),
{
    ConduitM::Await(TakeChunk { idle: () })
}

/// Waits for a single value from upstream: finishes with `Some` of the first
/// value of the first non-empty chunk (handing the rest of that chunk back
/// upstream), or with `None` at the end of the stream.
pub fn consume<I, O>() -> (r: ConduitM<I, O, Option<I>, Consume<I>>)
    ensures
        r.inv(),
        r@ == Action::<I, O, Option<I>, Consume<I>>::Await(Consume::Wait),
{
    ConduitM::Await(Consume::Wait)
}

/// Sends a chunk of values downstream.
pub fn produce_chunk<I, O>(o: Vec<O>) -> (r: ConduitM<I, O, (), Ret<()>>)
    ensures
        r.inv(),
        r@ == Action::<I, O, (), ()>::Yield(o@, ()),
{
    ConduitM::Yield(o, Ret { value: () })
}

/// Sends one value downstream.
pub fn produce<I, O>(o: O) -> (r: ConduitM<I, O, (), Ret<()>>)
    ensures
        r.inv(),
        r@ == Action::<I, O, (), ()>::Yield(seq![o], ()),
{
    let mut v = Vec::with_capacity(1);
    v.push(o);
    proof {
        assert(v@ =~= seq![o]);
    }
    ConduitM::Yield(v, Ret { value: () })
}

/// Defers all further actions by one step.
pub fn defer<I, O>() -> (r: ConduitM<I, O, (), Ret<()>>)
    ensures
        r.inv(),
        r@ == Action::<I, O, (), ()>::Defer(()),
{
    ConduitM::Defer(Ret { value: () })
}

/// Hands a chunk of values back upstream, to be consumed next.
pub fn leftover_chunk<I, O>(i: Vec<I>) -> (r: ConduitM<I, O, (), Ret<()>>)
    ensures
        r.inv(),
        r@ == Action::<I, O, (), ()>::Leftover(i@, ()),
{
    ConduitM::Leftover(i, Ret { value: () })
}

/// Hands one value back upstream, to be consumed next.
pub fn leftover<I, O>(i: I) -> (r: ConduitM<I, O, (), Ret<()>>)
    ensures
        r.inv(),
        r@ == Action::<I, O, (), ()>::Leftover(seq![i], ()),
{
    let mut v = Vec::with_capacity(1);
    v.push(i);
    proof {
        assert(v@ =~= seq![i]);
    }
    ConduitM::Leftover(v, Ret { value: () })
}

} // verus!
