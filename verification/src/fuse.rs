use vstd::prelude::*;
use crate::chunk::{Chunk, chunk_view};
use crate::conduit::{Action, ConduitM, Resume, conts_satisfy, shape};
use crate::connect::stack_view;

verus! {

enum FuseState<I, O, K1, K2> {
    /// Resume the right side.
    Right(Vec<Vec<O>>, ConduitM<I, O, (), K1>, K2),
    /// Feed the right side a chunk.
    FeedRight(Vec<Vec<O>>, ConduitM<I, O, (), K1>, K2, Chunk<Vec<O>>),
    /// Resume the left side and feed the right side a chunk.
    Both(Vec<Vec<O>>, K1, K2, Chunk<Vec<O>>),
    /// Resume (or feed) the left side while the right side awaits.
    Left(Vec<Vec<O>>, K1, K2),
}

/// The continuation of `left.fuse(right)`. Besides the two sides it holds
/// the chunks the right side handed back, which are fed to it again before
/// anything the left side yields (the last one first).
pub struct Fuse<I, O, P, A, K1, K2> {
    state: FuseState<I, O, K1, K2>,
    right: core::marker::PhantomData<(P, A)>,
}

/// The model of a `Fuse` continuation.
pub enum FuseModel<I, O, R1, M1, M2> {
    Right(Seq<Seq<O>>, Action<I, O, R1, M1>, M2),
    FeedRight(Seq<Seq<O>>, Action<I, O, R1, M1>, M2, Chunk<Seq<O>>),
    Both(Seq<Seq<O>>, M1, M2, Chunk<Seq<O>>),
    Left(Seq<Seq<O>>, M1, M2),
}

/// The action of the fusion of `left` and `right`, where `pending` holds the
/// chunks `right` handed back.
///
/// The right side runs; when it awaits input, it receives first the chunks
/// it handed back, then what the left side yields, a flush when the left side
/// flushes, or the end of the stream when the left side finishes. The left
/// side's awaiting and leftovers become those of the fusion.
pub open spec fn fuse_step<I, O, P, R1, R2, M1, M2>(
    pending: Seq<Seq<O>>,
    left: Action<I, O, R1, M1>,
    right: Action<O, P, R2, M2>,
) -> Action<I, P, R2, FuseModel<I, O, R1, M1, M2>> {
    match right {
        Action::Pure(r) => Action::Pure(r),
        Action::Defer(m) => Action::Defer(FuseModel::Right(pending, left, m)),
        Action::Flush(m) => Action::Flush(FuseModel::Right(pending, left, m)),
        Action::Yield(c, m) => Action::Yield(c, FuseModel::Right(pending, left, m)),
        Action::Leftover(o, m) => Action::Defer(FuseModel::Right(pending.push(o), left, m)),
        Action::Await(m) => if pending.len() > 0 {
            Action::Defer(FuseModel::FeedRight(pending.drop_last(), left, m, Chunk::Chunk(pending.last())))
        } else {
            match left {
                Action::Pure(_) => Action::Defer(FuseModel::FeedRight(pending, left, m, Chunk::End)),
                Action::Defer(ml) => Action::Defer(FuseModel::Left(pending, ml, m)),
                Action::Flush(ml) => Action::Flush(FuseModel::Both(pending, ml, m, Chunk::Flush)),
                Action::Yield(o, ml) => Action::Defer(FuseModel::Both(pending, ml, m, Chunk::Chunk(o))),
                Action::Leftover(i, ml) => Action::Leftover(i, FuseModel::Left(pending, ml, m)),
                Action::Await(ml) => Action::Await(FuseModel::Left(pending, ml, m)),
            }
        },
    }
}

impl<I, O, P, A, K1, K2> Fuse<I, O, P, A, K1, K2> {
    /// The model of this continuation.
    pub closed spec fn state_model(&self) -> FuseModel<I, O, K1::Out, K1::Model, K2::Model> where
        K1: Resume<I, O, ()>,
        K2: Resume<O, P, A>,
    {
        match self.state {
            FuseState::Right(p, l, k) => FuseModel::Right(stack_view(p@), l@, k.model()),
            FuseState::FeedRight(p, l, k, c) => FuseModel::FeedRight(stack_view(p@), l@, k.model(), chunk_view(c)),
            FuseState::Both(p, kl, k, c) => FuseModel::Both(stack_view(p@), kl.model(), k.model(), chunk_view(c)),
            FuseState::Left(p, kl, k) => FuseModel::Left(stack_view(p@), kl.model(), k.model()),
        }
    }

    /// This continuation can be resumed.
    pub closed spec fn state_inv(&self) -> bool where
        K1: Resume<I, O, ()>,
        K2: Resume<O, P, A>,
    {
        match self.state {
            FuseState::Right(_, l, k) => l.inv() && k.inv(),
            FuseState::FeedRight(_, l, k, _) => l.inv() && k.inv(),
            FuseState::Both(_, kl, k, _) => kl.inv() && k.inv(),
            FuseState::Left(_, kl, k) => kl.inv() && k.inv(),
        }
    }

    /// What resuming a `Fuse` continuation does, on models.
    pub open spec fn resume_model(m: FuseModel<I, O, K1::Out, K1::Model, K2::Model>) -> Action<
        I,
        P,
        K2::Out,
        FuseModel<I, O, K1::Out, K1::Model, K2::Model>,
    > where K1: Resume<I, O, ()>, K2: Resume<O, P, A> {
        match m {
            FuseModel::Right(p, l, m2) => fuse_step(p, l, K2::spec_resume(m2)),
            FuseModel::FeedRight(p, l, m2, c) => fuse_step(p, l, K2::spec_feed(m2, c)),
            FuseModel::Both(p, m1, m2, c) => fuse_step(p, K1::spec_resume(m1), K2::spec_feed(m2, c)),
            FuseModel::Left(p, m1, m2) => fuse_step(p, K1::spec_resume(m1), Action::Await(m2)),
        }
    }

    /// What feeding a `Fuse` continuation does, on models.
    pub open spec fn feed_model(m: FuseModel<I, O, K1::Out, K1::Model, K2::Model>, input: Chunk<Seq<I>>) -> Action<
        I,
        P,
        K2::Out,
        FuseModel<I, O, K1::Out, K1::Model, K2::Model>,
    > where K1: Resume<I, O, ()>, K2: Resume<O, P, A> {
        match m {
            FuseModel::Left(p, m1, m2) => fuse_step(p, K1::spec_feed(m1, input), Action::Await(m2)),
            _ => Self::resume_model(m),
        }
    }
}

impl<I, O, P, A, K1, K2> Resume<I, P, A> for Fuse<I, O, P, A, K1, K2> where
    K1: Resume<I, O, ()>,
    K2: Resume<O, P, A>,
 {
    type Out = K2::Out;

    type Model = FuseModel<I, O, K1::Out, K1::Model, K2::Model>;

    open spec fn out(a: A) -> K2::Out {
        K2::out(a)
    }

    open spec fn model(&self) -> Self::Model {
        self.state_model()
    }

    open spec fn inv(&self) -> bool {
        self.state_inv()
    }

    open spec fn spec_resume(m: Self::Model) -> Action<I, P, K2::Out, Self::Model> {
        Self::resume_model(m)
    }

    open spec fn spec_feed(m: Self::Model, input: Chunk<Seq<I>>) -> Action<I, P, K2::Out, Self::Model> {
        Self::feed_model(m, input)
    }

    fn resume(self) -> (r: ConduitM<I, P, A, Self>) {
        fuse_resume(self)
    }

    fn feed(self, input: Chunk<Vec<I>>) -> (r: ConduitM<I, P, A, Self>) {
        match self.state {
            FuseState::Left(p, kl, k) => fuse_exec(p, kl.feed(input), ConduitM::Await(k)),
            _ => fuse_resume(self),
        }
    }
}

fn fuse_resume<I, O, P, A, K1, K2>(fu: Fuse<I, O, P, A, K1, K2>) -> (r: ConduitM<I, P, A, Fuse<I, O, P, A, K1, K2>>) where
    K1: Resume<I, O, ()>,
    K2: Resume<O, P, A>,
    requires
        fu.state_inv(),
    ensures
        conts_satisfy(r, |k: Fuse<I, O, P, A, K1, K2>| k.state_inv()),
        shape(r, |a: A| K2::out(a), |k: Fuse<I, O, P, A, K1, K2>| k.state_model())
            == Fuse::<I, O, P, A, K1, K2>::resume_model(fu.state_model()),
{
    match fu.state {
        FuseState::Right(p, l, k) => fuse_exec(p, l, k.resume()),
        FuseState::FeedRight(p, l, k, c) => fuse_exec(p, l, k.feed(c)),
        FuseState::Both(p, kl, k, c) => fuse_exec(p, kl.resume(), k.feed(c)),
        FuseState::Left(p, kl, k) => fuse_exec(p, kl.resume(), ConduitM::Await(k)),
    }
}

fn mk<I, O, P, A, K1, K2>(s: FuseState<I, O, K1, K2>) -> (r: Fuse<I, O, P, A, K1, K2>)
    ensures
        r.state == s,
{
    Fuse { state: s, right: core::marker::PhantomData }
}

fn fuse_exec<I, O, P, A, K1, K2>(
    pending: Vec<Vec<O>>,
    left: ConduitM<I, O, (), K1>,
    right: ConduitM<O, P, A, K2>,
) -> (r: ConduitM<I, P, A, Fuse<I, O, P, A, K1, K2>>) where
    K1: Resume<I, O, ()>,
    K2: Resume<O, P, A>,
    requires
        left.inv(),
        right.inv(),
    ensures
        conts_satisfy(r, |k: Fuse<I, O, P, A, K1, K2>| k.state_inv()),
        shape(r, |a: A| K2::out(a), |k: Fuse<I, O, P, A, K1, K2>| k.state_model())
            == fuse_step(stack_view(pending@), left@, right@),
{
    let ghost st = stack_view(pending@);
    let mut pending = pending;
    match right {
        ConduitM::Pure(a) => ConduitM::Pure(a),
        ConduitM::Defer(k) => ConduitM::Defer(mk(FuseState::Right(pending, left, k))),
        ConduitM::Flush(k) => ConduitM::Flush(mk(FuseState::Right(pending, left, k))),
        ConduitM::Yield(c, k) => ConduitM::Yield(c, mk(FuseState::Right(pending, left, k))),
        ConduitM::Leftover(o, k) => {
            pending.push(o);
            proof {
                assert(stack_view(pending@) =~= st.push(o@));
            }
            ConduitM::Defer(mk(FuseState::Right(pending, left, k)))
        },
        ConduitM::Await(k) => {
            if pending.len() > 0 {
                let o = pending.pop().unwrap();
                proof {
                    assert(stack_view(pending@) =~= st.drop_last());
                }
                ConduitM::Defer(mk(FuseState::FeedRight(pending, left, k, Chunk::Chunk(o))))
            } else {
                match left {
                    ConduitM::Pure(x) => ConduitM::Defer(mk(FuseState::FeedRight(pending, ConduitM::Pure(x), k, Chunk::End))),
                    ConduitM::Defer(kl) => ConduitM::Defer(mk(FuseState::Left(pending, kl, k))),
                    ConduitM::Flush(kl) => ConduitM::Flush(mk(FuseState::Both(pending, kl, k, Chunk::Flush))),
                    ConduitM::Yield(o, kl) => ConduitM::Defer(mk(FuseState::Both(pending, kl, k, Chunk::Chunk(o)))),
                    ConduitM::Leftover(i, kl) => ConduitM::Leftover(i, mk(FuseState::Left(pending, kl, k))),
                    ConduitM::Await(kl) => ConduitM::Await(mk(FuseState::Left(pending, kl, k))),
                }
            }
        },
    }
}

impl<I, O, K1: Resume<I, O, ()>> ConduitM<I, O, (), K1> {
    /// Combines this conduit with a downstream one: what this one yields,
    /// the other one consumes.
    pub fn fuse<P, A, K2: Resume<O, P, A>>(self, other: ConduitM<O, P, A, K2>) -> (r: ConduitM<I, P, A, Fuse<I, O, P, A, K1, K2>>)
        requires
            self.inv(),
            other.inv(),
        ensures
            r.inv(),
            r@ == fuse_step(Seq::<Seq<O>>::empty(), self@, other@),
    {
        let pending: Vec<Vec<O>> = Vec::new();
        proof {
            assert(stack_view(pending@) =~= Seq::<Seq<O>>::empty());
        }
        fuse_exec(pending, self, other)
    }
}

} // verus!
