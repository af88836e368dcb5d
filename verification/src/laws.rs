use vstd::prelude::*;
use crate::bind::{
    AndThen, AndThenModel, MapResult, Then, ThenModel, Zip, ZipModel, bind_step, map_step, second, then_second, then_step, zip_second,
    zip_step,
};
use crate::chunk::Chunk;
use crate::conduit::{Action, ConduitM, Resume, Void, arrow_apply, pure_apply, pure_apply1, pure_apply2};
use crate::connect::{ToProducer, connect_fuel, connect_halts, connect_result, lemma_connect_result, producer_step};
use crate::extra::{ExtendIter, SourceIter, emit_step, extend_step, iter_step};
use crate::fuse::{Fuse, FuseModel, fuse_step};
use crate::prim::{Consume, Ret, TakeChunk, consume_feed};
use crate::sink::{Combine, Folding, SinkK, ToConsumer, Transform, consumer_step, sink_feed, transform_feed};

verus! {

// ------------------------------------------------------------ equivalences

/// The sink action `a2` does, in a connection, what `a` does: it finishes
/// with the result `h` gives of `a`'s, or it takes the same kind of step
/// (resuming, awaiting, or handing back the same values) with the
/// continuation model `wm` gives of `a`'s.
pub open spec fn sink_sim<O, R, M, R2, M2>(
    a2: Action<O, Void, R2, M2>,
    a: Action<O, Void, R, M>,
    h: spec_fn(R) -> R2,
    wm: spec_fn(M) -> M2,
) -> bool {
    match a {
        Action::Pure(e) => a2 == Action::<O, Void, R2, M2>::Pure(h(e)),
        Action::Await(m) => a2 == Action::<O, Void, R2, M2>::Await(wm(m)),
        Action::Leftover(v, m) => a2 == Action::<O, Void, R2, M2>::Leftover(v, wm(m)),
        Action::Defer(m) => cont_of(a2) == Some(wm(m)) && (a2 is Defer || a2 is Flush || a2 is Yield),
        Action::Flush(m) => cont_of(a2) == Some(wm(m)) && (a2 is Defer || a2 is Flush || a2 is Yield),
        Action::Yield(_, m) => cont_of(a2) == Some(wm(m)) && (a2 is Defer || a2 is Flush || a2 is Yield),
    }
}

/// A sink `c2` that does what `c` does, step by step (with results mapped by
/// `h`), is connected as `c` is, with the result mapped by `h`.
pub proof fn lemma_sink_sim_connect<O, A, B, K: Resume<O, Void, A>, K2: Resume<O, Void, B>, S: Resume<Void, O, ()>>(
    h: spec_fn(K::Out) -> K2::Out,
    wm: spec_fn(K::Model) -> K2::Model,
    pending: Seq<Seq<O>>,
    src: Action<Void, O, S::Out, S::Model>,
    c: Action<O, Void, K::Out, K::Model>,
    c2: Action<O, Void, K2::Out, K2::Model>,
    n: nat,
)
    requires
        sink_sim(c2, c, h, wm),
        forall|m: K::Model| #[trigger] sink_sim(K2::spec_resume(wm(m)), K::spec_resume(m), h, wm),
        forall|m: K::Model, ch: Chunk<Seq<O>>| #[trigger] sink_sim(K2::spec_feed(wm(m), ch), K::spec_feed(m, ch), h, wm),
    ensures
        connect_fuel::<O, B, S, K2>(pending, src, c2, n) == match connect_fuel::<O, A, S, K>(pending, src, c, n) {
            Some(r) => Some(h(r)),
            None => None,
        },
    decreases n,
{
    if n > 0 {
        let f = (n - 1) as nat;
        match c {
            Action::Pure(_) => {},
            Action::Defer(k) => {
                assert(sink_sim(K2::spec_resume(wm(k)), K::spec_resume(k), h, wm));
                lemma_sink_sim_connect::<O, A, B, K, K2, S>(h, wm, pending, src, K::spec_resume(k), K2::spec_resume(wm(k)), f);
            },
            Action::Flush(k) => {
                assert(sink_sim(K2::spec_resume(wm(k)), K::spec_resume(k), h, wm));
                lemma_sink_sim_connect::<O, A, B, K, K2, S>(h, wm, pending, src, K::spec_resume(k), K2::spec_resume(wm(k)), f);
            },
            Action::Yield(_, k) => {
                assert(sink_sim(K2::spec_resume(wm(k)), K::spec_resume(k), h, wm));
                lemma_sink_sim_connect::<O, A, B, K, K2, S>(h, wm, pending, src, K::spec_resume(k), K2::spec_resume(wm(k)), f);
            },
            Action::Leftover(o, k) => {
                assert(sink_sim(K2::spec_resume(wm(k)), K::spec_resume(k), h, wm));
                lemma_sink_sim_connect::<O, A, B, K, K2, S>(h, wm, pending.push(o), src, K::spec_resume(k), K2::spec_resume(wm(k)), f);
            },
            Action::Await(k) => if pending.len() > 0 {
                let ch = Chunk::Chunk(pending.last());
                assert(sink_sim(K2::spec_feed(wm(k), ch), K::spec_feed(k, ch), h, wm));
                lemma_sink_sim_connect::<O, A, B, K, K2, S>(h, wm, pending.drop_last(), src, K::spec_feed(k, ch), K2::spec_feed(wm(k), ch), f)
            } else {
                match src {
                    Action::Pure(x) => {
                        assert(sink_sim(K2::spec_feed(wm(k), Chunk::End), K::spec_feed(k, Chunk::End), h, wm));
                        lemma_sink_sim_connect::<O, A, B, K, K2, S>(h, wm, pending, src, K::spec_feed(k, Chunk::End), K2::spec_feed(wm(k), Chunk::End), f)
                    },
                    Action::Defer(ks) => lemma_sink_sim_connect::<O, A, B, K, K2, S>(h, wm, pending, S::spec_resume(ks), c, c2, f),
                    Action::Flush(ks) => {
                        assert(sink_sim(K2::spec_feed(wm(k), Chunk::Flush), K::spec_feed(k, Chunk::Flush), h, wm));
                        lemma_sink_sim_connect::<O, A, B, K, K2, S>(h, wm, pending, S::spec_resume(ks), K::spec_feed(k, Chunk::Flush), K2::spec_feed(wm(k), Chunk::Flush), f)
                    },
                    Action::Await(ks) => lemma_sink_sim_connect::<O, A, B, K, K2, S>(h, wm, pending, S::spec_feed(ks, Chunk::Chunk(Seq::empty())), c, c2, f),
                    Action::Yield(o, ks) => {
                        assert(sink_sim(K2::spec_feed(wm(k), Chunk::Chunk(o)), K::spec_feed(k, Chunk::Chunk(o)), h, wm));
                        lemma_sink_sim_connect::<O, A, B, K, K2, S>(h, wm, pending, S::spec_resume(ks), K::spec_feed(k, Chunk::Chunk(o)), K2::spec_feed(wm(k), Chunk::Chunk(o)), f)
                    },
                    Action::Leftover(_, ks) => lemma_sink_sim_connect::<O, A, B, K, K2, S>(h, wm, pending, S::spec_resume(ks), c, c2, f),
                }
            },
        }
    }
}

/// A conduit run as the second half of a sequence is connected exactly as
/// the conduit itself.
pub proof fn lemma_second_connect<O, A, B, K1, F, K2, S: Resume<Void, O, ()>>(
    pending: Seq<Seq<O>>,
    src: Action<Void, O, S::Out, S::Model>,
    c: Action<O, Void, K2::Out, K2::Model>,
    n: nat,
)
    where
        K1: Resume<O, Void, A>,
        K2: Resume<O, Void, B>,
        F: FnOnce(A) -> ConduitM<O, Void, B, K2>,
    ensures
        connect_fuel::<O, B, S, AndThen<A, K1, F, K2>>(pending, src, second(c), n)
            == connect_fuel::<O, B, S, K2>(pending, src, c, n),
{
    let h = |r: K2::Out| r;
    let wm = |m: K2::Model| AndThenModel::<K1::Model, F, K2::Model>::Second(m);
    assert forall|a: Action<O, Void, K2::Out, K2::Model>| #[trigger] sink_sim(second::<O, Void, K2::Out, K1::Model, F, K2::Model>(a), a, h, wm) by {}
    assert forall|m: K2::Model| #[trigger] sink_sim(<AndThen<A, K1, F, K2> as Resume<O, Void, B>>::spec_resume(wm(m)), K2::spec_resume(m), h, wm) by {
        assert(sink_sim(second::<O, Void, K2::Out, K1::Model, F, K2::Model>(K2::spec_resume(m)), K2::spec_resume(m), h, wm));
    }
    assert forall|m: K2::Model, ch: Chunk<Seq<O>>| #[trigger] sink_sim(<AndThen<A, K1, F, K2> as Resume<O, Void, B>>::spec_feed(wm(m), ch), K2::spec_feed(m, ch), h, wm) by {
        assert(sink_sim(second::<O, Void, K2::Out, K1::Model, F, K2::Model>(K2::spec_feed(m, ch)), K2::spec_feed(m, ch), h, wm));
    }
    lemma_sink_sim_connect::<O, B, B, K2, AndThen<A, K1, F, K2>, S>(h, wm, pending, src, c, second::<O, Void, K2::Out, K1::Model, F, K2::Model>(c), n);
}

/// Appending `f` to a conduit that has already finished with `a` gives a
/// conduit that every source connects to as it connects to `f(a)`.
pub proof fn law_and_then_pure<O, A, B, K1, F, K2, S: Resume<Void, O, ()>>(
    src: Action<Void, O, S::Out, S::Model>,
    f: F,
    e: K1::Out,
)
    where
        K1: Resume<O, Void, A>,
        K2: Resume<O, Void, B>,
        F: FnOnce(A) -> ConduitM<O, Void, B, K2>,
    requires
        connect_halts::<O, B, S, K2>(src, arrow_apply(f, |a: A| K1::out(a), e)),
    ensures
        connect_halts::<O, B, S, AndThen<A, K1, F, K2>>(src, bind_step::<O, Void, A, B, K1, K2, F>(Action::Pure(e), f)),
        connect_result::<O, B, S, AndThen<A, K1, F, K2>>(src, bind_step::<O, Void, A, B, K1, K2, F>(Action::Pure(e), f))
            == connect_result::<O, B, S, K2>(src, arrow_apply(f, |a: A| K1::out(a), e)),
{
    let c = arrow_apply(f, |a: A| K1::out(a), e);
    let n = choose|n: nat| #[trigger] connect_fuel::<O, B, S, K2>(Seq::empty(), src, c, n) is Some;
    lemma_second_connect::<O, A, B, K1, F, K2, S>(Seq::empty(), src, c, n);
    lemma_connect_result::<O, B, S, AndThen<A, K1, F, K2>>(src, second(c), n, connect_result::<O, B, S, K2>(src, c));
}

/// A sink generalized by `to_consumer` is connected exactly as the sink.
pub proof fn lemma_consumer_connect<O, A, K: Resume<O, Void, A>, S: Resume<Void, O, ()>>(
    pending: Seq<Seq<O>>,
    src: Action<Void, O, S::Out, S::Model>,
    c: Action<O, Void, K::Out, K::Model>,
    n: nat,
)
    ensures
        connect_fuel::<O, A, S, ToConsumer<K>>(pending, src, consumer_step(c), n)
            == connect_fuel::<O, A, S, K>(pending, src, c, n),
{
    let h = |r: K::Out| r;
    let wm = |m: K::Model| ToConsumer { inner: m };
    assert forall|a: Action<O, Void, K::Out, K::Model>| #[trigger] sink_sim(consumer_step::<O, Void, K::Out, K::Model>(a), a, h, wm) by {}
    assert forall|m: K::Model| #[trigger] sink_sim(<ToConsumer<K> as Resume<O, Void, A>>::spec_resume(wm(m)), K::spec_resume(m), h, wm) by {
        assert(sink_sim(consumer_step::<O, Void, K::Out, K::Model>(K::spec_resume(m)), K::spec_resume(m), h, wm));
    }
    assert forall|m: K::Model, ch: Chunk<Seq<O>>| #[trigger] sink_sim(<ToConsumer<K> as Resume<O, Void, A>>::spec_feed(wm(m), ch), K::spec_feed(m, ch), h, wm) by {
        assert(sink_sim(consumer_step::<O, Void, K::Out, K::Model>(K::spec_feed(m, ch)), K::spec_feed(m, ch), h, wm));
    }
    lemma_sink_sim_connect::<O, A, A, K, ToConsumer<K>, S>(h, wm, pending, src, c, consumer_step::<O, Void, K::Out, K::Model>(c), n);
}

/// Generalizing a sink with `to_consumer` does not change what any source
/// connected to it gives.
pub proof fn law_to_consumer<O, A, K: Resume<O, Void, A>, S: Resume<Void, O, ()>>(
    src: Action<Void, O, S::Out, S::Model>,
    sink: Action<O, Void, K::Out, K::Model>,
)
    requires
        connect_halts::<O, A, S, K>(src, sink),
    ensures
        connect_halts::<O, A, S, ToConsumer<K>>(src, consumer_step(sink)),
        connect_result::<O, A, S, ToConsumer<K>>(src, consumer_step(sink)) == connect_result::<O, A, S, K>(src, sink),
{
    let n = choose|n: nat| #[trigger] connect_fuel::<O, A, S, K>(Seq::empty(), src, sink, n) is Some;
    lemma_consumer_connect::<O, A, K, S>(Seq::empty(), src, sink, n);
    lemma_connect_result::<O, A, S, ToConsumer<K>>(src, consumer_step(sink), n, connect_result::<O, A, S, K>(src, sink));
}

/// A source generalized by `to_producer` is connected exactly as the source.
pub proof fn lemma_producer_connect<O, A, S: Resume<Void, O, ()>, K: Resume<O, Void, A>>(
    pending: Seq<Seq<O>>,
    src: Action<Void, O, S::Out, S::Model>,
    c: Action<O, Void, K::Out, K::Model>,
    n: nat,
)
    ensures
        connect_fuel::<O, A, ToProducer<S>, K>(pending, producer_step(src), c, n)
            == connect_fuel::<O, A, S, K>(pending, src, c, n),
    decreases n,
{
    if n > 0 {
        let f = (n - 1) as nat;
        match c {
            Action::Pure(_) => {},
            Action::Defer(k) => lemma_producer_connect::<O, A, S, K>(pending, src, K::spec_resume(k), f),
            Action::Flush(k) => lemma_producer_connect::<O, A, S, K>(pending, src, K::spec_resume(k), f),
            Action::Yield(_, k) => lemma_producer_connect::<O, A, S, K>(pending, src, K::spec_resume(k), f),
            Action::Leftover(o, k) => lemma_producer_connect::<O, A, S, K>(pending.push(o), src, K::spec_resume(k), f),
            Action::Await(k) => if pending.len() > 0 {
                lemma_producer_connect::<O, A, S, K>(pending.drop_last(), src, K::spec_feed(k, Chunk::Chunk(pending.last())), f)
            } else {
                match src {
                    Action::Pure(x) => lemma_producer_connect::<O, A, S, K>(pending, src, K::spec_feed(k, Chunk::End), f),
                    Action::Defer(ks) => lemma_producer_connect::<O, A, S, K>(pending, S::spec_resume(ks), c, f),
                    Action::Flush(ks) => lemma_producer_connect::<O, A, S, K>(pending, S::spec_resume(ks), K::spec_feed(k, Chunk::Flush), f),
                    Action::Await(ks) => lemma_producer_connect::<O, A, S, K>(pending, S::spec_feed(ks, Chunk::Chunk(Seq::empty())), c, f),
                    Action::Yield(o, ks) => lemma_producer_connect::<O, A, S, K>(pending, S::spec_resume(ks), K::spec_feed(k, Chunk::Chunk(o)), f),
                    Action::Leftover(_, ks) => lemma_producer_connect::<O, A, S, K>(pending, S::spec_resume(ks), c, f),
                }
            },
        }
    }
}

/// Generalizing a source with `to_producer` (to the input type `Void`) does
/// not change what any sink connected to it gives.
pub proof fn law_to_producer<O, A, S: Resume<Void, O, ()>, K: Resume<O, Void, A>>(
    src: Action<Void, O, S::Out, S::Model>,
    sink: Action<O, Void, K::Out, K::Model>,
)
    requires
        connect_halts::<O, A, S, K>(src, sink),
    ensures
        connect_halts::<O, A, ToProducer<S>, K>(producer_step(src), sink),
        connect_result::<O, A, ToProducer<S>, K>(producer_step(src), sink) == connect_result::<O, A, S, K>(src, sink),
{
    let n = choose|n: nat| #[trigger] connect_fuel::<O, A, S, K>(Seq::empty(), src, sink, n) is Some;
    lemma_producer_connect::<O, A, S, K>(Seq::empty(), src, sink, n);
    lemma_connect_result::<O, A, ToProducer<S>, K>(producer_step(src), sink, n, connect_result::<O, A, S, K>(src, sink));
}

proof fn lemma_fused_producer_connect<I, O, A, U: Resume<Void, I, ()>, S: Resume<Void, O, ()>, K: Resume<O, Void, A>>(
    q: Seq<Seq<O>>,
    p: Seq<Seq<I>>,
    u: Action<Void, I, U::Out, U::Model>,
    src: Action<Void, O, S::Out, S::Model>,
    c: Action<O, Void, K::Out, K::Model>,
    n: nat,
)
    ensures
        connect_fuel::<O, A, Fuse<Void, I, O, (), U, ToProducer<S>>, K>(
            q,
            fuse_step(p, u, producer_step::<I, O, S::Out, S::Model>(src)),
            c,
            n,
        ) == connect_fuel::<O, A, S, K>(q, src, c, n),
    decreases n,
{
    if n > 0 {
        let f = (n - 1) as nat;
        match c {
            Action::Pure(_) => {},
            Action::Defer(k) => lemma_fused_producer_connect::<I, O, A, U, S, K>(q, p, u, src, K::spec_resume(k), f),
            Action::Flush(k) => lemma_fused_producer_connect::<I, O, A, U, S, K>(q, p, u, src, K::spec_resume(k), f),
            Action::Yield(_, k) => lemma_fused_producer_connect::<I, O, A, U, S, K>(q, p, u, src, K::spec_resume(k), f),
            Action::Leftover(o, k) => lemma_fused_producer_connect::<I, O, A, U, S, K>(q.push(o), p, u, src, K::spec_resume(k), f),
            Action::Await(k) => if q.len() > 0 {
                lemma_fused_producer_connect::<I, O, A, U, S, K>(q.drop_last(), p, u, src, K::spec_feed(k, Chunk::Chunk(q.last())), f)
            } else {
                match src {
                    Action::Pure(_) => lemma_fused_producer_connect::<I, O, A, U, S, K>(q, p, u, src, K::spec_feed(k, Chunk::End), f),
                    Action::Defer(ks) => lemma_fused_producer_connect::<I, O, A, U, S, K>(q, p, u, S::spec_resume(ks), c, f),
                    Action::Flush(ks) => lemma_fused_producer_connect::<I, O, A, U, S, K>(
                        q,
                        p,
                        u,
                        S::spec_resume(ks),
                        K::spec_feed(k, Chunk::Flush),
                        f,
                    ),
                    Action::Await(ks) => lemma_fused_producer_connect::<I, O, A, U, S, K>(
                        q,
                        p,
                        u,
                        S::spec_feed(ks, Chunk::Chunk(Seq::empty())),
                        c,
                        f,
                    ),
                    Action::Yield(o, ks) => lemma_fused_producer_connect::<I, O, A, U, S, K>(
                        q,
                        p,
                        u,
                        S::spec_resume(ks),
                        K::spec_feed(k, Chunk::Chunk(o)),
                        f,
                    ),
                    Action::Leftover(_, ks) => lemma_fused_producer_connect::<I, O, A, U, S, K>(q, p, u, S::spec_resume(ks), c, f),
                }
            },
        }
    }
}

/// A source generalized by `to_producer` and fused below any upstream source
/// `u` behaves as the source itself: connected to a sink, it finishes exactly
/// when the source does, with the same result, and it never pulls from `u`.
pub proof fn law_fused_producer<I, O, A, U: Resume<Void, I, ()>, S: Resume<Void, O, ()>, K: Resume<O, Void, A>>(
    u: Action<Void, I, U::Out, U::Model>,
    src: Action<Void, O, S::Out, S::Model>,
    sink: Action<O, Void, K::Out, K::Model>,
)
    ensures
        connect_halts::<O, A, Fuse<Void, I, O, (), U, ToProducer<S>>, K>(
            fuse_step(Seq::empty(), u, producer_step::<I, O, S::Out, S::Model>(src)),
            sink,
        ) == connect_halts::<O, A, S, K>(src, sink),
        connect_halts::<O, A, S, K>(src, sink) ==> connect_result::<O, A, Fuse<Void, I, O, (), U, ToProducer<S>>, K>(
            fuse_step(Seq::empty(), u, producer_step::<I, O, S::Out, S::Model>(src)),
            sink,
        ) == connect_result::<O, A, S, K>(src, sink),
{
    let fused = fuse_step(Seq::<Seq<I>>::empty(), u, producer_step::<I, O, S::Out, S::Model>(src));
    assert forall|n: nat| #[trigger] connect_fuel::<O, A, Fuse<Void, I, O, (), U, ToProducer<S>>, K>(Seq::empty(), fused, sink, n)
        == connect_fuel::<O, A, S, K>(Seq::empty(), src, sink, n) by {
        lemma_fused_producer_connect::<I, O, A, U, S, K>(Seq::empty(), Seq::empty(), u, src, sink, n);
    }
    if connect_halts::<O, A, S, K>(src, sink) {
        let n = choose|n: nat| #[trigger] connect_fuel::<O, A, S, K>(Seq::empty(), src, sink, n) is Some;
        let r = connect_fuel::<O, A, S, K>(Seq::empty(), src, sink, n).unwrap();
        lemma_connect_result::<O, A, S, K>(src, sink, n, r);
        lemma_connect_result::<O, A, Fuse<Void, I, O, (), U, ToProducer<S>>, K>(fused, sink, n, r);
    }
    if connect_halts::<O, A, Fuse<Void, I, O, (), U, ToProducer<S>>, K>(fused, sink) {
        let n = choose|n: nat| #[trigger] connect_fuel::<O, A, Fuse<Void, I, O, (), U, ToProducer<S>>, K>(Seq::empty(), fused, sink, n) is Some;
        assert(connect_fuel::<O, A, S, K>(Seq::empty(), src, sink, n) is Some);
    }
}

/// A sink whose result is mapped by `f` is connected as the sink, with the
/// result mapped.
pub proof fn lemma_map_connect<O, A, B, K: Resume<O, Void, A>, F: FnOnce(A) -> B, S: Resume<Void, O, ()>>(
    pending: Seq<Seq<O>>,
    src: Action<Void, O, S::Out, S::Model>,
    c: Action<O, Void, K::Out, K::Model>,
    f: F,
    n: nat,
)
    ensures
        connect_fuel::<O, B, S, MapResult<A, K, F>>(pending, src, map_step::<O, Void, A, B, K, F>(c, f), n)
            == match connect_fuel::<O, A, S, K>(pending, src, c, n) {
                Some(e) => Some(pure_apply(f, |a: A| K::out(a), e)),
                None => None,
            },
{
    let h = |e: K::Out| pure_apply(f, |a: A| K::out(a), e);
    let wm = |m: K::Model| (m, f);
    assert forall|a: Action<O, Void, K::Out, K::Model>| #[trigger] sink_sim(map_step::<O, Void, A, B, K, F>(a, f), a, h, wm) by {}
    assert forall|m: K::Model| #[trigger] sink_sim(<MapResult<A, K, F> as Resume<O, Void, B>>::spec_resume(wm(m)), K::spec_resume(m), h, wm) by {
        assert(sink_sim(map_step::<O, Void, A, B, K, F>(K::spec_resume(m), f), K::spec_resume(m), h, wm));
    }
    assert forall|m: K::Model, ch: Chunk<Seq<O>>| #[trigger] sink_sim(<MapResult<A, K, F> as Resume<O, Void, B>>::spec_feed(wm(m), ch), K::spec_feed(m, ch), h, wm) by {
        assert(sink_sim(map_step::<O, Void, A, B, K, F>(K::spec_feed(m, ch), f), K::spec_feed(m, ch), h, wm));
    }
    lemma_sink_sim_connect::<O, A, B, K, MapResult<A, K, F>, S>(h, wm, pending, src, c, map_step::<O, Void, A, B, K, F>(c, f), n);
}

/// Connecting a source to `sink.map(f)` gives `f` of what connecting it to
/// `sink` gives.
pub proof fn law_map<O, A, B, K: Resume<O, Void, A>, F: FnOnce(A) -> B, S: Resume<Void, O, ()>>(
    src: Action<Void, O, S::Out, S::Model>,
    sink: Action<O, Void, K::Out, K::Model>,
    f: F,
)
    requires
        connect_halts::<O, A, S, K>(src, sink),
    ensures
        connect_halts::<O, B, S, MapResult<A, K, F>>(src, map_step::<O, Void, A, B, K, F>(sink, f)),
        connect_result::<O, B, S, MapResult<A, K, F>>(src, map_step::<O, Void, A, B, K, F>(sink, f))
            == pure_apply(f, |a: A| K::out(a), connect_result::<O, A, S, K>(src, sink)),
{
    let n = choose|n: nat| #[trigger] connect_fuel::<O, A, S, K>(Seq::empty(), src, sink, n) is Some;
    lemma_map_connect::<O, A, B, K, F, S>(Seq::empty(), src, sink, f, n);
    lemma_connect_result::<O, B, S, MapResult<A, K, F>>(
        src,
        map_step::<O, Void, A, B, K, F>(sink, f),
        n,
        pure_apply(f, |a: A| K::out(a), connect_result::<O, A, S, K>(src, sink)),
    );
}


// ------------------------------------------------------------ what sources yield

/// The values a source yields, in order, until it finishes; `None` when
/// `fuel` steps are not enough. An awaiting source is fed an empty chunk, as
/// `connect` does.
pub open spec fn src_values<O, S: Resume<Void, O, ()>>(src: Action<Void, O, S::Out, S::Model>, fuel: nat) -> Option<Seq<O>>
    decreases fuel,
{
    if fuel == 0 {
        None
    } else {
        let f = (fuel - 1) as nat;
        match src {
            Action::Pure(_) => Some(Seq::empty()),
            Action::Defer(m) => src_values::<O, S>(S::spec_resume(m), f),
            Action::Flush(m) => src_values::<O, S>(S::spec_resume(m), f),
            Action::Leftover(_, m) => src_values::<O, S>(S::spec_resume(m), f),
            Action::Await(m) => src_values::<O, S>(S::spec_feed(m, Chunk::Chunk(Seq::empty())), f),
            Action::Yield(o, m) => match src_values::<O, S>(S::spec_resume(m), f) {
                Some(rest) => Some(o + rest),
                None => None,
            },
        }
    }
}

/// The source finishes after yielding exactly the values `l`.
pub open spec fn emits<O, S: Resume<Void, O, ()>>(src: Action<Void, O, S::Out, S::Model>, l: Seq<O>) -> bool {
    exists|n: nat| #[trigger] src_values::<O, S>(src, n) == Some(l)
}

/// The values held by a stack of chunks, in the order they are read back
/// (the last chunk first).
pub open spec fn stack_flat<O>(p: Seq<Seq<O>>) -> Seq<O>
    decreases p.len(),
{
    if p.len() == 0 {
        Seq::empty()
    } else {
        p.last() + stack_flat(p.drop_last())
    }
}

/// The number of chunks and values on a stack of chunks.
pub open spec fn stack_measure<O>(p: Seq<Seq<O>>) -> nat
    decreases p.len(),
{
    if p.len() == 0 {
        0
    } else {
        1 + p.last().len() + stack_measure(p.drop_last())
    }
}

/// Folding the values `l` into `a` with the pure function `f`, first value first.
pub open spec fn fold_seq<A, I, F: Fn(A, I) -> A>(l: Seq<I>, a: A, f: F) -> A
    decreases l.len(),
{
    if l.len() == 0 {
        a
    } else {
        fold_seq(l.drop_first(), pure_apply2(f, a, l[0]), f)
    }
}

proof fn lemma_fold_drain<I, A, F: Fn(A, I) -> A, S: Resume<Void, I, ()>>(
    p: Seq<Seq<I>>,
    src: Action<Void, I, S::Out, S::Model>,
    a: A,
    f: F,
    n: nat,
    l: Seq<I>,
)
    requires
        src_values::<I, S>(src, n) == Some(l),
    ensures
        exists|m: nat|
            #[trigger] connect_fuel::<I, A, S, SinkK<A, I, Folding<F>>>(
                p,
                src,
                Action::Await(SinkK::Wait(a, Folding { f })),
                m,
            ) == Some(fold_seq(stack_flat(p) + l, a, f)),
    decreases n, stack_measure(p),
{
    let w = Action::<I, Void, A, SinkK<A, I, Folding<F>>>::Await(SinkK::Wait(a, Folding { f }));
    if p.len() > 0 {
        let top = p.last();
        let rest = p.drop_last();
        if top.len() == 0 {
            lemma_fold_drain::<I, A, F, S>(rest, src, a, f, n, l);
            let m = choose|m: nat| #[trigger] connect_fuel::<I, A, S, SinkK<A, I, Folding<F>>>(rest, src, w, m)
                == Some(fold_seq(stack_flat(rest) + l, a, f));
            assert(top + stack_flat(rest) =~= stack_flat(rest));
            assert(connect_fuel::<I, A, S, SinkK<A, I, Folding<F>>>(p, src, w, m + 1) == Some(
                fold_seq(stack_flat(p) + l, a, f),
            ));
        } else {
            let tail = top.drop_first();
            let b = pure_apply2(f, a, top[0]);
            let p2 = rest.push(tail);
            assert(p2.drop_last() =~= rest);
            lemma_fold_drain::<I, A, F, S>(p2, src, b, f, n, l);
            let w2 = Action::<I, Void, A, SinkK<A, I, Folding<F>>>::Await(SinkK::Wait(b, Folding { f }));
            let m = choose|m: nat| #[trigger] connect_fuel::<I, A, S, SinkK<A, I, Folding<F>>>(p2, src, w2, m)
                == Some(fold_seq(stack_flat(p2) + l, b, f));
            let all = stack_flat(p) + l;
            assert(all[0] == top[0]);
            assert(all.drop_first() =~= stack_flat(p2) + l);
            assert(connect_fuel::<I, A, S, SinkK<A, I, Folding<F>>>(
                rest,
                src,
                Action::Leftover(tail, SinkK::Got(a, top[0], Folding { f })),
                m + 1,
            ) == Some(fold_seq(all, a, f)));
            assert(connect_fuel::<I, A, S, SinkK<A, I, Folding<F>>>(p, src, w, m + 2) == Some(fold_seq(all, a, f)));
        }
    } else {
        assert(stack_flat(p) =~= Seq::<I>::empty());
        assert(stack_flat(p) + l =~= l);
        let g = (n - 1) as nat;
        match src {
            Action::Pure(x) => {
                assert(l =~= Seq::<I>::empty());
                assert(connect_fuel::<I, A, S, SinkK<A, I, Folding<F>>>(p, src, Action::Pure(a), 1) == Some(a));
                assert(connect_fuel::<I, A, S, SinkK<A, I, Folding<F>>>(p, src, w, 2) == Some(a));
            },
            Action::Defer(ks) => {
                lemma_fold_drain::<I, A, F, S>(p, S::spec_resume(ks), a, f, g, l);
                let m = choose|m: nat| #[trigger] connect_fuel::<I, A, S, SinkK<A, I, Folding<F>>>(p, S::spec_resume(ks), w, m)
                    == Some(fold_seq(stack_flat(p) + l, a, f));
                assert(connect_fuel::<I, A, S, SinkK<A, I, Folding<F>>>(p, src, w, m + 1) == Some(fold_seq(stack_flat(p) + l, a, f)));
            },
            Action::Flush(ks) => {
                lemma_fold_drain::<I, A, F, S>(p, S::spec_resume(ks), a, f, g, l);
                let m = choose|m: nat| #[trigger] connect_fuel::<I, A, S, SinkK<A, I, Folding<F>>>(p, S::spec_resume(ks), w, m)
                    == Some(fold_seq(stack_flat(p) + l, a, f));
                assert(connect_fuel::<I, A, S, SinkK<A, I, Folding<F>>>(p, src, w, m + 1) == Some(fold_seq(stack_flat(p) + l, a, f)));
            },
            Action::Leftover(_, ks) => {
                lemma_fold_drain::<I, A, F, S>(p, S::spec_resume(ks), a, f, g, l);
                let m = choose|m: nat| #[trigger] connect_fuel::<I, A, S, SinkK<A, I, Folding<F>>>(p, S::spec_resume(ks), w, m)
                    == Some(fold_seq(stack_flat(p) + l, a, f));
                assert(connect_fuel::<I, A, S, SinkK<A, I, Folding<F>>>(p, src, w, m + 1) == Some(fold_seq(stack_flat(p) + l, a, f)));
            },
            Action::Await(ks) => {
                let s2 = S::spec_feed(ks, Chunk::Chunk(Seq::empty()));
                lemma_fold_drain::<I, A, F, S>(p, s2, a, f, g, l);
                let m = choose|m: nat| #[trigger] connect_fuel::<I, A, S, SinkK<A, I, Folding<F>>>(p, s2, w, m)
                    == Some(fold_seq(stack_flat(p) + l, a, f));
                assert(connect_fuel::<I, A, S, SinkK<A, I, Folding<F>>>(p, src, w, m + 1) == Some(fold_seq(stack_flat(p) + l, a, f)));
            },
            Action::Yield(o, ks) => {
                let s2 = S::spec_resume(ks);
                let l2 = src_values::<I, S>(s2, g).unwrap();
                assert(l =~= o + l2);
                let p1 = seq![o];
                assert(p1.drop_last() =~= Seq::<Seq<I>>::empty());
                assert(stack_flat(p1.drop_last()) =~= Seq::<I>::empty());
                assert(p1.last() == o);
                assert(stack_flat(p1) =~= o);
                lemma_fold_drain::<I, A, F, S>(p1, s2, a, f, g, l2);
                let m = choose|m: nat| #[trigger] connect_fuel::<I, A, S, SinkK<A, I, Folding<F>>>(p1, s2, w, m)
                    == Some(fold_seq(stack_flat(p1) + l2, a, f));
                assert(m > 0);
                assert(stack_flat(p1) + l2 =~= stack_flat(p) + l);
                assert(p =~= Seq::<Seq<I>>::empty());
                let fed = sink_feed(a, Folding { f }, Chunk::Chunk(o));
                assert(connect_fuel::<I, A, S, SinkK<A, I, Folding<F>>>(p1, s2, w, m)
                    == connect_fuel::<I, A, S, SinkK<A, I, Folding<F>>>(Seq::empty(), s2, fed, (m - 1) as nat));
                assert(connect_fuel::<I, A, S, SinkK<A, I, Folding<F>>>(p, src, w, m)
                    == connect_fuel::<I, A, S, SinkK<A, I, Folding<F>>>(Seq::empty(), s2, fed, (m - 1) as nat));
                assert(connect_fuel::<I, A, S, SinkK<A, I, Folding<F>>>(p, src, w, m) == Some(fold_seq(stack_flat(p) + l, a, f)));
            },
        }
    }
}

/// A source that yields the values `l` and then finishes, connected to
/// `fold(a, f)`, gives `l` folded into `a` with `f`, first value first.
pub proof fn law_connect_fold<I, A, F: Fn(A, I) -> A, S: Resume<Void, I, ()>>(
    src: Action<Void, I, S::Out, S::Model>,
    l: Seq<I>,
    a: A,
    f: F,
)
    requires
        emits::<I, S>(src, l),
    ensures
        connect_halts::<I, A, S, SinkK<A, I, Folding<F>>>(src, Action::Await(SinkK::Wait(a, Folding { f }))),
        connect_result::<I, A, S, SinkK<A, I, Folding<F>>>(src, Action::Await(SinkK::Wait(a, Folding { f })))
            == fold_seq(l, a, f),
{
    let n = choose|n: nat| #[trigger] src_values::<I, S>(src, n) == Some(l);
    lemma_fold_drain::<I, A, F, S>(Seq::empty(), src, a, f, n, l);
    assert(stack_flat(Seq::<Seq<I>>::empty()) + l =~= l);
    let w = Action::<I, Void, A, SinkK<A, I, Folding<F>>>::Await(SinkK::Wait(a, Folding { f }));
    let m = choose|m: nat| #[trigger] connect_fuel::<I, A, S, SinkK<A, I, Folding<F>>>(Seq::empty(), src, w, m)
        == Some(fold_seq(stack_flat(Seq::<Seq<I>>::empty()) + l, a, f));
    lemma_connect_result::<I, A, S, SinkK<A, I, Folding<F>>>(src, w, m, fold_seq(l, a, f));
}

/// `source_iter(v)` yields the values of `v`, in order, and finishes.
pub proof fn law_source_iter_emits<O>(v: Seq<O>)
    ensures
        emits::<O, SourceIter<O>>(iter_step::<Void, O>(v), v),
    decreases v.len(),
{
    lemma_source_iter_values(v);
}

proof fn lemma_source_iter_values<O>(v: Seq<O>)
    ensures
        src_values::<O, SourceIter<O>>(iter_step::<Void, O>(v), v.len() + 1) == Some(v),
    decreases v.len(),
{
    if v.len() > 0 {
        lemma_source_iter_values(v.drop_first());
        assert(seq![v[0]] + v.drop_first() =~= v);
    }
}


/// The values `l`, each mapped by the pure function `g`.
pub open spec fn map_seq<O, P, G: Fn(O) -> P>(l: Seq<O>, g: G) -> Seq<P> {
    l.map_values(|x: O| pure_apply1(g, x))
}

proof fn lemma_map_seq_cons<O, P, G: Fn(O) -> P>(x: O, l: Seq<O>, g: G)
    ensures
        map_seq(seq![x] + l, g) =~= seq![pure_apply1(g, x)] + map_seq(l, g),
{
}

proof fn lemma_transform_drain<O, P, G: Fn(O) -> P, S: Resume<Void, O, ()>>(
    p: Seq<Seq<O>>,
    left: Action<Void, O, S::Out, S::Model>,
    g: G,
    n: nat,
    l: Seq<O>,
)
    requires
        src_values::<O, S>(left, n) == Some(l),
    ensures
        exists|m: nat|
            #[trigger] src_values::<P, Fuse<Void, O, P, (), S, Transform<O, G>>>(
                fuse_step(p, left, Action::Await(Transform::Wait(g))),
                m,
            ) == Some(map_seq(stack_flat(p) + l, g)),
    decreases n, stack_measure(p),
{
    let w = Action::<O, P, (), Transform<O, G>>::Await(Transform::Wait(g));
    if p.len() > 0 {
        let top = p.last();
        let rest = p.drop_last();
        if top.len() == 0 {
            lemma_transform_drain::<O, P, G, S>(rest, left, g, n, l);
            let m = choose|m: nat| #[trigger] src_values::<P, Fuse<Void, O, P, (), S, Transform<O, G>>>(
                fuse_step(rest, left, w), m) == Some(map_seq(stack_flat(rest) + l, g));
            assert(top + stack_flat(rest) =~= stack_flat(rest));
            assert(src_values::<P, Fuse<Void, O, P, (), S, Transform<O, G>>>(fuse_step(p, left, w), m + 1)
                == Some(map_seq(stack_flat(p) + l, g)));
        } else {
            let tail = top.drop_first();
            let t0 = top[0];
            let p2 = rest.push(tail);
            assert(p2.drop_last() =~= rest);
            lemma_transform_drain::<O, P, G, S>(p2, left, g, n, l);
            let m = choose|m: nat| #[trigger] src_values::<P, Fuse<Void, O, P, (), S, Transform<O, G>>>(
                fuse_step(p2, left, w), m) == Some(map_seq(stack_flat(p2) + l, g));
            let all = stack_flat(p) + l;
            assert(all =~= seq![t0] + (stack_flat(p2) + l));
            lemma_map_seq_cons(t0, stack_flat(p2) + l, g);
            let y = Action::<Void, P, (), FuseModel<Void, O, S::Out, S::Model, Transform<O, G>>>::Yield(
                seq![pure_apply1(g, t0)],
                FuseModel::Right(p2, left, Transform::Next(g)),
            );
            assert(src_values::<P, Fuse<Void, O, P, (), S, Transform<O, G>>>(y, m + 1)
                == Some(map_seq(all, g)));
            let d = Action::<Void, P, (), FuseModel<Void, O, S::Out, S::Model, Transform<O, G>>>::Defer(
                FuseModel::Right(p2, left, Transform::Emit(t0, g)),
            );
            assert(src_values::<P, Fuse<Void, O, P, (), S, Transform<O, G>>>(d, m + 2)
                == Some(map_seq(all, g)));
            assert(src_values::<P, Fuse<Void, O, P, (), S, Transform<O, G>>>(fuse_step(p, left, w), m + 3)
                == Some(map_seq(all, g)));
        }
    } else {
        assert(stack_flat(p) =~= Seq::<O>::empty());
        assert(stack_flat(p) + l =~= l);
        let g1 = (n - 1) as nat;
        match left {
            Action::Pure(x) => {
                assert(l =~= Seq::<O>::empty());
                assert(map_seq(l, g) =~= Seq::<P>::empty());
                let fin = fuse_step(p, left, Action::<O, P, (), Transform<O, G>>::Pure(()));
                assert(src_values::<P, Fuse<Void, O, P, (), S, Transform<O, G>>>(fin, 1) == Some(Seq::<P>::empty()));
                assert(src_values::<P, Fuse<Void, O, P, (), S, Transform<O, G>>>(fuse_step(p, left, w), 2)
                    == Some(map_seq(l, g)));
            },
            Action::Defer(ml) => {
                let l2 = S::spec_resume(ml);
                lemma_transform_drain::<O, P, G, S>(p, l2, g, g1, l);
                let m = choose|m: nat| #[trigger] src_values::<P, Fuse<Void, O, P, (), S, Transform<O, G>>>(
                    fuse_step(p, l2, w), m) == Some(map_seq(stack_flat(p) + l, g));
                assert(src_values::<P, Fuse<Void, O, P, (), S, Transform<O, G>>>(fuse_step(p, left, w), m + 1)
                    == Some(map_seq(stack_flat(p) + l, g)));
            },
            Action::Flush(ml) => {
                let l2 = S::spec_resume(ml);
                lemma_transform_drain::<O, P, G, S>(p, l2, g, g1, l);
                let m = choose|m: nat| #[trigger] src_values::<P, Fuse<Void, O, P, (), S, Transform<O, G>>>(
                    fuse_step(p, l2, w), m) == Some(map_seq(stack_flat(p) + l, g));
                assert(src_values::<P, Fuse<Void, O, P, (), S, Transform<O, G>>>(fuse_step(p, left, w), m + 1)
                    == Some(map_seq(stack_flat(p) + l, g)));
            },
            Action::Leftover(_, ml) => {
                let l2 = S::spec_resume(ml);
                lemma_transform_drain::<O, P, G, S>(p, l2, g, g1, l);
                let m = choose|m: nat| #[trigger] src_values::<P, Fuse<Void, O, P, (), S, Transform<O, G>>>(
                    fuse_step(p, l2, w), m) == Some(map_seq(stack_flat(p) + l, g));
                assert(src_values::<P, Fuse<Void, O, P, (), S, Transform<O, G>>>(fuse_step(p, left, w), m + 1)
                    == Some(map_seq(stack_flat(p) + l, g)));
            },
            Action::Await(ml) => {
                let l2 = S::spec_feed(ml, Chunk::Chunk(Seq::empty()));
                lemma_transform_drain::<O, P, G, S>(p, l2, g, g1, l);
                let m = choose|m: nat| #[trigger] src_values::<P, Fuse<Void, O, P, (), S, Transform<O, G>>>(
                    fuse_step(p, l2, w), m) == Some(map_seq(stack_flat(p) + l, g));
                assert(src_values::<P, Fuse<Void, O, P, (), S, Transform<O, G>>>(fuse_step(p, left, w), m + 1)
                    == Some(map_seq(stack_flat(p) + l, g)));
            },
            Action::Yield(o, ml) => {
                let l2 = S::spec_resume(ml);
                let v2 = src_values::<O, S>(l2, g1).unwrap();
                assert(l =~= o + v2);
                let p1 = seq![o];
                assert(p1.drop_last() =~= Seq::<Seq<O>>::empty());
                assert(stack_flat(p1.drop_last()) =~= Seq::<O>::empty());
                assert(stack_flat(p1) =~= o);
                lemma_transform_drain::<O, P, G, S>(p1, l2, g, g1, v2);
                let m = choose|m: nat| #[trigger] src_values::<P, Fuse<Void, O, P, (), S, Transform<O, G>>>(
                    fuse_step(p1, l2, w), m) == Some(map_seq(stack_flat(p1) + v2, g));
                assert(m > 0);
                assert(stack_flat(p1) + v2 =~= stack_flat(p) + l);
                assert(p =~= Seq::<Seq<O>>::empty());
                let y = fuse_step(Seq::<Seq<O>>::empty(), l2, transform_feed::<O, P, G>(g, Chunk::Chunk(o)));
                assert(src_values::<P, Fuse<Void, O, P, (), S, Transform<O, G>>>(fuse_step(p1, l2, w), m)
                    == src_values::<P, Fuse<Void, O, P, (), S, Transform<O, G>>>(y, (m - 1) as nat));
                assert(src_values::<P, Fuse<Void, O, P, (), S, Transform<O, G>>>(fuse_step(p, left, w), m)
                    == src_values::<P, Fuse<Void, O, P, (), S, Transform<O, G>>>(y, (m - 1) as nat));
            },
        }
    }
}

/// Fusing a source that yields `l` with `transform(g)` gives a source that
/// yields the values of `l` mapped by `g`, in order.
pub proof fn law_fuse_transform<O, P, G: Fn(O) -> P, S: Resume<Void, O, ()>>(
    src: Action<Void, O, S::Out, S::Model>,
    l: Seq<O>,
    g: G,
)
    requires
        emits::<O, S>(src, l),
    ensures
        emits::<P, Fuse<Void, O, P, (), S, Transform<O, G>>>(
            fuse_step(Seq::empty(), src, Action::Await(Transform::Wait(g))),
            map_seq(l, g),
        ),
{
    let n = choose|n: nat| #[trigger] src_values::<O, S>(src, n) == Some(l);
    lemma_transform_drain::<O, P, G, S>(Seq::empty(), src, g, n, l);
    assert(stack_flat(Seq::<Seq<O>>::empty()) + l =~= l);
}


proof fn lemma_fused_emit_values<O1, O2, S: Resume<Void, O1, ()>, KC: Resume<O1, O2, ()>>(
    p: Seq<Seq<O1>>,
    x: Action<Void, O1, S::Out, S::Model>,
    e: KC::Out,
    v: Seq<O2>,
    k: nat,
)
    requires
        k > v.len(),
    ensures
        src_values::<O2, Fuse<Void, O1, O2, (), S, ExtendIter<(), KC, O2>>>(
            fuse_step(p, x, emit_step::<O1, O2, KC::Out, KC::Model>(e, v)),
            k,
        ) == Some(v),
    decreases v.len(),
{
    if v.len() > 0 {
        let rest = v.drop_first();
        lemma_fused_emit_values::<O1, O2, S, KC>(p, x, e, rest, (k - 1) as nat);
        assert(seq![v[0]] + rest =~= v);
    }
}

proof fn lemma_fused_extend_values<O1, O2, S: Resume<Void, O1, ()>, KC: Resume<O1, O2, ()>>(
    p: Seq<Seq<O1>>,
    x: Action<Void, O1, S::Out, S::Model>,
    c: Action<O1, O2, KC::Out, KC::Model>,
    v: Seq<O2>,
    n: nat,
    l: Seq<O2>,
)
    requires
        src_values::<O2, Fuse<Void, O1, O2, (), S, KC>>(fuse_step(p, x, c), n) == Some(l),
    ensures
        src_values::<O2, Fuse<Void, O1, O2, (), S, ExtendIter<(), KC, O2>>>(fuse_step(p, x, extend_step(c, v)), n + v.len())
            == Some(l + v),
    decreases n,
{
    let g = (n - 1) as nat;
    match c {
        Action::Pure(e) => {
            lemma_fused_emit_values::<O1, O2, S, KC>(p, x, e, v, n + v.len());
            assert(l =~= Seq::<O2>::empty());
            assert(l + v =~= v);
        },
        Action::Defer(m) => lemma_fused_extend_values::<O1, O2, S, KC>(p, x, KC::spec_resume(m), v, g, l),
        Action::Flush(m) => lemma_fused_extend_values::<O1, O2, S, KC>(p, x, KC::spec_resume(m), v, g, l),
        Action::Yield(o, m) => {
            let rest = src_values::<O2, Fuse<Void, O1, O2, (), S, KC>>(fuse_step(p, x, KC::spec_resume(m)), g).unwrap();
            assert(l =~= o + rest);
            lemma_fused_extend_values::<O1, O2, S, KC>(p, x, KC::spec_resume(m), v, g, rest);
            assert(o + (rest + v) =~= l + v);
        },
        Action::Leftover(o, m) => lemma_fused_extend_values::<O1, O2, S, KC>(p.push(o), x, KC::spec_resume(m), v, g, l),
        Action::Await(m) => {
            if p.len() > 0 {
                lemma_fused_extend_values::<O1, O2, S, KC>(p.drop_last(), x, KC::spec_feed(m, Chunk::Chunk(p.last())), v, g, l);
            } else {
                match x {
                    Action::Pure(_) => lemma_fused_extend_values::<O1, O2, S, KC>(p, x, KC::spec_feed(m, Chunk::End), v, g, l),
                    Action::Defer(ml) => lemma_fused_extend_values::<O1, O2, S, KC>(p, S::spec_resume(ml), c, v, g, l),
                    Action::Flush(ml) => lemma_fused_extend_values::<O1, O2, S, KC>(p, S::spec_resume(ml), KC::spec_feed(m, Chunk::Flush), v, g, l),
                    Action::Yield(o, ml) => lemma_fused_extend_values::<O1, O2, S, KC>(p, S::spec_resume(ml), KC::spec_feed(m, Chunk::Chunk(o)), v, g, l),
                    Action::Leftover(_, ml) => lemma_fused_extend_values::<O1, O2, S, KC>(p, S::spec_resume(ml), c, v, g, l),
                    Action::Await(ml) => lemma_fused_extend_values::<O1, O2, S, KC>(p, S::spec_feed(ml, Chunk::Chunk(Seq::empty())), c, v, g, l),
                }
            }
        },
    }
}

/// Fusing a source with `c.extend_iter(v)` yields what fusing it with `c`
/// yields, followed by `v`: the extended conduit consumes (and hands back)
/// exactly what `c` does, and produces `v` after `c`'s own output.
pub proof fn law_fuse_extend_emits<O1, O2, S: Resume<Void, O1, ()>, KC: Resume<O1, O2, ()>>(
    x: Action<Void, O1, S::Out, S::Model>,
    c: Action<O1, O2, KC::Out, KC::Model>,
    l: Seq<O2>,
    v: Seq<O2>,
)
    requires
        emits::<O2, Fuse<Void, O1, O2, (), S, KC>>(fuse_step(Seq::empty(), x, c), l),
    ensures
        emits::<O2, Fuse<Void, O1, O2, (), S, ExtendIter<(), KC, O2>>>(fuse_step(Seq::empty(), x, extend_step(c, v)), l + v),
{
    let n = choose|n: nat| #[trigger] src_values::<O2, Fuse<Void, O1, O2, (), S, KC>>(fuse_step(Seq::empty(), x, c), n) == Some(l);
    lemma_fused_extend_values::<O1, O2, S, KC>(Seq::empty(), x, c, v, n, l);
}

/// Fusing a source that yields `l` with `transform(g).extend_iter(v)` yields
/// the values of `l` mapped by `g`, followed by `v`.
pub proof fn law_fuse_transform_extend<O, P, G: Fn(O) -> P, S: Resume<Void, O, ()>>(
    src: Action<Void, O, S::Out, S::Model>,
    l: Seq<O>,
    g: G,
    v: Seq<P>,
)
    requires
        emits::<O, S>(src, l),
    ensures
        emits::<P, Fuse<Void, O, P, (), S, ExtendIter<(), Transform<O, G>, P>>>(
            fuse_step(Seq::empty(), src, extend_step(Action::<O, P, (), Transform<O, G>>::Await(Transform::Wait(g)), v)),
            map_seq(l, g) + v,
        ),
{
    law_fuse_transform::<O, P, G, S>(src, l, g);
    law_fuse_extend_emits::<O, P, S, Transform<O, G>>(src, Action::Await(Transform::Wait(g)), map_seq(l, g), v);
}

/// What a chunk taken by `consume_chunk` from a source that yields `l` can
/// be: the end of the stream only when `l` is empty, a chunk only when it is
/// a prefix of `l` (the first chunk the source yields), or a flush.
pub open spec fn chunk_taken_from<O>(r: Chunk<Seq<O>>, l: Seq<O>) -> bool {
    match r {
        Chunk::End => l.len() == 0,
        Chunk::Flush => true,
        Chunk::Chunk(v) => v.len() <= l.len() && l.subrange(0, v.len() as int) == v,
    }
}

proof fn lemma_consume_chunk_taken<O, S: Resume<Void, O, ()>>(
    x: Action<Void, O, S::Out, S::Model>,
    nx: nat,
    l: Seq<O>,
    n: nat,
    r: Chunk<Seq<O>>,
)
    requires
        src_values::<O, S>(x, nx) == Some(l),
        connect_fuel::<O, Chunk<Vec<O>>, S, TakeChunk>(Seq::empty(), x, Action::Await(()), n) == Some(r),
    ensures
        chunk_taken_from(r, l),
    decreases n,
{
    let g = (n - 1) as nat;
    let h = (nx - 1) as nat;
    let q = Seq::<Seq<O>>::empty();
    assert(n > 0);
    match x {
        Action::Pure(_) => {
            assert(<TakeChunk as Resume<O, Void, Chunk<Vec<O>>>>::spec_feed((), Chunk::End) == Action::<O, Void, Chunk<Seq<O>>, ()>::Pure(Chunk::End));
            assert(connect_fuel::<O, Chunk<Vec<O>>, S, TakeChunk>(q, x, Action::Await(()), n)
                == connect_fuel::<O, Chunk<Vec<O>>, S, TakeChunk>(q, x, Action::Pure(Chunk::End), g));
            assert(l =~= Seq::<O>::empty());
            assert(r == Chunk::<Seq<O>>::End);
        },
        Action::Defer(ks) => lemma_consume_chunk_taken::<O, S>(S::spec_resume(ks), h, l, g, r),
        Action::Leftover(_, ks) => lemma_consume_chunk_taken::<O, S>(S::spec_resume(ks), h, l, g, r),
        Action::Await(ks) => lemma_consume_chunk_taken::<O, S>(S::spec_feed(ks, Chunk::Chunk(Seq::empty())), h, l, g, r),
        Action::Flush(ks) => {
            assert(<TakeChunk as Resume<O, Void, Chunk<Vec<O>>>>::spec_feed((), Chunk::Flush) == Action::<O, Void, Chunk<Seq<O>>, ()>::Pure(Chunk::Flush));
            assert(connect_fuel::<O, Chunk<Vec<O>>, S, TakeChunk>(q, x, Action::Await(()), n)
                == connect_fuel::<O, Chunk<Vec<O>>, S, TakeChunk>(q, S::spec_resume(ks), Action::Pure(Chunk::Flush), g));
            assert(r == Chunk::<Seq<O>>::Flush);
        },
        Action::Yield(o, ks) => {
            let rest = src_values::<O, S>(S::spec_resume(ks), h).unwrap();
            assert(l =~= o + rest);
            assert(<TakeChunk as Resume<O, Void, Chunk<Vec<O>>>>::spec_feed((), Chunk::Chunk(o)) == Action::<O, Void, Chunk<Seq<O>>, ()>::Pure(Chunk::Chunk(o)));
            assert(connect_fuel::<O, Chunk<Vec<O>>, S, TakeChunk>(q, x, Action::Await(()), n)
                == connect_fuel::<O, Chunk<Vec<O>>, S, TakeChunk>(q, S::spec_resume(ks), Action::Pure(Chunk::Chunk(o)), g));
            assert(r == Chunk::Chunk(o));
            assert(l.subrange(0, o.len() as int) =~= o);
        },
    }
}

/// `consume_chunk()`, connected to a source that yields `l`, finishes with
/// the end of the stream only when the source yields no value at all, and
/// otherwise with a flush or with the first chunk the source yields (a
/// prefix of `l`): it never reports the end while values are still to come.
pub proof fn law_connect_consume_chunk<O, S: Resume<Void, O, ()>>(src: Action<Void, O, S::Out, S::Model>, l: Seq<O>)
    requires
        emits::<O, S>(src, l),
        connect_halts::<O, Chunk<Vec<O>>, S, TakeChunk>(src, Action::Await(())),
    ensures
        chunk_taken_from(connect_result::<O, Chunk<Vec<O>>, S, TakeChunk>(src, Action::Await(())), l),
{
    let nx = choose|n: nat| #[trigger] src_values::<O, S>(src, n) == Some(l);
    let n = choose|n: nat| #[trigger] connect_fuel::<O, Chunk<Vec<O>>, S, TakeChunk>(Seq::empty(), src, Action::Await(()), n) is Some;
    let r = connect_fuel::<O, Chunk<Vec<O>>, S, TakeChunk>(Seq::empty(), src, Action::Await(()), n).unwrap();
    lemma_consume_chunk_taken::<O, S>(src, nx, l, n, r);
}

/// The first thing the source `x` sends downstream (fed empty chunks when it
/// awaits): a chunk it yields, a flush, or the end of the stream when it
/// finishes first; `None` when `fuel` steps are not enough.
pub open spec fn first_sent<O, S: Resume<Void, O, ()>>(x: Action<Void, O, S::Out, S::Model>, fuel: nat) -> Option<Chunk<Seq<O>>>
    decreases fuel,
{
    if fuel == 0 {
        None
    } else {
        let f = (fuel - 1) as nat;
        match x {
            Action::Pure(_) => Some(Chunk::End),
            Action::Flush(_) => Some(Chunk::Flush),
            Action::Yield(o, _) => Some(Chunk::Chunk(o)),
            Action::Defer(m) => first_sent::<O, S>(S::spec_resume(m), f),
            Action::Leftover(_, m) => first_sent::<O, S>(S::spec_resume(m), f),
            Action::Await(m) => first_sent::<O, S>(S::spec_feed(m, Chunk::Chunk(Seq::empty())), f),
        }
    }
}

proof fn lemma_consume_chunk_first<O, S: Resume<Void, O, ()>>(x: Action<Void, O, S::Out, S::Model>, n: nat, r: Chunk<Seq<O>>)
    requires
        connect_fuel::<O, Chunk<Vec<O>>, S, TakeChunk>(Seq::empty(), x, Action::Await(()), n) == Some(r),
    ensures
        first_sent::<O, S>(x, n) == Some(r),
    decreases n,
{
    let g = (n - 1) as nat;
    let q = Seq::<Seq<O>>::empty();
    assert(n > 0);
    match x {
        Action::Pure(_) => {
            assert(<TakeChunk as Resume<O, Void, Chunk<Vec<O>>>>::spec_feed((), Chunk::End) == Action::<O, Void, Chunk<Seq<O>>, ()>::Pure(Chunk::End));
            assert(connect_fuel::<O, Chunk<Vec<O>>, S, TakeChunk>(q, x, Action::Await(()), n)
                == connect_fuel::<O, Chunk<Vec<O>>, S, TakeChunk>(q, x, Action::Pure(Chunk::End), g));
        },
        Action::Flush(ks) => {
            assert(<TakeChunk as Resume<O, Void, Chunk<Vec<O>>>>::spec_feed((), Chunk::Flush) == Action::<O, Void, Chunk<Seq<O>>, ()>::Pure(Chunk::Flush));
            assert(connect_fuel::<O, Chunk<Vec<O>>, S, TakeChunk>(q, x, Action::Await(()), n)
                == connect_fuel::<O, Chunk<Vec<O>>, S, TakeChunk>(q, S::spec_resume(ks), Action::Pure(Chunk::Flush), g));
        },
        Action::Yield(o, ks) => {
            assert(<TakeChunk as Resume<O, Void, Chunk<Vec<O>>>>::spec_feed((), Chunk::Chunk(o)) == Action::<O, Void, Chunk<Seq<O>>, ()>::Pure(Chunk::Chunk(o)));
            assert(connect_fuel::<O, Chunk<Vec<O>>, S, TakeChunk>(q, x, Action::Await(()), n)
                == connect_fuel::<O, Chunk<Vec<O>>, S, TakeChunk>(q, S::spec_resume(ks), Action::Pure(Chunk::Chunk(o)), g));
        },
        Action::Defer(ks) => lemma_consume_chunk_first::<O, S>(S::spec_resume(ks), g, r),
        Action::Leftover(_, ks) => lemma_consume_chunk_first::<O, S>(S::spec_resume(ks), g, r),
        Action::Await(ks) => lemma_consume_chunk_first::<O, S>(S::spec_feed(ks, Chunk::Chunk(Seq::empty())), g, r),
    }
}

/// `consume_chunk()`, connected to a source, finishes with exactly the first
/// thing the source sends: its first chunk (even an empty one), a flush, or
/// the end of the stream when the source finishes without sending anything.
pub proof fn law_connect_consume_chunk_first<O, S: Resume<Void, O, ()>>(src: Action<Void, O, S::Out, S::Model>)
    requires
        connect_halts::<O, Chunk<Vec<O>>, S, TakeChunk>(src, Action::Await(())),
    ensures
        exists|n: nat| #[trigger] first_sent::<O, S>(src, n) == Some(connect_result::<O, Chunk<Vec<O>>, S, TakeChunk>(src, Action::Await(()))),
{
    let n = choose|n: nat| #[trigger] connect_fuel::<O, Chunk<Vec<O>>, S, TakeChunk>(Seq::empty(), src, Action::Await(()), n) is Some;
    let r = connect_fuel::<O, Chunk<Vec<O>>, S, TakeChunk>(Seq::empty(), src, Action::Await(()), n).unwrap();
    lemma_consume_chunk_first::<O, S>(src, n, r);
}

/// The first of the values `s`, if there is one.
pub open spec fn first_of<I>(s: Seq<I>) -> Option<I> {
    if s.len() > 0 {
        Some(s[0])
    } else {
        None
    }
}

proof fn lemma_consume_drain<I, S: Resume<Void, I, ()>>(
    p: Seq<Seq<I>>,
    src: Action<Void, I, S::Out, S::Model>,
    n: nat,
    l: Seq<I>,
)
    requires
        src_values::<I, S>(src, n) == Some(l),
    ensures
        exists|m: nat|
            #[trigger] connect_fuel::<I, Option<I>, S, Consume<I>>(p, src, Action::Await(Consume::Wait), m)
                == Some(first_of(stack_flat(p) + l)),
    decreases n, stack_measure(p),
{
    let w = Action::<I, Void, Option<I>, Consume<I>>::Await(Consume::Wait);
    if p.len() > 0 {
        let top = p.last();
        let rest = p.drop_last();
        if top.len() == 0 {
            lemma_consume_drain::<I, S>(rest, src, n, l);
            let m = choose|m: nat| #[trigger] connect_fuel::<I, Option<I>, S, Consume<I>>(rest, src, w, m)
                == Some(first_of(stack_flat(rest) + l));
            assert(top + stack_flat(rest) =~= stack_flat(rest));
            assert(connect_fuel::<I, Option<I>, S, Consume<I>>(p, src, w, m + 1) == Some(first_of(stack_flat(p) + l)));
        } else {
            let tail = top.drop_first();
            let all = stack_flat(p) + l;
            assert(all[0] == top[0]);
            let done = Action::<I, Void, Option<I>, Consume<I>>::Pure(Some(top[0]));
            assert(connect_fuel::<I, Option<I>, S, Consume<I>>(rest.push(tail), src, done, 1) == Some(first_of(all)));
            let lo = Action::<I, Void, Option<I>, Consume<I>>::Leftover(tail, Consume::Give(top[0]));
            assert(connect_fuel::<I, Option<I>, S, Consume<I>>(rest, src, lo, 2) == Some(first_of(all)));
            assert(connect_fuel::<I, Option<I>, S, Consume<I>>(p, src, w, 3) == Some(first_of(all)));
        }
    } else {
        assert(stack_flat(p) =~= Seq::<I>::empty());
        assert(stack_flat(p) + l =~= l);
        let g = (n - 1) as nat;
        match src {
            Action::Pure(x) => {
                assert(l =~= Seq::<I>::empty());
                assert(connect_fuel::<I, Option<I>, S, Consume<I>>(p, src, Action::Pure(None), 1) == Some(None::<I>));
                assert(connect_fuel::<I, Option<I>, S, Consume<I>>(p, src, w, 2) == Some(first_of(l)));
            },
            Action::Defer(ks) => {
                let s2 = S::spec_resume(ks);
                lemma_consume_drain::<I, S>(p, s2, g, l);
                let m = choose|m: nat| #[trigger] connect_fuel::<I, Option<I>, S, Consume<I>>(p, s2, w, m)
                    == Some(first_of(stack_flat(p) + l));
                assert(connect_fuel::<I, Option<I>, S, Consume<I>>(p, src, w, m + 1) == Some(first_of(stack_flat(p) + l)));
            },
            Action::Flush(ks) => {
                let s2 = S::spec_resume(ks);
                lemma_consume_drain::<I, S>(p, s2, g, l);
                let m = choose|m: nat| #[trigger] connect_fuel::<I, Option<I>, S, Consume<I>>(p, s2, w, m)
                    == Some(first_of(stack_flat(p) + l));
                assert(connect_fuel::<I, Option<I>, S, Consume<I>>(p, src, w, m + 1) == Some(first_of(stack_flat(p) + l)));
            },
            Action::Leftover(_, ks) => {
                let s2 = S::spec_resume(ks);
                lemma_consume_drain::<I, S>(p, s2, g, l);
                let m = choose|m: nat| #[trigger] connect_fuel::<I, Option<I>, S, Consume<I>>(p, s2, w, m)
                    == Some(first_of(stack_flat(p) + l));
                assert(connect_fuel::<I, Option<I>, S, Consume<I>>(p, src, w, m + 1) == Some(first_of(stack_flat(p) + l)));
            },
            Action::Await(ks) => {
                let s2 = S::spec_feed(ks, Chunk::Chunk(Seq::empty()));
                lemma_consume_drain::<I, S>(p, s2, g, l);
                let m = choose|m: nat| #[trigger] connect_fuel::<I, Option<I>, S, Consume<I>>(p, s2, w, m)
                    == Some(first_of(stack_flat(p) + l));
                assert(connect_fuel::<I, Option<I>, S, Consume<I>>(p, src, w, m + 1) == Some(first_of(stack_flat(p) + l)));
            },
            Action::Yield(o, ks) => {
                let s2 = S::spec_resume(ks);
                let l2 = src_values::<I, S>(s2, g).unwrap();
                assert(l =~= o + l2);
                let p1 = seq![o];
                assert(p1.drop_last() =~= Seq::<Seq<I>>::empty());
                assert(stack_flat(p1.drop_last()) =~= Seq::<I>::empty());
                assert(stack_flat(p1) =~= o);
                lemma_consume_drain::<I, S>(p1, s2, g, l2);
                let m = choose|m: nat| #[trigger] connect_fuel::<I, Option<I>, S, Consume<I>>(p1, s2, w, m)
                    == Some(first_of(stack_flat(p1) + l2));
                assert(m > 0);
                assert(stack_flat(p1) + l2 =~= stack_flat(p) + l);
                assert(p =~= Seq::<Seq<I>>::empty());
                let fed = consume_feed::<I, Void>(Chunk::Chunk(o));
                assert(connect_fuel::<I, Option<I>, S, Consume<I>>(p1, s2, w, m)
                    == connect_fuel::<I, Option<I>, S, Consume<I>>(Seq::empty(), s2, fed, (m - 1) as nat));
                assert(connect_fuel::<I, Option<I>, S, Consume<I>>(p, src, w, m)
                    == connect_fuel::<I, Option<I>, S, Consume<I>>(Seq::empty(), s2, fed, (m - 1) as nat));
            },
        }
    }
}

/// A source that yields `l`, connected to `consume()`, gives the first value
/// of `l`, or `None` when `l` is empty.
pub proof fn law_connect_consume<I, S: Resume<Void, I, ()>>(src: Action<Void, I, S::Out, S::Model>, l: Seq<I>)
    requires
        emits::<I, S>(src, l),
    ensures
        connect_halts::<I, Option<I>, S, Consume<I>>(src, Action::Await(Consume::Wait)),
        connect_result::<I, Option<I>, S, Consume<I>>(src, Action::Await(Consume::Wait)) == first_of(l),
{
    let n = choose|n: nat| #[trigger] src_values::<I, S>(src, n) == Some(l);
    lemma_consume_drain::<I, S>(Seq::empty(), src, n, l);
    assert(stack_flat(Seq::<Seq<I>>::empty()) + l =~= l);
    let w = Action::<I, Void, Option<I>, Consume<I>>::Await(Consume::Wait);
    let m = choose|m: nat| #[trigger] connect_fuel::<I, Option<I>, S, Consume<I>>(Seq::empty(), src, w, m)
        == Some(first_of(stack_flat(Seq::<Seq<I>>::empty()) + l));
    lemma_connect_result::<I, Option<I>, S, Consume<I>>(src, w, m, first_of(l));
}

/// A value handed back with `leftover` is what the next `consume` gives,
/// whatever the source.
pub proof fn law_leftover_consume<I, S: Resume<Void, I, ()>>(src: Action<Void, I, S::Out, S::Model>, i: I)
    ensures
        connect_halts::<I, Option<I>, S, Then<I, Void, (), Option<I>, Ret<()>, Consume<I>>>(
            src,
            then_step(Action::<I, Void, (), ()>::Leftover(seq![i], ()), Action::<I, Void, Option<I>, Consume<I>>::Await(Consume::Wait)),
        ),
        connect_result::<I, Option<I>, S, Then<I, Void, (), Option<I>, Ret<()>, Consume<I>>>(
            src,
            then_step(Action::<I, Void, (), ()>::Leftover(seq![i], ()), Action::<I, Void, Option<I>, Consume<I>>::Await(Consume::Wait)),
        ) == Some(i),
{
    let sink = then_step(Action::<I, Void, (), ()>::Leftover(seq![i], ()), Action::<I, Void, Option<I>, Consume<I>>::Await(Consume::Wait));
    reveal_with_fuel(connect_fuel, 6);
    assert(seq![i].drop_first() =~= Seq::<I>::empty());
    assert(connect_fuel::<I, Option<I>, S, Then<I, Void, (), Option<I>, Ret<()>, Consume<I>>>(Seq::empty(), src, sink, 5) == Some(Some(i)));
    lemma_connect_result::<I, Option<I>, S, Then<I, Void, (), Option<I>, Ret<()>, Consume<I>>>(src, sink, 5, Some(i));
}


/// The sink `transform(g).fuse(fold(a, f))` while it waits for input.
pub open spec fn transform_fold_wait<X, Y, A, G: Fn(X) -> Y, F: Fn(A, Y) -> A>(g: G, a: A, f: F) -> Action<
    X,
    Void,
    A,
    FuseModel<X, Y, (), Transform<X, G>, SinkK<A, Y, Folding<F>>>,
> {
    Action::Await(FuseModel::Left(Seq::empty(), Transform::Wait(g), SinkK::Wait(a, Folding { f })))
}

proof fn lemma_transform_fold_drain<X, Y, A, G: Fn(X) -> Y, F: Fn(A, Y) -> A, S: Resume<Void, X, ()>>(
    p: Seq<Seq<X>>,
    src: Action<Void, X, S::Out, S::Model>,
    g: G,
    a: A,
    f: F,
    n: nat,
    l: Seq<X>,
)
    requires
        src_values::<X, S>(src, n) == Some(l),
    ensures
        exists|m: nat|
            #[trigger] connect_fuel::<X, A, S, Fuse<X, Y, Void, A, Transform<X, G>, SinkK<A, Y, Folding<F>>>>(
                p,
                src,
                transform_fold_wait(g, a, f),
                m,
            ) == Some(fold_seq(map_seq(stack_flat(p) + l, g), a, f)),
    decreases n, stack_measure(p),
{
    let w = transform_fold_wait::<X, Y, A, G, F>(g, a, f);
    let want = fold_seq(map_seq(stack_flat(p) + l, g), a, f);
    if p.len() > 0 {
        let top = p.last();
        let rest = p.drop_last();
        if top.len() == 0 {
            lemma_transform_fold_drain::<X, Y, A, G, F, S>(rest, src, g, a, f, n, l);
            let m = choose|m: nat| #[trigger] connect_fuel::<X, A, S, Fuse<X, Y, Void, A, Transform<X, G>, SinkK<A, Y, Folding<F>>>>(
                rest, src, w, m) == Some(fold_seq(map_seq(stack_flat(rest) + l, g), a, f));
            assert(top + stack_flat(rest) =~= stack_flat(rest));
            assert(connect_fuel::<X, A, S, Fuse<X, Y, Void, A, Transform<X, G>, SinkK<A, Y, Folding<F>>>>(p, src, w, m + 1) == Some(want));
        } else {
            let tail = top.drop_first();
            let x0 = top[0];
            let y0 = pure_apply1(g, x0);
            let b = pure_apply2(f, a, y0);
            let p2 = rest.push(tail);
            assert(p2.drop_last() =~= rest);
            lemma_transform_fold_drain::<X, Y, A, G, F, S>(p2, src, g, b, f, n, l);
            let w2 = transform_fold_wait::<X, Y, A, G, F>(g, b, f);
            let m = choose|m: nat| #[trigger] connect_fuel::<X, A, S, Fuse<X, Y, Void, A, Transform<X, G>, SinkK<A, Y, Folding<F>>>>(
                p2, src, w2, m) == Some(fold_seq(map_seq(stack_flat(p2) + l, g), b, f));
            let all = stack_flat(p) + l;
            assert(all =~= seq![x0] + (stack_flat(p2) + l));
            lemma_map_seq_cons(x0, stack_flat(p2) + l, g);
            let mapped = map_seq(all, g);
            assert(mapped[0] == y0);
            assert(mapped.drop_first() =~= map_seq(stack_flat(p2) + l, g));
            assert(fold_seq(mapped, a, f) == fold_seq(map_seq(stack_flat(p2) + l, g), b, f));
            let e: Seq<Y> = Seq::empty();
            let s4 = Action::<X, Void, A, FuseModel<X, Y, (), Transform<X, G>, SinkK<A, Y, Folding<F>>>>::Defer(
                FuseModel::FeedRight(Seq::empty(), Action::Await(Transform::Wait(g)), SinkK::Wait(b, Folding { f }), Chunk::Chunk(e)));
            assert(connect_fuel::<X, A, S, Fuse<X, Y, Void, A, Transform<X, G>, SinkK<A, Y, Folding<F>>>>(p2, src, s4, m + 1) == Some(want));
            let s3 = Action::<X, Void, A, FuseModel<X, Y, (), Transform<X, G>, SinkK<A, Y, Folding<F>>>>::Defer(
                FuseModel::Right(seq![e], Action::Await(Transform::Wait(g)), SinkK::Got(a, y0, Folding { f })));
            assert(seq![e].drop_last() =~= Seq::<Seq<Y>>::empty());
            assert(connect_fuel::<X, A, S, Fuse<X, Y, Void, A, Transform<X, G>, SinkK<A, Y, Folding<F>>>>(p2, src, s3, m + 2) == Some(want));
            let s2 = Action::<X, Void, A, FuseModel<X, Y, (), Transform<X, G>, SinkK<A, Y, Folding<F>>>>::Defer(
                FuseModel::Both(Seq::empty(), Transform::Next(g), SinkK::Wait(a, Folding { f }), Chunk::Chunk(seq![y0])));
            assert(seq![y0].drop_first() =~= e);
            assert(connect_fuel::<X, A, S, Fuse<X, Y, Void, A, Transform<X, G>, SinkK<A, Y, Folding<F>>>>(p2, src, s2, m + 3) == Some(want));
            let s1 = Action::<X, Void, A, FuseModel<X, Y, (), Transform<X, G>, SinkK<A, Y, Folding<F>>>>::Leftover(
                tail, FuseModel::Left(Seq::empty(), Transform::Emit(x0, g), SinkK::Wait(a, Folding { f })));
            assert(connect_fuel::<X, A, S, Fuse<X, Y, Void, A, Transform<X, G>, SinkK<A, Y, Folding<F>>>>(rest, src, s1, m + 4) == Some(want));
            assert(connect_fuel::<X, A, S, Fuse<X, Y, Void, A, Transform<X, G>, SinkK<A, Y, Folding<F>>>>(p, src, w, m + 5) == Some(want));
        }
    } else {
        assert(stack_flat(p) =~= Seq::<X>::empty());
        assert(stack_flat(p) + l =~= l);
        let n1 = (n - 1) as nat;
        match src {
            Action::Pure(x) => {
                assert(l =~= Seq::<X>::empty());
                assert(map_seq(l, g) =~= Seq::<Y>::empty());
                let fin = Action::<X, Void, A, FuseModel<X, Y, (), Transform<X, G>, SinkK<A, Y, Folding<F>>>>::Pure(a);
                assert(connect_fuel::<X, A, S, Fuse<X, Y, Void, A, Transform<X, G>, SinkK<A, Y, Folding<F>>>>(p, src, fin, 1) == Some(a));
                let d = Action::<X, Void, A, FuseModel<X, Y, (), Transform<X, G>, SinkK<A, Y, Folding<F>>>>::Defer(
                    FuseModel::FeedRight(Seq::empty(), Action::Pure(()), SinkK::Wait(a, Folding { f }), Chunk::End));
                assert(connect_fuel::<X, A, S, Fuse<X, Y, Void, A, Transform<X, G>, SinkK<A, Y, Folding<F>>>>(p, src, d, 2) == Some(a));
                assert(connect_fuel::<X, A, S, Fuse<X, Y, Void, A, Transform<X, G>, SinkK<A, Y, Folding<F>>>>(p, src, w, 3) == Some(want));
            },
            Action::Defer(ks) => {
                let s2 = S::spec_resume(ks);
                lemma_transform_fold_drain::<X, Y, A, G, F, S>(p, s2, g, a, f, n1, l);
                let m = choose|m: nat| #[trigger] connect_fuel::<X, A, S, Fuse<X, Y, Void, A, Transform<X, G>, SinkK<A, Y, Folding<F>>>>(
                    p, s2, w, m) == Some(want);
                assert(connect_fuel::<X, A, S, Fuse<X, Y, Void, A, Transform<X, G>, SinkK<A, Y, Folding<F>>>>(p, src, w, m + 1) == Some(want));
            },
            Action::Flush(ks) => {
                let s2 = S::spec_resume(ks);
                lemma_transform_fold_drain::<X, Y, A, G, F, S>(p, s2, g, a, f, n1, l);
                let m = choose|m: nat| #[trigger] connect_fuel::<X, A, S, Fuse<X, Y, Void, A, Transform<X, G>, SinkK<A, Y, Folding<F>>>>(
                    p, s2, w, m) == Some(want);
                assert(connect_fuel::<X, A, S, Fuse<X, Y, Void, A, Transform<X, G>, SinkK<A, Y, Folding<F>>>>(p, src, w, m + 1) == Some(want));
            },
            Action::Leftover(_, ks) => {
                let s2 = S::spec_resume(ks);
                lemma_transform_fold_drain::<X, Y, A, G, F, S>(p, s2, g, a, f, n1, l);
                let m = choose|m: nat| #[trigger] connect_fuel::<X, A, S, Fuse<X, Y, Void, A, Transform<X, G>, SinkK<A, Y, Folding<F>>>>(
                    p, s2, w, m) == Some(want);
                assert(connect_fuel::<X, A, S, Fuse<X, Y, Void, A, Transform<X, G>, SinkK<A, Y, Folding<F>>>>(p, src, w, m + 1) == Some(want));
            },
            Action::Await(ks) => {
                let s2 = S::spec_feed(ks, Chunk::Chunk(Seq::empty()));
                lemma_transform_fold_drain::<X, Y, A, G, F, S>(p, s2, g, a, f, n1, l);
                let m = choose|m: nat| #[trigger] connect_fuel::<X, A, S, Fuse<X, Y, Void, A, Transform<X, G>, SinkK<A, Y, Folding<F>>>>(
                    p, s2, w, m) == Some(want);
                assert(connect_fuel::<X, A, S, Fuse<X, Y, Void, A, Transform<X, G>, SinkK<A, Y, Folding<F>>>>(p, src, w, m + 1) == Some(want));
            },
            Action::Yield(o, ks) => {
                let s2 = S::spec_resume(ks);
                let l2 = src_values::<X, S>(s2, n1).unwrap();
                assert(l =~= o + l2);
                let p1 = seq![o];
                assert(p1.drop_last() =~= Seq::<Seq<X>>::empty());
                assert(stack_flat(p1.drop_last()) =~= Seq::<X>::empty());
                assert(stack_flat(p1) =~= o);
                lemma_transform_fold_drain::<X, Y, A, G, F, S>(p1, s2, g, a, f, n1, l2);
                let m = choose|m: nat| #[trigger] connect_fuel::<X, A, S, Fuse<X, Y, Void, A, Transform<X, G>, SinkK<A, Y, Folding<F>>>>(
                    p1, s2, w, m) == Some(fold_seq(map_seq(stack_flat(p1) + l2, g), a, f));
                assert(m > 0);
                assert(stack_flat(p1) + l2 =~= stack_flat(p) + l);
                assert(p =~= Seq::<Seq<X>>::empty());
                let fm = FuseModel::<X, Y, (), Transform<X, G>, SinkK<A, Y, Folding<F>>>::Left(
                    Seq::empty(), Transform::Wait(g), SinkK::Wait(a, Folding { f }));
                let fed = Fuse::<X, Y, Void, A, Transform<X, G>, SinkK<A, Y, Folding<F>>>::feed_model(fm, Chunk::Chunk(o));
                assert(connect_fuel::<X, A, S, Fuse<X, Y, Void, A, Transform<X, G>, SinkK<A, Y, Folding<F>>>>(p1, s2, w, m)
                    == connect_fuel::<X, A, S, Fuse<X, Y, Void, A, Transform<X, G>, SinkK<A, Y, Folding<F>>>>(Seq::empty(), s2, fed, (m - 1) as nat));
                assert(connect_fuel::<X, A, S, Fuse<X, Y, Void, A, Transform<X, G>, SinkK<A, Y, Folding<F>>>>(p, src, w, m)
                    == connect_fuel::<X, A, S, Fuse<X, Y, Void, A, Transform<X, G>, SinkK<A, Y, Folding<F>>>>(Seq::empty(), s2, fed, (m - 1) as nat));
            },
        }
    }
}

/// Fusing `transform(g)` into `fold(a, f)` gives a sink that, connected to a
/// source that yields `l`, consumes the same values and gives what the fold
/// gives on the values of `l` mapped by `g`.
pub proof fn law_transform_fuse_fold<X, Y, A, G: Fn(X) -> Y, F: Fn(A, Y) -> A, S: Resume<Void, X, ()>>(
    src: Action<Void, X, S::Out, S::Model>,
    l: Seq<X>,
    g: G,
    a: A,
    f: F,
)
    requires
        emits::<X, S>(src, l),
    ensures
        fuse_step(Seq::<Seq<Y>>::empty(), Action::<X, Y, (), Transform<X, G>>::Await(Transform::Wait(g)),
            Action::<Y, Void, A, SinkK<A, Y, Folding<F>>>::Await(SinkK::Wait(a, Folding { f })))
            == transform_fold_wait::<X, Y, A, G, F>(g, a, f),
        connect_halts::<X, A, S, Fuse<X, Y, Void, A, Transform<X, G>, SinkK<A, Y, Folding<F>>>>(src, transform_fold_wait(g, a, f)),
        connect_result::<X, A, S, Fuse<X, Y, Void, A, Transform<X, G>, SinkK<A, Y, Folding<F>>>>(src, transform_fold_wait(g, a, f))
            == fold_seq(map_seq(l, g), a, f),
{
    let n = choose|n: nat| #[trigger] src_values::<X, S>(src, n) == Some(l);
    lemma_transform_fold_drain::<X, Y, A, G, F, S>(Seq::empty(), src, g, a, f, n, l);
    assert(stack_flat(Seq::<Seq<X>>::empty()) + l =~= l);
    let w = transform_fold_wait::<X, Y, A, G, F>(g, a, f);
    let m = choose|m: nat| #[trigger] connect_fuel::<X, A, S, Fuse<X, Y, Void, A, Transform<X, G>, SinkK<A, Y, Folding<F>>>>(
        Seq::empty(), src, w, m) == Some(fold_seq(map_seq(stack_flat(Seq::<Seq<X>>::empty()) + l, g), a, f));
    lemma_connect_result::<X, A, S, Fuse<X, Y, Void, A, Transform<X, G>, SinkK<A, Y, Folding<F>>>>(src, w, m, fold_seq(map_seq(l, g), a, f));
}


proof fn lemma_then_second_values<O, A, K1: Resume<Void, O, A>, K2: Resume<Void, O, ()>>(
    c: Action<Void, O, K2::Out, K2::Model>,
    n: nat,
)
    ensures
        src_values::<O, Then<Void, O, A, (), K1, K2>>(
            then_second::<Void, O, K2::Out, K1::Model, Action<Void, O, K2::Out, K2::Model>, K2::Model>(c),
            n,
        ) == src_values::<O, K2>(c, n),
    decreases n,
{
    if n > 0 {
        let g = (n - 1) as nat;
        match c {
            Action::Pure(_) => {},
            Action::Defer(m) => lemma_then_second_values::<O, A, K1, K2>(K2::spec_resume(m), g),
            Action::Flush(m) => lemma_then_second_values::<O, A, K1, K2>(K2::spec_resume(m), g),
            Action::Leftover(_, m) => lemma_then_second_values::<O, A, K1, K2>(K2::spec_resume(m), g),
            Action::Await(m) => lemma_then_second_values::<O, A, K1, K2>(K2::spec_feed(m, Chunk::Chunk(Seq::empty())), g),
            Action::Yield(_, m) => lemma_then_second_values::<O, A, K1, K2>(K2::spec_resume(m), g),
        }
    }
}

proof fn lemma_then_values<O, A, K1: Resume<Void, O, A>, K2: Resume<Void, O, ()>>(
    c: Action<Void, O, K1::Out, K1::Model>,
    d: Action<Void, O, K2::Out, K2::Model>,
    n: nat,
    l1: Seq<O>,
    m: nat,
    l2: Seq<O>,
)
    requires
        src_values_of::<O, A, K1>(c, n) == Some(l1),
        src_values::<O, K2>(d, m) == Some(l2),
    ensures
        src_values::<O, Then<Void, O, A, (), K1, K2>>(then_step(c, d), n + m) == Some(l1 + l2),
    decreases n,
{
    let g = (n - 1) as nat;
    match c {
        Action::Pure(_) => {
            assert(l1 =~= Seq::<O>::empty());
            assert(l1 + l2 =~= l2);
            lemma_then_second_values::<O, A, K1, K2>(d, m);
            lemma_src_values_mono::<O, K2>(d, m, n + m);
            lemma_then_second_values::<O, A, K1, K2>(d, n + m);
        },
        Action::Defer(k) => lemma_then_values::<O, A, K1, K2>(K1::spec_resume(k), d, g, l1, m, l2),
        Action::Flush(k) => lemma_then_values::<O, A, K1, K2>(K1::spec_resume(k), d, g, l1, m, l2),
        Action::Leftover(_, k) => lemma_then_values::<O, A, K1, K2>(K1::spec_resume(k), d, g, l1, m, l2),
        Action::Await(k) => lemma_then_values::<O, A, K1, K2>(K1::spec_feed(k, Chunk::Chunk(Seq::empty())), d, g, l1, m, l2),
        Action::Yield(o, k) => {
            let rest = src_values_of::<O, A, K1>(K1::spec_resume(k), g).unwrap();
            assert(l1 =~= o + rest);
            lemma_then_values::<O, A, K1, K2>(K1::spec_resume(k), d, g, rest, m, l2);
            assert(o + (rest + l2) =~= l1 + l2);
        },
    }
}

/// The values a conduit with no input yields until it finishes (with any
/// result); `None` when `fuel` steps are not enough.
pub open spec fn src_values_of<O, A, K: Resume<Void, O, A>>(src: Action<Void, O, K::Out, K::Model>, fuel: nat) -> Option<Seq<O>>
    decreases fuel,
{
    if fuel == 0 {
        None
    } else {
        let f = (fuel - 1) as nat;
        match src {
            Action::Pure(_) => Some(Seq::empty()),
            Action::Defer(m) => src_values_of::<O, A, K>(K::spec_resume(m), f),
            Action::Flush(m) => src_values_of::<O, A, K>(K::spec_resume(m), f),
            Action::Leftover(_, m) => src_values_of::<O, A, K>(K::spec_resume(m), f),
            Action::Await(m) => src_values_of::<O, A, K>(K::spec_feed(m, Chunk::Chunk(Seq::empty())), f),
            Action::Yield(o, m) => match src_values_of::<O, A, K>(K::spec_resume(m), f) {
                Some(rest) => Some(o + rest),
                None => None,
            },
        }
    }
}

/// More fuel does not change the values of a source that finished.
pub proof fn lemma_src_values_mono<O, S: Resume<Void, O, ()>>(src: Action<Void, O, S::Out, S::Model>, n: nat, m: nat)
    requires
        n <= m,
        src_values::<O, S>(src, n) is Some,
    ensures
        src_values::<O, S>(src, m) == src_values::<O, S>(src, n),
    decreases n,
{
    if n > 0 {
        let f = (n - 1) as nat;
        let g = (m - 1) as nat;
        match src {
            Action::Pure(_) => {},
            Action::Defer(k) => lemma_src_values_mono::<O, S>(S::spec_resume(k), f, g),
            Action::Flush(k) => lemma_src_values_mono::<O, S>(S::spec_resume(k), f, g),
            Action::Leftover(_, k) => lemma_src_values_mono::<O, S>(S::spec_resume(k), f, g),
            Action::Await(k) => lemma_src_values_mono::<O, S>(S::spec_feed(k, Chunk::Chunk(Seq::empty())), f, g),
            Action::Yield(_, k) => lemma_src_values_mono::<O, S>(S::spec_resume(k), f, g),
        }
    }
}

proof fn lemma_src_values_of_source<O, S: Resume<Void, O, ()>>(src: Action<Void, O, S::Out, S::Model>, n: nat)
    ensures
        src_values_of::<O, (), S>(src, n) == src_values::<O, S>(src, n),
    decreases n,
{
    if n > 0 {
        let f = (n - 1) as nat;
        match src {
            Action::Pure(_) => {},
            Action::Defer(k) => lemma_src_values_of_source::<O, S>(S::spec_resume(k), f),
            Action::Flush(k) => lemma_src_values_of_source::<O, S>(S::spec_resume(k), f),
            Action::Leftover(_, k) => lemma_src_values_of_source::<O, S>(S::spec_resume(k), f),
            Action::Await(k) => lemma_src_values_of_source::<O, S>(S::spec_feed(k, Chunk::Chunk(Seq::empty())), f),
            Action::Yield(_, k) => lemma_src_values_of_source::<O, S>(S::spec_resume(k), f),
        }
    }
}

/// A source followed (with `and`) by another yields the values of the
/// first and then those of the second.
pub proof fn law_and_emits<O, K1: Resume<Void, O, ()>, K2: Resume<Void, O, ()>>(
    c: Action<Void, O, K1::Out, K1::Model>,
    l1: Seq<O>,
    d: Action<Void, O, K2::Out, K2::Model>,
    l2: Seq<O>,
)
    requires
        emits::<O, K1>(c, l1),
        emits::<O, K2>(d, l2),
    ensures
        emits::<O, Then<Void, O, (), (), K1, K2>>(then_step(c, d), l1 + l2),
{
    let n = choose|n: nat| #[trigger] src_values::<O, K1>(c, n) == Some(l1);
    let m = choose|m: nat| #[trigger] src_values::<O, K2>(d, m) == Some(l2);
    lemma_src_values_of_source::<O, K1>(c, n);
    lemma_then_values::<O, (), K1, K2>(c, d, n, l1, m, l2);
}

/// The conduit that the pure arrow `f` builds from a result whose model is
/// `e` yields the values `l`.
pub open spec fn arrow_emits<O, A, K1: Resume<Void, O, A>, F, K2: Resume<Void, O, ()>>(f: F, e: K1::Out, l: Seq<O>) -> bool where
    F: FnOnce(A) -> ConduitM<Void, O, (), K2>,
{
    emits::<O, K2>(arrow_apply(f, |a: A| K1::out(a), e), l)
}

proof fn lemma_second_values<O, A, K1: Resume<Void, O, A>, F, K2: Resume<Void, O, ()>>(
    c: Action<Void, O, K2::Out, K2::Model>,
    n: nat,
)
    where
        F: FnOnce(A) -> ConduitM<Void, O, (), K2>,
    ensures
        src_values::<O, AndThen<A, K1, F, K2>>(second::<Void, O, K2::Out, K1::Model, F, K2::Model>(c), n) == src_values::<O, K2>(c, n),
    decreases n,
{
    if n > 0 {
        let g = (n - 1) as nat;
        match c {
            Action::Pure(_) => {},
            Action::Defer(m) => lemma_second_values::<O, A, K1, F, K2>(K2::spec_resume(m), g),
            Action::Flush(m) => lemma_second_values::<O, A, K1, F, K2>(K2::spec_resume(m), g),
            Action::Leftover(_, m) => lemma_second_values::<O, A, K1, F, K2>(K2::spec_resume(m), g),
            Action::Await(m) => lemma_second_values::<O, A, K1, F, K2>(K2::spec_feed(m, Chunk::Chunk(Seq::empty())), g),
            Action::Yield(_, m) => lemma_second_values::<O, A, K1, F, K2>(K2::spec_resume(m), g),
        }
    }
}

proof fn lemma_bind_values<O, A, K1: Resume<Void, O, A>, F, K2: Resume<Void, O, ()>>(
    c: Action<Void, O, K1::Out, K1::Model>,
    f: F,
    n: nat,
    l1: Seq<O>,
    l2: Seq<O>,
)
    where
        F: FnOnce(A) -> ConduitM<Void, O, (), K2>,
    requires
        src_values_of::<O, A, K1>(c, n) == Some(l1),
        forall|e: K1::Out| #[trigger] arrow_emits::<O, A, K1, F, K2>(f, e, l2),
    ensures
        emits::<O, AndThen<A, K1, F, K2>>(bind_step::<Void, O, A, (), K1, K2, F>(c, f), l1 + l2),
    decreases n,
{
    let g = (n - 1) as nat;
    match c {
        Action::Pure(e) => {
            let d = arrow_apply(f, |a: A| K1::out(a), e);
            assert(arrow_emits::<O, A, K1, F, K2>(f, e, l2));
            let m = choose|m: nat| #[trigger] src_values::<O, K2>(d, m) == Some(l2);
            lemma_second_values::<O, A, K1, F, K2>(d, m);
            assert(l1 =~= Seq::<O>::empty());
            assert(l1 + l2 =~= l2);
            assert(src_values::<O, AndThen<A, K1, F, K2>>(bind_step::<Void, O, A, (), K1, K2, F>(c, f), m) == Some(l1 + l2));
        },
        Action::Defer(k) => {
            lemma_bind_values::<O, A, K1, F, K2>(K1::spec_resume(k), f, g, l1, l2);
            let next = bind_step::<Void, O, A, (), K1, K2, F>(K1::spec_resume(k), f);
            let m = choose|m: nat| #[trigger] src_values::<O, AndThen<A, K1, F, K2>>(next, m) == Some(l1 + l2);
            assert(src_values::<O, AndThen<A, K1, F, K2>>(bind_step::<Void, O, A, (), K1, K2, F>(c, f), m + 1) == Some(l1 + l2));
        },
        Action::Flush(k) => {
            lemma_bind_values::<O, A, K1, F, K2>(K1::spec_resume(k), f, g, l1, l2);
            let next = bind_step::<Void, O, A, (), K1, K2, F>(K1::spec_resume(k), f);
            let m = choose|m: nat| #[trigger] src_values::<O, AndThen<A, K1, F, K2>>(next, m) == Some(l1 + l2);
            assert(src_values::<O, AndThen<A, K1, F, K2>>(bind_step::<Void, O, A, (), K1, K2, F>(c, f), m + 1) == Some(l1 + l2));
        },
        Action::Leftover(_, k) => {
            lemma_bind_values::<O, A, K1, F, K2>(K1::spec_resume(k), f, g, l1, l2);
            let next = bind_step::<Void, O, A, (), K1, K2, F>(K1::spec_resume(k), f);
            let m = choose|m: nat| #[trigger] src_values::<O, AndThen<A, K1, F, K2>>(next, m) == Some(l1 + l2);
            assert(src_values::<O, AndThen<A, K1, F, K2>>(bind_step::<Void, O, A, (), K1, K2, F>(c, f), m + 1) == Some(l1 + l2));
        },
        Action::Await(k) => {
            let c2 = K1::spec_feed(k, Chunk::Chunk(Seq::empty()));
            lemma_bind_values::<O, A, K1, F, K2>(c2, f, g, l1, l2);
            let next = bind_step::<Void, O, A, (), K1, K2, F>(c2, f);
            let m = choose|m: nat| #[trigger] src_values::<O, AndThen<A, K1, F, K2>>(next, m) == Some(l1 + l2);
            assert(src_values::<O, AndThen<A, K1, F, K2>>(bind_step::<Void, O, A, (), K1, K2, F>(c, f), m + 1) == Some(l1 + l2));
        },
        Action::Yield(o, k) => {
            let rest = src_values_of::<O, A, K1>(K1::spec_resume(k), g).unwrap();
            assert(l1 =~= o + rest);
            lemma_bind_values::<O, A, K1, F, K2>(K1::spec_resume(k), f, g, rest, l2);
            let next = bind_step::<Void, O, A, (), K1, K2, F>(K1::spec_resume(k), f);
            let m = choose|m: nat| #[trigger] src_values::<O, AndThen<A, K1, F, K2>>(next, m) == Some(rest + l2);
            assert(o + (rest + l2) =~= l1 + l2);
            assert(src_values::<O, AndThen<A, K1, F, K2>>(bind_step::<Void, O, A, (), K1, K2, F>(c, f), m + 1) == Some(l1 + l2));
        },
    }
}

/// A conduit with no input that yields the values `l1` (and finishes with
/// any result), followed with `and_then` by a pure arrow `f` whose conduit
/// yields `l2` whatever the result, yields `l1` and then `l2`: `and_then`
/// passes on everything the first conduit yields.
pub proof fn law_and_then_emits<O, A, K1: Resume<Void, O, A>, F, K2: Resume<Void, O, ()>>(
    c: Action<Void, O, K1::Out, K1::Model>,
    l1: Seq<O>,
    f: F,
    l2: Seq<O>,
)
    where
        F: FnOnce(A) -> ConduitM<Void, O, (), K2>,
    requires
        exists|n: nat| #[trigger] src_values_of::<O, A, K1>(c, n) == Some(l1),
        forall|e: K1::Out| #[trigger] arrow_emits::<O, A, K1, F, K2>(f, e, l2),
    ensures
        emits::<O, AndThen<A, K1, F, K2>>(bind_step::<Void, O, A, (), K1, K2, F>(c, f), l1 + l2),
{
    let n = choose|n: nat| #[trigger] src_values_of::<O, A, K1>(c, n) == Some(l1);
    lemma_bind_values::<O, A, K1, F, K2>(c, f, n, l1, l2);
}

/// `produce(x)`, as a source, yields `x` alone; `defer()` yields nothing.
pub proof fn law_produce_defer_emit<O>(x: O)
    ensures
        emits::<O, Ret<()>>(Action::Yield(seq![x], ()), seq![x]),
        emits::<O, Ret<()>>(Action::Defer(()), Seq::empty()),
{
    assert(seq![x] + Seq::<O>::empty() =~= seq![x]);
    assert(src_values::<O, Ret<()>>(Action::Pure(()), 1) == Some(Seq::<O>::empty()));
    assert(src_values::<O, Ret<()>>(Action::Yield(seq![x], ()), 2) == Some(seq![x]));
    assert(src_values::<O, Ret<()>>(Action::Defer(()), 2) == Some(Seq::<O>::empty()));
}


/// `produce_chunk(v)`, as a source, yields the values of `v`, in order.
pub proof fn law_produce_chunk_emits<O>(v: Seq<O>)
    ensures
        emits::<O, Ret<()>>(Action::Yield(v, ()), v),
{
    assert(v + Seq::<O>::empty() =~= v);
    assert(src_values::<O, Ret<()>>(Action::Pure(()), 1) == Some(Seq::<O>::empty()));
    assert(src_values::<O, Ret<()>>(Action::Yield(v, ()), 2) == Some(v));
}

/// The sink `consume().zip(consume())` before it took anything.
pub open spec fn two_consumes<I>() -> Action<I, Void, (Option<I>, Option<I>), ZipModel<Consume<I>, Action<I, Void, Option<I>, Consume<I>>, Option<I>, Consume<I>>> {
    zip_step(Action::<I, Void, Option<I>, Consume<I>>::Await(Consume::Wait), Action::<I, Void, Option<I>, Consume<I>>::Await(Consume::Wait))
}

proof fn lemma_two_consumes_at_end<I, S: Resume<Void, I, ()>>(src: Action<Void, I, S::Out, S::Model>, n: nat)
    requires
        src_values::<I, S>(src, n) == Some(Seq::<I>::empty()),
    ensures
        exists|m: nat|
            #[trigger] connect_fuel::<I, (Option<I>, Option<I>), S, Zip<I, Void, Option<I>, Option<I>, Consume<I>, Consume<I>>>(
                Seq::empty(),
                src,
                two_consumes(),
                m,
            ) == Some((None::<I>, None::<I>)),
    decreases n,
{
    let z = two_consumes::<I>();
    let e: Seq<Seq<I>> = Seq::empty();
    let g = (n - 1) as nat;
    match src {
        Action::Pure(x) => {
            let done = Action::<I, Void, (Option<I>, Option<I>), ZipModel<Consume<I>, Action<I, Void, Option<I>, Consume<I>>, Option<I>, Consume<I>>>::Pure((None, None));
            assert(connect_fuel::<I, (Option<I>, Option<I>), S, Zip<I, Void, Option<I>, Option<I>, Consume<I>, Consume<I>>>(e, src, done, 1) == Some((None::<I>, None::<I>)));
            let half = Action::<I, Void, (Option<I>, Option<I>), ZipModel<Consume<I>, Action<I, Void, Option<I>, Consume<I>>, Option<I>, Consume<I>>>::Await(ZipModel::Second(None, Consume::Wait));
            assert(connect_fuel::<I, (Option<I>, Option<I>), S, Zip<I, Void, Option<I>, Option<I>, Consume<I>, Consume<I>>>(e, src, half, 2) == Some((None::<I>, None::<I>)));
            assert(connect_fuel::<I, (Option<I>, Option<I>), S, Zip<I, Void, Option<I>, Option<I>, Consume<I>, Consume<I>>>(e, src, z, 3) == Some((None::<I>, None::<I>)));
        },
        Action::Defer(k) => {
            lemma_two_consumes_at_end::<I, S>(S::spec_resume(k), g);
            let m = choose|m: nat| #[trigger] connect_fuel::<I, (Option<I>, Option<I>), S, Zip<I, Void, Option<I>, Option<I>, Consume<I>, Consume<I>>>(
                e, S::spec_resume(k), z, m) == Some((None::<I>, None::<I>));
            assert(connect_fuel::<I, (Option<I>, Option<I>), S, Zip<I, Void, Option<I>, Option<I>, Consume<I>, Consume<I>>>(e, src, z, m + 1) == Some((None::<I>, None::<I>)));
        },
        Action::Flush(k) => {
            lemma_two_consumes_at_end::<I, S>(S::spec_resume(k), g);
            let m = choose|m: nat| #[trigger] connect_fuel::<I, (Option<I>, Option<I>), S, Zip<I, Void, Option<I>, Option<I>, Consume<I>, Consume<I>>>(
                e, S::spec_resume(k), z, m) == Some((None::<I>, None::<I>));
            assert(connect_fuel::<I, (Option<I>, Option<I>), S, Zip<I, Void, Option<I>, Option<I>, Consume<I>, Consume<I>>>(e, src, z, m + 1) == Some((None::<I>, None::<I>)));
        },
        Action::Leftover(_, k) => {
            lemma_two_consumes_at_end::<I, S>(S::spec_resume(k), g);
            let m = choose|m: nat| #[trigger] connect_fuel::<I, (Option<I>, Option<I>), S, Zip<I, Void, Option<I>, Option<I>, Consume<I>, Consume<I>>>(
                e, S::spec_resume(k), z, m) == Some((None::<I>, None::<I>));
            assert(connect_fuel::<I, (Option<I>, Option<I>), S, Zip<I, Void, Option<I>, Option<I>, Consume<I>, Consume<I>>>(e, src, z, m + 1) == Some((None::<I>, None::<I>)));
        },
        Action::Await(k) => {
            let s2 = S::spec_feed(k, Chunk::Chunk(Seq::empty()));
            lemma_two_consumes_at_end::<I, S>(s2, g);
            let m = choose|m: nat| #[trigger] connect_fuel::<I, (Option<I>, Option<I>), S, Zip<I, Void, Option<I>, Option<I>, Consume<I>, Consume<I>>>(
                e, s2, z, m) == Some((None::<I>, None::<I>));
            assert(connect_fuel::<I, (Option<I>, Option<I>), S, Zip<I, Void, Option<I>, Option<I>, Consume<I>, Consume<I>>>(e, src, z, m + 1) == Some((None::<I>, None::<I>)));
        },
        Action::Yield(o, k) => {
            let s2 = S::spec_resume(k);
            let rest = src_values::<I, S>(s2, g).unwrap();
            assert((o + rest).len() == 0);
            assert(o.len() == 0);
            assert(rest =~= Seq::<I>::empty());
            lemma_two_consumes_at_end::<I, S>(s2, g);
            let m = choose|m: nat| #[trigger] connect_fuel::<I, (Option<I>, Option<I>), S, Zip<I, Void, Option<I>, Option<I>, Consume<I>, Consume<I>>>(
                e, s2, z, m) == Some((None::<I>, None::<I>));
            assert(connect_fuel::<I, (Option<I>, Option<I>), S, Zip<I, Void, Option<I>, Option<I>, Consume<I>, Consume<I>>>(e, src, z, m + 1) == Some((None::<I>, None::<I>)));
        },
    }
}

/// Once `consume` gives `None` (the source yields nothing more), a second
/// `consume` gives `None` too: a source that yields nothing, connected to
/// `consume().zip(consume())`, gives `(None, None)`.
pub proof fn law_consume_none_persists<I, S: Resume<Void, I, ()>>(src: Action<Void, I, S::Out, S::Model>)
    requires
        emits::<I, S>(src, Seq::empty()),
    ensures
        connect_halts::<I, (Option<I>, Option<I>), S, Zip<I, Void, Option<I>, Option<I>, Consume<I>, Consume<I>>>(src, two_consumes()),
        connect_result::<I, (Option<I>, Option<I>), S, Zip<I, Void, Option<I>, Option<I>, Consume<I>, Consume<I>>>(src, two_consumes())
            == (None::<I>, None::<I>),
{
    let n = choose|n: nat| #[trigger] src_values::<I, S>(src, n) == Some(Seq::<I>::empty());
    lemma_two_consumes_at_end::<I, S>(src, n);
    let m = choose|m: nat| #[trigger] connect_fuel::<I, (Option<I>, Option<I>), S, Zip<I, Void, Option<I>, Option<I>, Consume<I>, Consume<I>>>(
        Seq::empty(), src, two_consumes(), m) == Some((None::<I>, None::<I>));
    lemma_connect_result::<I, (Option<I>, Option<I>), S, Zip<I, Void, Option<I>, Option<I>, Consume<I>, Consume<I>>>(src, two_consumes(), m, (None, None));
}



proof fn lemma_first_consume_took<I, S: Resume<Void, I, ()>>(
    q: Seq<Seq<I>>,
    x: Action<Void, I, S::Out, S::Model>,
    v: Seq<I>,
    n: nat,
)
    requires
        v.len() > 0,
    ensures
        connect_fuel::<I, (Option<I>, Option<I>), S, Zip<I, Void, Option<I>, Option<I>, Consume<I>, Consume<I>>>(
            q,
            x,
            zip_step(consume_feed::<I, Void>(Chunk::Chunk(v)), Action::<I, Void, Option<I>, Consume<I>>::Await(Consume::Wait)),
            n,
        ) matches Some(r) ==> r.0 == Some(v[0]),
{
    let wait = Action::<I, Void, Option<I>, Consume<I>>::Await(Consume::Wait);
    let took = zip_step(consume_feed::<I, Void>(Chunk::Chunk(v)), wait);
    assert(took == Action::<I, Void, (Option<I>, Option<I>), ZipModel<Consume<I>, Action<I, Void, Option<I>, Consume<I>>, Option<I>, Consume<I>>>::Leftover(
        v.drop_first(),
        ZipModel::First(Consume::Give(v[0]), wait),
    ));
    if n >= 1 {
        assert(connect_fuel::<I, (Option<I>, Option<I>), S, Zip<I, Void, Option<I>, Option<I>, Consume<I>, Consume<I>>>(q, x, took, n)
            == connect_fuel::<I, (Option<I>, Option<I>), S, Zip<I, Void, Option<I>, Option<I>, Consume<I>, Consume<I>>>(
                q.push(v.drop_first()),
                x,
                zip_second::<I, Void, Option<I>, Option<I>, Consume<I>, Action<I, Void, Option<I>, Consume<I>>, Consume<I>>(Some(v[0]), wait),
                (n - 1) as nat,
            ));
    }
    if n >= 2 {
        lemma_zip_second_connect::<I, Option<I>, Option<I>, Consume<I>, Consume<I>, S>(
            q.push(v.drop_first()),
            x,
            Some(v[0]),
            wait,
            (n - 1) as nat,
        );
    }
}

proof fn lemma_consume_none_then_none<I, S: Resume<Void, I, ()>>(q: Seq<Seq<I>>, x: Action<Void, I, S::Out, S::Model>, n: nat)
    ensures
        connect_fuel::<I, (Option<I>, Option<I>), S, Zip<I, Void, Option<I>, Option<I>, Consume<I>, Consume<I>>>(q, x, two_consumes(), n) matches Some(r) ==> (r.0 is None
            ==> r.1 is None),
    decreases n,
{
    if n > 0 {
        let g = (n - 1) as nat;
        let wait = Action::<I, Void, Option<I>, Consume<I>>::Await(Consume::Wait);
        if q.len() > 0 {
            if q.last().len() > 0 {
                lemma_first_consume_took::<I, S>(q.drop_last(), x, q.last(), g);
            } else {
                lemma_consume_none_then_none::<I, S>(q.drop_last(), x, g);
            }
        } else {
            match x {
                Action::Pure(_) => {
                    let ended = zip_second::<I, Void, Option<I>, Option<I>, Consume<I>, Action<I, Void, Option<I>, Consume<I>>, Consume<I>>(None, wait);
                    assert(connect_fuel::<I, (Option<I>, Option<I>), S, Zip<I, Void, Option<I>, Option<I>, Consume<I>, Consume<I>>>(q, x, two_consumes(), n)
                        == connect_fuel::<I, (Option<I>, Option<I>), S, Zip<I, Void, Option<I>, Option<I>, Consume<I>, Consume<I>>>(q, x, ended, g));
                    lemma_zip_second_connect::<I, Option<I>, Option<I>, Consume<I>, Consume<I>, S>(q, x, None, wait, g);
                    if g > 0 {
                        let done = Action::<I, Void, Option<I>, Consume<I>>::Pure(None);
                        assert(connect_fuel::<I, Option<I>, S, Consume<I>>(q, x, wait, g)
                            == connect_fuel::<I, Option<I>, S, Consume<I>>(q, x, done, (g - 1) as nat));
                    }
                },
                Action::Defer(ks) => lemma_consume_none_then_none::<I, S>(q, S::spec_resume(ks), g),
                Action::Flush(ks) => lemma_consume_none_then_none::<I, S>(q, S::spec_resume(ks), g),
                Action::Leftover(_, ks) => lemma_consume_none_then_none::<I, S>(q, S::spec_resume(ks), g),
                Action::Await(ks) => lemma_consume_none_then_none::<I, S>(q, S::spec_feed(ks, Chunk::Chunk(Seq::empty())), g),
                Action::Yield(o, ks) => {
                    if o.len() > 0 {
                        lemma_first_consume_took::<I, S>(q, S::spec_resume(ks), o, g);
                    } else {
                        lemma_consume_none_then_none::<I, S>(q, S::spec_resume(ks), g);
                    }
                },
            }
        }
    }
}

/// Once `consume` gives `None`, a further `consume` gives `None` too: any
/// source connected to `consume().zip(consume())` gives a pair whose second
/// value is `None` whenever its first is.
pub proof fn law_consume_none_stays_none<I, S: Resume<Void, I, ()>>(src: Action<Void, I, S::Out, S::Model>)
    requires
        connect_halts::<I, (Option<I>, Option<I>), S, Zip<I, Void, Option<I>, Option<I>, Consume<I>, Consume<I>>>(src, two_consumes()),
    ensures
        connect_result::<I, (Option<I>, Option<I>), S, Zip<I, Void, Option<I>, Option<I>, Consume<I>, Consume<I>>>(src, two_consumes()).0 is None
            ==> connect_result::<I, (Option<I>, Option<I>), S, Zip<I, Void, Option<I>, Option<I>, Consume<I>, Consume<I>>>(src, two_consumes()).1 is None,
{
    let n = choose|n: nat| #[trigger] connect_fuel::<I, (Option<I>, Option<I>), S, Zip<I, Void, Option<I>, Option<I>, Consume<I>, Consume<I>>>(Seq::empty(), src, two_consumes(), n) is Some;
    lemma_consume_none_then_none::<I, S>(Seq::empty(), src, n);
}


// ------------------------------------------------------------ values

/// The model a sink awaiting in state `m` continues with after it is fed a
/// chunk holding the single value `x`, when it hands back what remains.
pub open spec fn taken<O, A, K: Resume<O, Void, A>>(m: K::Model, x: O) -> K::Model {
    match K::spec_feed(m, Chunk::Chunk(seq![x])) {
        Action::Leftover(_, m2) => m2,
        _ => m,
    }
}

/// When the sink awaits input in `a`, it takes its input one value at a
/// time: a flush or an empty chunk leaves it awaiting in the same state, and
/// of a chunk it takes the first value, hands the rest back, and continues as
/// after a chunk of that value alone.
pub open spec fn takes_one_value<O, A, K: Resume<O, Void, A>>(a: Action<O, Void, K::Out, K::Model>) -> bool {
    a matches Action::Await(m) ==> {
        &&& K::spec_feed(m, Chunk::Flush) == Action::<O, Void, K::Out, K::Model>::Await(m)
        &&& K::spec_feed(m, Chunk::Chunk(Seq::empty())) == Action::<O, Void, K::Out, K::Model>::Await(m)
        &&& forall|v: Seq<O>|
            v.len() > 0 ==> #[trigger] K::spec_feed(m, Chunk::Chunk(v)) == Action::<O, Void, K::Out, K::Model>::Leftover(
                v.drop_first(),
                taken::<O, A, K>(m, v[0]),
            )
    }
}

/// Every action that one step of the sink leads to from `a` satisfies `p`.
pub open spec fn steps_within<O, A, K: Resume<O, Void, A>>(
    p: spec_fn(Action<O, Void, K::Out, K::Model>) -> bool,
    a: Action<O, Void, K::Out, K::Model>,
) -> bool {
    match a {
        Action::Pure(_) => true,
        Action::Defer(m) => p(K::spec_resume(m)),
        Action::Flush(m) => p(K::spec_resume(m)),
        Action::Yield(_, m) => p(K::spec_resume(m)),
        Action::Leftover(_, m) => p(K::spec_resume(m)),
        Action::Await(m) => forall|c: Chunk<Seq<O>>| #[trigger] p(K::spec_feed(m, c)),
    }
}

/// The sink `s` takes its input one value at a time: `p` holds of `s`, is
/// kept by every step of the sink, and in each action of `p` the sink takes
/// one value at a time. `consume`, `fold`, the conduits that never await
/// (`produce`, `leftover`, `defer`, ...) are such sinks, and `and`, `zip` and
/// `map` keep the property (see the `law_*_takes_values` laws below); a sink
/// built on `consume_chunk` is not one.
pub open spec fn takes_values<O, A, K: Resume<O, Void, A>>(
    p: spec_fn(Action<O, Void, K::Out, K::Model>) -> bool,
    s: Action<O, Void, K::Out, K::Model>,
) -> bool {
    &&& p(s)
    &&& forall|a: Action<O, Void, K::Out, K::Model>| #[trigger] p(a) ==> takes_one_value::<O, A, K>(a) && steps_within::<O, A, K>(p, a)
}

/// The model of the result of the sink `s` fed the values `rest` one at a
/// time and then the end of the stream (values it hands back are fed to it
/// again first); `None` when `fuel` steps are not enough.
pub open spec fn run_values<O, A, K: Resume<O, Void, A>>(rest: Seq<O>, s: Action<O, Void, K::Out, K::Model>, fuel: nat) -> Option<K::Out>
    decreases fuel,
{
    if fuel == 0 {
        None
    } else {
        let f = (fuel - 1) as nat;
        match s {
            Action::Pure(a) => Some(a),
            Action::Defer(m) => run_values::<O, A, K>(rest, K::spec_resume(m), f),
            Action::Flush(m) => run_values::<O, A, K>(rest, K::spec_resume(m), f),
            Action::Yield(_, m) => run_values::<O, A, K>(rest, K::spec_resume(m), f),
            Action::Leftover(o, m) => run_values::<O, A, K>(o + rest, K::spec_resume(m), f),
            Action::Await(m) => if rest.len() > 0 {
                run_values::<O, A, K>(rest.drop_first(), K::spec_feed(m, Chunk::Chunk(seq![rest[0]])), f)
            } else {
                run_values::<O, A, K>(rest, K::spec_feed(m, Chunk::End), f)
            },
        }
    }
}

proof fn lemma_run_values_mono<O, A, K: Resume<O, Void, A>>(rest: Seq<O>, s: Action<O, Void, K::Out, K::Model>, n: nat, m: nat)
    requires
        n <= m,
        run_values::<O, A, K>(rest, s, n) is Some,
    ensures
        run_values::<O, A, K>(rest, s, m) == run_values::<O, A, K>(rest, s, n),
    decreases n,
{
    if n > 0 {
        let f = (n - 1) as nat;
        let g = (m - 1) as nat;
        match s {
            Action::Pure(_) => {},
            Action::Defer(k) => lemma_run_values_mono::<O, A, K>(rest, K::spec_resume(k), f, g),
            Action::Flush(k) => lemma_run_values_mono::<O, A, K>(rest, K::spec_resume(k), f, g),
            Action::Yield(_, k) => lemma_run_values_mono::<O, A, K>(rest, K::spec_resume(k), f, g),
            Action::Leftover(o, k) => lemma_run_values_mono::<O, A, K>(o + rest, K::spec_resume(k), f, g),
            Action::Await(k) => if rest.len() > 0 {
                lemma_run_values_mono::<O, A, K>(rest.drop_first(), K::spec_feed(k, Chunk::Chunk(seq![rest[0]])), f, g)
            } else {
                lemma_run_values_mono::<O, A, K>(rest, K::spec_feed(k, Chunk::End), f, g)
            },
        }
    }
}

/// Feeding an awaiting sink that takes one value at a time the non-empty
/// chunk `v`, on top of the values `rest`, runs as feeding it `v[0]` alone on
/// top of the rest of `v` and `rest`.
proof fn lemma_take_first<O, A, S: Resume<Void, O, ()>, K: Resume<O, Void, A>>(
    p: spec_fn(Action<O, Void, K::Out, K::Model>) -> bool,
    q: Seq<Seq<O>>,
    x: Action<Void, O, S::Out, S::Model>,
    nx: nat,
    l: Seq<O>,
    m: K::Model,
    v: Seq<O>,
    n: nat,
    r: K::Out,
)
    requires
        forall|a: Action<O, Void, K::Out, K::Model>| #[trigger] p(a) ==> takes_one_value::<O, A, K>(a) && steps_within::<O, A, K>(p, a),
        p(Action::Await(m)),
        v.len() > 0,
        src_values::<O, S>(x, nx) == Some(l),
        connect_fuel::<O, A, S, K>(q, x, K::spec_feed(m, Chunk::Chunk(v)), n) == Some(r),
    ensures
        run_values::<O, A, K>(v.drop_first() + stack_flat(q) + l, K::spec_resume(taken::<O, A, K>(m, v[0])), (n - 1) as nat) == Some(r),
        n > 0,
    decreases n, 0nat,
{
    let mid = taken::<O, A, K>(m, v[0]);
    assert(takes_one_value::<O, A, K>(Action::Await(m)));
    assert(K::spec_feed(m, Chunk::Chunk(v)) == Action::<O, Void, K::Out, K::Model>::Leftover(v.drop_first(), mid));
    assert(p(K::spec_feed(m, Chunk::Chunk(v))));
    assert(steps_within::<O, A, K>(p, K::spec_feed(m, Chunk::Chunk(v))));
    let q2 = q.push(v.drop_first());
    assert(q2.drop_last() =~= q);
    assert(stack_flat(q2) =~= v.drop_first() + stack_flat(q));
    lemma_connect_values::<O, A, S, K>(p, q2, x, nx, l, K::spec_resume(mid), (n - 1) as nat, r);
    assert(stack_flat(q2) + l =~= v.drop_first() + stack_flat(q) + l);
}

proof fn lemma_connect_values<O, A, S: Resume<Void, O, ()>, K: Resume<O, Void, A>>(
    p: spec_fn(Action<O, Void, K::Out, K::Model>) -> bool,
    q: Seq<Seq<O>>,
    x: Action<Void, O, S::Out, S::Model>,
    nx: nat,
    l: Seq<O>,
    s: Action<O, Void, K::Out, K::Model>,
    n: nat,
    r: K::Out,
)
    requires
        forall|a: Action<O, Void, K::Out, K::Model>| #[trigger] p(a) ==> takes_one_value::<O, A, K>(a) && steps_within::<O, A, K>(p, a),
        p(s),
        src_values::<O, S>(x, nx) == Some(l),
        connect_fuel::<O, A, S, K>(q, x, s, n) == Some(r),
    ensures
        run_values::<O, A, K>(stack_flat(q) + l, s, n) == Some(r),
    decreases n, 1nat,
{
    assert(n > 0);
    let g = (n - 1) as nat;
    let rest = stack_flat(q) + l;
    assert(takes_one_value::<O, A, K>(s) && steps_within::<O, A, K>(p, s));
    match s {
        Action::Pure(a) => {
            assert(connect_fuel::<O, A, S, K>(q, x, s, n) == Some(a));
            assert(run_values::<O, A, K>(rest, s, n) == Some(a));
        },
        Action::Defer(k) => lemma_connect_values::<O, A, S, K>(p, q, x, nx, l, K::spec_resume(k), g, r),
        Action::Flush(k) => lemma_connect_values::<O, A, S, K>(p, q, x, nx, l, K::spec_resume(k), g, r),
        Action::Yield(_, k) => lemma_connect_values::<O, A, S, K>(p, q, x, nx, l, K::spec_resume(k), g, r),
        Action::Leftover(o, k) => {
            lemma_connect_values::<O, A, S, K>(p, q.push(o), x, nx, l, K::spec_resume(k), g, r);
            assert(q.push(o).drop_last() =~= q);
            assert(stack_flat(q.push(o)) + l =~= o + rest);
        },
        Action::Await(k) => {
            if q.len() > 0 {
                let v = q.last();
                assert(rest =~= v + (stack_flat(q.drop_last()) + l));
                if v.len() > 0 {
                    assert(p(K::spec_feed(k, Chunk::Chunk(v))));
                    lemma_take_first::<O, A, S, K>(p, q.drop_last(), x, nx, l, k, v, g, r);
                    let single = K::spec_feed(k, Chunk::Chunk(seq![v[0]]));
                    assert(seq![v[0]].len() > 0);
                    assert(seq![v[0]].drop_first() =~= Seq::<O>::empty());
                    assert(single == Action::<O, Void, K::Out, K::Model>::Leftover(Seq::empty(), taken::<O, A, K>(k, v[0])));
                    assert(rest.len() > 0 && rest[0] == v[0]);
                    assert(seq![rest[0]] =~= seq![v[0]]);
                    assert(rest.drop_first() =~= v.drop_first() + stack_flat(q.drop_last()) + l);
                    assert(Seq::<O>::empty() + rest.drop_first() =~= rest.drop_first());
                    assert(run_values::<O, A, K>(rest, s, n) == run_values::<O, A, K>(rest.drop_first(), single, g));
                    assert(run_values::<O, A, K>(rest.drop_first(), single, g) == run_values::<O, A, K>(
                        Seq::<O>::empty() + rest.drop_first(),
                        K::spec_resume(taken::<O, A, K>(k, v[0])),
                        (g - 1) as nat,
                    ));
                } else {
                    assert(v =~= Seq::<O>::empty());
                    assert(p(K::spec_feed(k, Chunk::Chunk(v))));
                    lemma_connect_values::<O, A, S, K>(p, q.drop_last(), x, nx, l, s, g, r);
                    assert(stack_flat(q.drop_last()) + l =~= rest);
                    lemma_run_values_mono::<O, A, K>(rest, s, g, n);
                }
            } else {
                assert(stack_flat(q) =~= Seq::<O>::empty());
                assert(rest =~= l);
                let h = (nx - 1) as nat;
                match x {
                    Action::Pure(_) => {
                        assert(p(K::spec_feed(k, Chunk::End)));
                        lemma_connect_values::<O, A, S, K>(p, q, x, nx, l, K::spec_feed(k, Chunk::End), g, r);
                    },
                    Action::Defer(ks) => {
                        lemma_connect_values::<O, A, S, K>(p, q, S::spec_resume(ks), h, l, s, g, r);
                        lemma_run_values_mono::<O, A, K>(rest, s, g, n);
                    },
                    Action::Leftover(_, ks) => {
                        lemma_connect_values::<O, A, S, K>(p, q, S::spec_resume(ks), h, l, s, g, r);
                        lemma_run_values_mono::<O, A, K>(rest, s, g, n);
                    },
                    Action::Await(ks) => {
                        lemma_connect_values::<O, A, S, K>(p, q, S::spec_feed(ks, Chunk::Chunk(Seq::empty())), h, l, s, g, r);
                        lemma_run_values_mono::<O, A, K>(rest, s, g, n);
                    },
                    Action::Flush(ks) => {
                        lemma_connect_values::<O, A, S, K>(p, q, S::spec_resume(ks), h, l, s, g, r);
                        lemma_run_values_mono::<O, A, K>(rest, s, g, n);
                    },
                    Action::Yield(o, ks) => {
                        let l2 = src_values::<O, S>(S::spec_resume(ks), h).unwrap();
                        assert(l == o + l2);
                        if o.len() > 0 {
                            assert(p(K::spec_feed(k, Chunk::Chunk(o))));
                            lemma_take_first::<O, A, S, K>(p, q, S::spec_resume(ks), h, l2, k, o, g, r);
                            let single = K::spec_feed(k, Chunk::Chunk(seq![o[0]]));
                            assert(seq![o[0]].len() > 0);
                            assert(seq![o[0]].drop_first() =~= Seq::<O>::empty());
                            assert(single == Action::<O, Void, K::Out, K::Model>::Leftover(Seq::empty(), taken::<O, A, K>(k, o[0])));
                            assert(rest.len() > 0 && rest[0] == o[0]);
                            assert(seq![rest[0]] =~= seq![o[0]]);
                            assert(rest.drop_first() =~= o.drop_first() + stack_flat(q) + l2);
                            assert(Seq::<O>::empty() + rest.drop_first() =~= rest.drop_first());
                            assert(run_values::<O, A, K>(rest, s, n) == run_values::<O, A, K>(rest.drop_first(), single, g));
                            assert(run_values::<O, A, K>(rest.drop_first(), single, g) == run_values::<O, A, K>(
                                Seq::<O>::empty() + rest.drop_first(),
                                K::spec_resume(taken::<O, A, K>(k, o[0])),
                                (g - 1) as nat,
                            ));
                        } else {
                            assert(o =~= Seq::<O>::empty());
                            assert(p(K::spec_feed(k, Chunk::Chunk(o))));
                            assert(l2 =~= l);
                            lemma_connect_values::<O, A, S, K>(p, q, S::spec_resume(ks), h, l2, s, g, r);
                            lemma_run_values_mono::<O, A, K>(rest, s, g, n);
                        }
                    },
                }
            }
        },
    }
}

/// The actions `consume()` goes through: awaiting, handing back the rest of
/// a chunk it took a value from, and finished.
pub open spec fn consume_states<I>() -> spec_fn(Action<I, Void, Option<I>, Consume<I>>) -> bool {
    |a: Action<I, Void, Option<I>, Consume<I>>|
        match a {
            Action::Pure(_) => true,
            Action::Await(m) => m == Consume::<I>::Wait,
            Action::Leftover(_, m) => m is Give,
            _ => false,
        }
}

/// `consume()` takes its input one value at a time.
pub proof fn law_consume_takes_values<I>()
    ensures
        takes_values::<I, Option<I>, Consume<I>>(consume_states::<I>(), Action::Await(Consume::Wait)),
{
    let p = consume_states::<I>();
    assert forall|a: Action<I, Void, Option<I>, Consume<I>>| #[trigger] p(a) implies takes_one_value::<I, Option<I>, Consume<I>>(a)
        && steps_within::<I, Option<I>, Consume<I>>(p, a) by {
        if a is Await {
            assert forall|v: Seq<I>| v.len() > 0 implies #[trigger] <Consume<I> as Resume<I, Void, Option<I>>>::spec_feed(Consume::Wait, Chunk::Chunk(v))
                == Action::<I, Void, Option<I>, Consume<I>>::Leftover(v.drop_first(), taken::<I, Option<I>, Consume<I>>(Consume::Wait, v[0])) by {
                assert(seq![v[0]][0] == v[0]);
            }
            assert(<Consume<I> as Resume<I, Void, Option<I>>>::spec_feed(Consume::Wait, Chunk::Chunk(Seq::empty())) == Action::<I, Void, Option<I>, Consume<I>>::Await(Consume::Wait));
        }
    }
}

/// The continuation model of `a`, unless it has finished.
pub open spec fn cont_of<I, O, R, M>(a: Action<I, O, R, M>) -> Option<M> {
    match a {
        Action::Pure(_) => None,
        Action::Defer(m) => Some(m),
        Action::Flush(m) => Some(m),
        Action::Await(m) => Some(m),
        Action::Yield(_, m) => Some(m),
        Action::Leftover(_, m) => Some(m),
    }
}

/// `a` with its continuation model replaced by `n` (a finished action, which
/// has none, gives `Defer(n)`).
pub open spec fn with_cont<I, O, R, M, R2, N>(a: Action<I, O, R, M>, n: N) -> Action<I, O, R2, N> {
    match a {
        Action::Pure(_) => Action::Defer(n),
        Action::Defer(_) => Action::Defer(n),
        Action::Flush(_) => Action::Flush(n),
        Action::Await(_) => Action::Await(n),
        Action::Yield(o, _) => Action::Yield(o, n),
        Action::Leftover(i, _) => Action::Leftover(i, n),
    }
}

/// The actions of `c.and(d)` while `c` runs in actions of `p1` and then `d`
/// in actions of `p2`.
pub open spec fn then_states<O, A, B, K1: Resume<O, Void, A>, K2: Resume<O, Void, B>>(
    p1: spec_fn(Action<O, Void, K1::Out, K1::Model>) -> bool,
    p2: spec_fn(Action<O, Void, K2::Out, K2::Model>) -> bool,
    d: Action<O, Void, K2::Out, K2::Model>,
) -> spec_fn(Action<O, Void, K2::Out, ThenModel<K1::Model, Action<O, Void, K2::Out, K2::Model>, K2::Model>>) -> bool {
    |a: Action<O, Void, K2::Out, ThenModel<K1::Model, Action<O, Void, K2::Out, K2::Model>, K2::Model>>|
        match cont_of(a) {
            None => true,
            Some(ThenModel::First(m1, d2)) => d2 == d && p1(with_cont(a, m1)),
            Some(ThenModel::Second(m2)) => p2(with_cont(a, m2)),
        }
}

/// `c.and(d)` takes its input one value at a time when `c` and `d` do.
pub proof fn law_then_takes_values<O, A, B, K1: Resume<O, Void, A>, K2: Resume<O, Void, B>>(
    p1: spec_fn(Action<O, Void, K1::Out, K1::Model>) -> bool,
    c: Action<O, Void, K1::Out, K1::Model>,
    p2: spec_fn(Action<O, Void, K2::Out, K2::Model>) -> bool,
    d: Action<O, Void, K2::Out, K2::Model>,
)
    requires
        takes_values::<O, A, K1>(p1, c),
        takes_values::<O, B, K2>(p2, d),
    ensures
        takes_values::<O, B, Then<O, Void, A, B, K1, K2>>(then_states::<O, A, B, K1, K2>(p1, p2, d), then_step(c, d)),
{
    let p = then_states::<O, A, B, K1, K2>(p1, p2, d);
    assert forall|a2: Action<O, Void, K2::Out, K2::Model>| #[trigger] p2(a2) implies p(
        then_second::<O, Void, K2::Out, K1::Model, Action<O, Void, K2::Out, K2::Model>, K2::Model>(a2),
    ) by {
        if !(a2 is Pure) {
            let w: Action<O, Void, K2::Out, K2::Model> = with_cont(
                then_second::<O, Void, K2::Out, K1::Model, Action<O, Void, K2::Out, K2::Model>, K2::Model>(a2),
                cont_of(a2).unwrap(),
            );
            assert(w == a2);
        }
    }
    assert forall|a1: Action<O, Void, K1::Out, K1::Model>| #[trigger] p1(a1) implies p(then_step(a1, d)) by {
        if a1 is Pure {
            assert(p2(d));
        } else {
            let w: Action<O, Void, K1::Out, K1::Model> = with_cont(then_step(a1, d), cont_of(a1).unwrap());
            assert(w == a1);
        }
    }
    assert forall|a: Action<O, Void, K2::Out, ThenModel<K1::Model, Action<O, Void, K2::Out, K2::Model>, K2::Model>>| #[trigger] p(a)
        implies takes_one_value::<O, B, Then<O, Void, A, B, K1, K2>>(a) && steps_within::<O, B, Then<O, Void, A, B, K1, K2>>(p, a) by {
        match cont_of(a) {
            None => {},
            Some(ThenModel::First(m1, d2)) => {
                let a1: Action<O, Void, K1::Out, K1::Model> = with_cont(a, m1);
                assert(p1(a1));
                assert(takes_one_value::<O, A, K1>(a1) && steps_within::<O, A, K1>(p1, a1));
                if a is Await {
                    assert(p1(K1::spec_feed(m1, Chunk::Chunk(Seq::empty()))));
                    assert forall|v: Seq<O>| v.len() > 0 implies #[trigger] <Then<O, Void, A, B, K1, K2> as Resume<O, Void, B>>::spec_feed(
                        ThenModel::First(m1, d2),
                        Chunk::Chunk(v),
                    ) == Action::<O, Void, K2::Out, ThenModel<K1::Model, Action<O, Void, K2::Out, K2::Model>, K2::Model>>::Leftover(
                        v.drop_first(),
                        taken::<O, B, Then<O, Void, A, B, K1, K2>>(ThenModel::First(m1, d2), v[0]),
                    ) by {
                        assert(K1::spec_feed(m1, Chunk::Chunk(v)) == Action::<O, Void, K1::Out, K1::Model>::Leftover(v.drop_first(), taken::<O, A, K1>(m1, v[0])));
                        assert(seq![v[0]].len() > 0 && seq![v[0]][0] == v[0]);
                        assert(K1::spec_feed(m1, Chunk::Chunk(seq![v[0]])) == Action::<O, Void, K1::Out, K1::Model>::Leftover(
                            seq![v[0]].drop_first(),
                            taken::<O, A, K1>(m1, v[0]),
                        ));
                    }
                    assert forall|ch: Chunk<Seq<O>>| #[trigger] p(<Then<O, Void, A, B, K1, K2> as Resume<O, Void, B>>::spec_feed(ThenModel::First(m1, d2), ch)) by {
                        assert(p1(K1::spec_feed(m1, ch)));
                    }
                } else {
                    assert(p1(K1::spec_resume(m1)));
                }
            },
            Some(ThenModel::Second(m2)) => {
                let a2: Action<O, Void, K2::Out, K2::Model> = with_cont(a, m2);
                assert(p2(a2));
                assert(takes_one_value::<O, B, K2>(a2) && steps_within::<O, B, K2>(p2, a2));
                if a is Await {
                    assert(p2(K2::spec_feed(m2, Chunk::Chunk(Seq::empty()))));
                    assert forall|v: Seq<O>| v.len() > 0 implies #[trigger] <Then<O, Void, A, B, K1, K2> as Resume<O, Void, B>>::spec_feed(
                        ThenModel::Second(m2),
                        Chunk::Chunk(v),
                    ) == Action::<O, Void, K2::Out, ThenModel<K1::Model, Action<O, Void, K2::Out, K2::Model>, K2::Model>>::Leftover(
                        v.drop_first(),
                        taken::<O, B, Then<O, Void, A, B, K1, K2>>(ThenModel::Second(m2), v[0]),
                    ) by {
                        assert(K2::spec_feed(m2, Chunk::Chunk(v)) == Action::<O, Void, K2::Out, K2::Model>::Leftover(v.drop_first(), taken::<O, B, K2>(m2, v[0])));
                        assert(seq![v[0]].len() > 0 && seq![v[0]][0] == v[0]);
                        assert(K2::spec_feed(m2, Chunk::Chunk(seq![v[0]])) == Action::<O, Void, K2::Out, K2::Model>::Leftover(
                            seq![v[0]].drop_first(),
                            taken::<O, B, K2>(m2, v[0]),
                        ));
                    }
                    assert forall|ch: Chunk<Seq<O>>| #[trigger] p(<Then<O, Void, A, B, K1, K2> as Resume<O, Void, B>>::spec_feed(ThenModel::Second(m2), ch)) by {
                        assert(p2(K2::spec_feed(m2, ch)));
                    }
                } else {
                    assert(p2(K2::spec_resume(m2)));
                }
            },
        }
    }
}

/// The conduit that the pure arrow `f` builds from a result whose model is
/// `e` starts in an action of `p2`.
pub open spec fn arrow_in<O, A, B, K1: Resume<O, Void, A>, K2: Resume<O, Void, B>, F>(
    p2: spec_fn(Action<O, Void, K2::Out, K2::Model>) -> bool,
    f: F,
    e: K1::Out,
) -> bool where F: FnOnce(A) -> ConduitM<O, Void, B, K2> {
    p2(arrow_apply(f, |a: A| K1::out(a), e))
}

/// The actions of `c.and_then(f)` while `c` runs in actions of `p1` and then
/// the conduit `f` builds in actions of `p2`.
pub open spec fn bind_states<O, A, B, K1: Resume<O, Void, A>, K2: Resume<O, Void, B>, F>(
    p1: spec_fn(Action<O, Void, K1::Out, K1::Model>) -> bool,
    p2: spec_fn(Action<O, Void, K2::Out, K2::Model>) -> bool,
    f: F,
) -> spec_fn(Action<O, Void, K2::Out, AndThenModel<K1::Model, F, K2::Model>>) -> bool {
    |a: Action<O, Void, K2::Out, AndThenModel<K1::Model, F, K2::Model>>|
        match cont_of(a) {
            None => true,
            Some(AndThenModel::First(m1, g)) => g == f && p1(with_cont(a, m1)),
            Some(AndThenModel::Second(m2)) => p2(with_cont(a, m2)),
        }
}

/// `c.and_then(f)` takes its input one value at a time when `c` does and
/// every conduit the pure arrow `f` builds does (in actions of `p2`).
pub proof fn law_and_then_takes_values<O, A, B, K1: Resume<O, Void, A>, K2: Resume<O, Void, B>, F>(
    p1: spec_fn(Action<O, Void, K1::Out, K1::Model>) -> bool,
    c: Action<O, Void, K1::Out, K1::Model>,
    p2: spec_fn(Action<O, Void, K2::Out, K2::Model>) -> bool,
    f: F,
)
    where
        F: FnOnce(A) -> ConduitM<O, Void, B, K2>,
    requires
        takes_values::<O, A, K1>(p1, c),
        forall|a: Action<O, Void, K2::Out, K2::Model>| #[trigger] p2(a) ==> takes_one_value::<O, B, K2>(a) && steps_within::<O, B, K2>(p2, a),
        forall|e: K1::Out| #[trigger] arrow_in::<O, A, B, K1, K2, F>(p2, f, e),
    ensures
        takes_values::<O, B, AndThen<A, K1, F, K2>>(bind_states::<O, A, B, K1, K2, F>(p1, p2, f), bind_step::<O, Void, A, B, K1, K2, F>(c, f)),
{
    let p = bind_states::<O, A, B, K1, K2, F>(p1, p2, f);
    assert forall|a2: Action<O, Void, K2::Out, K2::Model>| #[trigger] p2(a2) implies p(
        second::<O, Void, K2::Out, K1::Model, F, K2::Model>(a2),
    ) by {
        if !(a2 is Pure) {
            let w: Action<O, Void, K2::Out, K2::Model> = with_cont(
                second::<O, Void, K2::Out, K1::Model, F, K2::Model>(a2),
                cont_of(a2).unwrap(),
            );
            assert(w == a2);
        }
    }
    assert forall|a1: Action<O, Void, K1::Out, K1::Model>| #[trigger] p1(a1) implies p(bind_step::<O, Void, A, B, K1, K2, F>(a1, f)) by {
        if a1 is Pure {
            assert(arrow_in::<O, A, B, K1, K2, F>(p2, f, a1->Pure_0));
        } else {
            let w: Action<O, Void, K1::Out, K1::Model> = with_cont(bind_step::<O, Void, A, B, K1, K2, F>(a1, f), cont_of(a1).unwrap());
            assert(w == a1);
        }
    }
    assert forall|a: Action<O, Void, K2::Out, AndThenModel<K1::Model, F, K2::Model>>| #[trigger] p(a)
        implies takes_one_value::<O, B, AndThen<A, K1, F, K2>>(a) && steps_within::<O, B, AndThen<A, K1, F, K2>>(p, a) by {
        match cont_of(a) {
            None => {},
            Some(AndThenModel::First(m1, g)) => {
                let a1: Action<O, Void, K1::Out, K1::Model> = with_cont(a, m1);
                assert(p1(a1));
                assert(takes_one_value::<O, A, K1>(a1) && steps_within::<O, A, K1>(p1, a1));
                if a is Await {
                    assert(p1(K1::spec_feed(m1, Chunk::Chunk(Seq::empty()))));
                    assert forall|v: Seq<O>| v.len() > 0 implies #[trigger] <AndThen<A, K1, F, K2> as Resume<O, Void, B>>::spec_feed(
                        AndThenModel::First(m1, g),
                        Chunk::Chunk(v),
                    ) == Action::<O, Void, K2::Out, AndThenModel<K1::Model, F, K2::Model>>::Leftover(
                        v.drop_first(),
                        taken::<O, B, AndThen<A, K1, F, K2>>(AndThenModel::First(m1, g), v[0]),
                    ) by {
                        assert(K1::spec_feed(m1, Chunk::Chunk(v)) == Action::<O, Void, K1::Out, K1::Model>::Leftover(v.drop_first(), taken::<O, A, K1>(m1, v[0])));
                        assert(seq![v[0]].len() > 0 && seq![v[0]][0] == v[0]);
                        assert(K1::spec_feed(m1, Chunk::Chunk(seq![v[0]])) == Action::<O, Void, K1::Out, K1::Model>::Leftover(
                            seq![v[0]].drop_first(),
                            taken::<O, A, K1>(m1, v[0]),
                        ));
                    }
                    assert forall|ch: Chunk<Seq<O>>| #[trigger] p(<AndThen<A, K1, F, K2> as Resume<O, Void, B>>::spec_feed(AndThenModel::First(m1, g), ch)) by {
                        assert(p1(K1::spec_feed(m1, ch)));
                    }
                } else {
                    assert(p1(K1::spec_resume(m1)));
                }
            },
            Some(AndThenModel::Second(m2)) => {
                let a2: Action<O, Void, K2::Out, K2::Model> = with_cont(a, m2);
                assert(p2(a2));
                assert(takes_one_value::<O, B, K2>(a2) && steps_within::<O, B, K2>(p2, a2));
                if a is Await {
                    assert(p2(K2::spec_feed(m2, Chunk::Chunk(Seq::empty()))));
                    assert forall|v: Seq<O>| v.len() > 0 implies #[trigger] <AndThen<A, K1, F, K2> as Resume<O, Void, B>>::spec_feed(
                        AndThenModel::Second(m2),
                        Chunk::Chunk(v),
                    ) == Action::<O, Void, K2::Out, AndThenModel<K1::Model, F, K2::Model>>::Leftover(
                        v.drop_first(),
                        taken::<O, B, AndThen<A, K1, F, K2>>(AndThenModel::Second(m2), v[0]),
                    ) by {
                        assert(K2::spec_feed(m2, Chunk::Chunk(v)) == Action::<O, Void, K2::Out, K2::Model>::Leftover(v.drop_first(), taken::<O, B, K2>(m2, v[0])));
                        assert(seq![v[0]].len() > 0 && seq![v[0]][0] == v[0]);
                        assert(K2::spec_feed(m2, Chunk::Chunk(seq![v[0]])) == Action::<O, Void, K2::Out, K2::Model>::Leftover(
                            seq![v[0]].drop_first(),
                            taken::<O, B, K2>(m2, v[0]),
                        ));
                    }
                    assert forall|ch: Chunk<Seq<O>>| #[trigger] p(<AndThen<A, K1, F, K2> as Resume<O, Void, B>>::spec_feed(AndThenModel::Second(m2), ch)) by {
                        assert(p2(K2::spec_feed(m2, ch)));
                    }
                } else {
                    assert(p2(K2::spec_resume(m2)));
                }
            },
        }
    }
}

/// The actions of `c.zip(d)` while `c` runs in actions of `p1` and then `d`
/// in actions of `p2`.
pub open spec fn zip_states<O, A, B, K1: Resume<O, Void, A>, K2: Resume<O, Void, B>>(
    p1: spec_fn(Action<O, Void, K1::Out, K1::Model>) -> bool,
    p2: spec_fn(Action<O, Void, K2::Out, K2::Model>) -> bool,
    d: Action<O, Void, K2::Out, K2::Model>,
) -> spec_fn(Action<O, Void, (K1::Out, K2::Out), ZipModel<K1::Model, Action<O, Void, K2::Out, K2::Model>, K1::Out, K2::Model>>) -> bool {
    |a: Action<O, Void, (K1::Out, K2::Out), ZipModel<K1::Model, Action<O, Void, K2::Out, K2::Model>, K1::Out, K2::Model>>|
        match cont_of(a) {
            None => true,
            Some(ZipModel::First(m1, d2)) => d2 == d && p1(with_cont(a, m1)),
            Some(ZipModel::Second(_, m2)) => p2(with_cont(a, m2)),
        }
}

/// `c.zip(d)` takes its input one value at a time when `c` and `d` do.
pub proof fn law_zip_takes_values<O, A, B, K1: Resume<O, Void, A>, K2: Resume<O, Void, B>>(
    p1: spec_fn(Action<O, Void, K1::Out, K1::Model>) -> bool,
    c: Action<O, Void, K1::Out, K1::Model>,
    p2: spec_fn(Action<O, Void, K2::Out, K2::Model>) -> bool,
    d: Action<O, Void, K2::Out, K2::Model>,
)
    requires
        takes_values::<O, A, K1>(p1, c),
        takes_values::<O, B, K2>(p2, d),
    ensures
        takes_values::<O, (A, B), Zip<O, Void, A, B, K1, K2>>(zip_states::<O, A, B, K1, K2>(p1, p2, d), zip_step(c, d)),
{
    let p = zip_states::<O, A, B, K1, K2>(p1, p2, d);
    assert forall|e: K1::Out, a2: Action<O, Void, K2::Out, K2::Model>| p2(a2) implies #[trigger] p(
        zip_second::<O, Void, K1::Out, K2::Out, K1::Model, Action<O, Void, K2::Out, K2::Model>, K2::Model>(e, a2),
    ) by {
        if !(a2 is Pure) {
            let w: Action<O, Void, K2::Out, K2::Model> = with_cont(
                zip_second::<O, Void, K1::Out, K2::Out, K1::Model, Action<O, Void, K2::Out, K2::Model>, K2::Model>(e, a2),
                cont_of(a2).unwrap(),
            );
            assert(w == a2);
        }
    }
    assert forall|a1: Action<O, Void, K1::Out, K1::Model>| #[trigger] p1(a1) implies p(zip_step(a1, d)) by {
        if a1 is Pure {
            assert(p2(d));
        } else {
            let w: Action<O, Void, K1::Out, K1::Model> = with_cont(zip_step(a1, d), cont_of(a1).unwrap());
            assert(w == a1);
        }
    }
    assert forall|a: Action<O, Void, (K1::Out, K2::Out), ZipModel<K1::Model, Action<O, Void, K2::Out, K2::Model>, K1::Out, K2::Model>>| #[trigger] p(a)
        implies takes_one_value::<O, (A, B), Zip<O, Void, A, B, K1, K2>>(a) && steps_within::<O, (A, B), Zip<O, Void, A, B, K1, K2>>(p, a) by {
        match cont_of(a) {
            None => {},
            Some(ZipModel::First(m1, d2)) => {
                let a1: Action<O, Void, K1::Out, K1::Model> = with_cont(a, m1);
                assert(p1(a1));
                assert(takes_one_value::<O, A, K1>(a1) && steps_within::<O, A, K1>(p1, a1));
                if a is Await {
                    assert(p1(K1::spec_feed(m1, Chunk::Chunk(Seq::empty()))));
                    assert forall|v: Seq<O>| v.len() > 0 implies #[trigger] <Zip<O, Void, A, B, K1, K2> as Resume<O, Void, (A, B)>>::spec_feed(
                        ZipModel::First(m1, d2),
                        Chunk::Chunk(v),
                    ) == Action::<O, Void, (K1::Out, K2::Out), ZipModel<K1::Model, Action<O, Void, K2::Out, K2::Model>, K1::Out, K2::Model>>::Leftover(
                        v.drop_first(),
                        taken::<O, (A, B), Zip<O, Void, A, B, K1, K2>>(ZipModel::First(m1, d2), v[0]),
                    ) by {
                        assert(K1::spec_feed(m1, Chunk::Chunk(v)) == Action::<O, Void, K1::Out, K1::Model>::Leftover(v.drop_first(), taken::<O, A, K1>(m1, v[0])));
                        assert(seq![v[0]].len() > 0 && seq![v[0]][0] == v[0]);
                        assert(K1::spec_feed(m1, Chunk::Chunk(seq![v[0]])) == Action::<O, Void, K1::Out, K1::Model>::Leftover(
                            seq![v[0]].drop_first(),
                            taken::<O, A, K1>(m1, v[0]),
                        ));
                    }
                    assert forall|ch: Chunk<Seq<O>>| #[trigger] p(<Zip<O, Void, A, B, K1, K2> as Resume<O, Void, (A, B)>>::spec_feed(ZipModel::First(m1, d2), ch)) by {
                        assert(p1(K1::spec_feed(m1, ch)));
                    }
                } else {
                    assert(p1(K1::spec_resume(m1)));
                }
            },
            Some(ZipModel::Second(e, m2)) => {
                let a2: Action<O, Void, K2::Out, K2::Model> = with_cont(a, m2);
                assert(p2(a2));
                assert(takes_one_value::<O, B, K2>(a2) && steps_within::<O, B, K2>(p2, a2));
                if a is Await {
                    assert(p2(K2::spec_feed(m2, Chunk::Chunk(Seq::empty()))));
                    assert forall|v: Seq<O>| v.len() > 0 implies #[trigger] <Zip<O, Void, A, B, K1, K2> as Resume<O, Void, (A, B)>>::spec_feed(
                        ZipModel::Second(e, m2),
                        Chunk::Chunk(v),
                    ) == Action::<O, Void, (K1::Out, K2::Out), ZipModel<K1::Model, Action<O, Void, K2::Out, K2::Model>, K1::Out, K2::Model>>::Leftover(
                        v.drop_first(),
                        taken::<O, (A, B), Zip<O, Void, A, B, K1, K2>>(ZipModel::Second(e, m2), v[0]),
                    ) by {
                        assert(K2::spec_feed(m2, Chunk::Chunk(v)) == Action::<O, Void, K2::Out, K2::Model>::Leftover(v.drop_first(), taken::<O, B, K2>(m2, v[0])));
                        assert(seq![v[0]].len() > 0 && seq![v[0]][0] == v[0]);
                        assert(K2::spec_feed(m2, Chunk::Chunk(seq![v[0]])) == Action::<O, Void, K2::Out, K2::Model>::Leftover(
                            seq![v[0]].drop_first(),
                            taken::<O, B, K2>(m2, v[0]),
                        ));
                    }
                    assert forall|ch: Chunk<Seq<O>>| #[trigger] p(<Zip<O, Void, A, B, K1, K2> as Resume<O, Void, (A, B)>>::spec_feed(ZipModel::Second(e, m2), ch)) by {
                        assert(p2(K2::spec_feed(m2, ch)));
                    }
                } else {
                    assert(p2(K2::spec_resume(m2)));
                }
            },
        }
    }
}

/// The actions of `c.map(f)` while `c` runs in actions of `p1`.
pub open spec fn map_states<O, A, B, K: Resume<O, Void, A>, F: FnOnce(A) -> B>(
    p1: spec_fn(Action<O, Void, K::Out, K::Model>) -> bool,
    f: F,
) -> spec_fn(Action<O, Void, B, (K::Model, F)>) -> bool {
    |a: Action<O, Void, B, (K::Model, F)>|
        match cont_of(a) {
            None => true,
            Some((m, g)) => g == f && p1(with_cont(a, m)),
        }
}

/// `c.map(f)` takes its input one value at a time when `c` does.
pub proof fn law_map_takes_values<O, A, B, K: Resume<O, Void, A>, F: FnOnce(A) -> B>(
    p1: spec_fn(Action<O, Void, K::Out, K::Model>) -> bool,
    c: Action<O, Void, K::Out, K::Model>,
    f: F,
)
    requires
        takes_values::<O, A, K>(p1, c),
    ensures
        takes_values::<O, B, MapResult<A, K, F>>(map_states::<O, A, B, K, F>(p1, f), map_step::<O, Void, A, B, K, F>(c, f)),
{
    let p = map_states::<O, A, B, K, F>(p1, f);
    assert forall|a1: Action<O, Void, K::Out, K::Model>| #[trigger] p1(a1) implies p(map_step::<O, Void, A, B, K, F>(a1, f)) by {
        if !(a1 is Pure) {
            let w: Action<O, Void, K::Out, K::Model> = with_cont(map_step::<O, Void, A, B, K, F>(a1, f), cont_of(a1).unwrap());
            assert(w == a1);
        }
    }
    assert forall|a: Action<O, Void, B, (K::Model, F)>| #[trigger] p(a)
        implies takes_one_value::<O, B, MapResult<A, K, F>>(a) && steps_within::<O, B, MapResult<A, K, F>>(p, a) by {
        match cont_of(a) {
            None => {},
            Some((m1, g)) => {
                let a1: Action<O, Void, K::Out, K::Model> = with_cont(a, m1);
                assert(p1(a1));
                assert(takes_one_value::<O, A, K>(a1) && steps_within::<O, A, K>(p1, a1));
                if a is Await {
                    assert(p1(K::spec_feed(m1, Chunk::Chunk(Seq::empty()))));
                    assert forall|v: Seq<O>| v.len() > 0 implies #[trigger] <MapResult<A, K, F> as Resume<O, Void, B>>::spec_feed(
                        (m1, g),
                        Chunk::Chunk(v),
                    ) == Action::<O, Void, B, (K::Model, F)>::Leftover(
                        v.drop_first(),
                        taken::<O, B, MapResult<A, K, F>>((m1, g), v[0]),
                    ) by {
                        assert(K::spec_feed(m1, Chunk::Chunk(v)) == Action::<O, Void, K::Out, K::Model>::Leftover(v.drop_first(), taken::<O, A, K>(m1, v[0])));
                        assert(seq![v[0]].len() > 0 && seq![v[0]][0] == v[0]);
                        assert(K::spec_feed(m1, Chunk::Chunk(seq![v[0]])) == Action::<O, Void, K::Out, K::Model>::Leftover(
                            seq![v[0]].drop_first(),
                            taken::<O, A, K>(m1, v[0]),
                        ));
                    }
                    assert forall|ch: Chunk<Seq<O>>| #[trigger] p(<MapResult<A, K, F> as Resume<O, Void, B>>::spec_feed((m1, g), ch)) by {
                        assert(p1(K::spec_feed(m1, ch)));
                    }
                } else {
                    assert(p1(K::spec_resume(m1)));
                }
            },
        }
    }
}

/// The actions of a sink built by `fold` (or any sink with a `SinkK`
/// continuation): awaiting, handing back the rest of a chunk it took a value
/// from, and finished.
pub open spec fn sink_states<A, I, S: Combine<A, I>>() -> spec_fn(Action<I, Void, A, SinkK<A, I, S>>) -> bool {
    |a: Action<I, Void, A, SinkK<A, I, S>>|
        match a {
            Action::Pure(_) => true,
            Action::Await(m) => m is Wait,
            Action::Leftover(_, m) => m is Got,
            _ => false,
        }
}

/// A sink built by `fold` (or any sink with a `SinkK` continuation) takes its
/// input one value at a time.
pub proof fn law_sink_takes_values<A, I, S: Combine<A, I>>(a0: A, s0: S)
    ensures
        takes_values::<I, A, SinkK<A, I, S>>(sink_states::<A, I, S>(), Action::Await(SinkK::Wait(a0, s0))),
{
    let p = sink_states::<A, I, S>();
    assert forall|a: Action<I, Void, A, SinkK<A, I, S>>| #[trigger] p(a) implies takes_one_value::<I, A, SinkK<A, I, S>>(a)
        && steps_within::<I, A, SinkK<A, I, S>>(p, a) by {
        match a {
            Action::Await(SinkK::Wait(x, s)) => {
                assert forall|v: Seq<I>| v.len() > 0 implies #[trigger] <SinkK<A, I, S> as Resume<I, Void, A>>::spec_feed(SinkK::Wait(x, s), Chunk::Chunk(v))
                    == Action::<I, Void, A, SinkK<A, I, S>>::Leftover(v.drop_first(), taken::<I, A, SinkK<A, I, S>>(SinkK::Wait(x, s), v[0])) by {
                    assert(seq![v[0]][0] == v[0]);
                }
                assert(<SinkK<A, I, S> as Resume<I, Void, A>>::spec_feed(SinkK::Wait(x, s), Chunk::Chunk(Seq::empty()))
                    == Action::<I, Void, A, SinkK<A, I, S>>::Await(SinkK::Wait(x, s)));
            },
            _ => {},
        }
    }
}

/// The actions a conduit that never awaits input goes through after it was
/// built by `produce`, `produce_chunk`, `leftover`, `leftover_chunk` or
/// `defer` (a `Ret` continuation): any action but awaiting.
pub open spec fn ret_states<O, R>() -> spec_fn(Action<O, Void, R, R>) -> bool {
    |a: Action<O, Void, R, R>| !(a is Await)
}

/// A sink built by `produce`, `produce_chunk`, `leftover`, `leftover_chunk`
/// or `defer` never awaits input, so it takes its input one value at a time.
pub proof fn law_ret_takes_values<O, R>(a: Action<O, Void, R, R>)
    requires
        !(a is Await),
    ensures
        takes_values::<O, R, Ret<R>>(ret_states::<O, R>(), a),
{
}

/// The result of connecting a source to a sink that takes its input one
/// value at a time depends only on the values the source yields: not on how
/// they are split into chunks, nor on the source's deferring, flushing or
/// awaiting. Two sources that yield the same values `l`, connected to such a
/// sink, give the same result when both connections finish.
pub proof fn law_connect_depends_on_values<O, A, S1: Resume<Void, O, ()>, S2: Resume<Void, O, ()>, K: Resume<O, Void, A>>(
    p: spec_fn(Action<O, Void, K::Out, K::Model>) -> bool,
    x1: Action<Void, O, S1::Out, S1::Model>,
    x2: Action<Void, O, S2::Out, S2::Model>,
    l: Seq<O>,
    s: Action<O, Void, K::Out, K::Model>,
)
    requires
        takes_values::<O, A, K>(p, s),
        emits::<O, S1>(x1, l),
        emits::<O, S2>(x2, l),
        connect_halts::<O, A, S1, K>(x1, s),
        connect_halts::<O, A, S2, K>(x2, s),
    ensures
        connect_result::<O, A, S1, K>(x1, s) == connect_result::<O, A, S2, K>(x2, s),
{
    let n1 = choose|n: nat| #[trigger] connect_fuel::<O, A, S1, K>(Seq::empty(), x1, s, n) is Some;
    let n2 = choose|n: nat| #[trigger] connect_fuel::<O, A, S2, K>(Seq::empty(), x2, s, n) is Some;
    let m1 = choose|n: nat| #[trigger] src_values::<O, S1>(x1, n) == Some(l);
    let m2 = choose|n: nat| #[trigger] src_values::<O, S2>(x2, n) == Some(l);
    let r1 = connect_fuel::<O, A, S1, K>(Seq::empty(), x1, s, n1).unwrap();
    let r2 = connect_fuel::<O, A, S2, K>(Seq::empty(), x2, s, n2).unwrap();
    lemma_connect_values::<O, A, S1, K>(p, Seq::empty(), x1, m1, l, s, n1, r1);
    lemma_connect_values::<O, A, S2, K>(p, Seq::empty(), x2, m2, l, s, n2, r2);
    assert(stack_flat(Seq::<Seq<O>>::empty()) + l =~= l);
    if n1 <= n2 {
        lemma_run_values_mono::<O, A, K>(l, s, n1, n2);
    } else {
        lemma_run_values_mono::<O, A, K>(l, s, n2, n1);
    }
    lemma_connect_result::<O, A, S1, K>(x1, s, n1, r1);
    lemma_connect_result::<O, A, S2, K>(x2, s, n2, r2);
}

/// Fusing a source that yields `l` with `transform(g)`, and connecting the
/// result to a sink that takes its input one value at a time, gives what
/// the values of `l` mapped by `g`, fed to it one by one from `source_iter`,
/// give: every value goes through `g`, in order, none dropped or added.
pub proof fn law_transform_any_sink<O, P, A, G: Fn(O) -> P, S: Resume<Void, O, ()>, K: Resume<P, Void, A>>(
    pk: spec_fn(Action<P, Void, K::Out, K::Model>) -> bool,
    src: Action<Void, O, S::Out, S::Model>,
    l: Seq<O>,
    g: G,
    sink: Action<P, Void, K::Out, K::Model>,
)
    requires
        emits::<O, S>(src, l),
        takes_values::<P, A, K>(pk, sink),
        connect_halts::<P, A, Fuse<Void, O, P, (), S, Transform<O, G>>, K>(
            fuse_step(Seq::empty(), src, Action::Await(Transform::Wait(g))),
            sink,
        ),
        connect_halts::<P, A, SourceIter<P>, K>(iter_step::<Void, P>(map_seq(l, g)), sink),
    ensures
        connect_result::<P, A, Fuse<Void, O, P, (), S, Transform<O, G>>, K>(
            fuse_step(Seq::empty(), src, Action::Await(Transform::Wait(g))),
            sink,
        ) == connect_result::<P, A, SourceIter<P>, K>(iter_step::<Void, P>(map_seq(l, g)), sink),
{
    law_fuse_transform::<O, P, G, S>(src, l, g);
    law_source_iter_emits::<P>(map_seq(l, g));
    law_connect_depends_on_values::<P, A, Fuse<Void, O, P, (), S, Transform<O, G>>, SourceIter<P>, K>(
        pk,
        fuse_step(Seq::empty(), src, Action::Await(Transform::Wait(g))),
        iter_step::<Void, P>(map_seq(l, g)),
        map_seq(l, g),
        sink,
    );
}

// ------------------------------------------------------------ fusion

/// Within `fuel` steps (feeding empty chunks when it awaits), the source does
/// not flush.
pub open spec fn never_flushes_within<O, S: Resume<Void, O, ()>>(x: Action<Void, O, S::Out, S::Model>, fuel: nat) -> bool
    decreases fuel,
{
    if fuel == 0 {
        true
    } else {
        let f = (fuel - 1) as nat;
        match x {
            Action::Pure(_) => true,
            Action::Flush(_) => false,
            Action::Defer(m) => never_flushes_within::<O, S>(S::spec_resume(m), f),
            Action::Leftover(_, m) => never_flushes_within::<O, S>(S::spec_resume(m), f),
            Action::Yield(_, m) => never_flushes_within::<O, S>(S::spec_resume(m), f),
            Action::Await(m) => never_flushes_within::<O, S>(S::spec_feed(m, Chunk::Chunk(Seq::empty())), f),
        }
    }
}

/// The source never flushes.
pub open spec fn never_flushes<O, S: Resume<Void, O, ()>>(x: Action<Void, O, S::Out, S::Model>) -> bool {
    forall|fuel: nat| #[trigger] never_flushes_within::<O, S>(x, fuel)
}

proof fn lemma_never_flushes_next<O, S: Resume<Void, O, ()>>(x: Action<Void, O, S::Out, S::Model>, y: Action<Void, O, S::Out, S::Model>)
    requires
        never_flushes::<O, S>(x),
        forall|fuel: nat| #[trigger] never_flushes_within::<O, S>(x, fuel + 1) ==> never_flushes_within::<O, S>(y, fuel),
    ensures
        never_flushes::<O, S>(y),
{
    assert forall|fuel: nat| #[trigger] never_flushes_within::<O, S>(y, fuel) by {
        assert(never_flushes_within::<O, S>(x, fuel + 1));
    }
}

/// When the sink awaits input in `a`, a flush leaves it awaiting in the same
/// state.
pub open spec fn flush_idle<O, A, K: Resume<O, Void, A>>(a: Action<O, Void, K::Out, K::Model>) -> bool {
    a matches Action::Await(m) ==> K::spec_feed(m, Chunk::Flush) == Action::<O, Void, K::Out, K::Model>::Await(m)
}

/// The sink ignores flushes: in `s`, and in every state a step of its
/// continuation gives, a flush fed to it while it awaits input leaves it
/// awaiting in the same state.
pub open spec fn ignores_flush<O, A, K: Resume<O, Void, A>>(s: Action<O, Void, K::Out, K::Model>) -> bool {
    &&& flush_idle::<O, A, K>(s)
    &&& forall|m: K::Model| #[trigger] flush_idle::<O, A, K>(K::spec_resume(m))
    &&& forall|m: K::Model, c: Chunk<Seq<O>>| #[trigger] flush_idle::<O, A, K>(K::spec_feed(m, c))
}

proof fn lemma_fuse_connect<O1, O2, A, S, KC, KS>(
    p: Seq<Seq<O1>>,
    x: Action<Void, O1, S::Out, S::Model>,
    c: Action<O1, O2, KC::Out, KC::Model>,
    q: Seq<Seq<O2>>,
    s: Action<O2, Void, KS::Out, KS::Model>,
    n: nat,
)
    where
        S: Resume<Void, O1, ()>,
        KC: Resume<O1, O2, ()>,
        KS: Resume<O2, Void, A>,
    requires
        never_flushes::<O1, S>(x) || ignores_flush::<O2, A, KS>(s),
    ensures
        connect_fuel::<O2, A, Fuse<Void, O1, O2, (), S, KC>, KS>(q, fuse_step(p, x, c), s, n)
            == connect_fuel::<O1, A, S, Fuse<O1, O2, Void, A, KC, KS>>(p, x, fuse_step(q, c, s), n),
    decreases n,
{
    if n > 0 {
        let g = (n - 1) as nat;
        match s {
            Action::Pure(_) => {},
            Action::Defer(ks) => lemma_fuse_connect::<O1, O2, A, S, KC, KS>(p, x, c, q, KS::spec_resume(ks), g),
            Action::Flush(ks) => lemma_fuse_connect::<O1, O2, A, S, KC, KS>(p, x, c, q, KS::spec_resume(ks), g),
            Action::Yield(_, ks) => lemma_fuse_connect::<O1, O2, A, S, KC, KS>(p, x, c, q, KS::spec_resume(ks), g),
            Action::Leftover(o, ks) => lemma_fuse_connect::<O1, O2, A, S, KC, KS>(p, x, c, q.push(o), KS::spec_resume(ks), g),
            Action::Await(ks) => if q.len() > 0 {
                lemma_fuse_connect::<O1, O2, A, S, KC, KS>(p, x, c, q.drop_last(), KS::spec_feed(ks, Chunk::Chunk(q.last())), g)
            } else {
                match c {
                    Action::Pure(_) => lemma_fuse_connect::<O1, O2, A, S, KC, KS>(p, x, c, q, KS::spec_feed(ks, Chunk::End), g),
                    Action::Defer(kc) => lemma_fuse_connect::<O1, O2, A, S, KC, KS>(p, x, KC::spec_resume(kc), q, s, g),
                    Action::Flush(kc) => lemma_fuse_connect::<O1, O2, A, S, KC, KS>(p, x, KC::spec_resume(kc), q, KS::spec_feed(ks, Chunk::Flush), g),
                    Action::Yield(o, kc) => lemma_fuse_connect::<O1, O2, A, S, KC, KS>(p, x, KC::spec_resume(kc), q, KS::spec_feed(ks, Chunk::Chunk(o)), g),
                    Action::Leftover(i, kc) => lemma_fuse_connect::<O1, O2, A, S, KC, KS>(p.push(i), x, KC::spec_resume(kc), q, s, g),
                    Action::Await(kc) => if p.len() > 0 {
                        lemma_fuse_connect::<O1, O2, A, S, KC, KS>(
                            p.drop_last(),
                            x,
                            KC::spec_feed(kc, Chunk::Chunk(p.last())),
                            q,
                            s,
                            g,
                        )
                    } else {
                        match x {
                            Action::Pure(_) => lemma_fuse_connect::<O1, O2, A, S, KC, KS>(p, x, KC::spec_feed(kc, Chunk::End), q, s, g),
                            Action::Defer(mx) => {
                                if never_flushes::<O1, S>(x) {
                                    lemma_never_flushes_next::<O1, S>(x, S::spec_resume(mx));
                                }
                                lemma_fuse_connect::<O1, O2, A, S, KC, KS>(p, S::spec_resume(mx), c, q, s, g)
                            },
                            Action::Leftover(_, mx) => {
                                if never_flushes::<O1, S>(x) {
                                    lemma_never_flushes_next::<O1, S>(x, S::spec_resume(mx));
                                }
                                lemma_fuse_connect::<O1, O2, A, S, KC, KS>(p, S::spec_resume(mx), c, q, s, g)
                            },
                            Action::Await(mx) => {
                                let x2 = S::spec_feed(mx, Chunk::Chunk(Seq::empty()));
                                if never_flushes::<O1, S>(x) {
                                    lemma_never_flushes_next::<O1, S>(x, x2);
                                }
                                lemma_fuse_connect::<O1, O2, A, S, KC, KS>(p, x2, c, q, s, g)
                            },
                            Action::Yield(o, mx) => {
                                if never_flushes::<O1, S>(x) {
                                    lemma_never_flushes_next::<O1, S>(x, S::spec_resume(mx));
                                }
                                lemma_fuse_connect::<O1, O2, A, S, KC, KS>(p, S::spec_resume(mx), KC::spec_feed(kc, Chunk::Chunk(o)), q, s, g)
                            },
                            Action::Flush(mx) => {
                                assert(!never_flushes_within::<O1, S>(x, 1));
                                lemma_fuse_connect::<O1, O2, A, S, KC, KS>(
                                    p,
                                    S::spec_resume(mx),
                                    KC::spec_feed(kc, Chunk::Flush),
                                    q,
                                    s,
                                    g,
                                )
                            },
                        }
                    },
                }
            },
        }
    }
}

proof fn lemma_fuse_associative<O1, O2, A, S, KC, KS>(
    x: Action<Void, O1, S::Out, S::Model>,
    c: Action<O1, O2, KC::Out, KC::Model>,
    s: Action<O2, Void, KS::Out, KS::Model>,
)
    where
        S: Resume<Void, O1, ()>,
        KC: Resume<O1, O2, ()>,
        KS: Resume<O2, Void, A>,
    requires
        never_flushes::<O1, S>(x) || ignores_flush::<O2, A, KS>(s),
    ensures
        connect_halts::<O2, A, Fuse<Void, O1, O2, (), S, KC>, KS>(fuse_step(Seq::empty(), x, c), s)
            == connect_halts::<O1, A, S, Fuse<O1, O2, Void, A, KC, KS>>(x, fuse_step(Seq::empty(), c, s)),
        connect_halts::<O2, A, Fuse<Void, O1, O2, (), S, KC>, KS>(fuse_step(Seq::empty(), x, c), s) ==> connect_result::<
            O2,
            A,
            Fuse<Void, O1, O2, (), S, KC>,
            KS,
        >(fuse_step(Seq::empty(), x, c), s) == connect_result::<O1, A, S, Fuse<O1, O2, Void, A, KC, KS>>(
            x,
            fuse_step(Seq::empty(), c, s),
        ),
{
    let lf = fuse_step(Seq::<Seq<O1>>::empty(), x, c);
    let rg = fuse_step(Seq::<Seq<O2>>::empty(), c, s);
    assert forall|n: nat| #[trigger] connect_fuel::<O2, A, Fuse<Void, O1, O2, (), S, KC>, KS>(Seq::empty(), lf, s, n)
        == connect_fuel::<O1, A, S, Fuse<O1, O2, Void, A, KC, KS>>(Seq::empty(), x, rg, n) by {
        lemma_fuse_connect::<O1, O2, A, S, KC, KS>(Seq::empty(), x, c, Seq::empty(), s, n);
    }
    if connect_halts::<O2, A, Fuse<Void, O1, O2, (), S, KC>, KS>(lf, s) {
        let n = choose|n: nat| #[trigger] connect_fuel::<O2, A, Fuse<Void, O1, O2, (), S, KC>, KS>(Seq::empty(), lf, s, n) is Some;
        let r = connect_fuel::<O2, A, Fuse<Void, O1, O2, (), S, KC>, KS>(Seq::empty(), lf, s, n).unwrap();
        lemma_connect_result::<O2, A, Fuse<Void, O1, O2, (), S, KC>, KS>(lf, s, n, r);
        lemma_connect_result::<O1, A, S, Fuse<O1, O2, Void, A, KC, KS>>(x, rg, n, r);
    }
    if connect_halts::<O1, A, S, Fuse<O1, O2, Void, A, KC, KS>>(x, rg) {
        let n = choose|n: nat| #[trigger] connect_fuel::<O1, A, S, Fuse<O1, O2, Void, A, KC, KS>>(Seq::empty(), x, rg, n) is Some;
        assert(connect_fuel::<O2, A, Fuse<Void, O1, O2, (), S, KC>, KS>(Seq::empty(), lf, s, n) is Some);
    }
}



/// Fusion is associative when the source never flushes: the source fused
/// with a conduit, connected to a sink, finishes exactly when the source
/// connected to the conduit fused with the sink does, and with the same
/// result. (A flush from the source reaches the sink through `src.fuse(c)`
/// but only the conduit through `c.fuse(sink)`.)
pub proof fn law_fuse_associative<O1, O2, A, S, KC, KS>(
    x: Action<Void, O1, S::Out, S::Model>,
    c: Action<O1, O2, KC::Out, KC::Model>,
    s: Action<O2, Void, KS::Out, KS::Model>,
)
    where
        S: Resume<Void, O1, ()>,
        KC: Resume<O1, O2, ()>,
        KS: Resume<O2, Void, A>,
    requires
        never_flushes::<O1, S>(x),
    ensures
        connect_halts::<O2, A, Fuse<Void, O1, O2, (), S, KC>, KS>(fuse_step(Seq::empty(), x, c), s)
            == connect_halts::<O1, A, S, Fuse<O1, O2, Void, A, KC, KS>>(x, fuse_step(Seq::empty(), c, s)),
        connect_halts::<O2, A, Fuse<Void, O1, O2, (), S, KC>, KS>(fuse_step(Seq::empty(), x, c), s) ==> connect_result::<
            O2,
            A,
            Fuse<Void, O1, O2, (), S, KC>,
            KS,
        >(fuse_step(Seq::empty(), x, c), s) == connect_result::<O1, A, S, Fuse<O1, O2, Void, A, KC, KS>>(
            x,
            fuse_step(Seq::empty(), c, s),
        ),
{
    lemma_fuse_associative::<O1, O2, A, S, KC, KS>(x, c, s);
}

/// Fusion is associative when the sink ignores flushes, whatever the source:
/// the source fused with a conduit, connected to the sink, finishes exactly
/// when the source connected to the conduit fused with the sink does, and
/// with the same result.
pub proof fn law_fuse_associative_flush_ignored<O1, O2, A, S, KC, KS>(
    x: Action<Void, O1, S::Out, S::Model>,
    c: Action<O1, O2, KC::Out, KC::Model>,
    s: Action<O2, Void, KS::Out, KS::Model>,
)
    where
        S: Resume<Void, O1, ()>,
        KC: Resume<O1, O2, ()>,
        KS: Resume<O2, Void, A>,
    requires
        ignores_flush::<O2, A, KS>(s),
    ensures
        connect_halts::<O2, A, Fuse<Void, O1, O2, (), S, KC>, KS>(fuse_step(Seq::empty(), x, c), s)
            == connect_halts::<O1, A, S, Fuse<O1, O2, Void, A, KC, KS>>(x, fuse_step(Seq::empty(), c, s)),
        connect_halts::<O2, A, Fuse<Void, O1, O2, (), S, KC>, KS>(fuse_step(Seq::empty(), x, c), s) ==> connect_result::<
            O2,
            A,
            Fuse<Void, O1, O2, (), S, KC>,
            KS,
        >(fuse_step(Seq::empty(), x, c), s) == connect_result::<O1, A, S, Fuse<O1, O2, Void, A, KC, KS>>(
            x,
            fuse_step(Seq::empty(), c, s),
        ),
{
    lemma_fuse_associative::<O1, O2, A, S, KC, KS>(x, c, s);
}

/// `consume()` ignores flushes.
pub proof fn law_consume_ignores_flush<I>()
    ensures
        ignores_flush::<I, Option<I>, Consume<I>>(Action::Await(Consume::Wait)),
{
}

/// A sink built by `fold` (or any sink with a `SinkK` continuation) ignores
/// flushes.
pub proof fn law_sink_ignores_flush<A, I, S: Combine<A, I>>(a: A, s: S)
    ensures
        ignores_flush::<I, A, SinkK<A, I, S>>(Action::Await(SinkK::Wait(a, s))),
{
}

/// `source_iter(v)` never flushes.
pub proof fn law_source_iter_never_flushes<O>(v: Seq<O>)
    ensures
        never_flushes::<O, SourceIter<O>>(iter_step::<Void, O>(v)),
{
    assert forall|fuel: nat| #[trigger] never_flushes_within::<O, SourceIter<O>>(iter_step::<Void, O>(v), fuel) by {
        lemma_source_iter_no_flush(v, fuel);
    }
}

proof fn lemma_source_iter_no_flush<O>(v: Seq<O>, fuel: nat)
    ensures
        never_flushes_within::<O, SourceIter<O>>(iter_step::<Void, O>(v), fuel),
    decreases fuel,
{
    if fuel > 0 && v.len() > 0 {
        lemma_source_iter_no_flush(v.drop_first(), (fuel - 1) as nat);
    }
}


// ------------------------------------------------------------ sequencing

/// A sink run as the second half of `and` is connected exactly as itself.
pub proof fn lemma_then_second_connect<O, A, B, K1: Resume<O, Void, A>, K2: Resume<O, Void, B>, S: Resume<Void, O, ()>>(
    pending: Seq<Seq<O>>,
    src: Action<Void, O, S::Out, S::Model>,
    c: Action<O, Void, K2::Out, K2::Model>,
    n: nat,
)
    ensures
        connect_fuel::<O, B, S, Then<O, Void, A, B, K1, K2>>(
            pending,
            src,
            then_second::<O, Void, K2::Out, K1::Model, Action<O, Void, K2::Out, K2::Model>, K2::Model>(c),
            n,
        ) == connect_fuel::<O, B, S, K2>(pending, src, c, n),
{
    let h = |r: K2::Out| r;
    let wm = |m: K2::Model| ThenModel::<K1::Model, Action<O, Void, K2::Out, K2::Model>, K2::Model>::Second(m);
    assert forall|a: Action<O, Void, K2::Out, K2::Model>| #[trigger] sink_sim(
        then_second::<O, Void, K2::Out, K1::Model, Action<O, Void, K2::Out, K2::Model>, K2::Model>(a),
        a,
        h,
        wm,
    ) by {}
    assert forall|m: K2::Model| #[trigger] sink_sim(<Then<O, Void, A, B, K1, K2> as Resume<O, Void, B>>::spec_resume(wm(m)), K2::spec_resume(m), h, wm) by {
        assert(sink_sim(then_second::<O, Void, K2::Out, K1::Model, Action<O, Void, K2::Out, K2::Model>, K2::Model>(K2::spec_resume(m)), K2::spec_resume(m), h, wm));
    }
    assert forall|m: K2::Model, ch: Chunk<Seq<O>>| #[trigger] sink_sim(<Then<O, Void, A, B, K1, K2> as Resume<O, Void, B>>::spec_feed(wm(m), ch), K2::spec_feed(m, ch), h, wm) by {
        assert(sink_sim(then_second::<O, Void, K2::Out, K1::Model, Action<O, Void, K2::Out, K2::Model>, K2::Model>(K2::spec_feed(m, ch)), K2::spec_feed(m, ch), h, wm));
    }
    lemma_sink_sim_connect::<O, B, B, K2, Then<O, Void, A, B, K1, K2>, S>(
        h,
        wm,
        pending,
        src,
        c,
        then_second::<O, Void, K2::Out, K1::Model, Action<O, Void, K2::Out, K2::Model>, K2::Model>(c),
        n,
    );
}

proof fn lemma_and_assoc_b<O, A, B, C, KA, KB, KC, S>(
    pending: Seq<Seq<O>>,
    src: Action<Void, O, S::Out, S::Model>,
    y: Action<O, Void, KB::Out, KB::Model>,
    c: Action<O, Void, KC::Out, KC::Model>,
    n: nat,
)
    where
        KA: Resume<O, Void, A>,
        KB: Resume<O, Void, B>,
        KC: Resume<O, Void, C>,
        S: Resume<Void, O, ()>,
    ensures
        connect_fuel::<O, C, S, Then<O, Void, B, C, Then<O, Void, A, B, KA, KB>, KC>>(
            pending,
            src,
            then_step(then_second::<O, Void, KB::Out, KA::Model, Action<O, Void, KB::Out, KB::Model>, KB::Model>(y), c),
            n,
        ) == connect_fuel::<O, C, S, Then<O, Void, A, C, KA, Then<O, Void, B, C, KB, KC>>>(
            pending,
            src,
            then_second::<O, Void, KC::Out, KA::Model, Action<O, Void, KC::Out, <Then<O, Void, B, C, KB, KC> as Resume<O, Void, C>>::Model>, <Then<O, Void, B, C, KB, KC> as Resume<O, Void, C>>::Model>(then_step(y, c)),
            n,
        ),
    decreases n, 1int,
{
    match y {
        Action::Pure(_) => {
            lemma_then_second_connect::<O, B, C, Then<O, Void, A, B, KA, KB>, KC, S>(pending, src, c, n);
            lemma_then_second_connect::<O, B, C, KB, KC, S>(pending, src, c, n);
            lemma_then_second_connect::<O, A, C, KA, Then<O, Void, B, C, KB, KC>, S>(
                pending, src, then_second::<O, Void, KC::Out, KB::Model, Action<O, Void, KC::Out, KC::Model>, KC::Model>(c), n);
        },
        _ => if n > 0 {
            let f = (n - 1) as nat;
            match y {
                Action::Defer(k) => lemma_and_assoc_b::<O, A, B, C, KA, KB, KC, S>(pending, src, KB::spec_resume(k), c, f),
                Action::Flush(k) => lemma_and_assoc_b::<O, A, B, C, KA, KB, KC, S>(pending, src, KB::spec_resume(k), c, f),
                Action::Yield(_, k) => lemma_and_assoc_b::<O, A, B, C, KA, KB, KC, S>(pending, src, KB::spec_resume(k), c, f),
                Action::Leftover(o, k) => lemma_and_assoc_b::<O, A, B, C, KA, KB, KC, S>(pending.push(o), src, KB::spec_resume(k), c, f),
                Action::Await(k) => if pending.len() > 0 {
                    lemma_and_assoc_b::<O, A, B, C, KA, KB, KC, S>(pending.drop_last(), src, KB::spec_feed(k, Chunk::Chunk(pending.last())), c, f)
                } else {
                    match src {
                        Action::Pure(x) => lemma_and_assoc_b::<O, A, B, C, KA, KB, KC, S>(pending, src, KB::spec_feed(k, Chunk::End), c, f),
                        Action::Defer(ks) => lemma_and_assoc_b::<O, A, B, C, KA, KB, KC, S>(pending, S::spec_resume(ks), y, c, f),
                        Action::Flush(ks) => lemma_and_assoc_b::<O, A, B, C, KA, KB, KC, S>(pending, S::spec_resume(ks), KB::spec_feed(k, Chunk::Flush), c, f),
                        Action::Await(ks) => lemma_and_assoc_b::<O, A, B, C, KA, KB, KC, S>(pending, S::spec_feed(ks, Chunk::Chunk(Seq::empty())), y, c, f),
                        Action::Yield(o, ks) => lemma_and_assoc_b::<O, A, B, C, KA, KB, KC, S>(pending, S::spec_resume(ks), KB::spec_feed(k, Chunk::Chunk(o)), c, f),
                        Action::Leftover(_, ks) => lemma_and_assoc_b::<O, A, B, C, KA, KB, KC, S>(pending, S::spec_resume(ks), y, c, f),
                    }
                },
                Action::Pure(_) => {},
            }
        },
    }
}

proof fn lemma_and_assoc_a<O, A, B, C, KA, KB, KC, S>(
    pending: Seq<Seq<O>>,
    src: Action<Void, O, S::Out, S::Model>,
    x: Action<O, Void, KA::Out, KA::Model>,
    b: Action<O, Void, KB::Out, KB::Model>,
    c: Action<O, Void, KC::Out, KC::Model>,
    n: nat,
)
    where
        KA: Resume<O, Void, A>,
        KB: Resume<O, Void, B>,
        KC: Resume<O, Void, C>,
        S: Resume<Void, O, ()>,
    ensures
        connect_fuel::<O, C, S, Then<O, Void, B, C, Then<O, Void, A, B, KA, KB>, KC>>(
            pending,
            src,
            then_step(then_step(x, b), c),
            n,
        ) == connect_fuel::<O, C, S, Then<O, Void, A, C, KA, Then<O, Void, B, C, KB, KC>>>(
            pending,
            src,
            then_step(x, then_step(b, c)),
            n,
        ),
    decreases n, 2int,
{
    match x {
        Action::Pure(_) => {
            lemma_and_assoc_b::<O, A, B, C, KA, KB, KC, S>(pending, src, b, c, n);
        },
        _ => if n > 0 {
            let f = (n - 1) as nat;
            match x {
                Action::Defer(k) => lemma_and_assoc_a::<O, A, B, C, KA, KB, KC, S>(pending, src, KA::spec_resume(k), b, c, f),
                Action::Flush(k) => lemma_and_assoc_a::<O, A, B, C, KA, KB, KC, S>(pending, src, KA::spec_resume(k), b, c, f),
                Action::Yield(_, k) => lemma_and_assoc_a::<O, A, B, C, KA, KB, KC, S>(pending, src, KA::spec_resume(k), b, c, f),
                Action::Leftover(o, k) => lemma_and_assoc_a::<O, A, B, C, KA, KB, KC, S>(pending.push(o), src, KA::spec_resume(k), b, c, f),
                Action::Await(k) => if pending.len() > 0 {
                    lemma_and_assoc_a::<O, A, B, C, KA, KB, KC, S>(pending.drop_last(), src, KA::spec_feed(k, Chunk::Chunk(pending.last())), b, c, f)
                } else {
                    match src {
                        Action::Pure(z) => lemma_and_assoc_a::<O, A, B, C, KA, KB, KC, S>(pending, src, KA::spec_feed(k, Chunk::End), b, c, f),
                        Action::Defer(ks) => lemma_and_assoc_a::<O, A, B, C, KA, KB, KC, S>(pending, S::spec_resume(ks), x, b, c, f),
                        Action::Flush(ks) => lemma_and_assoc_a::<O, A, B, C, KA, KB, KC, S>(pending, S::spec_resume(ks), KA::spec_feed(k, Chunk::Flush), b, c, f),
                        Action::Await(ks) => lemma_and_assoc_a::<O, A, B, C, KA, KB, KC, S>(pending, S::spec_feed(ks, Chunk::Chunk(Seq::empty())), x, b, c, f),
                        Action::Yield(o, ks) => lemma_and_assoc_a::<O, A, B, C, KA, KB, KC, S>(pending, S::spec_resume(ks), KA::spec_feed(k, Chunk::Chunk(o)), b, c, f),
                        Action::Leftover(_, ks) => lemma_and_assoc_a::<O, A, B, C, KA, KB, KC, S>(pending, S::spec_resume(ks), x, b, c, f),
                    }
                },
                Action::Pure(_) => {},
            }
        },
    }
}

/// Sequencing with `and` is associative: every source connected to
/// `a.and(b).and(c)` gives what it gives connected to `a.and(b.and(c))`,
/// within the same number of steps.
pub proof fn law_and_associative<O, A, B, C, KA, KB, KC, S>(
    src: Action<Void, O, S::Out, S::Model>,
    a: Action<O, Void, KA::Out, KA::Model>,
    b: Action<O, Void, KB::Out, KB::Model>,
    c: Action<O, Void, KC::Out, KC::Model>,
)
    where
        KA: Resume<O, Void, A>,
        KB: Resume<O, Void, B>,
        KC: Resume<O, Void, C>,
        S: Resume<Void, O, ()>,
    ensures
        forall|n: nat|
            #[trigger] connect_fuel::<O, C, S, Then<O, Void, B, C, Then<O, Void, A, B, KA, KB>, KC>>(
                Seq::empty(),
                src,
                then_step(then_step(a, b), c),
                n,
            ) == connect_fuel::<O, C, S, Then<O, Void, A, C, KA, Then<O, Void, B, C, KB, KC>>>(
                Seq::empty(),
                src,
                then_step(a, then_step(b, c)),
                n,
            ),
{
    assert forall|n: nat| #[trigger] connect_fuel::<O, C, S, Then<O, Void, B, C, Then<O, Void, A, B, KA, KB>, KC>>(
        Seq::empty(), src, then_step(then_step(a, b), c), n)
        == connect_fuel::<O, C, S, Then<O, Void, A, C, KA, Then<O, Void, B, C, KB, KC>>>(
        Seq::empty(), src, then_step(a, then_step(b, c)), n) by {
        lemma_and_assoc_a::<O, A, B, C, KA, KB, KC, S>(Seq::empty(), src, a, b, c, n);
    }
}


proof fn lemma_emit_values<O, S: Resume<Void, O, ()>>(e: S::Out, v: Seq<O>)
    ensures
        src_values::<O, ExtendIter<(), S, O>>(emit_step::<Void, O, S::Out, S::Model>(e, v), v.len() + 1) == Some(v),
    decreases v.len(),
{
    if v.len() > 0 {
        lemma_emit_values::<O, S>(e, v.drop_first());
        assert(seq![v[0]] + v.drop_first() =~= v);
    }
}

proof fn lemma_extend_values<O, S: Resume<Void, O, ()>>(src: Action<Void, O, S::Out, S::Model>, n: nat, l: Seq<O>, v: Seq<O>)
    requires
        src_values::<O, S>(src, n) == Some(l),
    ensures
        src_values::<O, ExtendIter<(), S, O>>(extend_step(src, v), n + v.len()) == Some(l + v),
    decreases n,
{
    let g = (n - 1) as nat;
    match src {
        Action::Pure(e) => {
            assert(l =~= Seq::<O>::empty());
            assert(l + v =~= v);
            lemma_emit_values::<O, S>(e, v);
            lemma_src_values_mono::<O, ExtendIter<(), S, O>>(emit_step::<Void, O, S::Out, S::Model>(e, v), v.len() + 1, n + v.len());
        },
        Action::Defer(k) => lemma_extend_values::<O, S>(S::spec_resume(k), g, l, v),
        Action::Flush(k) => lemma_extend_values::<O, S>(S::spec_resume(k), g, l, v),
        Action::Leftover(_, k) => lemma_extend_values::<O, S>(S::spec_resume(k), g, l, v),
        Action::Await(k) => lemma_extend_values::<O, S>(S::spec_feed(k, Chunk::Chunk(Seq::empty())), g, l, v),
        Action::Yield(o, k) => {
            let rest = src_values::<O, S>(S::spec_resume(k), g).unwrap();
            assert(l =~= o + rest);
            lemma_extend_values::<O, S>(S::spec_resume(k), g, rest, v);
            assert(o + (rest + v) =~= l + v);
        },
    }
}

/// A source that yields `l`, extended with the values `v`, yields `l` and
/// then `v`.
pub proof fn law_extend_emits<O, S: Resume<Void, O, ()>>(src: Action<Void, O, S::Out, S::Model>, l: Seq<O>, v: Seq<O>)
    requires
        emits::<O, S>(src, l),
    ensures
        emits::<O, ExtendIter<(), S, O>>(extend_step(src, v), l + v),
{
    let n = choose|n: nat| #[trigger] src_values::<O, S>(src, n) == Some(l);
    lemma_extend_values::<O, S>(src, n, l, v);
}


/// A finished conduit followed (with `and`) by a sink is connected as the
/// sink: `and` forwards the result of its second half.
pub proof fn law_and_pure<O, A, B, K1: Resume<O, Void, A>, K2: Resume<O, Void, B>, S: Resume<Void, O, ()>>(
    src: Action<Void, O, S::Out, S::Model>,
    e: K1::Out,
    c: Action<O, Void, K2::Out, K2::Model>,
)
    ensures
        forall|n: nat|
            #[trigger] connect_fuel::<O, B, S, Then<O, Void, A, B, K1, K2>>(Seq::empty(), src, then_step(Action::<O, Void, K1::Out, K1::Model>::Pure(e), c), n)
                == connect_fuel::<O, B, S, K2>(Seq::empty(), src, c, n),
{
    assert forall|n: nat| #[trigger] connect_fuel::<O, B, S, Then<O, Void, A, B, K1, K2>>(Seq::empty(), src, then_step(Action::<O, Void, K1::Out, K1::Model>::Pure(e), c), n)
        == connect_fuel::<O, B, S, K2>(Seq::empty(), src, c, n) by {
        lemma_then_second_connect::<O, A, B, K1, K2, S>(Seq::empty(), src, c, n);
    }
}

/// `defer()` only adds a point of laziness in front of a sink: a source
/// connected to `defer().and(sink)` finishes exactly when it finishes
/// connected to `sink`, with the same result.
pub proof fn law_defer_sink<O, B, K: Resume<O, Void, B>, S: Resume<Void, O, ()>>(
    src: Action<Void, O, S::Out, S::Model>,
    c: Action<O, Void, K::Out, K::Model>,
)
    ensures
        connect_halts::<O, B, S, Then<O, Void, (), B, Ret<()>, K>>(src, then_step(Action::<O, Void, (), ()>::Defer(()), c))
            == connect_halts::<O, B, S, K>(src, c),
        connect_halts::<O, B, S, K>(src, c) ==> connect_result::<O, B, S, Then<O, Void, (), B, Ret<()>, K>>(
            src,
            then_step(Action::<O, Void, (), ()>::Defer(()), c),
        ) == connect_result::<O, B, S, K>(src, c),
{
    let d = then_step(Action::<O, Void, (), ()>::Defer(()), c);
    assert forall|n: nat| #[trigger] connect_fuel::<O, B, S, Then<O, Void, (), B, Ret<()>, K>>(Seq::empty(), src, d, n + 1)
        == connect_fuel::<O, B, S, K>(Seq::empty(), src, c, n) by {
        lemma_then_second_connect::<O, (), B, Ret<()>, K, S>(Seq::empty(), src, c, n);
    }
    if connect_halts::<O, B, S, K>(src, c) {
        let n = choose|n: nat| #[trigger] connect_fuel::<O, B, S, K>(Seq::empty(), src, c, n) is Some;
        let r = connect_fuel::<O, B, S, K>(Seq::empty(), src, c, n).unwrap();
        lemma_connect_result::<O, B, S, K>(src, c, n, r);
        lemma_connect_result::<O, B, S, Then<O, Void, (), B, Ret<()>, K>>(src, d, n + 1, r);
    }
    if connect_halts::<O, B, S, Then<O, Void, (), B, Ret<()>, K>>(src, d) {
        let n = choose|n: nat| #[trigger] connect_fuel::<O, B, S, Then<O, Void, (), B, Ret<()>, K>>(Seq::empty(), src, d, n) is Some;
        assert(n > 0);
        let m = (n - 1) as nat;
        assert(connect_fuel::<O, B, S, Then<O, Void, (), B, Ret<()>, K>>(Seq::empty(), src, d, m + 1) is Some);
        assert(connect_fuel::<O, B, S, K>(Seq::empty(), src, c, m) is Some);
    }
}

/// `defer()` only adds a point of laziness in front of a source: a source
/// that yields `l`, preceded by `defer()`, still yields exactly `l`.
pub proof fn law_defer_source<O, K: Resume<Void, O, ()>>(c: Action<Void, O, K::Out, K::Model>, l: Seq<O>)
    requires
        emits::<O, K>(c, l),
    ensures
        emits::<O, Then<Void, O, (), (), Ret<()>, K>>(then_step(Action::<Void, O, (), ()>::Defer(()), c), l),
{
    law_produce_defer_emit::<O>(arbitrary());
    law_and_emits::<O, Ret<()>, K>(Action::Defer(()), Seq::empty(), c, l);
    assert(Seq::<O>::empty() + l =~= l);
}

proof fn lemma_zip_second_connect<O, A, B, K1: Resume<O, Void, A>, K2: Resume<O, Void, B>, S: Resume<Void, O, ()>>(
    pending: Seq<Seq<O>>,
    src: Action<Void, O, S::Out, S::Model>,
    e: K1::Out,
    c: Action<O, Void, K2::Out, K2::Model>,
    n: nat,
)
    ensures
        connect_fuel::<O, (A, B), S, Zip<O, Void, A, B, K1, K2>>(
            pending,
            src,
            zip_second::<O, Void, K1::Out, K2::Out, K1::Model, Action<O, Void, K2::Out, K2::Model>, K2::Model>(e, c),
            n,
        ) == match connect_fuel::<O, B, S, K2>(pending, src, c, n) {
            Some(r) => Some((e, r)),
            None => None,
        },
{
    let h = |r: K2::Out| (e, r);
    let wm = |m: K2::Model| ZipModel::<K1::Model, Action<O, Void, K2::Out, K2::Model>, K1::Out, K2::Model>::Second(e, m);
    assert forall|a: Action<O, Void, K2::Out, K2::Model>| #[trigger] sink_sim(zip_second::<O, Void, K1::Out, K2::Out, K1::Model, Action<O, Void, K2::Out, K2::Model>, K2::Model>(e, a), a, h, wm) by {}
    assert forall|m: K2::Model| #[trigger] sink_sim(<Zip<O, Void, A, B, K1, K2> as Resume<O, Void, (A, B)>>::spec_resume(wm(m)), K2::spec_resume(m), h, wm) by {
        assert(sink_sim(zip_second::<O, Void, K1::Out, K2::Out, K1::Model, Action<O, Void, K2::Out, K2::Model>, K2::Model>(e, K2::spec_resume(m)), K2::spec_resume(m), h, wm));
    }
    assert forall|m: K2::Model, ch: Chunk<Seq<O>>| #[trigger] sink_sim(<Zip<O, Void, A, B, K1, K2> as Resume<O, Void, (A, B)>>::spec_feed(wm(m), ch), K2::spec_feed(m, ch), h, wm) by {
        assert(sink_sim(zip_second::<O, Void, K1::Out, K2::Out, K1::Model, Action<O, Void, K2::Out, K2::Model>, K2::Model>(e, K2::spec_feed(m, ch)), K2::spec_feed(m, ch), h, wm));
    }
    lemma_sink_sim_connect::<O, B, (A, B), K2, Zip<O, Void, A, B, K1, K2>, S>(h, wm, pending, src, c, zip_second::<O, Void, K1::Out, K2::Out, K1::Model, Action<O, Void, K2::Out, K2::Model>, K2::Model>(e, c), n);
}

/// A finished conduit zipped with a sink is connected as the sink, with the
/// finished conduit's result paired in front: `zip` forwards both results.
pub proof fn law_zip_pure<O, A, B, K1: Resume<O, Void, A>, K2: Resume<O, Void, B>, S: Resume<Void, O, ()>>(
    src: Action<Void, O, S::Out, S::Model>,
    e: K1::Out,
    c: Action<O, Void, K2::Out, K2::Model>,
)
    requires
        connect_halts::<O, B, S, K2>(src, c),
    ensures
        connect_halts::<O, (A, B), S, Zip<O, Void, A, B, K1, K2>>(src, zip_step(Action::<O, Void, K1::Out, K1::Model>::Pure(e), c)),
        connect_result::<O, (A, B), S, Zip<O, Void, A, B, K1, K2>>(src, zip_step(Action::<O, Void, K1::Out, K1::Model>::Pure(e), c))
            == (e, connect_result::<O, B, S, K2>(src, c)),
{
    let n = choose|n: nat| #[trigger] connect_fuel::<O, B, S, K2>(Seq::empty(), src, c, n) is Some;
    lemma_zip_second_connect::<O, A, B, K1, K2, S>(Seq::empty(), src, e, c, n);
    lemma_connect_result::<O, (A, B), S, Zip<O, Void, A, B, K1, K2>>(
        src,
        zip_step(Action::<O, Void, K1::Out, K1::Model>::Pure(e), c),
        n,
        (e, connect_result::<O, B, S, K2>(src, c)),
    );
}

} // verus!
