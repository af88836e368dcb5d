use vstd::prelude::*;
use crate::chunk::Chunk;
use crate::conduit::{Action, ConduitM, Resume, Void, conts_satisfy, shape};

verus! {

/// Connecting a source to a sink, on models: `pending` holds the chunks the
/// sink handed back (the last one is read first), and the result is the
/// model of the sink's result, or `None` when `fuel` steps are not enough.
pub open spec fn connect_fuel<O, A, K1: Resume<Void, O, ()>, K2: Resume<O, Void, A>>(
    pending: Seq<Seq<O>>,
    src: Action<Void, O, K1::Out, K1::Model>,
    sink: Action<O, Void, K2::Out, K2::Model>,
    fuel: nat,
) -> Option<K2::Out>
    decreases fuel,
{
    if fuel == 0 {
        None
    } else {
        let f = (fuel - 1) as nat;
        match sink {
            Action::Pure(a) => Some(a),
            Action::Defer(k) => connect_fuel::<O, A, K1, K2>(pending, src, K2::spec_resume(k), f),
            Action::Flush(k) => connect_fuel::<O, A, K1, K2>(pending, src, K2::spec_resume(k), f),
            Action::Yield(_, k) => connect_fuel::<O, A, K1, K2>(pending, src, K2::spec_resume(k), f),
            Action::Leftover(o, k) => connect_fuel::<O, A, K1, K2>(pending.push(o), src, K2::spec_resume(k), f),
            Action::Await(k) => if pending.len() > 0 {
                connect_fuel::<O, A, K1, K2>(
                    pending.drop_last(),
                    src,
                    K2::spec_feed(k, Chunk::Chunk(pending.last())),
                    f,
                )
            } else {
                match src {
                    Action::Pure(x) => connect_fuel::<O, A, K1, K2>(pending, Action::Pure(x), K2::spec_feed(k, Chunk::End), f),
                    Action::Defer(ks) => connect_fuel::<O, A, K1, K2>(pending, K1::spec_resume(ks), Action::Await(k), f),
                    Action::Flush(ks) => connect_fuel::<O, A, K1, K2>(pending, K1::spec_resume(ks), K2::spec_feed(k, Chunk::Flush), f),
                    Action::Await(ks) => connect_fuel::<O, A, K1, K2>(
                        pending,
                        K1::spec_feed(ks, Chunk::Chunk(Seq::empty())),
                        Action::Await(k),
                        f,
                    ),
                    Action::Yield(o, ks) => connect_fuel::<O, A, K1, K2>(pending, K1::spec_resume(ks), K2::spec_feed(k, Chunk::Chunk(o)), f),
                    Action::Leftover(_, ks) => connect_fuel::<O, A, K1, K2>(pending, K1::spec_resume(ks), Action::Await(k), f),
                }
            },
        }
    }
}

/// Connecting the source `src` to the sink `sink` finishes.
pub open spec fn connect_halts<O, A, K1: Resume<Void, O, ()>, K2: Resume<O, Void, A>>(
    src: Action<Void, O, K1::Out, K1::Model>,
    sink: Action<O, Void, K2::Out, K2::Model>,
) -> bool {
    exists|n: nat| #[trigger] connect_fuel::<O, A, K1, K2>(Seq::empty(), src, sink, n) is Some
}

/// The model of the result of connecting the source `src` to the sink `sink`
/// (meaningful when `connect_halts`).
pub open spec fn connect_result<O, A, K1: Resume<Void, O, ()>, K2: Resume<O, Void, A>>(
    src: Action<Void, O, K1::Out, K1::Model>,
    sink: Action<O, Void, K2::Out, K2::Model>,
) -> K2::Out {
    connect_fuel::<O, A, K1, K2>(
        Seq::empty(),
        src,
        sink,
        choose|n: nat| #[trigger] connect_fuel::<O, A, K1, K2>(Seq::empty(), src, sink, n) is Some,
    ).unwrap()
}

/// More fuel does not change a connection that finished.
pub proof fn lemma_connect_fuel_mono<O, A, K1: Resume<Void, O, ()>, K2: Resume<O, Void, A>>(
    pending: Seq<Seq<O>>,
    src: Action<Void, O, K1::Out, K1::Model>,
    sink: Action<O, Void, K2::Out, K2::Model>,
    n: nat,
    m: nat,
)
    requires
        n <= m,
        connect_fuel::<O, A, K1, K2>(pending, src, sink, n) is Some,
    ensures
        connect_fuel::<O, A, K1, K2>(pending, src, sink, m) == connect_fuel::<O, A, K1, K2>(pending, src, sink, n),
    decreases n,
{
    if n > 0 {
        let f = (n - 1) as nat;
        let g = (m - 1) as nat;
        match sink {
            Action::Pure(a) => {},
            Action::Defer(k) => lemma_connect_fuel_mono::<O, A, K1, K2>(pending, src, K2::spec_resume(k), f, g),
            Action::Flush(k) => lemma_connect_fuel_mono::<O, A, K1, K2>(pending, src, K2::spec_resume(k), f, g),
            Action::Yield(_, k) => lemma_connect_fuel_mono::<O, A, K1, K2>(pending, src, K2::spec_resume(k), f, g),
            Action::Leftover(o, k) => lemma_connect_fuel_mono::<O, A, K1, K2>(pending.push(o), src, K2::spec_resume(k), f, g),
            Action::Await(k) => if pending.len() > 0 {
                lemma_connect_fuel_mono::<O, A, K1, K2>(
                    pending.drop_last(),
                    src,
                    K2::spec_feed(k, Chunk::Chunk(pending.last())),
                    f,
                    g,
                )
            } else {
                match src {
                    Action::Pure(x) => lemma_connect_fuel_mono::<O, A, K1, K2>(pending, Action::Pure(x), K2::spec_feed(k, Chunk::End), f, g),
                    Action::Defer(ks) => lemma_connect_fuel_mono::<O, A, K1, K2>(pending, K1::spec_resume(ks), Action::Await(k), f, g),
                    Action::Flush(ks) => lemma_connect_fuel_mono::<O, A, K1, K2>(pending, K1::spec_resume(ks), K2::spec_feed(k, Chunk::Flush), f, g),
                    Action::Await(ks) => lemma_connect_fuel_mono::<O, A, K1, K2>(
                        pending,
                        K1::spec_feed(ks, Chunk::Chunk(Seq::empty())),
                        Action::Await(k),
                        f,
                        g,
                    ),
                    Action::Yield(o, ks) => lemma_connect_fuel_mono::<O, A, K1, K2>(pending, K1::spec_resume(ks), K2::spec_feed(k, Chunk::Chunk(o)), f, g),
                    Action::Leftover(_, ks) => lemma_connect_fuel_mono::<O, A, K1, K2>(pending, K1::spec_resume(ks), Action::Await(k), f, g),
                }
            },
        }
    }
}

/// When some fuel connects `src` to `sink` with result `r`, the connection
/// halts and its result is `r`.
pub proof fn lemma_connect_result<O, A, K1: Resume<Void, O, ()>, K2: Resume<O, Void, A>>(
    src: Action<Void, O, K1::Out, K1::Model>,
    sink: Action<O, Void, K2::Out, K2::Model>,
    n: nat,
    r: K2::Out,
)
    requires
        connect_fuel::<O, A, K1, K2>(Seq::empty(), src, sink, n) == Some(r),
    ensures
        connect_halts::<O, A, K1, K2>(src, sink),
        connect_result::<O, A, K1, K2>(src, sink) == r,
{
    let m = choose|m: nat| #[trigger] connect_fuel::<O, A, K1, K2>(Seq::empty(), src, sink, m) is Some;
    if m <= n {
        lemma_connect_fuel_mono::<O, A, K1, K2>(Seq::empty(), src, sink, m, n);
    } else {
        lemma_connect_fuel_mono::<O, A, K1, K2>(Seq::empty(), src, sink, n, m);
    }
}

/// The views of a stack of chunks.
pub open spec fn stack_view<O>(v: Seq<Vec<O>>) -> Seq<Seq<O>> {
    v.map_values(|x: Vec<O>| x@)
}

impl<O, K1: Resume<Void, O, ()>> ConduitM<Void, O, (), K1> {
    /// Pulls data from the source and pushes it into the sink, and returns
    /// the sink's result.
    ///
    /// The sink runs; when it awaits input, it receives first the values it
    /// handed back (the latest first), then the source runs until it yields
    /// a chunk, flushes (the sink is told to flush) or finishes (the sink is
    /// told the stream ended). What the source hands back is dropped.
    pub fn connect<A, K2: Resume<O, Void, A>>(self, sink: ConduitM<O, Void, A, K2>) -> (a: A)
        requires
            self.inv(),
            sink.inv(),
            connect_halts::<O, A, K1, K2>(self@, sink@),
        ensures
            K2::out(a) == connect_result::<O, A, K1, K2>(self@, sink@),
    {
        let ghost n0 = choose|n: nat| #[trigger] connect_fuel::<O, A, K1, K2>(Seq::empty(), self@, sink@, n) is Some;
        let ghost target = connect_result::<O, A, K1, K2>(self@, sink@);
        let mut pending: Vec<Vec<O>> = Vec::new();
        let mut src = self;
        let mut snk = sink;
        let ghost mut fuel: nat = n0;
        proof {
            assert(stack_view(pending@) =~= Seq::<Seq<O>>::empty());
        }
        loop
            invariant
                src.inv(),
                snk.inv(),
                target == connect_result::<O, A, K1, K2>(self@, sink@),
                connect_fuel::<O, A, K1, K2>(stack_view(pending@), src@, snk@, fuel) == Some(target),
            decreases fuel,
        {
            let ghost st = stack_view(pending@);
            let (next_src, next_sink) = match snk {
                ConduitM::Pure(a) => {
                    return a;
                },
                ConduitM::Defer(k) => (src, k.resume()),
                ConduitM::Flush(k) => (src, k.resume()),
                ConduitM::Yield(_, k) => (src, k.resume()),
                ConduitM::Leftover(o, k) => {
                    pending.push(o);
                    proof {
                        assert(stack_view(pending@) =~= st.push(o@));
                    }
                    (src, k.resume())
                },
                ConduitM::Await(k) => {
                    if pending.len() > 0 {
                        let o = pending.pop().unwrap();
                        proof {
                            assert(stack_view(pending@) =~= st.drop_last());
                        }
                        (src, k.feed(Chunk::Chunk(o)))
                    } else {
                        match src {
                            ConduitM::Pure(x) => (ConduitM::Pure(x), k.feed(Chunk::End)),
                            ConduitM::Defer(ks) => (ks.resume(), ConduitM::Await(k)),
                            ConduitM::Flush(ks) => (ks.resume(), k.feed(Chunk::Flush)),
                            ConduitM::Await(ks) => {
                                let e: Vec<Void> = Vec::new();
                                proof {
                                    assert(e@ =~= Seq::<Void>::empty());
                                }
                                (ks.feed(Chunk::Chunk(e)), ConduitM::Await(k))
                            },
                            ConduitM::Yield(o, ks) => (ks.resume(), k.feed(Chunk::Chunk(o))),
                            ConduitM::Leftover(_, ks) => (ks.resume(), ConduitM::Await(k)),
                        }
                    }
                },
            };
            src = next_src;
            snk = next_sink;
            proof {
                fuel = (fuel - 1) as nat;
            }
        }
    }

    /// Generalizes a source to any input type: awaiting becomes deferring
    /// (the source is fed an empty chunk), and leftovers are dropped.
    pub fn to_producer<I>(self) -> (r: ConduitM<I, O, (), ToProducer<K1>>)
        requires
            self.inv(),
        ensures
            r.inv(),
            r@ == producer_step::<I, O, K1::Out, K1::Model>(self@),
    {
        producer_exec(self)
    }
}

/// The continuation of `to_producer`: resume the source, or feed it an
/// empty chunk.
pub enum ToProducer<K> {
    Resume(K),
    FeedEmpty(K),
}

/// The action of `src.to_producer()` given the action of `src`.
pub open spec fn producer_step<I, O, R, M>(c: Action<Void, O, R, M>) -> Action<I, O, R, ToProducer<M>> {
    match c {
        Action::Pure(x) => Action::Pure(x),
        Action::Defer(m) => Action::Defer(ToProducer::Resume(m)),
        Action::Flush(m) => Action::Flush(ToProducer::Resume(m)),
        Action::Await(m) => Action::Defer(ToProducer::FeedEmpty(m)),
        Action::Yield(o, m) => Action::Yield(o, ToProducer::Resume(m)),
        Action::Leftover(_, m) => Action::Defer(ToProducer::Resume(m)),
    }
}

impl<K> ToProducer<K> {
    /// The model of this continuation.
    pub open spec fn state_model<O>(&self) -> ToProducer<K::Model> where K: Resume<Void, O, ()> {
        match self {
            ToProducer::Resume(k) => ToProducer::Resume(k.model()),
            ToProducer::FeedEmpty(k) => ToProducer::FeedEmpty(k.model()),
        }
    }

    /// This continuation can be resumed.
    pub open spec fn state_inv<O>(&self) -> bool where K: Resume<Void, O, ()> {
        match self {
            ToProducer::Resume(k) => k.inv(),
            ToProducer::FeedEmpty(k) => k.inv(),
        }
    }

    /// What resuming a `ToProducer` continuation does, on models.
    pub open spec fn step_model<I, O>(m: ToProducer<K::Model>) -> Action<I, O, K::Out, ToProducer<K::Model>> where
        K: Resume<Void, O, ()>,
    {
        match m {
            ToProducer::Resume(m) => producer_step(K::spec_resume(m)),
            ToProducer::FeedEmpty(m) => producer_step(K::spec_feed(m, Chunk::Chunk(Seq::empty()))),
        }
    }
}

impl<I, O, K: Resume<Void, O, ()>> Resume<I, O, ()> for ToProducer<K> {
    type Out = K::Out;

    type Model = ToProducer<K::Model>;

    open spec fn out(a: ()) -> K::Out {
        K::out(a)
    }

    open spec fn model(&self) -> ToProducer<K::Model> {
        self.state_model::<O>()
    }

    open spec fn inv(&self) -> bool {
        self.state_inv::<O>()
    }

    open spec fn spec_resume(m: ToProducer<K::Model>) -> Action<I, O, K::Out, ToProducer<K::Model>> {
        Self::step_model(m)
    }

    open spec fn spec_feed(m: ToProducer<K::Model>, input: Chunk<Seq<I>>) -> Action<I, O, K::Out, ToProducer<K::Model>> {
        Self::step_model(m)
    }

    fn resume(self) -> (r: ConduitM<I, O, (), Self>) {
        producer_resume(self)
    }

    fn feed(self, input: Chunk<Vec<I>>) -> (r: ConduitM<I, O, (), Self>) {
        producer_resume(self)
    }
}

fn producer_resume<I, O, K: Resume<Void, O, ()>>(p: ToProducer<K>) -> (r: ConduitM<I, O, (), ToProducer<K>>)
    requires
        p.state_inv::<O>(),
    ensures
        conts_satisfy(r, |k: ToProducer<K>| k.state_inv::<O>()),
        shape(r, |a: ()| K::out(a), |k: ToProducer<K>| k.state_model::<O>()) == ToProducer::<K>::step_model::<I, O>(p.state_model::<O>()),
{
    match p {
        ToProducer::Resume(k) => producer_exec(k.resume()),
        ToProducer::FeedEmpty(k) => {
            let e: Vec<Void> = Vec::new();
            proof {
                assert(e@ =~= Seq::<Void>::empty());
            }
            producer_exec(k.feed(Chunk::Chunk(e)))
        },
    }
}

fn producer_exec<I, O, K: Resume<Void, O, ()>>(c: ConduitM<Void, O, (), K>) -> (r: ConduitM<I, O, (), ToProducer<K>>)
    requires
        c.inv(),
    ensures
        conts_satisfy(r, |k: ToProducer<K>| k.state_inv::<O>()),
        shape(r, |a: ()| K::out(a), |k: ToProducer<K>| k.state_model::<O>()) == producer_step::<I, O, K::Out, K::Model>(c@),
{
    match c {
        ConduitM::Pure(x) => ConduitM::Pure(x),
        ConduitM::Defer(k) => ConduitM::Defer(ToProducer::Resume(k)),
        ConduitM::Flush(k) => ConduitM::Flush(ToProducer::Resume(k)),
        ConduitM::Await(k) => ConduitM::Defer(ToProducer::FeedEmpty(k)),
        ConduitM::Yield(o, k) => ConduitM::Yield(o, ToProducer::Resume(k)),
        ConduitM::Leftover(_, k) => ConduitM::Defer(ToProducer::Resume(k)),
    }
}

} // verus!
