use vstd::prelude::*;
use crate::chunk::Chunk;
use crate::conduit::{
    Action, ConduitM, Resume, arrow_apply, conts_satisfy, pure_apply, pure_arrow, pure_fn, shape,
};

verus! {

// ---------------------------------------------------------------- and_then

enum AndThenState<K1, F, K2> {
    First(K1, F),
    Second(K2),
}

/// The continuation of `c.and_then(f)`: runs `c`, then the conduit that `f`
/// builds from its result.
pub struct AndThen<A, K1, F, K2> {
    state: AndThenState<K1, F, K2>,
    result: core::marker::PhantomData<A>,
}

/// The model of an `AndThen` continuation.
pub enum AndThenModel<M1, F, M2> {
    First(M1, F),
    Second(M2),
}

/// The action of the second conduit of a sequence, as an action of the sequence.
pub open spec fn second<I, O, R, M1, F, M2>(c: Action<I, O, R, M2>) -> Action<I, O, R, AndThenModel<M1, F, M2>> {
    match c {
        Action::Pure(r) => Action::Pure(r),
        Action::Defer(m) => Action::Defer(AndThenModel::Second(m)),
        Action::Flush(m) => Action::Flush(AndThenModel::Second(m)),
        Action::Await(m) => Action::Await(AndThenModel::Second(m)),
        Action::Yield(o, m) => Action::Yield(o, AndThenModel::Second(m)),
        Action::Leftover(i, m) => Action::Leftover(i, AndThenModel::Second(m)),
    }
}

/// The action of `c.and_then(f)` given the action of `c`: once `c` has
/// finished, the conduit that `f` builds from its result; until then, what
/// `c` does.
pub open spec fn bind_step<I, O, A, B, K1: Resume<I, O, A>, K2: Resume<I, O, B>, F: FnOnce(A) -> ConduitM<I, O, B, K2>>(
    c: Action<I, O, K1::Out, K1::Model>,
    f: F,
) -> Action<I, O, K2::Out, AndThenModel<K1::Model, F, K2::Model>> {
    match c {
        Action::Pure(e) => second(arrow_apply(f, |a: A| K1::out(a), e)),
        Action::Defer(m) => Action::Defer(AndThenModel::First(m, f)),
        Action::Flush(m) => Action::Flush(AndThenModel::First(m, f)),
        Action::Await(m) => Action::Await(AndThenModel::First(m, f)),
        Action::Yield(o, m) => Action::Yield(o, AndThenModel::First(m, f)),
        Action::Leftover(i, m) => Action::Leftover(i, AndThenModel::First(m, f)),
    }
}

impl<A, K1, F, K2> AndThen<A, K1, F, K2> {
    /// The model of this continuation.
    pub closed spec fn state_model<I, O, B>(&self) -> AndThenModel<K1::Model, F, K2::Model> where
        K1: Resume<I, O, A>,
        K2: Resume<I, O, B>,
    {
        match self.state {
            AndThenState::First(k, f) => AndThenModel::First(k.model(), f),
            AndThenState::Second(k) => AndThenModel::Second(k.model()),
        }
    }

    /// This continuation can be resumed.
    pub closed spec fn state_inv<I, O, B>(&self) -> bool where
        K1: Resume<I, O, A>,
        K2: Resume<I, O, B>,
        F: FnOnce(A) -> ConduitM<I, O, B, K2>,
    {
        match self.state {
            AndThenState::First(k, f) => k.inv() && pure_arrow(f, |a: A| K1::out(a)),
            AndThenState::Second(k) => k.inv(),
        }
    }
}

impl<I, O, A, B, K1, F, K2> Resume<I, O, B> for AndThen<A, K1, F, K2> where
    K1: Resume<I, O, A>,
    K2: Resume<I, O, B>,
    F: FnOnce(A) -> ConduitM<I, O, B, K2>,
 {
    type Out = K2::Out;

    type Model = AndThenModel<K1::Model, F, K2::Model>;

    open spec fn out(b: B) -> K2::Out {
        K2::out(b)
    }

    open spec fn model(&self) -> Self::Model {
        self.state_model::<I, O, B>()
    }

    open spec fn inv(&self) -> bool {
        self.state_inv::<I, O, B>()
    }

    open spec fn spec_resume(m: Self::Model) -> Action<I, O, K2::Out, Self::Model> {
        match m {
            AndThenModel::First(m1, f) => bind_step::<I, O, A, B, K1, K2, F>(K1::spec_resume(m1), f),
            AndThenModel::Second(m2) => second(K2::spec_resume(m2)),
        }
    }

    open spec fn spec_feed(m: Self::Model, input: Chunk<Seq<I>>) -> Action<I, O, K2::Out, Self::Model> {
        match m {
            AndThenModel::First(m1, f) => bind_step::<I, O, A, B, K1, K2, F>(K1::spec_feed(m1, input), f),
            AndThenModel::Second(m2) => second(K2::spec_feed(m2, input)),
        }
    }

    fn resume(self) -> (r: ConduitM<I, O, B, Self>) {
        match self.state {
            AndThenState::First(k, f) => bind(k.resume(), f),
            AndThenState::Second(k) => into_second(k.resume()),
        }
    }

    fn feed(self, input: Chunk<Vec<I>>) -> (r: ConduitM<I, O, B, Self>) {
        match self.state {
            AndThenState::First(k, f) => bind(k.feed(input), f),
            AndThenState::Second(k) => into_second(k.feed(input)),
        }
    }
}

fn into_second<I, O, A, B, K1, F, K2>(c: ConduitM<I, O, B, K2>) -> (r: ConduitM<I, O, B, AndThen<A, K1, F, K2>>) where
    K1: Resume<I, O, A>,
    K2: Resume<I, O, B>,
    F: FnOnce(A) -> ConduitM<I, O, B, K2>,
    requires
        c.inv(),
    ensures
        conts_satisfy(r, |k: AndThen<A, K1, F, K2>| k.state_inv::<I, O, B>()),
        shape(r, |b: B| K2::out(b), |k: AndThen<A, K1, F, K2>| k.state_model::<I, O, B>())
            == second::<I, O, K2::Out, K1::Model, F, K2::Model>(c@),
{
    let w = |k: K2| -> (r: AndThen<A, K1, F, K2>)
        ensures
            r.state == AndThenState::<K1, F, K2>::Second(k),
        { AndThen { state: AndThenState::Second(k), result: core::marker::PhantomData } };
    match c {
        ConduitM::Pure(b) => ConduitM::Pure(b),
        ConduitM::Defer(k) => ConduitM::Defer(w(k)),
        ConduitM::Flush(k) => ConduitM::Flush(w(k)),
        ConduitM::Await(k) => ConduitM::Await(w(k)),
        ConduitM::Yield(o, k) => ConduitM::Yield(o, w(k)),
        ConduitM::Leftover(i, k) => ConduitM::Leftover(i, w(k)),
    }
}

fn bind<I, O, A, B, K1, F, K2>(c: ConduitM<I, O, A, K1>, f: F) -> (r: ConduitM<I, O, B, AndThen<A, K1, F, K2>>) where
    K1: Resume<I, O, A>,
    K2: Resume<I, O, B>,
    F: FnOnce(A) -> ConduitM<I, O, B, K2>,
    requires
        c.inv(),
        pure_arrow(f, |a: A| K1::out(a)),
    ensures
        conts_satisfy(r, |k: AndThen<A, K1, F, K2>| k.state_inv::<I, O, B>()),
        shape(r, |b: B| K2::out(b), |k: AndThen<A, K1, F, K2>| k.state_model::<I, O, B>())
            == bind_step::<I, O, A, B, K1, K2, F>(c@, f),
{
    let w = |k: K1, f: F| -> (r: AndThen<A, K1, F, K2>)
        ensures
            r.state == AndThenState::<K1, F, K2>::First(k, f),
        { AndThen { state: AndThenState::First(k, f), result: core::marker::PhantomData } };
    match c {
        ConduitM::Pure(a) => {
            let c = f(a);
            into_second(c)
        },
        ConduitM::Defer(k) => ConduitM::Defer(w(k, f)),
        ConduitM::Flush(k) => ConduitM::Flush(w(k, f)),
        ConduitM::Await(k) => ConduitM::Await(w(k, f)),
        ConduitM::Yield(o, k) => ConduitM::Yield(o, w(k, f)),
        ConduitM::Leftover(i, k) => ConduitM::Leftover(i, w(k, f)),
    }
}

// ---------------------------------------------------------------- and

enum ThenState<I, O, B, K1, K2> {
    First(K1, ConduitM<I, O, B, K2>),
    Second(K2),
}

/// The continuation of `c.and(d)`: runs `c`, then `d`.
pub struct Then<I, O, A, B, K1, K2> {
    state: ThenState<I, O, B, K1, K2>,
    result: core::marker::PhantomData<A>,
}

/// The model of a `Then` continuation; the second conduit is held by its view.
pub enum ThenModel<M1, C, M2> {
    First(M1, C),
    Second(M2),
}

/// The action of the second conduit of `c.and(d)`, as an action of the whole.
pub open spec fn then_second<I, O, R, M1, C, M2>(c: Action<I, O, R, M2>) -> Action<I, O, R, ThenModel<M1, C, M2>> {
    match c {
        Action::Pure(r) => Action::Pure(r),
        Action::Defer(m) => Action::Defer(ThenModel::Second(m)),
        Action::Flush(m) => Action::Flush(ThenModel::Second(m)),
        Action::Await(m) => Action::Await(ThenModel::Second(m)),
        Action::Yield(o, m) => Action::Yield(o, ThenModel::Second(m)),
        Action::Leftover(i, m) => Action::Leftover(i, ThenModel::Second(m)),
    }
}

/// The action of `c.and(d)` given the actions of `c` and `d`.
pub open spec fn then_step<I, O, R1, R2, M1, M2>(
    c: Action<I, O, R1, M1>,
    d: Action<I, O, R2, M2>,
) -> Action<I, O, R2, ThenModel<M1, Action<I, O, R2, M2>, M2>> {
    match c {
        Action::Pure(_) => then_second(d),
        Action::Defer(m) => Action::Defer(ThenModel::First(m, d)),
        Action::Flush(m) => Action::Flush(ThenModel::First(m, d)),
        Action::Await(m) => Action::Await(ThenModel::First(m, d)),
        Action::Yield(o, m) => Action::Yield(o, ThenModel::First(m, d)),
        Action::Leftover(i, m) => Action::Leftover(i, ThenModel::First(m, d)),
    }
}

impl<I, O, A, B, K1, K2> Then<I, O, A, B, K1, K2> {
    /// The model of this continuation.
    pub closed spec fn state_model(&self) -> ThenModel<K1::Model, Action<I, O, K2::Out, K2::Model>, K2::Model> where
        K1: Resume<I, O, A>,
        K2: Resume<I, O, B>,
    {
        match self.state {
            ThenState::First(k, d) => ThenModel::First(k.model(), d@),
            ThenState::Second(k) => ThenModel::Second(k.model()),
        }
    }

    /// This continuation can be resumed.
    pub closed spec fn state_inv(&self) -> bool where
        K1: Resume<I, O, A>,
        K2: Resume<I, O, B>,
    {
        match self.state {
            ThenState::First(k, d) => k.inv() && d.inv(),
            ThenState::Second(k) => k.inv(),
        }
    }
}

impl<I, O, A, B, K1, K2> Resume<I, O, B> for Then<I, O, A, B, K1, K2> where
    K1: Resume<I, O, A>,
    K2: Resume<I, O, B>,
 {
    type Out = K2::Out;

    type Model = ThenModel<K1::Model, Action<I, O, K2::Out, K2::Model>, K2::Model>;

    open spec fn out(b: B) -> K2::Out {
        K2::out(b)
    }

    open spec fn model(&self) -> Self::Model {
        self.state_model()
    }

    open spec fn inv(&self) -> bool {
        self.state_inv()
    }

    open spec fn spec_resume(m: Self::Model) -> Action<I, O, K2::Out, Self::Model> {
        match m {
            ThenModel::First(m1, d) => then_step(K1::spec_resume(m1), d),
            ThenModel::Second(m2) => then_second(K2::spec_resume(m2)),
        }
    }

    open spec fn spec_feed(m: Self::Model, input: Chunk<Seq<I>>) -> Action<I, O, K2::Out, Self::Model> {
        match m {
            ThenModel::First(m1, d) => then_step(K1::spec_feed(m1, input), d),
            ThenModel::Second(m2) => then_second(K2::spec_feed(m2, input)),
        }
    }

    fn resume(self) -> (r: ConduitM<I, O, B, Self>) {
        match self.state {
            ThenState::First(k, d) => then_exec(k.resume(), d),
            ThenState::Second(k) => into_then_second(k.resume()),
        }
    }

    fn feed(self, input: Chunk<Vec<I>>) -> (r: ConduitM<I, O, B, Self>) {
        match self.state {
            ThenState::First(k, d) => then_exec(k.feed(input), d),
            ThenState::Second(k) => into_then_second(k.feed(input)),
        }
    }
}

fn into_then_second<I, O, A, B, K1, K2>(c: ConduitM<I, O, B, K2>) -> (r: ConduitM<I, O, B, Then<I, O, A, B, K1, K2>>) where
    K1: Resume<I, O, A>,
    K2: Resume<I, O, B>,
    requires
        c.inv(),
    ensures
        conts_satisfy(r, |k: Then<I, O, A, B, K1, K2>| k.state_inv()),
        shape(r, |b: B| K2::out(b), |k: Then<I, O, A, B, K1, K2>| k.state_model())
            == then_second::<I, O, K2::Out, K1::Model, Action<I, O, K2::Out, K2::Model>, K2::Model>(c@),
{
    let w = |k: K2| -> (r: Then<I, O, A, B, K1, K2>)
        ensures
            r.state == ThenState::<I, O, B, K1, K2>::Second(k),
        { Then { state: ThenState::Second(k), result: core::marker::PhantomData } };
    match c {
        ConduitM::Pure(b) => ConduitM::Pure(b),
        ConduitM::Defer(k) => ConduitM::Defer(w(k)),
        ConduitM::Flush(k) => ConduitM::Flush(w(k)),
        ConduitM::Await(k) => ConduitM::Await(w(k)),
        ConduitM::Yield(o, k) => ConduitM::Yield(o, w(k)),
        ConduitM::Leftover(i, k) => ConduitM::Leftover(i, w(k)),
    }
}

fn then_exec<I, O, A, B, K1, K2>(c: ConduitM<I, O, A, K1>, d: ConduitM<I, O, B, K2>) -> (r: ConduitM<I, O, B, Then<I, O, A, B, K1, K2>>) where
    K1: Resume<I, O, A>,
    K2: Resume<I, O, B>,
    requires
        c.inv(),
        d.inv(),
    ensures
        conts_satisfy(r, |k: Then<I, O, A, B, K1, K2>| k.state_inv()),
        shape(r, |b: B| K2::out(b), |k: Then<I, O, A, B, K1, K2>| k.state_model()) == then_step(c@, d@),
{
    let w = |k: K1, d: ConduitM<I, O, B, K2>| -> (r: Then<I, O, A, B, K1, K2>)
        ensures
            r.state == ThenState::<I, O, B, K1, K2>::First(k, d),
        { Then { state: ThenState::First(k, d), result: core::marker::PhantomData } };
    match c {
        ConduitM::Pure(_) => into_then_second(d),
        ConduitM::Defer(k) => ConduitM::Defer(w(k, d)),
        ConduitM::Flush(k) => ConduitM::Flush(w(k, d)),
        ConduitM::Await(k) => ConduitM::Await(w(k, d)),
        ConduitM::Yield(o, k) => ConduitM::Yield(o, w(k, d)),
        ConduitM::Leftover(i, k) => ConduitM::Leftover(i, w(k, d)),
    }
}

// ---------------------------------------------------------------- zip

enum ZipState<I, O, A, B, K1, K2> {
    First(K1, ConduitM<I, O, B, K2>),
    Second(A, K2),
}

/// The continuation of `c.zip(d)`: runs `c`, then `d`, and finishes with both results.
pub struct Zip<I, O, A, B, K1, K2> {
    state: ZipState<I, O, A, B, K1, K2>,
}

/// The model of a `Zip` continuation.
pub enum ZipModel<M1, C, R1, M2> {
    First(M1, C),
    Second(R1, M2),
}

/// The action of `d` in `c.zip(d)` once `c` has finished with (the model) `e`.
pub open spec fn zip_second<I, O, R1, R2, M1, C, M2>(e: R1, d: Action<I, O, R2, M2>) -> Action<I, O, (R1, R2), ZipModel<M1, C, R1, M2>> {
    match d {
        Action::Pure(r) => Action::Pure((e, r)),
        Action::Defer(m) => Action::Defer(ZipModel::Second(e, m)),
        Action::Flush(m) => Action::Flush(ZipModel::Second(e, m)),
        Action::Await(m) => Action::Await(ZipModel::Second(e, m)),
        Action::Yield(o, m) => Action::Yield(o, ZipModel::Second(e, m)),
        Action::Leftover(i, m) => Action::Leftover(i, ZipModel::Second(e, m)),
    }
}

/// The action of `c.zip(d)` given the actions of `c` and `d`.
pub open spec fn zip_step<I, O, R1, R2, M1, M2>(
    c: Action<I, O, R1, M1>,
    d: Action<I, O, R2, M2>,
) -> Action<I, O, (R1, R2), ZipModel<M1, Action<I, O, R2, M2>, R1, M2>> {
    match c {
        Action::Pure(e) => zip_second(e, d),
        Action::Defer(m) => Action::Defer(ZipModel::First(m, d)),
        Action::Flush(m) => Action::Flush(ZipModel::First(m, d)),
        Action::Await(m) => Action::Await(ZipModel::First(m, d)),
        Action::Yield(o, m) => Action::Yield(o, ZipModel::First(m, d)),
        Action::Leftover(i, m) => Action::Leftover(i, ZipModel::First(m, d)),
    }
}

impl<I, O, A, B, K1, K2> Zip<I, O, A, B, K1, K2> {
    /// The model of this continuation.
    pub closed spec fn state_model(&self) -> ZipModel<K1::Model, Action<I, O, K2::Out, K2::Model>, K1::Out, K2::Model> where
        K1: Resume<I, O, A>,
        K2: Resume<I, O, B>,
    {
        match self.state {
            ZipState::First(k, d) => ZipModel::First(k.model(), d@),
            ZipState::Second(a, k) => ZipModel::Second(K1::out(a), k.model()),
        }
    }

    /// This continuation can be resumed.
    pub closed spec fn state_inv(&self) -> bool where
        K1: Resume<I, O, A>,
        K2: Resume<I, O, B>,
    {
        match self.state {
            ZipState::First(k, d) => k.inv() && d.inv(),
            ZipState::Second(_, k) => k.inv(),
        }
    }
}

impl<I, O, A, B, K1, K2> Resume<I, O, (A, B)> for Zip<I, O, A, B, K1, K2> where
    K1: Resume<I, O, A>,
    K2: Resume<I, O, B>,
 {
    type Out = (K1::Out, K2::Out);

    type Model = ZipModel<K1::Model, Action<I, O, K2::Out, K2::Model>, K1::Out, K2::Model>;

    open spec fn out(ab: (A, B)) -> (K1::Out, K2::Out) {
        (K1::out(ab.0), K2::out(ab.1))
    }

    open spec fn model(&self) -> Self::Model {
        self.state_model()
    }

    open spec fn inv(&self) -> bool {
        self.state_inv()
    }

    open spec fn spec_resume(m: Self::Model) -> Action<I, O, (K1::Out, K2::Out), Self::Model> {
        match m {
            ZipModel::First(m1, d) => zip_step(K1::spec_resume(m1), d),
            ZipModel::Second(e, m2) => zip_second(e, K2::spec_resume(m2)),
        }
    }

    open spec fn spec_feed(m: Self::Model, input: Chunk<Seq<I>>) -> Action<I, O, (K1::Out, K2::Out), Self::Model> {
        match m {
            ZipModel::First(m1, d) => zip_step(K1::spec_feed(m1, input), d),
            ZipModel::Second(e, m2) => zip_second(e, K2::spec_feed(m2, input)),
        }
    }

    fn resume(self) -> (r: ConduitM<I, O, (A, B), Self>) {
        match self.state {
            ZipState::First(k, d) => zip_exec(k.resume(), d),
            ZipState::Second(a, k) => into_zip_second(a, k.resume()),
        }
    }

    fn feed(self, input: Chunk<Vec<I>>) -> (r: ConduitM<I, O, (A, B), Self>) {
        match self.state {
            ZipState::First(k, d) => zip_exec(k.feed(input), d),
            ZipState::Second(a, k) => into_zip_second(a, k.feed(input)),
        }
    }
}

fn into_zip_second<I, O, A, B, K1, K2>(a: A, c: ConduitM<I, O, B, K2>) -> (r: ConduitM<I, O, (A, B), Zip<I, O, A, B, K1, K2>>) where
    K1: Resume<I, O, A>,
    K2: Resume<I, O, B>,
    requires
        c.inv(),
    ensures
        conts_satisfy(r, |k: Zip<I, O, A, B, K1, K2>| k.state_inv()),
        shape(r, |ab: (A, B)| (K1::out(ab.0), K2::out(ab.1)), |k: Zip<I, O, A, B, K1, K2>| k.state_model())
            == zip_second::<I, O, K1::Out, K2::Out, K1::Model, Action<I, O, K2::Out, K2::Model>, K2::Model>(K1::out(a), c@),
{
    let w = |a: A, k: K2| -> (r: Zip<I, O, A, B, K1, K2>)
        ensures
            r.state == ZipState::<I, O, A, B, K1, K2>::Second(a, k),
        { Zip { state: ZipState::Second(a, k) } };
    match c {
        ConduitM::Pure(b) => ConduitM::Pure((a, b)),
        ConduitM::Defer(k) => ConduitM::Defer(w(a, k)),
        ConduitM::Flush(k) => ConduitM::Flush(w(a, k)),
        ConduitM::Await(k) => ConduitM::Await(w(a, k)),
        ConduitM::Yield(o, k) => ConduitM::Yield(o, w(a, k)),
        ConduitM::Leftover(i, k) => ConduitM::Leftover(i, w(a, k)),
    }
}

fn zip_exec<I, O, A, B, K1, K2>(c: ConduitM<I, O, A, K1>, d: ConduitM<I, O, B, K2>) -> (r: ConduitM<I, O, (A, B), Zip<I, O, A, B, K1, K2>>) where
    K1: Resume<I, O, A>,
    K2: Resume<I, O, B>,
    requires
        c.inv(),
        d.inv(),
    ensures
        conts_satisfy(r, |k: Zip<I, O, A, B, K1, K2>| k.state_inv()),
        shape(r, |ab: (A, B)| (K1::out(ab.0), K2::out(ab.1)), |k: Zip<I, O, A, B, K1, K2>| k.state_model())
            == zip_step(c@, d@),
{
    let w = |k: K1, d: ConduitM<I, O, B, K2>| -> (r: Zip<I, O, A, B, K1, K2>)
        ensures
            r.state == ZipState::<I, O, A, B, K1, K2>::First(k, d),
        { Zip { state: ZipState::First(k, d) } };
    match c {
        ConduitM::Pure(a) => into_zip_second(a, d),
        ConduitM::Defer(k) => ConduitM::Defer(w(k, d)),
        ConduitM::Flush(k) => ConduitM::Flush(w(k, d)),
        ConduitM::Await(k) => ConduitM::Await(w(k, d)),
        ConduitM::Yield(o, k) => ConduitM::Yield(o, w(k, d)),
        ConduitM::Leftover(i, k) => ConduitM::Leftover(i, w(k, d)),
    }
}

// ---------------------------------------------------------------- map

/// The continuation of `c.map(f)`: runs `c` and applies `f` to its result.
pub struct MapResult<A, K, F> {
    inner: K,
    f: F,
    result: core::marker::PhantomData<A>,
}

/// The action of `c.map(f)` given the action of `c`.
pub open spec fn map_step<I, O, A, B, K: Resume<I, O, A>, F: FnOnce(A) -> B>(
    c: Action<I, O, K::Out, K::Model>,
    f: F,
) -> Action<I, O, B, (K::Model, F)> {
    match c {
        Action::Pure(e) => Action::Pure(pure_apply(f, |a: A| K::out(a), e)),
        Action::Defer(m) => Action::Defer((m, f)),
        Action::Flush(m) => Action::Flush((m, f)),
        Action::Await(m) => Action::Await((m, f)),
        Action::Yield(o, m) => Action::Yield(o, (m, f)),
        Action::Leftover(i, m) => Action::Leftover(i, (m, f)),
    }
}

impl<A, K, F> MapResult<A, K, F> {
    /// The model of this continuation.
    pub closed spec fn state_model<I, O>(&self) -> (K::Model, F) where K: Resume<I, O, A> {
        (self.inner.model(), self.f)
    }

    /// This continuation can be resumed.
    pub closed spec fn state_inv<I, O, B>(&self) -> bool where K: Resume<I, O, A>, F: FnOnce(A) -> B {
        self.inner.inv() && pure_fn(self.f, |a: A| K::out(a))
    }
}

impl<I, O, A, B, K, F> Resume<I, O, B> for MapResult<A, K, F> where
    K: Resume<I, O, A>,
    F: FnOnce(A) -> B,
 {
    type Out = B;

    type Model = (K::Model, F);

    open spec fn out(b: B) -> B {
        b
    }

    open spec fn model(&self) -> Self::Model {
        self.state_model::<I, O>()
    }

    open spec fn inv(&self) -> bool {
        self.state_inv::<I, O, B>()
    }

    open spec fn spec_resume(m: Self::Model) -> Action<I, O, B, Self::Model> {
        map_step::<I, O, A, B, K, F>(K::spec_resume(m.0), m.1)
    }

    open spec fn spec_feed(m: Self::Model, input: Chunk<Seq<I>>) -> Action<I, O, B, Self::Model> {
        map_step::<I, O, A, B, K, F>(K::spec_feed(m.0, input), m.1)
    }

    fn resume(self) -> (r: ConduitM<I, O, B, Self>) {
        map_exec(self.inner.resume(), self.f)
    }

    fn feed(self, input: Chunk<Vec<I>>) -> (r: ConduitM<I, O, B, Self>) {
        map_exec(self.inner.feed(input), self.f)
    }
}

fn map_exec<I, O, A, B, K, F>(c: ConduitM<I, O, A, K>, f: F) -> (r: ConduitM<I, O, B, MapResult<A, K, F>>) where
    K: Resume<I, O, A>,
    F: FnOnce(A) -> B,
    requires
        c.inv(),
        pure_fn(f, |a: A| K::out(a)),
    ensures
        conts_satisfy(r, |k: MapResult<A, K, F>| k.state_inv::<I, O, B>()),
        shape(r, |b: B| b, |k: MapResult<A, K, F>| k.state_model::<I, O>()) == map_step::<I, O, A, B, K, F>(c@, f),
{
    let w = |k: K, f: F| -> (r: MapResult<A, K, F>)
        ensures
            r.inner == k,
            r.f == f,
        { MapResult { inner: k, f, result: core::marker::PhantomData } };
    match c {
        ConduitM::Pure(a) => ConduitM::Pure(f(a)),
        ConduitM::Defer(k) => ConduitM::Defer(w(k, f)),
        ConduitM::Flush(k) => ConduitM::Flush(w(k, f)),
        ConduitM::Await(k) => ConduitM::Await(w(k, f)),
        ConduitM::Yield(o, k) => ConduitM::Yield(o, w(k, f)),
        ConduitM::Leftover(i, k) => ConduitM::Leftover(i, w(k, f)),
    }
}

// ---------------------------------------------------------------- methods

impl<I, O, A, K1: Resume<I, O, A>> ConduitM<I, O, A, K1> {
    /// Appends a continuation: once this conduit finishes with `a`, runs the
    /// conduit `f(a)`.
    pub fn and_then<B, F, K2>(self, f: F) -> (r: ConduitM<I, O, B, AndThen<A, K1, F, K2>>) where
        K2: Resume<I, O, B>,
        F: FnOnce(A) -> ConduitM<I, O, B, K2>,
        requires
            self.inv(),
            pure_arrow(f, |a: A| K1::out(a)),
        ensures
            r.inv(),
            r@ == bind_step::<I, O, A, B, K1, K2, F>(self@, f),
    {
        bind(self, f)
    }

    /// Runs this conduit and then `other`, and finishes with the result of `other`.
    pub fn and<B, K2: Resume<I, O, B>>(self, other: ConduitM<I, O, B, K2>) -> (r: ConduitM<I, O, B, Then<I, O, A, B, K1, K2>>)
        requires
            self.inv(),
            other.inv(),
        ensures
            r.inv(),
            r@ == then_step(self@, other@),
    {
        then_exec(self, other)
    }

    /// Runs this conduit and then `other`, and finishes with both results.
    pub fn zip<B, K2: Resume<I, O, B>>(self, other: ConduitM<I, O, B, K2>) -> (r: ConduitM<I, O, (A, B), Zip<I, O, A, B, K1, K2>>)
        requires
            self.inv(),
            other.inv(),
        ensures
            r.inv(),
            r@ == zip_step(self@, other@),
    {
        zip_exec(self, other)
    }

    /// Applies `f` to the result of this conduit.
    pub fn map<B, F: FnOnce(A) -> B>(self, f: F) -> (r: ConduitM<I, O, B, MapResult<A, K1, F>>)
        requires
            self.inv(),
            pure_fn(f, |a: A| K1::out(a)),
        ensures
            r.inv(),
            r@ == map_step::<I, O, A, B, K1, F>(self@, f),
    {
        map_exec(self, f)
    }
}

} // verus!
