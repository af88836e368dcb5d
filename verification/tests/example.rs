use plumbum::{defer, produce, Chunk, ConduitM, Consume, Resume, Void};

/// Gets adjacent pairs from upstream: takes two values, yields them as a
/// pair, hands the second one back, and starts again.
enum Pairs {
    First(Consume<i32>),
    Second(i32, Consume<i32>),
    Back(i32),
    Again,
}

fn step(c: ConduitM<i32, String, Option<i32>, Consume<i32>>, first: Option<i32>) -> ConduitM<i32, String, (), Pairs> {
    let wrap = |k: Consume<i32>| match first {
        None => Pairs::First(k),
        Some(i1) => Pairs::Second(i1, k),
    };
    match c {
        ConduitM::Pure(None) => ConduitM::Pure(()),
        ConduitM::Pure(Some(i)) => match first {
            None => ConduitM::Await(Pairs::Second(i, Consume::Wait)),
            Some(i1) => ConduitM::Yield(vec![format!("({},{})", i1, i)], Pairs::Back(i)),
        },
        ConduitM::Defer(k) => ConduitM::Defer(wrap(k)),
        ConduitM::Flush(k) => ConduitM::Flush(wrap(k)),
        ConduitM::Await(k) => ConduitM::Await(wrap(k)),
        ConduitM::Yield(_, k) => ConduitM::Defer(wrap(k)),
        ConduitM::Leftover(v, k) => ConduitM::Leftover(v, wrap(k)),
    }
}

impl Resume<i32, String, ()> for Pairs {
    type Out = ();
    type Model = ();

    fn resume(self) -> ConduitM<i32, String, (), Self> {
        match self {
            Pairs::First(k) => step(Resume::<i32, String, Option<i32>>::resume(k), None),
            Pairs::Second(i1, k) => step(Resume::<i32, String, Option<i32>>::resume(k), Some(i1)),
            Pairs::Back(i2) => ConduitM::Leftover(vec![i2], Pairs::Again),
            Pairs::Again => ConduitM::Await(Pairs::First(Consume::Wait)),
        }
    }

    fn feed(self, input: Chunk<Vec<i32>>) -> ConduitM<i32, String, (), Self> {
        match self {
            Pairs::First(k) => step(Resume::<i32, String, Option<i32>>::feed(k, input), None),
            Pairs::Second(i1, k) => step(Resume::<i32, String, Option<i32>>::feed(k, input), Some(i1)),
            other => other.resume(),
        }
    }
}

#[test]
fn adjacent_pairs_example() {
    let source = defer::<Void, i32>().and(produce(1)).and(produce(2)).and(produce(3)).and(produce(4));
    let conduit = ConduitM::Await(Pairs::First(Consume::Wait));
    let sink = ConduitM::fold(String::new(), |acc: String, s: String| format!("{}{}:", acc, s))
        .map(|acc: String| format!("{}...", acc));
    let res = source.fuse(conduit).connect(sink);
    assert_eq!(res, "(1,2):(2,3):(3,4):...");
}
