use plumbum::{
    after_read, after_receive, after_send, after_write, consume, consume_chunk, defer, leftover,
    leftover_chunk, produce, produce_chunk, source_iter, source_null, Chunk, Coproduct, ConduitM,
    Done, Identity, Instr, Kleisli, Resume, TakeAction, Void, WriteAction, take_action, write_action,
};

#[test]
fn chunk_map_applies_to_values_only() {
    assert!(matches!(Chunk::Chunk(2).map(|x: i32| x * 10), Chunk::Chunk(20)));
    assert!(matches!(Chunk::<i32>::Flush.map(|x: i32| x * 10), Chunk::Flush));
    assert!(matches!(Chunk::<i32>::End.map(|x: i32| x * 10), Chunk::End));
}

#[test]
fn chunk_unwrap_or_gives_values_or_alternative() {
    assert_eq!(Chunk::Chunk(3).unwrap_or(9), 3);
    assert_eq!(Chunk::Flush.unwrap_or(9), 9);
    assert_eq!(Chunk::End.unwrap_or(9), 9);
}

#[test]
fn chunk_from_value() {
    assert!(matches!(Chunk::from(vec![1, 2]), Chunk::Chunk(v) if v == vec![1, 2]));
}

#[test]
fn primitives_have_their_shapes() {
    assert!(matches!(produce::<Void, i32>(4), ConduitM::Yield(v, _) if v == vec![4]));
    assert!(matches!(produce_chunk::<Void, i32>(vec![1, 2]), ConduitM::Yield(v, _) if v == vec![1, 2]));
    assert!(matches!(leftover::<i32, Void>(4), ConduitM::Leftover(v, _) if v == vec![4]));
    assert!(matches!(leftover_chunk::<i32, Void>(vec![3]), ConduitM::Leftover(v, _) if v == vec![3]));
    assert!(matches!(defer::<Void, i32>(), ConduitM::Defer(_)));
    assert!(matches!(consume::<i32, Void>(), ConduitM::Await(_)));
    assert!(matches!(consume_chunk::<i32, Void>(), ConduitM::Await(_)));
    assert!(matches!(source_null::<Void, i32>(), ConduitM::Pure(())));
}

#[test]
fn consume_hands_back_the_rest_of_a_chunk() {
    match consume::<i32, Void>() {
        ConduitM::Await(k) => match Resume::<i32, Void, Option<i32>>::feed(k, Chunk::Chunk(vec![1, 2, 3])) {
            ConduitM::Leftover(rest, k2) => {
                assert_eq!(rest, vec![2, 3]);
                assert!(matches!(Resume::<i32, Void, Option<i32>>::resume(k2), ConduitM::Pure(Some(1))));
            }
            _ => panic!("expected leftovers"),
        },
        _ => panic!("expected await"),
    }
}

#[test]
fn consume_at_end_is_none_and_waits_on_flush() {
    match consume::<i32, Void>() {
        ConduitM::Await(k) => assert!(matches!(Resume::<i32, Void, Option<i32>>::feed(k, Chunk::End), ConduitM::Pure(None))),
        _ => panic!("expected await"),
    }
    match consume::<i32, Void>() {
        ConduitM::Await(k) => assert!(matches!(Resume::<i32, Void, Option<i32>>::feed(k, Chunk::Flush), ConduitM::Await(_))),
        _ => panic!("expected await"),
    }
    match consume::<i32, Void>() {
        ConduitM::Await(k) => assert!(matches!(Resume::<i32, Void, Option<i32>>::feed(k, Chunk::Chunk(vec![])), ConduitM::Await(_))),
        _ => panic!("expected await"),
    }
}

#[test]
fn consume_chunk_gives_the_chunk() {
    match consume_chunk::<i32, Void>() {
        ConduitM::Await(k) => match Resume::<i32, Void, Chunk<Vec<i32>>>::feed(k, Chunk::Chunk(vec![7, 8])) {
            ConduitM::Pure(Chunk::Chunk(v)) => assert_eq!(v, vec![7, 8]),
            _ => panic!("expected the chunk"),
        },
        _ => panic!("expected await"),
    }
}

#[test]
fn and_then_on_finished_conduit_runs_the_continuation() {
    let c: ConduitM<(), (), i32, Done> = ConduitM::from(20);
    let r = c.and_then(|x: i32| ConduitM::<(), (), i32, Done>::from(x + 1));
    assert!(r == ConduitM::from(21));
}

#[test]
fn map_and_zip_on_finished_conduits() {
    let c: ConduitM<(), (), i32, Done> = ConduitM::from(3);
    assert!(c.map(|x: i32| x * 2) == ConduitM::from(6));
    let a: ConduitM<(), (), i32, Done> = ConduitM::from(1);
    let b: ConduitM<(), (), i32, Done> = ConduitM::from(2);
    assert!(a.zip(b) == ConduitM::from((1, 2)));
    let a: ConduitM<(), (), i32, Done> = ConduitM::from(1);
    let b: ConduitM<(), (), i32, Done> = ConduitM::from(2);
    assert!(a.and(b) == ConduitM::from(2));
}

#[test]
fn unfinished_conduits_are_not_equal() {
    let d = defer::<(), ()>();
    assert!(!(d == ConduitM::from(())));
}

#[test]
fn kleisli_identity_runs_to_its_input() {
    let k: Kleisli<i32, (), (), i32, _> = Kleisli::new();
    assert!(k.run(5) == ConduitM::from(5));
}

#[test]
fn kleisli_appends_in_order() {
    let k: Kleisli<i32, (), (), i32, _> = Kleisli::new()
        .append(|a: i32| ConduitM::from(a + 1))
        .append(|a: i32| ConduitM::from(a * 10));
    assert!(k.run(4) == ConduitM::from(50));
}

#[test]
fn kleisli_arrow_can_produce_before_finishing() {
    let k: Kleisli<i32, Void, i32, (), _> = Kleisli::new().append(|a: i32| produce(a).and(produce(a + 1)));
    let sink = ConduitM::fold(0, |x: i32, y: i32| 10 * x + y);
    assert_eq!(k.run(3).connect(sink), 34);
}

#[test]
fn after_read_decides() {
    assert!(matches!(after_read::<&str, ()>(Err("e"), ()), ConduitM::Pure(Err("e"))));
    assert!(matches!(after_read::<&str, ()>(Ok(vec![]), ()), ConduitM::Pure(Ok(()))));
    assert!(matches!(after_read::<&str, u8>(Ok(vec![1, 2]), 5), ConduitM::Yield(v, 5) if v == vec![1, 2]));
}

#[test]
fn after_write_decides() {
    assert!(matches!(after_write::<&str, u8>(Err("e"), 1), ConduitM::Pure(Err("e"))));
    assert!(matches!(after_write::<&str, u8>(Ok(()), 1), ConduitM::Await(1)));
}

#[test]
fn after_receive_decides() {
    assert!(matches!(after_receive::<i32, (), u8>(Err(()), 1), ConduitM::Pure(())));
    assert!(matches!(after_receive::<i32, (), u8>(Ok(7), 1), ConduitM::Yield(v, 1) if v == vec![7]));
}

#[test]
fn after_send_decides() {
    assert!(matches!(after_send::<i32, u8>(Err(7), 1, 2), ConduitM::Leftover(v, 2) if v == vec![7]));
    assert!(matches!(after_send::<i32, u8>(Ok(()), 1, 2), ConduitM::Await(1)));
}

fn answer_of<I: Instr<Return = i32>>(_i: I) -> i32 {
    0
}

#[test]
fn instruction_sets_combine() {
    let left: Coproduct<Identity<i32>, Identity<i32>> = Coproduct::Left(Identity(1));
    let right: Coproduct<Identity<i32>, Identity<i32>> = Coproduct::Right(Identity(2));
    assert_eq!(answer_of(left), 0);
    assert_eq!(answer_of(right), 0);
    let Identity(x) = Identity(5);
    assert_eq!(x, 5);
}

#[test]
fn source_iter_yields_one_at_a_time() {
    match source_iter::<Void, i32>(vec![1, 2]) {
        ConduitM::Yield(v, k) => {
            assert_eq!(v, vec![1]);
            match Resume::<Void, i32, ()>::resume(k) {
                ConduitM::Yield(v, k) => {
                    assert_eq!(v, vec![2]);
                    assert!(matches!(Resume::<Void, i32, ()>::resume(k), ConduitM::Pure(())));
                }
                _ => panic!("expected the second value"),
            }
        }
        _ => panic!("expected the first value"),
    }
}

#[test]
fn write_action_decides() {
    assert!(matches!(write_action(Chunk::End), WriteAction::Finish));
    assert!(matches!(write_action(Chunk::Flush), WriteAction::Flush));
    assert!(matches!(write_action(Chunk::Chunk(vec![1, 2])), WriteAction::Write(v) if v == vec![1, 2]));
}

#[test]
fn take_action_decides() {
    let fed = |c: Chunk<Vec<i32>>| Resume::<i32, Void, Option<i32>>::feed(plumbum::Consume::Wait, c);
    assert!(matches!(take_action(fed(Chunk::End)), TakeAction::Finish));
    let took = fed(Chunk::Chunk(vec![4, 5]));
    let step = match take_action(took) {
        TakeAction::Continue(ConduitM::Leftover(v, k)) => {
            assert_eq!(v, vec![5]);
            Resume::<i32, Void, Option<i32>>::resume(k)
        }
        _ => panic!("expected the rest of the chunk handed back"),
    };
    assert!(matches!(take_action(step), TakeAction::Send(4)));
    assert!(matches!(take_action(fed(Chunk::Flush)), TakeAction::Continue(ConduitM::Await(_))));
}
