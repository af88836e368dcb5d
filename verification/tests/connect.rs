use plumbum::{consume, defer, leftover, produce, source_iter, source_null, ConduitM, Void};

#[test]
fn connect_fold_sums_the_source() {
    let src = source_iter::<Void, i32>(vec![42, 43]);
    let sink = ConduitM::fold(0, |x: i32, y: i32| x + y);
    assert_eq!(src.connect(sink), 85);
}

#[test]
fn connect_fold_of_empty_source_is_the_start_value() {
    let src = source_iter::<Void, i32>(vec![]);
    let sink = ConduitM::fold(7, |x: i32, y: i32| x + y);
    assert_eq!(src.connect(sink), 7);
}

#[test]
fn connect_fold_keeps_the_order() {
    let src = source_iter::<Void, i32>(vec![1, 2, 3]);
    let sink = ConduitM::fold(0, |x: i32, y: i32| 10 * x + y);
    assert_eq!(src.connect(sink), 123);
}

#[test]
fn fuse_with_transform_then_fold() {
    let src = source_iter::<Void, i32>(vec![42, 43]);
    let conduit = ConduitM::transform(|x: i32| 1 + x);
    let sink = ConduitM::fold(0, |x: i32, y: i32| x + y);
    assert_eq!(src.fuse(conduit).connect(sink), 87);
}

#[test]
fn fuse_two_transforms_then_fold() {
    let src = source_iter::<Void, i32>(vec![42, 43])
        .fuse(ConduitM::transform(|x: i32| 1 + x))
        .fuse(ConduitM::transform(|x: i32| 2 * x));
    let sink = ConduitM::fold(0, |x: i32, y: i32| x + y);
    assert_eq!(src.connect(sink), 174);
}

#[test]
fn fuse_transform_into_sink() {
    let src = source_iter::<Void, i32>(vec![42, 43]);
    let sink = ConduitM::transform(|x: i32| 1 + x).fuse(ConduitM::fold(0, |x: i32, y: i32| x + y));
    assert_eq!(src.connect(sink), 87);
}

#[test]
fn sequenced_source_and_consumes() {
    let src = produce::<Void, i32>(42).and(produce(43)).and(source_null());
    let sink = consume::<i32, Void>().and_then(|x: Option<i32>| {
        consume().and_then(move |y: Option<i32>| ConduitM::from(x.unwrap_or(0) + y.unwrap_or(0)))
    });
    assert_eq!(src.connect(sink), 85);
}

#[test]
fn consume_takes_the_first_value() {
    let src = source_iter::<Void, i32>(vec![1, 2, 3]);
    assert_eq!(src.connect(consume()), Some(1));
}

#[test]
fn consume_of_empty_source_is_none() {
    let src = source_iter::<Void, i32>(vec![]);
    assert_eq!(src.connect(consume()), None);
}

#[test]
fn consume_twice_takes_two_values() {
    let src = source_iter::<Void, i32>(vec![1, 2, 3]);
    assert_eq!(src.connect(consume().zip(consume())), (Some(1), Some(2)));
}

#[test]
fn consume_after_end_stays_none() {
    let src = source_iter::<Void, i32>(vec![1]);
    assert_eq!(src.connect(consume().zip(consume()).zip(consume())), ((Some(1), None), None));
}

#[test]
fn consume_none_stays_none_after_flushes_and_empty_chunks() {
    let src = ConduitM::<Void, i32, (), plumbum::Ret<()>>::Flush(plumbum::Ret { value: () })
        .and(plumbum::produce_chunk::<Void, i32>(vec![]));
    assert_eq!(src.connect(consume().zip(consume())), (None, None));
}

#[test]
fn leftover_is_consumed_next() {
    let src = source_iter::<Void, i32>(vec![5, 6]);
    assert_eq!(src.connect(leftover(9).and(consume())), Some(9));
}

#[test]
fn leftover_then_consume_twice_reads_upstream_after() {
    let src = source_iter::<Void, i32>(vec![5, 6]);
    assert_eq!(src.connect(leftover(9).and(consume().zip(consume()))), (Some(9), Some(5)));
}

#[test]
fn deferred_source_is_connected() {
    let src = defer::<Void, i32>().and(produce(1)).and(produce(2));
    let sink = ConduitM::fold(0, |x: i32, y: i32| x + y);
    assert_eq!(src.connect(sink), 3);
}

#[test]
fn sink_result_can_be_mapped() {
    let src = source_iter::<Void, i32>(vec![1, 2, 3]);
    let sink = ConduitM::fold(0, |x: i32, y: i32| x + y).map(|s: i32| s * 2);
    assert_eq!(src.connect(sink), 12);
}

#[test]
fn sink_generalized_with_to_consumer() {
    let src = source_iter::<Void, i32>(vec![4, 5]);
    let sink = ConduitM::fold(0, |x: i32, y: i32| x + y).to_consumer::<Void>();
    assert_eq!(src.connect(sink), 9);
}

#[test]
fn source_generalized_with_to_producer() {
    let src = source_iter::<Void, i32>(vec![4, 5]).to_producer::<Void>();
    let sink = ConduitM::fold(0, |x: i32, y: i32| x + y);
    assert_eq!(src.connect(sink), 9);
}

#[test]
fn fusion_order_does_not_matter_without_flushes() {
    let left = source_iter::<Void, i32>(vec![1, 2, 3])
        .fuse(ConduitM::transform(|x: i32| x * 3))
        .connect(ConduitM::fold(0, |a: i32, b: i32| 10 * a + b));
    let right = source_iter::<Void, i32>(vec![1, 2, 3])
        .connect(ConduitM::transform(|x: i32| x * 3).fuse(ConduitM::fold(0, |a: i32, b: i32| 10 * a + b)));
    assert_eq!(left, 369);
    assert_eq!(right, 369);
}

#[test]
fn a_flush_from_the_source_reaches_the_sink_only_through_the_fused_source() {
    let flushing = || ConduitM::<Void, i32, (), plumbum::Ret<()>>::Flush(plumbum::Ret { value: () });
    let through_source = flushing()
        .fuse(ConduitM::transform(|x: i32| x))
        .connect(plumbum::consume_chunk());
    assert!(matches!(through_source, plumbum::Chunk::Flush));
    let through_sink = flushing().connect(ConduitM::transform(|x: i32| x).fuse(plumbum::consume_chunk()));
    assert!(matches!(through_sink, plumbum::Chunk::End));
}

#[test]
fn fusion_order_does_not_matter_for_a_sink_that_ignores_flushes() {
    let flushing_then_seven = || {
        ConduitM::<Void, i32, (), plumbum::Ret<()>>::Flush(plumbum::Ret { value: () })
            .and(produce::<Void, i32>(7))
    };
    let through_source = flushing_then_seven()
        .fuse(ConduitM::transform(|x: i32| x + 1))
        .connect(ConduitM::fold(0, |x: i32, y: i32| x + y));
    let through_sink = flushing_then_seven()
        .connect(ConduitM::transform(|x: i32| x + 1).fuse(ConduitM::fold(0, |x: i32, y: i32| x + y)));
    assert_eq!(through_source, 8);
    assert_eq!(through_sink, 8);
    let first_through_source = flushing_then_seven()
        .fuse(ConduitM::transform(|x: i32| x * 3))
        .connect(consume());
    let first_through_sink = flushing_then_seven().connect(ConduitM::transform(|x: i32| x * 3).fuse(consume()));
    assert_eq!(first_through_source, Some(21));
    assert_eq!(first_through_sink, Some(21));
}

#[test]
fn generalized_source_below_an_upstream_ignores_the_upstream() {
    let upstream = source_iter::<Void, i32>(vec![9, 9, 9]);
    let fused = upstream.fuse(source_iter::<Void, i32>(vec![1, 2]).to_producer::<i32>());
    assert_eq!(fused.connect(ConduitM::fold(0, |x: i32, y: i32| 10 * x + y)), 12);
    let upstream = source_iter::<Void, i32>(vec![9]);
    let fused = upstream.fuse(source_null::<Void, i32>().to_producer::<i32>());
    assert_eq!(fused.connect(consume()), None);
}

#[test]
fn connect_result_depends_only_on_the_values() {
    let chunked = || {
        plumbum::produce_chunk::<Void, i32>(vec![1, 2, 3])
            .and(plumbum::produce_chunk::<Void, i32>(vec![]))
            .and(ConduitM::<Void, i32, (), plumbum::Ret<()>>::Flush(plumbum::Ret { value: () }))
            .and(defer::<Void, i32>())
            .and(plumbum::produce_chunk::<Void, i32>(vec![4]))
    };
    let sink = || consume::<i32, Void>().and(consume()).zip(ConduitM::fold(0, |x: i32, y: i32| 10 * x + y));
    let by_chunks = chunked().connect(sink());
    let one_by_one = source_iter::<Void, i32>(vec![1, 2, 3, 4]).connect(sink());
    assert_eq!(by_chunks, (Some(2), 34));
    assert_eq!(one_by_one, (Some(2), 34));
}

#[test]
fn transform_feeds_every_value_mapped_to_any_sink() {
    let sink = || consume::<i32, Void>().zip(ConduitM::fold(0, |x: i32, y: i32| 10 * x + y));
    let through = plumbum::produce_chunk::<Void, i32>(vec![1, 2])
        .and(plumbum::produce_chunk::<Void, i32>(vec![3]))
        .fuse(ConduitM::transform(|x: i32| x * 2))
        .connect(sink());
    let direct = source_iter::<Void, i32>(vec![2, 4, 6]).connect(sink());
    assert_eq!(through, (Some(2), 46));
    assert_eq!(direct, (Some(2), 46));
}

#[test]
fn defer_in_front_of_a_sink_changes_nothing() {
    let src = || source_iter::<Void, i32>(vec![3, 4]);
    let deferred = src().connect(defer::<i32, Void>().and(ConduitM::fold(0, |x: i32, y: i32| 10 * x + y)));
    let direct = src().connect(ConduitM::fold(0, |x: i32, y: i32| 10 * x + y));
    assert_eq!(deferred, 34);
    assert_eq!(direct, 34);
    assert_eq!(src().connect(defer::<i32, Void>().and(consume())), Some(3));
}

#[test]
fn finished_sink_followed_by_a_fold() {
    let src = source_iter::<Void, i32>(vec![1, 2]);
    let sink = ConduitM::<i32, Void, i32, plumbum::Done>::from(5)
        .and_then(|z: i32| ConduitM::fold(z, |x: i32, y: i32| x + y));
    assert_eq!(src.connect(sink), 8);
}

#[test]
fn consume_then_fold_the_rest() {
    let src = source_iter::<Void, i32>(vec![1, 2, 3]);
    let sink = consume::<i32, Void>().and_then(|first: Option<i32>| {
        ConduitM::fold(first.unwrap_or(0) * 100, |x: i32, y: i32| x + y)
    });
    assert_eq!(src.connect(sink), 105);
}

#[test]
fn extend_iter_produces_after_the_conduit() {
    let src = produce::<Void, i32>(1).extend_iter(vec![2, 3]);
    let sink = ConduitM::fold(0, |x: i32, y: i32| 10 * x + y);
    assert_eq!(src.connect(sink), 123);
}

#[test]
fn extend_iter_of_an_empty_source_is_the_values() {
    let src = source_null::<Void, i32>().extend_iter(vec![4, 5]);
    let sink = ConduitM::fold(0, |x: i32, y: i32| 10 * x + y);
    assert_eq!(src.connect(sink), 45);
}

#[test]
fn extend_iter_keeps_the_result() {
    let c: ConduitM<(), i32, u8, plumbum::Done> = ConduitM::from(7u8);
    match c.extend_iter(vec![]) {
        ConduitM::Pure(r) => assert_eq!(r, 7),
        _ => panic!("expected the result"),
    }
}

#[test]
fn and_is_associative_on_an_example() {
    let left = source_iter::<Void, i32>(vec![1, 2, 3])
        .connect(consume().and(consume()).and(consume().zip(consume())));
    let right = source_iter::<Void, i32>(vec![1, 2, 3])
        .connect(consume().and(consume().and(consume().zip(consume()))));
    assert_eq!(left, (Some(3), None));
    assert_eq!(right, (Some(3), None));
}

#[test]
fn finished_conduit_and_sink_gives_the_sink_result() {
    let src = source_iter::<Void, i32>(vec![2, 3]);
    let sink = ConduitM::<i32, Void, u8, plumbum::Done>::from(9u8).and(ConduitM::fold(1, |x: i32, y: i32| x * y));
    assert_eq!(src.connect(sink), 6);
}

#[test]
fn finished_conduit_zipped_with_sink_pairs_the_results() {
    let src = source_iter::<Void, i32>(vec![2, 3]);
    let sink = ConduitM::<i32, Void, u8, plumbum::Done>::from(9u8).zip(ConduitM::fold(1, |x: i32, y: i32| x * y));
    assert_eq!(src.connect(sink), (9, 6));
}
