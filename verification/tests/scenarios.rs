//! End-to-end data flows over the codec and framing, as a parent and a
//! worker process would run them over a socket pair.

use sunwalker_invoker::codec::{Deserializer, Object, Serializer};
use sunwalker_invoker::errors::Error;
use sunwalker_invoker::subprocess::join_outcome;
use sunwalker_invoker::wire::{split_into_packets, MessageAssembler, RecvStep};

/// Ship one value through the full pipeline: serialize, partition into
/// packets, reassemble, deserialize.
fn ship<T: Object>(v: &T) -> T {
    let mut s = Serializer::new();
    s.serialize(v);
    let fds = s.drain_fds();
    let bytes = s.into_vec();
    let mut collector = MessageAssembler::new();
    let mut result = None;
    for packet in split_into_packets(&bytes, &fds) {
        let mut data = Vec::new();
        data.push(if packet.last { 1u8 } else { 0u8 });
        data.extend_from_slice(&packet.payload);
        match collector.push_packet(&data, &packet.fds).unwrap() {
            RecvStep::NeedMore => {}
            RecvStep::Complete(bytes, fds) => {
                let mut d = Deserializer::from(bytes, fds);
                result = Some(d.deserialize::<T>().unwrap());
            }
            RecvStep::EndOfStream => panic!("unexpected end of stream"),
        }
    }
    result.expect("the message never completed")
}

#[test]
fn worker_returns_a_constant() {
    // A worker that computes a fixed value; the parent joins and observes
    // exactly that value.
    let computed: i64 = 0x123456789abcdef;
    let shipped = ship(&computed);
    assert_eq!(join_outcome::<i64>(true, Some(shipped)).ok(), Some(0x123456789abcdef));
}

#[test]
fn worker_adds_bound_arguments() {
    // The parent binds (5, 7); the worker receives the pair and returns
    // the sum.
    let args = ship(&(5i32, 7i32));
    let sum = args.0 + args.1;
    assert_eq!(join_outcome::<i32>(true, Some(ship(&sum))).ok(), Some(12));
}

#[test]
fn worker_reads_two_values_and_returns_difference() {
    // The parent sends 5 then 7 on a channel; the worker reads both and
    // returns their difference.
    let a: i32 = ship(&5);
    let b: i32 = ship(&7);
    assert_eq!(join_outcome::<i32>(true, Some(ship(&(a - b)))).ok(), Some(-2));
}

#[test]
fn duplex_worker_responds_in_order() {
    // The parent sends three pairs on a duplex; the worker answers each
    // with the difference, in order.
    let requests = [(5i32, 7i32), (100, -1), (53, 2354)];
    let mut responses = Vec::new();
    for req in requests {
        let got = ship(&req);
        responses.push(ship(&(got.0 - got.1)));
    }
    assert_eq!(responses, vec![-2, 101, -2301]);
}

#[test]
fn crashed_worker_yields_child_failed() {
    // A worker that panicked exits nonzero; the parent's join reports the
    // failure whatever arrived on the output channel.
    match join_outcome::<i32>(false, None) {
        Err(Error::ChildFailed(_)) => {}
        _ => panic!("expected child-failed"),
    }
}
