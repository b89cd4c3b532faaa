//! The gateway's routing, the load generator, the event byte codec and channel sink, the
//! ITCH frame buffer and the engine builder, on concrete values.

use std::collections::VecDeque;

use crossbeam_channel::bounded;
use omer::book::service::BTreeOrderBook;
use omer::distributed_wire::{WireCommand, WireParseError, validate_frame_len};
use omer::engine::{AddOrderCommand, CancelByOrderIdCommand, OrderCommand, OrderMatchingService, builder};
use omer::error::RejectionError;
use omer::events::bytes_channel::{ChannelRefusal, EventCodec, sink_answer};
use omer::events::{BytesChannelEventSink, Event, EventSink, EventSinkError, NoOpEventSink};
use omer::gateway::{WorkerCmd, cancel_target, route_worker, worker_command};
use omer::itch::BufferedReader;
use omer::matching::PriceCrossMatchingPolicy;
use omer::parallel::best_quote;
use omer::self_trade::AllowAllSelfTradePolicy;
use omer::sequence::CounterSequenceGenerator;
use omer::store::service::HashMapOrderStore;
use omer::types::{OrderType, Side, TimeInForce, Trade};
use omer::workload::{bump_next_id, pick_cancel_target, take_cancel_target, workload_frame_deterministic};
use omer::book::PriceBook;
use rand::SeedableRng;
use rand::rngs::SmallRng;

fn add(id: u64, symbol_id: u32) -> AddOrderCommand {
    AddOrderCommand {
        id,
        participant_id: 1,
        symbol_id,
        side: Side::Buy,
        order_type: OrderType::Limit,
        price: Some(10),
        quantity: 1,
        time_in_force: TimeInForce::Gtc,
        stop_price: None,
        max_visible_quantity: None,
        slippage: None,
        trailing_distance: None,
        trailing_step: None,
    }
}

#[test]
fn route_worker_maps_instruments_from_one() {
    assert_eq!(route_worker(1, 4), Ok(0));
    assert_eq!(route_worker(4, 4), Ok(3));
    assert_eq!(route_worker(0, 4), Err(WireParseError::InvalidInstrument));
    assert_eq!(route_worker(5, 4), Err(WireParseError::InvalidInstrument));
}

#[test]
fn worker_applies_only_its_own_commands() {
    let ok = worker_command(2, WorkerCmd::Add { instrument_id: 2, add: add(7, 2) });
    assert!(matches!(ok, Some(OrderCommand::Add(a)) if a.id == 7));
    assert!(worker_command(2, WorkerCmd::Add { instrument_id: 2, add: add(7, 3) }).is_none());
    assert!(worker_command(3, WorkerCmd::Add { instrument_id: 2, add: add(7, 3) }).is_none());
    let cancel = CancelByOrderIdCommand { order_id: 9 };
    assert!(matches!(
        worker_command(1, WorkerCmd::CancelById { instrument_id: 1, cancel }),
        Some(OrderCommand::CancelByOrderId(c)) if c.order_id == 9
    ));
    assert!(worker_command(2, WorkerCmd::CancelById { instrument_id: 1, cancel }).is_none());
}

#[test]
fn cancel_goes_to_the_holding_worker_only() {
    assert_eq!(cancel_target(1, Some(1)), Some(1));
    assert_eq!(cancel_target(1, Some(2)), None);
    assert_eq!(cancel_target(1, None), None);
}

#[test]
fn next_ids_wrap_into_the_workers_range() {
    let mut next = 5u64;
    assert_eq!(bump_next_id(&mut next, 3), 5);
    assert_eq!(next, 6);
    let mut next = u64::MAX;
    assert_eq!(bump_next_id(&mut next, 3), u64::MAX);
    assert_eq!(next, 0);
    assert_eq!(bump_next_id(&mut next, 3), 0);
    assert_eq!(next, 3_000_000_002);
}

#[test]
fn deterministic_frame_follows_the_mix() {
    let mut cancel = None;
    let frame = workload_frame_deterministic(5, 40, 3, 6, &mut cancel);
    assert_eq!(
        frame.commands,
        vec![
            WireCommand::Add { id: 40, participant_id: 100, instrument_id: 2, side: Side::Buy, price: 140, quantity: 1 },
            WireCommand::CancelById { order_id: 40, instrument_id: 3 },
            WireCommand::CancelById { order_id: 40, instrument_id: 1 },
            WireCommand::Add { id: 43, participant_id: 101, instrument_id: 2, side: Side::Sell, price: 250, quantity: 5 },
            WireCommand::Market { id: 44, participant_id: 102, instrument_id: 3, side: Side::Buy, quantity: 5 },
            WireCommand::Add { id: 45, participant_id: 100, instrument_id: 1, side: Side::Buy, price: 145, quantity: 1 },
        ]
    );
    assert_eq!(cancel, Some(45));
}

#[test]
fn cancel_pick_takes_an_open_order_off_its_list() {
    let mut rng = SmallRng::seed_from_u64(7);
    let mut open: Vec<VecDeque<u64>> = vec![VecDeque::new(), VecDeque::from(vec![11, 12]), VecDeque::new()];
    let (instrument, id) = pick_cancel_target(&mut rng, &mut open).unwrap();
    assert_eq!(instrument, 2);
    assert!(id == 11 || id == 12);
    assert_eq!(open[1].len(), 1);
    assert!(!open[1].contains(&id));
    let (_, other) = pick_cancel_target(&mut rng, &mut open).unwrap();
    assert_ne!(other, id);
    assert!(pick_cancel_target(&mut rng, &mut open).is_none());
    assert!(open.iter().all(|q| q.is_empty()));
}

#[test]
fn cancel_target_draws_select_list_and_position() {
    let mut open: Vec<VecDeque<u64>> =
        vec![VecDeque::from(vec![5]), VecDeque::new(), VecDeque::from(vec![7, 8, 9])];
    assert_eq!(take_cancel_target(&mut open, 1, 1), Some((3, 8)));
    assert_eq!(open[2], VecDeque::from(vec![7, 9]));
    assert_eq!(take_cancel_target(&mut open, 2, 0), None);
    assert_eq!(take_cancel_target(&mut open, 0, 1), None);
    assert_eq!(open.iter().map(|q| q.len()).sum::<usize>(), 3);
    assert_eq!(take_cancel_target(&mut open, 0, 0), Some((1, 5)));
    assert!(open[0].is_empty());
    assert_eq!(take_cancel_target(&mut open, 0, 0), Some((3, 7)));
}

#[test]
fn frame_length_limits() {
    assert_eq!(validate_frame_len(0), Err(WireParseError::InvalidBatch));
    assert_eq!(validate_frame_len(1), Ok(()));
    assert_eq!(validate_frame_len(1024), Ok(()));
    assert_eq!(validate_frame_len(1025), Err(WireParseError::BatchTooLarge));
}

#[test]
fn event_codec_bytes() {
    let codec = EventCodec;
    assert_eq!(codec.encode(&Event::Accepted(258)).unwrap(), vec![1, 2, 1, 0, 0, 0, 0, 0, 0]);
    assert_eq!(codec.encode(&Event::Canceled(1)).unwrap(), vec![2, 1, 0, 0, 0, 0, 0, 0, 0]);
    assert_eq!(codec.encode(&Event::Rejected(RejectionError::InsufficientLiquidity)).unwrap(), vec![3, 8]);
    let trade = Trade { aggressor: 1, resting: 2, price: -1, quantity: 3, sequence: 4 };
    let bytes = codec.encode(&Event::Trade(trade)).unwrap();
    assert_eq!(bytes.len(), 41);
    assert_eq!(bytes[0], 4);
    assert_eq!(&bytes[17..25], &[0xff; 8]);
    assert_eq!(bytes[25], 3);
    assert_eq!(bytes[33], 4);
}

#[test]
fn channel_sink_answers() {
    assert!(sink_answer(Ok(())).is_ok());
    assert!(matches!(sink_answer(Err(ChannelRefusal::Full)), Err(EventSinkError::Backpressure)));
    assert!(matches!(sink_answer(Err(ChannelRefusal::Disconnected)), Err(EventSinkError::Disconnected)));
    let (tx, rx) = bounded(1);
    let sink = BytesChannelEventSink::new(tx);
    assert!(sink.emit(Event::Accepted(5)).is_ok());
    assert!(matches!(sink.emit(Event::Accepted(6)), Err(EventSinkError::Backpressure)));
    assert_eq!(rx.recv().unwrap(), vec![1, 5, 0, 0, 0, 0, 0, 0, 0]);
    drop(rx);
    assert!(matches!(sink.emit(Event::Accepted(7)), Err(EventSinkError::Disconnected)));
}

#[test]
fn buffered_reader_fills_consumes_and_compacts() {
    let mut buf = BufferedReader::new(8, ());
    assert_eq!(buf.capacity_len(), 8);
    assert_eq!(buf.room_left(), 8);
    buf.fill(&[1, 2, 3, 4, 5]);
    assert_eq!(buf.available(), 5);
    assert!(buf.available_n(5));
    assert!(!buf.available_n(6));
    assert_eq!(buf.get(1), &[2, 3, 4, 5]);
    buf.advance(3);
    assert_eq!(buf.consumed_len(), 3);
    assert_eq!(buf.get(0), &[4, 5]);
    buf.discard_to_pos();
    assert_eq!(buf.consumed_len(), 0);
    assert_eq!(buf.room_left(), 6);
    assert_eq!(buf.get(0), &[4, 5]);
    assert!(!buf.read_needs_room());
}

#[test]
fn best_quote_reads_both_sides() {
    let mut book = BTreeOrderBook::new();
    assert_eq!(best_quote(&book), (None, None));
    book.push(&10, 1, Side::Buy, 1);
    book.push(&20, 2, Side::Sell, 2);
    book.push(&12, 3, Side::Buy, 3);
    assert_eq!(best_quote(&book), (Some(12), Some(20)));
}

#[test]
fn builder_wires_every_component() {
    let mut e = builder()
        .with_sequence_generator(CounterSequenceGenerator::new())
        .with_price_book(BTreeOrderBook::new())
        .with_order_store(HashMapOrderStore::new())
        .with_matching_policy(PriceCrossMatchingPolicy)
        .with_self_trade_policy(AllowAllSelfTradePolicy)
        .with_event_sink(NoOpEventSink)
        .build();
    e.process(OrderCommand::Add(add(1, 1))).unwrap();
    assert_eq!(e.best_bid(), Some(10));
}
