//! The line protocol: parsing, encoding and routing.

use omer::distributed_wire::{
    encode_frame, parse_frame, RoutedCommand, WireCommand, WireFrame, WireParseError,
};
use omer::types::{OrderType, Side, TimeInForce};

#[test]
fn parse_single_add_roundtrip() {
    let frame = parse_frame("ADD 10 20 2 B 101 5").expect("parse");
    assert_eq!(
        frame,
        WireFrame {
            commands: vec![WireCommand::Add {
                id: 10,
                participant_id: 20,
                instrument_id: 2,
                side: Side::Buy,
                price: 101,
                quantity: 5
            }]
        }
    );
    let line = encode_frame(&frame).expect("encode");
    assert_eq!(line, "ADD 10 20 2 B 101 5\n");
}

#[test]
fn parse_batch_frame() {
    let frame = parse_frame("BATCH ADD 1 2 1 B 100 1|CANCELID 1 1").expect("parse");
    assert_eq!(frame.commands.len(), 2);
}

#[test]
fn reject_zero_instrument() {
    let err = parse_frame("ADD 1 2 0 B 100 1").expect_err("must fail");
    assert_eq!(err, WireParseError::InvalidInstrument);
}

#[test]
fn parse_errors_by_kind() {
    assert_eq!(parse_frame("   ").unwrap_err(), WireParseError::Empty);
    assert_eq!(parse_frame("HELLO 1 2").unwrap_err(), WireParseError::Unknown);
    assert_eq!(parse_frame("ADD 1 2 3 B 100").unwrap_err(), WireParseError::Unknown);
    assert_eq!(parse_frame("ADD x 2 3 B 100 1").unwrap_err(), WireParseError::InvalidNumber);
    assert_eq!(parse_frame("ADD 1 2 3 X 100 1").unwrap_err(), WireParseError::InvalidSide);
    assert_eq!(parse_frame("ADD 1 2 4294967296 B 100 1").unwrap_err(), WireParseError::InvalidNumber);
    assert_eq!(parse_frame("BATCH ADD 1 2 1 B 100 1|").unwrap_err(), WireParseError::InvalidBatch);
    assert_eq!(parse_frame("CANCELID 5 0").unwrap_err(), WireParseError::InvalidInstrument);
    let too_many = vec!["CANCELID 1 1"; 1025].join("|");
    assert_eq!(
        parse_frame(&format!("BATCH {too_many}")).unwrap_err(),
        WireParseError::BatchTooLarge
    );
}

#[test]
fn parse_numbers_signs_and_side_words() {
    let frame = parse_frame("  MARKET +7 8 9 SELL -3\t").unwrap();
    assert_eq!(
        frame.commands,
        vec![WireCommand::Market { id: 7, participant_id: 8, instrument_id: 9, side: Side::Sell, quantity: -3 }]
    );
    let frame = parse_frame("ADD 1 2 3 BUY -9223372036854775808 9223372036854775807").unwrap();
    assert_eq!(
        frame.commands,
        vec![WireCommand::Add {
            id: 1,
            participant_id: 2,
            instrument_id: 3,
            side: Side::Buy,
            price: i64::MIN,
            quantity: i64::MAX
        }]
    );
    assert_eq!(
        parse_frame("ADD 1 2 3 B 9223372036854775808 1").unwrap_err(),
        WireParseError::InvalidNumber
    );
    assert_eq!(parse_frame("ADD -1 2 3 B 1 1").unwrap_err(), WireParseError::InvalidNumber);
}

#[test]
fn encode_batch_and_limits() {
    let frame = WireFrame {
        commands: vec![
            WireCommand::Add { id: 1, participant_id: 2, instrument_id: 1, side: Side::Sell, price: -5, quantity: 1 },
            WireCommand::CancelById { order_id: 1, instrument_id: 1 },
        ],
    };
    let line = encode_frame(&frame).unwrap();
    assert_eq!(line, "BATCH ADD 1 2 1 S -5 1|CANCELID 1 1\n");
    assert_eq!(parse_frame(&line).unwrap(), frame);
    assert_eq!(encode_frame(&WireFrame { commands: vec![] }).unwrap_err(), WireParseError::InvalidBatch);
    let big = WireFrame { commands: vec![WireCommand::CancelById { order_id: 1, instrument_id: 1 }; 1025] };
    assert_eq!(encode_frame(&big).unwrap_err(), WireParseError::BatchTooLarge);
}

#[test]
fn into_routed_maps_to_engine_commands() {
    match (WireCommand::Market { id: 3, participant_id: 4, instrument_id: 5, side: Side::Buy, quantity: 6 }).into_routed() {
        RoutedCommand::Add { instrument_id, add } => {
            assert_eq!(instrument_id, 5);
            assert_eq!(add.id, 3);
            assert_eq!(add.symbol_id, 5);
            assert_eq!(add.order_type, OrderType::Market);
            assert_eq!(add.price, None);
            assert_eq!(add.time_in_force, TimeInForce::Ioc);
        },
        RoutedCommand::CancelById { .. } => panic!("expected an add"),
    }
    match (WireCommand::CancelById { order_id: 9, instrument_id: 2 }).into_routed() {
        RoutedCommand::CancelById { instrument_id, cancel } => {
            assert_eq!(instrument_id, 2);
            assert_eq!(cancel.order_id, 9);
        },
        RoutedCommand::Add { .. } => panic!("expected a cancel"),
    }
    assert_eq!(WireParseError::BatchTooLarge.to_string(), "batch_too_large");
}
