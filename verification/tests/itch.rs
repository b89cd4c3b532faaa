//! ITCH wire reads, message parsing and frame decoding.

use omer::book::service::BTreeOrderBook;
use omer::engine::{OrderCommand, OrderMatchingEngine};
use omer::error::FeedError;
use omer::events::NoOpEventSink;
use omer::itch::messages::{
    message_len, AddOrder, AddOrderMpid, DeleteOrder, ExecuteOrder, ExecuteOrderWithPrice,
    ItchMsgType, ReduceOrder, ReplaceOrder,
};
use omer::itch::stream::{
    apply_itch_payload, decode_book_message, process_itch_bytes, read_itch_header, scan_decode_book_messages,
    step_itch_frame, FrameStep,
};
use omer::itch::wire::{
    read_locate, read_oid, read_price, read_qty, read_timestamp, read_u16_be, read_u32_be,
    read_u64_be, BuySell,
};
use omer::matching::PriceCrossMatchingPolicy;
use omer::self_trade::AllowAllSelfTradePolicy;
use omer::sequence::CounterSequenceGenerator;
use omer::store::service::HashMapOrderStore;

#[test]
fn read_primitives_bounds() {
    let b = [1u8, 2, 3, 4, 5, 6, 7, 8];
    assert_eq!(read_u16_be(&b, 0).unwrap(), 0x0102);
    assert_eq!(read_u32_be(&b, 0).unwrap(), 0x01020304);
    assert_eq!(read_u64_be(&b, 0).unwrap(), 0x0102030405060708);
    assert_eq!(read_timestamp(&[0, 0, 0, 0, 0, 1][..], 0).unwrap().0, 1);
    assert!(read_u32_be(&b, 6).is_err());
    assert!(read_timestamp(&b, 3).is_err());
}

#[test]
fn buy_sell_bytes() {
    assert_eq!(BuySell::try_from(b'B').unwrap().byte(), b'B');
    assert_eq!(BuySell::try_from(b'S').unwrap().byte(), b'S');
    assert!(BuySell::try_from(0).is_err());
}

#[test]
fn read_typed_helpers() {
    let mut b = [0u8; 16];
    b[0..2].copy_from_slice(&0x0304u16.to_be_bytes());
    assert_eq!(read_locate(&b, 0).unwrap().0, 0x0304);

    b[0..8].copy_from_slice(&0x1122_3344_5566_7788u64.to_be_bytes());
    assert_eq!(read_oid(&b, 0).unwrap().0, 0x1122_3344_5566_7788);

    b[0..4].copy_from_slice(&0xdead_beefu32.to_be_bytes());
    assert_eq!(read_price(&b, 0).unwrap().0, 0xdead_beef);
    assert_eq!(read_qty(&b, 0).unwrap().0, 0xdead_beef);

    assert!(read_oid(&[0u8; 7], 0).is_err());
    assert!(read_price(&[0u8; 3], 0).is_err());
}

#[test]
fn itch_msg_type_try_from_matches_message_len_table() {
    let all = [
        ItchMsgType::Sysevent,
        ItchMsgType::StockDirectory,
        ItchMsgType::TradingAction,
        ItchMsgType::RegShoRestrict,
        ItchMsgType::MpidPosition,
        ItchMsgType::MwcbDecline,
        ItchMsgType::MwcbStatus,
        ItchMsgType::IpoQuoteUpdate,
        ItchMsgType::AddOrder,
        ItchMsgType::AddOrderMpid,
        ItchMsgType::ExecuteOrder,
        ItchMsgType::ExecuteOrderWithPrice,
        ItchMsgType::ReduceOrder,
        ItchMsgType::DeleteOrder,
        ItchMsgType::ReplaceOrder,
        ItchMsgType::Trade,
        ItchMsgType::CrossTrade,
        ItchMsgType::BrokenTrade,
        ItchMsgType::NetOrderImbalance,
        ItchMsgType::RetailPriceImprovement,
        ItchMsgType::ProcessLuldAuctionCollarMessage,
    ];
    for t in all {
        let b = t.byte();
        assert_eq!(ItchMsgType::try_from(b).unwrap().byte(), b);
        assert!(message_len(t) > 0);
    }
}

#[test]
fn unknown_message_type_rejected() {
    assert!(matches!(ItchMsgType::try_from(0x7f), Err(FeedError::InvalidMessageType(0x7f))));
}

#[test]
fn add_order_roundtrip_and_invalid_buy_sell() {
    let mut p = vec![0u8; 36];
    p[1..3].copy_from_slice(&7u16.to_be_bytes());
    p[11..19].copy_from_slice(&42u64.to_be_bytes());
    p[19] = b'B';
    p[20..24].copy_from_slice(&100u32.to_be_bytes());
    p[32..36].copy_from_slice(&50_000u32.to_be_bytes());
    let m = AddOrder::parse(&p).unwrap();
    assert_eq!(m.stock_locate.0, 7);
    assert_eq!(m.oid.0, 42);
    assert_eq!(m.qty.0, 100);
    assert_eq!(m.price.0, 50_000);
    assert!(matches!(m.buy, BuySell::Buy));

    p[19] = b'X';
    assert!(matches!(AddOrder::parse(&p), Err(FeedError::InvalidBuySell(b'X'))));

    assert!(matches!(AddOrder::parse(&p[..10]), Err(FeedError::Parse { .. })));
}

#[test]
fn add_order_mpid_requires_40_bytes() {
    let mut p = vec![0u8; 40];
    p[1..3].copy_from_slice(&1u16.to_be_bytes());
    p[11..19].copy_from_slice(&9u64.to_be_bytes());
    p[19] = b'S';
    p[20..24].copy_from_slice(&1u32.to_be_bytes());
    p[32..36].copy_from_slice(&123u32.to_be_bytes());
    assert!(AddOrderMpid::parse(&p[..39]).is_err());
    let _ = AddOrderMpid::parse(&p).unwrap();
}

#[test]
fn delete_reduce_execute_replace_short_buffer() {
    assert!(DeleteOrder::parse(&[0u8; 10]).is_err());
    assert!(ReduceOrder::parse(&[0u8; 10]).is_err());
    assert!(ExecuteOrder::parse(&[0u8; 10]).is_err());
    assert!(ExecuteOrderWithPrice::parse(&[0u8; 35]).is_err());
    assert!(ReplaceOrder::parse(&[0u8; 10]).is_err());
}

#[test]
fn execute_with_price_accepts_36_bytes() {
    let mut p = vec![0u8; 36];
    p[11..19].copy_from_slice(&99u64.to_be_bytes());
    p[19..23].copy_from_slice(&5u32.to_be_bytes());
    let m = ExecuteOrderWithPrice::parse(&p).unwrap();
    assert_eq!(m.execution.oid.0, 99);
    assert_eq!(m.execution.qty.0, 5);
}

#[test]
fn replace_order_fields() {
    let mut p = vec![0u8; 35];
    p[11..19].copy_from_slice(&1u64.to_be_bytes());
    p[19..27].copy_from_slice(&2u64.to_be_bytes());
    p[27..31].copy_from_slice(&30u32.to_be_bytes());
    p[31..35].copy_from_slice(&40_000u32.to_be_bytes());
    let m = ReplaceOrder::parse(&p).unwrap();
    assert_eq!(m.oid.0, 1);
    assert_eq!(m.new_order_id.0, 2);
    assert_eq!(m.new_qty.0, 30);
    assert_eq!(m.new_price.0, 40_000);
}

/// One ITCH AddOrder packet: len=36, type='A', payload with oid=1, buy, qty=10, price=10000, stock_locate=0.
fn one_add_order_itch_packet() -> Vec<u8> {
    let mut buf = vec![0u8; 3 + 36];
    buf[0..2].copy_from_slice(&36u16.to_be_bytes());
    buf[2] = b'A';
    buf[4..6].copy_from_slice(&0u16.to_be_bytes());
    buf[8..14].copy_from_slice(&[0u8; 6]);
    buf[14..22].copy_from_slice(&1u64.to_be_bytes());
    buf[22] = b'B';
    buf[23..27].copy_from_slice(&10u32.to_be_bytes());
    buf[35..39].copy_from_slice(&10000u32.to_be_bytes());
    buf
}

#[allow(clippy::type_complexity)]
fn engine() -> OrderMatchingEngine<
    CounterSequenceGenerator,
    BTreeOrderBook,
    HashMapOrderStore,
    PriceCrossMatchingPolicy,
    AllowAllSelfTradePolicy,
    NoOpEventSink,
> {
    OrderMatchingEngine::new(
        CounterSequenceGenerator::new(),
        BTreeOrderBook::new(),
        HashMapOrderStore::new(),
        PriceCrossMatchingPolicy,
        AllowAllSelfTradePolicy,
        NoOpEventSink,
    )
}

fn header_len_mismatch() {
    let mut bad = vec![0u8; 3];
    bad[0..2].copy_from_slice(&99u16.to_be_bytes());
    bad[2] = b'A';
    assert!(matches!(read_itch_header(&bad), Err(FeedError::Parse { .. })));
}

#[test]
fn messages_read_itch_header_rejects_len_mismatch() {
    header_len_mismatch();
}

#[test]
fn stream_read_itch_header_rejects_len_mismatch() {
    header_len_mismatch();
}

fn skips_non_book() {
    let mut buf = Vec::new();
    let stock_dir_len = message_len(ItchMsgType::StockDirectory) as usize;
    let mut sd = vec![0u8; 3 + stock_dir_len];
    sd[0..2].copy_from_slice(&(stock_dir_len as u16).to_be_bytes());
    sd[2] = b'R';
    buf.extend_from_slice(&sd);
    buf.extend_from_slice(&one_add_order_itch_packet());
    assert_eq!(scan_decode_book_messages(&buf).unwrap(), 1);
}

#[test]
fn messages_scan_decode_skips_non_book_messages() {
    skips_non_book();
}

#[test]
fn stream_scan_decode_skips_non_book_messages() {
    skips_non_book();
}

fn decode_variants(check_mpid: bool) {
    let mut add = vec![0u8; 36];
    add[1..3].copy_from_slice(&0u16.to_be_bytes());
    add[11..19].copy_from_slice(&10u64.to_be_bytes());
    add[19] = b'B';
    add[20..24].copy_from_slice(&2u32.to_be_bytes());
    add[32..36].copy_from_slice(&100u32.to_be_bytes());
    assert!(matches!(decode_book_message(ItchMsgType::AddOrder, &add).unwrap(), Some(OrderCommand::Add(_))));

    let mut del = vec![0u8; 19];
    del[11..19].copy_from_slice(&10u64.to_be_bytes());
    assert!(matches!(
        decode_book_message(ItchMsgType::DeleteOrder, &del).unwrap(),
        Some(OrderCommand::CancelByOrderId(_))
    ));

    let mut red = vec![0u8; 23];
    red[11..19].copy_from_slice(&10u64.to_be_bytes());
    red[19..23].copy_from_slice(&1u32.to_be_bytes());
    assert!(matches!(decode_book_message(ItchMsgType::ReduceOrder, &red).unwrap(), Some(OrderCommand::Reduce(_))));

    let mut ex = vec![0u8; 31];
    ex[11..19].copy_from_slice(&3u64.to_be_bytes());
    ex[19..23].copy_from_slice(&4u32.to_be_bytes());
    assert!(matches!(decode_book_message(ItchMsgType::ExecuteOrder, &ex).unwrap(), Some(OrderCommand::Execute(_))));

    let mut rep = vec![0u8; 35];
    rep[11..19].copy_from_slice(&1u64.to_be_bytes());
    rep[19..27].copy_from_slice(&2u64.to_be_bytes());
    rep[27..31].copy_from_slice(&5u32.to_be_bytes());
    rep[31..35].copy_from_slice(&200u32.to_be_bytes());
    assert!(matches!(
        decode_book_message(ItchMsgType::ReplaceOrder, &rep).unwrap(),
        Some(OrderCommand::ReplaceByNewId(_))
    ));

    if check_mpid {
        let mut mpid = vec![0u8; 40];
        mpid[19] = b'S';
        assert!(matches!(decode_book_message(ItchMsgType::AddOrderMpid, &mpid).unwrap(), Some(OrderCommand::Add(_))));
        let mut exp = vec![0u8; 36];
        exp[11..19].copy_from_slice(&3u64.to_be_bytes());
        assert!(matches!(
            decode_book_message(ItchMsgType::ExecuteOrderWithPrice, &exp).unwrap(),
            Some(OrderCommand::Execute(_))
        ));
    }

    assert!(decode_book_message(ItchMsgType::Trade, &[0u8; 44]).unwrap().is_none());
}

#[test]
fn messages_decode_book_message_variants() {
    decode_variants(true);
}

#[test]
fn stream_decode_book_message_variants() {
    decode_variants(false);
}

#[test]
fn process_itch_bytes_applies_to_engine() {
    let mut e = engine();
    let data = one_add_order_itch_packet();
    let n = process_itch_bytes(&data, &mut e).unwrap();
    assert_eq!(n, 1);
    assert_eq!(e.best_bid(), Some(10000));
    assert!(e.best_ask().is_none());
}

#[test]
fn decode_add_order_command_fields() {
    let data = one_add_order_itch_packet();
    match decode_book_message(ItchMsgType::AddOrder, &data[3..]).unwrap() {
        Some(OrderCommand::Add(c)) => {
            assert_eq!(c.id, 1);
            assert_eq!(c.quantity, 10);
            assert_eq!(c.price, Some(10000));
            assert_eq!(c.participant_id, 0);
        },
        _ => panic!("expected an add"),
    }
}

#[test]
fn scan_stops_at_truncated_frame() {
    let mut data = one_add_order_itch_packet();
    data.extend_from_slice(&one_add_order_itch_packet()[..10]);
    assert!(matches!(scan_decode_book_messages(&data), Err(FeedError::Parse { required: 39, got: 10 })));
    assert!(matches!(scan_decode_book_messages(&[0x00, 0x24, 0x7f]), Err(FeedError::InvalidMessageType(0x7f))));
    assert_eq!(scan_decode_book_messages(&[]).unwrap(), 0);
}

/// Drives the library's frame buffer over a reader as a stream consumer does: fill until
/// a header (then a whole frame) is pending, decode it, apply it, consume it.
fn drive_stream<R: std::io::Read>(mut reader: R, e: &mut Engine) -> Result<u64, omer::error::Error> {
    let mut buf = omer::itch::BufferedReader::new(1024, ());
    let mut npkts: u64 = 0;
    let mut ensure = |buf: &mut omer::itch::BufferedReader<()>, n: usize| -> bool {
        match buf.prepare(n) {
            omer::itch::Prepared::TooLarge => return false,
            omer::itch::Prepared::Ready => return true,
            omer::itch::Prepared::NeedRead => {}
        }
        while buf.available() < n {
            let mut chunk = vec![0u8; buf.room_left()];
            let got = reader.read(&mut chunk).unwrap();
            if got == 0 {
                return false;
            }
            buf.fill(&chunk[..got]);
        }
        true
    };
    loop {
        match step_itch_frame(&mut buf, e, &mut npkts)? {
            FrameStep::Applied => {}
            FrameStep::NeedHeader => {
                if !ensure(&mut buf, 3) {
                    break;
                }
            }
            FrameStep::NeedFrame(total) => assert!(ensure(&mut buf, total)),
        }
    }
    Ok(npkts)
}

type Engine = OrderMatchingEngine<
    CounterSequenceGenerator,
    BTreeOrderBook,
    HashMapOrderStore,
    PriceCrossMatchingPolicy,
    AllowAllSelfTradePolicy,
    NoOpEventSink,
>;

fn stream_applies_to_engine() {
    let mut e = engine();
    let data = one_add_order_itch_packet();
    let n = drive_stream(std::io::Cursor::new(&data), &mut e).unwrap();
    assert_eq!(n, 1);
    assert_eq!(e.best_bid(), Some(10000));
    assert!(e.best_ask().is_none());
}

fn bytes_match_stream() {
    let data = one_add_order_itch_packet();
    let mut e1 = engine();
    let mut e2 = engine();
    let n1 = drive_stream(std::io::Cursor::new(&data), &mut e1).unwrap();
    let n2 = process_itch_bytes(&data, &mut e2).unwrap();
    assert_eq!(n1, n2);
    assert_eq!(e1.best_bid(), e2.best_bid());
}

#[test]
fn messages_process_itch_stream_applies_to_engine() {
    stream_applies_to_engine();
}

#[test]
fn stream_process_itch_stream_applies_to_engine() {
    stream_applies_to_engine();
}

#[test]
fn messages_process_itch_bytes_matches_stream() {
    bytes_match_stream();
}

#[test]
fn stream_process_itch_bytes_matches_stream() {
    bytes_match_stream();
}

#[test]
fn apply_payload_counts_and_applies_book_kinds_only() {
    let mut e = engine();
    let frame = one_add_order_itch_packet();
    let mut n: u64 = 5;
    apply_itch_payload(ItchMsgType::AddOrder, &frame[3..], &mut e, &mut n).unwrap();
    assert_eq!(n, 6);
    assert_eq!(e.best_bid(), Some(10000));
    apply_itch_payload(ItchMsgType::Sysevent, &[0u8; 11], &mut e, &mut n).unwrap();
    assert_eq!(n, 6);
    let err = apply_itch_payload(ItchMsgType::DeleteOrder, &[0u8; 3], &mut e, &mut n);
    assert!(matches!(err, Err(omer::error::Error::Feed(FeedError::Parse { .. }))));
    assert_eq!(n, 7);
}

#[test]
fn frame_step_reports_what_is_missing_then_applies() {
    let mut e = engine();
    let frame = one_add_order_itch_packet();
    let mut buf = omer::itch::BufferedReader::new(64, ());
    let mut n: u64 = 0;
    assert_eq!(step_itch_frame(&mut buf, &mut e, &mut n).unwrap(), FrameStep::NeedHeader);
    buf.fill(&frame[..10]);
    assert_eq!(step_itch_frame(&mut buf, &mut e, &mut n).unwrap(), FrameStep::NeedFrame(39));
    assert_eq!(buf.available(), 10);
    buf.fill(&frame[10..]);
    buf.fill(&frame[..2]);
    assert_eq!(step_itch_frame(&mut buf, &mut e, &mut n).unwrap(), FrameStep::Applied);
    assert_eq!(n, 1);
    assert_eq!(buf.available(), 2);
    assert_eq!(e.best_bid(), Some(10000));
    assert_eq!(step_itch_frame(&mut buf, &mut e, &mut n).unwrap(), FrameStep::NeedHeader);
}

#[test]
fn frame_step_reports_a_bad_header() {
    let mut e = engine();
    let mut buf = omer::itch::BufferedReader::new(16, ());
    buf.fill(&[0, 5, b'A', 0, 0]);
    let mut n: u64 = 0;
    let r = step_itch_frame(&mut buf, &mut e, &mut n);
    assert!(matches!(r, Err(omer::error::Error::Feed(FeedError::Parse { required: 36, got: 5 }))));
    assert_eq!(buf.available(), 5);
    assert_eq!(n, 0);
}

#[test]
fn feed_stops_at_a_bad_frame_after_applying_the_ones_before() {
    let mut data = one_add_order_itch_packet();
    data.extend_from_slice(&[0, 4, b'Z', 0, 0, 0, 0]);
    let mut e = engine();
    let r = process_itch_bytes(&data, &mut e);
    assert!(matches!(r, Err(omer::error::Error::Feed(FeedError::InvalidMessageType(b'Z')))));
    assert_eq!(e.best_bid(), Some(10000));
}

#[test]
fn prepare_refuses_oversize_and_compacts_when_room_is_short() {
    let mut buf = omer::itch::BufferedReader::new(8, ());
    assert_eq!(buf.prepare(9), omer::itch::Prepared::TooLarge);
    buf.fill(&[1, 2, 3, 4, 5, 6]);
    assert_eq!(buf.prepare(6), omer::itch::Prepared::Ready);
    buf.advance(5);
    assert_eq!(buf.prepare(4), omer::itch::Prepared::NeedRead);
    assert_eq!(buf.consumed_len(), 0);
    assert_eq!(buf.get(0), &[6]);
    assert!(buf.room_left() >= 3);
}
