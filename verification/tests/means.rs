use protohackers::means::{encode_i32_be, Message, Outcome, PriceStore};

#[test]
fn test_message_parse() {
    let insert_payload: [u8; 9] = [0x49, 0x00, 0x00, 0x30, 0x39, 0x00, 0x00, 0x00, 0x65];
    assert_eq!(
        Message::Insert {
            timestamp: 12345,
            price: 101
        },
        Message::parse(insert_payload)
    );

    let query_payload: [u8; 9] = [0x51, 0x00, 0x00, 0x03, 0xe8, 0x00, 0x01, 0x86, 0xa0];
    assert_eq!(
        Message::Query {
            mintime: 1000,
            maxtime: 100000,
        },
        Message::parse(query_payload)
    );

    let mut invalid_payload = query_payload;
    invalid_payload[0] = b'A';

    assert_eq!(Message::Invalid, Message::parse(invalid_payload));
}

fn reply_bytes(outcome: Outcome) -> Vec<u8> {
    match outcome {
        Outcome::Reply(bytes) => bytes,
        Outcome::Silent => panic!("expected a reply, got silence"),
        Outcome::Close => panic!("expected a reply, got close"),
    }
}

fn decode(bytes: &[u8]) -> i32 {
    Message::parse_i32_from_bytes(bytes)
}

#[test]
fn parse_negative_numbers() {
    let payload: [u8; 9] = [b'I', 0xff, 0xff, 0xff, 0xff, 0x80, 0x00, 0x00, 0x00];
    assert_eq!(
        Message::Insert {
            timestamp: -1,
            price: i32::MIN
        },
        Message::parse(payload)
    );
    assert_eq!(decode(&[0x7f, 0xff, 0xff, 0xff]), i32::MAX);
    assert_eq!(decode(&[0xff, 0xff, 0xff, 0x9c]), -100);
}

#[test]
fn lowercase_kind_is_invalid() {
    let payload: [u8; 9] = [b'i', 0, 0, 0, 1, 0, 0, 0, 2];
    assert_eq!(Message::Invalid, Message::parse(payload));
}

#[test]
fn encode_matches_big_endian() {
    assert_eq!(encode_i32_be(101), vec![0, 0, 0, 0x65]);
    assert_eq!(encode_i32_be(-1), vec![0xff, 0xff, 0xff, 0xff]);
    assert_eq!(encode_i32_be(i32::MIN), vec![0x80, 0, 0, 0]);
    for v in [0, 1, -1, 12345, -98765, i32::MAX, i32::MIN] {
        assert_eq!(decode(&encode_i32_be(v)), v);
        assert_eq!(encode_i32_be(v), v.to_be_bytes().to_vec());
    }
}

#[test]
fn example_session_mean() {
    // The sample session of the protocol: three inserts, then a query.
    let mut store = PriceStore::new();
    assert!(matches!(
        store.handle(Message::Insert { timestamp: 12345, price: 101 }),
        Outcome::Silent
    ));
    assert!(matches!(
        store.handle(Message::Insert { timestamp: 12346, price: 102 }),
        Outcome::Silent
    ));
    assert!(matches!(
        store.handle(Message::Insert { timestamp: 12347, price: 100 }),
        Outcome::Silent
    ));
    assert!(matches!(
        store.handle(Message::Insert { timestamp: 40960, price: 5 }),
        Outcome::Silent
    ));
    let reply = reply_bytes(store.handle(Message::Query { mintime: 12288, maxtime: 16384 }));
    assert_eq!(reply, vec![0, 0, 0, 101]);
}

#[test]
fn query_after_insert_reads_price_back() {
    let mut store = PriceStore::new();
    store.handle(Message::Insert { timestamp: 7, price: -42 });
    let reply = reply_bytes(store.handle(Message::Query { mintime: 7, maxtime: 7 }));
    assert_eq!(decode(&reply), -42);
}

#[test]
fn later_insert_replaces_earlier_price() {
    let mut store = PriceStore::new();
    store.insert(5, 10);
    store.insert(5, 30);
    assert_eq!(store.mean(5, 5), 30);
    assert_eq!(store.mean(0, 10), 30);
}

#[test]
fn insert_outside_interval_changes_nothing() {
    let mut store = PriceStore::new();
    store.insert(10, 4);
    store.insert(20, 8);
    let before = store.mean(10, 20);
    store.insert(21, 1000);
    store.insert(9, -1000);
    assert_eq!(store.mean(10, 20), before);
    assert_eq!(before, 6);
}

#[test]
fn reversed_interval_answers_single_zero_byte() {
    let mut store = PriceStore::new();
    store.insert(1, 100);
    let reply = reply_bytes(store.handle(Message::Query { mintime: 10, maxtime: 1 }));
    assert_eq!(reply, vec![0]);
}

#[test]
fn empty_interval_answers_zero() {
    let mut store = PriceStore::new();
    store.insert(1, 100);
    let reply = reply_bytes(store.handle(Message::Query { mintime: 2, maxtime: 50 }));
    assert_eq!(reply, vec![0, 0, 0, 0]);
}

#[test]
fn mean_rounds_toward_zero() {
    let mut store = PriceStore::new();
    store.insert(1, 1);
    store.insert(2, 2);
    assert_eq!(store.mean(1, 2), 1);
    let mut store = PriceStore::new();
    store.insert(1, -1);
    store.insert(2, -2);
    assert_eq!(store.mean(1, 2), -1);
}

#[test]
fn mean_of_extreme_prices_does_not_overflow() {
    let mut store = PriceStore::new();
    store.insert(i32::MIN, i32::MAX);
    store.insert(0, i32::MAX);
    store.insert(i32::MAX, i32::MAX);
    assert_eq!(store.mean(i32::MIN, i32::MAX), i32::MAX);
    let mut store = PriceStore::new();
    store.insert(-3, i32::MIN);
    store.insert(3, i32::MIN);
    assert_eq!(store.mean(i32::MIN, i32::MAX), i32::MIN);
}

#[test]
fn invalid_message_closes_session() {
    let mut store = PriceStore::new();
    store.insert(1, 5);
    assert!(matches!(store.handle(Message::Invalid), Outcome::Close));
    assert_eq!(store.mean(1, 1), 5);
}

#[test]
fn query_does_not_change_store() {
    let mut store = PriceStore::new();
    store.insert(3, 9);
    let first = reply_bytes(store.handle(Message::Query { mintime: 0, maxtime: 5 }));
    let second = reply_bytes(store.handle(Message::Query { mintime: 0, maxtime: 5 }));
    assert_eq!(first, second);
    assert_eq!(decode(&first), 9);
}
