use vstd::prelude::*;
use std::collections::BTreeMap;
use std::ops::Bound::Included;
use vstd::arithmetic::div_mod::lemma_fundamental_div_mod;

verus! {

/// The unsigned value of four bytes read most significant first.
pub open spec fn be_u32(b: Seq<u8>) -> int {
    b[0] * 0x100_0000 + b[1] * 0x1_0000 + b[2] * 0x100 + b[3]
}

/// The two's-complement value of four bytes read most significant first.
pub open spec fn be_i32(b: Seq<u8>) -> int {
    if be_u32(b) >= 0x8000_0000 {
        be_u32(b) - 0x1_0000_0000
    } else {
        be_u32(b)
    }
}

/// A request of the price protocol, decoded from a nine-byte frame.
#[derive(Debug, PartialEq, Eq, Structural)]
pub enum Message {
    Insert { timestamp: i32, price: i32 },
    Query { mintime: i32, maxtime: i32 },
    Invalid,
}

/// The message that a nine-byte frame encodes: its first byte selects the
/// kind (`I` or `Q`), the next two groups of four bytes are big-endian
/// signed integers.
pub open spec fn spec_parse(payload: Seq<u8>) -> Message {
    let first = be_i32(payload.subrange(1, 5));
    let second = be_i32(payload.subrange(5, 9));
    if payload[0] == 0x49u8 {
        Message::Insert { timestamp: first as i32, price: second as i32 }
    } else if payload[0] == 0x51u8 {
        Message::Query { mintime: first as i32, maxtime: second as i32 }
    } else {
        Message::Invalid
    }
}

impl Message {
    /// Decodes one frame of the protocol.
    pub fn parse(payload: [u8; 9]) -> (msg: Message)
        ensures
            msg == spec_parse(payload@),
    {
        if payload[0] == 0x49u8 {
            Message::Insert {
                timestamp: Self::parse_i32_from_bytes(&payload[1..5]),
                price: Self::parse_i32_from_bytes(&payload[5..9]),
            }
        } else if payload[0] == 0x51u8 {
            Message::Query {
                mintime: Self::parse_i32_from_bytes(&payload[1..5]),
                maxtime: Self::parse_i32_from_bytes(&payload[5..9]),
            }
        } else {
            Message::Invalid
        }
    }

    /// Reads a big-endian signed 32-bit integer from exactly four bytes.
    pub fn parse_i32_from_bytes(bytes: &[u8]) -> (v: i32)
        requires
            bytes@.len() == 4,
        ensures
            v == be_i32(bytes@),
    {
        let unsigned: i64 = (bytes[0] as i64) * 0x100_0000 + (bytes[1] as i64) * 0x1_0000
            + (bytes[2] as i64) * 0x100 + (bytes[3] as i64);
        if unsigned >= 0x8000_0000 {
            (unsigned - 0x1_0000_0000) as i32
        } else {
            unsigned as i32
        }
    }
}

/// The prices stored under timestamps `lo..=hi`, in increasing order of
/// timestamp.
pub open spec fn prices_between(m: Map<i32, i32>, lo: int, hi: int) -> Seq<i32>
    decreases hi - lo + 1,
{
    if lo > hi {
        Seq::empty()
    } else {
        let here = if m.contains_key(lo as i32) { seq![m[lo as i32]] } else { Seq::<i32>::empty() };
        here + prices_between(m, lo + 1, hi)
    }
}

/// The sum of a sequence of prices.
pub open spec fn price_sum(s: Seq<i32>) -> int
    decreases s.len(),
{
    if s.len() == 0 {
        0
    } else {
        price_sum(s.drop_last()) + s.last()
    }
}

/// Integer division rounded toward zero, as Rust's `/` on signed integers.
pub open spec fn div_toward_zero(a: int, b: int) -> int {
    if a >= 0 {
        a / b
    } else {
        -((-a) / b)
    }
}

/// The mean of the prices with timestamps in `mintime..=maxtime`, rounded
/// toward zero; 0 where there is none.
pub open spec fn spec_mean(m: Map<i32, i32>, mintime: int, maxtime: int) -> int {
    let s = prices_between(m, mintime, maxtime);
    if s.len() == 0 {
        0
    } else {
        div_toward_zero(price_sum(s), s.len() as int)
    }
}

/// The four bytes, most significant first, of the two's-complement form of
/// `v`.
pub open spec fn be_bytes(v: i32) -> Seq<u8> {
    let u: int = if v < 0 { v + 0x1_0000_0000 } else { v as int };
    seq![
        (u / 0x100_0000) as u8,
        ((u / 0x1_0000) % 0x100) as u8,
        ((u / 0x100) % 0x100) as u8,
        (u % 0x100) as u8,
    ]
}

/// The bytes sent back for a query: a single zero byte when the interval is
/// empty (`maxtime < mintime`), else the mean as four big-endian bytes.
pub open spec fn query_reply(m: Map<i32, i32>, mintime: i32, maxtime: i32) -> Seq<u8> {
    if maxtime < mintime {
        seq![0u8]
    } else {
        be_bytes(spec_mean(m, mintime as int, maxtime as int) as i32)
    }
}

/// Hands out, in increasing order of timestamp, the prices stored under the
/// timestamps `mintime..=maxtime`.
///
/// Calls `BTreeMap::range` with both bounds included; as its documentation
/// says, the iterator yields exactly the entries whose keys lie in the range,
/// in ascending key order, and it panics only when the start exceeds the
/// end, which `requires` rules out.
#[verifier::external_body]
fn prices_in_range(prices: &BTreeMap<i32, i32>, mintime: i32, maxtime: i32) -> (res: Vec<i32>)
    requires
        mintime <= maxtime,
    ensures
        res@ == prices_between(prices@, mintime as int, maxtime as int),
{
    prices.range((Included(mintime), Included(maxtime))).map(|(_, &price)| price).collect()
}

/// Encodes `v` as four big-endian bytes.
pub fn encode_i32_be(v: i32) -> (bytes: Vec<u8>)
    ensures
        bytes@ == be_bytes(v),
{
    let u: i64 = if v < 0 { v as i64 + 0x1_0000_0000 } else { v as i64 };
    let mut bytes: Vec<u8> = Vec::new();
    bytes.push((u / 0x100_0000) as u8);
    bytes.push(((u / 0x1_0000) % 0x100) as u8);
    bytes.push(((u / 0x100) % 0x100) as u8);
    bytes.push((u % 0x100) as u8);
    bytes
}

/// What the session does after one message.
pub enum Outcome {
    /// Nothing is sent back.
    Silent,
    /// These bytes are sent back.
    Reply(Vec<u8>),
    /// The connection is closed.
    Close,
}

/// The prices one client has inserted, keyed by timestamp.
pub struct PriceStore {
    prices: BTreeMap<i32, i32>,
}

impl View for PriceStore {
    type V = Map<i32, i32>;

    closed spec fn view(&self) -> Map<i32, i32> {
        self.prices@
    }
}

impl PriceStore {
    /// An empty store.
    pub fn new() -> (store: PriceStore)
        ensures
            store@ == Map::<i32, i32>::empty(),
    {
        PriceStore { prices: BTreeMap::new() }
    }

    /// Stores `price` under `timestamp`, replacing an earlier price there.
    pub fn insert(&mut self, timestamp: i32, price: i32)
        ensures
            final(self)@ == old(self)@.insert(timestamp, price),
    {
        self.prices.insert(timestamp, price);
    }

    /// The mean of the prices stored under timestamps `mintime..=maxtime`,
    /// rounded toward zero, or 0 when there is none.
    pub fn mean(&self, mintime: i32, maxtime: i32) -> (mean: i32)
        requires
            mintime <= maxtime,
        ensures
            mean == spec_mean(self@, mintime as int, maxtime as int),
    {
        let selected = prices_in_range(&self.prices, mintime, maxtime);
        proof {
            lemma_prices_between_len(self@, mintime as int, maxtime as int);
        }
        let mut count: i64 = 0;
        let mut acc: i64 = 0;
        let n = selected.len();
        for i in 0..n
            invariant
                n == selected@.len(),
                n <= 0x1_0000_0000,
                count == i,
                acc == price_sum(selected@.take(i as int)),
                count * (i32::MIN as int) <= acc <= count * (i32::MAX as int),
        {
            assert(selected@.take(i as int + 1).drop_last() == selected@.take(i as int));
            count += 1;
            acc += selected[i] as i64;
        }
        assert(selected@.take(n as int) == selected@);
        if count == 0 {
            0
        } else {
            proof {
                lemma_mean_in_range(acc as int, count as int);
            }
            let q = acc / count;
            assert(q == div_toward_zero(acc as int, count as int));
            q as i32
        }
    }

    /// Acts on one message: an insert is stored and answered with nothing, a
    /// query is answered with its reply, anything else ends the session.
    pub fn handle(&mut self, message: Message) -> (outcome: Outcome)
        ensures
            match message {
                Message::Insert { timestamp, price } => {
                    &&& final(self)@ == old(self)@.insert(timestamp, price)
                    &&& outcome is Silent
                },
                Message::Query { mintime, maxtime } => {
                    &&& final(self)@ == old(self)@
                    &&& outcome matches Outcome::Reply(bytes) && bytes@ == query_reply(
                        old(self)@,
                        mintime,
                        maxtime,
                    )
                },
                Message::Invalid => {
                    &&& final(self)@ == old(self)@
                    &&& outcome is Close
                },
            },
    {
        match message {
            Message::Insert { timestamp, price } => {
                self.insert(timestamp, price);
                Outcome::Silent
            },
            Message::Query { mintime, maxtime } => {
                if maxtime < mintime {
                    let mut bytes: Vec<u8> = Vec::new();
                    bytes.push(0u8);
                    Outcome::Reply(bytes)
                } else {
                    let mean = self.mean(mintime, maxtime);
                    Outcome::Reply(encode_i32_be(mean))
                }
            },
            Message::Invalid => Outcome::Close,
        }
    }
}

/// At most one price per timestamp is selected.
proof fn lemma_prices_between_len(m: Map<i32, i32>, lo: int, hi: int)
    ensures
        prices_between(m, lo, hi).len() <= if lo > hi { 0 } else { hi - lo + 1 },
    decreases hi - lo + 1,
{
    if lo <= hi {
        lemma_prices_between_len(m, lo + 1, hi);
    }
}

/// The rounded mean of `count` 32-bit values is again a 32-bit value.
proof fn lemma_mean_in_range(acc: int, count: int)
    requires
        count > 0,
        count * (i32::MIN as int) <= acc <= count * (i32::MAX as int),
    ensures
        i32::MIN <= div_toward_zero(acc, count) <= i32::MAX,
{
    if acc >= 0 {
        assert(acc / count <= i32::MAX) by (nonlinear_arith)
            requires
                count > 0,
                0 <= acc <= count * (i32::MAX as int),
        ;
        assert(acc / count >= 0) by (nonlinear_arith)
            requires
                count > 0,
                0 <= acc,
        ;
    } else {
        assert((-acc) / count <= 0x8000_0000) by (nonlinear_arith)
            requires
                count > 0,
                0 < -acc <= count * 0x8000_0000,
        ;
        assert((-acc) / count >= 0) by (nonlinear_arith)
            requires
                count > 0,
                0 < -acc,
        ;
    }
}


/// Decoding the four bytes sent for a mean gives the mean back.
pub proof fn lemma_reply_decodes_to_mean(v: i32)
    ensures
        be_i32(be_bytes(v)) == v,
{
    let u: int = if v < 0 { v + 0x1_0000_0000 } else { v as int };
    assert(0 <= u < 0x1_0000_0000);
    let b = be_bytes(v);
    lemma_split_u32(u);
    assert(be_u32(b) == u);
}

/// A query for exactly the timestamp just inserted is answered with the
/// inserted price.
pub proof fn lemma_query_after_insert(m: Map<i32, i32>, timestamp: i32, price: i32)
    ensures
        query_reply(m.insert(timestamp, price), timestamp, timestamp) == be_bytes(price),
{
    let m2 = m.insert(timestamp, price);
    let s = prices_between(m2, timestamp as int, timestamp as int);
    assert(prices_between(m2, timestamp as int + 1, timestamp as int) == Seq::<i32>::empty());
    assert(s =~= seq![price]);
    assert(price_sum(s) == price) by {
        assert(s.drop_last() =~= Seq::<i32>::empty());
        assert(price_sum(s.drop_last()) == 0);
        assert(s.last() == price);
    }
    assert(div_toward_zero(price as int, 1) == price);
}

/// Inserting a price outside a query's interval leaves the query's answer
/// unchanged.
pub proof fn lemma_insert_outside_interval(
    m: Map<i32, i32>,
    timestamp: i32,
    price: i32,
    mintime: i32,
    maxtime: i32,
)
    requires
        timestamp < mintime || maxtime < timestamp,
    ensures
        query_reply(m.insert(timestamp, price), mintime, maxtime) == query_reply(
            m,
            mintime,
            maxtime,
        ),
{
    lemma_prices_between_unchanged(m, timestamp, price, mintime as int, maxtime as int);
}

proof fn lemma_prices_between_unchanged(m: Map<i32, i32>, timestamp: i32, price: i32, lo: int, hi: int)
    requires
        timestamp < lo || hi < timestamp,
        i32::MIN <= lo,
        hi <= i32::MAX,
    ensures
        prices_between(m.insert(timestamp, price), lo, hi) == prices_between(m, lo, hi),
    decreases hi - lo + 1,
{
    if lo <= hi {
        lemma_prices_between_unchanged(m, timestamp, price, lo + 1, hi);
        assert((lo as i32) != timestamp);
    }
}

/// A store with no prices selects nothing and answers every query with 0.
pub proof fn lemma_empty_store_selects_nothing(mintime: i32, maxtime: i32)
    ensures
        prices_between(Map::<i32, i32>::empty(), mintime as int, maxtime as int).len() == 0,
        spec_mean(Map::<i32, i32>::empty(), mintime as int, maxtime as int) == 0,
{
    lemma_empty_selects_nothing(mintime as int, maxtime as int);
}

proof fn lemma_empty_selects_nothing(lo: int, hi: int)
    ensures
        prices_between(Map::<i32, i32>::empty(), lo, hi).len() == 0,
    decreases hi - lo + 1,
{
    if lo <= hi {
        lemma_empty_selects_nothing(lo + 1, hi);
    }
}

/// Storing a price under a timestamp not yet used, inside the interval of a
/// query, adds exactly that price to what the query averages: one more
/// price, and the total grows by it.
pub proof fn lemma_new_price_in_interval_counts(
    m: Map<i32, i32>,
    timestamp: i32,
    price: i32,
    mintime: i32,
    maxtime: i32,
)
    requires
        mintime <= timestamp <= maxtime,
        !m.contains_key(timestamp),
    ensures
        prices_between(m.insert(timestamp, price), mintime as int, maxtime as int).len()
            == prices_between(m, mintime as int, maxtime as int).len() + 1,
        price_sum(prices_between(m.insert(timestamp, price), mintime as int, maxtime as int))
            == price_sum(prices_between(m, mintime as int, maxtime as int)) + price,
{
    lemma_selection_gains(m, timestamp, price, mintime as int, maxtime as int);
}

/// Storing a new price under a timestamp already used, inside the interval
/// of a query, swaps the old price for the new one in what the query
/// averages: as many prices, and the total changes by the difference.
pub proof fn lemma_replaced_price_in_interval(
    m: Map<i32, i32>,
    timestamp: i32,
    price: i32,
    mintime: i32,
    maxtime: i32,
)
    requires
        mintime <= timestamp <= maxtime,
        m.contains_key(timestamp),
    ensures
        prices_between(m.insert(timestamp, price), mintime as int, maxtime as int).len()
            == prices_between(m, mintime as int, maxtime as int).len(),
        price_sum(prices_between(m.insert(timestamp, price), mintime as int, maxtime as int))
            == price_sum(prices_between(m, mintime as int, maxtime as int)) - m[timestamp] + price,
{
    lemma_selection_swaps(m, timestamp, price, mintime as int, maxtime as int);
}

/// Storing a price outside the interval of a query leaves what the query
/// averages unchanged.
pub proof fn lemma_price_outside_interval_ignored(
    m: Map<i32, i32>,
    timestamp: i32,
    price: i32,
    mintime: i32,
    maxtime: i32,
)
    requires
        timestamp < mintime || maxtime < timestamp,
    ensures
        prices_between(m.insert(timestamp, price), mintime as int, maxtime as int)
            == prices_between(m, mintime as int, maxtime as int),
{
    lemma_prices_between_unchanged(m, timestamp, price, mintime as int, maxtime as int);
}

/// The answer to a query is the average of all the prices it selects,
/// rounded toward zero: with `n` prices totalling `t`, the answer `q`
/// satisfies `n * q <= t < n * q + n` for a non-negative total and
/// `n * q - n < t <= n * q` for a negative one; with no price it is 0.
pub proof fn lemma_mean_is_average(m: Map<i32, i32>, mintime: i32, maxtime: i32)
    ensures
        ({
            let s = prices_between(m, mintime as int, maxtime as int);
            let n = s.len() as int;
            let t = price_sum(s);
            let q = spec_mean(m, mintime as int, maxtime as int);
            &&& n == 0 ==> q == 0
            &&& n > 0 && t >= 0 ==> n * q <= t < n * q + n
            &&& n > 0 && t < 0 ==> n * q - n < t <= n * q
        }),
{
    let s = prices_between(m, mintime as int, maxtime as int);
    let n = s.len() as int;
    let t = price_sum(s);
    if n > 0 {
        if t >= 0 {
            lemma_fundamental_div_mod(t, n);
            lemma_mod_bound(t, n);
            assert(n * (t / n) <= t < n * (t / n) + n);
        } else {
            lemma_fundamental_div_mod(-t, n);
            lemma_mod_bound(-t, n);
            let r = (-t) / n;
            assert(n * r <= -t < n * r + n);
            assert(n * (-r) == -(n * r)) by (nonlinear_arith);
        }
    }
}

/// A frame made of `I`, then the bytes of a timestamp and of a price,
/// decodes to the insertion of that price at that timestamp; with `Q` it
/// decodes to the query of that interval.
pub proof fn lemma_frame_roundtrip(kind: u8, first: i32, second: i32)
    ensures
        ({
            let frame = seq![kind] + be_bytes(first) + be_bytes(second);
            &&& kind == 0x49u8 ==> spec_parse(frame) == Message::Insert { timestamp: first, price: second }
            &&& kind == 0x51u8 ==> spec_parse(frame) == Message::Query { mintime: first, maxtime: second }
            &&& kind != 0x49u8 && kind != 0x51u8 ==> spec_parse(frame) == Message::Invalid
        }),
{
    let frame = seq![kind] + be_bytes(first) + be_bytes(second);
    assert(frame.subrange(1, 5) =~= be_bytes(first));
    assert(frame.subrange(5, 9) =~= be_bytes(second));
    lemma_reply_decodes_to_mean(first);
    lemma_reply_decodes_to_mean(second);
}

/// A query whose interval is reversed (`maxtime < mintime`) is answered with
/// a single zero byte, whatever is stored; any other query is answered with
/// exactly four bytes.
pub proof fn lemma_reply_length(m: Map<i32, i32>, mintime: i32, maxtime: i32)
    ensures
        maxtime < mintime ==> query_reply(m, mintime, maxtime) == seq![0u8],
        mintime <= maxtime ==> query_reply(m, mintime, maxtime).len() == 4,
{
}

/// The four bytes of a value put its most significant byte first: for a
/// non-negative value the first byte is its top eight bits and the last
/// byte its bottom eight bits; a negative value starts with a byte of at
/// least 0x80.
pub proof fn lemma_big_endian_order(v: i32)
    ensures
        v >= 0 ==> be_bytes(v)[0] == v / 0x100_0000 && be_bytes(v)[3] == v % 0x100,
        v < 0 ==> be_bytes(v)[0] >= 0x80,
{
    let u: int = if v < 0 { v + 0x1_0000_0000 } else { v as int };
    lemma_split_u32(u);
    if v < 0 {
        assert(u / 0x100_0000 >= 0x80) by (nonlinear_arith)
            requires
                u >= 0x8000_0000,
        ;
    }
}

proof fn lemma_mod_bound(a: int, n: int)
    requires
        a >= 0,
        n > 0,
    ensures
        0 <= a % n < n,
        a / n >= 0,
{
    assert(0 <= a % n < n) by (nonlinear_arith)
        requires
            n > 0,
    ;
    assert(a / n >= 0) by (nonlinear_arith)
        requires
            a >= 0,
            n > 0,
    ;
}

proof fn lemma_price_sum_single(x: i32)
    ensures
        price_sum(seq![x]) == x,
{
    let s = seq![x];
    assert(s.drop_last() =~= Seq::<i32>::empty());
    assert(price_sum(s.drop_last()) == 0);
    assert(s.last() == x);
}

proof fn lemma_price_sum_concat(a: Seq<i32>, b: Seq<i32>)
    ensures
        price_sum(a + b) == price_sum(a) + price_sum(b),
    decreases b.len(),
{
    if b.len() == 0 {
        assert(a + b =~= a);
    } else {
        lemma_price_sum_concat(a, b.drop_last());
        assert((a + b).drop_last() =~= a + b.drop_last());
    }
}

proof fn lemma_selection_gains(m: Map<i32, i32>, timestamp: i32, price: i32, lo: int, hi: int)
    requires
        lo <= timestamp <= hi,
        i32::MIN <= lo,
        hi <= i32::MAX,
        !m.contains_key(timestamp),
    ensures
        prices_between(m.insert(timestamp, price), lo, hi).len() == prices_between(m, lo, hi).len() + 1,
        price_sum(prices_between(m.insert(timestamp, price), lo, hi)) == price_sum(
            prices_between(m, lo, hi),
        ) + price,
    decreases hi - lo + 1,
{
    let m2 = m.insert(timestamp, price);
    let rest = prices_between(m, lo + 1, hi);
    let rest2 = prices_between(m2, lo + 1, hi);
    if lo == timestamp {
        lemma_prices_between_unchanged(m, timestamp, price, lo + 1, hi);
        assert(prices_between(m2, lo, hi) == seq![price] + rest2);
        assert(prices_between(m, lo, hi) == Seq::<i32>::empty() + rest);
        assert(Seq::<i32>::empty() + rest =~= rest);
        lemma_price_sum_concat(seq![price], rest);
        lemma_price_sum_single(price);
    } else {
        lemma_selection_gains(m, timestamp, price, lo + 1, hi);
        assert((lo as i32) != timestamp);
        let here = if m.contains_key(lo as i32) { seq![m[lo as i32]] } else { Seq::<i32>::empty() };
        assert(prices_between(m2, lo, hi) == here + rest2);
        assert(prices_between(m, lo, hi) == here + rest);
        lemma_price_sum_concat(here, rest);
        lemma_price_sum_concat(here, rest2);
    }
}

proof fn lemma_selection_swaps(m: Map<i32, i32>, timestamp: i32, price: i32, lo: int, hi: int)
    requires
        lo <= timestamp <= hi,
        i32::MIN <= lo,
        hi <= i32::MAX,
        m.contains_key(timestamp),
    ensures
        prices_between(m.insert(timestamp, price), lo, hi).len() == prices_between(m, lo, hi).len(),
        price_sum(prices_between(m.insert(timestamp, price), lo, hi)) == price_sum(
            prices_between(m, lo, hi),
        ) - m[timestamp] + price,
    decreases hi - lo + 1,
{
    let m2 = m.insert(timestamp, price);
    let rest = prices_between(m, lo + 1, hi);
    let rest2 = prices_between(m2, lo + 1, hi);
    if lo == timestamp {
        lemma_prices_between_unchanged(m, timestamp, price, lo + 1, hi);
        assert(prices_between(m2, lo, hi) == seq![price] + rest2);
        assert(prices_between(m, lo, hi) == seq![m[timestamp]] + rest);
        lemma_price_sum_concat(seq![price], rest);
        lemma_price_sum_concat(seq![m[timestamp]], rest);
        lemma_price_sum_single(price);
        lemma_price_sum_single(m[timestamp]);
    } else {
        lemma_selection_swaps(m, timestamp, price, lo + 1, hi);
        assert((lo as i32) != timestamp);
        let here = if m.contains_key(lo as i32) { seq![m[lo as i32]] } else { Seq::<i32>::empty() };
        assert(prices_between(m2, lo, hi) == here + rest2);
        assert(prices_between(m, lo, hi) == here + rest);
        lemma_price_sum_concat(here, rest);
        lemma_price_sum_concat(here, rest2);
    }
}

proof fn lemma_split_u32(u: int)
    requires
        0 <= u < 0x1_0000_0000,
    ensures
        (u / 0x100_0000) * 0x100_0000 + ((u / 0x1_0000) % 0x100) * 0x1_0000 + ((u / 0x100)
            % 0x100) * 0x100 + u % 0x100 == u,
        0 <= u / 0x100_0000 < 0x100,
        0 <= (u / 0x1_0000) % 0x100 < 0x100,
        0 <= (u / 0x100) % 0x100 < 0x100,
        0 <= u % 0x100 < 0x100,
{
    assert((u / 0x100_0000) * 0x100_0000 + ((u / 0x1_0000) % 0x100) * 0x1_0000 + ((u / 0x100)
            % 0x100) * 0x100 + u % 0x100 == u) by (nonlinear_arith)
        requires
            0 <= u < 0x1_0000_0000,
    ;
    assert(0 <= u / 0x100_0000 < 0x100) by (nonlinear_arith)
        requires
            0 <= u < 0x1_0000_0000,
    ;
}

} // verus!
