//! The market-data model: signals, candle intervals, data categories, the
//! normalized events the gateway delivers, and the topic keys that route
//! events to strategy runners.
//!
//! Prices and quantities are carried as integers scaled to the instrument's
//! smallest tick. Every such value stays below 2^53, so a gateway can convert
//! it to and from an IEEE double without loss.
use vstd::prelude::*;
use vstd::string::StrSliceExecFns;
use vstd::string::StringExecFns;

verus! {

/// The largest scaled price or quantity the model admits: 2^53, the bound up
/// to which an IEEE double represents every integer exactly.
pub const PRICE_LIMIT: u64 = 0x20_0000_0000_0000;

/// A strategy's per-event output.
#[derive(Clone, Copy, Debug, PartialEq, Eq, Structural)]
pub enum Signal {
    Buy,
    Sell,
    Nothing,
}

/// Candlestick granularity. Two candle categories are equal only if the
/// granularity matches.
#[derive(Clone, Copy, Debug, PartialEq, Eq, Structural)]
pub enum KlineInterval {
    Hour1,
    Hour2,
    Hour4,
    Hour6,
    Day1,
}

impl KlineInterval {
    /// The wire spelling of the interval, as the exchange names it in
    /// stream identifiers.
    pub open spec fn spec_str(&self) -> Seq<char> {
        match self {
            KlineInterval::Hour1 => "1h"@,
            KlineInterval::Hour2 => "2h"@,
            KlineInterval::Hour4 => "4h"@,
            KlineInterval::Hour6 => "6h"@,
            KlineInterval::Day1 => "1d"@,
        }
    }

    pub fn to_string(&self) -> (r: String)
        ensures
            r@ == self.spec_str(),
    {
        match self {
            KlineInterval::Hour1 => "1h".to_owned(),
            KlineInterval::Hour2 => "2h".to_owned(),
            KlineInterval::Hour4 => "4h".to_owned(),
            KlineInterval::Hour6 => "6h".to_owned(),
            KlineInterval::Day1 => "1d".to_owned(),
        }
    }
}

/// An uppercase ASCII letter or digit mapped to its lowercase form; the
/// characters instrument symbols are made of.
pub open spec fn lower_char(c: char) -> char {
    match c {
        'A' => 'a',
        'B' => 'b',
        'C' => 'c',
        'D' => 'd',
        'E' => 'e',
        'F' => 'f',
        'G' => 'g',
        'H' => 'h',
        'I' => 'i',
        'J' => 'j',
        'K' => 'k',
        'L' => 'l',
        'M' => 'm',
        'N' => 'n',
        'O' => 'o',
        'P' => 'p',
        'Q' => 'q',
        'R' => 'r',
        'S' => 's',
        'T' => 't',
        'U' => 'u',
        'V' => 'v',
        'W' => 'w',
        'X' => 'x',
        'Y' => 'y',
        'Z' => 'z',
        _ => c,
    }
}

/// A symbol lowered character by character.
pub open spec fn lower_seq(s: Seq<char>) -> Seq<char> {
    Seq::new(s.len(), |i: int| lower_char(s[i]))
}

/// The lowercase spelling of one symbol character, as a one-character
/// string slice.
fn lower_char_str(c: char) -> (r: &'static str)
    requires
        'A' <= c <= 'Z' || '0' <= c <= '9',
    ensures
        r@ =~= seq![lower_char(c)],
{
    let s: &'static str = match c {
        'A' => "a",
        'B' => "b",
        'C' => "c",
        'D' => "d",
        'E' => "e",
        'F' => "f",
        'G' => "g",
        'H' => "h",
        'I' => "i",
        'J' => "j",
        'K' => "k",
        'L' => "l",
        'M' => "m",
        'N' => "n",
        'O' => "o",
        'P' => "p",
        'Q' => "q",
        'R' => "r",
        'S' => "s",
        'T' => "t",
        'U' => "u",
        'V' => "v",
        'W' => "w",
        'X' => "x",
        'Y' => "y",
        'Z' => "z",
        '0' => "0",
        '1' => "1",
        '2' => "2",
        '3' => "3",
        '4' => "4",
        '5' => "5",
        '6' => "6",
        '7' => "7",
        '8' => "8",
        '9' => "9",
        _ => "",
    };
    proof {
        reveal_strlit("a");
        reveal_strlit("b");
        reveal_strlit("c");
        reveal_strlit("d");
        reveal_strlit("e");
        reveal_strlit("f");
        reveal_strlit("g");
        reveal_strlit("h");
        reveal_strlit("i");
        reveal_strlit("j");
        reveal_strlit("k");
        reveal_strlit("l");
        reveal_strlit("m");
        reveal_strlit("n");
        reveal_strlit("o");
        reveal_strlit("p");
        reveal_strlit("q");
        reveal_strlit("r");
        reveal_strlit("s");
        reveal_strlit("t");
        reveal_strlit("u");
        reveal_strlit("v");
        reveal_strlit("w");
        reveal_strlit("x");
        reveal_strlit("y");
        reveal_strlit("z");
        reveal_strlit("0");
        reveal_strlit("1");
        reveal_strlit("2");
        reveal_strlit("3");
        reveal_strlit("4");
        reveal_strlit("5");
        reveal_strlit("6");
        reveal_strlit("7");
        reveal_strlit("8");
        reveal_strlit("9");
    }
    s
}

/// What the candle stream for `symbol` at granularity `interval` is called
/// on the wire: the lowercased symbol, "@kline_", and the interval.
pub open spec fn spec_stream_name(symbol: Seq<char>, interval: KlineInterval) -> Seq<char> {
    lower_seq(symbol) + "@kline_"@ + interval.spec_str()
}

/// Builds the wire name of a candle stream. The symbol must already be a
/// valid instrument symbol: uppercase ASCII letters and digits.
pub fn stream_name(symbol: &String, interval: &KlineInterval) -> (r: String)
    requires
        crate::config::valid_symbol(symbol@),
    ensures
        r@ == spec_stream_name(symbol@, *interval),
{
    let mut out = String::new();
    let n = symbol.as_str().unicode_len();
    let mut i: usize = 0;
    while i < n
        invariant
            i <= n,
            n == symbol@.len(),
            crate::config::valid_symbol(symbol@),
            out@ =~= lower_seq(symbol@.subrange(0, i as int)),
        decreases n - i,
    {
        let c = symbol.as_str().get_char(i);
        let piece = lower_char_str(c);
        out.append(piece);
        proof {
            assert(out@ =~= lower_seq(symbol@.subrange(0, i + 1 as int)));
        }
        i = i + 1;
    }
    proof {
        assert(symbol@.subrange(0, n as int) =~= symbol@);
    }
    out.append("@kline_");
    let tail = interval.to_string();
    out.append(tail.as_str());
    proof {
        assert(out@ =~= spec_stream_name(symbol@, *interval));
    }
    out
}

/// A kind of market data that needs a routing topic of its own.
#[derive(Clone, Copy, Debug, PartialEq, Eq, Structural)]
pub enum Category {
    BookTicker,
    Kline(KlineInterval),
}

/// One candlestick. The candle interval is carried as the parsed
/// granularity, not the wire string.
#[derive(Clone, Copy, Debug)]
pub struct Kline {
    pub interval: KlineInterval,
    pub open: u64,
    pub high: u64,
    pub low: u64,
    pub close: u64,
}

/// A candlestick update for one instrument. `event_time` is the epoch
/// identifier grouping the signals that strategies derive from it.
#[derive(Debug)]
pub struct KlineEvent {
    pub symbol: String,
    pub event_time: u64,
    pub kline: Kline,
}

/// A best-bid/ask update for one instrument. `update_id` is the epoch
/// identifier.
#[derive(Debug)]
pub struct BookTickerEvent {
    pub symbol: String,
    pub update_id: u64,
    pub best_bid: u64,
    pub best_ask: u64,
}

/// A normalized market event as the gateway hands it to the bus.
#[derive(Debug)]
pub enum Data {
    Kline(KlineEvent),
    BookTicker(BookTickerEvent),
}

/// A topic key: the unit of subscription, combining an instrument and a
/// data category.
#[derive(Debug)]
pub struct Index {
    pub symbol: String,
    pub category: Category,
}

impl View for Index {
    type V = (Seq<char>, Category);

    open spec fn view(&self) -> (Seq<char>, Category) {
        (self.symbol@, self.category)
    }
}

impl Index {
    pub fn new(symbol: String, category: Category) -> (r: Index)
        ensures
            r@ == (symbol@, category),
    {
        Index { symbol, category }
    }

    /// Whether two topic keys route to the same topic.
    pub fn matches(&self, other: &Index) -> (r: bool)
        ensures
            r == (self@ == other@),
    {
        self.symbol == other.symbol && self.category == other.category
    }
}

impl Clone for KlineEvent {
    fn clone(&self) -> (r: Self)
        ensures
            r == *self,
    {
        KlineEvent { symbol: self.symbol.clone(), event_time: self.event_time, kline: self.kline }
    }
}

impl Clone for BookTickerEvent {
    fn clone(&self) -> (r: Self)
        ensures
            r == *self,
    {
        BookTickerEvent {
            symbol: self.symbol.clone(),
            update_id: self.update_id,
            best_bid: self.best_bid,
            best_ask: self.best_ask,
        }
    }
}

impl Clone for Data {
    fn clone(&self) -> (r: Self)
        ensures
            r == *self,
    {
        match self {
            Data::Kline(k) => Data::Kline(k.clone()),
            Data::BookTicker(b) => Data::BookTicker(b.clone()),
        }
    }
}

impl Clone for Index {
    fn clone(&self) -> (r: Self)
        ensures
            r == *self,
    {
        Index { symbol: self.symbol.clone(), category: self.category }
    }
}

/// Carries the epoch identifier that tells apart data of different moments.
pub trait DataId {
    spec fn spec_data_id(&self) -> u64;

    fn data_id(&self) -> (r: u64)
        ensures
            r == self.spec_data_id(),
    ;
}

/// Carries the routing category of a piece of market data.
pub trait DataCategory {
    spec fn spec_data_category(&self) -> Category;

    fn data_category(&self) -> (r: Category)
        ensures
            r == self.spec_data_category(),
    ;
}

/// Carries the full topic key of a piece of market data.
pub trait DataIndex {
    spec fn spec_data_index(&self) -> (Seq<char>, Category);

    fn data_index(&self) -> (r: Index)
        ensures
            r@ == self.spec_data_index(),
    ;
}

impl DataCategory for Kline {
    open spec fn spec_data_category(&self) -> Category {
        Category::Kline(self.interval)
    }

    fn data_category(&self) -> (r: Category) {
        Category::Kline(self.interval)
    }
}

impl DataCategory for KlineEvent {
    open spec fn spec_data_category(&self) -> Category {
        Category::Kline(self.kline.interval)
    }

    fn data_category(&self) -> (r: Category) {
        self.kline.data_category()
    }
}

impl DataCategory for BookTickerEvent {
    open spec fn spec_data_category(&self) -> Category {
        Category::BookTicker
    }

    fn data_category(&self) -> (r: Category) {
        Category::BookTicker
    }
}

impl DataCategory for Data {
    open spec fn spec_data_category(&self) -> Category {
        match self {
            Data::Kline(k) => k.spec_data_category(),
            Data::BookTicker(b) => b.spec_data_category(),
        }
    }

    fn data_category(&self) -> (r: Category) {
        match self {
            Data::Kline(k) => k.data_category(),
            Data::BookTicker(b) => b.data_category(),
        }
    }
}

impl DataId for Data {
    open spec fn spec_data_id(&self) -> u64 {
        match self {
            Data::Kline(k) => k.event_time,
            Data::BookTicker(b) => b.update_id,
        }
    }

    fn data_id(&self) -> (r: u64) {
        match self {
            Data::Kline(k) => k.event_time,
            Data::BookTicker(b) => b.update_id,
        }
    }
}

impl DataIndex for KlineEvent {
    open spec fn spec_data_index(&self) -> (Seq<char>, Category) {
        (self.symbol@, self.spec_data_category())
    }

    fn data_index(&self) -> (r: Index) {
        Index { symbol: self.symbol.clone(), category: self.data_category() }
    }
}

impl DataIndex for BookTickerEvent {
    open spec fn spec_data_index(&self) -> (Seq<char>, Category) {
        (self.symbol@, Category::BookTicker)
    }

    fn data_index(&self) -> (r: Index) {
        Index { symbol: self.symbol.clone(), category: Category::BookTicker }
    }
}

impl DataIndex for Data {
    open spec fn spec_data_index(&self) -> (Seq<char>, Category) {
        match self {
            Data::Kline(k) => k.spec_data_index(),
            Data::BookTicker(b) => b.spec_data_index(),
        }
    }

    fn data_index(&self) -> (r: Index) {
        match self {
            Data::Kline(k) => k.data_index(),
            Data::BookTicker(b) => b.data_index(),
        }
    }
}

} // verus!
