use crate::decimal::{fixed_value, parse_fixed};
use crate::order_book_collector::{OrderBook, OrderBookLevel, Source};
use crate::order_book_feed::FeedErr;
use vstd::prelude::*;

verus! {

/// A depth update of the Binance order book stream.
#[allow(non_snake_case)]
pub struct DepthUpdate {
    /// Event time
    pub E: i64,
    /// Symbol
    pub s: String,
    /// Bids to be updated [price, qty]
    pub b: Vec<Vec<String>>,
    /// Asks to be updated [price, qty]
    pub a: Vec<Vec<String>>,
}

/// What is wrong with a level of a depth update.
#[derive(Debug, Clone, Copy, PartialEq, Eq, Structural)]
pub enum LevelError {
    /// The level is not a pair.
    Format,
    /// The price is not a number.
    Price,
    /// The quantity is not a number.
    Qty,
}

/// The side of the book that a level is on.
#[derive(Debug, Clone, Copy, PartialEq, Eq, Structural)]
pub enum BookSide {
    Bid,
    Ask,
}

/// The text of the error for a bad level.
pub open spec fn level_error_text(side: BookSide, e: LevelError) -> Seq<char> {
    match (side, e) {
        (_, LevelError::Format) => "Invalid bid format in depth update"@,
        (BookSide::Bid, LevelError::Price) => "Invalid price in bid"@,
        (BookSide::Bid, LevelError::Qty) => "Invalid qty in bid"@,
        (BookSide::Ask, LevelError::Price) => "Invalid price in ask"@,
        (BookSide::Ask, LevelError::Qty) => "Invalid qty in ask"@,
    }
}

/// The level that a `[price, qty]` entry stands for. Price and quantity are read as
/// floating-point parsing reads numbers, exponents included (see `decimal_value`); a number
/// that a fixed-point level cannot hold exactly is refused as a bad price or quantity: a
/// negative one, one with non-zero digits past the eighth decimal place, one beyond `u64`,
/// and `inf` and `NaN`.
pub open spec fn level_of(entry: Seq<Seq<char>>) -> Result<OrderBookLevel, LevelError> {
    if entry.len() != 2 {
        Err(LevelError::Format)
    } else {
        match fixed_value(entry[0]) {
            None => Err(LevelError::Price),
            Some(price) => match fixed_value(entry[1]) {
                None => Err(LevelError::Qty),
                Some(qty) => Ok(OrderBookLevel { price, qty }),
            },
        }
    }
}

/// The levels that a list of entries stands for, in order, or the error of its first bad
/// entry.
pub open spec fn levels_of(entries: Seq<Seq<Seq<char>>>) -> Result<Seq<OrderBookLevel>, LevelError>
    decreases entries.len(),
{
    if entries.len() == 0 {
        Ok(Seq::empty())
    } else {
        match levels_of(entries.drop_last()) {
            Err(e) => Err(e),
            Ok(prev) => match level_of(entries.last()) {
                Err(e) => Err(e),
                Ok(l) => Ok(prev.push(l)),
            },
        }
    }
}

pub open spec fn entries_view(entries: Seq<Vec<String>>) -> Seq<Seq<Seq<char>>> {
    entries.map_values(|e: Vec<String>| e@.map_values(|x: String| x@))
}

fn parse_level(entry: &Vec<String>) -> (r: Result<OrderBookLevel, LevelError>)
    ensures
        r == level_of(entry@.map_values(|x: String| x@)),
{
    if entry.len() != 2 {
        return Err(LevelError::Format);
    }
    let price = match parse_fixed(entry[0].as_str()) {
        Some(p) => p,
        None => {
            return Err(LevelError::Price);
        },
    };
    let qty = match parse_fixed(entry[1].as_str()) {
        Some(q) => q,
        None => {
            return Err(LevelError::Qty);
        },
    };
    Ok(OrderBookLevel { price, qty })
}

/// Reads the levels of one side of a depth update.
pub fn parse_levels(entries: &Vec<Vec<String>>) -> (r: Result<Vec<OrderBookLevel>, LevelError>)
    ensures
        match levels_of(entries_view(entries@)) {
            Ok(ls) => r matches Ok(v) && v@ == ls,
            Err(e) => r == Err::<Vec<OrderBookLevel>, LevelError>(e),
        },
{
    let ghost ev = entries_view(entries@);
    let n = entries.len();
    let mut out: Vec<OrderBookLevel> = Vec::with_capacity(n);
    let mut i: usize = 0;
    while i < n
        invariant
            n == entries@.len(),
            ev == entries_view(entries@),
            i <= n,
            levels_of(ev.take(i as int)) == Ok::<Seq<OrderBookLevel>, LevelError>(out@),
        decreases n - i,
    {
        proof {
            assert(ev.take(i + 1).drop_last() =~= ev.take(i as int));
            assert(ev.take(i + 1).last() == entries@[i as int]@.map_values(|x: String| x@));
        }
        match parse_level(&entries[i]) {
            Err(e) => {
                proof {
                    lemma_levels_error_stays(ev, i as int + 1);
                }
                return Err(e);
            },
            Ok(l) => {
                out.push(l);
            },
        }
        i = i + 1;
    }
    proof {
        assert(ev.take(n as int) =~= ev);
    }
    Ok(out)
}

/// An error in the first `k` entries is the error of the whole list.
proof fn lemma_levels_error_stays(entries: Seq<Seq<Seq<char>>>, k: int)
    requires
        0 <= k <= entries.len(),
        levels_of(entries.take(k)) is Err,
    ensures
        levels_of(entries) == levels_of(entries.take(k)),
    decreases entries.len() - k,
{
    if k < entries.len() {
        assert(entries.take(k + 1).drop_last() =~= entries.take(k));
        lemma_levels_error_stays(entries, k + 1);
    } else {
        assert(entries.take(k) =~= entries);
    }
}

pub struct DepthUpdateView {
    pub event_time: i64,
    pub symbol: Seq<char>,
    pub bids: Seq<Seq<Seq<char>>>,
    pub asks: Seq<Seq<Seq<char>>>,
}

impl View for DepthUpdate {
    type V = DepthUpdateView;

    open spec fn view(&self) -> DepthUpdateView {
        DepthUpdateView {
            event_time: self.E,
            symbol: self.s@,
            bids: entries_view(self.b@),
            asks: entries_view(self.a@),
        }
    }
}

/// The error of a bad depth update: code 400 and the text for the first bad level, bids
/// before asks.
pub open spec fn depth_error(u: DepthUpdateView) -> Option<Seq<char>> {
    match levels_of(u.bids) {
        Err(e) => Some(level_error_text(BookSide::Bid, e)),
        Ok(_) => match levels_of(u.asks) {
            Err(e) => Some(level_error_text(BookSide::Ask, e)),
            Ok(_) => None,
        },
    }
}

fn level_error(side: BookSide, e: LevelError) -> (r: FeedErr)
    ensures
        r.code == Some(400u16),
        r.message@ == level_error_text(side, e),
{
    let text = match (side, e) {
        (_, LevelError::Format) => "Invalid bid format in depth update",
        (BookSide::Bid, LevelError::Price) => "Invalid price in bid",
        (BookSide::Bid, LevelError::Qty) => "Invalid qty in bid",
        (BookSide::Ask, LevelError::Price) => "Invalid price in ask",
        (BookSide::Ask, LevelError::Qty) => "Invalid qty in ask",
    };
    FeedErr::new(Some(400), String::from_str(text))
}

/// Turns a depth update into a Binance order book of its symbol, stamped with its event
/// time; an error of code 400 names the first bad level.
pub fn parse(depth_update: DepthUpdate) -> (r: Result<Option<OrderBook>, FeedErr>)
    ensures
        match depth_error(depth_update@) {
            Some(text) => r matches Err(e) && e.code == Some(400u16) && e.message@ == text,
            None => r matches Ok(Some(book)) && {
                &&& book.source == Source::Binance
                &&& book.asset@ == depth_update@.symbol
                &&& book.timestamp == depth_update@.event_time
                &&& levels_of(depth_update@.bids) == Ok::<Seq<OrderBookLevel>, LevelError>(
                    book.bids@,
                )
                &&& levels_of(depth_update@.asks) == Ok::<Seq<OrderBookLevel>, LevelError>(
                    book.asks@,
                )
            },
        },
{
    let bids = match parse_levels(&depth_update.b) {
        Ok(v) => v,
        Err(e) => {
            return Err(level_error(BookSide::Bid, e));
        },
    };
    let asks = match parse_levels(&depth_update.a) {
        Ok(v) => v,
        Err(e) => {
            return Err(level_error(BookSide::Ask, e));
        },
    };
    Ok(
        Some(
            OrderBook {
                source: Source::Binance,
                asset: depth_update.s,
                timestamp: depth_update.E,
                bids,
                asks,
            },
        ),
    )
}

} // verus!
