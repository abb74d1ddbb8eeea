use crate::decimal::{fixed_value, parse_fixed, SCALE};
use vstd::prelude::*;

verus! {

/// A price seen on a feed: a fixed-point price with eight decimal places (see
/// `crate::decimal`), and the millisecond at which it was seen.
#[derive(Debug, Clone, Copy, PartialEq, Eq, Structural)]
pub struct PriceEvent {
    pub price: u64,
    pub timestamp: i64,
}

/// An error of a price feed.
#[derive(Debug)]
pub struct FeedErr {
    pub code: Option<u16>,
    pub message: String,
}

impl FeedErr {
    pub fn new(code: Option<u16>, message: String) -> (r: FeedErr)
        ensures
            r.code == code,
            r.message@ == message@,
    {
        FeedErr { code, message }
    }
}

/// The number of failed fetches after which a feed warns, where its configuration sets none.
pub const DEFAULT_FAIL_COUNT_WARN: u32 = 5;

/// Counts the failed fetches of a feed in a row, and says when to warn: when the count
/// passes the limit, after which it starts again.
pub struct FailCounter {
    pub fail_count: u64,
    pub fail_count_warn: u32,
}

impl FailCounter {
    pub open spec fn limit_of(fail_count_warn: Option<u32>) -> u32 {
        match fail_count_warn {
            Some(n) => n,
            None => DEFAULT_FAIL_COUNT_WARN,
        }
    }

    pub open spec fn wf(&self) -> bool {
        self.fail_count <= self.fail_count_warn
    }

    pub fn new(fail_count_warn: Option<u32>) -> (r: FailCounter)
        ensures
            r.wf(),
            r.fail_count == 0,
            r.fail_count_warn == FailCounter::limit_of(fail_count_warn),
    {
        let limit = match fail_count_warn {
            Some(n) => n,
            None => DEFAULT_FAIL_COUNT_WARN,
        };
        FailCounter { fail_count: 0, fail_count_warn: limit }
    }

    /// A fetch succeeded: the count starts again.
    pub fn on_success(&mut self)
        requires
            old(self).wf(),
        ensures
            final(self).wf(),
            final(self).fail_count == fail_step(old(self).fail_count_warn, old(self).fail_count, true).1,
            final(self).fail_count_warn == old(self).fail_count_warn,
    {
        self.fail_count = 0;
    }

    /// A fetch failed: the result says whether to warn.
    pub fn on_failure(&mut self) -> (warn: bool)
        requires
            old(self).wf(),
        ensures
            final(self).wf(),
            final(self).fail_count_warn == old(self).fail_count_warn,
            (warn, final(self).fail_count) == fail_step(
                old(self).fail_count_warn,
                old(self).fail_count,
                false,
            ),
    {
        self.fail_count = self.fail_count + 1;
        if self.fail_count > self.fail_count_warn as u64 {
            self.fail_count = 0;
            true
        } else {
            false
        }
    }
}

/// One fetch outcome (`ok` for a success) taken by a counter at `count` with limit `limit`:
/// whether to warn, and the count afterwards. A success starts the count again; a failure
/// that takes the count past the limit warns and starts it again.
pub open spec fn fail_step(limit: u32, count: u64, ok: bool) -> (bool, u64) {
    if ok {
        (false, 0)
    } else if count + 1 > limit {
        (true, 0)
    } else {
        (false, (count + 1) as u64)
    }
}

/// A run of fetch outcomes: the warnings, one per outcome, and the count afterwards.
pub open spec fn fail_run(limit: u32, count: u64, outcomes: Seq<bool>) -> (Seq<bool>, u64)
    decreases outcomes.len(),
{
    if outcomes.len() == 0 {
        (Seq::empty(), count)
    } else {
        let (warnings, c) = fail_run(limit, count, outcomes.drop_last());
        let (w, c2) = fail_step(limit, c, outcomes.last());
        (warnings.push(w), c2)
    }
}

/// From a fresh count, a run of failures warns first at failure number `limit + 1`, and at
/// no failure before it; the count is then back at zero.
pub proof fn lemma_warns_after_limit(limit: u32, k: nat)
    requires
        k <= limit + 1,
    ensures
        ({
            let (warnings, count) = fail_run(limit, 0, Seq::new(k, |i: int| false));
            &&& warnings.len() == k
            &&& forall|i: int| 0 <= i < k ==> #[trigger] warnings[i] == (i == limit)
            &&& count == (if k == limit + 1 {
                0
            } else {
                k
            })
        }),
    decreases k,
{
    if k > 0 {
        lemma_warns_after_limit(limit, (k - 1) as nat);
        let s = Seq::new(k, |i: int| false);
        assert(s.drop_last() =~= Seq::new((k - 1) as nat, |i: int| false));
    }
}

/// A success always starts the count again and never warns.
pub proof fn lemma_success_resets(limit: u32, count: u64)
    ensures
        fail_step(limit, count, true) == (false, 0u64),
{
}

/// The price feed of Coinbase: it polls an url.
pub struct CoinbasePriceFeed {
    url: String,
}

impl CoinbasePriceFeed {
    pub fn new(url: String) -> (r: CoinbasePriceFeed)
        ensures
            r.url()@ == url@,
    {
        CoinbasePriceFeed { url }
    }

    pub closed spec fn url(&self) -> String {
        self.url
    }

    pub fn url_str(&self) -> (r: &str)
        ensures
            r@ == self.url()@,
    {
        self.url.as_str()
    }

    /// The rate quoted in USD among the rates of a reply, as text; where there is none, the
    /// error "No data" with no status.
    pub fn usd_rate(rates: &Vec<(String, String)>) -> (r: Result<String, FeedErr>)
        ensures
            (match r {
                Ok(v) => exists|i: int|
                    0 <= i < rates@.len() && (#[trigger] rates@[i]).0@ == "USD"@ && v@ == rates@[i].1@
                        && forall|j: int| 0 <= j < i ==> (#[trigger] rates@[j]).0@ != "USD"@,
                Err(e) => e.code is None && e.message@ == "No data"@ && forall|i: int|
                    0 <= i < rates@.len() ==> (#[trigger] rates@[i]).0@ != "USD"@,
            }),
    {
        let usd = String::from_str("USD");
        let mut i: usize = 0;
        while i < rates.len()
            invariant
                usd@ == "USD"@,
                i <= rates@.len(),
                forall|j: int| 0 <= j < i ==> (#[trigger] rates@[j]).0@ != "USD"@,
            decreases rates.len() - i,
        {
            if rates[i].0 == usd {
                let v = rates[i].1.clone();
                return Ok(v);
            }
            i = i + 1;
        }
        Err(FeedErr::new(None, String::from_str("No data")))
    }
}

/// The price feed of Uniswap, which for now gives a fixed price.
pub struct UniswapFeed {}

/// The price that the Uniswap feed gives: 10000.
pub const UNISWAP_PRICE: u64 = 10000 * SCALE;

impl UniswapFeed {
    pub fn new() -> (r: UniswapFeed) {
        UniswapFeed {  }
    }

    /// The price event that the feed gives at `now`.
    pub fn event_at(&self, now: i64) -> (r: PriceEvent)
        ensures
            r == (PriceEvent { price: UNISWAP_PRICE, timestamp: now }),
    {
        PriceEvent { price: UNISWAP_PRICE, timestamp: now }
    }
}

/// A trade of the Binance aggregated trade stream.
#[allow(non_snake_case)]
pub struct AggTrade {
    /// Price
    pub p: String,
    /// Trade time
    pub T: i64,
}

impl AggTrade {
    /// The price event of the trade; None where its price is not a number that a
    /// fixed-point price holds exactly (see `decimal_value`: negative prices, non-zero digits
    /// past the eighth decimal place, prices beyond `u64`, `inf` and `NaN` are refused).
    pub fn to_price_event(&self) -> (r: Option<PriceEvent>)
        ensures
            match fixed_value(self.p@) {
                Some(price) => r == Some(PriceEvent { price, timestamp: self.T }),
                None => r is None,
            },
    {
        match parse_fixed(self.p.as_str()) {
            Some(price) => Some(PriceEvent { price, timestamp: self.T }),
            None => None,
        }
    }
}

} // verus!
