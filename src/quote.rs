//! The latest-known snapshot of a ticker and the error a fetch can give.
use vstd::prelude::*;
use vstd::string::StringExecFns;

verus! {

/// Direction of the latest price move, used to colour a row.
#[derive(Debug, Clone, Copy, PartialEq, Eq, Structural)]
pub enum QuoteState {
    POSITIVE,
    NEGATIVE,
    NEUTRAL,
}

/// The direction of a price move of `change` millionths.
pub open spec fn state_of(change: i64) -> QuoteState {
    if change > 0 {
        QuoteState::POSITIVE
    } else if change == 0 {
        QuoteState::NEUTRAL
    } else {
        QuoteState::NEGATIVE
    }
}

/// A fetched quote. Raw amounts are in millionths of a currency unit and
/// `timestamp` is the fetch time in seconds since the Unix epoch.
#[derive(Debug, Clone)]
pub struct Quote {
    pub timestamp: i64,
    pub ticker: String,
    pub price: String,
    pub price_raw: i64,
    pub percent_change: String,
    pub amount_change: String,
    pub amount_change_raw: i64,
}

/// The history sample a quote becomes: its fetch time and raw price.
pub open spec fn chartable(q: Quote) -> (i64, i64) {
    (q.timestamp, q.price_raw)
}

impl Quote {
    /// Whether the price moved up, down or not at all.
    pub fn get_state(&self) -> (r: QuoteState)
        ensures
            r == state_of(self.amount_change_raw),
    {
        if self.amount_change_raw > 0 {
            QuoteState::POSITIVE
        } else if self.amount_change_raw == 0 {
            QuoteState::NEUTRAL
        } else {
            QuoteState::NEGATIVE
        }
    }

    /// Column titles of the summary table.
    pub fn get_table_headers() -> (r: Vec<String>)
        ensures
            r@.len() == 4,
            r@[0]@ == "Ticker"@,
            r@[1]@ == "Price"@,
            r@[2]@ == "% Change"@,
            r@[3]@ == "$ Change"@,
    {
        let mut r: Vec<String> = Vec::new();
        r.push("Ticker".to_owned());
        r.push("Price".to_owned());
        r.push("% Change".to_owned());
        r.push("$ Change".to_owned());
        r
    }

    /// The cells of this quote's row in the summary table.
    pub fn as_row(&self) -> (r: Vec<String>)
        ensures
            r@.len() == 4,
            r@[0]@ == self.ticker@,
            r@[1]@ == self.price@,
            r@[2]@ == self.percent_change@,
            r@[3]@ == self.amount_change@,
    {
        let mut r: Vec<String> = Vec::new();
        r.push(self.ticker.clone());
        r.push(self.price.clone());
        r.push(self.percent_change.clone());
        r.push(self.amount_change.clone());
        r
    }

    /// The history sample this quote becomes.
    pub fn to_chartable(&self) -> (r: (i64, i64))
        ensures
            r == chartable(*self),
    {
        (self.timestamp, self.price_raw)
    }
}

/// A failed fetch: a status code and a message.
#[derive(Debug, Clone)]
pub struct QuoteError {
    pub status_code: u16,
    pub msg: String,
}

/// The decimal digit for `d < 10`.
pub open spec fn digit_char(d: nat) -> char {
    ((d + 48) as u8) as char
}

/// The decimal digits of `n`, without sign or leading zeros.
pub open spec fn decimal(n: nat) -> Seq<char>
    decreases n,
{
    if n < 10 {
        seq![digit_char(n)]
    } else {
        decimal(n / 10).push(digit_char(n % 10))
    }
}

/// Relies on `u16`'s `ToString`: its decimal digits.
#[verifier::external_body]
fn u16_text(n: u16) -> (r: String)
    ensures
        r@ == decimal(n as nat),
{
    n.to_string()
}

impl QuoteError {
    pub fn new(status_code: u16, msg: &str) -> (r: QuoteError)
        ensures
            r.status_code == status_code,
            r.msg@ == msg@,
    {
        QuoteError { status_code: status_code, msg: msg.to_owned() }
    }

    /// The message alone.
    pub fn description(&self) -> (r: &str)
        ensures
            r@ == self.msg@,
    {
        self.msg.as_str()
    }

    /// `status_code:msg`, the code in decimal.
    pub fn to_string(&self) -> (r: String)
        ensures
            r@ == decimal(self.status_code as nat) + seq![':'] + self.msg@,
    {
        let mut s = u16_text(self.status_code);
        s.append(":");
        s.append(self.msg.as_str());
        proof {
            reveal_strlit(":");
        }
        s
    }
}

} // verus!
