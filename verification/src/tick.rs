//! Market ticks: an immutable observed record of one (bid, ask, last)
//! observation with sizes and a millisecond timestamp.
//!
//! Prices are exact decimals held as an integer mantissa with a decimal
//! scale, so that validation (strict positivity) is integer arithmetic.

use vstd::prelude::*;

verus! {

/// An exact decimal number: `mantissa * 10^(-scale)`, with
/// `scale <= 28`.
#[derive(Clone, Copy, PartialEq, Eq, Structural, Debug)]
pub struct Price {
    mantissa: i64,
    scale: u32,
}

pub const MAX_PRICE_SCALE: u32 = 28;

impl Price {
    pub closed spec fn mantissa_spec(&self) -> int {
        self.mantissa as int
    }

    pub closed spec fn scale_spec(&self) -> nat {
        self.scale as nat
    }

    /// A price is positive exactly when its mantissa is.
    pub open spec fn is_positive_spec(&self) -> bool {
        self.mantissa_spec() > 0
    }

    pub fn new(mantissa: i64, scale: u32) -> (r: Price)
        requires
            scale <= MAX_PRICE_SCALE,
        ensures
            r.mantissa_spec() == mantissa as int,
            r.scale_spec() == scale as nat,
            r == spec_price(mantissa as int, scale as nat),
    {
        Price { mantissa, scale }
    }

    pub fn mantissa(&self) -> (r: i64)
        ensures
            r as int == self.mantissa_spec(),
    {
        self.mantissa
    }

    pub fn scale(&self) -> (r: u32)
        ensures
            r as nat == self.scale_spec(),
    {
        self.scale
    }

    pub fn is_positive(&self) -> (r: bool)
        ensures
            r == self.is_positive_spec(),
    {
        self.mantissa > 0
    }
}

/// The price with the given mantissa and scale, for use in
/// specifications.
pub closed spec fn spec_price(mantissa: int, scale: nat) -> Price {
    Price { mantissa: mantissa as i64, scale: scale as u32 }
}

pub proof fn lemma_spec_price(mantissa: int, scale: nat)
    requires
        i64::MIN <= mantissa <= i64::MAX,
        scale <= u32::MAX,
    ensures
        spec_price(mantissa, scale).mantissa_spec() == mantissa,
        spec_price(mantissa, scale).scale_spec() == scale,
{
}

/// The mathematical content of a tick, used in contracts.
pub struct TickView {
    pub timestamp_ms: int,
    pub symbol: Seq<char>,
    pub bid_price: Price,
    pub bid_size: u32,
    pub ask_price: Price,
    pub ask_size: u32,
    pub last_price: Price,
    pub last_size: u32,
}

impl TickView {
    /// Validity of a tick: non-empty symbol, strictly positive prices.
    pub open spec fn wf(&self) -> bool {
        self.symbol.len() > 0 && self.bid_price.is_positive_spec()
            && self.ask_price.is_positive_spec() && self.last_price.is_positive_spec()
    }
}

/// An immutable market observation. Only `Tick::new` builds one, and it
/// rejects an empty symbol and non-positive prices.
#[derive(Debug)]
pub struct Tick {
    timestamp_ms: i64,
    symbol: String,
    bid_price: Price,
    bid_size: u32,
    ask_price: Price,
    ask_size: u32,
    last_price: Price,
    last_size: u32,
}

impl View for Tick {
    type V = TickView;

    closed spec fn view(&self) -> TickView {
        TickView {
            timestamp_ms: self.timestamp_ms as int,
            symbol: self.symbol@,
            bid_price: self.bid_price,
            bid_size: self.bid_size,
            ask_price: self.ask_price,
            ask_size: self.ask_size,
            last_price: self.last_price,
            last_size: self.last_size,
        }
    }
}

impl DeepView for Tick {
    type V = TickView;

    open spec fn deep_view(&self) -> TickView {
        self.view()
    }
}

#[derive(Debug)]
pub enum TickValidationError {
    EmptySymbol,
    InvalidPrice(&'static str),
}

impl Tick {
    /// Validate and build a tick. Fails with `EmptySymbol` exactly when
    /// the symbol is empty, and otherwise with `InvalidPrice` exactly
    /// when one of the three prices is not strictly positive.
    pub fn new(
        timestamp_ms: i64,
        symbol: String,
        bid_price: Price,
        bid_size: u32,
        ask_price: Price,
        ask_size: u32,
        last_price: Price,
        last_size: u32,
    ) -> (r: Result<Tick, TickValidationError>)
        ensures
            (r matches Ok(t)) <==> (symbol@.len() > 0 && bid_price.is_positive_spec()
                && ask_price.is_positive_spec() && last_price.is_positive_spec()),
            r matches Ok(t) ==> t@ == (TickView {
                timestamp_ms: timestamp_ms as int,
                symbol: symbol@,
                bid_price,
                bid_size,
                ask_price,
                ask_size,
                last_price,
                last_size,
            }) && t@.wf(),
            (r matches Err(TickValidationError::EmptySymbol)) <==> symbol@.len() == 0,
            (r matches Err(TickValidationError::InvalidPrice(m))) <==> (symbol@.len() > 0 && !(
            bid_price.is_positive_spec() && ask_price.is_positive_spec()
                && last_price.is_positive_spec())),
    {
        if symbol.as_str().is_empty() {
            return Err(TickValidationError::EmptySymbol);
        }
        if !bid_price.is_positive() {
            return Err(TickValidationError::InvalidPrice("bid_price must be positive"));
        }
        if !ask_price.is_positive() {
            return Err(TickValidationError::InvalidPrice("ask_price must be positive"));
        }
        if !last_price.is_positive() {
            return Err(TickValidationError::InvalidPrice("last_price must be positive"));
        }
        Ok(
            Tick {
                timestamp_ms,
                symbol,
                bid_price,
                bid_size,
                ask_price,
                ask_size,
                last_price,
                last_size,
            },
        )
    }

    /// A field-for-field copy of this tick.
    pub fn duplicate(&self) -> (r: Tick)
        ensures
            r@ == self@,
    {
        Tick {
            timestamp_ms: self.timestamp_ms,
            symbol: self.symbol.clone(),
            bid_price: self.bid_price,
            bid_size: self.bid_size,
            ask_price: self.ask_price,
            ask_size: self.ask_size,
            last_price: self.last_price,
            last_size: self.last_size,
        }
    }

    /// Timestamp in milliseconds since the epoch.
    pub fn timestamp(&self) -> (r: i64)
        ensures
            r as int == self@.timestamp_ms,
    {
        self.timestamp_ms
    }

    pub fn symbol(&self) -> (r: &str)
        ensures
            r@ == self@.symbol,
    {
        self.symbol.as_str()
    }

    pub fn bid_price(&self) -> (r: Price)
        ensures
            r == self@.bid_price,
    {
        self.bid_price
    }

    pub fn bid_size(&self) -> (r: u32)
        ensures
            r == self@.bid_size,
    {
        self.bid_size
    }

    pub fn ask_price(&self) -> (r: Price)
        ensures
            r == self@.ask_price,
    {
        self.ask_price
    }

    pub fn ask_size(&self) -> (r: u32)
        ensures
            r == self@.ask_size,
    {
        self.ask_size
    }

    pub fn last_price(&self) -> (r: Price)
        ensures
            r == self@.last_price,
    {
        self.last_price
    }

    pub fn last_size(&self) -> (r: u32)
        ensures
            r == self@.last_size,
    {
        self.last_size
    }
}

} // verus!
