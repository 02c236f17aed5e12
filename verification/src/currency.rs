//! The two supported currencies and the bilateral conversion policy.
//!
//! Amounts are fixed-point integers in minor units.  The single
//! authoritative exchange rate is kept as a ratio of two integer
//! constants, so that one EUR is worth `RATE_NUM / RATE_DEN` NOK; both
//! directions of conversion use the same pair, with the quotient rounded
//! toward zero.

use vstd::prelude::*;
use vstd::string::StrSliceExecFns;
use vstd::string::StringExecFns;

verus! {

/// Numerator of the EUR -> NOK exchange rate (the rate is 11.7).
pub const RATE_NUM: u64 = 117;

/// Denominator of the EUR -> NOK exchange rate.
pub const RATE_DEN: u64 = 10;

/// Largest amount, in minor units, that the ledger accepts for a single
/// entry, expense or budget.  The bound keeps every conversion and every
/// aggregate comfortably inside the machine integer types.
pub const MAX_AMOUNT: u64 = 1_000_000_000_000;

/// Largest value a single converted amount can take:
/// `MAX_AMOUNT * RATE_NUM / RATE_DEN`.
pub const MAX_CONVERTED: u64 = 11_700_000_000_000;

/// Bound up to which `convert_wide` accepts totals; far above any sum
/// the ledger can accumulate, far below overflow of the rate product.
pub const WIDE_LIMIT: u128 = 1_000_000_000_000_000_000_000_000_000_000_000;

/// One of the two supported currency codes.
#[derive(Clone, Copy, PartialEq, Eq, Structural, Debug)]
pub enum Currency {
    Nok,
    Eur,
}

/// What `convert` returns: the identity on equal currencies, otherwise
/// the fixed bilateral rate, rounded toward zero.
pub open spec fn spec_convert(amount: int, from: Currency, to: Currency) -> int {
    if from == to {
        amount
    } else if from == Currency::Nok {
        amount * (RATE_DEN as int) / (RATE_NUM as int)
    } else {
        amount * (RATE_NUM as int) / (RATE_DEN as int)
    }
}

impl Currency {
    /// The three-letter code of the currency.
    pub open spec fn spec_code(self) -> Seq<char> {
        match self {
            Currency::Nok => "NOK"@,
            Currency::Eur => "EUR"@,
        }
    }

    /// Returns the three-letter code as a fresh string.
    pub fn code(&self) -> (r: String)
        ensures
            r@ == self.spec_code(),
    {
        match self {
            Currency::Nok => nok_literal(),
            Currency::Eur => eur_literal(),
        }
    }

    /// Parses a currency code; only the two supported codes are accepted.
    pub fn from_code(s: &str) -> (r: Option<Currency>)
        ensures
            r == Currency::spec_from_code(s@),
    {
        if str_eq_code(s, Currency::Nok) {
            Some(Currency::Nok)
        } else if str_eq_code(s, Currency::Eur) {
            Some(Currency::Eur)
        } else {
            None
        }
    }

    /// Which currency, if any, a character sequence denotes.
    pub open spec fn spec_from_code(s: Seq<char>) -> Option<Currency> {
        if s == "NOK"@ {
            Some(Currency::Nok)
        } else if s == "EUR"@ {
            Some(Currency::Eur)
        } else {
            None
        }
    }
}

fn nok_literal() -> (r: String)
    ensures
        r@ == "NOK"@,
{
    String::from_str("NOK")
}

fn eur_literal() -> (r: String)
    ensures
        r@ == "EUR"@,
{
    String::from_str("EUR")
}

/// Compares a string with the code of `c`, character by character.
fn str_eq_code(s: &str, c: Currency) -> (r: bool)
    ensures
        r == (s@ == c.spec_code()),
{
    proof {
        reveal_strlit("NOK");
        reveal_strlit("EUR");
    }
    let n = s.unicode_len();
    if n != 3 {
        proof {
            assert(s@ != c.spec_code());
        }
        return false;
    }
    let (c0, c1, c2) = match c {
        Currency::Nok => ('N', 'O', 'K'),
        Currency::Eur => ('E', 'U', 'R'),
    };
    let r = s.get_char(0) == c0 && s.get_char(1) == c1 && s.get_char(2) == c2;
    proof {
        if r {
            assert(s@ =~= c.spec_code());
        }
    }
    r
}

/// Converts an amount in minor units between two currencies: the
/// identity when the currencies agree, otherwise the fixed rate with
/// the quotient rounded toward zero.
pub fn convert(amount: u64, from: Currency, to: Currency) -> (r: u64)
    requires
        amount <= MAX_AMOUNT,
    ensures
        r == spec_convert(amount as int, from, to),
        r <= MAX_CONVERTED,
{
    if from == to {
        amount
    } else if matches!(from, Currency::Nok) {
        let scaled = amount * RATE_DEN;
        let q = scaled / RATE_NUM;
        proof {
            assert(q <= amount as int) by (nonlinear_arith)
                requires
                    q == amount * (RATE_DEN as int) / (RATE_NUM as int),
                    0 <= amount,
                    RATE_DEN == 10,
                    RATE_NUM == 117,
            ;
        }
        q
    } else {
        let scaled = amount * RATE_NUM;
        scaled / RATE_DEN
    }
}

/// What `convert_currency` returns: the fixed rate when both codes are
/// supported, and the amount unchanged for any other pair of codes —
/// the no-op fallback, not an error.
pub open spec fn spec_convert_codes(amount: int, from: Seq<char>, to: Seq<char>) -> int {
    match (Currency::spec_from_code(from), Currency::spec_from_code(to)) {
        (Some(f), Some(t)) => spec_convert(amount, f, t),
        _ => amount,
    }
}

/// Converts between currencies named by code; a pair outside the
/// supported set leaves the amount unmodified.
pub fn convert_currency(amount: u64, from: &str, to: &str) -> (r: u64)
    requires
        amount <= MAX_AMOUNT,
    ensures
        r == spec_convert_codes(amount as int, from@, to@),
        r <= MAX_CONVERTED,
{
    match (Currency::from_code(from), Currency::from_code(to)) {
        (Some(f), Some(t)) => convert(amount, f, t),
        _ => amount,
    }
}

/// Converts a wide amount (an already-summed total) between two
/// currencies, under the same policy as `convert`.
pub fn convert_wide(amount: u128, from: Currency, to: Currency) -> (r: u128)
    requires
        amount <= WIDE_LIMIT,
    ensures
        r == spec_convert(amount as int, from, to),
{
    let num = RATE_NUM as u128;
    let den = RATE_DEN as u128;
    proof {
        assert(num == 117 && den == 10);
    }
    if from == to {
        amount
    } else if matches!(from, Currency::Nok) {
        amount * den / num
    } else {
        amount * num / den
    }
}

/// A conversion of an accepted amount is nonnegative and stays under
/// `MAX_CONVERTED`.
pub proof fn lemma_convert_range(amount: int, from: Currency, to: Currency)
    requires
        0 <= amount <= MAX_AMOUNT,
    ensures
        0 <= spec_convert(amount, from, to) <= MAX_CONVERTED,
{
    let n = RATE_NUM as int;
    let d = RATE_DEN as int;
    if from != to {
        if from == Currency::Nok {
            let q = amount * d / n;
            assert(0 <= q <= amount) by (nonlinear_arith)
                requires
                    q == amount * d / n,
                    0 <= amount,
                    n == 117,
                    d == 10,
            ;
        } else {
            let q = amount * n / d;
            assert(0 <= q <= 11_700_000_000_000) by (nonlinear_arith)
                requires
                    q == amount * n / d,
                    0 <= amount <= 1_000_000_000_000,
                    n == 117,
                    d == 10,
            ;
        }
    }
}

/// Converting with equal source and target currency is exactly the
/// identity, whatever the amount.
pub proof fn lemma_convert_identity(amount: int, c: Currency)
    ensures
        spec_convert(amount, c, c) == amount,
{
}

/// Converting an amount to the other currency and back comes within
/// twelve minor units of the original, never above it: the only loss is
/// the rounding of the two integer quotients.
pub proof fn lemma_convert_round_trip(amount: int, from: Currency, to: Currency)
    requires
        0 <= amount,
    ensures
        spec_convert(spec_convert(amount, from, to), to, from) <= amount,
        spec_convert(spec_convert(amount, from, to), to, from) >= amount - 12,
{
    if from != to {
        let n = RATE_NUM as int;
        let d = RATE_DEN as int;
        if from == Currency::Nok {
            let q = amount * d / n;
            assert(amount * d == n * (amount * d / n) + (amount * d) % n) by {
                vstd::arithmetic::div_mod::lemma_fundamental_div_mod(amount * d, n);
            }
            let r1 = (amount * d) % n;
            assert(0 <= r1 < n);
            assert(q * n == amount * d - r1);
            assert(q * n / d <= amount && q * n / d >= amount - 12) by (nonlinear_arith)
                requires
                    q * n == amount * d - r1,
                    0 <= r1 < n,
                    n == 117,
                    d == 10,
                    0 <= amount,
                    0 <= q,
            ;
        } else {
            let q = amount * n / d;
            assert(amount * n == d * (amount * n / d) + (amount * n) % d) by {
                vstd::arithmetic::div_mod::lemma_fundamental_div_mod(amount * n, d);
            }
            let r1 = (amount * n) % d;
            assert(0 <= r1 < d);
            assert(q * d == amount * n - r1);
            assert(q * d / n <= amount && q * d / n >= amount - 1) by (nonlinear_arith)
                requires
                    q * d == amount * n - r1,
                    0 <= r1 < d,
                    n == 117,
                    d == 10,
                    0 <= amount,
                    0 <= q,
            ;
        }
    }
}

} // verus!
