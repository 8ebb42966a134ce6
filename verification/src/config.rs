//! The configuration of the service: named parameters, each with a default.

use crate::decimal::{
    all_digits, chars_of, digit_of, digits_value, is_digit, lemma_digits_value_bounds,
    lemma_digits_value_prefix_le, lemma_digits_value_step,
};
use vstd::prelude::*;

verus! {

/// The broker address used where none is given.
pub const DEFAULT_BROKER: &'static str = "localhost:29092";

/// The inbound topic used where none is given.
pub const DEFAULT_TRADE_TOPIC: &'static str = "trade-data";

/// The outbound topic used where none is given.
pub const DEFAULT_RSI_TOPIC: &'static str = "rsi-data";

/// The consumer group used where none is given.
pub const DEFAULT_GROUP_ID: &'static str = "rsi-service";

/// The offset-reset policy used where none is given.
pub const DEFAULT_AUTO_OFFSET_RESET: &'static str = "earliest";

/// The indicator period used where none is given, or none that is a period.
pub const DEFAULT_PERIOD: usize = 14;

/// How long one publication may wait to be sent, in seconds.
pub const SEND_TIMEOUT_SECS: u64 = 5;

/// The parameters of the service, resolved once at startup.
#[derive(Debug, PartialEq, Eq)]
pub struct Config {
    pub broker: String,
    pub trade_topic: String,
    pub rsi_topic: String,
    pub period: usize,
    pub group_id: String,
    pub auto_offset_reset: String,
}

/// The period that a text names: an optional `+` and at least one decimal
/// digit, writing a number from 1 to `usize::MAX`.
pub open spec fn period_of_text(s: Seq<char>) -> Option<usize> {
    let from = if s.len() > 0 && s[0] == '+' { 1int } else { 0int };
    let digits = s.subrange(from, s.len() as int);
    if digits.len() > 0 && all_digits(digits) && 1 <= digits_value(digits) <= usize::MAX {
        Some(digits_value(digits) as usize)
    } else {
        None
    }
}

/// The given text, or the default where none is given.
pub open spec fn text_or(given: Option<String>, default: Seq<char>) -> Seq<char> {
    match given {
        Some(text) => text@,
        None => default,
    }
}

/// The period that the given text names, or the default where none is given
/// or the text names no period.
pub open spec fn period_or_default(given: Option<String>) -> usize {
    match given {
        Some(text) => match period_of_text(text@) {
            Some(period) => period,
            None => DEFAULT_PERIOD,
        },
        None => DEFAULT_PERIOD,
    }
}

/// The number written by the characters from `from` on, where they are all
/// digits and the number fits.
fn read_number(s: &Vec<char>, from: usize) -> (r: Option<usize>)
    requires
        from <= s.len(),
    ensures
        r == ({
            let digits = s@.subrange(from as int, s.len() as int);
            if all_digits(digits) && digits_value(digits) <= usize::MAX {
                Some(digits_value(digits) as usize)
            } else {
                None
            }
        }),
{
    let n = s.len();
    let ghost digits = s@.subrange(from as int, n as int);
    let mut value: usize = 0;
    let mut i: usize = from;
    while i < n
        invariant
            from <= i <= n == s.len(),
            digits == s@.subrange(from as int, n as int),
            all_digits(digits.take(i - from)),
            value == digits_value(digits.take(i - from)),
        decreases n - i,
    {
        proof {
            assert(digits[i - from] == s@[i as int]);
            lemma_digits_value_step(digits, i - from);
            if all_digits(digits) {
                lemma_digits_value_prefix_le(digits, i - from + 1, digits.len() as int);
                assert(digits.take(digits.len() as int) =~= digits);
            }
        }
        let d = match digit_of(s[i]) {
            Some(d) => d,
            None => {
                return None;
            },
        };
        proof {
            assert forall|j: int| 0 <= j < i - from + 1 implies is_digit(
                #[trigger] digits.take(i - from + 1)[j],
            ) by {
                if j < i - from {
                    assert(digits.take(i - from)[j] == digits[j]);
                }
            }
        }
        let tenfold = match value.checked_mul(10) {
            Some(x) => x,
            None => {
                return None;
            },
        };
        value = match tenfold.checked_add(d as usize) {
            Some(x) => x,
            None => {
                return None;
            },
        };
        i += 1;
    }
    proof {
        assert(digits.take(n - from) =~= digits);
    }
    Some(value)
}

/// Reads a period: a positive whole number in decimal digits.
pub fn parse_period(text: &str) -> (r: Option<usize>)
    ensures
        r == period_of_text(text@),
{
    let s = chars_of(text);
    let n = s.len();
    let from: usize = if n > 0 && s[0] == '+' { 1 } else { 0 };
    if from == n {
        return None;
    }
    proof {
        let digits = s@.subrange(from as int, n as int);
        if all_digits(digits) {
            lemma_digits_value_bounds(digits);
        }
    }
    match read_number(&s, from) {
        Some(value) => {
            if value == 0 {
                None
            } else {
                Some(value)
            }
        },
        None => None,
    }
}

/// The given text, or a copy of the default where none is given.
fn text_or_default(given: Option<String>, default: &str) -> (text: String)
    ensures
        text@ == text_or(given, default@),
{
    match given {
        Some(text) => text,
        None => default.to_owned(),
    }
}

impl Config {
    /// Whether the period is one the indicator can be computed over.
    pub open spec fn valid(&self) -> bool {
        self.period >= 1
    }

    /// The configuration with every parameter at its default.
    pub fn defaults() -> (config: Config)
        ensures
            config.valid(),
            config.broker@ == DEFAULT_BROKER@,
            config.trade_topic@ == DEFAULT_TRADE_TOPIC@,
            config.rsi_topic@ == DEFAULT_RSI_TOPIC@,
            config.period == DEFAULT_PERIOD,
            config.group_id@ == DEFAULT_GROUP_ID@,
            config.auto_offset_reset@ == DEFAULT_AUTO_OFFSET_RESET@,
    {
        Config::resolve(None, None, None, None, None, None)
    }

    /// The configuration from the values that were supplied: each parameter
    /// is the value given for it, or its default where none was given. A
    /// period that is no positive whole number counts as not given.
    pub fn resolve(
        broker: Option<String>,
        trade_topic: Option<String>,
        rsi_topic: Option<String>,
        period: Option<String>,
        group_id: Option<String>,
        auto_offset_reset: Option<String>,
    ) -> (config: Config)
        ensures
            config.valid(),
            config.broker@ == text_or(broker, DEFAULT_BROKER@),
            config.trade_topic@ == text_or(trade_topic, DEFAULT_TRADE_TOPIC@),
            config.rsi_topic@ == text_or(rsi_topic, DEFAULT_RSI_TOPIC@),
            config.period == period_or_default(period),
            config.group_id@ == text_or(group_id, DEFAULT_GROUP_ID@),
            config.auto_offset_reset@ == text_or(auto_offset_reset, DEFAULT_AUTO_OFFSET_RESET@),
    {
        let resolved_period = match &period {
            Some(text) => match parse_period(text.as_str()) {
                Some(p) => p,
                None => DEFAULT_PERIOD,
            },
            None => DEFAULT_PERIOD,
        };
        Config {
            broker: text_or_default(broker, DEFAULT_BROKER),
            trade_topic: text_or_default(trade_topic, DEFAULT_TRADE_TOPIC),
            rsi_topic: text_or_default(rsi_topic, DEFAULT_RSI_TOPIC),
            period: resolved_period,
            group_id: text_or_default(group_id, DEFAULT_GROUP_ID),
            auto_offset_reset: text_or_default(auto_offset_reset, DEFAULT_AUTO_OFFSET_RESET),
        }
    }
}

} // verus!
