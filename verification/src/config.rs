//! Runtime configuration of the service and how it is read from the raw
//! settings (environment variables) it is given.

use crate::money::{decimal_parse, money_of, Money};
use vstd::prelude::*;

verus! {

/// Settings read at start-up: where to listen, where snapshots go, the
/// overdraft limit and how many transaction workers run.
#[derive(Debug, Clone)]
pub struct AppConfig {
    pub host: String,
    pub port: u16,
    pub data_file_path: String,
    pub max_negative_balance: Money,
    pub worker_count: usize,
}

/// The raw values of the settings, `None` where one is not set.
#[derive(Debug)]
pub struct Settings {
    pub app_host: Option<String>,
    pub app_port: Option<String>,
    pub data_file_path: Option<String>,
    pub max_negative_balance: Option<String>,
    pub worker_count: Option<String>,
}

pub open spec fn is_ascii_digit(c: char) -> bool {
    '0' <= c && c <= '9'
}

pub open spec fn all_digits(s: Seq<char>) -> bool {
    forall|i: int| 0 <= i < s.len() ==> is_ascii_digit(#[trigger] s[i])
}

/// The number that a sequence of decimal digits denotes.
pub open spec fn digits_value(s: Seq<char>) -> nat
    decreases s.len(),
{
    if s.len() == 0 {
        0
    } else {
        digits_value(s.drop_last()) * 10 + ((s.last() as int) - ('0' as int)) as nat
    }
}

/// The digits of an unsigned number: the text without one leading `+`.
pub open spec fn unsigned_digits(s: Seq<char>) -> Seq<char> {
    if s.len() > 0 && s[0] == '+' {
        s.skip(1)
    } else {
        s
    }
}

/// What `str::parse` gives for an unsigned integer type whose largest value is
/// `max`: an optional `+` and then one or more ASCII digits, denoting at most `max`.
pub open spec fn parse_unsigned(s: Seq<char>, max: nat) -> Option<nat> {
    let d = unsigned_digits(s);
    if d.len() > 0 && all_digits(d) && digits_value(d) <= max {
        Some(digits_value(d))
    } else {
        None
    }
}

/// A digit sequence denotes at least as much as each of its prefixes.
proof fn lemma_digits_prefix_le(s: Seq<char>, k: int)
    requires
        0 <= k <= s.len(),
        all_digits(s),
    ensures
        digits_value(s.take(k)) <= digits_value(s),
    decreases s.len(),
{
    if k < s.len() {
        assert(s.drop_last().take(k) =~= s.take(k));
        assert(all_digits(s.drop_last())) by {
            assert forall|i: int| 0 <= i < s.drop_last().len() implies is_ascii_digit(#[trigger] s.drop_last()[i]) by {
                assert(is_ascii_digit(s[i]));
            }
        }
        lemma_digits_prefix_le(s.drop_last(), k);
    } else {
        assert(s.take(k) =~= s);
    }
}

/// Parses an unsigned integer as `str::parse` does for a type whose largest value is `max`.
pub fn parse_unsigned_at_most(s: &str, max: u64) -> (r: Option<u64>)
    ensures
        match parse_unsigned(s@, max as nat) {
            Some(v) => r == Some(v as u64),
            None => r is None,
        },
{
    let len = s.unicode_len();
    let start: usize = if len > 0 && s.get_char(0) == '+' {
        1
    } else {
        0
    };
    let ghost text = s@;
    let ghost digits = unsigned_digits(text);
    proof {
        assert(digits =~= text.subrange(start as int, len as int));
    }
    if start >= len {
        return None;
    }
    let mut value: u64 = 0;
    let mut i = start;
    while i < len
        invariant
            text == s@,
            len == text.len(),
            start <= i <= len,
            digits == text.subrange(start as int, len as int),
            digits == unsigned_digits(text),
            all_digits(digits.take(i - start)),
            value == digits_value(digits.take(i - start)),
            value <= max,
        decreases len - i,
    {
        let c = s.get_char(i);
        let prefix = Ghost(digits.take(i - start));
        let next = Ghost(digits.take(i - start + 1));
        proof {
            assert(next@.drop_last() =~= prefix@);
            assert(next@.last() == c);
        }
        if c < '0' || c > '9' {
            proof {
                assert(!is_ascii_digit(digits[i - start]));
            }
            return None;
        }
        let d: u64 = (c as u32 - '0' as u32) as u64;
        assert(d as int == (c as int) - ('0' as int));
        if d > max || value > (max - d) / 10 {
            proof {
                assert(value * 10 + d > max) by (nonlinear_arith)
                    requires
                        d > max || value > (max - d) / 10,
                        d <= 9,
                ;
                assert(all_digits(next@)) by {
                    assert forall|j: int| 0 <= j < next@.len() implies is_ascii_digit(#[trigger] next@[j]) by {
                        if j < next@.len() - 1 {
                            assert(next@[j] == prefix@[j]);
                        }
                    }
                }
                assert(digits_value(next@) == value * 10 + d);
                if all_digits(digits) {
                    lemma_digits_prefix_le(digits, i - start + 1);
                }
            }
            return None;
        }
        proof {
            assert(value * 10 + d <= max) by (nonlinear_arith)
                requires
                    d <= max,
                    value <= (max - d) / 10,
            ;
            assert forall|j: int| 0 <= j < next@.len() implies is_ascii_digit(#[trigger] next@[j]) by {
                if j < next@.len() - 1 {
                    assert(next@[j] == prefix@[j]);
                }
            }
        }
        value = value * 10 + d;
        i = i + 1;
    }
    proof {
        assert(digits.take(len - start) =~= digits);
    }
    Some(value)
}

/// The first problem with the settings, as the message that start-up fails with.
pub open spec fn settings_problem(s: Settings) -> Option<Seq<char>> {
    if s.app_host is None {
        Some("APP_HOST must be set"@)
    } else if s.app_port is None {
        Some("APP_PORT must be set"@)
    } else if parse_unsigned(s.app_port->0@, u16::MAX as nat) is None {
        Some("APP_PORT must be a valid u16 number"@)
    } else if s.data_file_path is None {
        Some("DATA_FILE_PATH must be set"@)
    } else if s.max_negative_balance is None {
        Some("MAX_NEGATIVE_BALANCE must be set"@)
    } else if decimal_parse(s.max_negative_balance->0@) is None {
        Some("MAX_NEGATIVE_BALANCE must be a valid Decimal"@)
    } else if s.worker_count is None {
        Some("WORKER_COUNT must be set"@)
    } else if parse_unsigned(s.worker_count->0@, usize::MAX as nat) is None {
        Some("WORKER_COUNT must be a valid usize"@)
    } else {
        None
    }
}

fn problem(message: &str) -> (r: Result<AppConfig, String>)
    ensures
        r matches Err(m) && m@ == message@,
{
    Err(String::from_str(message))
}

impl AppConfig {
    /// The overdraft limit is a valid amount.
    pub open spec fn wf(&self) -> bool {
        self.max_negative_balance.wf()
    }

    /// Builds the configuration from the raw settings: each must be set, the
    /// port and the worker count must be unsigned integers of their type, and
    /// the overdraft limit a decimal. Checked in that order; the first
    /// problem is reported.
    pub fn from_settings(settings: Settings) -> (r: Result<AppConfig, String>)
        ensures
            settings_problem(settings) matches Some(m) ==> (r matches Err(e) && e@ == m),
            settings_problem(settings) is None ==> (r matches Ok(c) && {
                &&& c.wf()
                &&& c.host == settings.app_host->0
                &&& c.port as nat == parse_unsigned(settings.app_port->0@, u16::MAX as nat)->0
                &&& c.data_file_path == settings.data_file_path->0
                &&& Some(c.max_negative_balance) == money_of(decimal_parse(settings.max_negative_balance->0@))
                &&& c.worker_count as nat == parse_unsigned(settings.worker_count->0@, usize::MAX as nat)->0
            }),
    {
        let ghost raw = settings;
        let host = match settings.app_host {
            None => return problem("APP_HOST must be set"),
            Some(h) => h,
        };
        let port = match settings.app_port {
            None => return problem("APP_PORT must be set"),
            Some(p) => match parse_unsigned_at_most(p.as_str(), 65535) {
                None => return problem("APP_PORT must be a valid u16 number"),
                Some(v) => v as u16,
            },
        };
        let data_file_path = match settings.data_file_path {
            None => return problem("DATA_FILE_PATH must be set"),
            Some(p) => p,
        };
        let max_negative_balance = match settings.max_negative_balance {
            None => return problem("MAX_NEGATIVE_BALANCE must be set"),
            Some(m) => match Money::parse(m.as_str()) {
                None => return problem("MAX_NEGATIVE_BALANCE must be a valid Decimal"),
                Some(v) => v,
            },
        };
        let worker_count = match settings.worker_count {
            None => return problem("WORKER_COUNT must be set"),
            Some(w) => match parse_unsigned_at_most(w.as_str(), usize::MAX as u64) {
                None => return problem("WORKER_COUNT must be a valid usize"),
                Some(v) => v as usize,
            },
        };
        Ok(AppConfig { host, port, data_file_path, max_negative_balance, worker_count })
    }
}

} // verus!
