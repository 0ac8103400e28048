//! Submission strategy and the policy resolver that turns a strategy plus a
//! backend count into the numeric commit threshold of one round.
use vstd::prelude::*;
use crate::errors::ConfigError;
use crate::text::{lower_of, lowercase};

verus! {

broadcast use vstd::seq::group_seq_axioms;

/// Declarative submission policy: succeed on all backends, on a majority,
/// or on an explicit number of backends.
#[derive(Clone, Copy, Debug, PartialEq, Eq)]
pub enum DAServerSubmitStrategy {
    All,
    /// Majority: `floor(n / 2) + 1` of `n` backends.
    Quorum,
    /// An explicit count, clamped into `[1, n]` during normalization.
    Number(usize),
}

/// Threshold a strategy resolves to against `n` configured backends.
pub open spec fn spec_resolved_threshold(strategy: DAServerSubmitStrategy, n: nat) -> nat {
    match strategy {
        DAServerSubmitStrategy::All => n,
        DAServerSubmitStrategy::Quorum => n / 2 + 1,
        DAServerSubmitStrategy::Number(k) => clamped(k as nat, n),
    }
}

/// `k` clamped into `[1, n]` (into `{1}` when `n == 0`).
pub open spec fn clamped(k: nat, n: nat) -> nat {
    if k < 1 {
        1
    } else if k > n {
        if n < 1 {
            1
        } else {
            n
        }
    } else {
        k
    }
}

/// Pure policy resolution: `All` needs every backend, `Quorum` a majority,
/// `Number(k)` exactly `k` once clamped into range.
pub fn resolve_threshold(strategy: &DAServerSubmitStrategy, backend_count: usize) -> (t: usize)
    ensures
        t == spec_resolved_threshold(*strategy, backend_count as nat),
        strategy is All ==> t == backend_count,
        strategy is Quorum ==> t == backend_count / 2 + 1,
        forall|k: usize| *strategy == DAServerSubmitStrategy::Number(k) ==> t == clamped(
            k as nat,
            backend_count as nat,
        ),
{
    match strategy {
        DAServerSubmitStrategy::All => backend_count,
        DAServerSubmitStrategy::Quorum => backend_count / 2 + 1,
        DAServerSubmitStrategy::Number(k) => {
            let kv: usize = *k;
            if kv < 1 {
                1
            } else if kv > backend_count {
                if backend_count < 1 {
                    1
                } else {
                    backend_count
                }
            } else {
                kv
            }
        },
    }
}

/// Law: against at least one backend, every strategy resolves to a threshold
/// in `[1, backend_count]`.
pub proof fn lemma_threshold_in_range(strategy: DAServerSubmitStrategy, n: nat)
    requires
        n >= 1,
    ensures
        1 <= spec_resolved_threshold(strategy, n) <= n,
{
}

/// A decimal digit.
pub open spec fn is_digit_char(c: char) -> bool {
    48 <= c as u32 && c as u32 <= 57
}

/// Numeric value of a decimal digit.
pub open spec fn digit_val(c: char) -> nat {
    (c as u32 - 48) as nat
}

pub open spec fn all_digits(s: Seq<char>) -> bool {
    forall|i: int| 0 <= i < s.len() ==> is_digit_char(#[trigger] s[i])
}

/// Value of a digit string read in base ten.
pub open spec fn decimal_value(s: Seq<char>) -> nat
    decreases s.len(),
{
    if s.len() == 0 {
        0
    } else {
        decimal_value(s.drop_last()) * 10 + digit_val(s.last())
    }
}

/// The digit part of an unsigned-integer literal: everything after an
/// optional leading `+`.
pub open spec fn unsigned_digits(s: Seq<char>) -> Seq<char> {
    if s.len() > 0 && s[0] == '+' {
        s.skip(1)
    } else {
        s
    }
}

/// What `usize::from_str` accepts: an optional `+`, then one or more decimal
/// digits, with a value that fits in `usize`.
pub open spec fn spec_parse_usize(s: Seq<char>) -> Option<usize> {
    let d = unsigned_digits(s);
    if d.len() >= 1 && all_digits(d) && decimal_value(d) <= usize::MAX {
        Some(decimal_value(d) as usize)
    } else {
        None
    }
}

proof fn lemma_decimal_value_take_step(s: Seq<char>, i: int)
    requires
        0 <= i < s.len(),
    ensures
        decimal_value(s.take(i + 1)) == decimal_value(s.take(i)) * 10 + digit_val(s[i]),
{
    assert(s.take(i + 1).drop_last() =~= s.take(i));
    assert(s.take(i + 1).last() == s[i]);
}

proof fn lemma_decimal_value_take_le(s: Seq<char>, i: int)
    requires
        0 <= i <= s.len(),
    ensures
        decimal_value(s.take(i)) <= decimal_value(s),
    decreases s.len() - i,
{
    if i < s.len() {
        lemma_decimal_value_take_step(s, i);
        lemma_decimal_value_take_le(s, i + 1);
    } else {
        assert(s.take(i) =~= s);
    }
}

/// Parse an unsigned decimal integer exactly as `usize::from_str` does.
fn parse_usize_str(s: &str) -> (r: Option<usize>)
    ensures
        r == spec_parse_usize(s@),
{
    let n = s.unicode_len();
    let mut i: usize = 0;
    if n > 0 && s.get_char(0) == '+' {
        i = 1;
    }
    let ghost d = unsigned_digits(s@);
    let ghost start = i as int;
    proof {
        assert(d =~= s@.skip(start));
    }
    if i == n {
        return None;
    }
    let mut acc: usize = 0;
    while i < n
        invariant
            0 <= start <= i <= n,
            n == s@.len(),
            d == unsigned_digits(s@),
            d == s@.skip(start),
            d.len() == n - start,
            all_digits(d.take(i - start)),
            acc == decimal_value(d.take(i - start)),
        decreases n - i,
    {
        let c = s.get_char(i);
        proof {
            assert(s@.skip(start)[i - start] == s@[i as int]);
            assert(d[i - start] == c);
        }
        let u = c as u32;
        if u < 48 || u > 57 {
            proof {
                assert(!is_digit_char(d[i - start]));
            }
            return None;
        }
        let dv = (u - 48) as usize;
        proof {
            lemma_decimal_value_take_step(d, i - start);
        }
        let next = match acc.checked_mul(10) {
            Some(m) => m.checked_add(dv),
            None => None,
        };
        match next {
            Some(v) => {
                acc = v;
            },
            None => {
                proof {
                    lemma_decimal_value_take_le(d, i - start + 1);
                }
                return None;
            },
        }
        i += 1;
    }
    proof {
        assert(d.take(n - start) =~= d);
    }
    Some(acc)
}

/// The strategy a configuration literal denotes, if any: `all` or `quorum`
/// in any letter case, else an unsigned integer.
pub open spec fn strategy_of_literal(s: Seq<char>) -> Option<DAServerSubmitStrategy> {
    if lower_of(s) == "all"@ {
        Some(DAServerSubmitStrategy::All)
    } else if lower_of(s) == "quorum"@ {
        Some(DAServerSubmitStrategy::Quorum)
    } else {
        match spec_parse_usize(s) {
            Some(k) => Some(DAServerSubmitStrategy::Number(k)),
            None => None,
        }
    }
}

impl DAServerSubmitStrategy {
    /// Parse a strategy literal: `all`, `quorum` (case-insensitively), or an
    /// unsigned integer; anything else is rejected with the literal.
    pub fn parse(s: &str) -> (r: Result<DAServerSubmitStrategy, ConfigError>)
        ensures
            match strategy_of_literal(s@) {
                Some(st) => r == Ok::<DAServerSubmitStrategy, ConfigError>(st),
                None => (r matches Err(ConfigError::InvalidStrategy(lit)) && lit@ == s@),
            },
    {
        let low = lowercase(s);
        let all_lit = String::from_str("all");
        let quorum_lit = String::from_str("quorum");
        if low == all_lit {
            Ok(DAServerSubmitStrategy::All)
        } else if low == quorum_lit {
            Ok(DAServerSubmitStrategy::Quorum)
        } else {
            match parse_usize_str(s) {
                Some(k) => Ok(DAServerSubmitStrategy::Number(k)),
                None => Err(ConfigError::InvalidStrategy(s.to_owned())),
            }
        }
    }
}

} // verus!
