//! Counting tokens: the provider's count where there is one, an estimate from
//! the visible text where there is none.
use vstd::prelude::*;
use crate::text::chars_of;

verus! {

broadcast use vstd::string::group_string_axioms;

/// A number of tokens.
#[derive(Debug, Clone, Copy, PartialEq, Eq, Structural)]
pub struct TokenUsage {
    pub total: u64,
}

/// Where a count comes from.
#[derive(Debug, Clone, Copy, PartialEq, Eq, Structural)]
pub enum TokenSource {
    ProviderUsage,
    Heuristic,
}

#[derive(Debug, Clone, Copy, PartialEq, Eq, Structural)]
pub struct TokenMeasurement {
    pub usage: TokenUsage,
    pub source: TokenSource,
}

/// Counts tokens, with a fixed number of characters per token for estimates.
#[derive(Debug, Clone, Copy, PartialEq, Eq, Structural)]
pub struct TokenMeter {
    chars_per_token: u64,
}

/// The number of characters in a list of texts.
pub open spec fn total_chars(segments: Seq<&str>) -> nat
    decreases segments.len(),
{
    if segments.len() == 0 {
        0
    } else {
        total_chars(segments.drop_last()) + segments.last()@.len()
    }
}

/// `n / d` rounded up.
pub open spec fn div_up(n: int, d: int) -> int {
    n / d + (if n % d != 0 {
        1int
    } else {
        0int
    })
}

/// The estimate for `chars` characters; a count that no `u64` holds is taken as
/// the largest one.
pub open spec fn estimated(chars: nat, per_token: u64) -> int {
    div_up(
        if chars > u64::MAX {
            u64::MAX as int
        } else {
            chars as int
        },
        per_token as int,
    )
}

impl Default for TokenMeter {
    fn default() -> (r: TokenMeter)
        ensures
            r.per_token() == 4,
    {
        TokenMeter { chars_per_token: 4 }
    }
}

impl TokenMeter {
    #[verifier::type_invariant]
    spec fn well_formed(&self) -> bool {
        self.chars_per_token > 0
    }

    /// The characters that stand for one token.
    pub closed spec fn per_token(&self) -> u64 {
        self.chars_per_token
    }

    /// A meter for `chars_per_token` characters per token; zero is refused.
    pub fn new(chars_per_token: u64) -> (r: Result<TokenMeter, &'static str>)
        ensures
            match r {
                Ok(meter) => chars_per_token != 0 && meter.per_token() == chars_per_token,
                Err(e) => chars_per_token == 0 && e@
                    == "chars_per_token must be greater than zero"@,
            },
    {
        if chars_per_token == 0 {
            return Err("chars_per_token must be greater than zero");
        }
        Ok(TokenMeter { chars_per_token })
    }

    /// The tokens of a list of texts. A provider's count is taken as it is, also
    /// when it is zero.
    pub fn measure(&self, provider_total: Option<u64>, visible_segments: &[&str]) -> (r:
        TokenMeasurement)
        ensures
            match provider_total {
                Some(total) => r.usage.total == total && r.source == TokenSource::ProviderUsage,
                None => r.usage.total == estimated(total_chars(visible_segments@), self.per_token())
                    && r.source == TokenSource::Heuristic,
            },
    {
        match provider_total {
            Some(total) => TokenMeasurement {
                usage: TokenUsage { total },
                source: TokenSource::ProviderUsage,
            },
            None => TokenMeasurement {
                usage: TokenUsage { total: self.estimate(visible_segments) },
                source: TokenSource::Heuristic,
            },
        }
    }

    fn estimate(&self, visible_segments: &[&str]) -> (r: u64)
        ensures
            r == estimated(total_chars(visible_segments@), self.per_token()),
    {
        proof {
            use_type_invariant(self);
        }
        let mut characters: u64 = 0;
        let mut i: usize = 0;
        assert(visible_segments@.take(0) =~= Seq::<&str>::empty());
        while i < visible_segments.len()
            invariant
                i <= visible_segments@.len(),
                characters == (if total_chars(visible_segments@.take(i as int)) > u64::MAX {
                    u64::MAX as nat
                } else {
                    total_chars(visible_segments@.take(i as int))
                }),
            decreases visible_segments@.len() - i,
        {
            let count: u64 = chars_of(visible_segments[i]).len() as u64;
            characters = characters.saturating_add(count);
            proof {
                let t = visible_segments@.take(i + 1);
                assert(t.drop_last() =~= visible_segments@.take(i as int));
                assert(t.last() == visible_segments@[i as int]);
            }
            i = i + 1;
        }
        assert(visible_segments@.take(i as int) =~= visible_segments@);
        let whole: u64 = characters / self.chars_per_token;
        if characters % self.chars_per_token != 0 {
            proof {
                lemma_div_room(characters as int, self.chars_per_token as int);
            }
            whole + 1
        } else {
            whole
        }
    }
}

proof fn lemma_div_room(n: int, d: int)
    requires
        0 <= n <= u64::MAX,
        d > 0,
        n % d != 0,
    ensures
        n / d < u64::MAX,
{
    if d == 1 {
        assert(n % 1 == 0);
    } else {
        assert(n / d <= n / 2) by (nonlinear_arith)
            requires
                n >= 0,
                d >= 2,
        ;
    }
}

/// No characters are estimated at zero tokens, and any text at one or more.
pub proof fn estimate_is_zero_only_without_text(chars: nat, per_token: u64)
    requires
        per_token > 0,
    ensures
        estimated(chars, per_token) == 0 <==> chars == 0,
        estimated(chars, per_token) >= 0,
{
    let n: int = if chars > u64::MAX {
        u64::MAX as int
    } else {
        chars as int
    };
    let d = per_token as int;
    assert(n / d >= 0 && (n / d == 0 && n % d == 0 ==> n == 0)) by (nonlinear_arith)
        requires
            n >= 0,
            d > 0,
    ;
    assert(0int / d == 0 && 0int % d == 0) by (nonlinear_arith)
        requires
            d > 0,
    ;
}

/// More text never lowers the estimate.
pub proof fn estimate_is_monotonic(fewer: nat, more: nat, per_token: u64)
    requires
        per_token > 0,
        fewer <= more,
    ensures
        estimated(fewer, per_token) <= estimated(more, per_token),
{
    let a: int = if fewer > u64::MAX {
        u64::MAX as int
    } else {
        fewer as int
    };
    let b: int = if more > u64::MAX {
        u64::MAX as int
    } else {
        more as int
    };
    let d = per_token as int;
    assert(div_up(a, d) <= div_up(b, d)) by {
        assert(a / d <= b / d && (a / d == b / d && b % d == 0 ==> a % d == 0)) by (nonlinear_arith)
            requires
                0 <= a <= b,
                d > 0,
        ;
    }
}

/// An estimate is the least number of tokens that holds all the characters, so many to a token.
pub proof fn an_estimate_holds_all_characters(chars: nat, per_token: u64)
    requires
        per_token > 0,
        chars <= u64::MAX,
    ensures
        estimated(chars, per_token) * per_token >= chars,
        (estimated(chars, per_token) - 1) * per_token < chars || chars == 0,
{
    let n = chars as int;
    let d = per_token as int;
    vstd::arithmetic::div_mod::lemma_fundamental_div_mod(n, d);
    let q = n / d;
    let r = n % d;
    vstd::arithmetic::div_mod::lemma_mod_bound(n, d);
    assert(d * q == q * d) by (nonlinear_arith);
    if r != 0 {
        assert((q + 1) * d == q * d + d) by (nonlinear_arith);
    } else {
        assert((q - 1) * d == q * d - d) by (nonlinear_arith);
    }
}

/// The characters of texts are counted together.
pub proof fn characters_are_counted_together(a: Seq<&str>, b: &str)
    ensures
        total_chars(Seq::empty()) == 0,
        total_chars(a.push(b)) == total_chars(a) + b@.len(),
{
    assert(a.push(b).drop_last() =~= a);
}

} // verus!
