//! Uncertain values as text.
//!
//! An absolute uncertainty reads `14.6 ± 0.2`, a relative one `14.7 ± 1.369%`.
use crate::abunc::AbUnc;
use crate::model::{lemma_ratio_whole, lemma_representable, terms};
use crate::numth::magnitude;
use crate::relunc::RelUnc;
use crate::scalar::Scalar;
use vstd::prelude::*;
use vstd::string::StringExecFns;

verus! {

/// How many decimal places a scalar is written with at most. An expansion
/// that has not ended by then is not written; the scalar is written as a
/// fraction instead.
pub const PLACES: u32 = 63;

/// The character for a decimal digit.
pub open spec fn digit(d: nat) -> char {
    ((48 + d) as u8) as char
}

/// The decimal digits of a natural number, without leading zeros.
pub open spec fn digits(n: nat) -> Seq<char>
    decreases n,
{
    if n < 10 {
        seq![digit(n)]
    } else {
        digits(n / 10).push(digit(n % 10))
    }
}

/// `prefix` before the characters of `rest`, where there are any.
pub open spec fn after(prefix: Seq<char>, rest: Option<Seq<char>>) -> Option<Seq<char>> {
    match rest {
        Some(s) => Some(prefix + s),
        None => None,
    }
}

/// The decimal places of `rem / den`, found by long division, where the
/// division ends within `fuel` places; nothing where it does not.
pub open spec fn expansion(rem: nat, den: nat, fuel: nat) -> Option<Seq<char>>
    decreases fuel,
{
    if rem == 0 {
        Some(Seq::empty())
    } else if fuel == 0 {
        None
    } else {
        after(seq![digit(rem * 10 / den)], expansion(rem * 10 % den, den, (fuel - 1) as nat))
    }
}

/// A number from its magnitude `a` over `d`, and whether it is negative.
///
/// It is written as a decimal number where the decimal expansion ends
/// within `PLACES` places, and as a fraction of two whole numbers otherwise.
pub open spec fn number_text(negative: bool, a: nat, d: nat) -> Seq<char> {
    let sign = if negative {
        seq!['-']
    } else {
        Seq::empty()
    };
    match expansion(a % d, d, PLACES as nat) {
        Some(s) => if s.len() == 0 {
            sign + digits(a / d)
        } else {
            sign + digits(a / d) + seq!['.'] + s
        },
        None => sign + digits(a) + seq!['/'] + digits(d),
    }
}

/// The text of the undefined scalar.
pub open spec fn undefined_text() -> Seq<char> {
    seq!['N', 'a', 'N']
}

/// The sign between a value and its uncertainty.
pub open spec fn plus_minus() -> Seq<char> {
    seq![' ', '±', ' ']
}

/// `String::push` of the standard library, which is taken at its word: it
/// appends the character to the end of the string and changes nothing else.
pub assume_specification[ String::push ](s: &mut String, ch: char)
    ensures
        final(s)@ == old(s)@.push(ch),
;

/// Appends the character for the digit `d`.
fn push_digit(s: &mut String, d: u8)
    requires
        d < 10,
    ensures
        final(s)@ == old(s)@.push(digit(d as nat)),
{
    let c: u8 = 48 + d;
    s.push(c as char);
}

/// Appends the decimal digits of `n`.
fn push_digits(s: &mut String, n: u64)
    ensures
        final(s)@ == old(s)@ + digits(n as nat),
    decreases n,
{
    if n >= 10 {
        push_digits(s, n / 10);
    }
    push_digit(s, (n % 10) as u8);
}

/// The decimal places of `rem / den`, where the division ends within
/// `PLACES` places.
fn expand(rem: u64, den: u64) -> (r: Option<String>)
    requires
        rem < den,
    ensures
        match r {
            Some(s) => expansion(rem as nat, den as nat, PLACES as nat) == Some(s@),
            None => expansion(rem as nat, den as nat, PLACES as nat) is None,
        },
{
    let mut out = String::new();
    let mut left: u64 = rem;
    let mut i: u32 = 0;
    while left != 0 && i < PLACES
        invariant
            left < den,
            i <= PLACES,
            expansion(rem as nat, den as nat, PLACES as nat) == after(
                out@,
                expansion(left as nat, den as nat, (PLACES - i) as nat),
            ),
        decreases PLACES - i,
    {
        let t: u128 = (left as u128) * 10;
        let q: u128 = t / (den as u128);
        let next: u128 = t % (den as u128);
        proof {
            assert(q < 10) by (nonlinear_arith)
                requires
                    q == t / (den as u128),
                    t == left * 10,
                    left < den,
            ;
            let tail = expansion(next as nat, den as nat, (PLACES - i - 1) as nat);
            assert(after(out@, after(seq![digit(q as nat)], tail)) == after(
                out@.push(digit(q as nat)),
                tail,
            )) by {
                if tail is Some {
                    assert(out@ + (seq![digit(q as nat)] + tail->0) =~= out@.push(digit(q as nat))
                        + tail->0);
                }
            }
        }
        push_digit(&mut out, q as u8);
        left = next as u64;
        i = i + 1;
    }
    if left == 0 {
        proof {
            assert(out@ + Seq::<char>::empty() =~= out@);
        }
        Some(out)
    } else {
        None
    }
}

/// A model as text: `NaN` for nothing, else a decimal number where the
/// decimal expansion ends, else a fraction.
pub open spec fn model_text(m: Option<real>) -> Seq<char> {
    match m {
        Some(_) => number_text(terms(m).0 < 0, magnitude(terms(m).0), terms(m).1 as nat),
        None => undefined_text(),
    }
}

impl Scalar {
    /// The scalar as text: the text of its view.
    pub open spec fn text(self) -> Seq<char> {
        model_text(self@)
    }

    /// Writes the scalar as text.
    pub fn to_string(&self) -> (s: String)
        ensures
            s@ == self.text(),
    {
        proof {
            use_type_invariant(self);
            self.lemma_view();
        }
        let mut out = String::new();
        let n: i64 = self.numer();
        let d: i64 = self.denom();
        if d == 0 {
            out.push('N');
            out.push('a');
            out.push('N');
            assert(out@ =~= undefined_text());
            return out;
        }
        let a: u64 = if n < 0 {
            (-n) as u64
        } else {
            n as u64
        };
        let den: u64 = d as u64;
        if n < 0 {
            out.push('-');
        }
        match expand(a % den, den) {
            Some(places) => {
                push_digits(&mut out, a / den);
                if places.as_str().unicode_len() != 0 {
                    out.push('.');
                    out.append(places.as_str());
                }
                assert(out@ =~= self.text());
            },
            None => {
                push_digits(&mut out, a);
                out.push('/');
                push_digits(&mut out, den);
                assert(out@ =~= self.text());
            },
        }
        out
    }
}

impl AbUnc {
    /// The text of a value with an absolute uncertainty: the value, the
    /// sign ` ± `, the uncertainty.
    pub open spec fn text(self) -> Seq<char> {
        self.val.text() + plus_minus() + self.unc.text()
    }

    /// Writes the value and its uncertainty as `<value> ± <uncertainty>`.
    pub fn to_string(&self) -> (s: String)
        ensures
            s@ == self.text(),
    {
        let mut out = self.val.to_string();
        out.push(' ');
        out.push('±');
        out.push(' ');
        let unc = self.unc.to_string();
        out.append(unc.as_str());
        assert(out@ =~= self.text());
        out
    }
}

impl RelUnc {
    /// The uncertainty in percent, as a model.
    pub open spec fn percent(self) -> Option<real> {
        crate::model::product(self.unc@, Some(100 as real))
    }

    /// The text of a value with a relative uncertainty: the value, the sign
    /// ` ± `, the uncertainty in percent, the sign `%`.
    pub open spec fn text(self) -> Seq<char> {
        self.val.text() + plus_minus() + model_text(self.percent()) + seq!['%']
    }

    /// Writes the value and its uncertainty as `<value> ± <percent>%`.
    pub fn to_string(&self) -> (s: String)
        ensures
            s@ == self.text(),
    {
        proof {
            lemma_ratio_whole(100);
            lemma_representable(100, 1);
        }
        let percent: Scalar = self.unc.times(Scalar::from_int(100));
        let mut out = self.val.to_string();
        out.push(' ');
        out.push('±');
        out.push(' ');
        let unc = percent.to_string();
        out.append(unc.as_str());
        out.push('%');
        assert(out@ =~= self.text());
        out
    }
}

} // verus!
