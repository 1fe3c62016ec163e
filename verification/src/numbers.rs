//! Decimal reading and writing of signed 64-bit integers, the number syntax
//! of the language: a token is a number exactly when it is an optional sign
//! followed by one or more decimal digits and the value fits in an `i64`.

use vstd::prelude::*;

verus! {

pub open spec fn is_digit(c: char) -> bool {
    0x30 <= (c as u32) && (c as u32) <= 0x39
}

pub open spec fn digit_val(c: char) -> nat {
    ((c as u32) - 0x30) as nat
}

pub open spec fn all_digits(s: Seq<char>) -> bool {
    forall|i: int| 0 <= i < s.len() ==> is_digit(#[trigger] s[i])
}

/// The value of a digit string, most significant digit first.
pub open spec fn digits_val(s: Seq<char>) -> nat
    decreases s.len(),
{
    if s.len() == 0 {
        0
    } else {
        digits_val(s.drop_last()) * 10 + digit_val(s.last())
    }
}

/// What reading a token as a signed 64-bit decimal integer yields: an
/// optional `+` or `-` sign, then one or more digits, and the value must be
/// in range; anything else is not a number.
pub open spec fn spec_parse_i64(s: Seq<char>) -> Option<i64> {
    let neg = s.len() > 0 && s[0] == '-';
    let signed = s.len() > 0 && (s[0] == '-' || s[0] == '+');
    let ds = if signed {
        s.drop_first()
    } else {
        s
    };
    if ds.len() == 0 || !all_digits(ds) {
        None
    } else {
        let v = digits_val(ds) as int;
        if neg {
            if -v >= i64::MIN {
                Some((-v) as i64)
            } else {
                None
            }
        } else {
            if v <= i64::MAX {
                Some(v as i64)
            } else {
                None
            }
        }
    }
}

/// A prefix of a digit string never has a larger value than the whole.
proof fn lemma_digits_val_prefix(s: Seq<char>, k: int)
    requires
        0 <= k <= s.len(),
    ensures
        digits_val(s.subrange(0, k)) <= digits_val(s),
    decreases s.len() - k,
{
    if k < s.len() {
        lemma_digits_val_prefix(s, k + 1);
        assert(s.subrange(0, k + 1).drop_last() =~= s.subrange(0, k));
        assert(digits_val(s.subrange(0, k + 1)) == digits_val(s.subrange(0, k)) * 10
            + digit_val(s.subrange(0, k + 1).last()));
    } else {
        assert(s.subrange(0, k) =~= s);
    }
}

/// Read a token as a signed 64-bit decimal integer.
#[verifier::loop_isolation(false)]
pub fn parse_i64_chars(tok: &Vec<char>) -> (r: Option<i64>)
    ensures
        r == spec_parse_i64(tok@),
{
    let mut i: usize = 0;
    let mut neg = false;
    if tok.len() > 0 && (tok[0] == '-' || tok[0] == '+') {
        neg = tok[0] == '-';
        i = 1;
    }
    if i == tok.len() {
        return None;
    }
    let ghost start = i as int;
    let ghost ds = tok@.subrange(start, tok@.len() as int);
    proof {
        if start == 1 {
            assert(ds =~= tok@.drop_first());
        } else {
            assert(ds =~= tok@);
        }
    }
    let mut acc: u64 = 0;
    while i < tok.len()
        invariant
            start <= i as int <= tok@.len(),
            start == 0 || start == 1,
            ds == tok@.subrange(start, tok@.len() as int),
            all_digits(tok@.subrange(start, i as int)),
            acc as nat == digits_val(tok@.subrange(start, i as int)),
        decreases tok@.len() - i,
    {
        let c = tok[i];
        let u = c as u32;
        if !(0x30 <= u && u <= 0x39) {
            proof {
                assert(ds[i as int - start] == tok@[i as int]);
                assert(!is_digit(ds[i as int - start]));
            }
            return None;
        }
        let d: u64 = (u - 0x30) as u64;
        let next = match acc.checked_mul(10) {
            Some(m) => m.checked_add(d),
            None => None,
        };
        proof {
            assert(tok@.subrange(start, i as int + 1).drop_last()
                =~= tok@.subrange(start, i as int));
            assert(tok@.subrange(start, i as int + 1).last() == tok@[i as int]);
        }
        match next {
            Some(a) => {
                acc = a;
            },
            None => {
                proof {
                    let here = tok@.subrange(start, i as int + 1);
                    assert(digits_val(here) > u64::MAX);
                    assert(here =~= ds.subrange(0, i as int + 1 - start));
                    lemma_digits_val_prefix(ds, i as int + 1 - start);
                }
                return None;
            },
        }
        i += 1;
    }
    proof {
        assert(tok@.subrange(start, i as int) =~= ds);
    }
    if neg {
        if acc <= 0x7fff_ffff_ffff_ffff {
            Some(-(acc as i64))
        } else if acc == 0x8000_0000_0000_0000 {
            Some(i64::MIN)
        } else {
            None
        }
    } else {
        if acc <= 0x7fff_ffff_ffff_ffff {
            Some(acc as i64)
        } else {
            None
        }
    }
}

pub open spec fn digit_char(d: nat) -> char {
    if d == 0 {
        '0'
    } else if d == 1 {
        '1'
    } else if d == 2 {
        '2'
    } else if d == 3 {
        '3'
    } else if d == 4 {
        '4'
    } else if d == 5 {
        '5'
    } else if d == 6 {
        '6'
    } else if d == 7 {
        '7'
    } else if d == 8 {
        '8'
    } else {
        '9'
    }
}

/// The canonical decimal rendering of a natural number.
pub open spec fn dec_digits(n: nat) -> Seq<char>
    decreases n,
{
    if n < 10 {
        seq![digit_char(n)]
    } else {
        dec_digits(n / 10).push(digit_char(n % 10))
    }
}

/// The canonical decimal rendering of an integer: a `-` sign for negative
/// values, then the digits of the magnitude.
pub open spec fn i64_dec(n: int) -> Seq<char> {
    if n < 0 {
        seq!['-'] + dec_digits((-n) as nat)
    } else {
        dec_digits(n as nat)
    }
}

fn digit_char_of(d: u64) -> (r: char)
    requires
        d < 10,
    ensures
        r == digit_char(d as nat),
{
    if d == 0 {
        '0'
    } else if d == 1 {
        '1'
    } else if d == 2 {
        '2'
    } else if d == 3 {
        '3'
    } else if d == 4 {
        '4'
    } else if d == 5 {
        '5'
    } else if d == 6 {
        '6'
    } else if d == 7 {
        '7'
    } else if d == 8 {
        '8'
    } else {
        '9'
    }
}

fn u64_dec_chars(n: u64) -> (r: Vec<char>)
    ensures
        r@ == dec_digits(n as nat),
    decreases n,
{
    if n < 10 {
        let mut out: Vec<char> = Vec::new();
        out.push(digit_char_of(n));
        proof {
            assert(out@ =~= seq![digit_char(n as nat)]);
        }
        out
    } else {
        proof {
            assert(n / 10 < n) by (nonlinear_arith)
                requires
                    n >= 10,
            ;
        }
        let mut out = u64_dec_chars(n / 10);
        out.push(digit_char_of(n % 10));
        out
    }
}

/// Render a signed 64-bit integer in decimal.
pub fn i64_dec_chars(n: i64) -> (r: Vec<char>)
    ensures
        r@ == i64_dec(n as int),
{
    if n >= 0 {
        u64_dec_chars(n as u64)
    } else {
        let mag: u64 = if n == i64::MIN {
            0x8000_0000_0000_0000
        } else {
            (-n) as u64
        };
        let mut out: Vec<char> = Vec::new();
        out.push('-');
        let mut digits = u64_dec_chars(mag);
        out.append(&mut digits);
        proof {
            assert(out@ =~= seq!['-'] + dec_digits(mag as nat));
        }
        out
    }
}

/// The decimal rendering of a natural number consists only of digits, never
/// begins with a sign, and reads back as the same value.
proof fn lemma_dec_digits(n: nat)
    ensures
        dec_digits(n).len() >= 1,
        all_digits(dec_digits(n)),
        digits_val(dec_digits(n)) == n,
    decreases n,
{
    if n < 10 {
        assert(digits_val(seq![digit_char(n)].drop_last()) == 0) by {
            assert(seq![digit_char(n)].drop_last() =~= Seq::<char>::empty());
        }
    } else {
        lemma_dec_digits(n / 10);
        let s = dec_digits(n);
        assert(s.drop_last() =~= dec_digits(n / 10));
        assert(digits_val(s) == (n / 10) * 10 + (n % 10));
        assert((n / 10) * 10 + (n % 10) == n) by (nonlinear_arith);
        assert forall|i: int| 0 <= i < s.len() implies is_digit(#[trigger] s[i]) by {
            if i < s.len() - 1 {
                assert(s[i] == dec_digits(n / 10)[i]);
            }
        }
    }
}

/// Reading back the canonical decimal rendering of any signed 64-bit
/// integer yields exactly that integer: parsing is inverse to
/// re-serialization for number literals.
pub proof fn lemma_dec_round_trip(n: i64)
    ensures
        spec_parse_i64(i64_dec(n as int)) == Some(n),
{
    if n >= 0 {
        lemma_dec_digits(n as nat);
        let s = i64_dec(n as int);
        assert(is_digit(s[0]));
        assert(s[0] != '-' && s[0] != '+');
    } else {
        lemma_dec_digits((-(n as int)) as nat);
        let s = i64_dec(n as int);
        assert(s[0] == '-');
        assert(s.drop_first() =~= dec_digits((-(n as int)) as nat));
    }
}

/// Parsing is inverse to canonical re-serialization for number literals:
/// the decimal rendering of any signed 64-bit integer is read back as a
/// number token with exactly that value.
pub proof fn lemma_atom_number_round_trip(n: i64)
    ensures
        crate::interpreter::spec_atom(i64_dec(n as int)) == crate::semantics::ExprV::Num(n),
{
    lemma_dec_round_trip(n);
}

} // verus!
