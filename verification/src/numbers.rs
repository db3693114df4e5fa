//! Decimal text for the numeric attribute variant.
//!
//! Numbers travel as decimal text.  This module gives the text an exact
//! meaning ([`spec_parse_int`]), a canonical rendering ([`spec_render_int`]),
//! an executable parser and renderer proved against them, and the round-trip
//! law that parsing a rendered integer yields the integer back.

use vstd::prelude::*;

verus! {

/// Whether `c` is a decimal digit.
pub open spec fn is_digit(c: char) -> bool {
    '0' <= c && c <= '9'
}

/// The numeric value of a digit character.
pub open spec fn digit_val(c: char) -> int {
    c as int - '0' as int
}

/// The digit character for a value below ten.
pub open spec fn digit_char(d: int) -> char {
    if d == 0 {
        '0'
    } else if d == 1 {
        '1'
    } else if d == 2 {
        '2'
    } else if d == 3 {
        '3'
    } else if d == 4 {
        '4'
    } else if d == 5 {
        '5'
    } else if d == 6 {
        '6'
    } else if d == 7 {
        '7'
    } else if d == 8 {
        '8'
    } else {
        '9'
    }
}

/// Whether every character of `s` is a decimal digit.
pub open spec fn seq_is_digits(s: Seq<char>) -> bool {
    forall|i: int| 0 <= i < s.len() ==> is_digit(s[i])
}

/// The value of a digit sequence, most significant digit first.
pub open spec fn digits_val(s: Seq<char>) -> int
    decreases s,
{
    if s.len() == 0 {
        0
    } else {
        digits_val(s.drop_last()) * 10 + digit_val(s.last())
    }
}

/// What a decimal text means: an optional sign followed by at least one
/// digit, with leading zeroes allowed; anything else means nothing.
pub open spec fn spec_parse_int(s: Seq<char>) -> Option<int> {
    let digits = if s.len() > 0 && (s[0] == '-' || s[0] == '+') {
        s.subrange(1, s.len() as int)
    } else {
        s
    };
    if digits.len() > 0 && seq_is_digits(digits) {
        if s.len() > 0 && s[0] == '-' {
            Some(-digits_val(digits))
        } else {
            Some(digits_val(digits))
        }
    } else {
        None
    }
}

/// The digits of `n`, most significant first; empty for zero.
pub open spec fn spec_digits(n: nat) -> Seq<char>
    decreases n,
{
    if n == 0 {
        Seq::empty()
    } else {
        spec_digits(n / 10).push(digit_char((n % 10) as int))
    }
}

/// The canonical decimal text of `n`: no sign for zero or positive values,
/// a leading minus for negative ones, and no leading zeroes.
pub open spec fn spec_render_int(n: int) -> Seq<char> {
    if n == 0 {
        seq!['0']
    } else if n > 0 {
        spec_digits(n as nat)
    } else {
        seq!['-'] + spec_digits((-n) as nat)
    }
}

/// What the bounded parser returns: the parsed value when the text means one
/// that fits a 64-bit signed integer, nothing otherwise.
pub open spec fn spec_parse_i64(s: Seq<char>) -> Option<i64> {
    match spec_parse_int(s) {
        Some(n) => if i64::MIN <= n <= i64::MAX {
            Some(n as i64)
        } else {
            None
        },
        None => None,
    }
}

/// A digit sequence has a value of at least zero.
pub proof fn lemma_digits_val_nonneg(s: Seq<char>)
    requires
        seq_is_digits(s),
    ensures
        digits_val(s) >= 0,
    decreases s.len(),
{
    if s.len() > 0 {
        lemma_digits_val_nonneg(s.drop_last());
    }
}

/// Extending a digit prefix by one digit multiplies its value by ten and
/// adds the digit.
pub proof fn lemma_digits_val_step(s: Seq<char>, a: int, j: int)
    requires
        0 <= a <= j < s.len(),
    ensures
        digits_val(s.subrange(a, j + 1)) == digits_val(s.subrange(a, j)) * 10 + digit_val(s[j]),
{
    assert(s.subrange(a, j + 1).drop_last() =~= s.subrange(a, j));
    assert(s.subrange(a, j + 1).last() == s[j]);
}

/// The canonical digits of `n` are digits, value `n`, and nonempty unless
/// `n` is zero.
pub proof fn lemma_spec_digits(n: nat)
    ensures
        seq_is_digits(spec_digits(n)),
        digits_val(spec_digits(n)) == n,
        n > 0 ==> spec_digits(n).len() > 0,
    decreases n,
{
    if n > 0 {
        lemma_spec_digits(n / 10);
        assert(spec_digits(n).drop_last() =~= spec_digits(n / 10));
    }
}

/// The one-character text of a digit value.
fn digit_str(d: u64) -> (r: &'static str)
    requires
        d < 10,
    ensures
        r@ == seq![digit_char(d as int)],
{
    if d == 0 {
        proof {
            reveal_strlit("0");
        }
        "0"
    } else if d == 1 {
        proof {
            reveal_strlit("1");
        }
        "1"
    } else if d == 2 {
        proof {
            reveal_strlit("2");
        }
        "2"
    } else if d == 3 {
        proof {
            reveal_strlit("3");
        }
        "3"
    } else if d == 4 {
        proof {
            reveal_strlit("4");
        }
        "4"
    } else if d == 5 {
        proof {
            reveal_strlit("5");
        }
        "5"
    } else if d == 6 {
        proof {
            reveal_strlit("6");
        }
        "6"
    } else if d == 7 {
        proof {
            reveal_strlit("7");
        }
        "7"
    } else if d == 8 {
        proof {
            reveal_strlit("8");
        }
        "8"
    } else {
        proof {
            reveal_strlit("9");
        }
        "9"
    }
}

/// Render `n` as its canonical decimal text.
pub fn render_i64(n: i64) -> (r: String)
    ensures
        r@ == spec_render_int(n as int),
{
    if n == 0 {
        proof {
            reveal_strlit("0");
        }
        return "0".to_owned();
    }
    let neg = n < 0;
    let mut mag: u64 = if n >= 0 {
        n as u64
    } else {
        ((-(n + 1)) as u64) + 1
    };
    let ghost orig: nat = mag as nat;
    let mut out = String::new();
    while mag > 0
        invariant
            spec_digits(orig) == spec_digits(mag as nat) + out@,
        decreases mag,
    {
        let d = mag % 10;
        let mut t = digit_str(d).to_owned();
        t.append(out.as_str());
        proof {
            assert(spec_digits(mag as nat) + out@ =~= spec_digits((mag as nat) / 10) + t@);
        }
        out = t;
        mag = mag / 10;
    }
    proof {
        assert(out@ =~= spec_digits(orig));
    }
    if neg {
        proof {
            reveal_strlit("-");
        }
        let mut r = "-".to_owned();
        r.append(out.as_str());
        proof {
            assert(r@ =~= spec_render_int(n as int));
        }
        r
    } else {
        out
    }
}

/// Parse a decimal text into a 64-bit signed integer.
pub fn parse_i64(s: &String) -> (r: Option<i64>)
    ensures
        r == spec_parse_i64(s@),
{
    let sv = s.as_str();
    let n = sv.unicode_len();
    if n == 0 {
        return None;
    }
    let c0 = sv.get_char(0);
    let neg = c0 == '-';
    let start: usize = if c0 == '-' || c0 == '+' {
        1
    } else {
        0
    };
    if n == start {
        return None;
    }
    let mut i = start;
    let mut acc: u64 = 0;
    let mut overflowed = false;
    while i < n
        invariant
            sv@ == s@,
            start <= i <= n,
            n == s@.len(),
            start == 0 || start == 1,
            start == 1 ==> (s@[0] == '-' || s@[0] == '+'),
            start == 0 ==> s@[0] != '-' && s@[0] != '+',
            neg == (s@[0] == '-'),
            start < n,
            seq_is_digits(s@.subrange(start as int, i as int)),
            !overflowed ==> acc == digits_val(s@.subrange(start as int, i as int)),
            overflowed ==> digits_val(s@.subrange(start as int, i as int)) > u64::MAX,
        decreases n - i,
    {
        let c = sv.get_char(i);
        if !('0' <= c && c <= '9') {
            assert(!seq_is_digits(s@.subrange(start as int, n as int))) by {
                assert(s@.subrange(start as int, n as int)[i - start] == s@[i as int]);
            }
            return None;
        }
        let d: u64 = (c as u32 - '0' as u32) as u64;
        proof {
            assert(s@.subrange(start as int, i + 1) =~= s@.subrange(
                start as int,
                i as int,
            ).push(s@[i as int]));
            lemma_digits_val_step(s@, start as int, i as int);
            lemma_digits_val_nonneg(s@.subrange(start as int, i as int));
            assert(digit_val(s@[i as int]) == d);
        }
        if !overflowed {
            match acc.checked_mul(10) {
                Some(t) => match t.checked_add(d) {
                    Some(v) => {
                        acc = v;
                    },
                    None => {
                        overflowed = true;
                    },
                },
                None => {
                    overflowed = true;
                },
            }
        }
        i = i + 1;
    }
    let ghost digits = s@.subrange(start as int, n as int);
    proof {
        lemma_digits_val_nonneg(digits);
        if start == 0 {
            assert(digits =~= s@);
        }
    }
    if overflowed {
        return None;
    }
    if neg {
        if acc > 9223372036854775808u64 {
            None
        } else if acc == 9223372036854775808u64 {
            Some(i64::MIN)
        } else {
            Some(-(acc as i64))
        }
    } else {
        if acc > 9223372036854775807u64 {
            None
        } else {
            Some(acc as i64)
        }
    }
}

/// Round trip: parsing the canonical decimal text of `n` yields `n`.
pub proof fn lemma_parse_render_round_trip(n: int)
    ensures
        spec_parse_int(spec_render_int(n)) == Some(n),
{
    if n == 0 {
        let s = spec_render_int(n);
        assert(s.len() == 1 && s[0] == '0');
        assert(digits_val(s) == 0) by {
            assert(s.drop_last() =~= Seq::<char>::empty());
            assert(s.last() == '0');
            assert(digit_val('0') == 0);
            assert(digits_val(Seq::<char>::empty()) == 0);
        }
    } else if n > 0 {
        lemma_spec_digits(n as nat);
        let s = spec_render_int(n);
        assert(is_digit(s[0]));
    } else {
        lemma_spec_digits((-n) as nat);
        let s = spec_render_int(n);
        assert(s[0] == '-');
        assert(s.subrange(1, s.len() as int) =~= spec_digits((-n) as nat));
    }
}

} // verus!
