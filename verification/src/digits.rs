//! Decimal rendering and parsing of the integer identifiers that the
//! relation codec stores inside delimiter-joined columns.

use vstd::prelude::*;

verus! {

/// A decimal digit character.
pub open spec fn is_digit(c: char) -> bool {
    48 <= c as u32 && c as u32 <= 57
}

/// Numeric value of a decimal digit character.
pub open spec fn digit_val(c: char) -> int {
    c as u32 - 48
}

/// The digit character for a value in 0..10.
pub open spec fn digit_char(d: int) -> char {
    if d == 0 {
        '0'
    } else if d == 1 {
        '1'
    } else if d == 2 {
        '2'
    } else if d == 3 {
        '3'
    } else if d == 4 {
        '4'
    } else if d == 5 {
        '5'
    } else if d == 6 {
        '6'
    } else if d == 7 {
        '7'
    } else if d == 8 {
        '8'
    } else {
        '9'
    }
}

/// Decimal digit sequence of a natural number, most significant digit first.
pub open spec fn dec_digits(n: nat) -> Seq<char>
    decreases n,
{
    if n < 10 {
        seq![digit_char(n as int)]
    } else {
        dec_digits(n / 10) + seq![digit_char((n % 10) as int)]
    }
}

/// Decimal rendering of a (possibly negative) integer.
pub open spec fn dec_int(n: int) -> Seq<char> {
    if n >= 0 {
        dec_digits(n as nat)
    } else {
        seq!['-'] + dec_digits((-n) as nat)
    }
}

/// Value of a digit sequence read in base ten.
pub open spec fn digits_val(s: Seq<char>) -> int
    decreases s.len(),
{
    if s.len() == 0 {
        0
    } else {
        digits_val(s.drop_last()) * 10 + digit_val(s.last())
    }
}

pub open spec fn all_digits(s: Seq<char>) -> bool {
    forall|i: int| 0 <= i < s.len() ==> is_digit(#[trigger] s[i])
}

/// Whether a token is accepted by the signed decimal parser: an optional
/// sign, then at least one digit, with the value in the range of `i64`.
pub open spec fn parses_i64(s: Seq<char>) -> bool {
    if s.len() == 0 {
        false
    } else if s[0] == '-' {
        let d = s.drop_first();
        d.len() > 0 && all_digits(d) && digits_val(d) <= 0x8000_0000_0000_0000
    } else if s[0] == '+' {
        let d = s.drop_first();
        d.len() > 0 && all_digits(d) && digits_val(d) <= 0x7fff_ffff_ffff_ffff
    } else {
        all_digits(s) && digits_val(s) <= 0x7fff_ffff_ffff_ffff
    }
}

/// The signed value of a token accepted by the parser.
pub open spec fn i64_val(s: Seq<char>) -> int {
    if s.len() > 0 && s[0] == '-' {
        -digits_val(s.drop_first())
    } else if s.len() > 0 && s[0] == '+' {
        digits_val(s.drop_first())
    } else {
        digits_val(s)
    }
}

/// Every character of a decimal rendering is a digit.
pub proof fn lemma_dec_digits_are_digits(n: nat)
    ensures
        dec_digits(n).len() >= 1,
        forall|i: int| 0 <= i < dec_digits(n).len() ==> is_digit(#[trigger] dec_digits(n)[i]),
    decreases n,
{
    if n < 10 {
        assert(is_digit(digit_char(n as int)));
    } else {
        lemma_dec_digits_are_digits(n / 10);
        assert(is_digit(digit_char((n % 10) as int)));
    }
}

pub proof fn lemma_digits_val_nonneg(s: Seq<char>)
    requires
        all_digits(s),
    ensures
        digits_val(s) >= 0,
    decreases s.len(),
{
    if s.len() > 0 {
        lemma_digits_val_nonneg(s.drop_last());
    }
}

/// The digit character of a value in 0..10 reads back as that value.
pub proof fn lemma_digit_char_val(d: int)
    requires
        0 <= d < 10,
    ensures
        digit_val(digit_char(d)) == d,
        is_digit(digit_char(d)),
{
    assert(digit_val('0') == 0);
    assert(digit_val('1') == 1);
    assert(digit_val('2') == 2);
    assert(digit_val('3') == 3);
    assert(digit_val('4') == 4);
    assert(digit_val('5') == 5);
    assert(digit_val('6') == 6);
    assert(digit_val('7') == 7);
    assert(digit_val('8') == 8);
    assert(digit_val('9') == 9);
}

/// Rendering and reading back a natural number round-trips.
pub proof fn lemma_dec_digits_val(n: nat)
    ensures
        digits_val(dec_digits(n)) == n,
    decreases n,
{
    if n < 10 {
        lemma_digit_char_val(n as int);
        let s = dec_digits(n);
        assert(s =~= seq![digit_char(n as int)]);
        assert(s.drop_last() =~= Seq::<char>::empty());
        assert(digits_val(s.drop_last()) == 0);
        assert(s.last() == digit_char(n as int));
        assert(digits_val(s) == 0 * 10 + digit_val(digit_char(n as int)));
    } else {
        lemma_dec_digits_val(n / 10);
        lemma_digit_char_val((n % 10) as int);
        let s = dec_digits(n);
        assert(s =~= dec_digits(n / 10) + seq![digit_char((n % 10) as int)]);
        assert(s.drop_last() =~= dec_digits(n / 10));
        assert(s.last() == digit_char((n % 10) as int));
        assert(digits_val(s) == digits_val(s.drop_last()) * 10 + digit_val(s.last()));
        assert(digits_val(s) == (n / 10) * 10 + (n % 10));
    }
}

/// The decimal rendering of an in-range integer is accepted by the parser
/// and reads back as the same value.
pub proof fn lemma_parse_dec_int(n: int)
    requires
        -0x8000_0000_0000_0000 <= n <= 0x7fff_ffff_ffff_ffff,
    ensures
        parses_i64(dec_int(n)),
        i64_val(dec_int(n)) == n,
{
    if n >= 0 {
        lemma_dec_digits_are_digits(n as nat);
        lemma_dec_digits_val(n as nat);
        let s = dec_int(n);
        assert(is_digit(s[0]));
    } else {
        lemma_dec_digits_are_digits((-n) as nat);
        lemma_dec_digits_val((-n) as nat);
        let s = dec_int(n);
        assert(s[0] == '-');
        assert(s.drop_first() =~= dec_digits((-n) as nat));
    }
}

/// The decimal rendering never holds a delimiter or whitespace, so the
/// relation codec reproduces it exactly.
pub proof fn lemma_dec_int_token_chars(n: int)
    ensures
        dec_int(n).len() > 0,
        forall|i: int|
            0 <= i < dec_int(n).len() ==> (#[trigger] dec_int(n)[i] == '-' || is_digit(
                dec_int(n)[i],
            )),
{
    if n >= 0 {
        lemma_dec_digits_are_digits(n as nat);
    } else {
        lemma_dec_digits_are_digits((-n) as nat);
        let s = dec_int(n);
        assert forall|i: int| 0 <= i < s.len() implies (#[trigger] s[i] == '-' || is_digit(
            s[i],
        )) by {
            if i > 0 {
                assert(s[i] == dec_digits((-n) as nat)[i - 1]);
            }
        }
    }
}

/// Reading more digits never decreases the value.
pub proof fn lemma_digits_val_mono(s: Seq<char>, i: int, j: int)
    requires
        all_digits(s),
        0 <= i <= j <= s.len(),
    ensures
        digits_val(s.subrange(0, i)) <= digits_val(s.subrange(0, j)),
    decreases j - i,
{
    if i < j {
        lemma_digits_val_mono(s, i, j - 1);
        let p = s.subrange(0, j);
        assert(p.drop_last() =~= s.subrange(0, j - 1));
        assert(p.last() == s[j - 1]);
        assert(all_digits(p.drop_last()));
        lemma_digits_val_nonneg(p.drop_last());
        assert(digits_val(p) == digits_val(p.drop_last()) * 10 + digit_val(p.last()));
        assert(digit_val(p.last()) >= 0);
    }
}

/// Parses an optionally signed decimal token, as the codec's decoder
/// does; returns `None` for an empty token, a stray character, or a value
/// outside the range of `i64`.
pub fn parse_i64(s: &str) -> (r: Option<i64>)
    ensures
        r is Some <==> parses_i64(s@),
        r matches Some(v) ==> v as int == i64_val(s@),
{
    let n = s.unicode_len();
    if n == 0 {
        return None;
    }
    let c0 = s.get_char(0);
    let neg = c0 == '-';
    let has_sign = neg || c0 == '+';
    let start: usize = if has_sign {
        1
    } else {
        0
    };
    if start == n {
        return None;
    }
    let ghost d: Seq<char> = s@.subrange(start as int, n as int);
    let limit: u64 = if neg {
        9223372036854775808u64
    } else {
        9223372036854775807u64
    };
    let mut mag: u64 = 0;
    let mut i = start;
    while i < n
        invariant
            start <= i <= n,
            n == s@.len(),
            start <= 1,
            n > start,
            d == s@.subrange(start as int, n as int),
            neg ==> s@[0] == '-',
            has_sign == (s@[0] == '-' || s@[0] == '+'),
            has_sign == (start == 1),
            neg == (s@[0] == '-'),
            limit == if neg {
                0x8000_0000_0000_0000u64
            } else {
                0x7fff_ffff_ffff_ffffu64
            },
            all_digits(s@.subrange(start as int, i as int)),
            mag == digits_val(s@.subrange(start as int, i as int)),
            mag <= limit,
        decreases n - i,
    {
        let c = s.get_char(i);
        let u = c as u32;
        if u < 48 || u > 57 {
            proof {
                if start == 1 {
                    assert(d =~= s@.drop_first());
                } else {
                    assert(d =~= s@);
                }
                assert(!is_digit(s@[i as int]));
                assert(d[i - start] == s@[i as int]);
                assert(!all_digits(d));
            }
            return None;
        }
        let dv = (u - 48) as u64;
        if mag > (limit - dv) / 10 {
            proof {
                if start == 1 {
                    assert(d =~= s@.drop_first());
                } else {
                    assert(d =~= s@);
                }
                let p1 = s@.subrange(start as int, i + 1);
                assert(p1.drop_last() =~= s@.subrange(start as int, i as int));
                assert(p1.last() == s@[i as int]);
                assert(digits_val(p1) == mag * 10 + dv);
                assert(mag * 10 + dv > limit) by {
                    let q = (limit - dv) / 10;
                    assert(10 * q <= limit - dv < 10 * q + 10);
                    assert(mag >= q + 1);
                    assert(mag * 10 >= (q + 1) * 10) by (nonlinear_arith)
                        requires
                            mag >= q + 1,
                    ;
                }
                if all_digits(d) {
                    assert(p1 =~= d.subrange(0, i + 1 - start));
                    assert(d =~= d.subrange(0, d.len() as int));
                    lemma_digits_val_mono(d, i + 1 - start, d.len() as int);
                    assert(digits_val(d) > limit);
                }
            }
            return None;
        }
        mag = mag * 10 + dv;
        proof {
            let p1 = s@.subrange(start as int, i + 1);
            assert(p1.drop_last() =~= s@.subrange(start as int, i as int));
            assert(p1.last() == s@[i as int]);
            assert(is_digit(s@[i as int]));
            assert(digit_val(s@[i as int]) == dv);
        }
        i += 1;
    }
    proof {
        assert(s@.subrange(start as int, n as int) =~= d);
        if neg {
            assert(d =~= s@.drop_first());
        } else if has_sign {
            assert(d =~= s@.drop_first());
        } else {
            assert(d =~= s@);
        }
        assert(parses_i64(s@));
    }
    if neg {
        if mag == 9223372036854775808u64 {
            Some(i64::MIN)
        } else {
            Some(-(mag as i64))
        }
    } else {
        Some(mag as i64)
    }
}

fn digit_str(d: u8) -> (r: &'static str)
    requires
        d < 10,
    ensures
        r@ =~= seq![digit_char(d as int)],
{
    proof {
        reveal_strlit("0");
        reveal_strlit("1");
        reveal_strlit("2");
        reveal_strlit("3");
        reveal_strlit("4");
        reveal_strlit("5");
        reveal_strlit("6");
        reveal_strlit("7");
        reveal_strlit("8");
        reveal_strlit("9");
    }
    if d == 0 {
        "0"
    } else if d == 1 {
        "1"
    } else if d == 2 {
        "2"
    } else if d == 3 {
        "3"
    } else if d == 4 {
        "4"
    } else if d == 5 {
        "5"
    } else if d == 6 {
        "6"
    } else if d == 7 {
        "7"
    } else if d == 8 {
        "8"
    } else {
        "9"
    }
}

/// Renders a natural number in decimal.
pub fn u64_to_string(n: u64) -> (r: String)
    ensures
        r@ == dec_digits(n as nat),
    decreases n,
{
    if n < 10 {
        let s = digit_str(n as u8);
        let r = s.to_owned();
        assert(r@ =~= dec_digits(n as nat));
        r
    } else {
        let mut r = u64_to_string(n / 10);
        r.append(digit_str((n % 10) as u8));
        assert(r@ =~= dec_digits(n as nat));
        r
    }
}

/// Renders a signed integer in decimal, with a leading `-` when negative.
pub fn i64_to_string(n: i64) -> (r: String)
    ensures
        r@ == dec_int(n as int),
{
    if n >= 0 {
        u64_to_string(n as u64)
    } else {
        let magnitude: u64 = if n == i64::MIN {
            9223372036854775808u64
        } else {
            (-n) as u64
        };
        let mut r = String::new();
        proof {
            reveal_strlit("-");
        }
        r.append("-");
        let digits = u64_to_string(magnitude);
        r.append(digits.as_str());
        assert(r@ =~= dec_int(n as int));
        r
    }
}

} // verus!
