//! Integers as text: reading and writing them in base 10 and base 16.

use crate::text::string_push;
use vstd::prelude::*;

verus! {

/// Why a piece of text is not an integer of the wanted type.
#[derive(Clone, Copy, Debug, PartialEq, Eq, Structural)]
pub enum IntErrorKind {
    /// The text is empty.
    Empty,
    /// The text holds a character that is no digit, or only a sign.
    InvalidDigit,
    /// The number is above the largest value of the type.
    PosOverflow,
    /// The number is below the smallest value of the type.
    NegOverflow,
}

/// The value of `c` as a digit in the given radix. Letters count from ten,
/// in either case.
pub open spec fn digit_value(c: char, radix: int) -> Option<int> {
    let u = c as int;
    let v = if 0x30 <= u <= 0x39 {
        u - 0x30
    } else if 0x61 <= u <= 0x7A {
        u - 0x61 + 10
    } else if 0x41 <= u <= 0x5A {
        u - 0x41 + 10
    } else {
        radix
    };
    if v < radix {
        Some(v)
    } else {
        None
    }
}

/// Reads the digits of `s` from the left, starting from `acc`. Each digit
/// moves the value one place up and is added, or subtracted where `negative`.
/// The first character that is no digit, or the first value outside
/// `min..=max`, ends the reading with its error.
pub open spec fn parse_digits(
    s: Seq<char>,
    radix: int,
    negative: bool,
    min: int,
    max: int,
    acc: int,
) -> Result<int, IntErrorKind>
    decreases s.len(),
{
    if s.len() == 0 {
        Ok(acc)
    } else {
        match digit_value(s[0], radix) {
            None => Err(IntErrorKind::InvalidDigit),
            Some(d) => {
                let next = if negative {
                    acc * radix - d
                } else {
                    acc * radix + d
                };
                if next > max {
                    Err(IntErrorKind::PosOverflow)
                } else if next < min {
                    Err(IntErrorKind::NegOverflow)
                } else {
                    parse_digits(s.drop_first(), radix, negative, min, max, next)
                }
            },
        }
    }
}

/// The integer that `s` denotes in the given radix, for a type whose values
/// are `min..=max`: an optional `+`, or `-` where the type has negative
/// values, and then at least one digit.
pub open spec fn parse_int(s: Seq<char>, radix: int, min: int, max: int) -> Result<
    int,
    IntErrorKind,
> {
    if s.len() == 0 {
        Err(IntErrorKind::Empty)
    } else if s.len() == 1 && (s[0] == '+' || s[0] == '-') {
        Err(IntErrorKind::InvalidDigit)
    } else if s[0] == '+' {
        parse_digits(s.drop_first(), radix, false, min, max, 0)
    } else if s[0] == '-' && min < 0 {
        parse_digits(s.drop_first(), radix, true, min, max, 0)
    } else {
        parse_digits(s, radix, false, min, max, 0)
    }
}

/// The digit `d`, a capital letter from ten on.
pub open spec fn digit_char(d: int) -> char {
    if d < 10 {
        (0x30 + d) as char
    } else {
        (0x41 + d - 10) as char
    }
}

/// The digits of `n` in the given radix, without leading zeros.
pub open spec fn digits(n: nat, radix: int) -> Seq<char>
    decreases n,
    via digits_decreases
{
    if n < radix || radix < 2 {
        seq![digit_char(n as int)]
    } else {
        digits(n / (radix as nat), radix).push(digit_char((n % (radix as nat)) as int))
    }
}

/// A number of at least two digits is larger than the number of its digits
/// but the last.
#[via_fn]
proof fn digits_decreases(n: nat, radix: int) {
    if !(n < radix || radix < 2) {
        assert(n / (radix as nat) < n) by (nonlinear_arith)
            requires
                radix >= 2,
                n >= radix,
        ;
    }
}

/// `n` in base 10, with `-` in front where it is negative.
pub open spec fn decimal(n: int) -> Seq<char> {
    if n < 0 {
        seq!['-'] + digits((-n) as nat, 10)
    } else {
        digits(n as nat, 10)
    }
}

/// `n` in base 16 with capital letters, with a zero in front where the
/// number of digits would be odd.
pub open spec fn hex_bytes(n: nat) -> Seq<char> {
    let d = digits(n, 16);
    if d.len() % 2 != 0 {
        seq!['0'] + d
    } else {
        d
    }
}

/// The digits of a number are digits, and the first one is no sign.
pub proof fn lemma_digits_shape(n: nat, radix: int)
    requires
        radix == 10 || radix == 16,
    ensures
        digits(n, radix).len() >= 1,
        forall|i: int|
            0 <= i < digits(n, radix).len() ==> digit_value(
                #[trigger] digits(n, radix)[i],
                radix,
            ) is Some,
    decreases n,
{
    if n < radix {
    } else {
        lemma_digits_shape(n / (radix as nat), radix);
    }
}

/// Reading goes on after a prefix with the value that the prefix gave.
pub proof fn lemma_parse_digits_push(
    s: Seq<char>,
    c: char,
    radix: int,
    negative: bool,
    min: int,
    max: int,
    acc: int,
)
    requires
        parse_digits(s, radix, negative, min, max, acc) is Ok,
    ensures
        parse_digits(s.push(c), radix, negative, min, max, acc) == parse_digits(
            seq![c],
            radix,
            negative,
            min,
            max,
            parse_digits(s, radix, negative, min, max, acc)->Ok_0,
        ),
    decreases s.len(),
{
    if s.len() == 0 {
        assert(s.push(c) =~= seq![c]);
    } else {
        let d = digit_value(s[0], radix)->0;
        let next = if negative {
            acc * radix - d
        } else {
            acc * radix + d
        };
        assert(s.push(c).drop_first() =~= s.drop_first().push(c));
        lemma_parse_digits_push(s.drop_first(), c, radix, negative, min, max, next);
    }
}

/// What reading one digit gives.
pub proof fn lemma_parse_one_digit(
    c: char,
    radix: int,
    negative: bool,
    min: int,
    max: int,
    acc: int,
)
    requires
        digit_value(c, radix) is Some,
    ensures
        parse_digits(seq![c], radix, negative, min, max, acc) == ({
            let d = digit_value(c, radix)->0;
            let next = if negative {
                acc * radix - d
            } else {
                acc * radix + d
            };
            if next > max {
                Err::<int, IntErrorKind>(IntErrorKind::PosOverflow)
            } else if next < min {
                Err(IntErrorKind::NegOverflow)
            } else {
                Ok(next)
            }
        }),
{
    let s = seq![c];
    assert(s[0] == c);
    assert(s.drop_first() =~= Seq::<char>::empty());
    let d = digit_value(c, radix)->0;
    let next = if negative {
        acc * radix - d
    } else {
        acc * radix + d
    };
    assert(parse_digits(Seq::<char>::empty(), radix, negative, min, max, next) == Ok::<
        int,
        IntErrorKind,
    >(next));
}

/// Reading the digits of `n` gives `n`, or `-n` where the reading subtracts.
pub proof fn lemma_parse_digits_of_digits(n: nat, radix: int, negative: bool, min: int, max: int)
    requires
        radix == 10 || radix == 16,
        min <= 0 <= max,
        negative ==> min <= -n,
        !negative ==> n <= max,
    ensures
        parse_digits(digits(n, radix), radix, negative, min, max, 0) == Ok::<int, IntErrorKind>(
            if negative {
                -n
            } else {
                n as int
            },
        ),
    decreases n,
{
    if n < radix {
        assert(digit_value(digit_char(n as int), radix) == Some(n as int));
        lemma_parse_one_digit(digit_char(n as int), radix, negative, min, max, 0);
        assert(0 * radix == 0);
    } else {
        let q = n / (radix as nat);
        let r = (n % (radix as nat)) as int;
        assert(n == q * radix + r && 0 <= r < radix && q <= n) by (nonlinear_arith)
            requires
                q == n / (radix as nat),
                r == (n % (radix as nat)) as int,
                radix >= 2,
        ;
        lemma_parse_digits_of_digits(q, radix, negative, min, max);
        lemma_parse_digits_push(digits(q, radix), digit_char(r), radix, negative, min, max, 0);
        assert(digit_value(digit_char(r), radix) == Some(r));
        let acc = if negative {
            -(q as int)
        } else {
            q as int
        };
        lemma_parse_one_digit(digit_char(r), radix, negative, min, max, acc);
        assert((-(q as int)) * radix - r == -(n as int)) by (nonlinear_arith)
            requires
                n == q * radix + r,
        ;
    }
}

/// An integer written in base 10 reads back as itself.
pub proof fn lemma_parse_decimal(n: int, min: int, max: int)
    requires
        min <= 0 <= max,
        min <= n <= max,
    ensures
        parse_int(decimal(n), 10, min, max) == Ok::<int, IntErrorKind>(n),
{
    if n < 0 {
        let d = digits((-n) as nat, 10);
        lemma_digits_shape((-n) as nat, 10);
        lemma_parse_digits_of_digits((-n) as nat, 10, true, min, max);
        assert(decimal(n).drop_first() =~= d);
    } else {
        let d = digits(n as nat, 10);
        lemma_digits_shape(n as nat, 10);
        lemma_parse_digits_of_digits(n as nat, 10, false, min, max);
        assert(digit_value(d[0], 10) is Some);
    }
}

/// A number written in base 16, with or without a zero in front, reads back
/// as itself.
pub proof fn lemma_parse_hex(n: nat, max: int)
    requires
        n <= max,
    ensures
        parse_int(hex_bytes(n), 16, 0, max) == Ok::<int, IntErrorKind>(n as int),
{
    let d = digits(n, 16);
    lemma_digits_shape(n, 16);
    lemma_parse_digits_of_digits(n, 16, false, 0, max);
    assert(digit_value(d[0], 16) is Some);
    if d.len() % 2 != 0 {
        let s = seq!['0'] + d;
        assert(s.drop_first() =~= d);
        assert(digit_value('0', 16) == Some(0int));
    }
}

/// The value of `c` as a digit, where it is one.
fn digit_of(c: char, radix: u32) -> (d: Option<u32>)
    requires
        radix == 10 || radix == 16,
    ensures
        match d {
            Some(v) => digit_value(c, radix as int) == Some(v as int),
            None => digit_value(c, radix as int) is None,
        },
{
    let u: u32 = c as u32;
    let v: u32 = if 0x30 <= u && u <= 0x39 {
        u - 0x30
    } else if 0x61 <= u && u <= 0x7A {
        u - 0x61 + 10
    } else if 0x41 <= u && u <= 0x5A {
        u - 0x41 + 10
    } else {
        radix
    };
    if v < radix {
        Some(v)
    } else {
        None
    }
}

/// Reads an integer of a type whose values are `min..=max`.
pub fn parse_integer(s: &[char], radix: u32, min: i128, max: i128) -> (r: Result<
    i128,
    IntErrorKind,
>)
    requires
        radix == 10 || radix == 16,
        -0x1_0000_0000_0000_0000 <= min <= 0 <= max <= 0x1_0000_0000_0000_0000,
    ensures
        match r {
            Ok(v) => min <= v <= max && parse_int(s@, radix as int, min as int, max as int) == Ok::<
                int,
                IntErrorKind,
            >(v as int),
            Err(e) => parse_int(s@, radix as int, min as int, max as int) == Err::<
                int,
                IntErrorKind,
            >(e),
        },
{
    if s.len() == 0 {
        return Err(IntErrorKind::Empty);
    }
    if s.len() == 1 && (s[0] == '+' || s[0] == '-') {
        return Err(IntErrorKind::InvalidDigit);
    }
    let negative: bool = s[0] == '-' && min < 0;
    let start: usize = if s[0] == '+' || negative {
        1
    } else {
        0
    };
    let ghost whole = parse_int(s@, radix as int, min as int, max as int);
    let mut acc: i128 = 0;
    let mut i: usize = start;
    proof {
        assert(s@.skip(1) =~= s@.drop_first());
        assert(s@.skip(0) =~= s@);
    }
    while i < s.len()
        invariant
            start <= i <= s.len(),
            radix == 10 || radix == 16,
            -0x1_0000_0000_0000_0000 <= min <= 0 <= max <= 0x1_0000_0000_0000_0000,
            min <= acc <= max,
            whole == parse_int(s@, radix as int, min as int, max as int),
            whole == parse_digits(
                s@.skip(i as int),
                radix as int,
                negative,
                min as int,
                max as int,
                acc as int,
            ),
        decreases s.len() - i,
    {
        proof {
            assert(s@.skip(i as int)[0] == s@[i as int]);
            assert(s@.skip(i as int).drop_first() =~= s@.skip(i + 1));
        }
        match digit_of(s[i], radix) {
            None => {
                return Err(IntErrorKind::InvalidDigit);
            },
            Some(d) => {
                assert(-0x10_0000_0000_0000_0000 <= acc * (radix as i128)
                    <= 0x10_0000_0000_0000_0000) by (nonlinear_arith)
                    requires
                        -0x1_0000_0000_0000_0000 <= acc <= 0x1_0000_0000_0000_0000,
                        radix == 10 || radix == 16,
                ;
                let next: i128 = if negative {
                    acc * (radix as i128) - (d as i128)
                } else {
                    acc * (radix as i128) + (d as i128)
                };
                if next > max {
                    return Err(IntErrorKind::PosOverflow);
                }
                if next < min {
                    return Err(IntErrorKind::NegOverflow);
                }
                acc = next;
            },
        }
        i += 1;
    }
    Ok(acc)
}

/// Appends the digits of `n` in the given radix to `out`.
pub fn push_digits(out: &mut String, n: u64, radix: u64)
    requires
        radix == 10 || radix == 16,
    ensures
        final(out)@ == old(out)@ + digits(n as nat, radix as int),
    decreases n,
{
    if n >= radix {
        push_digits(out, n / radix, radix);
    }
    let d: u8 = (n % radix) as u8;
    let c: char = if d < 10 {
        (0x30u8 + d) as char
    } else {
        (0x41u8 + d - 10) as char
    };
    proof {
        if n >= radix {
            assert(old(out)@ + digits(n as nat / (radix as nat), radix as int).push(c) =~= (old(
                out,
            )@ + digits(n as nat / (radix as nat), radix as int)).push(c));
        } else {
            assert(old(out)@ + seq![c] =~= old(out)@.push(c));
        }
    }
    string_push(out, c);
}

/// Appends `n` in base 10 to `out`.
pub fn push_decimal(out: &mut String, n: i128)
    requires
        -0x8000_0000_0000_0000 <= n <= 0xFFFF_FFFF_FFFF_FFFF,
    ensures
        final(out)@ == old(out)@ + decimal(n as int),
{
    if n < 0 {
        string_push(out, '-');
        let ghost mid = out@;
        push_digits(out, (-n) as u64, 10);
        proof {
            assert(mid + digits((-n) as nat, 10) =~= old(out)@ + (seq!['-'] + digits(
                (-n) as nat,
                10,
            )));
        }
    } else {
        push_digits(out, n as u64, 10);
    }
}

/// Appends `n` in base 16 to `out`, in an even number of digits.
pub fn push_hex_bytes(out: &mut String, n: u64)
    ensures
        final(out)@ == old(out)@ + hex_bytes(n as nat),
{
    let mut text = String::new();
    push_digits(&mut text, n, 16);
    let count: usize = text.as_str().unicode_len();
    proof {
        assert(text@ =~= digits(n as nat, 16));
    }
    if count % 2 != 0 {
        string_push(out, '0');
        let ghost mid = out@;
        out.append(text.as_str());
        proof {
            assert(mid + text@ =~= old(out)@ + (seq!['0'] + text@));
        }
    } else {
        out.append(text.as_str());
    }
}

} // verus!
