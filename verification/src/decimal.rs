//! Amounts written in decimal, as `150.25` or `-0.5`.

use crate::ratio::Rat;
use crate::ratio::Ratio;
use vstd::prelude::*;

verus! {

/// The most decimal places an amount may be written with.
pub const MAX_PLACES: u32 = 18;

/// The largest number that the digits of an amount may spell.
pub const MAX_DIGITS_VALUE: u128 = 1_000_000_000_000_000_000_000_000_000_000_000_000;

/// Whether `c` is one of `0` to `9`.
pub open spec fn is_digit(c: char) -> bool {
    48 <= c as u32 <= 57
}

/// The number that the digit `c` stands for.
pub open spec fn digit_value(c: char) -> nat {
    (c as u32 - 48) as nat
}

/// Ten to the power `k`.
pub open spec fn power_of_ten(k: nat) -> nat
    decreases k,
{
    if k == 0 {
        1
    } else {
        10 * power_of_ten((k - 1) as nat)
    }
}

/// What has been read of the digits of an amount: the number that the
/// digits spell when the point is left out, how many of them stand before
/// the point and how many after it, and whether the point was met.
pub struct Digits {
    pub value: nat,
    pub before: nat,
    pub after: nat,
    pub pointed: bool,
}

/// The first `upto` characters of `body` read as digits with at most one
/// point among them; `None` if another character or a second point is
/// met.
pub open spec fn digits_read(body: Seq<char>, upto: int) -> Option<Digits>
    decreases upto,
{
    if upto <= 0 {
        Some(Digits { value: 0, before: 0, after: 0, pointed: false })
    } else {
        match digits_read(body, upto - 1) {
            None => None,
            Some(read) => {
                let c = body[upto - 1];
                if is_digit(c) {
                    Some(
                        Digits {
                            value: read.value * 10 + digit_value(c),
                            before: if read.pointed {
                                read.before
                            } else {
                                read.before + 1
                            },
                            after: if read.pointed {
                                read.after + 1
                            } else {
                                0
                            },
                            pointed: read.pointed,
                        },
                    )
                } else if c == '.' && !read.pointed {
                    Some(Digits { pointed: true, ..read })
                } else {
                    None
                }
            },
        }
    }
}

/// Whether the text starts with a minus sign.
pub open spec fn is_negative(text: Seq<char>) -> bool {
    text.len() > 0 && text[0] == '-'
}

/// The text after its minus sign, if it has one.
pub open spec fn unsigned_part(text: Seq<char>) -> Seq<char> {
    if is_negative(text) {
        text.subrange(1, text.len() as int)
    } else {
        text
    }
}

/// The fraction that a decimal amount spells: an optional `-`, at least
/// one digit, and optionally a point with up to eighteen digits after it.
/// `None` for any other text, and for digits that spell more than
/// `MAX_DIGITS_VALUE`.
pub open spec fn decimal_fraction(text: Seq<char>) -> Option<Rat> {
    let body = unsigned_part(text);
    match digits_read(body, body.len() as int) {
        Some(read) => if read.before >= 1 && read.after <= MAX_PLACES && read.value
            <= MAX_DIGITS_VALUE {
            Some(
                Rat {
                    num: if is_negative(text) {
                        -(read.value as int)
                    } else {
                        read.value as int
                    },
                    den: power_of_ten(read.after) as int,
                },
            )
        } else {
            None
        },
        None => None,
    }
}

/// The value that a decimal amount spells, when it fits.
pub open spec fn decimal_value(text: Seq<char>) -> Option<Ratio> {
    match decimal_fraction(text) {
        Some(q) => Ratio::of_rat(q),
        None => None,
    }
}

/// A text that cannot be read stays unreadable however it goes on.
pub proof fn lemma_digits_read_fails(body: Seq<char>, at: int, upto: int)
    requires
        at <= upto,
        digits_read(body, at) is None,
    ensures
        digits_read(body, upto) is None,
    decreases upto,
{
    if at < upto {
        lemma_digits_read_fails(body, at, upto - 1);
    }
}

/// Reading on never makes the number smaller, takes no decimal place
/// away, and forgets no point.
pub proof fn lemma_digits_read_grows(body: Seq<char>, at: int, upto: int)
    requires
        0 <= at <= upto,
    ensures
        digits_read(body, upto) matches Some(later) ==> digits_read(body, at) matches Some(
            earlier,
        ) && earlier.value <= later.value && (earlier.pointed ==> later.pointed && earlier.after
            <= later.after),
    decreases upto,
{
    if at < upto {
        lemma_digits_read_grows(body, at, upto - 1);
    }
}

/// Powers of ten multiply to the power of the sum.
pub proof fn lemma_power_of_ten_sum(j: nat, k: nat)
    ensures
        power_of_ten(j) * power_of_ten(k) == power_of_ten(j + k),
        power_of_ten(j) >= 1,
    decreases j,
{
    if j > 0 {
        lemma_power_of_ten_sum((j - 1) as nat, k);
        let a = power_of_ten((j - 1) as nat);
        let b = power_of_ten(k);
        assert((10 * a) * b == 10 * (a * b)) by (nonlinear_arith);
        assert(((j - 1) as nat) + k == (j + k - 1) as nat);
        assert(power_of_ten(j + k) == 10 * power_of_ten((j + k - 1) as nat));
    } else {
        assert(1 * power_of_ten(k) == power_of_ten(k)) by (nonlinear_arith);
        assert(0 + k == k);
    }
}

/// The powers of ten up to the eighteenth.
pub proof fn lemma_power_of_ten_bound(k: nat)
    requires
        k <= 18,
    ensures
        0 < power_of_ten(k) <= 1_000_000_000_000_000_000,
        k < 18 ==> power_of_ten(k) <= 100_000_000_000_000_000,
{
    lemma_power_of_ten_sum(k, (18 - k) as nat);
    lemma_power_of_ten_sum((18 - k) as nat, 0);
    assert(power_of_ten(18) == 1_000_000_000_000_000_000nat) by {
        reveal_with_fuel(power_of_ten, 19);
    }
    let a = power_of_ten(k);
    let b = power_of_ten((18 - k) as nat);
    if k < 18 {
        lemma_power_of_ten_sum((17 - k) as nat, 0);
        assert(b >= 10);
        assert(a <= 100_000_000_000_000_000) by (nonlinear_arith)
            requires
                a * b == 1_000_000_000_000_000_000,
                b >= 10,
                a >= 1,
        ;
    } else {
        assert(a <= 1_000_000_000_000_000_000) by (nonlinear_arith)
            requires
                a * b == 1_000_000_000_000_000_000,
                b >= 1,
                a >= 1,
        ;
    }
}

/// Reads a decimal amount. `None` exactly when the text is no amount of
/// the accepted form or its value in lowest terms does not fit.
pub fn parse_decimal(text: &str) -> (r: Option<Ratio>)
    ensures
        r == decimal_value(text@),
{
    let n = text.unicode_len();
    let negative = n > 0 && text.get_char(0) == '-';
    let first: usize = if negative {
        1
    } else {
        0
    };
    let ghost body = unsigned_part(text@);
    let mut value: u128 = 0;
    let mut before: usize = 0;
    let mut after: u32 = 0;
    let mut scale: u128 = 1;
    let mut pointed = false;
    let mut i: usize = first;
    while i < n
        invariant
            first <= i <= n,
            n == text@.len(),
            body == unsigned_part(text@),
            body.len() == n - first,
            first == (if is_negative(text@) {
                1int
            } else {
                0int
            }),
            digits_read(body, i - first) == Some(
                Digits {
                    value: value as nat,
                    before: before as nat,
                    after: after as nat,
                    pointed,
                },
            ),
            value <= MAX_DIGITS_VALUE,
            after <= MAX_PLACES,
            before <= i,
            scale == power_of_ten(after as nat),
        decreases n - i,
    {
        let c = text.get_char(i);
        assert(body[i - first] == c);
        let code = c as u32;
        if 48 <= code && code <= 57 {
            let d = (code - 48) as u128;
            if value > (MAX_DIGITS_VALUE - d) / 10 {
                proof {
                    lemma_digits_read_grows(body, i - first + 1, body.len() as int);
                }
                return None;
            }
            if pointed {
                if after >= MAX_PLACES {
                    proof {
                        lemma_digits_read_grows(body, i - first + 1, body.len() as int);
                    }
                    return None;
                }
                proof {
                    lemma_power_of_ten_bound(after as nat);
                }
                after = after + 1;
                scale = scale * 10;
            } else {
                before = before + 1;
            }
            value = value * 10 + d;
        } else if c == '.' && !pointed {
            pointed = true;
        } else {
            proof {
                lemma_digits_read_fails(body, i - first + 1, body.len() as int);
            }
            return None;
        }
        i += 1;
    }
    if before == 0 {
        return None;
    }
    proof {
        lemma_power_of_ten_bound(after as nat);
    }
    let magnitude = value as i128;
    let num: i128 = if negative {
        -magnitude
    } else {
        magnitude
    };
    Ratio::normalize(num, scale as i128)
}

} // verus!
