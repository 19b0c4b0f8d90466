//! How a number is shown: its whole part in groups of three digits, then the
//! hundredths and the unit.
//!
//! The whole part and the hundredths arrive as integers: rounding a double to
//! them is the caller's part.

use vstd::prelude::*;
use vstd::string::{StrSliceExecFns, StringExecFns};

verus! {

/// The character of a decimal digit.
pub open spec fn digit(d: int) -> char {
    if d == 0 {
        '0'
    } else if d == 1 {
        '1'
    } else if d == 2 {
        '2'
    } else if d == 3 {
        '3'
    } else if d == 4 {
        '4'
    } else if d == 5 {
        '5'
    } else if d == 6 {
        '6'
    } else if d == 7 {
        '7'
    } else if d == 8 {
        '8'
    } else {
        '9'
    }
}

/// The decimal digits of a natural number, without leading zeros.
pub open spec fn digits(n: nat) -> Seq<char>
    decreases n,
{
    if n < 10 {
        seq![digit(n as int)]
    } else {
        digits(n / 10).push(digit((n % 10) as int))
    }
}

/// The decimal form of an integer: a minus sign before the digits of a
/// negative one.
pub open spec fn decimal(i: int) -> Seq<char> {
    if i < 0 {
        seq!['-'] + digits((-i) as nat)
    } else {
        digits(i as nat)
    }
}

/// The text cut into groups of three characters, counted from its end, with a
/// dot between the groups. A sign counts as a character.
pub open spec fn grouped(text: Seq<char>) -> Seq<char>
    decreases text.len(),
{
    if text.len() <= 3 {
        text
    } else {
        grouped(text.take(text.len() - 3)) + seq!['.'] + text.skip(text.len() - 3)
    }
}

/// An integer in at least two characters: a digit alone gets a zero before it.
pub open spec fn two_places(i: int) -> Seq<char> {
    if 0 <= i < 10 {
        seq!['0'] + decimal(i)
    } else {
        decimal(i)
    }
}

/// A number as it is shown: the whole part in groups of three; after a comma
/// the hundredths, where they are shown; after a blank the unit, where there is
/// one.
pub open spec fn shown(whole: int, hundredths: Option<int>, unit: Option<Seq<char>>) -> Seq<char> {
    grouped(decimal(whole)) + (match hundredths {
        Some(h) => seq![','] + two_places(h),
        None => Seq::empty(),
    }) + (match unit {
        Some(u) => seq![' '] + u,
        None => Seq::empty(),
    })
}

/// The text of one decimal digit.
fn digit_text(d: u64) -> (text: &'static str)
    requires
        d < 10,
    ensures
        text@ == seq![digit(d as int)],
{
    proof {
        reveal_strlit("0");
        reveal_strlit("1");
        reveal_strlit("2");
        reveal_strlit("3");
        reveal_strlit("4");
        reveal_strlit("5");
        reveal_strlit("6");
        reveal_strlit("7");
        reveal_strlit("8");
        reveal_strlit("9");
    }
    let text = if d == 0 {
        "0"
    } else if d == 1 {
        "1"
    } else if d == 2 {
        "2"
    } else if d == 3 {
        "3"
    } else if d == 4 {
        "4"
    } else if d == 5 {
        "5"
    } else if d == 6 {
        "6"
    } else if d == 7 {
        "7"
    } else if d == 8 {
        "8"
    } else {
        "9"
    };
    proof {
        assert(text@ =~= seq![digit(d as int)]);
    }
    text
}

/// The decimal digits of a number.
fn digits_text(n: u64) -> (text: String)
    ensures
        text@ == digits(n as nat),
    decreases n,
{
    if n < 10 {
        digit_text(n).to_owned()
    } else {
        let mut text = digits_text(n / 10);
        let last = digit_text(n % 10);
        text.append(last);
        proof {
            assert(text@ =~= digits((n / 10) as nat).push(digit((n % 10) as int)));
        }
        text
    }
}

/// The decimal form of an integer.
pub fn decimal_text(i: i64) -> (text: String)
    ensures
        text@ == decimal(i as int),
{
    if i < 0 {
        let size: u64 = if i == i64::MIN {
            0x8000_0000_0000_0000
        } else {
            (-i) as u64
        };
        let mut text = "-".to_owned();
        let rest = digits_text(size);
        text.append(rest.as_str());
        proof {
            reveal_strlit("-");
            assert("-"@ =~= seq!['-']);
        }
        text
    } else {
        digits_text(i as u64)
    }
}

/// Cuts a text into groups of three characters, counted from its end, and puts
/// a dot between the groups.
pub fn group_text(text: &str) -> (out: String)
    ensures
        out@ == grouped(text@),
{
    let n = text.unicode_len();
    if n <= 3 {
        return text.to_owned();
    }
    let groups = (n - 1) / 3;
    let head = n - 3 * groups;
    let mut out = text.substring_char(0, head).to_owned();
    proof {
        assert(text@.take(head as int) =~= text@.subrange(0, head as int));
    }
    let mut at: usize = head;
    while at < n
        invariant
            1 <= head <= at <= n,
            n == text@.len(),
            (n - at) % 3 == 0,
            out@ == grouped(text@.take(at as int)),
        decreases n - at,
    {
        let group = text.substring_char(at, at + 3);
        out.append(".");
        out.append(group);
        proof {
            reveal_strlit(".");
            assert("."@ =~= seq!['.']);
            let upto = text@.take(at + 3);
            assert(upto.take(upto.len() - 3) =~= text@.take(at as int));
            assert(upto.skip(upto.len() - 3) =~= text@.subrange(at as int, at + 3));
        }
        at += 3;
    }
    proof {
        assert(text@.take(n as int) =~= text@);
    }
    out
}

/// Shows a number: the whole part in groups of three; after a comma the
/// hundredths, where they are to be shown; after a blank the unit, where there
/// is one.
pub fn format_number(whole: i64, hundredths: Option<i64>, unit: Option<&str>) -> (out: String)
    ensures
        out@ == shown(
            whole as int,
            match hundredths {
                Some(h) => Some(h as int),
                None => None,
            },
            match unit {
                Some(u) => Some(u@),
                None => None,
            },
        ),
{
    let plain = decimal_text(whole);
    let mut out = group_text(plain.as_str());
    match hundredths {
        Some(h) => {
            out.append(",");
            if 0 <= h && h < 10 {
                out.append("0");
            }
            let places = decimal_text(h);
            out.append(places.as_str());
            proof {
                reveal_strlit(",");
                reveal_strlit("0");
                assert(","@ =~= seq![',']);
                assert("0"@ =~= seq!['0']);
                assert(out@ =~= grouped(decimal(whole as int)) + (seq![','] + two_places(h as int)));
            }
        },
        None => {
            proof {
                assert(out@ =~= grouped(decimal(whole as int)) + Seq::<char>::empty());
            }
        },
    }
    let ghost before = out@;
    match unit {
        Some(u) => {
            out.append(" ");
            out.append(u);
            proof {
                reveal_strlit(" ");
                assert(" "@ =~= seq![' ']);
                assert(out@ =~= before + (seq![' '] + u@));
            }
        },
        None => {
            proof {
                assert(out@ =~= before + Seq::<char>::empty());
            }
        },
    }
    out
}

} // verus!
