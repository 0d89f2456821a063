//! Small verified text utilities: digit classification and rendering, string
//! equality, and substring search over `&str` values.

use vstd::prelude::*;
use vstd::string::StrSliceExecFns;
use vstd::string::StringExecFns;

verus! {

/// An ASCII decimal digit.
pub open spec fn is_digit(c: char) -> bool {
    48 <= c as u32 <= 57
}

/// The numeric value of an ASCII decimal digit.
pub open spec fn digit_val(c: char) -> int {
    c as u32 - 48
}

/// The character of a decimal digit value.
pub open spec fn digit_char(n: int) -> char {
    if n == 0 {
        '0'
    } else if n == 1 {
        '1'
    } else if n == 2 {
        '2'
    } else if n == 3 {
        '3'
    } else if n == 4 {
        '4'
    } else if n == 5 {
        '5'
    } else if n == 6 {
        '6'
    } else if n == 7 {
        '7'
    } else if n == 8 {
        '8'
    } else {
        '9'
    }
}

/// A value below 100 rendered as exactly two digits ("07", "35").
pub open spec fn two_digit_chars(n: int) -> Seq<char> {
    seq![digit_char(n / 10), digit_char(n % 10)]
}

/// A value below 1000 rendered without leading zeros ("7", "35", "255").
pub open spec fn num_chars(n: int) -> Seq<char> {
    if n < 10 {
        seq![digit_char(n)]
    } else if n < 100 {
        two_digit_chars(n)
    } else {
        seq![digit_char(n / 100)] + two_digit_chars(n % 100)
    }
}

fn digit_str(d: u8) -> (r: &'static str)
    requires
        d < 10,
    ensures
        r@ == seq![digit_char(d as int)],
{
    match d {
        0 => {
            proof {
                reveal_strlit("0");
                assert("0"@ =~= seq![digit_char(0)]);
            }
            "0"
        },
        1 => {
            proof {
                reveal_strlit("1");
                assert("1"@ =~= seq![digit_char(1)]);
            }
            "1"
        },
        2 => {
            proof {
                reveal_strlit("2");
                assert("2"@ =~= seq![digit_char(2)]);
            }
            "2"
        },
        3 => {
            proof {
                reveal_strlit("3");
                assert("3"@ =~= seq![digit_char(3)]);
            }
            "3"
        },
        4 => {
            proof {
                reveal_strlit("4");
                assert("4"@ =~= seq![digit_char(4)]);
            }
            "4"
        },
        5 => {
            proof {
                reveal_strlit("5");
                assert("5"@ =~= seq![digit_char(5)]);
            }
            "5"
        },
        6 => {
            proof {
                reveal_strlit("6");
                assert("6"@ =~= seq![digit_char(6)]);
            }
            "6"
        },
        7 => {
            proof {
                reveal_strlit("7");
                assert("7"@ =~= seq![digit_char(7)]);
            }
            "7"
        },
        8 => {
            proof {
                reveal_strlit("8");
                assert("8"@ =~= seq![digit_char(8)]);
            }
            "8"
        },
        _ => {
            proof {
                reveal_strlit("9");
                assert("9"@ =~= seq![digit_char(9)]);
            }
            "9"
        },
    }
}

/// Appends a value below 100 as exactly two digits.
pub(crate) fn append_two_digits(s: &mut String, n: u32)
    requires
        n < 100,
    ensures
        final(s)@ == old(s)@ + two_digit_chars(n as int),
{
    let d1: u32 = n / 10;
    let d2: u32 = n % 10;
    s.append(digit_str(d1 as u8));
    s.append(digit_str(d2 as u8));
    proof {
        assert(s@ =~= old(s)@ + two_digit_chars(n as int));
    }
}

/// Appends a value below 1000 without leading zeros.
pub(crate) fn append_num(s: &mut String, n: u32)
    requires
        n < 1000,
    ensures
        final(s)@ == old(s)@ + num_chars(n as int),
{
    if n < 10 {
        s.append(digit_str(n as u8));
        proof {
            assert(s@ =~= old(s)@ + num_chars(n as int));
        }
    } else if n < 100 {
        append_two_digits(s, n);
    } else {
        let d1: u32 = n / 100;
        s.append(digit_str(d1 as u8));
        append_two_digits(s, n % 100);
        proof {
            assert(s@ =~= old(s)@ + num_chars(n as int));
        }
    }
}

/// Character-wise string equality.
pub fn str_eq(a: &str, b: &str) -> (r: bool)
    ensures
        r == (a@ == b@),
{
    let la: usize = a.unicode_len();
    let lb: usize = b.unicode_len();
    if la != lb {
        return false;
    }
    let mut i: usize = 0;
    while i < la
        invariant
            0 <= i <= la,
            la == a@.len(),
            la == b@.len(),
            forall|j: int| 0 <= j < i ==> a@[j] == b@[j],
        decreases la - i,
    {
        let ca: char = a.get_char(i);
        let cb: char = b.get_char(i);
        if ca != cb {
            return false;
        }
        i = i + 1;
    }
    proof {
        assert(a@ =~= b@);
    }
    true
}

/// `needle` occurs as a contiguous run inside `hay`.
pub open spec fn contains_seq(hay: Seq<char>, needle: Seq<char>) -> bool {
    exists|i: int|
        0 <= i && i + needle.len() <= hay.len() && #[trigger] hay.subrange(i, i + needle.len())
            == needle
}

fn match_at(h: &str, n: &str, i: usize, lh: usize, ln: usize) -> (r: bool)
    requires
        lh == h@.len(),
        ln == n@.len(),
        i + ln <= lh,
    ensures
        r == (h@.subrange(i as int, i + n@.len()) == n@),
{
    let mut j: usize = 0;
    while j < ln
        invariant
            lh == h@.len(),
            ln == n@.len(),
            i + ln <= lh,
            0 <= j <= ln,
            forall|k: int| 0 <= k < j ==> h@[i + k] == n@[k],
        decreases ln - j,
    {
        let ch: char = h.get_char(i + j);
        let cn: char = n.get_char(j);
        if ch != cn {
            proof {
                assert(h@.subrange(i as int, i + n@.len())[j as int] == h@[i + j]);
            }
            return false;
        }
        j = j + 1;
    }
    proof {
        assert(h@.subrange(i as int, i + n@.len()) =~= n@);
    }
    true
}

/// Substring search; quadratic, which is fine for short location lines.
pub fn str_contains(h: &str, n: &str) -> (r: bool)
    ensures
        r == contains_seq(h@, n@),
{
    let lh: usize = h.unicode_len();
    let ln: usize = n.unicode_len();
    if ln > lh {
        return false;
    }
    if ln == 0 {
        proof {
            assert(h@.subrange(0, 0 + n@.len() as int) =~= n@);
        }
        return true;
    }
    let mut i: usize = 0;
    while i <= lh - ln
        invariant
            lh == h@.len(),
            ln == n@.len(),
            1 <= ln <= lh,
            0 <= i <= lh - ln + 1,
            forall|k: int| 0 <= k < i ==> #[trigger] h@.subrange(k, k + n@.len()) != n@,
        decreases lh - ln - i + 1,
    {
        if match_at(h, n, i, lh, ln) {
            proof {
                assert(0 <= i as int && i + n@.len() <= h@.len() && h@.subrange(
                    i as int,
                    i + n@.len(),
                ) == n@);
            }
            return true;
        }
        i = i + 1;
    }
    false
}

} // verus!
