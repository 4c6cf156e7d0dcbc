//! Text helpers shared by the detectors and the scanner: path joining per
//! platform, prefix tests and decimal rendering of sizes.
use vstd::prelude::*;
use vstd::string::*;

verus! {

/// The family of operating system whose path and directory conventions apply.
#[derive(Debug, Clone, Copy, PartialEq, Eq, Structural)]
pub enum Platform {
    Unix,
    Windows,
}

/// Whether `c` separates path components on `p`: `/` everywhere, and also
/// `\` on Windows.
pub open spec fn is_separator(p: Platform, c: char) -> bool {
    c == '/' || (p == Platform::Windows && c == '\\')
}

/// The separator that joining inserts on `p`.
pub open spec fn main_separator(p: Platform) -> char {
    if p == Platform::Windows {
        '\\'
    } else {
        '/'
    }
}

/// A Windows path that is only a drive, such as `C:`.
pub open spec fn is_drive_only(p: Platform, b: Seq<char>) -> bool {
    &&& p == Platform::Windows
    &&& b.len() == 2
    &&& b[1] == ':'
    &&& (('a' <= b[0] && b[0] <= 'z') || ('A' <= b[0] && b[0] <= 'Z'))
}

/// `name` (a relative path) appended to `base`: a separator is put between
/// them unless `base` is empty, already ends with a separator, or is a bare
/// Windows drive.
pub open spec fn joined(p: Platform, base: Seq<char>, name: Seq<char>) -> Seq<char> {
    if base.len() == 0 || is_separator(p, base.last()) || is_drive_only(p, base) {
        base + name
    } else {
        base + seq![main_separator(p)] + name
    }
}

/// Whether `s` begins with `prefix`.
pub open spec fn has_prefix(s: Seq<char>, prefix: Seq<char>) -> bool {
    prefix.len() <= s.len() && s.subrange(0, prefix.len() as int) == prefix
}

/// The decimal digit character for `d` (taken modulo ten).
pub open spec fn digit_char(d: nat) -> char {
    let d = d % 10;
    if d == 0 {
        '0'
    } else if d == 1 {
        '1'
    } else if d == 2 {
        '2'
    } else if d == 3 {
        '3'
    } else if d == 4 {
        '4'
    } else if d == 5 {
        '5'
    } else if d == 6 {
        '6'
    } else if d == 7 {
        '7'
    } else if d == 8 {
        '8'
    } else {
        '9'
    }
}

/// The decimal representation of `n`, without leading zeros.
pub open spec fn decimal(n: nat) -> Seq<char>
    decreases n,
{
    if n < 10 {
        seq![digit_char(n)]
    } else {
        decimal(n / 10) + seq![digit_char(n % 10)]
    }
}

/// Whether `s` begins with `prefix`.
pub fn starts_with(s: &str, prefix: &str) -> (r: bool)
    ensures
        r == has_prefix(s@, prefix@),
{
    let n = s.unicode_len();
    let m = prefix.unicode_len();
    if m > n {
        return false;
    }
    let mut i: usize = 0;
    while i < m
        invariant
            i <= m,
            m == prefix@.len(),
            m <= n,
            n == s@.len(),
            forall|j: int| 0 <= j < i ==> s@[j] == prefix@[j],
        decreases m - i,
    {
        if s.get_char(i) != prefix.get_char(i) {
            proof {
                assert(s@.subrange(0, m as int)[i as int] != prefix@[i as int]);
            }
            return false;
        }
        i = i + 1;
    }
    proof {
        assert(s@.subrange(0, m as int) =~= prefix@);
    }
    true
}

/// The one-character string of the digit `d`.
fn digit_str(d: u64) -> (r: &'static str)
    requires
        d < 10,
    ensures
        r@ == seq![digit_char(d as nat)],
{
    if d == 0 {
        proof {
            reveal_strlit("0");
        }
        "0"
    } else if d == 1 {
        proof {
            reveal_strlit("1");
        }
        "1"
    } else if d == 2 {
        proof {
            reveal_strlit("2");
        }
        "2"
    } else if d == 3 {
        proof {
            reveal_strlit("3");
        }
        "3"
    } else if d == 4 {
        proof {
            reveal_strlit("4");
        }
        "4"
    } else if d == 5 {
        proof {
            reveal_strlit("5");
        }
        "5"
    } else if d == 6 {
        proof {
            reveal_strlit("6");
        }
        "6"
    } else if d == 7 {
        proof {
            reveal_strlit("7");
        }
        "7"
    } else if d == 8 {
        proof {
            reveal_strlit("8");
        }
        "8"
    } else {
        proof {
            reveal_strlit("9");
        }
        "9"
    }
}

/// Renders `n` in decimal.
pub fn decimal_string(n: u64) -> (r: String)
    ensures
        r@ == decimal(n as nat),
    decreases n,
{
    if n < 10 {
        String::from_str(digit_str(n))
    } else {
        let mut s = decimal_string(n / 10);
        s.append(digit_str(n % 10));
        s
    }
}

/// Whether `c` separates path components on `p`.
fn separator_at_end(p: Platform, s: &str) -> (r: bool)
    requires
        s@.len() > 0,
    ensures
        r == is_separator(p, s@.last()),
{
    let n = s.unicode_len();
    let c = s.get_char(n - 1);
    match p {
        Platform::Unix => c == '/',
        Platform::Windows => c == '/' || c == '\\',
    }
}

/// Whether `s` is a bare Windows drive such as `C:`.
fn drive_only(p: Platform, s: &str) -> (r: bool)
    ensures
        r == is_drive_only(p, s@),
{
    match p {
        Platform::Unix => false,
        Platform::Windows => {
            if s.unicode_len() != 2 {
                return false;
            }
            let c0 = s.get_char(0);
            let c1 = s.get_char(1);
            c1 == ':' && (('a' <= c0 && c0 <= 'z') || ('A' <= c0 && c0 <= 'Z'))
        },
    }
}

/// Appends the relative path `name` to `base` the way the platform joins
/// path components.
pub fn join_path(p: Platform, base: &str, name: &str) -> (r: String)
    ensures
        r@ == joined(p, base@, name@),
{
    let mut r = String::from_str(base);
    if base.unicode_len() == 0 || separator_at_end(p, base) || drive_only(p, base) {
        r.append(name);
    } else {
        match p {
            Platform::Unix => {
                proof {
                    reveal_strlit("/");
                }
                r.append("/");
            },
            Platform::Windows => {
                proof {
                    reveal_strlit("\\");
                }
                r.append("\\");
            },
        }
        r.append(name);
    }
    r
}

/// The number that a digit character stands for.
pub open spec fn digit_value(c: char) -> nat {
    if '0' <= c && c <= '9' {
        (c as nat - '0' as nat) as nat
    } else {
        0
    }
}

/// The number that a string of decimal digits stands for.
pub open spec fn digits_value(s: Seq<char>) -> nat
    decreases s.len(),
{
    if s.len() == 0 {
        0
    } else {
        digits_value(s.drop_last()) * 10 + digit_value(s.last())
    }
}

/// A digit character stands for its digit.
proof fn lemma_digit_char(d: nat)
    requires
        d < 10,
    ensures
        '0' <= digit_char(d) <= '9',
        digit_value(digit_char(d)) == d,
        digit_char(d) == '0' ==> d == 0,
{
    assert(d % 10 == d);
    assert(('0' as nat) == 48);
    if d == 0 {
        assert(('0' as nat) == 48);
    } else if d == 1 {
        assert(('1' as nat) == 49);
    } else if d == 2 {
        assert(('2' as nat) == 50);
    } else if d == 3 {
        assert(('3' as nat) == 51);
    } else if d == 4 {
        assert(('4' as nat) == 52);
    } else if d == 5 {
        assert(('5' as nat) == 53);
    } else if d == 6 {
        assert(('6' as nat) == 54);
    } else if d == 7 {
        assert(('7' as nat) == 55);
    } else if d == 8 {
        assert(('8' as nat) == 56);
    } else {
        assert(('9' as nat) == 57);
    }
}

/// `decimal(n)` is the usual decimal numeral of `n`: it is made of digits
/// only, reads as `n`, and starts with `0` only when it is `0` itself.
pub proof fn lemma_decimal_reads_back(n: nat)
    ensures
        decimal(n).len() >= 1,
        forall|i: int| 0 <= i < decimal(n).len() ==> '0' <= #[trigger] decimal(n)[i] <= '9',
        digits_value(decimal(n)) == n,
        decimal(n)[0] == '0' ==> n == 0,
    decreases n,
{
    if n < 10 {
        lemma_digit_char(n);
        assert(decimal(n).drop_last() =~= Seq::<char>::empty());
        assert(digits_value(decimal(n)) == digits_value(Seq::<char>::empty()) * 10 + digit_value(
            digit_char(n),
        ));
    } else {
        lemma_digit_char(n % 10);
        lemma_decimal_reads_back(n / 10);
        let d = decimal(n);
        assert(d.drop_last() =~= decimal(n / 10));
        assert forall|i: int| 0 <= i < d.len() implies '0' <= #[trigger] d[i] <= '9' by {
            if i < d.len() - 1 {
                assert(d[i] == decimal(n / 10)[i]);
            }
        }
        assert(d[0] == decimal(n / 10)[0]);
        assert(d.last() == digit_char(n % 10));
        assert(digits_value(d) == digits_value(decimal(n / 10)) * 10 + digit_value(d.last()));
        assert(n == (n / 10) * 10 + n % 10);
    }
}

} // verus!
