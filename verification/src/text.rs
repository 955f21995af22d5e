//! Text: white space and trimming, comparison of strings, decimal numbers.

use vstd::prelude::*;

verus! {

/// The characters with the Unicode property `White_Space`.
pub open spec fn is_white_space(c: char) -> bool {
    let n = c as u32;
    ||| 0x09 <= n <= 0x0d
    ||| n == 0x20
    ||| n == 0x85
    ||| n == 0xa0
    ||| n == 0x1680
    ||| 0x2000 <= n <= 0x200a
    ||| n == 0x2028
    ||| n == 0x2029
    ||| n == 0x202f
    ||| n == 0x205f
    ||| n == 0x3000
}

/// `s` from its first character on that is not white space.
pub open spec fn without_leading_space(s: Seq<char>) -> Seq<char>
    decreases s.len(),
{
    if s.len() > 0 && is_white_space(s.first()) {
        without_leading_space(s.drop_first())
    } else {
        s
    }
}

/// `s` up to its last character that is not white space.
pub open spec fn without_trailing_space(s: Seq<char>) -> Seq<char>
    decreases s.len(),
{
    if s.len() > 0 && is_white_space(s.last()) {
        without_trailing_space(s.drop_last())
    } else {
        s
    }
}

/// `s` without the white space at its two ends.
pub open spec fn trimmed(s: Seq<char>) -> Seq<char> {
    without_trailing_space(without_leading_space(s))
}

/// `s` holds nothing but white space.
pub open spec fn is_blank(s: Seq<char>) -> bool {
    trimmed(s).len() == 0
}

/// What is left of `s` after trimming, if anything is.
pub open spec fn filled(s: Option<Seq<char>>) -> Option<Seq<char>> {
    match s {
        Some(t) => if is_blank(t) {
            None
        } else {
            Some(trimmed(t))
        },
        None => None,
    }
}

/// The view of an optional string.
pub open spec fn text_of(s: Option<&str>) -> Option<Seq<char>> {
    match s {
        Some(t) => Some(t@),
        None => None,
    }
}

/// `s`, or `fallback` where there is none.
pub open spec fn text_or(s: Option<Seq<char>>, fallback: Seq<char>) -> Seq<char> {
    match s {
        Some(t) => t,
        None => fallback,
    }
}

/// `str::trim`: the string without the white space at its two ends, where white
/// space is what has the Unicode property `White_Space`.
pub assume_specification[ str::trim ](s: &str) -> (r: &str)
    ensures
        r@ == trimmed(s@),
;

/// `==` on `str`: whether the two strings hold the same characters.
pub assume_specification[ <str as PartialEq>::eq ](a: &str, b: &str) -> (r: bool)
    ensures
        r == (a@ == b@),
;

/// The trimmed string, if it is not empty.
pub fn fill<'a>(s: Option<&'a str>) -> (r: Option<&'a str>)
    ensures
        text_of(r) == filled(text_of(s)),
{
    match s {
        Some(t) => {
            let cut = t.trim();
            if cut.is_empty() {
                None
            } else {
                Some(cut)
            }
        },
        None => None,
    }
}

/// Whether `names` holds `name`.
pub fn holds(names: &Vec<String>, name: &str) -> (r: bool)
    ensures
        r == views(names@).contains(name@),
{
    let mut i: usize = 0;
    while i < names.len()
        invariant
            i <= names.len(),
            forall|j: int| 0 <= j < i ==> views(names@)[j] != name@,
        decreases names.len() - i,
    {
        if names[i].as_str().eq(name) {
            assert(views(names@)[i as int] == name@);
            return true;
        }
        i += 1;
    }
    false
}

/// The views of a list of strings.
pub open spec fn views(names: Seq<String>) -> Seq<Seq<char>> {
    names.map_values(|s: String| s@)
}

/// `prefix` followed by `rest`.
pub fn joined(prefix: &str, rest: &str) -> (r: String)
    ensures
        r@ == prefix@ + rest@,
{
    let mut s = prefix.to_owned();
    s.append(rest);
    s
}

/// A decimal digit.
pub open spec fn digit(d: nat) -> char {
    (0x30 + d) as char
}

/// `n` in decimal digits, without leading zeros.
pub open spec fn decimal(n: nat) -> Seq<char>
    decreases n,
{
    if n < 10 {
        seq![digit(n)]
    } else {
        decimal(n / 10).push(digit(n % 10))
    }
}

/// The text of a decimal digit.
fn digit_text(d: u8) -> (r: &'static str)
    requires
        d < 10,
    ensures
        r@ == seq![digit(d as nat)],
{
    proof {
        reveal_strlit("0");
        reveal_strlit("1");
        reveal_strlit("2");
        reveal_strlit("3");
        reveal_strlit("4");
        reveal_strlit("5");
        reveal_strlit("6");
        reveal_strlit("7");
        reveal_strlit("8");
        reveal_strlit("9");
    }
    let r = match d {
        0 => "0",
        1 => "1",
        2 => "2",
        3 => "3",
        4 => "4",
        5 => "5",
        6 => "6",
        7 => "7",
        8 => "8",
        _ => "9",
    };
    assert(r@ =~= seq![digit(d as nat)]);
    r
}

/// `n` in decimal digits.
pub fn number_text(n: u128) -> (r: String)
    ensures
        r@ == decimal(n as nat),
    decreases n,
{
    if n < 10 {
        return digit_text(n as u8).to_owned();
    }
    let mut r = number_text(n / 10);
    let last = digit_text((n % 10) as u8);
    assert(decimal((n / 10) as nat).push(digit((n % 10) as nat)) =~= decimal((n / 10) as nat)
        + last@);
    r.append(last);
    r
}

/// How many equal quotes in a row are too many for the writer of TOML strings, which counts
/// them in a byte.
pub const QUOTE_RUN: usize = 256;

/// The character `q` stands at `i` and on, as often in a row as is too often for a quote.
pub open spec fn is_run(s: Seq<char>, q: char, i: int) -> bool {
    &&& 0 <= i
    &&& i + QUOTE_RUN <= s.len()
    &&& forall|j: int| i <= j < i + QUOTE_RUN ==> s[j] == q
}

/// The writer of TOML strings takes `s`: no quote stands too often in a row in it.
pub open spec fn writable(s: Seq<char>) -> bool {
    &&& forall|i: int| !#[trigger] is_run(s, '\'', i)
    &&& forall|i: int| !#[trigger] is_run(s, '"', i)
}

/// Whether `q` stands too often in a row in `s` for a quote.
fn has_run(s: &str, q: char) -> (r: bool)
    ensures
        r == exists|i: int| is_run(s@, q, i),
{
    let mut n: usize = 0;
    for c in it: s.chars()
        invariant
            it.seq() == s@,
            n < QUOTE_RUN,
            n <= it.index(),
            forall|j: int| it.index() - n <= j < it.index() ==> s@[j] == q,
            n < it.index() ==> s@[it.index() - n - 1] != q,
            forall|i: int| i + QUOTE_RUN <= it.index() ==> !#[trigger] is_run(s@, q, i),
    {
        if c == q {
            n += 1;
            if n == QUOTE_RUN {
                assert(is_run(s@, q, it.index() + 1 - QUOTE_RUN));
                return true;
            }
        } else {
            n = 0;
        }
    }
    false
}

/// Whether the writer of TOML strings takes `s`.
pub fn is_writable(s: &str) -> (r: bool)
    ensures
        r == writable(s@),
{
    !has_run(s, '\'') && !has_run(s, '"')
}

} // verus!
