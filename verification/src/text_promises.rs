//! What the texts that are trimmed, counted and written out promise, character by character.

use crate::saving::temporary_name;
use crate::text::{decimal, digit, fill, holds, is_run, is_white_space, is_writable, joined};
use crate::text::{number_text, trimmed, views, without_leading_space, without_trailing_space, writable};
use vstd::prelude::*;

verus! {

/// Of the 256 characters from `i` on, one is not `q`.
pub open spec fn is_interrupted_from(s: Seq<char>, q: char, i: int) -> bool {
    exists|j: int| i <= j < i + 256 && #[trigger] s[j] != q
}

/// In every stretch of 256 characters of `s` there is one that is not `q`.
pub open spec fn is_interrupted(s: Seq<char>, q: char) -> bool {
    forall|i: int|
        0 <= i && i + 256 <= s.len() ==> #[trigger] is_interrupted_from(s, q, i)
}

/// In a string without a run of `q`, every stretch holds another character, and the other way
/// round.
proof fn lemma_interrupted(s: Seq<char>, q: char)
    ensures
        is_interrupted(s, q) <==> forall|i: int| !#[trigger] is_run(s, q, i),
{
    if is_interrupted(s, q) {
        assert forall|i: int| !#[trigger] is_run(s, q, i) by {
            if is_run(s, q, i) {
                assert(is_interrupted_from(s, q, i));
            }
        }
    }
    if forall|i: int| !#[trigger] is_run(s, q, i) {
        assert forall|i: int| 0 <= i && i + 256 <= s.len() implies #[trigger] is_interrupted_from(
            s,
            q,
            i,
        ) by {
            assert(!is_run(s, q, i));
        }
    }
}

/// A string can be written exactly where neither a single nor a double quote stands in it 256
/// times in a row. No other character matters.
pub proof fn law_only_runs_of_quotes_are_refused(s: Seq<char>)
    ensures
        writable(s) <==> is_interrupted(s, '\'') && is_interrupted(s, '"'),
{
    lemma_interrupted(s, '\'');
    lemma_interrupted(s, '"');
}

/// No quote stands next to an equal one.
pub open spec fn has_no_doubled_quote(s: Seq<char>) -> bool {
    forall|i: int, j: int|
        0 <= i < s.len() && j == i + 1 && j < s.len() && #[trigger] s[i] == #[trigger] s[j] ==> s[i]
            != '\'' && s[i] != '"'
}

/// A string in which no quote stands next to an equal one, such as one without quotes, can be
/// written.
pub proof fn law_single_quotes_are_taken(s: Seq<char>)
    requires
        has_no_doubled_quote(s),
    ensures
        writable(s),
{
    assert forall|i: int| !#[trigger] is_run(s, '\'', i) by {
        if is_run(s, '\'', i) {
            assert(s[i] == '\'' && s[i + 1] == '\'');
        }
    }
    assert forall|i: int| !#[trigger] is_run(s, '"', i) by {
        if is_run(s, '"', i) {
            assert(s[i] == '"' && s[i + 1] == '"');
        }
    }
}

/// A part of a string that can be written can be written.
pub proof fn law_parts_are_taken(s: Seq<char>, from: int, to: int)
    requires
        writable(s),
        0 <= from <= to <= s.len(),
    ensures
        writable(s.subrange(from, to)),
{
    let t = s.subrange(from, to);
    assert forall|i: int| !#[trigger] is_run(t, '\'', i) by {
        if is_run(t, '\'', i) {
            assert forall|j: int| from + i <= j < from + i + 256 implies s[j] == '\'' by {
                assert(t[j - from] == '\'');
            }
            assert(is_run(s, '\'', from + i));
        }
    }
    assert forall|i: int| !#[trigger] is_run(t, '"', i) by {
        if is_run(t, '"', i) {
            assert forall|j: int| from + i <= j < from + i + 256 implies s[j] == '"' by {
                assert(t[j - from] == '"');
            }
            assert(is_run(s, '"', from + i));
        }
    }
}

/// Whether a string can be written is told by its quotes.
pub proof fn law_is_writable_tells(s: &str, r: bool)
    requires
        call_ensures(is_writable, (s,), r),
    ensures
        r <==> is_interrupted(s@, '\'') && is_interrupted(s@, '"'),
        has_no_doubled_quote(s@) ==> r,
{
    law_only_runs_of_quotes_are_refused(s@);
    if has_no_doubled_quote(s@) {
        law_single_quotes_are_taken(s@);
    }
}

/// What is left of a string without leading white space.
proof fn lemma_leading(s: Seq<char>) -> (from: int)
    ensures
        0 <= from <= s.len(),
        without_leading_space(s) == s.subrange(from, s.len() as int),
        forall|i: int| 0 <= i < from ==> is_white_space(#[trigger] s[i]),
        from < s.len() ==> !is_white_space(s[from]),
    decreases s.len(),
{
    if s.len() > 0 && is_white_space(s.first()) {
        let rest = s.drop_first();
        let k = lemma_leading(rest);
        assert(rest.subrange(k, rest.len() as int) =~= s.subrange(k + 1, s.len() as int));
        assert forall|i: int| 0 <= i < k + 1 implies is_white_space(#[trigger] s[i]) by {
            if i > 0 {
                assert(rest[i - 1] == s[i]);
            }
        }
        k + 1
    } else {
        assert(s.subrange(0, s.len() as int) =~= s);
        0
    }
}

/// What is left of a string without trailing white space.
proof fn lemma_trailing(s: Seq<char>) -> (to: int)
    ensures
        0 <= to <= s.len(),
        without_trailing_space(s) == s.subrange(0, to),
        forall|i: int| to <= i < s.len() ==> is_white_space(#[trigger] s[i]),
        to > 0 ==> !is_white_space(s[to - 1]),
    decreases s.len(),
{
    if s.len() > 0 && is_white_space(s.last()) {
        let front = s.drop_last();
        let k = lemma_trailing(front);
        assert(front.subrange(0, k) =~= s.subrange(0, k));
        assert forall|i: int| k <= i < s.len() implies is_white_space(#[trigger] s[i]) by {
            if i < front.len() {
                assert(front[i] == s[i]);
            }
        }
        k
    } else {
        assert(s.subrange(0, s.len() as int) =~= s);
        s.len() as int
    }
}

/// A trimmed string is the part of the string between the white space at its ends, and has
/// none at its own ends.
pub proof fn law_trimmed_is_the_middle(s: Seq<char>) -> (ends: (int, int))
    ensures
        0 <= ends.0 <= ends.1 <= s.len(),
        trimmed(s) == s.subrange(ends.0, ends.1),
        forall|i: int| 0 <= i < s.len() && !(ends.0 <= i < ends.1) ==> is_white_space(#[trigger] s[i]),
        trimmed(s).len() > 0 ==> !is_white_space(trimmed(s).first()) && !is_white_space(
            trimmed(s).last(),
        ),
        trimmed(s).len() == 0 <==> forall|i: int| 0 <= i < s.len() ==> is_white_space(#[trigger] s[i]),
{
    let from = lemma_leading(s);
    let rest = s.subrange(from, s.len() as int);
    let k = lemma_trailing(rest);
    let to = from + k;
    assert(rest.subrange(0, k) =~= s.subrange(from, to));
    assert forall|i: int| 0 <= i < s.len() && !(from <= i < to) implies is_white_space(
        #[trigger] s[i],
    ) by {
        if i >= to {
            assert(rest[i - from] == s[i]);
        }
    }
    if k > 0 {
        assert(rest[0] == s[from]);
        assert(trimmed(s).first() == s[from]);
        assert(trimmed(s).last() == rest[k - 1]);
        assert(!is_white_space(s[from]));
    }
    (from, to)
}

/// A string that can be written can be written when it is trimmed.
pub proof fn lemma_trimmed_writable(s: Seq<char>)
    requires
        writable(s),
    ensures
        writable(trimmed(s)),
{
    let ends = law_trimmed_is_the_middle(s);
    law_parts_are_taken(s, ends.0, ends.1);
}

/// The number that decimal digits stand for.
pub open spec fn number_in(s: Seq<char>) -> nat
    decreases s.len(),
{
    if s.len() == 0 {
        0
    } else {
        10 * number_in(s.drop_last()) + (s.last() as u32 - 0x30) as nat
    }
}

/// A number is written in decimal digits, without a leading zero unless it is zero, and the
/// digits stand for it.
pub proof fn law_decimal_stands_for_the_number(n: nat)
    ensures
        decimal(n).len() > 0,
        forall|i: int| 0 <= i < decimal(n).len() ==> '0' <= #[trigger] decimal(n)[i] <= '9',
        n > 0 ==> decimal(n)[0] != '0',
        number_in(decimal(n)) == n,
    decreases n,
{
    if n < 10 {
        let s = decimal(n);
        assert(s.drop_last() =~= Seq::empty());
        assert(number_in(s.drop_last()) == 0);
        assert(s.last() == digit(n));
    } else {
        law_decimal_stands_for_the_number(n / 10);
        let s = decimal(n);
        assert(s.drop_last() =~= decimal(n / 10));
        assert(s.last() == digit(n % 10));
        assert(s[0] == decimal(n / 10)[0]);
        assert forall|i: int| 0 <= i < s.len() implies '0' <= #[trigger] s[i] <= '9' by {
            if i < s.len() - 1 {
                assert(s[i] == decimal(n / 10)[i]);
            }
        }
    }
}

/// A string is given back trimmed, and none where nothing is left of it.
pub proof fn law_fill_trims<'a>(s: Option<&'a str>, r: Option<&'a str>)
    requires
        call_ensures(fill, (s,), r),
    ensures
        match s {
            Some(t) if trimmed(t@).len() > 0 => r matches Some(u) && u@ == trimmed(t@),
            _ => r is None,
        },
{
}

/// Two strings are joined as they stand, and a list holds a name where an element is it.
pub proof fn law_strings_are_taken_whole(
    prefix: &str,
    rest: &str,
    both: String,
    names: &Vec<String>,
    name: &str,
    held: bool,
)
    requires
        call_ensures(joined, (prefix, rest), both),
        call_ensures(holds, (names, name), held),
    ensures
        both@ == prefix@ + rest@,
        held <==> exists|i: int| 0 <= i < names@.len() && (#[trigger] names@[i])@ == name@,
{
    let all = views(names@);
    if held {
        let i = choose|i: int| 0 <= i < all.len() && all[i] == name@;
        assert(names@[i]@ == name@);
    }
    if exists|i: int| 0 <= i < names@.len() && (#[trigger] names@[i])@ == name@ {
        let i = choose|i: int| 0 <= i < names@.len() && (#[trigger] names@[i])@ == name@;
        assert(all[i] == name@);
    }
}

/// Numbers are written out so that they can be read.
pub proof fn law_number_text_is_the_number(n: u128, r: String)
    requires
        call_ensures(number_text, (n,), r),
    ensures
        r@.len() > 0,
        forall|i: int| 0 <= i < r@.len() ==> '0' <= #[trigger] r@[i] <= '9',
        n > 0 ==> r@[0] != '0',
        number_in(r@) == n,
{
    law_decimal_stands_for_the_number(n as nat);
}

/// The name of a temporary file is a dot, the name of the file, the word for a temporary file
/// and the time, so that it starts with a dot, holds the name of the file and ends in the
/// digits of the time; and two times give two names.
pub proof fn law_temporary_name_tells_file_and_time(
    file_name: &str,
    time: u128,
    other: u128,
    r: String,
    q: String,
)
    requires
        call_ensures(temporary_name, (file_name, time), r),
        call_ensures(temporary_name, (file_name, other), q),
    ensures
        r@.len() > file_name@.len() + 6,
        r@[0] == '.',
        r@.subrange(1, file_name@.len() + 1int) == file_name@,
        r@.subrange(file_name@.len() + 1int, file_name@.len() + 6int) == ".tmp."@,
        number_in(r@.skip(file_name@.len() + 6int)) == time,
        forall|i: int| file_name@.len() + 6 <= i < r@.len() ==> '0' <= #[trigger] r@[i] <= '9',
        time != other ==> r@ != q@,
{
    reveal_strlit(".");
    reveal_strlit(".tmp.");
    let n = file_name@.len() as int;
    assert(".tmp."@.len() == 5 && "."@.len() == 1);
    assert(r@.subrange(1, n + 1) =~= file_name@);
    assert(r@.subrange(n + 1, n + 6) =~= ".tmp."@);
    assert(r@.skip(n + 6) =~= decimal(time as nat));
    assert(q@.skip(n + 6) =~= decimal(other as nat));
    law_decimal_stands_for_the_number(time as nat);
    law_decimal_stands_for_the_number(other as nat);
    assert forall|i: int| n + 6 <= i < r@.len() implies '0' <= #[trigger] r@[i] <= '9' by {
        assert(r@[i] == decimal(time as nat)[i - n - 6]);
    }
}

} // verus!
