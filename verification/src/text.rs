//! Text groundwork shared by the output comparator, the timestamp
//! format and the list codecs: ASCII whitespace, decimal digits,
//! splitting on a separator, line splitting and end-trimming.
//!
//! Every specification here is over `Seq<char>`, the view of `str` and
//! `String`.

use vstd::prelude::*;
use vstd::string::StrSliceExecFns;
use vstd::string::StringExecFns;

verus! {

/// ASCII whitespace, the characters stripped from line ends.
pub open spec fn is_ws_char(c: char) -> bool {
    c == ' ' || c == '\t' || c == '\r' || c == '\n' || c == '\u{b}' || c == '\u{c}'
}

pub fn is_ws_char_exec(c: char) -> (r: bool)
    ensures
        r == is_ws_char(c),
{
    c == ' ' || c == '\t' || c == '\r' || c == '\n' || c == '\u{b}' || c == '\u{c}'
}

/// Index of the first occurrence of `sep` in `s`, or `s.len()` if none.
pub open spec fn first_sep(s: Seq<char>, sep: char) -> nat
    decreases s.len(),
{
    if s.len() == 0 {
        0
    } else if s[0] == sep {
        0
    } else {
        1 + first_sep(s.drop_first(), sep)
    }
}

pub proof fn lemma_first_sep(s: Seq<char>, sep: char)
    ensures
        first_sep(s, sep) <= s.len(),
        forall|j: int| 0 <= j < first_sep(s, sep) ==> s[j] != sep,
        first_sep(s, sep) < s.len() ==> s[first_sep(s, sep) as int] == sep,
    decreases s.len(),
{
    if s.len() > 0 && s[0] != sep {
        lemma_first_sep(s.drop_first(), sep);
        assert forall|j: int| 0 <= j < first_sep(s, sep) implies s[j] != sep by {
            if j > 0 {
                assert(s.drop_first()[j - 1] == s[j]);
            }
        }
        if first_sep(s, sep) < s.len() {
            assert(s.drop_first()[first_sep(s.drop_first(), sep) as int] == s[first_sep(
                s,
                sep,
            ) as int]);
        }
    }
}

/// The index with no `sep` before it and `sep` (or the end) at it is the
/// first occurrence.
pub proof fn lemma_first_sep_at(s: Seq<char>, sep: char, i: int)
    requires
        0 <= i <= s.len(),
        forall|j: int| 0 <= j < i ==> s[j] != sep,
        i < s.len() ==> s[i] == sep,
    ensures
        first_sep(s, sep) == i,
    decreases s.len(),
{
    if s.len() == 0 {
    } else if s[0] == sep {
    } else {
        assert forall|j: int| 0 <= j < i - 1 implies s.drop_first()[j] != sep by {
            assert(s.drop_first()[j] == s[j + 1]);
        }
        if i - 1 < s.drop_first().len() {
            assert(s.drop_first()[i - 1] == s[i]);
        }
        lemma_first_sep_at(s.drop_first(), sep, i - 1);
    }
}

/// `s` split on `sep`, keeping empty fragments, as `str::split` does:
/// an empty input gives one empty fragment, a trailing separator a
/// trailing empty fragment.
pub open spec fn split_sep(s: Seq<char>, sep: char) -> Seq<Seq<char>>
    decreases s.len(),
{
    let i = first_sep(s, sep) as int;
    if 0 <= i < s.len() {
        seq![s.take(i)] + split_sep(s.skip(i + 1), sep)
    } else {
        seq![s]
    }
}

pub proof fn lemma_split_sep_nonempty(s: Seq<char>, sep: char)
    ensures
        split_sep(s, sep).len() >= 1,
{
}

/// Split a string on a separator character, keeping empty fragments.
pub fn split_str(s: &str, sep: char) -> (parts: Vec<String>)
    ensures
        parts.deep_view() == split_sep(s@, sep),
{
    let n = s.unicode_len();
    let mut parts: Vec<String> = Vec::new();
    let mut start: usize = 0;
    proof {
        assert(s@.skip(0) =~= s@);
        assert(parts.deep_view() + split_sep(s@, sep) =~= split_sep(s@, sep));
    }
    loop
        invariant_except_break
            split_sep(s@, sep) == parts.deep_view() + split_sep(s@.skip(start as int), sep),
        invariant
            start <= n,
            n == s@.len(),
        ensures
            parts.deep_view() == split_sep(s@, sep),
        decreases n - start + 1,
    {
        let ghost rest = s@.skip(start as int);
        let mut i = start;
        while i < n && s.get_char(i) != sep
            invariant
                start <= i <= n,
                n == s@.len(),
                forall|j: int| start <= j < i ==> s@[j] != sep,
            decreases n - i,
        {
            i += 1;
        }
        proof {
            assert forall|j: int| 0 <= j < i - start implies rest[j] != sep by {
                assert(rest[j] == s@[start + j]);
            }
            if i < n {
                assert(rest[i - start] == s@[i as int]);
            }
            lemma_first_sep_at(rest, sep, i - start);
        }
        let frag = s.substring_char(start, i).to_owned();
        proof {
            assert(frag@ =~= rest.take(i - start));
        }
        let ghost old_parts = parts.deep_view();
        parts.push(frag);
        proof {
            assert(parts.deep_view() =~= old_parts.push(frag@));
        }
        if i == n {
            proof {
                assert(split_sep(rest, sep) == seq![rest]);
                assert(frag@ =~= rest);
                assert(parts.deep_view() =~= old_parts + seq![rest]);
                assert(parts.deep_view() =~= split_sep(s@, sep));
            }
            break;
        }
        proof {
            assert(split_sep(rest, sep) == seq![rest.take(i - start)] + split_sep(
                rest.skip(i - start + 1),
                sep,
            ));
            assert(rest.skip(i - start + 1) =~= s@.skip(i + 1));
            assert(parts.deep_view() + split_sep(s@.skip(i + 1), sep) =~= old_parts + split_sep(
                rest,
                sep,
            ));
        }
        start = i + 1;
    }
    parts
}

/// The lines of `s`, as `str::lines` sees them up to carriage returns:
/// split on `'\n'`, with no line for a trailing newline and no lines at
/// all for an empty input.
pub open spec fn split_lines(s: Seq<char>) -> Seq<Seq<char>> {
    if s.len() == 0 {
        Seq::empty()
    } else {
        let parts = split_sep(s, '\n');
        if parts.last().len() == 0 {
            parts.drop_last()
        } else {
            parts
        }
    }
}

pub fn split_lines_exec(s: &str) -> (lines: Vec<String>)
    ensures
        lines.deep_view() == split_lines(s@),
{
    let mut parts = split_str(s, '\n');
    if s.unicode_len() == 0 {
        let empty: Vec<String> = Vec::new();
        proof {
            assert(empty.deep_view() =~= split_lines(s@));
        }
        return empty;
    }
    proof {
        lemma_split_sep_nonempty(s@, '\n');
    }
    let last = parts.len() - 1;
    proof {
        assert(parts.deep_view()[last as int] == parts@[last as int]@);
    }
    if parts[last].as_str().is_empty() {
        let ghost before = parts.deep_view();
        parts.pop();
        proof {
            assert(parts.deep_view() =~= before.drop_last());
        }
    }
    parts
}

/// The length of `l` without its trailing whitespace.
pub open spec fn trimmed_len(l: Seq<char>) -> nat
    decreases l.len(),
{
    if l.len() == 0 {
        0
    } else if is_ws_char(l.last()) {
        trimmed_len(l.drop_last())
    } else {
        l.len()
    }
}

/// `l` without its trailing whitespace.
pub open spec fn trim_line(l: Seq<char>) -> Seq<char> {
    l.take(trimmed_len(l) as int)
}

pub proof fn lemma_trimmed_len(l: Seq<char>)
    ensures
        trimmed_len(l) <= l.len(),
        forall|j: int| trimmed_len(l) <= j < l.len() ==> is_ws_char(l[j]),
        trimmed_len(l) > 0 ==> !is_ws_char(l[trimmed_len(l) - 1]),
    decreases l.len(),
{
    if l.len() > 0 && is_ws_char(l.last()) {
        lemma_trimmed_len(l.drop_last());
        assert forall|j: int| trimmed_len(l) <= j < l.len() implies is_ws_char(l[j]) by {
            if j < l.len() - 1 {
                assert(l.drop_last()[j] == l[j]);
            }
        }
        if trimmed_len(l) > 0 {
            assert(l.drop_last()[trimmed_len(l) - 1] == l[trimmed_len(l) - 1]);
        }
    }
}

pub fn trimmed_len_exec(s: &str) -> (r: usize)
    ensures
        r == trimmed_len(s@),
        r <= s@.len(),
{
    let n = s.unicode_len();
    let mut k = n;
    proof {
        assert(s@.take(n as int) =~= s@);
    }
    while k > 0 && is_ws_char_exec(s.get_char(k - 1))
        invariant
            k <= n,
            n == s@.len(),
            trimmed_len(s@) == trimmed_len(s@.take(k as int)),
        decreases k,
    {
        proof {
            let t = s@.take(k as int);
            assert(t.last() == s@[k - 1]);
            assert(t.drop_last() =~= s@.take(k - 1));
        }
        k -= 1;
    }
    proof {
        let t = s@.take(k as int);
        if k > 0 {
            assert(t.last() == s@[k - 1]);
            assert(trimmed_len(t) == t.len());
        }
        lemma_trimmed_len(s@);
    }
    k
}

/// Whether two lines are equal once trailing whitespace is stripped.
pub fn trimmed_eq(a: &str, b: &str) -> (r: bool)
    ensures
        r == (trim_line(a@) == trim_line(b@)),
{
    let la = trimmed_len_exec(a);
    let lb = trimmed_len_exec(b);
    if la != lb {
        proof {
            assert(trim_line(a@).len() == la);
            assert(trim_line(b@).len() == lb);
        }
        return false;
    }
    let mut i: usize = 0;
    while i < la
        invariant
            i <= la,
            la == lb,
            la == trimmed_len(a@) <= a@.len(),
            lb == trimmed_len(b@) <= b@.len(),
            forall|j: int| 0 <= j < i ==> a@[j] == b@[j],
        decreases la - i,
    {
        if s_get(a, i) != s_get(b, i) {
            proof {
                assert(trim_line(a@)[i as int] != trim_line(b@)[i as int]);
            }
            return false;
        }
        i += 1;
    }
    proof {
        assert(trim_line(a@) =~= trim_line(b@));
    }
    true
}

/// One character of a string, by index.
fn s_get(s: &str, i: usize) -> (c: char)
    requires
        i < s@.len(),
    ensures
        c == s@[i as int],
{
    s.get_char(i)
}

/// The decimal digit characters.
pub open spec fn dec_digit_char(d: nat) -> char {
    if d == 0 {
        '0'
    } else if d == 1 {
        '1'
    } else if d == 2 {
        '2'
    } else if d == 3 {
        '3'
    } else if d == 4 {
        '4'
    } else if d == 5 {
        '5'
    } else if d == 6 {
        '6'
    } else if d == 7 {
        '7'
    } else if d == 8 {
        '8'
    } else {
        '9'
    }
}

pub open spec fn is_dec_digit(c: char) -> bool {
    48 <= c as u32 <= 57
}

pub open spec fn dec_digit_val(c: char) -> nat {
    (c as u32 - 48) as nat
}

/// The canonical decimal numeral of `n`: no sign, no leading zero
/// except for zero itself.
pub open spec fn dec_digits(n: nat) -> Seq<char>
    decreases n,
{
    if n < 10 {
        seq![dec_digit_char(n)]
    } else {
        dec_digits(n / 10).push(dec_digit_char(n % 10))
    }
}

/// The value of a digit string read as decimal.
pub open spec fn dec_val(s: Seq<char>) -> nat
    decreases s.len(),
{
    if s.len() == 0 {
        0
    } else {
        10 * dec_val(s.drop_last()) + dec_digit_val(s.last())
    }
}

/// A fragment that `parse_u64_str` accepts: nothing but digits, at
/// least one.
pub open spec fn is_dec_str(s: Seq<char>) -> bool {
    s.len() > 0 && forall|i: int| 0 <= i < s.len() ==> is_dec_digit(s[i])
}

/// A digit character round-trips through its value.
pub proof fn lemma_digit_char_val(d: nat)
    requires
        d < 10,
    ensures
        is_dec_digit(dec_digit_char(d)),
        dec_digit_val(dec_digit_char(d)) == d,
{
}

/// A digit value round-trips through its character.
pub proof fn lemma_digit_val_char(c: char)
    requires
        is_dec_digit(c),
    ensures
        dec_digit_val(c) < 10,
        dec_digit_char(dec_digit_val(c)) == c,
{
}

pub fn dec_digit_str(d: u64) -> (r: &'static str)
    requires
        d < 10,
    ensures
        r@.len() == 1,
        r@[0] == dec_digit_char(d as nat),
{
    proof {
        reveal_strlit("0");
        reveal_strlit("1");
        reveal_strlit("2");
        reveal_strlit("3");
        reveal_strlit("4");
        reveal_strlit("5");
        reveal_strlit("6");
        reveal_strlit("7");
        reveal_strlit("8");
        reveal_strlit("9");
    }
    if d == 0 {
        "0"
    } else if d == 1 {
        "1"
    } else if d == 2 {
        "2"
    } else if d == 3 {
        "3"
    } else if d == 4 {
        "4"
    } else if d == 5 {
        "5"
    } else if d == 6 {
        "6"
    } else if d == 7 {
        "7"
    } else if d == 8 {
        "8"
    } else {
        "9"
    }
}

/// The decimal numeral of `n`, as a string.
pub fn u64_to_string(n: u64) -> (s: String)
    ensures
        s@ == dec_digits(n as nat),
    decreases n,
{
    if n < 10 {
        let d = dec_digit_str(n);
        let s = d.to_owned();
        proof {
            assert(s@ =~= dec_digits(n as nat));
        }
        s
    } else {
        let mut s = u64_to_string(n / 10);
        s.append(dec_digit_str(n % 10));
        proof {
            assert(s@ =~= dec_digits(n as nat));
        }
        s
    }
}

pub fn usize_to_string(n: usize) -> (s: String)
    ensures
        s@ == dec_digits(n as nat),
{
    u64_to_string(n as u64)
}

/// Reading a longer prefix of a digit string never lowers the value.
pub proof fn lemma_dec_val_take_le(s: Seq<char>, i: int)
    requires
        0 <= i <= s.len(),
    ensures
        dec_val(s.take(i)) <= dec_val(s),
    decreases s.len() - i,
{
    if i < s.len() {
        assert(s.take(i + 1).drop_last() =~= s.take(i));
        assert(dec_val(s.take(i + 1)) == 10 * dec_val(s.take(i)) + dec_digit_val(s[i]));
        lemma_dec_val_take_le(s, i + 1);
        assert(s.take(s.len() as int) =~= s);
    } else {
        assert(s.take(i) =~= s);
    }
}

/// The value of a digit fragment, for fragments whose value fits.
pub fn parse_u64_str(s: &str) -> (r: u64)
    requires
        is_dec_str(s@),
        dec_val(s@) <= u64::MAX,
    ensures
        r == dec_val(s@),
{
    let n = s.unicode_len();
    let mut acc: u64 = 0;
    let mut i: usize = 0;
    proof {
        assert(dec_val(s@.take(0)) == 0);
    }
    while i < n
        invariant
            i <= n,
            n == s@.len(),
            is_dec_str(s@),
            dec_val(s@) <= u64::MAX,
            acc == dec_val(s@.take(i as int)),
        decreases n - i,
    {
        let c = s.get_char(i);
        let d = (c as u32 - 48) as u64;
        proof {
            assert(s@.take(i + 1).drop_last() =~= s@.take(i as int));
            assert(dec_val(s@.take(i + 1)) == 10 * dec_val(s@.take(i as int)) + dec_digit_val(
                s@[i as int],
            ));
            lemma_dec_val_take_le(s@, i + 1);
        }
        acc = acc * 10 + d;
        i += 1;
    }
    proof {
        assert(s@.take(n as int) =~= s@);
    }
    acc
}

} // verus!
