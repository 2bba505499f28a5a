use vstd::prelude::*;
use vstd::string::*;

verus! {

/// `s` split at each `'\n'`: one more piece than there are newlines.
pub open spec fn lines(s: Seq<char>) -> Seq<Seq<char>>
    decreases s.len(),
{
    if s.len() == 0 {
        seq![Seq::empty()]
    } else {
        let ls = lines(s.drop_last());
        if s.last() == '\n' {
            ls.push(Seq::empty())
        } else {
            ls.update(ls.len() - 1, ls.last().push(s.last()))
        }
    }
}

pub proof fn lemma_lines_nonempty(s: Seq<char>)
    ensures
        lines(s).len() >= 1,
    decreases s.len(),
{
    if s.len() > 0 {
        lemma_lines_nonempty(s.drop_last());
    }
}

pub open spec fn is_digit(c: char) -> bool {
    '0' <= c <= '9'
}

/// The end of the run of ASCII digits that starts at `i`.
pub open spec fn digits_end(s: Seq<char>, i: int) -> int
    decreases s.len() - i,
{
    if 0 <= i < s.len() && is_digit(s[i]) {
        digits_end(s, i + 1)
    } else {
        i
    }
}

/// `lit` occurs in `s` at `i`.
pub open spec fn has_at(s: Seq<char>, i: int, lit: Seq<char>) -> bool {
    0 <= i && i + lit.len() <= s.len() && s.subrange(i, i + lit.len()) == lit
}

pub open spec fn contains_text(s: Seq<char>, lit: Seq<char>) -> bool {
    exists|i: int| has_at(s, i, lit)
}

pub open spec fn digits_value(d: Seq<char>) -> int
    decreases d.len(),
{
    if d.len() == 0 {
        0
    } else {
        digits_value(d.drop_last()) * 10 + ((d.last() as u32) as int - ('0' as u32) as int)
    }
}

/// The value of `s` read as a `usize` in decimal: an optional `+`, then one
/// or more ASCII digits, with no other character, not above `usize::MAX`.
pub open spec fn usize_text(s: Seq<char>) -> Option<int> {
    let d = if s.len() > 0 && s[0] == '+' {
        s.drop_first()
    } else {
        s
    };
    if d.len() > 0 && (forall|i: int| 0 <= i < d.len() ==> is_digit(#[trigger] d[i]))
        && digits_value(d) <= usize::MAX {
        Some(digits_value(d))
    } else {
        None
    }
}

/// `usize_text`, with 0 where the text is no number.
pub open spec fn usize_or_zero(s: Seq<char>) -> int {
    match usize_text(s) {
        Some(v) => v,
        None => 0,
    }
}

/// Relies on `str::parse::<usize>`: an optional `+` and ASCII digits, within
/// range, and nothing else, are accepted.
#[verifier::external_body]
pub(crate) fn parse_usize(s: &str) -> (r: Result<usize, std::num::ParseIntError>)
    ensures
        match usize_text(s@) {
            Some(v) => r is Ok && r->Ok_0 as int == v,
            None => r is Err,
        },
{
    s.parse::<usize>()
}

/// The value of the text, or 0 where it is no number.
pub fn usize_or_default(s: &str) -> (r: usize)
    ensures
        r as int == usize_or_zero(s@),
{
    match parse_usize(s) {
        Ok(v) => v,
        Err(_) => 0,
    }
}

/// Whether `lit` occurs in `s` at `i`; `n` is the length of `s` in characters.
pub fn has_at_exec(s: &str, n: usize, i: usize, lit: &str) -> (r: bool)
    requires
        n == s@.len(),
    ensures
        r == has_at(s@, i as int, lit@),
{
    let m = lit.unicode_len();
    if i > n || m > n - i {
        return false;
    }
    let mut j: usize = 0;
    while j < m
        invariant
            n == s@.len(),
            m == lit@.len(),
            i + m <= n,
            j <= m,
            forall|t: int| 0 <= t < j ==> s@[i + t] == lit@[t],
        decreases m - j,
    {
        if s.get_char(i + j) != lit.get_char(j) {
            assert(s@.subrange(i as int, i + m)[j as int] != lit@[j as int]);
            return false;
        }
        j = j + 1;
    }
    assert(s@.subrange(i as int, i + m) =~= lit@);
    true
}

/// Whether `lit` occurs anywhere in `s`.
pub fn contains_exec(s: &str, lit: &str) -> (r: bool)
    ensures
        r == contains_text(s@, lit@),
{
    let n = s.unicode_len();
    let mut i: usize = 0;
    while i < n
        invariant
            n == s@.len(),
            i <= n,
            forall|t: int| 0 <= t < i ==> !has_at(s@, t, lit@),
        decreases n - i,
    {
        if has_at_exec(s, n, i, lit) {
            return true;
        }
        i = i + 1;
    }
    if has_at_exec(s, n, n, lit) {
        return true;
    }
    false
}

/// The end of the run of ASCII digits that starts at `i`.
pub fn digits_end_exec(s: &str, n: usize, i: usize) -> (r: usize)
    requires
        n == s@.len(),
        i <= n,
    ensures
        r as int == digits_end(s@, i as int),
        i <= r <= n,
{
    let mut j = i;
    while j < n
        invariant
            n == s@.len(),
            i <= j <= n,
            digits_end(s@, i as int) == digits_end(s@, j as int),
        ensures
            i <= j <= n,
            digits_end(s@, i as int) == j as int,
        decreases n - j,
    {
        let c = s.get_char(j);
        if !('0' <= c && c <= '9') {
            assert(digits_end(s@, j as int) == j as int);
            break;
        }
        j = j + 1;
    }
    j
}

/// The characters of `s` from `from` to `to`, as an owned string.
pub fn slice_text(s: &str, from: usize, to: usize) -> (r: String)
    requires
        from <= to <= s@.len(),
    ensures
        r@ == s@.subrange(from as int, to as int),
{
    s.substring_char(from, to).to_owned()
}

/// Splits `text` at each `'\n'`, keeping empty pieces.
pub fn split_lines(text: &str) -> (r: Vec<String>)
    ensures
        r@.map_values(|l: String| l@) == lines(text@),
{
    let n = text.unicode_len();
    let mut out: Vec<String> = Vec::new();
    let mut start: usize = 0;
    let mut i: usize = 0;
    assert(text@.take(0) =~= Seq::<char>::empty());
    assert(out@.map_values(|l: String| l@).push(text@.subrange(0, 0)) =~= seq![Seq::<char>::empty()]);
    while i < n
        invariant
            n == text@.len(),
            start <= i <= n,
            lines(text@.take(i as int)) == out@.map_values(|l: String| l@).push(
                text@.subrange(start as int, i as int),
            ),
        decreases n - i,
    {
        let c = text.get_char(i);
        let ghost s1 = text@.take(i + 1);
        assert(s1.drop_last() =~= text@.take(i as int));
        assert(s1.last() == c);
        if c == '\n' {
            let ghost before = out@.map_values(|l: String| l@);
            out.push(slice_text(text, start, i));
            assert(out@.map_values(|l: String| l@) =~= before.push(
                text@.subrange(start as int, i as int),
            ));
            start = i + 1;
            assert(text@.subrange(start as int, i + 1) =~= Seq::<char>::empty());
        } else {
            assert(text@.subrange(start as int, i + 1) =~= text@.subrange(
                start as int,
                i as int,
            ).push(c));
        }
        i = i + 1;
    }
    let ghost before = out@.map_values(|l: String| l@);
    out.push(slice_text(text, start, n));
    assert(text@.take(n as int) =~= text@);
    assert(out@.map_values(|l: String| l@) =~= before.push(text@.subrange(start as int, n as int)));
    out
}

} // verus!
