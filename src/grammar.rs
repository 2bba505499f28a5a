//! The line grammars of the server's replies. Each grammar is a literal head,
//! fields of ASCII digits between literals, one free-text field, and a tail.
//! A line matches at the leftmost position where the whole grammar fits, and
//! the free-text field reaches as far right as the tail still allows.
use crate::text::{digits_end, digits_end_exec, has_at, has_at_exec, is_digit};
use vstd::prelude::*;
use vstd::string::*;

verus! {

pub const ID_HEAD: &'static str = "ID: ";

pub const STEAM_ID_SEP: &'static str = " | SteamID: ";

pub const NAME_SEP: &'static str = " | Name: ";

pub const TEAM_ID_SEP: &'static str = " | Team ID: ";

pub const SQUAD_ID_SEP: &'static str = " | Squad ID: ";

pub const SIZE_SEP: &'static str = " | Size: ";

pub const LOCKED_SEP: &'static str = " | Locked: ";

pub const TEAM_HEAD: &'static str = "Team ID: ";

pub const TEAM_NAME_OPEN: &'static str = " (";

pub const TEAM_NAME_CLOSE: &'static str = ")";

pub const CURRENT_MAP_HEAD: &'static str = "Current map is ";

pub const NEXT_MAP_SEP: &'static str = ", Next map is ";

/// The line grammars.
#[derive(Clone, Copy, Debug, PartialEq, Eq, Structural)]
pub enum Grammar {
    /// `ID: <digits> | SteamID: <digits> | Name: <text> | Team ID: <digit> | Squad ID: <text>`
    Player,
    /// `ID: <digits> | Name: <text> | Size: <digit> | Locked: <text>`
    Squad,
    /// `Team ID: <digits> (<text>)`
    Team,
    /// `Current map is <text>, Next map is <text>`
    Maps,
}

/// The positions that a match fixes: the digit field `a..b`, the digit field
/// `c..d` (players only), and the free-text field `e..k`. Fields that a
/// grammar lacks repeat the position before them.
pub open spec fn marks(a: int, b: int, c: int, d: int, e: int, k: int) -> Seq<int> {
    seq![a, b, c, d, e, k]
}

/// `sep1`, one ASCII digit, then `sep2`, starting at `k`.
pub open spec fn digit_tail_at(s: Seq<char>, k: int, sep1: Seq<char>, sep2: Seq<char>) -> bool {
    &&& has_at(s, k, sep1)
    &&& k + sep1.len() < s.len()
    &&& is_digit(s[k + sep1.len()])
    &&& has_at(s, k + sep1.len() + 1, sep2)
}

/// The grammar's tail, which ends its free-text field, occurs at `k`.
pub open spec fn tail_at(g: Grammar, s: Seq<char>, k: int) -> bool {
    match g {
        Grammar::Player => digit_tail_at(s, k, TEAM_ID_SEP@, SQUAD_ID_SEP@),
        Grammar::Squad => digit_tail_at(s, k, SIZE_SEP@, LOCKED_SEP@),
        Grammar::Team => has_at(s, k, TEAM_NAME_CLOSE@),
        Grammar::Maps => has_at(s, k, NEXT_MAP_SEP@),
    }
}

/// The largest `k` in `lo..=hi` at which the tail occurs.
pub open spec fn last_tail(g: Grammar, s: Seq<char>, lo: int, hi: int) -> Option<int>
    decreases hi - lo + 1,
{
    if hi < lo {
        None
    } else if tail_at(g, s, hi) {
        Some(hi)
    } else {
        last_tail(g, s, lo, hi - 1)
    }
}

/// A run of digits from `i`, then `lit`: the end of the digits and the
/// position after `lit`.
pub open spec fn digits_then(s: Seq<char>, i: int, lit: Seq<char>) -> Option<(int, int)> {
    let b = digits_end(s, i);
    if has_at(s, b, lit) {
        Some((b, b + lit.len()))
    } else {
        None
    }
}

/// The head literal of a grammar.
pub open spec fn head_of(g: Grammar) -> Seq<char> {
    match g {
        Grammar::Player => ID_HEAD@,
        Grammar::Squad => ID_HEAD@,
        Grammar::Team => TEAM_HEAD@,
        Grammar::Maps => CURRENT_MAP_HEAD@,
    }
}

/// The literal after the first digit field.
pub open spec fn first_sep_of(g: Grammar) -> Seq<char> {
    match g {
        Grammar::Player => STEAM_ID_SEP@,
        Grammar::Squad => NAME_SEP@,
        _ => TEAM_NAME_OPEN@,
    }
}

/// The match of grammar `g` that starts at `p`, as its marks.
pub open spec fn match_at(g: Grammar, s: Seq<char>, p: int) -> Option<Seq<int>> {
    if !has_at(s, p, head_of(g)) {
        None
    } else {
        let a = p + head_of(g).len();
        if g == Grammar::Maps {
            match last_tail(g, s, a, s.len() as int) {
                Some(k) => Some(marks(a, a, a, a, a, k)),
                None => None,
            }
        } else {
            match digits_then(s, a, first_sep_of(g)) {
                None => None,
                Some((b, c)) => if g == Grammar::Player {
                    match digits_then(s, c, NAME_SEP@) {
                        None => None,
                        Some((d, e)) => match last_tail(g, s, e, s.len() as int) {
                            Some(k) => Some(marks(a, b, c, d, e, k)),
                            None => None,
                        },
                    }
                } else {
                    match last_tail(g, s, c, s.len() as int) {
                        Some(k) => Some(marks(a, b, c, c, c, k)),
                        None => None,
                    }
                },
            }
        }
    }
}

/// The leftmost match of `g` that starts at `p` or later.
pub open spec fn first_match(g: Grammar, s: Seq<char>, p: int) -> Option<Seq<int>>
    decreases s.len() + 1 - p,
{
    if p < 0 || p > s.len() {
        None
    } else {
        match match_at(g, s, p) {
            Some(m) => Some(m),
            None => first_match(g, s, p + 1),
        }
    }
}

/// The positions of a match, as found by `find_match`.
#[derive(Clone, Copy, Debug)]
pub struct Marks {
    pub a: usize,
    pub b: usize,
    pub c: usize,
    pub d: usize,
    pub e: usize,
    pub k: usize,
}

impl View for Marks {
    type V = Seq<int>;

    open spec fn view(&self) -> Seq<int> {
        marks(
            self.a as int,
            self.b as int,
            self.c as int,
            self.d as int,
            self.e as int,
            self.k as int,
        )
    }
}

/// Where the tail of each grammar leaves its last field.
pub open spec fn tail_len(g: Grammar) -> int {
    match g {
        Grammar::Player => (TEAM_ID_SEP@.len() + 1 + SQUAD_ID_SEP@.len()) as int,
        Grammar::Squad => (SIZE_SEP@.len() + 1 + LOCKED_SEP@.len()) as int,
        Grammar::Team => TEAM_NAME_CLOSE@.len() as int,
        Grammar::Maps => NEXT_MAP_SEP@.len() as int,
    }
}

/// Marks that lie in order inside a line of length `n`, with room for the tail.
pub open spec fn marks_in_order(m: Marks, g: Grammar, n: int) -> bool {
    m.a <= m.b <= m.c <= m.d <= m.e <= m.k && m.k + tail_len(g) <= n
}

fn digit_tail_exec(s: &str, n: usize, k: usize, sep1: &str, sep2: &str) -> (r: bool)
    requires
        n == s@.len(),
    ensures
        r == digit_tail_at(s@, k as int, sep1@, sep2@),
{
    if !has_at_exec(s, n, k, sep1) {
        return false;
    }
    let at = k + sep1.unicode_len();
    if at >= n {
        return false;
    }
    let c = s.get_char(at);
    if !('0' <= c && c <= '9') {
        return false;
    }
    has_at_exec(s, n, at + 1, sep2)
}

fn tail_at_exec(g: Grammar, s: &str, n: usize, k: usize) -> (r: bool)
    requires
        n == s@.len(),
    ensures
        r == tail_at(g, s@, k as int),
{
    match g {
        Grammar::Player => digit_tail_exec(s, n, k, TEAM_ID_SEP, SQUAD_ID_SEP),
        Grammar::Squad => digit_tail_exec(s, n, k, SIZE_SEP, LOCKED_SEP),
        Grammar::Team => has_at_exec(s, n, k, TEAM_NAME_CLOSE),
        Grammar::Maps => has_at_exec(s, n, k, NEXT_MAP_SEP),
    }
}

proof fn lemma_tail_room(g: Grammar, s: Seq<char>, k: int)
    requires
        tail_at(g, s, k),
    ensures
        0 <= k,
        k + tail_len(g) <= s.len(),
{
}

fn find_last_tail(g: Grammar, s: &str, n: usize, lo: usize) -> (r: Option<usize>)
    requires
        n == s@.len(),
        lo <= n,
    ensures
        match r {
            Some(k) => last_tail(g, s@, lo as int, n as int) == Some(k as int) && lo <= k
                && k + tail_len(g) <= n,
            None => last_tail(g, s@, lo as int, n as int) is None,
        },
{
    let mut h: usize = n;
    let mut open: bool = true;
    while open
        invariant
            n == s@.len(),
            lo <= n,
            h <= n,
            open ==> lo <= h,
            open ==> last_tail(g, s@, lo as int, n as int) == last_tail(
                g,
                s@,
                lo as int,
                h as int,
            ),
            !open ==> last_tail(g, s@, lo as int, n as int) is None,
        decreases h + (if open {
            1int
        } else {
            0int
        }),
    {
        if tail_at_exec(g, s, n, h) {
            proof {
                lemma_tail_room(g, s@, h as int);
            }
            return Some(h);
        }
        if h == lo {
            open = false;
            assert(last_tail(g, s@, lo as int, lo - 1) is None);
        } else {
            h = h - 1;
        }
    }
    None
}

/// Matches the head literal at `p`, then for all but the map grammar a digit
/// field and the literal after it.
fn match_at_exec(g: Grammar, s: &str, n: usize, p: usize) -> (r: Option<Marks>)
    requires
        n == s@.len(),
    ensures
        match r {
            Some(m) => match_at(g, s@, p as int) == Some(m@) && marks_in_order(m, g, n as int),
            None => match_at(g, s@, p as int) is None,
        },
{
    let head = match g {
        Grammar::Player => ID_HEAD,
        Grammar::Squad => ID_HEAD,
        Grammar::Team => TEAM_HEAD,
        Grammar::Maps => CURRENT_MAP_HEAD,
    };
    if !has_at_exec(s, n, p, head) {
        return None;
    }
    let a = p + head.unicode_len();
    if g == Grammar::Maps {
        return match find_last_tail(g, s, n, a) {
            Some(k) => Some(Marks { a: a, b: a, c: a, d: a, e: a, k: k }),
            None => None,
        };
    }
    let sep = match g {
        Grammar::Player => STEAM_ID_SEP,
        Grammar::Squad => NAME_SEP,
        _ => TEAM_NAME_OPEN,
    };
    let b = digits_end_exec(s, n, a);
    if !has_at_exec(s, n, b, sep) {
        return None;
    }
    let c = b + sep.unicode_len();
    if g == Grammar::Player {
        let d = digits_end_exec(s, n, c);
        if !has_at_exec(s, n, d, NAME_SEP) {
            return None;
        }
        let e = d + NAME_SEP.unicode_len();
        match find_last_tail(g, s, n, e) {
            Some(k) => Some(Marks { a: a, b: b, c: c, d: d, e: e, k: k }),
            None => None,
        }
    } else {
        match find_last_tail(g, s, n, c) {
            Some(k) => Some(Marks { a: a, b: b, c: c, d: c, e: c, k: k }),
            None => None,
        }
    }
}

/// The leftmost match of `g` in the line `s`.
pub fn find_match(g: Grammar, s: &str) -> (r: Option<Marks>)
    ensures
        match r {
            Some(m) => first_match(g, s@, 0) == Some(m@) && marks_in_order(m, g, s@.len() as int),
            None => first_match(g, s@, 0) is None,
        },
{
    let n = s.unicode_len();
    let mut p: usize = 0;
    while p < n
        invariant
            n == s@.len(),
            p <= n,
            first_match(g, s@, 0) == first_match(g, s@, p as int),
        decreases n - p,
    {
        let m = match_at_exec(g, s, n, p);
        if m.is_some() {
            return m;
        }
        p = p + 1;
    }
    let m = match_at_exec(g, s, n, n);
    assert(first_match(g, s@, n + 1) is None);
    m
}

} // verus!
