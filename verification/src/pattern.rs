//! Filename patterns: `*`, `?` and bracket expressions, matched
//! against one path component at a time, and the walk step of
//! pathname expansion over directory entries the filesystem hands in.

use vstd::prelude::*;

verus! {

use crate::cut::split_sep;
use crate::strings::chars_of;
use crate::strings::string_of;

/// How many characters stand between `j` and the closing bracket of a
/// bracket expression; runs to the end when it never closes.
pub open spec fn bracket_body_len(p: Seq<char>, j: int) -> nat
    decreases p.len() - j,
{
    if j < 0 || j >= p.len() {
        0
    } else if p[j] == ']' {
        0
    } else {
        1 + bracket_body_len(p, j + 1)
    }
}

/// Whether a bracket expression starting at `i` (which holds `[`)
/// closes: the body starts after an optional negation mark, a closing
/// bracket in first position is a literal member, and a `]` must
/// follow.
pub open spec fn bracket_negated(p: Seq<char>, i: int) -> bool {
    i + 1 < p.len() && (p[i + 1] == '!' || p[i + 1] == '^')
}

/// Where the member list of a bracket expression begins.
pub open spec fn bracket_body_start(p: Seq<char>, i: int) -> int {
    if bracket_negated(p, i) {
        i + 2
    } else {
        i + 1
    }
}

/// Where the closing bracket stands: the first `]` after the body
/// start, a `]` in first position counting as a member.
pub open spec fn bracket_close(p: Seq<char>, i: int) -> int {
    let bs = bracket_body_start(p, i);
    let skip_first = if bs < p.len() && p[bs] == ']' {
        1int
    } else {
        0int
    };
    bs + skip_first + bracket_body_len(p, bs + skip_first)
}

/// Whether the bracket expression at `i` closes inside the pattern.
pub open spec fn bracket_closes(p: Seq<char>, i: int) -> bool {
    bracket_close(p, i) < p.len()
}

/// Whether `c` is one of the members listed between `s` and `e`:
/// plain characters, and `x-y` ranges by code point.
pub open spec fn bracket_member(p: Seq<char>, s: int, e: int, c: char) -> bool
    decreases e - s,
{
    if s < 0 || s >= e || e > p.len() {
        false
    } else if s + 2 < e && p[s + 1] == '-' {
        (p[s] as u32 <= c as u32 && c as u32 <= p[s + 2] as u32) || bracket_member(
            p,
            s + 3,
            e,
            c,
        )
    } else {
        p[s] == c || bracket_member(p, s + 1, e, c)
    }
}

/// Whether the bracket expression at `i` matches `c`.
pub open spec fn bracket_matches(p: Seq<char>, i: int, c: char) -> bool {
    let member = bracket_member(p, bracket_body_start(p, i), bracket_close(p, i), c);
    if bracket_negated(p, i) {
        !member
    } else {
        member
    }
}

/// Whether the pattern from position `i` matches the name from
/// position `j`: `*` takes any run, `?` any one character, a closed
/// bracket expression one member, an unclosed `[` itself, and any
/// other character itself.
pub open spec fn glob_match_at(p: Seq<char>, i: int, s: Seq<char>, j: int) -> bool
    decreases p.len() - i, s.len() - j,
{
    if i < 0 || j < 0 {
        false
    } else if i >= p.len() {
        j >= s.len()
    } else if p[i] == '*' {
        glob_match_at(p, i + 1, s, j) || (j < s.len() && glob_match_at(p, i, s, j + 1))
    } else if j >= s.len() {
        false
    } else if p[i] == '?' {
        glob_match_at(p, i + 1, s, j + 1)
    } else if p[i] == '[' && bracket_closes(p, i) {
        bracket_matches(p, i, s[j]) && glob_match_at(p, bracket_close(p, i) + 1, s, j + 1)
    } else {
        p[i] == s[j] && glob_match_at(p, i + 1, s, j + 1)
    }
}

/// Whether a whole pattern component matches a whole name.
pub open spec fn spec_glob_match(p: Seq<char>, s: Seq<char>) -> bool {
    glob_match_at(p, 0, s, 0)
}

/// The executable bracket-close scan.
fn bracket_close_exec(p: &Vec<char>, i: usize) -> (r: usize)
    requires
        i < p@.len(),
    ensures
        r == bracket_close(p@, i as int),
        r >= i + 1,
{
    let neg = p.len() - i > 1 && (p[i + 1] == '!' || p[i + 1] == '^');
    let bs = if neg {
        i + 2
    } else {
        i + 1
    };
    let mut k = if bs < p.len() && p[bs] == ']' {
        bs + 1
    } else {
        bs
    };
    let ghost k0 = k as int;
    while k < p.len() && p[k] != ']'
        invariant
            k0 <= k,
            k <= p@.len(),
            bracket_body_len(p@, k0) == k - k0 + bracket_body_len(p@, k as int),
        decreases p@.len() - k,
    {
        k = k + 1;
    }
    k
}

/// The executable bracket membership test.
fn bracket_member_exec(p: &Vec<char>, s: usize, e: usize, c: char) -> (r: bool)
    requires
        e <= p@.len(),
    ensures
        r == bracket_member(p@, s as int, e as int, c),
    decreases e - s,
{
    if s >= e {
        return false;
    }
    if e - s > 2 && p[s + 1] == '-' {
        let lo = p[s] as u32;
        let hi = p[s + 2] as u32;
        let v = c as u32;
        if lo <= v && v <= hi {
            true
        } else {
            bracket_member_exec(p, s + 3, e, c)
        }
    } else {
        if p[s] == c {
            true
        } else {
            bracket_member_exec(p, s + 1, e, c)
        }
    }
}

/// The executable matcher over positions.
fn glob_match_exec(p: &Vec<char>, i: usize, s: &Vec<char>, j: usize) -> (r: bool)
    ensures
        r == glob_match_at(p@, i as int, s@, j as int),
    decreases p@.len() - i, s@.len() - j,
{
    if i >= p.len() {
        return j >= s.len();
    }
    let c = p[i];
    if c == '*' {
        if glob_match_exec(p, i + 1, s, j) {
            return true;
        }
        if j < s.len() {
            return glob_match_exec(p, i, s, j + 1);
        }
        return false;
    }
    if j >= s.len() {
        return false;
    }
    if c == '?' {
        return glob_match_exec(p, i + 1, s, j + 1);
    }
    if c == '[' {
        let close = bracket_close_exec(p, i);
        if close < p.len() {
            let neg = p.len() - i > 1 && (p[i + 1] == '!' || p[i + 1] == '^');
            let bs = if neg {
                i + 2
            } else {
                i + 1
            };
            let member = bracket_member_exec(p, bs, close, s[j]);
            let hit = if neg {
                !member
            } else {
                member
            };
            return hit && glob_match_exec(p, close + 1, s, j + 1);
        }
    }
    c == s[j] && glob_match_exec(p, i + 1, s, j + 1)
}

/// Whether one pattern component matches one directory-entry name.
pub fn component_matches(pat: &str, name: &str) -> (r: bool)
    ensures
        r == spec_glob_match(pat@, name@),
{
    let p = chars_of(pat);
    let s = chars_of(name);
    glob_match_exec(&p, 0, &s, 0)
}

/// The views of a list of strings.
pub open spec fn strs_model(vs: Seq<String>) -> Seq<Seq<char>> {
    vs.map(|i: int, v: String| v@)
}

/// The slash-separated components of a pattern, in order.
pub fn pattern_components(pattern: &str) -> (r: Vec<String>)
    ensures
        strs_model(r@) == split_sep(pattern@, '/'),
{
    let cs = chars_of(pattern);
    let pieces = crate::cut::split_sep_exec(&cs, '/');
    let mut r: Vec<String> = Vec::new();
    let mut i: usize = 0;
    proof {
        assert(crate::cut::views(pieces@).len() == pieces@.len());
    }
    while i < pieces.len()
        invariant
            i <= pieces@.len(),
            crate::cut::views(pieces@) == split_sep(pattern@, '/'),
            crate::cut::views(pieces@).len() == pieces@.len(),
            strs_model(r@) == crate::cut::views(pieces@).take(i as int),
        decreases pieces@.len() - i,
    {
        proof {
            assert(crate::cut::views(pieces@)[i as int] == pieces@[i as int]@);
        }
        let ghost rm = strs_model(r@);
        r.push(string_of(&pieces[i]));
        proof {
            assert(strs_model(r@) =~= rm.push(pieces@[i as int]@));
            assert(crate::cut::views(pieces@).take(i + 1 as int) =~= crate::cut::views(
                pieces@,
            ).take(i as int).push(crate::cut::views(pieces@)[i as int]));
        }
        i = i + 1;
    }
    proof {
        assert(crate::cut::views(pieces@).take(pieces@.len() as int) =~= crate::cut::views(
            pieces@,
        ));
    }
    r
}

/// The model of a directory listing: each entry's name and whether it
/// is a directory.
pub open spec fn entries_model(es: Seq<(String, bool)>) -> Seq<(Seq<char>, bool)> {
    es.map(|i: int, e: (String, bool)| (e.0@, e.1))
}

/// One walk step of pathname expansion over the first `n` entries of a
/// directory: a matching directory is descended into when components
/// remain and is a hit at the last one; a matching file is a hit only
/// at the last component.
pub open spec fn spec_glob_step(
    comp: Seq<char>,
    at_last: bool,
    es: Seq<(Seq<char>, bool)>,
    n: int,
) -> (Seq<Seq<char>>, Seq<Seq<char>>)
    decreases n,
{
    if n <= 0 {
        (Seq::empty(), Seq::empty())
    } else {
        let prev = spec_glob_step(comp, at_last, es, n - 1);
        let e = es[n - 1];
        if !spec_glob_match(comp, e.0) {
            prev
        } else if e.1 {
            if at_last {
                (prev.0, prev.1.push(e.0))
            } else {
                (prev.0.push(e.0), prev.1)
            }
        } else {
            if at_last {
                (prev.0, prev.1.push(e.0))
            } else {
                prev
            }
        }
    }
}

/// Walks one directory level: from the entries the filesystem listed,
/// the names to descend into and the names this component already
/// settles as matches.
pub fn glob_step(comp: &str, at_last: bool, entries: &Vec<(String, bool)>) -> (r: (
    Vec<String>,
    Vec<String>,
))
    ensures
        (strs_model(r.0@), strs_model(r.1@)) == spec_glob_step(
            comp@,
            at_last,
            entries_model(entries@),
            entries@.len() as int,
        ),
{
    let ghost em = entries_model(entries@);
    let mut descend: Vec<String> = Vec::new();
    let mut hits: Vec<String> = Vec::new();
    let mut i: usize = 0;
    proof {
        assert(strs_model(descend@) =~= Seq::<Seq<char>>::empty());
        assert(strs_model(hits@) =~= Seq::<Seq<char>>::empty());
        assert(em.len() == entries@.len());
    }
    while i < entries.len()
        invariant
            i <= entries@.len(),
            em == entries_model(entries@),
            em.len() == entries@.len(),
            (strs_model(descend@), strs_model(hits@)) == spec_glob_step(
                comp@,
                at_last,
                em,
                i as int,
            ),
        decreases entries@.len() - i,
    {
        proof {
            assert(em[i as int] == (entries@[i as int].0@, entries@[i as int].1));
        }
        let name = &entries[i].0;
        let is_dir = entries[i].1;
        if component_matches(comp, name.as_str()) {
            if is_dir {
                if at_last {
                    let ghost hm = strs_model(hits@);
                    hits.push(name.clone());
                    assert(strs_model(hits@) =~= hm.push(em[i as int].0));
                } else {
                    let ghost dm = strs_model(descend@);
                    descend.push(name.clone());
                    assert(strs_model(descend@) =~= dm.push(em[i as int].0));
                }
            } else {
                if at_last {
                    let ghost hm = strs_model(hits@);
                    hits.push(name.clone());
                    assert(strs_model(hits@) =~= hm.push(em[i as int].0));
                }
            }
        }
        i = i + 1;
    }
    (descend, hits)
}

} // verus!
