//! The `tr` filter: translate, delete and squeeze characters.
//!
//! A set operand is parsed into [`SetItem`]s: plain characters, ranges,
//! POSIX character classes, equivalence classes (taken as their single
//! character), and `[c*n]` repeats, where a missing or zero count marks a
//! pad that stretches the second set to the length of the first.
//!
//! Contracts speak of character code points (`u32`); the model of a
//! string is the sequence of its characters' code points.

use vstd::prelude::*;

verus! {

use crate::strings::codes;

/// The POSIX character classes this filter knows.
#[derive(Debug, Clone, Copy, PartialEq, Eq, Structural)]
pub enum CharClass {
    Alnum,
    Alpha,
    Blank,
    Digit,
    Lower,
    Space,
    Upper,
    Xdigit,
}

/// One element of a parsed set operand.
#[derive(Debug, Clone, Copy, PartialEq, Eq, Structural)]
pub enum SetItem {
    /// A single character.
    Char(char),
    /// An inclusive range; the endpoints are in order and the range
    /// stays on one side of the surrogate gap.
    Range(char, char),
    /// A POSIX character class.
    Class(CharClass),
    /// `[c*n]` with an explicit positive count.
    Repeat(char, u32),
    /// `[c*]` or `[c*0]`: repeat as often as needed to pad the second
    /// set to the length of the first.
    Fill(char),
}

/// Why a call failed.
#[derive(Debug, Clone, Copy, PartialEq, Eq, Structural)]
pub enum TrError {
    /// Fewer operands than the chosen modes need.
    MissingOperand,
    /// More operands than the chosen modes allow.
    ExtraOperand,
    /// An option flag other than `-c`, `-C`, `-d`, `-s`.
    UnknownOption,
    /// A malformed set operand: a reversed or surrogate-crossing range,
    /// an unknown class name, a bad octal digit, or an oversized count.
    BadSet,
    /// Translation was asked for but the second set came out empty.
    EmptySet2,
}

/// A decimal digit.
pub open spec fn spec_is_digit(c: char) -> bool {
    48 <= c as u32 <= 57
}

/// The value of a decimal digit.
pub open spec fn digit_val(c: char) -> nat {
    (c as u32 - 48) as nat
}

/// How many consecutive decimal digits stand at position `i`.
pub open spec fn digit_run_len(cs: Seq<char>, i: int) -> nat
    decreases cs.len() - i,
{
    if i < 0 || i >= cs.len() || !spec_is_digit(cs[i]) {
        0
    } else {
        1 + digit_run_len(cs, i + 1)
    }
}

/// The value of a decimal digit string.
pub open spec fn dec_val(ds: Seq<char>) -> nat
    decreases ds.len(),
{
    if ds.len() == 0 {
        0
    } else {
        dec_val(ds.drop_last()) * 10 + digit_val(ds.last())
    }
}

/// The value of an octal digit string.
pub open spec fn oct_val(ds: Seq<char>) -> nat
    decreases ds.len(),
{
    if ds.len() == 0 {
        0
    } else {
        oct_val(ds.drop_last()) * 8 + digit_val(ds.last())
    }
}

/// Every digit fits octal.
pub open spec fn oct_ok(ds: Seq<char>) -> bool {
    forall|k: int| 0 <= k < ds.len() ==> digit_val(#[trigger] ds[k]) <= 7
}

/// The count a digit string names: octal with a leading zero, decimal
/// otherwise.
pub open spec fn count_val(ds: Seq<char>) -> nat {
    if ds.len() > 0 && ds[0] == '0' {
        oct_val(ds)
    } else {
        dec_val(ds)
    }
}

/// A digit string acceptable as a repeat count.
pub open spec fn count_ok(ds: Seq<char>) -> bool {
    &&& (ds.len() > 0 && ds[0] == '0' ==> oct_ok(ds))
    &&& count_val(ds) < 0x1_0000_0000
}

/// The item a repeat form makes out of its character and digit string.
pub open spec fn repeat_item(c: char, ds: Seq<char>) -> SetItem {
    if count_val(ds) == 0 {
        SetItem::Fill(c)
    } else {
        SetItem::Repeat(c, count_val(ds) as u32)
    }
}

/// The class a name denotes, if any.
pub open spec fn spec_class_of_name(name: Seq<char>) -> Option<CharClass> {
    if name == seq!['a', 'l', 'n', 'u', 'm'] {
        Some(CharClass::Alnum)
    } else if name == seq!['a', 'l', 'p', 'h', 'a'] {
        Some(CharClass::Alpha)
    } else if name == seq!['b', 'l', 'a', 'n', 'k'] {
        Some(CharClass::Blank)
    } else if name == seq!['d', 'i', 'g', 'i', 't'] {
        Some(CharClass::Digit)
    } else if name == seq!['l', 'o', 'w', 'e', 'r'] {
        Some(CharClass::Lower)
    } else if name == seq!['s', 'p', 'a', 'c', 'e'] {
        Some(CharClass::Space)
    } else if name == seq!['u', 'p', 'p', 'e', 'r'] {
        Some(CharClass::Upper)
    } else if name == seq!['x', 'd', 'i', 'g', 'i', 't'] {
        Some(CharClass::Xdigit)
    } else {
        None
    }
}

/// How many characters stand between position `j` and the next `:]`;
/// runs to the end of the text when there is none.
pub open spec fn class_name_len(cs: Seq<char>, j: int) -> nat
    decreases cs.len() - j,
{
    if j < 0 || j >= cs.len() {
        0
    } else if cs[j] == ':' && j + 1 < cs.len() && cs[j + 1] == ']' {
        0
    } else {
        1 + class_name_len(cs, j + 1)
    }
}

/// The position of the `:` of the first `:]` at or after `j`; `cs.len()`
/// when there is none.
pub open spec fn class_end(cs: Seq<char>, j: int) -> int {
    j + class_name_len(cs, j)
}

/// A well-formed range: ordered endpoints on one side of the surrogate
/// gap, so every code point between them is a character.
pub open spec fn range_ok(a: char, b: char) -> bool {
    let va = a as u32;
    let vb = b as u32;
    va <= vb && !(va < 0xD800 && vb >= 0xE000)
}

/// The plain reading of position `i`: a three-character range when a
/// dash with a successor follows, a single character otherwise.  Returns
/// the item (or the error for a malformed range) and the next position.
pub open spec fn plain_step(cs: Seq<char>, i: int) -> (Result<SetItem, TrError>, int) {
    if i + 2 < cs.len() && cs[i + 1] == '-' {
        if range_ok(cs[i], cs[i + 2]) {
            (Ok(SetItem::Range(cs[i], cs[i + 2])), i + 3)
        } else {
            (Err(TrError::BadSet), i + 3)
        }
    } else {
        (Ok(SetItem::Char(cs[i])), i + 1)
    }
}

/// Whether a `[c*n]` repeat form stands at position `i`, which must hold
/// a `[`.
pub open spec fn repeat_form_at(cs: Seq<char>, i: int) -> bool {
    &&& i + 2 < cs.len()
    &&& cs[i + 2] == '*'
    &&& i + 3 + digit_run_len(cs, i + 3) < cs.len()
    &&& cs[i + 3 + digit_run_len(cs, i + 3)] == ']'
}

/// Whether a `[:name:]` class form stands at position `i`.
pub open spec fn class_form_at(cs: Seq<char>, i: int) -> bool {
    &&& i + 1 < cs.len()
    &&& cs[i + 1] == ':'
    &&& class_end(cs, i + 2) + 1 < cs.len()
}

/// Whether a `[=c=]` equivalence form stands at position `i`.
pub open spec fn equiv_form_at(cs: Seq<char>, i: int) -> bool {
    &&& i + 4 < cs.len()
    &&& cs[i + 1] == '='
    &&& cs[i + 3] == '='
    &&& cs[i + 4] == ']'
}


/// One parsing step at position `i`: the item read and the position
/// after it, or the error.  A `[` opens a repeat, class or equivalence
/// form when one matches, tried in that order; any other character
/// reads plainly, with `a-b` ranges.
pub open spec fn spec_step(cs: Seq<char>, i: int) -> Result<(SetItem, int), TrError> {
    if cs[i] == '[' && repeat_form_at(cs, i) {
        let k = i + 3 + digit_run_len(cs, i + 3);
        let ds = cs.subrange(i + 3, k);
        if !count_ok(ds) {
            Err(TrError::BadSet)
        } else {
            Ok((repeat_item(cs[i + 1], ds), k + 1))
        }
    } else if cs[i] == '[' && class_form_at(cs, i) {
        let e = i + 2 + class_name_len(cs, i + 2);
        match spec_class_of_name(cs.subrange(i + 2, e)) {
            Some(cl) => Ok((SetItem::Class(cl), e + 2)),
            None => Err(TrError::BadSet),
        }
    } else if cs[i] == '[' && equiv_form_at(cs, i) {
        Ok((SetItem::Char(cs[i + 2]), i + 5))
    } else {
        let step = plain_step(cs, i);
        match step.0 {
            Ok(item) => Ok((item, step.1)),
            Err(e) => Err(e),
        }
    }
}

/// Parses a set operand from position `i` on, one step at a time.
pub open spec fn spec_parse_items(cs: Seq<char>, i: int) -> Result<Seq<SetItem>, TrError>
    decreases cs.len() - i,
{
    if i < 0 || i >= cs.len() {
        Ok(Seq::empty())
    } else {
        match spec_step(cs, i) {
            Err(e) => Err(e),
            Ok((item, ni)) => if ni <= i {
                Ok(seq![item])
            } else {
                match spec_parse_items(cs, ni) {
                    Ok(rest) => Ok(seq![item] + rest),
                    Err(e) => Err(e),
                }
            },
        }
    }
}

/// Joins already-parsed items with the outcome of parsing the rest.
pub open spec fn parse_join(
    acc: Seq<SetItem>,
    rest: Result<Seq<SetItem>, TrError>,
) -> Result<Seq<SetItem>, TrError> {
    match rest {
        Ok(r) => Ok(acc + r),
        Err(e) => Err(e),
    }
}

/// Every character inside a digit run is a digit.
proof fn lemma_digit_run_digits(cs: Seq<char>, s: int)
    ensures
        forall|k: int|
            s <= k < s + digit_run_len(cs, s) ==> spec_is_digit(#[trigger] cs[k]),
    decreases cs.len() - s,
{
    if 0 <= s < cs.len() && spec_is_digit(cs[s]) {
        lemma_digit_run_digits(cs, s + 1);
    }
}

/// A digit string is worth at least any of its prefixes.
pub proof fn lemma_val_prefix_le(ds: Seq<char>, t: int)
    requires
        0 <= t <= ds.len(),
    ensures
        dec_val(ds.take(t)) <= dec_val(ds),
        oct_val(ds.take(t)) <= oct_val(ds),
    decreases ds.len(),
{
    if t == ds.len() {
        assert(ds.take(t) =~= ds);
    } else {
        assert(ds.take(t) =~= ds.drop_last().take(t));
        lemma_val_prefix_le(ds.drop_last(), t);
    }
}

/// A decimal digit, executably.
fn is_digit_ch(c: char) -> (r: bool)
    ensures
        r == spec_is_digit(c),
{
    let v = c as u32;
    48 <= v && v <= 57
}

/// The end of the digit run that starts at `s`.
fn digit_run_end(cs: &Vec<char>, s: usize) -> (k: usize)
    requires
        s <= cs@.len(),
    ensures
        k == s + digit_run_len(cs@, s as int),
        k <= cs@.len(),
{
    let mut k = s;
    while k < cs.len() && is_digit_ch(cs[k])
        invariant
            s <= k <= cs@.len(),
            digit_run_len(cs@, s as int) == k - s + digit_run_len(cs@, k as int),
        decreases cs@.len() - k,
    {
        k = k + 1;
    }
    k
}

/// The position of the `:` of the next `:]`, or past the end.
fn class_scan(cs: &Vec<char>, j: usize) -> (e: usize)
    requires
        j <= cs@.len(),
    ensures
        e == class_end(cs@, j as int),
        e <= cs@.len(),
{
    let mut e = j;
    while e < cs.len() && !(cs[e] == ':' && e + 1 < cs.len() && cs[e + 1] == ']')
        invariant
            j <= e <= cs@.len(),
            class_name_len(cs@, j as int) == e - j + class_name_len(cs@, e as int),
        decreases cs@.len() - e,
    {
        e = e + 1;
    }
    e
}

/// Reads the repeat count between positions `s` and `k`: octal under a
/// leading zero, decimal otherwise; fails on a bad octal digit or a
/// count at or above 2^32, exactly when `count_ok` fails.
fn parse_count(cs: &Vec<char>, s: usize, k: usize) -> (r: Result<u32, TrError>)
    requires
        s <= k <= cs@.len(),
        forall|t: int| s <= t < k ==> spec_is_digit(#[trigger] cs@[t]),
    ensures
        match r {
            Ok(v) => count_ok(cs@.subrange(s as int, k as int)) && v == count_val(
                cs@.subrange(s as int, k as int),
            ),
            Err(e) => e == TrError::BadSet && !count_ok(cs@.subrange(s as int, k as int)),
        },
{
    let ghost ds = cs@.subrange(s as int, k as int);
    let oct = k > s && cs[s] == '0';
    let mut v: u64 = 0;
    let mut idx: usize = s;
    while idx < k
        invariant
            s <= idx <= k <= cs@.len(),
            ds == cs@.subrange(s as int, k as int),
            forall|t: int| s <= t < k ==> spec_is_digit(#[trigger] cs@[t]),
            oct == (k > s && cs@[s as int] == '0'),
            oct ==> oct_ok(ds.take(idx - s)) && v == oct_val(ds.take(idx - s)),
            !oct ==> v == dec_val(ds.take(idx - s)),
            v < 0x1_0000_0000,
        decreases k - idx,
    {
        let d: u32 = (cs[idx] as u32) - 48;
        let ghost pfx = ds.take(idx - s);
        assert(ds.take(idx + 1 - s).drop_last() =~= pfx);
        assert(ds.take(idx + 1 - s).last() == cs@[idx as int]);
        if oct {
            if d > 7 {
                assert(digit_val(ds[idx - s]) > 7);
                assert(!oct_ok(ds));
                return Err(TrError::BadSet);
            }
            let v2: u64 = v * 8 + d as u64;
            if v2 >= 0x1_0000_0000 {
                proof {
                    lemma_val_prefix_le(ds, idx + 1 - s);
                }
                assert(count_val(ds) >= v2);
                return Err(TrError::BadSet);
            }
            v = v2;
        } else {
            let v2: u64 = v * 10 + d as u64;
            if v2 >= 0x1_0000_0000 {
                proof {
                    lemma_val_prefix_le(ds, idx + 1 - s);
                }
                assert(count_val(ds) >= v2);
                return Err(TrError::BadSet);
            }
            v = v2;
        }
        idx = idx + 1;
    }
    assert(ds.take(k - s) =~= ds);
    Ok(v as u32)
}

/// The class a name names, executably.
fn class_of_name(name: &Vec<char>) -> (r: Option<CharClass>)
    ensures
        r == spec_class_of_name(name@),
{
    let n = name.len();
    if n == 5 {
        let c0 = name[0];
        let c1 = name[1];
        let c2 = name[2];
        let c3 = name[3];
        let c4 = name[4];
        let r = if c0 == 'a' && c1 == 'l' && c2 == 'n' && c3 == 'u' && c4 == 'm' {
            Some(CharClass::Alnum)
        } else if c0 == 'a' && c1 == 'l' && c2 == 'p' && c3 == 'h' && c4 == 'a' {
            Some(CharClass::Alpha)
        } else if c0 == 'b' && c1 == 'l' && c2 == 'a' && c3 == 'n' && c4 == 'k' {
            Some(CharClass::Blank)
        } else if c0 == 'd' && c1 == 'i' && c2 == 'g' && c3 == 'i' && c4 == 't' {
            Some(CharClass::Digit)
        } else if c0 == 'l' && c1 == 'o' && c2 == 'w' && c3 == 'e' && c4 == 'r' {
            Some(CharClass::Lower)
        } else if c0 == 's' && c1 == 'p' && c2 == 'a' && c3 == 'c' && c4 == 'e' {
            Some(CharClass::Space)
        } else if c0 == 'u' && c1 == 'p' && c2 == 'p' && c3 == 'e' && c4 == 'r' {
            Some(CharClass::Upper)
        } else {
            None
        };
        proof {
            assert(name@ =~= seq![c0, c1, c2, c3, c4]);
        }
        r
    } else if n == 6 {
        let c0 = name[0];
        let c1 = name[1];
        let c2 = name[2];
        let c3 = name[3];
        let c4 = name[4];
        let c5 = name[5];
        let r = if c0 == 'x' && c1 == 'd' && c2 == 'i' && c3 == 'g' && c4 == 'i' && c5 == 't' {
            Some(CharClass::Xdigit)
        } else {
            None
        };
        proof {
            assert(name@ =~= seq![c0, c1, c2, c3, c4, c5]);
        }
        r
    } else {
        None
    }
}

/// One executable parsing step at position `i`.
#[verifier::rlimit(30)]
fn parse_step(cs: &Vec<char>, i: usize) -> (r: Result<(SetItem, usize), TrError>)
    requires
        i < cs@.len(),
    ensures
        match r {
            Ok(p) => spec_step(cs@, i as int) == Ok::<(SetItem, int), TrError>((
                p.0,
                p.1 as int,
            )) && i < p.1 <= cs@.len(),
            Err(e) => spec_step(cs@, i as int) == Err::<(SetItem, int), TrError>(e),
        },
{
    let c = cs[i];
    if c == '[' && cs.len() - i > 2 && cs[i + 2] == '*' {
        let k = digit_run_end(cs, i + 3);
        if k < cs.len() && cs[k] == ']' {
            assert(repeat_form_at(cs@, i as int));
            proof {
                lemma_digit_run_digits(cs@, i as int + 3);
            }
            match parse_count(cs, i + 3, k) {
                Ok(v) => {
                    let item = if v == 0 {
                        SetItem::Fill(cs[i + 1])
                    } else {
                        SetItem::Repeat(cs[i + 1], v)
                    };
                    return Ok((item, k + 1));
                },
                Err(e) => {
                    return Err(e);
                },
            }
        }
    }
    assert(cs@[i as int] == '[' ==> !repeat_form_at(cs@, i as int));
    if c == '[' && cs.len() - i > 1 && cs[i + 1] == ':' {
        let e = class_scan(cs, i + 2);
        if cs.len() - e > 1 {
            assert(class_form_at(cs@, i as int));
            let mut name: Vec<char> = Vec::new();
            let mut t: usize = i + 2;
            assert(name@ =~= cs@.subrange(i as int + 2, i as int + 2));
            while t < e
                invariant
                    i + 2 <= t <= e,
                    e < cs@.len(),
                    name@ == cs@.subrange(i as int + 2, t as int),
                decreases e - t,
            {
                name.push(cs[t]);
                proof {
                    assert(cs@.subrange(i as int + 2, t as int + 1) =~= cs@.subrange(
                        i as int + 2,
                        t as int,
                    ).push(cs@[t as int]));
                }
                t = t + 1;
            }
            match class_of_name(&name) {
                Some(cl) => {
                    return Ok((SetItem::Class(cl), e + 2));
                },
                None => {
                    return Err(TrError::BadSet);
                },
            }
        }
    }
    assert(cs@[i as int] == '[' ==> !class_form_at(cs@, i as int));
    if c == '[' && cs.len() - i > 4 && cs[i + 1] == '=' && cs[i + 3] == '=' && cs[i + 4] == ']' {
        return Ok((SetItem::Char(cs[i + 2]), i + 5));
    }
    assert(cs@[i as int] == '[' ==> !equiv_form_at(cs@, i as int));
    if cs.len() - i > 2 && cs[i + 1] == '-' {
        let a = cs[i];
        let b = cs[i + 2];
        let va = a as u32;
        let vb = b as u32;
        if va <= vb && !(va < 0xD800 && vb >= 0xE000) {
            Ok((SetItem::Range(a, b), i + 3))
        } else {
            Err(TrError::BadSet)
        }
    } else {
        Ok((SetItem::Char(c), i + 1))
    }
}

/// Parses a whole set operand into items.
pub fn parse_set(cs: &Vec<char>) -> (r: Result<Vec<SetItem>, TrError>)
    ensures
        match r {
            Ok(items) => spec_parse_items(cs@, 0) == Ok::<Seq<SetItem>, TrError>(items@),
            Err(e) => spec_parse_items(cs@, 0) == Err::<Seq<SetItem>, TrError>(e),
        },
{
    let mut items: Vec<SetItem> = Vec::new();
    let mut i: usize = 0;
    assert(items@ + Seq::<SetItem>::empty() =~= items@);
    while i < cs.len()
        invariant
            i <= cs@.len(),
            spec_parse_items(cs@, 0) == parse_join(items@, spec_parse_items(cs@, i as int)),
        decreases cs@.len() - i,
    {
        let ghost items0 = items@;
        match parse_step(cs, i) {
            Ok((item, ni)) => {
                items.push(item);
                proof {
                    let rest = spec_parse_items(cs@, ni as int);
                    if rest is Ok {
                        assert(items0 + (seq![item] + rest->Ok_0) =~= items@ + rest->Ok_0);
                    }
                }
                i = ni;
            },
            Err(e) => {
                return Err(e);
            },
        }
    }
    assert(items@ + Seq::<SetItem>::empty() =~= items@);
    Ok(items)
}

} // verus!

use vstd::prelude::*;

verus! {

/// The code points of a character class, in ascending order.
pub open spec fn class_codes(cl: CharClass) -> Seq<u32> {
    match cl {
        CharClass::Digit => Seq::new(10, |k: int| (48 + k) as u32),
        CharClass::Upper => Seq::new(26, |k: int| (65 + k) as u32),
        CharClass::Lower => Seq::new(26, |k: int| (97 + k) as u32),
        CharClass::Alpha => Seq::new(26, |k: int| (65 + k) as u32) + Seq::new(
            26,
            |k: int| (97 + k) as u32,
        ),
        CharClass::Alnum => Seq::new(10, |k: int| (48 + k) as u32) + Seq::new(
            26,
            |k: int| (65 + k) as u32,
        ) + Seq::new(26, |k: int| (97 + k) as u32),
        CharClass::Xdigit => Seq::new(10, |k: int| (48 + k) as u32) + Seq::new(
            6,
            |k: int| (65 + k) as u32,
        ) + Seq::new(6, |k: int| (97 + k) as u32),
        CharClass::Space => seq![9u32, 10u32, 11u32, 12u32, 13u32, 32u32],
        CharClass::Blank => seq![9u32, 32u32],
    }
}

/// Class membership as plain arithmetic on the code point.
pub open spec fn class_pred(cl: CharClass, v: u32) -> bool {
    match cl {
        CharClass::Digit => 48 <= v <= 57,
        CharClass::Upper => 65 <= v <= 90,
        CharClass::Lower => 97 <= v <= 122,
        CharClass::Alpha => (65 <= v <= 90) || (97 <= v <= 122),
        CharClass::Alnum => (48 <= v <= 57) || (65 <= v <= 90) || (97 <= v <= 122),
        CharClass::Xdigit => (48 <= v <= 57) || (65 <= v <= 70) || (97 <= v <= 102),
        CharClass::Space => v == 9 || v == 10 || v == 11 || v == 12 || v == 13 || v == 32,
        CharClass::Blank => v == 9 || v == 32,
    }
}

/// The listed class codes are exactly those the arithmetic test admits.
pub proof fn lemma_class_codes_pred(cl: CharClass, v: u32)
    ensures
        class_codes(cl).contains(v) <==> class_pred(cl, v),
{
    let cs = class_codes(cl);
    if class_pred(cl, v) {
        match cl {
            CharClass::Digit => {
                assert(cs[v - 48] == v);
            },
            CharClass::Upper => {
                assert(cs[v - 65] == v);
            },
            CharClass::Lower => {
                assert(cs[v - 97] == v);
            },
            CharClass::Alpha => {
                if 65 <= v <= 90 {
                    assert(cs[v - 65] == v);
                } else {
                    assert(cs[26 + (v - 97)] == v);
                }
            },
            CharClass::Alnum => {
                if 48 <= v <= 57 {
                    assert(cs[v - 48] == v);
                } else if 65 <= v <= 90 {
                    assert(cs[10 + (v - 65)] == v);
                } else {
                    assert(cs[36 + (v - 97)] == v);
                }
            },
            CharClass::Xdigit => {
                if 48 <= v <= 57 {
                    assert(cs[v - 48] == v);
                } else if 65 <= v <= 70 {
                    assert(cs[10 + (v - 65)] == v);
                } else {
                    assert(cs[16 + (v - 97)] == v);
                }
            },
            CharClass::Space => {
                if v == 9 {
                    assert(cs[0] == v);
                } else if v == 10 {
                    assert(cs[1] == v);
                } else if v == 11 {
                    assert(cs[2] == v);
                } else if v == 12 {
                    assert(cs[3] == v);
                } else if v == 13 {
                    assert(cs[4] == v);
                } else {
                    assert(cs[5] == v);
                }
            },
            CharClass::Blank => {
                if v == 9 {
                    assert(cs[0] == v);
                } else {
                    assert(cs[1] == v);
                }
            },
        }
    }
    if cs.contains(v) {
        let k = choose|k: int| 0 <= k < cs.len() && cs[k] == v;
        assert(cs[k] == v);
    }
}

/// The code points one item stands for, in order; a pad item counts as
/// one copy of its character here.
pub open spec fn item_codes(item: SetItem) -> Seq<u32> {
    match item {
        SetItem::Char(c) => seq![c as u32],
        SetItem::Range(a, b) => Seq::new(
            (b as u32 - a as u32 + 1) as nat,
            |k: int| (a as u32 + k) as u32,
        ),
        SetItem::Class(cl) => class_codes(cl),
        SetItem::Repeat(c, n) => Seq::new(n as nat, |k: int| c as u32),
        SetItem::Fill(c) => seq![c as u32],
    }
}

/// Whether an item covers the code point `v`.
pub open spec fn item_has(item: SetItem, v: u32) -> bool {
    match item {
        SetItem::Char(c) => v == c as u32,
        SetItem::Range(a, b) => a as u32 <= v <= b as u32,
        SetItem::Class(cl) => class_pred(cl, v),
        SetItem::Repeat(c, n) => v == c as u32,
        SetItem::Fill(c) => v == c as u32,
    }
}

/// Whether any item of the set covers `v`.
pub open spec fn set_has(items: Seq<SetItem>, v: u32) -> bool {
    exists|k: int| 0 <= k < items.len() && item_has(#[trigger] items[k], v)
}

/// Expands a set, giving the first pad item `width` copies and any later
/// pad one copy of nothing.
pub open spec fn expand_fill(items: Seq<SetItem>, width: nat) -> Seq<u32>
    decreases items.len(),
{
    if items.len() == 0 {
        Seq::empty()
    } else {
        match items.first() {
            SetItem::Fill(c) => Seq::new(width, |k: int| c as u32) + expand_fill(
                items.drop_first(),
                0,
            ),
            other => item_codes(other) + expand_fill(items.drop_first(), width),
        }
    }
}

/// The expansion of a first set: pads count as one copy.
pub open spec fn expand_first(items: Seq<SetItem>) -> Seq<u32>
    decreases items.len(),
{
    if items.len() == 0 {
        Seq::empty()
    } else {
        expand_first(items.drop_last()) + item_codes(items.last())
    }
}

/// How wide the pad of a second set must be to reach `target` elements.
pub open spec fn fill_width(items: Seq<SetItem>, target: nat) -> nat {
    let base = expand_fill(items, 0).len();
    if target > base {
        (target - base) as nat
    } else {
        0
    }
}

/// The expansion of a second set, padded toward the length of the first.
pub open spec fn expand_second(items: Seq<SetItem>, target: nat) -> Seq<u32> {
    expand_fill(items, fill_width(items, target))
}

/// The position of the last occurrence of `v` in `e1`, or -1.
pub open spec fn last_idx(e1: Seq<u32>, v: u32) -> int
    decreases e1.len(),
{
    if e1.len() == 0 {
        -1
    } else if e1.last() == v {
        e1.len() - 1
    } else {
        last_idx(e1.drop_last(), v)
    }
}

/// Where translation sends one code point: the position of its last
/// occurrence in the first set picks from the second set, whose last
/// element stands in for any position beyond its end; absent code
/// points pass through.
pub open spec fn target_for(e1: Seq<u32>, e2: Seq<u32>, v: u32) -> u32 {
    let k = last_idx(e1, v);
    if k < 0 {
        v
    } else if k < e2.len() {
        e2[k]
    } else {
        e2.last()
    }
}

/// Plain translation, point by point.
pub open spec fn tr_translate(inp: Seq<u32>, e1: Seq<u32>, e2: Seq<u32>) -> Seq<u32> {
    inp.map(|i: int, v: u32| target_for(e1, e2, v))
}

/// Complemented translation: whatever the first set does not cover goes
/// to the single stand-in code point.
pub open spec fn tr_translate_c(inp: Seq<u32>, items1: Seq<SetItem>, tgt: u32) -> Seq<u32> {
    inp.map(|i: int, v: u32| if set_has(items1, v) { v } else { tgt })
}

/// Deletion: drops the code points the set covers, or, complemented,
/// those it does not.
pub open spec fn tr_delete(inp: Seq<u32>, items: Seq<SetItem>, compl: bool) -> Seq<u32>
    decreases inp.len(),
{
    if inp.len() == 0 {
        Seq::empty()
    } else {
        let keep = set_has(items, inp.last()) == compl;
        tr_delete(inp.drop_last(), items, compl) + if keep {
            seq![inp.last()]
        } else {
            Seq::empty()
        }
    }
}

/// Squeezing: a covered code point is dropped when it has already
/// appeared anywhere earlier in the text.
pub open spec fn tr_squeeze(inp: Seq<u32>, items: Seq<SetItem>, compl: bool) -> Seq<u32>
    decreases inp.len(),
{
    if inp.len() == 0 {
        Seq::empty()
    } else {
        let v = inp.last();
        let drop = (set_has(items, v) != compl) && inp.drop_last().contains(v);
        tr_squeeze(inp.drop_last(), items, compl) + if drop {
            Seq::empty()
        } else {
            seq![v]
        }
    }
}

} // verus!

verus! {

use crate::strings::valid_scalar;

/// Every code point of the sequence is a character.
pub open spec fn all_valid(s: Seq<u32>) -> bool {
    forall|k: int| 0 <= k < s.len() ==> valid_scalar(#[trigger] s[k])
}

/// A well-formed item: ranges are ordered and stay on one side of the
/// surrogate gap; everything else carries characters by construction.
pub open spec fn wf_item(item: SetItem) -> bool {
    match item {
        SetItem::Range(a, b) => range_ok(a, b),
        _ => true,
    }
}

/// A well-formed set.
pub open spec fn wf_items(items: Seq<SetItem>) -> bool {
    forall|k: int| 0 <= k < items.len() ==> wf_item(#[trigger] items[k])
}

/// Whatever the parser accepts is well formed.
pub proof fn lemma_parse_wf(cs: Seq<char>, i: int)
    ensures
        spec_parse_items(cs, i) matches Ok(items) ==> wf_items(items),
    decreases cs.len() - i,
{
    if i < 0 || i >= cs.len() {
    } else {
        match spec_step(cs, i) {
            Err(_) => {},
            Ok((item, ni)) => {
                assert(wf_item(item));
                if ni > i {
                    lemma_parse_wf(cs, ni);
                    if spec_parse_items(cs, ni) is Ok && spec_parse_items(cs, i) is Ok {
                        let rest = spec_parse_items(cs, ni)->Ok_0;
                        assert forall|k: int|
                            0 <= k < (seq![item] + rest).len() implies wf_item(
                            #[trigger] (seq![item] + rest)[k],
                        ) by {
                            if k > 0 {
                                assert((seq![item] + rest)[k] == rest[k - 1]);
                            }
                        }
                    }
                }
            },
        }
    }
}

/// The codes of one well-formed item are characters.
pub proof fn lemma_item_codes_valid(item: SetItem)
    requires
        wf_item(item),
    ensures
        all_valid(item_codes(item)),
{
    match item {
        SetItem::Range(a, b) => {
            let va = a as u32;
            let vb = b as u32;
            assert forall|k: int|
                0 <= k < item_codes(item).len() implies valid_scalar(
                #[trigger] item_codes(item)[k],
            ) by {
                assert(item_codes(item)[k] == (va + k) as u32);
            }
        },
        _ => {},
    }
}

/// The expansion of a well-formed second set is all characters.
pub proof fn lemma_expand_fill_valid(items: Seq<SetItem>, width: nat)
    requires
        wf_items(items),
    ensures
        all_valid(expand_fill(items, width)),
    decreases items.len(),
{
    if items.len() > 0 {
        assert(wf_items(items.drop_first()));
        assert(wf_item(items.first()));
        match items.first() {
            SetItem::Fill(c) => {
                lemma_expand_fill_valid(items.drop_first(), 0);
            },
            other => {
                lemma_item_codes_valid(other);
                lemma_expand_fill_valid(items.drop_first(), width);
            },
        }
    }
}

/// The expansion of a well-formed first set is all characters.
pub proof fn lemma_expand_first_valid(items: Seq<SetItem>)
    requires
        wf_items(items),
    ensures
        all_valid(expand_first(items)),
    decreases items.len(),
{
    if items.len() > 0 {
        assert(wf_items(items.drop_last()));
        assert(wf_item(items.last()));
        lemma_expand_first_valid(items.drop_last());
        lemma_item_codes_valid(items.last());
    }
}

/// Deletion and squeezing only ever keep input code points.
pub proof fn lemma_filter_valid(inp: Seq<u32>, items: Seq<SetItem>, compl: bool)
    requires
        all_valid(inp),
    ensures
        all_valid(tr_delete(inp, items, compl)),
        all_valid(tr_squeeze(inp, items, compl)),
    decreases inp.len(),
{
    if inp.len() > 0 {
        assert(all_valid(inp.drop_last()));
        lemma_filter_valid(inp.drop_last(), items, compl);
    }
}

/// Appends the codes `start`, `start + 1`, ... `start + count - 1`.
fn append_run(out: &mut Vec<u32>, start: u32, count: u32)
    requires
        start + count <= 0x11_0000,
    ensures
        final(out)@ == old(out)@ + Seq::new(count as nat, |k: int| (start + k) as u32),
{
    let ghost base = out@;
    let mut t: u32 = 0;
    while t < count
        invariant
            t <= count,
            start + count <= 0x11_0000,
            out@ == base + Seq::new(t as nat, |k: int| (start + k) as u32),
        decreases count - t,
    {
        out.push(start + t);
        t = t + 1;
        assert(out@ =~= base + Seq::new(t as nat, |k: int| (start + k) as u32));
    }
    assert(out@ =~= base + Seq::new(count as nat, |k: int| (start + k) as u32));
}

/// Appends `n` copies of the code `c`.
fn append_const(out: &mut Vec<u32>, c: u32, n: usize)
    ensures
        final(out)@ == old(out)@ + Seq::new(n as nat, |k: int| c),
{
    let ghost base = out@;
    let mut t: usize = 0;
    while t < n
        invariant
            t <= n,
            out@ == base + Seq::new(t as nat, |k: int| c),
        decreases n - t,
    {
        out.push(c);
        t = t + 1;
        assert(out@ =~= base + Seq::new(t as nat, |k: int| c));
    }
    assert(out@ =~= base + Seq::new(n as nat, |k: int| c));
}

/// Appends the code list of one item; a pad item contributes its one
/// character.
fn append_item_codes(out: &mut Vec<u32>, item: &SetItem)
    requires
        wf_item(*item),
    ensures
        final(out)@ == old(out)@ + item_codes(*item),
{
    let ghost base = out@;
    match item {
        SetItem::Char(c) => {
            out.push(*c as u32);
            assert(out@ =~= base + item_codes(*item));
        },
        SetItem::Range(a, b) => {
            let va = *a as u32;
            let vb = *b as u32;
            append_run(out, va, vb - va + 1);
        },
        SetItem::Class(cl) => {
            match cl {
                CharClass::Digit => {
                    append_run(out, 48, 10);
                },
                CharClass::Upper => {
                    append_run(out, 65, 26);
                },
                CharClass::Lower => {
                    append_run(out, 97, 26);
                },
                CharClass::Alpha => {
                    append_run(out, 65, 26);
                    append_run(out, 97, 26);
                    assert(out@ =~= base + item_codes(*item));
                },
                CharClass::Alnum => {
                    append_run(out, 48, 10);
                    append_run(out, 65, 26);
                    append_run(out, 97, 26);
                    assert(out@ =~= base + item_codes(*item));
                },
                CharClass::Xdigit => {
                    append_run(out, 48, 10);
                    append_run(out, 65, 6);
                    append_run(out, 97, 6);
                    assert(out@ =~= base + item_codes(*item));
                },
                CharClass::Space => {
                    out.push(9);
                    out.push(10);
                    out.push(11);
                    out.push(12);
                    out.push(13);
                    out.push(32);
                    assert(out@ =~= base + item_codes(*item));
                },
                CharClass::Blank => {
                    out.push(9);
                    out.push(32);
                    assert(out@ =~= base + item_codes(*item));
                },
            }
        },
        SetItem::Repeat(c, n) => {
            append_const(out, *c as u32, *n as usize);
            assert(out@ =~= base + item_codes(*item));
        },
        SetItem::Fill(c) => {
            out.push(*c as u32);
            assert(out@ =~= base + item_codes(*item));
        },
    }
}

/// Expands a first set: every item contributes its code list.
fn expand_first_exec(items: &Vec<SetItem>) -> (r: Vec<u32>)
    requires
        wf_items(items@),
    ensures
        r@ == expand_first(items@),
{
    let mut r: Vec<u32> = Vec::new();
    let mut i: usize = 0;
    assert(r@ =~= expand_first(items@.take(0)));
    while i < items.len()
        invariant
            i <= items@.len(),
            wf_items(items@),
            r@ == expand_first(items@.take(i as int)),
        decreases items@.len() - i,
    {
        append_item_codes(&mut r, &items[i]);
        i = i + 1;
        proof {
            assert(items@.take(i as int).drop_last() =~= items@.take(i - 1));
            assert(items@.take(i as int).last() == items@[i - 1]);
        }
    }
    assert(items@.take(items@.len() as int) =~= items@);
    r
}

/// Expands a second set, giving the first pad item `width` copies.
fn expand_fill_exec(items: &Vec<SetItem>, width: usize) -> (r: Vec<u32>)
    requires
        wf_items(items@),
    ensures
        r@ == expand_fill(items@, width as nat),
{
    let mut r: Vec<u32> = Vec::new();
    let mut i: usize = 0;
    let mut w: usize = width;
    proof {
        assert(items@.skip(0) =~= items@);
        assert(Seq::<u32>::empty() + expand_fill(items@, width as nat) =~= expand_fill(
            items@,
            width as nat,
        ));
    }
    while i < items.len()
        invariant
            i <= items@.len(),
            wf_items(items@),
            expand_fill(items@, width as nat) == r@ + expand_fill(
                items@.skip(i as int),
                w as nat,
            ),
        decreases items@.len() - i,
    {
        let ghost rem = items@.skip(i as int);
        proof {
            assert(rem.first() == items@[i as int]);
            assert(rem.drop_first() =~= items@.skip(i + 1));
        }
        match items[i] {
            SetItem::Fill(c) => {
                let ghost r0 = r@;
                let ghost w0 = w as nat;
                append_const(&mut r, c as u32, w);
                w = 0;
                proof {
                    assert(expand_fill(rem, w0) == Seq::new(w0, |k: int| c as u32)
                        + expand_fill(rem.drop_first(), 0));
                    assert(expand_fill(items@, width as nat) =~= r@ + expand_fill(
                        items@.skip(i + 1),
                        0,
                    ));
                }
            },
            _ => {
                let ghost r0 = r@;
                append_item_codes(&mut r, &items[i]);
                proof {
                    assert(r@ + expand_fill(items@.skip(i + 1), w as nat) =~= r0
                        + expand_fill(rem, w as nat));
                }
            },
        }
        i = i + 1;
    }
    proof {
        assert(items@.skip(items@.len() as int) =~= Seq::<SetItem>::empty());
        assert(r@ + Seq::<u32>::empty() =~= r@);
    }
    r
}

} // verus!

verus! {

/// Whether one item covers the code point `v`, executably.
fn item_has_exec(item: &SetItem, v: u32) -> (r: bool)
    ensures
        r == item_has(*item, v),
{
    match item {
        SetItem::Char(c) => v == *c as u32,
        SetItem::Range(a, b) => *a as u32 <= v && v <= *b as u32,
        SetItem::Class(cl) => {
            match cl {
                CharClass::Digit => 48 <= v && v <= 57,
                CharClass::Upper => 65 <= v && v <= 90,
                CharClass::Lower => 97 <= v && v <= 122,
                CharClass::Alpha => (65 <= v && v <= 90) || (97 <= v && v <= 122),
                CharClass::Alnum => (48 <= v && v <= 57) || (65 <= v && v <= 90) || (97 <= v
                    && v <= 122),
                CharClass::Xdigit => (48 <= v && v <= 57) || (65 <= v && v <= 70) || (97 <= v
                    && v <= 102),
                CharClass::Space => v == 9 || v == 10 || v == 11 || v == 12 || v == 13 || v
                    == 32,
                CharClass::Blank => v == 9 || v == 32,
            }
        },
        SetItem::Repeat(c, _n) => v == *c as u32,
        SetItem::Fill(c) => v == *c as u32,
    }
}

/// Whether any item of the set covers `v`, executably.
fn set_has_exec(items: &Vec<SetItem>, v: u32) -> (r: bool)
    ensures
        r == set_has(items@, v),
{
    let mut k: usize = 0;
    while k < items.len()
        invariant
            k <= items@.len(),
            forall|t: int| 0 <= t < k ==> !item_has(#[trigger] items@[t], v),
        decreases items@.len() - k,
    {
        if item_has_exec(&items[k], v) {
            assert(item_has(items@[k as int], v));
            return true;
        }
        k = k + 1;
    }
    false
}

/// Where translation sends one code point, executably.
fn target_for_exec(e1: &Vec<u32>, e2: &Vec<u32>, v: u32) -> (r: u32)
    requires
        e1@.len() > 0 ==> e2@.len() > 0,
    ensures
        r == target_for(e1@, e2@, v),
{
    let mut k: usize = e1.len();
    assert(e1@.take(e1@.len() as int) =~= e1@);
    while k > 0
        invariant
            k <= e1@.len(),
            e1@.len() > 0 ==> e2@.len() > 0,
            last_idx(e1@, v) == last_idx(e1@.take(k as int), v),
        decreases k,
    {
        proof {
            assert(e1@.take(k as int).drop_last() =~= e1@.take(k - 1));
        }
        if e1[k - 1] == v {
            let idx = k - 1;
            assert(last_idx(e1@, v) == idx);
            if idx < e2.len() {
                return e2[idx];
            } else {
                return e2[e2.len() - 1];
            }
        }
        k = k - 1;
    }
    assert(e1@.take(0) =~= Seq::<u32>::empty());
    v
}

/// Plain translation of a whole text.
fn translate_exec(inp: &Vec<u32>, e1: &Vec<u32>, e2: &Vec<u32>) -> (r: Vec<u32>)
    requires
        e1@.len() > 0 ==> e2@.len() > 0,
    ensures
        r@ == tr_translate(inp@, e1@, e2@),
{
    let mut r: Vec<u32> = Vec::new();
    let mut i: usize = 0;
    while i < inp.len()
        invariant
            i <= inp@.len(),
            e1@.len() > 0 ==> e2@.len() > 0,
            r@.len() == i,
            forall|t: int| 0 <= t < i ==> r@[t] == target_for(e1@, e2@, #[trigger] inp@[t]),
        decreases inp@.len() - i,
    {
        let t = target_for_exec(e1, e2, inp[i]);
        r.push(t);
        i = i + 1;
    }
    assert(r@ =~= tr_translate(inp@, e1@, e2@));
    r
}

/// Complemented translation of a whole text.
fn translate_c_exec(inp: &Vec<u32>, items1: &Vec<SetItem>, tgt: u32) -> (r: Vec<u32>)
    ensures
        r@ == tr_translate_c(inp@, items1@, tgt),
{
    let mut r: Vec<u32> = Vec::new();
    let mut i: usize = 0;
    while i < inp.len()
        invariant
            i <= inp@.len(),
            r@.len() == i,
            forall|t: int|
                0 <= t < i ==> r@[t] == (if set_has(items1@, #[trigger] inp@[t]) {
                    inp@[t]
                } else {
                    tgt
                }),
        decreases inp@.len() - i,
    {
        let v = inp[i];
        if set_has_exec(items1, v) {
            r.push(v);
        } else {
            r.push(tgt);
        }
        i = i + 1;
    }
    assert(r@ =~= tr_translate_c(inp@, items1@, tgt));
    r
}

/// Deletion over a whole text.
fn delete_exec(inp: &Vec<u32>, items: &Vec<SetItem>, compl: bool) -> (r: Vec<u32>)
    ensures
        r@ == tr_delete(inp@, items@, compl),
{
    let mut r: Vec<u32> = Vec::new();
    let mut i: usize = 0;
    assert(inp@.take(0) =~= Seq::<u32>::empty());
    while i < inp.len()
        invariant
            i <= inp@.len(),
            r@ == tr_delete(inp@.take(i as int), items@, compl),
        decreases inp@.len() - i,
    {
        let v = inp[i];
        let ghost r0 = r@;
        if set_has_exec(items, v) == compl {
            r.push(v);
        }
        i = i + 1;
        proof {
            assert(inp@.take(i as int).drop_last() =~= inp@.take(i - 1));
            assert(inp@.take(i as int).last() == inp@[i - 1]);
            if set_has(items@, inp@[i - 1]) == compl {
                assert(r@ =~= r0 + seq![inp@[i - 1]]);
            } else {
                assert(r@ =~= r0 + Seq::<u32>::empty());
            }
        }
    }
    assert(inp@.take(inp@.len() as int) =~= inp@);
    r
}

/// Whether `v` occurs among the first `n` code points of `inp`.
fn occurs_before(inp: &Vec<u32>, n: usize, v: u32) -> (r: bool)
    requires
        n <= inp@.len(),
    ensures
        r == inp@.take(n as int).contains(v),
{
    let mut k: usize = 0;
    while k < n
        invariant
            k <= n <= inp@.len(),
            forall|t: int| 0 <= t < k ==> inp@[t] != v,
        decreases n - k,
    {
        if inp[k] == v {
            assert(inp@.take(n as int)[k as int] == v);
            return true;
        }
        k = k + 1;
    }
    proof {
        if inp@.take(n as int).contains(v) {
            let t = choose|t: int| 0 <= t < n && inp@.take(n as int)[t] == v;
            assert(inp@[t] == v);
        }
    }
    false
}

/// Squeezing over a whole text: a covered code point that has appeared
/// anywhere earlier is dropped.
fn squeeze_exec(inp: &Vec<u32>, items: &Vec<SetItem>, compl: bool) -> (r: Vec<u32>)
    ensures
        r@ == tr_squeeze(inp@, items@, compl),
{
    let mut r: Vec<u32> = Vec::new();
    let mut i: usize = 0;
    assert(inp@.take(0) =~= Seq::<u32>::empty());
    while i < inp.len()
        invariant
            i <= inp@.len(),
            r@ == tr_squeeze(inp@.take(i as int), items@, compl),
        decreases inp@.len() - i,
    {
        let v = inp[i];
        let ghost r0 = r@;
        let covered = set_has_exec(items, v) != compl;
        let seen = occurs_before(inp, i, v);
        if !(covered && seen) {
            r.push(v);
        }
        i = i + 1;
        proof {
            assert(inp@.take(i as int).drop_last() =~= inp@.take(i - 1));
            assert(inp@.take(i as int).last() == inp@[i - 1]);
            if covered && seen {
                assert(r@ =~= r0 + Seq::<u32>::empty());
            } else {
                assert(r@ =~= r0 + seq![inp@[i - 1]]);
            }
        }
    }
    assert(inp@.take(inp@.len() as int) =~= inp@);
    r
}

} // verus!

verus! {

use crate::strings::chars_of;
use crate::strings::codes_to_string;

/// Folds the option characters of one `-xyz` argument into the
/// (complement, delete, squeeze) flags, from position `j` on.
pub open spec fn flags_merge(
    acc: (bool, bool, bool),
    a: Seq<char>,
    j: int,
) -> Result<(bool, bool, bool), TrError>
    decreases a.len() - j,
{
    if j < 0 || j >= a.len() {
        Ok(acc)
    } else if a[j] == 'c' || a[j] == 'C' {
        flags_merge((true, acc.1, acc.2), a, j + 1)
    } else if a[j] == 'd' {
        flags_merge((acc.0, true, acc.2), a, j + 1)
    } else if a[j] == 's' {
        flags_merge((acc.0, acc.1, true), a, j + 1)
    } else {
        Err(TrError::UnknownOption)
    }
}

/// Scans the arguments: leading `-xyz` words set flags, `--` ends the
/// options, and the first remaining word starts the operands.
pub open spec fn spec_args(
    args: Seq<Seq<char>>,
    i: int,
    acc: (bool, bool, bool),
) -> Result<((bool, bool, bool), Seq<Seq<char>>), TrError>
    decreases args.len() - i,
{
    if i < 0 || i >= args.len() {
        Ok((acc, Seq::empty()))
    } else if args[i].len() >= 2 && args[i][0] == '-' {
        if args[i] == seq!['-', '-'] {
            Ok((acc, args.skip(i + 1)))
        } else {
            match flags_merge(acc, args[i], 1) {
                Ok(acc2) => spec_args(args, i + 1, acc2),
                Err(e) => Err(e),
            }
        }
    } else {
        Ok((acc, args.skip(i)))
    }
}

/// What a `tr` call produces for given arguments and input text, over
/// code points.  The flags select the mode: translate with two
/// operands, delete with one, squeeze alone or after either, each with
/// the complement applying to the first set; operand counts outside the
/// mode's shape, malformed sets and an empty second set fail, each with
/// its own error.
pub open spec fn spec_tr_run(args: Seq<Seq<char>>, input: Seq<char>) -> Result<
    Seq<u32>,
    TrError,
> {
    match spec_args(args, 0, (false, false, false)) {
        Err(e) => Err(e),
        Ok(((compl, del, sq), ops)) => {
            if ops.len() == 0 {
                Err(TrError::MissingOperand)
            } else {
                match spec_parse_items(ops[0], 0) {
                    Err(e) => Err(e),
                    Ok(items1) => {
                        let inp = codes(input);
                        if del && sq {
                            if ops.len() == 1 {
                                Err(TrError::MissingOperand)
                            } else if ops.len() > 2 {
                                Err(TrError::ExtraOperand)
                            } else {
                                match spec_parse_items(ops[1], 0) {
                                    Err(e) => Err(e),
                                    Ok(items2) => Ok(
                                        tr_squeeze(
                                            tr_delete(inp, items1, compl),
                                            items2,
                                            false,
                                        ),
                                    ),
                                }
                            }
                        } else if del {
                            if ops.len() > 1 {
                                Err(TrError::ExtraOperand)
                            } else {
                                Ok(tr_delete(inp, items1, compl))
                            }
                        } else if sq && ops.len() == 1 {
                            Ok(tr_squeeze(inp, items1, compl))
                        } else if ops.len() > 2 {
                            Err(TrError::ExtraOperand)
                        } else if ops.len() == 1 {
                            Err(TrError::MissingOperand)
                        } else {
                            match spec_parse_items(ops[1], 0) {
                                Err(e) => Err(e),
                                Ok(items2) => {
                                    let step = if compl {
                                        let t2 = expand_first(items2);
                                        if t2.len() == 0 {
                                            Err(TrError::EmptySet2)
                                        } else {
                                            Ok(tr_translate_c(inp, items1, t2.last()))
                                        }
                                    } else {
                                        let e1 = expand_first(items1);
                                        let e2 = expand_second(items2, e1.len());
                                        if e1.len() > 0 && e2.len() == 0 {
                                            Err(TrError::EmptySet2)
                                        } else {
                                            Ok(tr_translate(inp, e1, e2))
                                        }
                                    };
                                    match step {
                                        Err(e) => Err(e),
                                        Ok(out) => Ok(
                                            if sq {
                                                tr_squeeze(out, items2, false)
                                            } else {
                                                out
                                            },
                                        ),
                                    }
                                },
                            }
                        }
                    },
                }
            }
        },
    }
}

/// Folds one option argument into the flags, executably.
fn flags_merge_exec(acc: (bool, bool, bool), a: &Vec<char>) -> (r: Result<
    (bool, bool, bool),
    TrError,
>)
    ensures
        match r {
            Ok(f) => flags_merge(acc, a@, 1) == Ok::<(bool, bool, bool), TrError>(f),
            Err(e) => flags_merge(acc, a@, 1) == Err::<(bool, bool, bool), TrError>(e),
        },
{
    let mut cur = acc;
    let mut j: usize = 1;
    while j < a.len()
        invariant
            1 <= j,
            j <= a@.len() || j == 1,
            flags_merge(acc, a@, 1) == flags_merge(cur, a@, j as int),
        decreases a@.len() - j,
    {
        let c = a[j];
        if c == 'c' || c == 'C' {
            cur = (true, cur.1, cur.2);
        } else if c == 'd' {
            cur = (cur.0, true, cur.2);
        } else if c == 's' {
            cur = (cur.0, cur.1, true);
        } else {
            return Err(TrError::UnknownOption);
        }
        j = j + 1;
    }
    Ok(cur)
}

/// The code points of the input, with every element a character.
fn input_codes(input: &str) -> (r: Vec<u32>)
    ensures
        r@ == codes(input@),
        all_valid(r@),
{
    let cv = chars_of(input);
    let mut r: Vec<u32> = Vec::new();
    let mut i: usize = 0;
    while i < cv.len()
        invariant
            i <= cv@.len(),
            cv@ == input@,
            r@.len() == i,
            forall|t: int| 0 <= t < i ==> r@[t] == cv@[t] as u32,
            all_valid(r@),
        decreases cv@.len() - i,
    {
        let c = cv[i];
        let v = c as u32;
        let ghost r0 = r@;
        r.push(v);
        proof {
            crate::strings::lemma_char_bounds(c);
            assert(valid_scalar(v));
            assert forall|t: int| 0 <= t < r@.len() implies valid_scalar(
                #[trigger] r@[t],
            ) by {
                if t < r0.len() {
                    assert(valid_scalar(r0[t]));
                } else {
                    assert(r@[t] == v);
                }
            }
        }
        i = i + 1;
    }
    assert(r@ =~= codes(input@));
    r
}

/// Runs the whole filter: parses options and sets, then translates,
/// deletes and squeezes the input text as the flags ask.
#[verifier::rlimit(60)]
pub fn tr_run(args: &Vec<String>, input: &str) -> (r: Result<String, TrError>)
    ensures
        match r {
            Ok(out) => spec_tr_run(args.deep_view(), input@) == Ok::<Seq<u32>, TrError>(
                codes(out@),
            ),
            Err(e) => spec_tr_run(args.deep_view(), input@) == Err::<Seq<u32>, TrError>(e),
        },
{
    let ghost dargs = args.deep_view();
    proof {
        assert forall|t: int| 0 <= t < args@.len() implies dargs[t] == args@[t]@ by {
            assert(dargs[t] == args@[t].deep_view());
        }
        assert(dargs.len() == args@.len());
    }
    // Scan the option arguments.
    let mut flags = (false, false, false);
    let mut i: usize = 0;
    let mut ops_start: usize = args.len();
    let mut scanning = true;
    while scanning && i < args.len()
        invariant
            i <= args@.len(),
            dargs == args.deep_view(),
            dargs.len() == args@.len(),
            forall|t: int| 0 <= t < args@.len() ==> dargs[t] == #[trigger] args@[t]@,
            scanning ==> spec_args(dargs, 0, (false, false, false)) == spec_args(
                dargs,
                i as int,
                flags,
            ),
            !scanning ==> ops_start <= args@.len() && spec_args(
                dargs,
                0,
                (false, false, false),
            ) == Ok::<((bool, bool, bool), Seq<Seq<char>>), TrError>((
                flags,
                dargs.skip(ops_start as int),
            )),
            scanning ==> ops_start == args@.len(),
        decreases args@.len() - i,
    {
        let a = &args[i];
        let ac = chars_of(a.as_str());
        if ac.len() >= 2 && ac[0] == '-' {
            if ac.len() == 2 && ac[1] == '-' {
                assert(dargs[i as int] =~= seq!['-', '-']);
                ops_start = i + 1;
                scanning = false;
            } else {
                assert(!(dargs[i as int] =~= seq!['-', '-']));
                match flags_merge_exec(flags, &ac) {
                    Ok(f2) => {
                        flags = f2;
                    },
                    Err(e) => {
                        return Err(e);
                    },
                }
            }
        } else {
            ops_start = i;
            scanning = false;
        }
        i = i + 1;
    }
    proof {
        if scanning {
            assert(dargs.skip(dargs.len() as int) =~= Seq::<Seq<char>>::empty());
        }
    }
    let compl = flags.0;
    let del = flags.1;
    let sq = flags.2;
    let n = args.len() - ops_start;
    let ghost ops = dargs.skip(ops_start as int);
    assert(ops.len() == n);
    if n == 0 {
        return Err(TrError::MissingOperand);
    }
    assert(ops[0] == dargs[ops_start as int]);
    let op0 = chars_of(args[ops_start].as_str());
    let items1 = match parse_set(&op0) {
        Ok(v) => v,
        Err(e) => {
            return Err(e);
        },
    };
    proof {
        lemma_parse_wf(ops[0], 0);
    }
    let inp = input_codes(input);
    if del && sq {
        if n == 1 {
            return Err(TrError::MissingOperand);
        }
        if n > 2 {
            return Err(TrError::ExtraOperand);
        }
        assert(ops[1] == dargs[ops_start + 1]);
        let op1 = chars_of(args[ops_start + 1].as_str());
        let items2 = match parse_set(&op1) {
            Ok(v) => v,
            Err(e) => {
                return Err(e);
            },
        };
        let deleted = delete_exec(&inp, &items1, compl);
        let squeezed = squeeze_exec(&deleted, &items2, false);
        proof {
            lemma_filter_valid(inp@, items1@, compl);
            lemma_filter_valid(deleted@, items2@, false);
        }
        return Ok(codes_to_string(&squeezed));
    }
    if del {
        if n > 1 {
            return Err(TrError::ExtraOperand);
        }
        let deleted = delete_exec(&inp, &items1, compl);
        proof {
            lemma_filter_valid(inp@, items1@, compl);
        }
        return Ok(codes_to_string(&deleted));
    }
    if sq && n == 1 {
        let squeezed = squeeze_exec(&inp, &items1, compl);
        proof {
            lemma_filter_valid(inp@, items1@, compl);
        }
        return Ok(codes_to_string(&squeezed));
    }
    if n > 2 {
        return Err(TrError::ExtraOperand);
    }
    if n == 1 {
        return Err(TrError::MissingOperand);
    }
    assert(ops[1] == dargs[ops_start + 1]);
    let op1 = chars_of(args[ops_start + 1].as_str());
    let items2 = match parse_set(&op1) {
        Ok(v) => v,
        Err(e) => {
            return Err(e);
        },
    };
    proof {
        lemma_parse_wf(ops[1], 0);
    }
    let translated = if compl {
        let t2 = expand_first_exec(&items2);
        if t2.len() == 0 {
            return Err(TrError::EmptySet2);
        }
        let tgt = t2[t2.len() - 1];
        proof {
            lemma_expand_first_valid(items2@);
            assert(valid_scalar(t2@[t2@.len() - 1]));
        }
        let out = translate_c_exec(&inp, &items1, tgt);
        proof {
            assert forall|t: int| 0 <= t < out@.len() implies valid_scalar(
                #[trigger] out@[t],
            ) by {
                assert(out@[t] == inp@[t] || out@[t] == tgt);
            }
        }
        out
    } else {
        let e1 = expand_first_exec(&items1);
        let base = expand_fill_exec(&items2, 0);
        let width = if e1.len() > base.len() {
            e1.len() - base.len()
        } else {
            0
        };
        assert(width as nat == fill_width(items2@, e1@.len() as nat));
        let e2 = expand_fill_exec(&items2, width);
        if e1.len() > 0 && e2.len() == 0 {
            return Err(TrError::EmptySet2);
        }
        let out = translate_exec(&inp, &e1, &e2);
        proof {
            lemma_expand_fill_valid(items2@, width as nat);
            assert forall|t: int| 0 <= t < out@.len() implies valid_scalar(
                #[trigger] out@[t],
            ) by {
                let v = inp@[t];
                let k = last_idx(e1@, v);
                if k >= 0 {
                    if k < e2@.len() {
                        assert(valid_scalar(e2@[k]));
                    } else {
                        assert(valid_scalar(e2@[e2@.len() - 1]));
                    }
                }
            }
        }
        out
    };
    if sq {
        let squeezed = squeeze_exec(&translated, &items2, false);
        proof {
            lemma_filter_valid(translated@, items2@, false);
        }
        Ok(codes_to_string(&squeezed))
    } else {
        Ok(codes_to_string(&translated))
    }
}

} // verus!
