//! Small verified helpers over `String`, `&str` and `Vec<char>`.

use vstd::prelude::*;
use vstd::string::StrSliceExecFns;

verus! {

/// Relies on `String::push`: appends exactly the one character.
#[verifier::external_body]
pub fn push_char(s: &mut String, c: char)
    ensures
        final(s)@ == old(s)@.push(c),
{
    s.push(c);
}

/// The characters of `s`, in order.
pub fn chars_of(s: &str) -> (r: Vec<char>)
    ensures
        r@ == s@,
{
    let n = s.unicode_len();
    let mut r: Vec<char> = Vec::new();
    let mut i: usize = 0;
    while i < n
        invariant
            n == s@.len(),
            i <= n,
            r@ == s@.take(i as int),
        decreases n - i,
    {
        r.push(s.get_char(i));
        i = i + 1;
        assert(r@ =~= s@.take(i as int));
    }
    assert(r@ =~= s@);
    r
}

/// A string holding exactly the characters of `v`.
pub fn string_of(v: &Vec<char>) -> (r: String)
    ensures
        r@ == v@,
{
    let mut r = String::new();
    let mut i: usize = 0;
    while i < v.len()
        invariant
            i <= v@.len(),
            r@ == v@.take(i as int),
        decreases v@.len() - i,
    {
        push_char(&mut r, v[i]);
        i = i + 1;
        assert(r@ =~= v@.take(i as int));
    }
    assert(r@ =~= v@);
    r
}

/// Relies on `Rc::clone`: the clone shares the very same value.
#[verifier::external_body]
pub fn rc_clone<T>(v: &std::rc::Rc<T>) -> (r: std::rc::Rc<T>)
    ensures
        r == *v,
{
    std::rc::Rc::clone(v)
}

/// Whether two string slices hold the same characters.
pub fn str_equal(a: &str, b: &str) -> (r: bool)
    ensures
        r == (a@ == b@),
{
    let na = a.unicode_len();
    let nb = b.unicode_len();
    if na != nb {
        proof {
            assert(a@.len() != b@.len());
        }
        return false;
    }
    let mut i: usize = 0;
    while i < na
        invariant
            i <= na,
            na == a@.len(),
            na == b@.len(),
            forall|k: int| 0 <= k < i ==> a@[k] == b@[k],
        decreases na - i,
    {
        if a.get_char(i) != b.get_char(i) {
            return false;
        }
        i = i + 1;
    }
    proof {
        assert(a@ =~= b@);
    }
    true
}

/// The string of the characters of `v` between `from` and `to`.
pub fn string_of_range(v: &Vec<char>, from: usize, to: usize) -> (r: String)
    requires
        from <= to <= v@.len(),
    ensures
        r@ == v@.subrange(from as int, to as int),
{
    let mut r = String::new();
    let mut i = from;
    assert(r@ =~= v@.subrange(from as int, from as int));
    while i < to
        invariant
            from <= i <= to <= v@.len(),
            r@ == v@.subrange(from as int, i as int),
        decreases to - i,
    {
        push_char(&mut r, v[i]);
        proof {
            assert(v@.subrange(from as int, i as int + 1) =~= v@.subrange(
                from as int,
                i as int,
            ).push(v@[i as int]));
        }
        i = i + 1;
    }
    r
}

/// Whether `c` occurs in `v`.
pub fn vec_contains_char(v: &Vec<char>, c: char) -> (r: bool)
    ensures
        r == v@.contains(c),
{
    let mut i: usize = 0;
    while i < v.len()
        invariant
            i <= v@.len(),
            forall|k: int| 0 <= k < i ==> v@[k] != c,
        decreases v@.len() - i,
    {
        if v[i] == c {
            return true;
        }
        i = i + 1;
    }
    false
}

/// The code points of a character sequence.
pub open spec fn codes(s: Seq<char>) -> Seq<u32> {
    s.map(|i: int, c: char| c as u32)
}

/// A code point a `char` may carry: outside the surrogate gap and at
/// most the largest scalar value.
pub open spec fn valid_scalar(v: u32) -> bool {
    v <= 0x10FFFF && !(0xD800 <= v && v <= 0xDFFF)
}

/// Every character's code point is a valid scalar.
pub proof fn lemma_char_bounds(c: char)
    ensures
        valid_scalar(c as u32),
{
}

/// Relies on `char::from_u32`: a character for every valid scalar value
/// and nothing for any other.
#[verifier::external_body]
pub fn char_from_u32(v: u32) -> (r: Option<char>)
    ensures
        r is Some <==> valid_scalar(v),
        r is Some ==> r->0 as u32 == v,
{
    char::from_u32(v)
}

/// Turns a sequence of valid code points back into a string.
pub fn codes_to_string(v: &Vec<u32>) -> (r: String)
    requires
        forall|k: int| 0 <= k < v@.len() ==> valid_scalar(#[trigger] v@[k]),
    ensures
        codes(r@) == v@,
{
    let mut r = String::new();
    let mut i: usize = 0;
    while i < v.len()
        invariant
            i <= v@.len(),
            forall|k: int| 0 <= k < v@.len() ==> valid_scalar(#[trigger] v@[k]),
            codes(r@) == v@.take(i as int),
        decreases v@.len() - i,
    {
        let oc = char_from_u32(v[i]);
        assert(valid_scalar(v@[i as int]));
        let ch = match oc {
            Some(x) => x,
            None => {
                proof {
                    assert(false);
                }
                ' '
            },
        };
        assert(ch as u32 == v@[i as int]);
        let ghost r0 = r@;
        push_char(&mut r, ch);
        proof {
            assert(r@ == r0.push(ch));
            assert(codes(r0).len() == r0.len());
            assert(v@.take(i as int).len() == i as int);
            assert(r0.len() == i as int);
            assert(codes(r@).len() == i + 1);
            assert(v@.take(i + 1).len() == i + 1);
            assert forall|k: int| 0 <= k < i + 1 implies codes(r@)[k] == v@.take(i + 1)[k] by {
                if k < i as int {
                    assert(codes(r@)[k] == codes(r0)[k]);
                    assert(codes(r0)[k] == v@.take(i as int)[k]);
                } else {
                    assert(codes(r@)[k] == ch as u32);
                }
            }
        }
        i = i + 1;
        assert(codes(r@) =~= v@.take(i as int));
    }
    assert(v@.take(v@.len() as int) =~= v@);
    r
}

} // verus!

verus! {

/// Lexicographic order on character sequences, by code point: the
/// empty sequence first, then by the first differing position, a
/// prefix before its extensions.
pub open spec fn lex_le(a: Seq<char>, b: Seq<char>) -> bool
    decreases a.len(),
{
    if a.len() == 0 {
        true
    } else if b.len() == 0 {
        false
    } else {
        let ca = a[0] as u32;
        let cb = b[0] as u32;
        if ca < cb {
            true
        } else if ca > cb {
            false
        } else {
            lex_le(a.drop_first(), b.drop_first())
        }
    }
}

/// Any two sequences compare one way or the other.
pub proof fn lemma_lex_total(a: Seq<char>, b: Seq<char>)
    ensures
        lex_le(a, b) || lex_le(b, a),
    decreases a.len(),
{
    if a.len() > 0 && b.len() > 0 && a[0] as u32 == b[0] as u32 {
        lemma_lex_total(a.drop_first(), b.drop_first());
    }
}

/// The order chains.
pub proof fn lemma_lex_trans(a: Seq<char>, b: Seq<char>, c: Seq<char>)
    requires
        lex_le(a, b),
        lex_le(b, c),
    ensures
        lex_le(a, c),
    decreases a.len(),
{
    if a.len() > 0 && b.len() > 0 && c.len() > 0 && a[0] as u32 == b[0] as u32 && b[0] as u32
        == c[0] as u32 {
        lemma_lex_trans(a.drop_first(), b.drop_first(), c.drop_first());
    }
}

/// Compares the suffixes of two character lists from position `i`.
fn lex_le_from(a: &Vec<char>, b: &Vec<char>, i: usize) -> (r: bool)
    requires
        i <= a@.len(),
        i <= b@.len(),
    ensures
        r == lex_le(a@.skip(i as int), b@.skip(i as int)),
    decreases a@.len() - i,
{
    proof {
        if i < a@.len() {
            assert(a@.skip(i as int)[0] == a@[i as int]);
            assert(a@.skip(i as int).drop_first() =~= a@.skip(i + 1));
        }
        if i < b@.len() {
            assert(b@.skip(i as int)[0] == b@[i as int]);
            assert(b@.skip(i as int).drop_first() =~= b@.skip(i + 1));
        }
    }
    if i >= a.len() {
        return true;
    }
    if i >= b.len() {
        return false;
    }
    let ca = a[i] as u32;
    let cb = b[i] as u32;
    if ca < cb {
        true
    } else if ca > cb {
        false
    } else {
        lex_le_from(a, b, i + 1)
    }
}

/// Whether `a` sorts at or before `b`.
pub fn str_le(a: &str, b: &str) -> (r: bool)
    ensures
        r == lex_le(a@, b@),
{
    let av = chars_of(a);
    let bv = chars_of(b);
    proof {
        assert(av@.skip(0) =~= a@);
        assert(bv@.skip(0) =~= b@);
    }
    lex_le_from(&av, &bv, 0)
}

/// A sequence of strings in lexicographic order.
pub open spec fn strings_sorted(s: Seq<String>) -> bool {
    forall|a: int, b: int| 0 <= a < b < s.len() ==> lex_le((#[trigger] s[a])@, (#[trigger] s[b])@)
}

/// Sorts strings by code point, keeping exactly the same strings: the
/// result is a permutation of the input, in lexicographic order.
pub fn sort_strings(v: Vec<String>) -> (r: Vec<String>)
    ensures
        r@.to_multiset() == v@.to_multiset(),
        strings_sorted(r@),
{
    broadcast use vstd::seq_lib::group_to_multiset_ensures;

    let ghost total = v@.to_multiset();
    let mut work = v;
    let mut out: Vec<String> = Vec::new();
    proof {
        assert(out@.to_multiset().add(work@.to_multiset()) =~= total);
    }
    while work.len() > 0
        invariant
            out@.to_multiset().add(work@.to_multiset()) == total,
            strings_sorted(out@),
            forall|a: int, b: int|
                0 <= a < out@.len() && 0 <= b < work@.len() ==> lex_le(
                    (#[trigger] out@[a])@,
                    (#[trigger] work@[b])@,
                ),
        decreases work@.len(),
    {
        let mut m: usize = 0;
        let mut j: usize = 1;
        proof {
            lemma_lex_total((work@[0])@, (work@[0])@);
        }
        while j < work.len()
            invariant
                m < j <= work@.len() || (j <= work@.len() && m == 0),
                m < work@.len(),
                forall|k: int| 0 <= k < j ==> lex_le((work@[m as int])@, (#[trigger] work@[k])@),
            decreases work@.len() - j,
        {
            if str_le(work[j].as_str(), work[m].as_str()) {
                proof {
                    let wm = (work@[m as int])@;
                    let wj = (work@[j as int])@;
                    assert forall|k: int| 0 <= k < j + 1 implies lex_le(
                        wj,
                        (#[trigger] work@[k])@,
                    ) by {
                        if k < j {
                            lemma_lex_trans(wj, wm, (work@[k])@);
                        } else {
                            lemma_lex_total(wj, wj);
                        }
                    }
                }
                m = j;
            } else {
                proof {
                    lemma_lex_total((work@[j as int])@, (work@[m as int])@);
                }
            }
            j = j + 1;
        }
        let ghost work0 = work@;
        let ghost out0 = out@;
        let x = work.remove(m);
        out.push(x);
        proof {
            broadcast use vstd::seq_lib::group_to_multiset_ensures;

            assert(work0.contains(work0[m as int]));
            assert(work0.to_multiset().count(work0[m as int]) > 0);
            assert(out@ == out0.push(out@.last()));
            assert(out@.last() == work0[m as int]);
            assert(out@.to_multiset() =~= out0.to_multiset().insert(out@.last()));
            assert(work@ == work0.remove(m as int));
            assert(work@.to_multiset() =~= work0.to_multiset().remove(work0[m as int]));
            assert(out@.to_multiset().add(work@.to_multiset()) =~= total);
            assert forall|a: int, b: int|
                0 <= a < out@.len() && 0 <= b < work@.len() implies lex_le(
                (#[trigger] out@[a])@,
                (#[trigger] work@[b])@,
            ) by {
                if a < out0.len() {
                    if b < m {
                        assert(work@[b] == work0[b]);
                    } else {
                        assert(work@[b] == work0[b + 1]);
                    }
                } else {
                    assert(out@[a] == work0[m as int]);
                    if b < m {
                        assert(work@[b] == work0[b]);
                    } else {
                        assert(work@[b] == work0[b + 1]);
                    }
                }
            }
            assert forall|a: int, b: int|
                0 <= a < b < out@.len() implies lex_le(
                (#[trigger] out@[a])@,
                (#[trigger] out@[b])@,
            ) by {
                if b < out0.len() {
                } else {
                    assert(out@[b] == work0[m as int]);
                }
            }
        }
    }
    proof {
        broadcast use vstd::seq_lib::group_to_multiset_ensures;

        assert(work@.to_multiset().len() == 0);
        assert(out@.to_multiset() =~= total);
    }
    out
}

} // verus!
