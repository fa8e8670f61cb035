//! The `cut` filter: select bytes, characters or fields from each line.
//!
//! A selection list is one or more comma-separated ranges `N`, `N-`,
//! `N-M` or `-M`, all 1-based and inclusive.  In byte and character
//! modes a delimiter given with `-d` is written between selected
//! stretches that no single range joins; in field mode the lines are
//! split on the delimiter and the selected fields are joined with it,
//! and `-s` drops lines without any delimiter.

use vstd::prelude::*;

verus! {

use crate::strings::chars_of;
use crate::strings::string_of;

/// One inclusive selection range; `u64::MAX` stands for an open end.
#[derive(Debug, Clone, Copy, PartialEq, Eq, Structural)]
pub struct CutRange {
    pub lo: u64,
    pub hi: u64,
}

/// What is being selected.
#[derive(Debug, Clone, Copy, PartialEq, Eq, Structural)]
pub enum CutMode {
    Bytes,
    Chars,
    Fields,
}

/// Why a call failed.
#[derive(Debug, Clone, Copy, PartialEq, Eq, Structural)]
pub enum CutError {
    /// An option other than `-b`, `-c`, `-f`, `-d`, `-s`, `-n`.
    UnknownOption,
    /// `-b`, `-c`, `-f` or `-d` stood last, with no value after it.
    MissingValue,
    /// No selection list was given.
    NoList,
    /// A malformed selection list: an empty item, a zero position, a
    /// backwards range, or a position at or above 2^32.
    BadList,
    /// A delimiter that is not exactly one character.
    BadDelim,
}

/// Whether the 1-based position `p` is selected by any range.
pub open spec fn selected(rs: Seq<CutRange>, p: int) -> bool {
    exists|k: int| 0 <= k < rs.len() && (#[trigger] rs[k]).lo <= p <= rs[k].hi
}

/// Whether one single range covers both positions `q` and `p`; ranges
/// are contiguous, so this decides whether the two stand in the same
/// merged stretch of the selection.
pub open spec fn joined(rs: Seq<CutRange>, q: int, p: int) -> bool {
    exists|k: int|
        0 <= k < rs.len() && (#[trigger] rs[k]).lo <= q && p <= rs[k].hi && rs[k].lo <= p && q
            <= rs[k].hi
}

/// Cuts one line in byte or character mode, walking 0-based position
/// `i` with `last` the 0-based position of the previously selected
/// character (-1 for none).  The output delimiter `od` goes between
/// selected characters that no single range joins.
pub open spec fn cut_chars_rec(
    line: Seq<char>,
    rs: Seq<CutRange>,
    od: Seq<char>,
    i: int,
    last: int,
) -> Seq<char>
    decreases line.len() - i,
{
    if i < 0 || i >= line.len() {
        Seq::empty()
    } else if selected(rs, i + 1) {
        (if last >= 0 && !joined(rs, last + 1, i + 1) {
            od
        } else {
            Seq::empty()
        }) + seq![line[i]] + cut_chars_rec(line, rs, od, i + 1, i)
    } else {
        cut_chars_rec(line, rs, od, i + 1, last)
    }
}

/// One line cut in byte or character mode.
pub open spec fn cut_chars_line(line: Seq<char>, rs: Seq<CutRange>, od: Seq<char>) -> Seq<
    char,
> {
    cut_chars_rec(line, rs, od, 0, -1)
}

/// The length of the prefix of `s` holding no `sep`.
pub open spec fn sep_free_len(s: Seq<char>, i: int, sep: char) -> nat
    decreases s.len() - i,
{
    if i < 0 || i >= s.len() || s[i] == sep {
        0
    } else {
        1 + sep_free_len(s, i + 1, sep)
    }
}

/// Splits `s` on `sep`; a trailing separator yields a final empty
/// piece.
pub open spec fn split_sep(s: Seq<char>, sep: char) -> Seq<Seq<char>>
    decreases s.len(),
{
    let k = sep_free_len(s, 0, sep) as int;
    if k >= s.len() {
        seq![s]
    } else {
        seq![s.take(k)] + split_sep(s.skip(k + 1), sep)
    }
}

/// The lines of a text: pieces between newlines, with no final empty
/// piece for a text that ends in a newline.
pub open spec fn split_lines(s: Seq<char>) -> Seq<Seq<char>> {
    if s.len() == 0 {
        Seq::empty()
    } else {
        let ls = split_sep(s, '\n');
        if ls.last().len() == 0 {
            ls.drop_last()
        } else {
            ls
        }
    }
}

/// Joins the selected fields (1-based index `j` on) with the
/// delimiter; `first` records whether nothing has been written yet.
pub open spec fn join_selected(
    fields: Seq<Seq<char>>,
    rs: Seq<CutRange>,
    d: char,
    j: int,
    first: bool,
) -> Seq<char>
    decreases fields.len() + 1 - j,
{
    if j < 1 || j > fields.len() {
        Seq::empty()
    } else if selected(rs, j) {
        (if first {
            Seq::empty()
        } else {
            seq![d]
        }) + fields[j - 1] + join_selected(fields, rs, d, j + 1, false)
    } else {
        join_selected(fields, rs, d, j + 1, first)
    }
}

/// One line cut in field mode: a line without the delimiter passes
/// whole, or is dropped under `-s`; otherwise the selected fields are
/// joined with the delimiter.  `None` means the line produces no
/// output at all, not even a newline.
pub open spec fn cut_fields_line(
    line: Seq<char>,
    rs: Seq<CutRange>,
    d: char,
    suppress: bool,
) -> Option<Seq<char>> {
    let fields = split_sep(line, d);
    if fields.len() <= 1 {
        if suppress {
            None
        } else {
            Some(line)
        }
    } else {
        Some(join_selected(fields, rs, d, 1, true))
    }
}

/// What one line contributes to the output.
pub open spec fn cut_one_line(
    line: Seq<char>,
    mode: CutMode,
    rs: Seq<CutRange>,
    d: Option<char>,
    suppress: bool,
) -> Seq<char> {
    if mode == CutMode::Fields {
        let dc = match d {
            Some(c) => c,
            None => '\t',
        };
        match cut_fields_line(line, rs, dc, suppress) {
            Some(out) => out.push('\n'),
            None => Seq::empty(),
        }
    } else {
        let od = match d {
            Some(c) => seq![c],
            None => Seq::empty(),
        };
        cut_chars_line(line, rs, od).push('\n')
    }
}

/// The output for the first `n` lines.
pub open spec fn cut_lines(
    lines: Seq<Seq<char>>,
    n: int,
    mode: CutMode,
    rs: Seq<CutRange>,
    d: Option<char>,
    suppress: bool,
) -> Seq<char>
    decreases n,
{
    if n <= 0 {
        Seq::empty()
    } else {
        cut_lines(lines, n - 1, mode, rs, d, suppress) + cut_one_line(
            lines[n - 1],
            mode,
            rs,
            d,
            suppress,
        )
    }
}

} // verus!

verus! {

use crate::tr::dec_val;
use crate::tr::lemma_val_prefix_le;
use crate::tr::spec_is_digit;

/// The views of a list of character vectors.
pub open spec fn views(vs: Seq<Vec<char>>) -> Seq<Seq<char>> {
    vs.map(|i: int, v: Vec<char>| v@)
}

/// A non-empty, all-digit piece.
pub open spec fn all_digits(s: Seq<char>) -> bool {
    forall|k: int| 0 <= k < s.len() ==> spec_is_digit(#[trigger] s[k])
}

/// A position value acceptable in a list: decimal, at least one and
/// below 2^32.
pub open spec fn pos_ok(s: Seq<char>) -> bool {
    s.len() > 0 && all_digits(s) && 1 <= dec_val(s) < 0x1_0000_0000
}

/// Reads one list item: `N`, `N-`, `N-M` or `-M`.
pub open spec fn parse_item(piece: Seq<char>) -> Result<CutRange, CutError> {
    let k = sep_free_len(piece, 0, '-') as int;
    if k >= piece.len() {
        if pos_ok(piece) {
            Ok(CutRange { lo: dec_val(piece) as u64, hi: dec_val(piece) as u64 })
        } else {
            Err(CutError::BadList)
        }
    } else {
        let left = piece.take(k);
        let right = piece.skip(k + 1);
        if left.len() == 0 && pos_ok(right) {
            Ok(CutRange { lo: 1, hi: dec_val(right) as u64 })
        } else if right.len() == 0 && pos_ok(left) {
            Ok(CutRange { lo: dec_val(left) as u64, hi: 0xFFFF_FFFF_FFFF_FFFF })
        } else if pos_ok(left) && pos_ok(right) && dec_val(left) <= dec_val(right) {
            Ok(CutRange { lo: dec_val(left) as u64, hi: dec_val(right) as u64 })
        } else {
            Err(CutError::BadList)
        }
    }
}

/// Reads the first `n` comma-separated items of a list.
pub open spec fn parse_items(pieces: Seq<Seq<char>>, n: int) -> Result<Seq<CutRange>, CutError>
    decreases n,
{
    if n <= 0 {
        Ok(Seq::empty())
    } else {
        match parse_items(pieces, n - 1) {
            Err(e) => Err(e),
            Ok(rs) => match parse_item(pieces[n - 1]) {
                Err(e) => Err(e),
                Ok(r) => Ok(rs.push(r)),
            },
        }
    }
}

/// Reads a whole selection list.
pub open spec fn parse_list(cs: Seq<char>) -> Result<Seq<CutRange>, CutError> {
    let pieces = split_sep(cs, ',');
    parse_items(pieces, pieces.len() as int)
}

/// The option state a scan builds: mode and its list, the delimiter
/// argument, and the suppress flag.
pub open spec fn spec_cut_args(
    args: Seq<Seq<char>>,
    i: int,
    st: (Option<(CutMode, Seq<char>)>, Option<Seq<char>>, bool),
) -> Result<(Option<(CutMode, Seq<char>)>, Option<Seq<char>>, bool), CutError>
    decreases args.len() - i,
{
    if i < 0 || i >= args.len() {
        Ok(st)
    } else {
        let a = args[i];
        if a == seq!['-', 'b'] {
            if i + 1 >= args.len() {
                Err(CutError::MissingValue)
            } else {
                spec_cut_args(args, i + 2, (Some((CutMode::Bytes, args[i + 1])), st.1, st.2))
            }
        } else if a == seq!['-', 'c'] {
            if i + 1 >= args.len() {
                Err(CutError::MissingValue)
            } else {
                spec_cut_args(args, i + 2, (Some((CutMode::Chars, args[i + 1])), st.1, st.2))
            }
        } else if a == seq!['-', 'f'] {
            if i + 1 >= args.len() {
                Err(CutError::MissingValue)
            } else {
                spec_cut_args(args, i + 2, (Some((CutMode::Fields, args[i + 1])), st.1, st.2))
            }
        } else if a == seq!['-', 'd'] {
            if i + 1 >= args.len() {
                Err(CutError::MissingValue)
            } else {
                spec_cut_args(args, i + 2, (st.0, Some(args[i + 1]), st.2))
            }
        } else if a == seq!['-', 's'] {
            spec_cut_args(args, i + 1, (st.0, st.1, true))
        } else if a == seq!['-', 'n'] {
            spec_cut_args(args, i + 1, st)
        } else if a == seq!['-', '-'] {
            Ok(st)
        } else if a.len() > 1 && a[0] == '-' {
            Err(CutError::UnknownOption)
        } else {
            spec_cut_args(args, i + 1, st)
        }
    }
}

/// What a `cut` call produces for given arguments and input text.
pub open spec fn spec_cut_run(args: Seq<Seq<char>>, input: Seq<char>) -> Result<
    Seq<char>,
    CutError,
> {
    match spec_cut_args(args, 0, (None, None, false)) {
        Err(e) => Err(e),
        Ok((modelist, delim, suppress)) => match modelist {
            None => Err(CutError::NoList),
            Some((mode, list)) => {
                let dc = match delim {
                    None => Ok(None),
                    Some(ds) => if ds.len() == 1 {
                        Ok(Some(ds[0]))
                    } else {
                        Err(CutError::BadDelim)
                    },
                };
                match dc {
                    Err(e) => Err(e),
                    Ok(d) => match parse_list(list) {
                        Err(e) => Err(e),
                        Ok(rs) => {
                            let lines = split_lines(input);
                            Ok(cut_lines(lines, lines.len() as int, mode, rs, d, suppress))
                        },
                    },
                }
            },
        },
    }
}

} // verus!

verus! {

/// Appends all characters of `src`.
fn push_all(out: &mut Vec<char>, src: &Vec<char>)
    ensures
        final(out)@ == old(out)@ + src@,
{
    let mut t: usize = 0;
    while t < src.len()
        invariant
            t <= src@.len(),
            out@ == old(out)@ + src@.take(t as int),
        decreases src@.len() - t,
    {
        out.push(src[t]);
        t = t + 1;
        assert(out@ =~= old(out)@ + src@.take(t as int));
    }
    assert(out@ =~= old(out)@ + src@);
}

/// Whether position `p` is selected, executably.
fn selected_exec(rs: &Vec<CutRange>, p: u64) -> (r: bool)
    ensures
        r == selected(rs@, p as int),
{
    let mut k: usize = 0;
    while k < rs.len()
        invariant
            k <= rs@.len(),
            forall|t: int| 0 <= t < k ==> !((#[trigger] rs@[t]).lo <= p <= rs@[t].hi),
        decreases rs@.len() - k,
    {
        let r = rs[k];
        if r.lo <= p && p <= r.hi {
            assert(rs@[k as int].lo <= p <= rs@[k as int].hi);
            return true;
        }
        k = k + 1;
    }
    false
}

/// Whether one range joins positions `q` and `p`, executably.
fn joined_exec(rs: &Vec<CutRange>, q: u64, p: u64) -> (r: bool)
    ensures
        r == joined(rs@, q as int, p as int),
{
    let mut k: usize = 0;
    while k < rs.len()
        invariant
            k <= rs@.len(),
            forall|t: int|
                0 <= t < k ==> !((#[trigger] rs@[t]).lo <= q && p <= rs@[t].hi && rs@[t].lo
                    <= p && q <= rs@[t].hi),
        decreases rs@.len() - k,
    {
        let r = rs[k];
        if r.lo <= q && p <= r.hi && r.lo <= p && q <= r.hi {
            assert(rs@[k as int].lo <= q && p <= rs@[k as int].hi && rs@[k as int].lo <= p
                && q <= rs@[k as int].hi);
            return true;
        }
        k = k + 1;
    }
    false
}

/// The prefix of `s` from `pos` without `sep` ends here.
proof fn lemma_sep_free_skip(s: Seq<char>, pos: int, i: int, sep: char)
    requires
        0 <= pos,
        0 <= i,
        pos + i <= s.len(),
    ensures
        sep_free_len(s.skip(pos), i, sep) == sep_free_len(s, pos + i, sep),
    decreases s.len() - pos - i,
{
    if pos + i < s.len() {
        assert(s.skip(pos)[i] == s[pos + i]);
        if s[pos + i] != sep {
            lemma_sep_free_skip(s, pos, i + 1, sep);
        }
    }
}

/// Splits on a separator, keeping a final empty piece after a trailing
/// separator.
pub fn split_sep_exec(s: &Vec<char>, sep: char) -> (r: Vec<Vec<char>>)
    ensures
        views(r@) == split_sep(s@, sep),
{
    let mut pieces: Vec<Vec<char>> = Vec::new();
    let mut pos: usize = 0;
    let mut done = false;
    proof {
        assert(s@.skip(0) =~= s@);
        assert(views(pieces@) + split_sep(s@, sep) =~= split_sep(s@, sep));
    }
    while !done
        invariant
            pos <= s@.len(),
            !done ==> split_sep(s@, sep) == views(pieces@) + split_sep(
                s@.skip(pos as int),
                sep,
            ),
            done ==> views(pieces@) == split_sep(s@, sep),
        decreases s@.len() - pos + (if done {
            0int
        } else {
            1int
        }),
    {
        let mut k: usize = pos;
        while k < s.len() && s[k] != sep
            invariant
                pos <= k <= s@.len(),
                sep_free_len(s@, pos as int, sep) == k - pos + sep_free_len(
                    s@,
                    k as int,
                    sep,
                ),
            decreases s@.len() - k,
        {
            k = k + 1;
        }
        proof {
            lemma_sep_free_skip(s@, pos as int, 0, sep);
        }
        let mut piece: Vec<char> = Vec::new();
        let mut t: usize = pos;
        assert(piece@ =~= s@.subrange(pos as int, pos as int));
        while t < k
            invariant
                pos <= t <= k <= s@.len(),
                piece@ == s@.subrange(pos as int, t as int),
            decreases k - t,
        {
            piece.push(s[t]);
            proof {
                assert(s@.subrange(pos as int, t as int + 1) =~= s@.subrange(
                    pos as int,
                    t as int,
                ).push(s@[t as int]));
            }
            t = t + 1;
        }
        let ghost oldviews = views(pieces@);
        let ghost rem = s@.skip(pos as int);
        if k >= s.len() {
            proof {
                assert(piece@ =~= rem);
            }
            pieces.push(piece);
            done = true;
            proof {
                assert(views(pieces@) =~= oldviews.push(rem));
                assert(split_sep(rem, sep) == seq![rem]);
                assert(oldviews.push(rem) =~= oldviews + seq![rem]);
            }
        } else {
            let ghost kp = k - pos as int;
            proof {
                assert(piece@ =~= rem.take(kp));
                assert(rem.skip(kp + 1) =~= s@.skip(k + 1));
            }
            pieces.push(piece);
            pos = k + 1;
            proof {
                assert(views(pieces@) =~= oldviews.push(rem.take(kp)));
                assert(oldviews + (seq![rem.take(kp)] + split_sep(
                    s@.skip(pos as int),
                    sep,
                )) =~= views(pieces@) + split_sep(s@.skip(pos as int), sep));
            }
        }
    }
    pieces
}

/// The lines of a text.
fn split_lines_exec(s: &Vec<char>) -> (r: Vec<Vec<char>>)
    ensures
        views(r@) == split_lines(s@),
{
    if s.len() == 0 {
        let r: Vec<Vec<char>> = Vec::new();
        assert(views(r@) =~= split_lines(s@));
        return r;
    }
    let mut ls = split_sep_exec(s, '\n');
    proof {
        assert(views(ls@).len() == ls@.len());
        assert(split_sep(s@, '\n').len() >= 1);
    }
    assert(ls@.len() > 0);
    if ls[ls.len() - 1].len() == 0 {
        proof {
            assert(views(ls@).last().len() == 0);
        }
        let ghost before = views(ls@);
        ls.pop();
        assert(views(ls@) =~= before.drop_last());
    }
    ls
}

/// Cuts one line in byte or character mode.
fn cut_chars_exec(line: &Vec<char>, rs: &Vec<CutRange>, od: &Vec<char>) -> (r: Vec<char>)
    ensures
        r@ == cut_chars_line(line@, rs@, od@),
{
    let mut out: Vec<char> = Vec::new();
    let mut i: usize = 0;
    let mut has_last = false;
    let mut last: usize = 0;
    proof {
        assert(Seq::<char>::empty() + cut_chars_rec(line@, rs@, od@, 0, -1)
            =~= cut_chars_rec(line@, rs@, od@, 0, -1));
    }
    while i < line.len()
        invariant
            i <= line@.len(),
            has_last ==> last < i,
            cut_chars_line(line@, rs@, od@) == out@ + cut_chars_rec(
                line@,
                rs@,
                od@,
                i as int,
                if has_last {
                    last as int
                } else {
                    -1
                },
            ),
        decreases line@.len() - i,
    {
        let ghost glast: int = if has_last {
            last as int
        } else {
            -1
        };
        let ghost out0 = out@;
        if selected_exec(rs, i as u64 + 1) {
            let ghost sepadd: Seq<char> = if glast >= 0 && !joined(
                rs@,
                glast + 1,
                i as int + 1,
            ) {
                od@
            } else {
                Seq::<char>::empty()
            };
            if has_last && !joined_exec(rs, last as u64 + 1, i as u64 + 1) {
                push_all(&mut out, od);
            }
            out.push(line[i]);
            has_last = true;
            last = i;
            proof {
                assert(out@ =~= out0 + sepadd + seq![line@[i as int]]);
                assert(cut_chars_rec(line@, rs@, od@, i as int, glast) == sepadd + seq![
                    line@[i as int],
                ] + cut_chars_rec(line@, rs@, od@, i as int + 1, i as int));
                assert(out0 + (sepadd + seq![line@[i as int]] + cut_chars_rec(
                    line@,
                    rs@,
                    od@,
                    i as int + 1,
                    i as int,
                )) =~= out@ + cut_chars_rec(line@, rs@, od@, i as int + 1, i as int));
            }
        }
        i = i + 1;
    }
    out
}

/// Joins the selected fields with the delimiter.
fn join_selected_exec(fields: &Vec<Vec<char>>, rs: &Vec<CutRange>, d: char) -> (r: Vec<
    char,
>)
    ensures
        r@ == join_selected(views(fields@), rs@, d, 1, true),
{
    let mut out: Vec<char> = Vec::new();
    let mut jj: usize = 0;
    let mut first = true;
    proof {
        assert(Seq::<char>::empty() + join_selected(views(fields@), rs@, d, 1, true)
            =~= join_selected(views(fields@), rs@, d, 1, true));
    }
    while jj < fields.len()
        invariant
            jj <= fields@.len(),
            join_selected(views(fields@), rs@, d, 1, true) == out@ + join_selected(
                views(fields@),
                rs@,
                d,
                jj + 1 as int,
                first,
            ),
        decreases fields@.len() - jj,
    {
        let ghost out0 = out@;
        let ghost f = views(fields@);
        if selected_exec(rs, (jj + 1) as u64) {
            let ghost sepadd: Seq<char> = if first {
                Seq::<char>::empty()
            } else {
                seq![d]
            };
            if !first {
                out.push(d);
            }
            push_all(&mut out, &fields[jj]);
            proof {
                assert(fields@[jj as int]@ == f[jj as int]);
                assert(out@ =~= out0 + sepadd + f[jj as int]);
                assert(join_selected(f, rs@, d, jj + 1 as int, first) == sepadd + f[jj as int] + join_selected(f, rs@, d, jj + 2 as int, false));
                assert(out0 + (sepadd + f[jj as int] + join_selected(
                    f,
                    rs@,
                    d,
                    jj + 2 as int,
                    false,
                )) =~= out@ + join_selected(f, rs@, d, jj + 2 as int, false));
            }
            first = false;
        }
        jj = jj + 1;
    }
    out
}

} // verus!

verus! {

/// Reads one decimal position out of `piece[s..k]`.
fn parse_pos(piece: &Vec<char>, s: usize, k: usize) -> (r: Result<u64, CutError>)
    requires
        s <= k <= piece@.len(),
    ensures
        match r {
            Ok(v) => pos_ok(piece@.subrange(s as int, k as int)) && v == dec_val(
                piece@.subrange(s as int, k as int),
            ),
            Err(e) => e == CutError::BadList && !pos_ok(
                piece@.subrange(s as int, k as int),
            ),
        },
{
    let ghost ds = piece@.subrange(s as int, k as int);
    if s == k {
        return Err(CutError::BadList);
    }
    let mut v: u64 = 0;
    let mut idx: usize = s;
    while idx < k
        invariant
            s <= idx <= k <= piece@.len(),
            ds == piece@.subrange(s as int, k as int),
            all_digits(ds.take(idx - s)),
            v == dec_val(ds.take(idx - s)),
            v < 0x1_0000_0000,
        decreases k - idx,
    {
        let c = piece[idx];
        let cv = c as u32;
        if cv < 48 || cv > 57 {
            assert(!spec_is_digit(ds[idx - s]));
            assert(!all_digits(ds));
            return Err(CutError::BadList);
        }
        proof {
            assert(ds.take(idx + 1 - s).drop_last() =~= ds.take(idx - s));
            assert(ds.take(idx + 1 - s).last() == ds[idx - s]);
        }
        let v2: u64 = v * 10 + (cv - 48) as u64;
        if v2 >= 0x1_0000_0000 {
            proof {
                lemma_val_prefix_le(ds, idx + 1 - s);
            }
            assert(dec_val(ds) >= v2);
            return Err(CutError::BadList);
        }
        v = v2;
        assert(all_digits(ds.take(idx + 1 - s)));
        idx = idx + 1;
    }
    assert(ds.take(k - s) =~= ds);
    if v == 0 {
        return Err(CutError::BadList);
    }
    Ok(v)
}

/// Reads one list item.
fn parse_item_exec(piece: &Vec<char>) -> (r: Result<CutRange, CutError>)
    ensures
        match r {
            Ok(cr) => parse_item(piece@) == Ok::<CutRange, CutError>(cr),
            Err(e) => parse_item(piece@) == Err::<CutRange, CutError>(e),
        },
{
    let mut k: usize = 0;
    while k < piece.len() && piece[k] != '-'
        invariant
            k <= piece@.len(),
            sep_free_len(piece@, 0, '-') == k + sep_free_len(piece@, k as int, '-'),
        decreases piece@.len() - k,
    {
        k = k + 1;
    }
    if k >= piece.len() {
        proof {
            assert(piece@.subrange(0, piece@.len() as int) =~= piece@);
        }
        match parse_pos(piece, 0, k) {
            Ok(v) => Ok(CutRange { lo: v, hi: v }),
            Err(e) => Err(e),
        }
    } else {
        let ghost left = piece@.take(k as int);
        let ghost right = piece@.skip(k + 1);
        proof {
            assert(piece@.subrange(0, k as int) =~= left);
            assert(piece@.subrange(k + 1, piece@.len() as int) =~= right);
        }
        if k == 0 {
            match parse_pos(piece, k + 1, piece.len()) {
                Ok(v) => Ok(CutRange { lo: 1, hi: v }),
                Err(e) => Err(e),
            }
        } else if k + 1 == piece.len() {
            match parse_pos(piece, 0, k) {
                Ok(v) => Ok(CutRange { lo: v, hi: 0xFFFF_FFFF_FFFF_FFFF }),
                Err(e) => Err(e),
            }
        } else {
            let lo = match parse_pos(piece, 0, k) {
                Ok(v) => v,
                Err(e) => {
                    return Err(e);
                },
            };
            let hi = match parse_pos(piece, k + 1, piece.len()) {
                Ok(v) => v,
                Err(e) => {
                    return Err(e);
                },
            };
            if lo <= hi {
                Ok(CutRange { lo, hi })
            } else {
                Err(CutError::BadList)
            }
        }
    }
}

/// Reads a whole selection list.
fn parse_list_exec(cs: &Vec<char>) -> (r: Result<Vec<CutRange>, CutError>)
    ensures
        match r {
            Ok(rs) => parse_list(cs@) == Ok::<Seq<CutRange>, CutError>(rs@),
            Err(e) => parse_list(cs@) == Err::<Seq<CutRange>, CutError>(e),
        },
{
    let pieces = split_sep_exec(cs, ',');
    let ghost pv = views(pieces@);
    let mut rs: Vec<CutRange> = Vec::new();
    let mut i: usize = 0;
    proof {
        assert(pv.len() == pieces@.len());
    }
    while i < pieces.len()
        invariant
            i <= pieces@.len(),
            pv == views(pieces@),
            pv.len() == pieces@.len(),
            split_sep(cs@, ',') == pv,
            parse_items(pv, i as int) == Ok::<Seq<CutRange>, CutError>(rs@),
        decreases pieces@.len() - i,
    {
        assert(pieces@[i as int]@ == pv[i as int]);
        match parse_item_exec(&pieces[i]) {
            Ok(cr) => {
                rs.push(cr);
            },
            Err(e) => {
                assert(parse_items(pv, i + 1 as int) == Err::<Seq<CutRange>, CutError>(e));
                proof {
                    lemma_parse_items_err(pv, i + 1 as int, pv.len() as int, e);
                    assert(split_sep(cs@, ',') == pv);
                    assert(parse_list(cs@) == parse_items(pv, pv.len() as int));
                }
                return Err(e);
            },
        }
        i = i + 1;
    }
    proof {
        assert(split_sep(cs@, ',') == pv);
        assert(parse_list(cs@) == parse_items(pv, pv.len() as int));
    }
    Ok(rs)
}

/// An error in some prefix of the items decides the whole list.
proof fn lemma_parse_items_err(pieces: Seq<Seq<char>>, n: int, m: int, e: CutError)
    requires
        0 <= n <= m,
        parse_items(pieces, n) == Err::<Seq<CutRange>, CutError>(e),
    ensures
        parse_items(pieces, m) == Err::<Seq<CutRange>, CutError>(e),
    decreases m - n,
{
    if n < m {
        lemma_parse_items_err(pieces, n + 1, m, e);
    }
}

} // verus!

verus! {

/// The spec-level image of the executable option state.
pub open spec fn st_model(
    mode: Option<(CutMode, Vec<char>)>,
    delim: Option<Vec<char>>,
    suppress: bool,
) -> (Option<(CutMode, Seq<char>)>, Option<Seq<char>>, bool) {
    (
        match mode {
            None => None,
            Some((m, l)) => Some((m, l@)),
        },
        match delim {
            None => None,
            Some(d) => Some(d@),
        },
        suppress,
    )
}

/// Whether `ac` is exactly the two characters `-x`.
fn is_dash(ac: &Vec<char>, x: char) -> (r: bool)
    ensures
        r == (ac@ == seq!['-', x]),
{
    let r = ac.len() == 2 && ac[0] == '-' && ac[1] == x;
    proof {
        if r {
            assert(ac@ =~= seq!['-', x]);
        }
    }
    r
}

/// Runs the whole filter: scans the options, reads the selection list,
/// and cuts the input line by line.
#[verifier::rlimit(60)]
pub fn cut_run(args: &Vec<String>, input: &str) -> (r: Result<String, CutError>)
    ensures
        match r {
            Ok(out) => spec_cut_run(args.deep_view(), input@) == Ok::<Seq<char>, CutError>(
                out@,
            ),
            Err(e) => spec_cut_run(args.deep_view(), input@) == Err::<Seq<char>, CutError>(
                e,
            ),
        },
{
    let ghost dargs = args.deep_view();
    proof {
        assert forall|t: int| 0 <= t < args@.len() implies dargs[t] == args@[t]@ by {
            assert(dargs[t] == args@[t].deep_view());
        }
        assert(dargs.len() == args@.len());
    }
    let mut mode: Option<(CutMode, Vec<char>)> = None;
    let mut delim: Option<Vec<char>> = None;
    let mut suppress = false;
    let mut i: usize = 0;
    let mut scanning = true;
    while scanning && i < args.len()
        invariant
            i <= args@.len(),
            dargs == args.deep_view(),
            dargs.len() == args@.len(),
            forall|t: int| 0 <= t < args@.len() ==> dargs[t] == #[trigger] args@[t]@,
            scanning ==> spec_cut_args(dargs, 0, (None, None, false)) == spec_cut_args(
                dargs,
                i as int,
                st_model(mode, delim, suppress),
            ),
            !scanning ==> spec_cut_args(dargs, 0, (None, None, false)) == Ok::<
                (Option<(CutMode, Seq<char>)>, Option<Seq<char>>, bool),
                CutError,
            >(st_model(mode, delim, suppress)),
        decreases args@.len() - i + (if scanning {
            1int
        } else {
            0int
        }),
    {
        let ac = chars_of(args[i].as_str());
        assert(ac@ == dargs[i as int]);
        if is_dash(&ac, 'b') || is_dash(&ac, 'c') || is_dash(&ac, 'f') {
            let m = if is_dash(&ac, 'b') {
                CutMode::Bytes
            } else if is_dash(&ac, 'c') {
                CutMode::Chars
            } else {
                CutMode::Fields
            };
            if i + 1 >= args.len() {
                return Err(CutError::MissingValue);
            }
            let lv = chars_of(args[i + 1].as_str());
            assert(lv@ == dargs[i as int + 1]);
            mode = Some((m, lv));
            i = i + 2;
        } else if is_dash(&ac, 'd') {
            if i + 1 >= args.len() {
                return Err(CutError::MissingValue);
            }
            let dv = chars_of(args[i + 1].as_str());
            assert(dv@ == dargs[i as int + 1]);
            delim = Some(dv);
            i = i + 2;
        } else if is_dash(&ac, 's') {
            suppress = true;
            i = i + 1;
        } else if is_dash(&ac, 'n') {
            i = i + 1;
        } else if is_dash(&ac, '-') {
            scanning = false;
        } else if ac.len() > 1 && ac[0] == '-' {
            return Err(CutError::UnknownOption);
        } else {
            i = i + 1;
        }
    }
    let (m, listv) = match mode {
        Some((m, l)) => (m, l),
        None => {
            return Err(CutError::NoList);
        },
    };
    let d: Option<char> = match &delim {
        None => None,
        Some(ds) => {
            if ds.len() == 1 {
                Some(ds[0])
            } else {
                return Err(CutError::BadDelim);
            }
        },
    };
    let rs = match parse_list_exec(&listv) {
        Ok(rs) => rs,
        Err(e) => {
            return Err(e);
        },
    };
    let inputv = chars_of(input);
    let lines = split_lines_exec(&inputv);
    let ghost lm = views(lines@);
    let mut out: Vec<char> = Vec::new();
    let mut li: usize = 0;
    proof {
        assert(lm.len() == lines@.len());
    }
    while li < lines.len()
        invariant
            li <= lines@.len(),
            lm == views(lines@),
            lm.len() == lines@.len(),
            out@ == cut_lines(lm, li as int, m, rs@, d, suppress),
            rs@ == rs@,
        decreases lines@.len() - li,
    {
        let line = &lines[li];
        assert(line@ == lm[li as int]);
        let ghost out0 = out@;
        match m {
            CutMode::Fields => {
                let dc = match d {
                    Some(c) => c,
                    None => '\t',
                };
                let fields = split_sep_exec(line, dc);
                proof {
                    assert(views(fields@).len() == fields@.len());
                }
                if fields.len() <= 1 {
                    if !suppress {
                        push_all(&mut out, line);
                        out.push('\n');
                        assert(out@ =~= out0 + cut_one_line(lm[li as int], m, rs@, d, suppress));
                    } else {
                        assert(out@ =~= out0 + cut_one_line(lm[li as int], m, rs@, d, suppress));
                    }
                } else {
                    let joined = join_selected_exec(&fields, &rs, dc);
                    push_all(&mut out, &joined);
                    out.push('\n');
                    assert(out@ =~= out0 + cut_one_line(lm[li as int], m, rs@, d, suppress));
                }
            },
            _ => {
                let odv: Vec<char> = match d {
                    Some(c) => {
                        let mut v: Vec<char> = Vec::new();
                        v.push(c);
                        assert(v@ =~= seq![c]);
                        v
                    },
                    None => Vec::new(),
                };
                let piece = cut_chars_exec(line, &rs, &odv);
                push_all(&mut out, &piece);
                out.push('\n');
                assert(out@ =~= out0 + cut_one_line(lm[li as int], m, rs@, d, suppress));
            },
        }
        li = li + 1;
    }
    Ok(crate::strings::string_of(&out))
}

} // verus!
