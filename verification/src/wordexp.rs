//! Word expansion results and field splitting.
//!
//! A word that has gone through tilde, parameter, command and arithmetic
//! expansion is an [`ExpandedWord`]: a sequence of tagged parts.  Only text
//! produced by an expansion (`GeneratedUnquotedLiteral`) is subject to field
//! splitting; literal and quoted text passes through unaltered.
//!
//! Contracts speak of a word's *model*: the sequence of `(tag, text)` pairs
//! returned by [`ExpandedWord::view`].

use vstd::prelude::*;

verus! {

use crate::strings::push_char;
use vstd::string::StringExecFns;

/// The provenance tag of one part, as contracts see it.
#[derive(Debug, Clone, Copy, PartialEq, Eq, Structural)]
pub enum PartTag {
    Quoted,
    Unquoted,
    Generated,
    FieldEnd,
}

/// One part of an expanded word.  The tag records where the text came
/// from, which decides whether field splitting may touch it.
#[derive(Debug, Clone, PartialEq, Eq)]
pub enum ExpandedWordPart {
    QuotedLiteral(String),
    UnquotedLiteral(String),
    GeneratedUnquotedLiteral(String),
    /// Terminates a field: a boundary fixed by quoting, kept no matter
    /// what the separator set holds.
    FieldEnd,
}

/// The `(tag, text)` model of one part.
pub open spec fn part_model(p: ExpandedWordPart) -> (PartTag, Seq<char>) {
    match p {
        ExpandedWordPart::QuotedLiteral(s) => (PartTag::Quoted, s@),
        ExpandedWordPart::UnquotedLiteral(s) => (PartTag::Unquoted, s@),
        ExpandedWordPart::GeneratedUnquotedLiteral(s) => (PartTag::Generated, s@),
        ExpandedWordPart::FieldEnd => (PartTag::FieldEnd, Seq::empty()),
    }
}

/// The model of a sequence of parts.
pub open spec fn parts_model(parts: Seq<ExpandedWordPart>) -> Seq<(PartTag, Seq<char>)> {
    parts.map(|i: int, p: ExpandedWordPart| part_model(p))
}

impl ExpandedWordPart {
    /// Tags `value` by provenance: quoted text stays exempt from later
    /// splitting, generated text is what splitting works on.
    pub fn new(value: String, quoted: bool, generated: bool) -> (r: Self)
        ensures
            part_model(r) == (new_part_tag(quoted, generated), value@),
    {
        if quoted {
            ExpandedWordPart::QuotedLiteral(value)
        } else if generated {
            ExpandedWordPart::GeneratedUnquotedLiteral(value)
        } else {
            ExpandedWordPart::UnquotedLiteral(value)
        }
    }
}

/// The tag `ExpandedWordPart::new` chooses for a pair of flags.
pub open spec fn new_part_tag(quoted: bool, generated: bool) -> PartTag {
    if quoted {
        PartTag::Quoted
    } else if generated {
        PartTag::Generated
    } else {
        PartTag::Unquoted
    }
}

/// A word that has undergone tilde, parameter, command-substitution and
/// arithmetic expansion, ready for field splitting.
#[derive(Default, Debug, Clone, PartialEq, Eq)]
pub struct ExpandedWord {
    pub parts: Vec<ExpandedWordPart>,
}

impl View for ExpandedWord {
    type V = Seq<(PartTag, Seq<char>)>;

    open spec fn view(&self) -> Seq<(PartTag, Seq<char>)> {
        parts_model(self.parts@)
    }
}

/// The model of a list of words, one model per word.
pub open spec fn words_model(ws: Seq<ExpandedWord>) -> Seq<Seq<(PartTag, Seq<char>)>> {
    ws.map(|i: int, w: ExpandedWord| w@)
}

/// Whether two adjacent parts may be merged into one: equal tags, and
/// field boundaries never merge.
pub open spec fn mergeable(a: PartTag, b: PartTag) -> bool {
    a == b && a != PartTag::FieldEnd
}

/// The normal form of a word model: adjacent parts with the same tag are
/// joined, so that every maximal run of same-tagged text is one part.
pub open spec fn norm_model(m: Seq<(PartTag, Seq<char>)>) -> Seq<(PartTag, Seq<char>)>
    decreases m.len(),
{
    if m.len() == 0 {
        Seq::empty()
    } else {
        let prev = norm_model(m.drop_last());
        let last = m.last();
        if prev.len() > 0 && mergeable(prev.last().0, last.0) {
            prev.update(prev.len() - 1, (last.0, prev.last().1 + last.1))
        } else {
            prev.push(last)
        }
    }
}

/// The text of a word when its parts are joined into one string.
pub open spec fn joined_text(m: Seq<(PartTag, Seq<char>)>) -> Seq<char>
    decreases m.len(),
{
    if m.len() == 0 {
        Seq::empty()
    } else {
        joined_text(m.drop_last()) + m.last().1
    }
}

/// True for the three characters that field splitting treats as
/// collapsing whitespace separators when they occur in the separator set.
pub open spec fn spec_is_ifs_whitespace(c: char) -> bool {
    c == ' ' || c == '\t' || c == '\n'
}

/// True if `c` is one of the separator characters.
pub open spec fn in_ifs(ifs: Seq<char>, c: char) -> bool {
    ifs.contains(c)
}

/// How many consecutive whitespace separator characters — whitespace
/// that is also in the separator set — stand at position `i`.
pub open spec fn ifs_ws_run_len(cs: Seq<char>, i: int, ifs: Seq<char>) -> nat
    decreases cs.len() - i,
{
    if i < 0 || i >= cs.len() || !spec_is_ifs_whitespace(cs[i]) || !in_ifs(ifs, cs[i]) {
        0
    } else {
        1 + ifs_ws_run_len(cs, i + 1, ifs)
    }
}

/// Where the whitespace-separator run that starts at `i` ends, held
/// inside the text.
pub open spec fn clamped_run_end(cs: Seq<char>, i: int, ifs: Seq<char>) -> int {
    let j = i + ifs_ws_run_len(cs, i, ifs);
    if j > cs.len() {
        cs.len() as int
    } else {
        j
    }
}

/// One step state of field splitting: the parts of the field being built
/// and the fields already produced.
pub open spec fn close_field(
    cur: Seq<(PartTag, Seq<char>)>,
    out: Seq<Seq<(PartTag, Seq<char>)>>,
) -> Seq<Seq<(PartTag, Seq<char>)>> {
    out.push(norm_model(cur))
}

/// Splits the characters of one generated part, starting at position `i`
/// with the unfinished run `acc`, extending field `cur` and the output
/// `out`.  A run of whitespace separators is one boundary and closes
/// only a field that has content, so whitespace opens no empty fields;
/// a non-whitespace separator always closes the current field, even an
/// empty one, so adjacent such separators preserve the empty fields
/// between them; whitespace separators around a non-whitespace one
/// belong to the same boundary.  Text that runs out with the last
/// field still open leaves it for the caller, who emits it only when
/// it has content — so a trailing separator adds no empty field.
pub open spec fn split_gen(
    cs: Seq<char>,
    i: int,
    ifs: Seq<char>,
    acc: Seq<char>,
    cur: Seq<(PartTag, Seq<char>)>,
    out: Seq<Seq<(PartTag, Seq<char>)>>,
) -> (Seq<(PartTag, Seq<char>)>, Seq<Seq<(PartTag, Seq<char>)>>)
    decreases cs.len() - i,
{
    if i < 0 || i >= cs.len() {
        (flush_acc(cur, acc), out)
    } else {
        let c = cs[i];
        if !in_ifs(ifs, c) {
            split_gen(cs, i + 1, ifs, acc.push(c), cur, out)
        } else if spec_is_ifs_whitespace(c) {
            let j = clamped_run_end(cs, i + 1, ifs);
            if acc.len() > 0 || cur.len() > 0 {
                let out2 = close_field(flush_acc(cur, acc), out);
                if j < cs.len() && in_ifs(ifs, cs[j]) && !spec_is_ifs_whitespace(cs[j]) {
                    let j2 = clamped_run_end(cs, j + 1, ifs);
                    split_gen(cs, j2, ifs, Seq::empty(), Seq::empty(), out2)
                } else {
                    split_gen(cs, j, ifs, Seq::empty(), Seq::empty(), out2)
                }
            } else {
                split_gen(cs, j, ifs, acc, cur, out)
            }
        } else {
            let out2 = close_field(flush_acc(cur, acc), out);
            let j = clamped_run_end(cs, i + 1, ifs);
            split_gen(cs, j, ifs, Seq::empty(), Seq::empty(), out2)
        }
    }
}

/// Adds the unfinished run to the open field, as an unquoted literal.
pub open spec fn flush_acc(
    cur: Seq<(PartTag, Seq<char>)>,
    acc: Seq<char>,
) -> Seq<(PartTag, Seq<char>)> {
    if acc.len() > 0 {
        cur.push((PartTag::Unquoted, acc))
    } else {
        cur
    }
}

/// Feeds one part of the normalized word to the splitter.  Literal and
/// quoted parts move to the open field untouched; a field boundary closes
/// the field (even an empty one); generated text is split by `ifs`.
pub open spec fn split_one_part(
    p: (PartTag, Seq<char>),
    ifs: Seq<char>,
    cur: Seq<(PartTag, Seq<char>)>,
    out: Seq<Seq<(PartTag, Seq<char>)>>,
) -> (Seq<(PartTag, Seq<char>)>, Seq<Seq<(PartTag, Seq<char>)>>) {
    if p.0 == PartTag::FieldEnd {
        (Seq::empty(), close_field(cur, out))
    } else if p.0 == PartTag::Generated {
        if p.1.len() == 0 {
            (cur, out)
        } else {
            split_gen(p.1, 0, ifs, Seq::empty(), cur, out)
        }
    } else {
        (cur.push(p), out)
    }
}

/// Feeds the first `n` parts of `m` to the splitter.
pub open spec fn split_parts(
    m: Seq<(PartTag, Seq<char>)>,
    n: int,
    ifs: Seq<char>,
) -> (Seq<(PartTag, Seq<char>)>, Seq<Seq<(PartTag, Seq<char>)>>)
    decreases n,
{
    if n <= 0 {
        (Seq::empty(), Seq::empty())
    } else {
        let prev = split_parts(m, n - 1, ifs);
        split_one_part(m[n - 1], ifs, prev.0, prev.1)
    }
}

/// The separator set in force: `IFS` when set, space-tab-newline when not.
pub open spec fn effective_ifs(ifs: Option<Seq<char>>) -> Seq<char> {
    match ifs {
        Some(s) => s,
        None => seq![' ', '\t', '\n'],
    }
}

/// What `split_fields` returns, over word models.  An empty word gives no
/// fields; an empty separator set disables splitting and returns the word
/// unaltered; otherwise the word is normalized and split part by part,
/// and a final open field is emitted if it is non-empty.
pub open spec fn spec_split_fields(
    m: Seq<(PartTag, Seq<char>)>,
    ifs: Option<Seq<char>>,
) -> Seq<Seq<(PartTag, Seq<char>)>> {
    if m.len() == 0 {
        Seq::empty()
    } else {
        let sep = effective_ifs(ifs);
        if sep.len() == 0 {
            seq![m]
        } else {
            let r = split_parts(norm_model(m), norm_model(m).len() as int, sep);
            if r.0.len() > 0 {
                close_field(r.0, r.1)
            } else {
                r.1
            }
        }
    }
}

/// The model of an optional separator string.
pub open spec fn ifs_model(ifs: Option<&str>) -> Option<Seq<char>> {
    match ifs {
        Some(s) => Some(s@),
        None => None,
    }
}

/// What `ExpandedWord::append` does to a word model: text joins the last
/// part when the tags agree, otherwise it opens a new part.
pub open spec fn append_model(
    m: Seq<(PartTag, Seq<char>)>,
    text: Seq<char>,
    quoted: bool,
    generated: bool,
) -> Seq<(PartTag, Seq<char>)> {
    let tag = new_part_tag(quoted, generated);
    if m.len() > 0 && m.last().0 == tag {
        m.update(m.len() - 1, (tag, m.last().1 + text))
    } else {
        m.push((tag, text))
    }
}

/// What `ExpandedWord::extend` does to a word model: the first part of
/// `other` joins the last part of `m` when the tags agree; the rest is
/// appended verbatim.
pub open spec fn extend_model(
    m: Seq<(PartTag, Seq<char>)>,
    other: Seq<(PartTag, Seq<char>)>,
) -> Seq<(PartTag, Seq<char>)> {
    if other.len() == 0 {
        m
    } else if m.len() == 0 {
        other
    } else if mergeable(m.last().0, other.first().0) {
        m.update(m.len() - 1, (m.last().0, m.last().1 + other.first().1)) + other.drop_first()
    } else {
        m + other
    }
}

/// The tag of a part, executably.
pub fn part_tag(p: &ExpandedWordPart) -> (r: PartTag)
    ensures
        r == part_model(*p).0,
{
    match p {
        ExpandedWordPart::QuotedLiteral(_) => PartTag::Quoted,
        ExpandedWordPart::UnquotedLiteral(_) => PartTag::Unquoted,
        ExpandedWordPart::GeneratedUnquotedLiteral(_) => PartTag::Generated,
        ExpandedWordPart::FieldEnd => PartTag::FieldEnd,
    }
}

/// A fresh part with the given tag and text.  A `FieldEnd` tag drops the
/// text, which `FieldEnd` parts never carry.
fn make_part(tag: PartTag, text: String) -> (r: ExpandedWordPart)
    ensures
        tag != PartTag::FieldEnd ==> part_model(r) == (tag, text@),
        tag == PartTag::FieldEnd ==> part_model(r) == (tag, Seq::<char>::empty()),
{
    match tag {
        PartTag::Quoted => ExpandedWordPart::QuotedLiteral(text),
        PartTag::Unquoted => ExpandedWordPart::UnquotedLiteral(text),
        PartTag::Generated => ExpandedWordPart::GeneratedUnquotedLiteral(text),
        PartTag::FieldEnd => ExpandedWordPart::FieldEnd,
    }
}

/// The text of a part, cloned.
pub fn part_text_pub(p: &ExpandedWordPart) -> (r: String)
    ensures
        r@ == part_model(*p).1,
{
    part_text(p)
}

/// The text of a part, cloned.
fn part_text(p: &ExpandedWordPart) -> (r: String)
    ensures
        r@ == part_model(*p).1,
{
    match p {
        ExpandedWordPart::QuotedLiteral(s) => s.clone(),
        ExpandedWordPart::UnquotedLiteral(s) => s.clone(),
        ExpandedWordPart::GeneratedUnquotedLiteral(s) => s.clone(),
        ExpandedWordPart::FieldEnd => String::new(),
    }
}

impl ExpandedWord {
    /// A word of one unquoted literal part; used by tests and callers
    /// that start from plain text.
    pub fn unquoted_literal(s: &str) -> (r: Self)
        ensures
            r@ == seq![(PartTag::Unquoted, s@)],
    {
        let parts = vec![ExpandedWordPart::UnquotedLiteral(s.to_owned())];
        let r = ExpandedWord { parts };
        assert(r@ =~= seq![(PartTag::Unquoted, s@)]);
        r
    }

    /// A word of one quoted literal part.
    pub fn quoted_literal(s: &str) -> (r: Self)
        ensures
            r@ == seq![(PartTag::Quoted, s@)],
    {
        let parts = vec![ExpandedWordPart::QuotedLiteral(s.to_owned())];
        let r = ExpandedWord { parts };
        assert(r@ =~= seq![(PartTag::Quoted, s@)]);
        r
    }

    /// A word of one expansion-generated part.
    pub fn generated_unquoted_literal(s: &str) -> (r: Self)
        ensures
            r@ == seq![(PartTag::Generated, s@)],
    {
        let parts = vec![ExpandedWordPart::GeneratedUnquotedLiteral(s.to_owned())];
        let r = ExpandedWord { parts };
        assert(r@ =~= seq![(PartTag::Generated, s@)]);
        r
    }

    /// A word made of the given parts.
    pub fn from_parts(parts: Vec<ExpandedWordPart>) -> (r: Self)
        ensures
            r@ == parts_model(parts@),
    {
        ExpandedWord { parts }
    }

    /// The word joined into one string, field boundaries contributing
    /// nothing.
    pub fn to_string(&self) -> (r: String)
        ensures
            r@ == joined_text(self@),
    {
        let mut r = String::new();
        let mut i: usize = 0;
        while i < self.parts.len()
            invariant
                i <= self.parts@.len(),
                r@ == joined_text(self@.take(i as int)),
            decreases self.parts@.len() - i,
        {
            let t = part_text(&self.parts[i]);
            r.append(t.as_str());
            i = i + 1;
            assert(self@.take(i as int).drop_last() =~= self@.take(i as int - 1));
            assert(self@.take(i as int).last() == part_model(self.parts@[i as int - 1]));
        }
        assert(self@.take(self.parts@.len() as int) =~= self@);
        r
    }

    /// Joins adjacent parts that carry the same tag.
    pub fn normalize(self) -> (r: Self)
        ensures
            r@ == norm_model(self@),
    {
        let mut merged: Vec<ExpandedWordPart> = Vec::new();
        let mut i: usize = 0;
        while i < self.parts.len()
            invariant
                i <= self.parts@.len(),
                parts_model(merged@) == norm_model(self@.take(i as int)),
            decreases self.parts@.len() - i,
        {
            let p = &self.parts[i];
            let tag = part_tag(p);
            let ghost pre = norm_model(self@.take(i as int));
            let merge_last = if merged.len() > 0 && !matches!(tag, PartTag::FieldEnd) {
                part_tag(&merged[merged.len() - 1]) == tag
            } else {
                false
            };
            if merge_last {
                let last = merged.pop().unwrap();
                let mut text = part_text(&last);
                let t = part_text(p);
                text.append(t.as_str());
                merged.push(make_part(tag, text));
                assert(parts_model(merged@) =~= pre.update(
                    pre.len() - 1,
                    (tag, pre.last().1 + part_model(self.parts@[i as int]).1),
                ));
            } else {
                let text = part_text(p);
                merged.push(make_part(tag, text));
                assert(parts_model(merged@) =~= pre.push(part_model(self.parts@[i as int])));
            }
            i = i + 1;
            assert(self@.take(i as int).drop_last() =~= self@.take(i as int - 1));
        }
        assert(self@.take(self.parts@.len() as int) =~= self@);
        ExpandedWord { parts: merged }
    }

    /// Adds text to the word; it joins the final part when that part has
    /// the same provenance, and opens a new part otherwise.
    pub fn append(&mut self, value: &str, quoted: bool, generated: bool)
        ensures
            final(self)@ == append_model(old(self)@, value@, quoted, generated),
    {
        let ghost m = old(self)@;
        let tag = new_part_tag_exec(quoted, generated);
        let merge_last = if self.parts.len() > 0 {
            part_tag(&self.parts[self.parts.len() - 1]) == tag
        } else {
            false
        };
        if merge_last {
            let last = self.parts.pop().unwrap();
            let mut text = part_text(&last);
            text.append(value);
            let tag2 = part_tag_of_flags_nonfield(tag);
            self.parts.push(make_part(tag2, text));
            assert(parts_model(self.parts@) =~= m.update(
                m.len() - 1,
                (tag2, m.last().1 + value@),
            ));
        } else {
            self.parts.push(ExpandedWordPart::new(value.to_owned(), quoted, generated));
            assert(parts_model(self.parts@) =~= m.push((tag, value@)));
        }
    }

    /// Marks a field boundary fixed by quoting.
    pub fn end_field(&mut self)
        ensures
            final(self)@ == old(self)@.push((PartTag::FieldEnd, Seq::<char>::empty())),
    {
        let ghost m = old(self)@;
        self.parts.push(ExpandedWordPart::FieldEnd);
        assert(parts_model(self.parts@) =~= m.push((PartTag::FieldEnd, Seq::<char>::empty())));
    }

    /// Appends another expanded word; the seam merges when the adjacent
    /// parts carry the same tag.
    pub fn extend(&mut self, other: Self)
        ensures
            final(self)@ == extend_model(old(self)@, other@),
    {
        let ghost m = old(self)@;
        let ghost o = other@;
        let mut j: usize = 0;
        if other.parts.len() > 0 {
            let first = &other.parts[0];
            let ftag = part_tag(first);
            let merge_first = if self.parts.len() > 0 && !matches!(ftag, PartTag::FieldEnd) {
                part_tag(&self.parts[self.parts.len() - 1]) == ftag
            } else {
                false
            };
            if merge_first {
                let last = self.parts.pop().unwrap();
                let mut text = part_text(&last);
                let t = part_text(first);
                text.append(t.as_str());
                let tag2 = part_tag_of_flags_nonfield(ftag);
                self.parts.push(make_part(tag2, text));
                assert(parts_model(self.parts@) =~= m.update(
                    m.len() - 1,
                    (m.last().0, m.last().1 + o.first().1),
                ));
                j = 1;
            }
        }
        while j < other.parts.len()
            invariant
                j <= other.parts@.len(),
                o == parts_model(other.parts@),
                m == old(self)@,
                o.len() == 0 ==> parts_model(self.parts@) == m && j == 0,
                o.len() > 0 && m.len() > 0 && mergeable(m.last().0, o.first().0) ==> j >= 1
                    && parts_model(self.parts@) == m.update(
                    m.len() - 1,
                    (m.last().0, m.last().1 + o.first().1),
                ) + o.subrange(1, j as int),
                o.len() > 0 && !(m.len() > 0 && mergeable(m.last().0, o.first().0)) ==> (
                parts_model(self.parts@) == m + o.subrange(0, j as int)),
            decreases other.parts@.len() - j,
        {
            let tag = part_tag(&other.parts[j]);
            let text = part_text(&other.parts[j]);
            let ghost before = parts_model(self.parts@);
            self.parts.push(make_part(tag, text));
            proof {
                if part_model(other.parts@[j as int]).0 == PartTag::FieldEnd {
                    assert(part_model(other.parts@[j as int]).1 =~= Seq::<char>::empty());
                }
                assert(parts_model(self.parts@) =~= before.push(
                    part_model(other.parts@[j as int]),
                ));
            }
            j = j + 1;
            proof {
                if o.len() > 0 && m.len() > 0 && mergeable(m.last().0, o.first().0) {
                    assert(o.subrange(1, j as int) =~= o.subrange(1, j - 1 as int).push(
                        o[j - 1],
                    ));
                } else if o.len() > 0 {
                    assert(o.subrange(0, j as int) =~= o.subrange(0, j - 1 as int).push(
                        o[j - 1],
                    ));
                }
            }
        }
        proof {
            if o.len() == 0 {
            } else if m.len() > 0 && mergeable(m.last().0, o.first().0) {
                assert(o.subrange(1, o.len() as int) =~= o.drop_first());
            } else {
                assert(o.subrange(0, o.len() as int) =~= o);
            }
        }
    }
}

/// The executable tag choice matching `new_part_tag`.
pub fn new_part_tag_exec(quoted: bool, generated: bool) -> (r: PartTag)
    ensures
        r == new_part_tag(quoted, generated),
{
    if quoted {
        PartTag::Quoted
    } else if generated {
        PartTag::Generated
    } else {
        PartTag::Unquoted
    }
}

/// Passes a tag through, recording that it is not `FieldEnd`.
fn part_tag_of_flags_nonfield(tag: PartTag) -> (r: PartTag)
    requires
        tag != PartTag::FieldEnd,
    ensures
        r == tag,
{
    tag
}

/// True for the three characters that field splitting collapses.
pub fn is_ifs_whitespace(c: char) -> (r: bool)
    ensures
        r == spec_is_ifs_whitespace(c),
{
    c == ' ' || c == '\t' || c == '\n'
}

/// The end of the run of whitespace separator characters at position
/// `i` of `cs`, executably.
fn ifs_ws_run_end(cs: &Vec<char>, sepv: &Vec<char>, i: usize) -> (j: usize)
    requires
        i <= cs@.len(),
    ensures
        j == i + ifs_ws_run_len(cs@, i as int, sepv@),
        j <= cs@.len(),
{
    let mut j = i;
    while j < cs.len() && is_ifs_whitespace(cs[j]) && crate::strings::vec_contains_char(
        sepv,
        cs[j],
    )
        invariant
            i <= j <= cs@.len(),
            ifs_ws_run_len(cs@, i as int, sepv@) == j - i + ifs_ws_run_len(
                cs@,
                j as int,
                sepv@,
            ),
        decreases cs@.len() - j,
    {
        j = j + 1;
    }
    j
}

/// Splits one generated literal, carrying the field under construction
/// and the finished fields through.
fn split_generated(
    lit: &Vec<char>,
    sepv: &Vec<char>,
    cur: Vec<ExpandedWordPart>,
    out: Vec<ExpandedWord>,
) -> (r: (Vec<ExpandedWordPart>, Vec<ExpandedWord>))
    ensures
        (parts_model(r.0@), words_model(r.1@)) == split_gen(
            lit@,
            0,
            sepv@,
            Seq::<char>::empty(),
            parts_model(cur@),
            words_model(out@),
        ),
{
    let ghost goal = split_gen(
        lit@,
        0,
        sepv@,
        Seq::<char>::empty(),
        parts_model(cur@),
        words_model(out@),
    );
    let mut cur = cur;
    let mut out = out;
    let mut acc = String::new();
    let mut i: usize = 0;
    while i < lit.len()
        invariant
            i <= lit@.len(),
            goal == split_gen(
                lit@,
                i as int,
                sepv@,
                acc@,
                parts_model(cur@),
                words_model(out@),
            ),
        decreases lit@.len() - i,
    {
        let c = lit[i];
        if !crate::strings::vec_contains_char(sepv, c) {
            push_char(&mut acc, c);
            i = i + 1;
        } else if is_ifs_whitespace(c) {
            let j = ifs_ws_run_end(lit, sepv, i + 1);
            if !acc.as_str().is_empty() || cur.len() > 0 {
                let pair = close_open_field(cur, out, acc);
                cur = pair.0;
                out = pair.1;
                acc = String::new();
                if j < lit.len() && crate::strings::vec_contains_char(sepv, lit[j])
                    && !is_ifs_whitespace(lit[j]) {
                    let j2 = ifs_ws_run_end(lit, sepv, j + 1);
                    i = j2;
                } else {
                    i = j;
                }
            } else {
                i = j;
            }
        } else {
            let pair = close_open_field(cur, out, acc);
            cur = pair.0;
            out = pair.1;
            acc = String::new();
            let j = ifs_ws_run_end(lit, sepv, i + 1);
            i = j;
        }
    }
    if !acc.as_str().is_empty() {
        let ghost cm = parts_model(cur@);
        let ghost am = acc@;
        cur.push(ExpandedWordPart::UnquotedLiteral(acc));
        assert(parts_model(cur@) =~= cm.push((PartTag::Unquoted, am)));
    }
    (cur, out)
}

/// Closes the field under construction: the unfinished run joins it as
/// an unquoted literal and the normalized field — possibly empty —
/// moves to the output; a fresh empty field is handed back.
fn close_open_field(
    cur: Vec<ExpandedWordPart>,
    out: Vec<ExpandedWord>,
    acc: String,
) -> (r: (Vec<ExpandedWordPart>, Vec<ExpandedWord>))
    ensures
        parts_model(r.0@) == Seq::<(PartTag, Seq<char>)>::empty(),
        words_model(r.1@) == close_field(flush_acc(parts_model(cur@), acc@), words_model(out@)),
{
    let mut cur = cur;
    let mut out = out;
    let ghost cm = parts_model(cur@);
    let ghost am = acc@;
    if !acc.as_str().is_empty() {
        cur.push(ExpandedWordPart::UnquotedLiteral(acc));
        assert(parts_model(cur@) =~= cm.push((PartTag::Unquoted, am)));
    }
    let ghost flushed = parts_model(cur@);
    assert(flushed == flush_acc(cm, am));
    let field = ExpandedWord { parts: cur }.normalize();
    let ghost om = words_model(out@);
    out.push(field);
    assert(words_model(out@) =~= om.push(norm_model(flushed)));
    let fresh: Vec<ExpandedWordPart> = Vec::new();
    assert(parts_model(fresh@) =~= Seq::<(PartTag, Seq<char>)>::empty());
    (fresh, out)
}

/// Splits an expanded word into fields, using the separator characters
/// of `ifs` (the default space-tab-newline set when `ifs` is `None`).
/// Whitespace separators collapse and open no empty fields; any other
/// separator closes the current field even when it is empty, so the
/// empty fields between adjacent such separators are preserved, while
/// a trailing separator adds none; parts not produced by expansion are
/// never split, and an empty separator string disables splitting
/// altogether.
pub fn split_fields(expanded_word: ExpandedWord, ifs: Option<&str>) -> (r: Vec<ExpandedWord>)
    ensures
        words_model(r@) == spec_split_fields(expanded_word@, ifs_model(ifs)),
{
    let ghost m0 = expanded_word@;
    if expanded_word.parts.len() == 0 {
        let r: Vec<ExpandedWord> = Vec::new();
        assert(words_model(r@) =~= spec_split_fields(m0, ifs_model(ifs)));
        return r;
    }
    let sep: &str = match ifs {
        Some(s) => s,
        None => " \t\n",
    };
    proof {
        reveal_strlit(" \t\n");
        assert(effective_ifs(ifs_model(ifs)) =~= sep@);
    }
    if sep.is_empty() {
        let r = vec![expanded_word];
        assert(words_model(r@) =~= seq![m0]);
        return r;
    }
    let sepv = crate::strings::chars_of(sep);
    let normalized = expanded_word.normalize();
    let ghost nm = norm_model(m0);
    let mut cur: Vec<ExpandedWordPart> = Vec::new();
    let mut out: Vec<ExpandedWord> = Vec::new();
    let mut pi: usize = 0;
    assert(parts_model(cur@) =~= Seq::<(PartTag, Seq<char>)>::empty());
    assert(words_model(out@) =~= Seq::<Seq<(PartTag, Seq<char>)>>::empty());
    while pi < normalized.parts.len()
        invariant
            pi <= normalized.parts@.len(),
            nm == parts_model(normalized.parts@),
            sepv@ == sep@,
            sep@ == effective_ifs(ifs_model(ifs)),
            sep@.len() > 0,
            m0.len() > 0,
            m0 == expanded_word@,
            (parts_model(cur@), words_model(out@)) == split_parts(nm, pi as int, sep@),
        decreases normalized.parts@.len() - pi,
    {
        let p = &normalized.parts[pi];
        let tag = part_tag(p);
        match tag {
            PartTag::FieldEnd => {
                let field = ExpandedWord { parts: cur }.normalize();
                cur = Vec::new();
                let ghost om = words_model(out@);
                let ghost cm = split_parts(nm, pi as int, sep@).0;
                out.push(field);
                assert(words_model(out@) =~= om.push(norm_model(cm)));
                assert(parts_model(cur@) =~= Seq::<(PartTag, Seq<char>)>::empty());
            },
            PartTag::Generated => {
                let text = part_text(p);
                if !text.as_str().is_empty() {
                    let litv = crate::strings::chars_of(text.as_str());
                    let pair = split_generated(&litv, &sepv, cur, out);
                    cur = pair.0;
                    out = pair.1;
                }
            },
            _ => {
                let text = part_text(p);
                let ghost cm = parts_model(cur@);
                cur.push(make_part(tag, text));
                assert(parts_model(cur@) =~= cm.push(part_model(
                    normalized.parts@[pi as int],
                )));
            },
        }
        pi = pi + 1;
    }
    if cur.len() > 0 {
        let ghost cm = split_parts(nm, nm.len() as int, sep@).0;
        let field = ExpandedWord { parts: cur }.normalize();
        let ghost om = words_model(out@);
        out.push(field);
        assert(words_model(out@) =~= om.push(norm_model(cm)));
    }
    out
}

} // verus!

use vstd::prelude::*;

verus! {

/// A part that field splitting may never touch: literal or quoted text.
pub open spec fn untouchable(p: (PartTag, Seq<char>)) -> bool {
    p.0 == PartTag::Quoted || p.0 == PartTag::Unquoted
}

/// A word model in normal form: no two adjacent parts could merge.
pub open spec fn normal_form(m: Seq<(PartTag, Seq<char>)>) -> bool {
    forall|i: int| 0 <= i < m.len() - 1 ==> !mergeable((#[trigger] m[i]).0, m[i + 1].0)
}

/// Normalizing a word already in normal form changes nothing.
pub proof fn lemma_norm_of_normal(m: Seq<(PartTag, Seq<char>)>)
    requires
        normal_form(m),
    ensures
        norm_model(m) == m,
    decreases m.len(),
{
    if m.len() == 0 {
        assert(norm_model(m) =~= m);
    } else {
        assert(normal_form(m.drop_last()));
        lemma_norm_of_normal(m.drop_last());
        if m.len() >= 2 {
            assert(!mergeable(m[m.len() - 2].0, m[m.len() - 1].0));
        }
        assert(norm_model(m) =~= m);
    }
}

/// The output of normalization is in normal form, and is empty only for
/// the empty word.
pub proof fn lemma_norm_shape(m: Seq<(PartTag, Seq<char>)>)
    ensures
        normal_form(norm_model(m)),
        m.len() > 0 ==> norm_model(m).len() > 0,
    decreases m.len(),
{
    if m.len() > 0 {
        lemma_norm_shape(m.drop_last());
    }
}

/// Splitting never touches a prefix of literal and quoted parts: they
/// move into the open field exactly as they stand.
pub proof fn lemma_split_parts_untouchable(
    m: Seq<(PartTag, Seq<char>)>,
    n: int,
    ifs: Seq<char>,
)
    requires
        0 <= n <= m.len(),
        forall|i: int| 0 <= i < n ==> untouchable(#[trigger] m[i]),
    ensures
        split_parts(m, n, ifs) == (m.take(n), Seq::<Seq<(PartTag, Seq<char>)>>::empty()),
    decreases n,
{
    if n == 0 {
        assert(m.take(0) =~= Seq::<(PartTag, Seq<char>)>::empty());
    } else {
        lemma_split_parts_untouchable(m, n - 1, ifs);
        assert(m.take(n) =~= m.take(n - 1).push(m[n - 1]));
    }
}

/// With an empty separator string, field splitting is disabled: every
/// non-empty word comes back as the one and only field, unaltered; the
/// empty word yields no fields at all.
pub proof fn law_empty_ifs_disables_splitting(m: Seq<(PartTag, Seq<char>)>)
    ensures
        m.len() > 0 ==> spec_split_fields(m, Some(Seq::<char>::empty())) == seq![m],
        m.len() == 0 ==> spec_split_fields(m, Some(Seq::<char>::empty()))
            == Seq::<Seq<(PartTag, Seq<char>)>>::empty(),
{
}

/// A word that carries no expansion-generated text and no quoting-fixed
/// field boundary is never affected by field splitting: whatever the
/// separator set, the word moves through as the single output field.
/// The word is asked to be in normal form, which every word built by
/// `ExpandedWord::append` is.
pub proof fn law_literal_words_are_never_split(
    m: Seq<(PartTag, Seq<char>)>,
    ifs: Option<Seq<char>>,
)
    requires
        m.len() > 0,
        forall|i: int| 0 <= i < m.len() ==> untouchable(#[trigger] m[i]),
        normal_form(m),
    ensures
        spec_split_fields(m, ifs) == seq![m],
{
    let sep = effective_ifs(ifs);
    if sep.len() == 0 {
    } else {
        lemma_norm_of_normal(m);
        lemma_split_parts_untouchable(m, m.len() as int, sep);
        assert(m.take(m.len() as int) =~= m);
        assert(close_field(m, Seq::<Seq<(PartTag, Seq<char>)>>::empty()) =~= seq![
            norm_model(m),
        ]);
    }
}

} // verus!
