//! A tokenizer for C source text, working over an in-memory buffer.
//!
//! The stream reads characters one at a time, splicing line endings:
//! carriage returns fold into newlines, and runs of line breaks are
//! skipped while the line counter advances.  Recognized tokens are
//! numbers and string or character literals; comments are dropped.

use vstd::prelude::*;

verus! {

/// A classified token.
#[derive(Debug, Clone, PartialEq, Eq)]
pub enum CTokenType {
    Invalid,
    StreamBegin,
    StreamEnd,
    Number(String),
    Str(bool, bool, String),
}

/// One token of the stream.
#[derive(Debug)]
pub struct CToken {
    pub ttype: CTokenType,
}

impl CToken {
    /// A yet-unclassified token.
    pub fn new() -> (r: CToken)
        ensures
            r.ttype == CTokenType::Invalid,
    {
        CToken { ttype: CTokenType::Invalid }
    }

    /// A token of the given type.
    pub fn new_type(ttype: CTokenType) -> (r: CToken)
        ensures
            r.ttype == ttype,
    {
        CToken { ttype }
    }
}

/// Class bit: a decimal digit.
pub const CC_DIGIT: u32 = 1;

/// Class bit: a letter or underscore.
pub const CC_LETTER: u32 = 2;

/// Class bit: a hexadecimal digit.
pub const CC_HEX: u32 = 4;

/// Class bit: an exponent marker.
pub const CC_EXP: u32 = 8;

/// Class bit: may continue a two-character operator.
pub const CC_SECOND: u32 = 16;

/// Class bit: a quote.
pub const CC_QUOTE: u32 = 32;

/// Class bit: a dot.
pub const CC_DOT: u32 = 64;

/// The class bits of a character, read from its low byte.
pub open spec fn spec_classify(c32: i32) -> u32 {
    let b = c32 as u8;
    if 48 <= b <= 57 {
        CC_DIGIT | CC_HEX
    } else if b == 69 || b == 101 {
        CC_LETTER | CC_HEX | CC_EXP
    } else if b == 80 || b == 112 {
        CC_LETTER | CC_EXP
    } else if (65 <= b <= 70) || (97 <= b <= 102) {
        CC_LETTER | CC_HEX
    } else if (71 <= b <= 90) || (103 <= b <= 122) || b == 95 {
        CC_LETTER
    } else if b == 46 {
        CC_DOT | CC_SECOND
    } else if b == 61 || b == 43 || b == 45 || b == 62 || b == 60 || b == 38 || b == 124
        || b == 35 {
        CC_SECOND
    } else if b == 39 || b == 34 {
        CC_QUOTE
    } else {
        0
    }
}

/// Classifies a character by its low byte: digits, letters, dots,
/// operator continuations and quotes.
pub fn classify_char(c32: i32) -> (r: u32)
    ensures
        r == spec_classify(c32),
{
    let b = #[verifier::truncate] (c32 as u8);
    if 48 <= b && b <= 57 {
        CC_DIGIT | CC_HEX
    } else if b == 69 || b == 101 {
        CC_LETTER | CC_HEX | CC_EXP
    } else if b == 80 || b == 112 {
        CC_LETTER | CC_EXP
    } else if (65 <= b && b <= 70) || (97 <= b && b <= 102) {
        CC_LETTER | CC_HEX
    } else if (71 <= b && b <= 90) || (103 <= b && b <= 122) || b == 95 {
        CC_LETTER
    } else if b == 46 {
        CC_DOT | CC_SECOND
    } else if b == 61 || b == 43 || b == 45 || b == 62 || b == 60 || b == 38 || b == 124
        || b == 35 {
        CC_SECOND
    } else if b == 39 || b == 34 {
        CC_QUOTE
    } else {
        0
    }
}

/// A character stream over an in-memory buffer.
pub struct CStream {
    pub fd: i32,
    pub offset: usize,
    pub size: usize,
    pub pos: i32,
    pub line: i32,
    pub nr: i32,
    pub newline: i32,
    pub whitespace: i32,
    pub token: CToken,
    pub tokenlist: Vec<CToken>,
    pub buffer: Vec<u8>,
}

/// A well-formed stream: backed by its buffer alone, with the cursor
/// inside it.
pub open spec fn wf(s: CStream) -> bool {
    &&& s.fd < 0
    &&& s.size == s.buffer@.len()
    &&& s.offset <= s.size
}

/// The types of the tokens collected so far.
pub open spec fn token_types(ts: Seq<CToken>) -> Seq<CTokenType> {
    ts.map(|i: int, t: CToken| t.ttype)
}

/// Where the line-break skipping that starts at `off` ends: the first
/// position holding neither a newline nor a carriage return.
pub open spec fn nl_skip_end(buf: Seq<u8>, off: int) -> int
    decreases buf.len() - off,
{
    if off < 0 || off >= buf.len() {
        buf.len() as int
    } else if buf[off] == 10 {
        nl_skip_end(buf, off + 1)
    } else if buf[off] == 13 {
        if off + 1 < buf.len() && buf[off + 1] == 10 {
            nl_skip_end(buf, off + 2)
        } else {
            nl_skip_end(buf, off + 1)
        }
    } else {
        off
    }
}

impl CStream {
    /// A stream over the given buffer, opened at its start with one
    /// stream-begin token.
    pub fn from_buffer(idx: i32, buf: Vec<u8>) -> (r: CStream)
        ensures
            wf(r),
            r.fd == -1,
            r.nr == idx,
            r.line == 1,
            r.newline == 1,
            r.whitespace == 0,
            r.pos == 0,
            r.offset == 0,
            r.buffer@ == buf@,
            token_types(r.tokenlist@) =~= seq![CTokenType::StreamBegin],
    {
        let r = CStream {
            fd: -1,
            nr: idx,
            line: 1,
            newline: 1,
            whitespace: 0,
            pos: 0,
            offset: 0,
            size: buf.len(),
            token: CToken::new(),
            tokenlist: vec![CToken::new_type(CTokenType::StreamBegin)],
            buffer: buf,
        };
        r
    }

    /// Closes the stream with a stream-end token.
    pub fn mark_eof(&mut self)
        ensures
            final(self).tokenlist@.len() == old(self).tokenlist@.len() + 1,
            token_types(final(self).tokenlist@) == token_types(old(self).tokenlist@).push(
                CTokenType::StreamEnd,
            ),
            final(self).fd == old(self).fd,
            final(self).offset == old(self).offset,
            final(self).size == old(self).size,
            final(self).buffer@ == old(self).buffer@,
            final(self).nr == old(self).nr,
            final(self).tokenlist@.drop_last() == old(self).tokenlist@,
            final(self).tokenlist@.last().ttype == CTokenType::StreamEnd,
            wf(*old(self)) ==> wf(*final(self)),
    {
        let token = CToken::new_type(CTokenType::StreamEnd);
        self.tokenlist.push(token);
        assert(token_types(self.tokenlist@) =~= token_types(old(self).tokenlist@).push(
            CTokenType::StreamEnd,
        ));
        assert(self.tokenlist@.drop_last() =~= old(self).tokenlist@);
    }
}

} // verus!

verus! {

/// How many line breaks the skipping that starts at `off` crosses.
pub open spec fn nl_skip_count(buf: Seq<u8>, off: int) -> nat
    decreases buf.len() - off,
{
    if off < 0 || off >= buf.len() {
        0
    } else if buf[off] == 10 {
        1 + nl_skip_count(buf, off + 1)
    } else if buf[off] == 13 {
        if off + 1 < buf.len() && buf[off + 1] == 10 {
            1 + nl_skip_count(buf, off + 2)
        } else {
            1 + nl_skip_count(buf, off + 1)
        }
    } else {
        0
    }
}

/// A line counter advanced by `n` breaks, stopping at the top of its
/// range rather than wrapping.
pub open spec fn sat_line_add(line: i32, n: nat) -> i32 {
    if line + n > i32::MAX {
        i32::MAX
    } else {
        (line + n) as i32
    }
}

/// The fields the character reader never touches.
pub open spec fn reader_frame(a: CStream, b: CStream) -> bool {
    &&& a.fd == b.fd
    &&& a.size == b.size
    &&& a.buffer@ == b.buffer@
    &&& a.nr == b.nr
    &&& a.newline == b.newline
    &&& a.whitespace == b.whitespace
    &&& a.tokenlist@ == b.tokenlist@
    &&& a.token.ttype == b.token.ttype
}

impl CStream {
    /// The slow reading path: skips line breaks, counting lines and
    /// resetting the column; at a remaining character it stops before
    /// it and hands back a backslash marker; at the end of the buffer
    /// it reports the end without moving.  The line counter saturates
    /// instead of overflowing.
    pub fn nextchar_slow(&mut self) -> (r: i32)
        requires
            wf(*old(self)),
        ensures
            wf(*final(self)),
            reader_frame(*old(self), *final(self)),
            final(self).line == sat_line_add(
                old(self).line,
                nl_skip_count(old(self).buffer@, old(self).offset as int),
            ),
            nl_skip_count(old(self).buffer@, old(self).offset as int) > 0
                ==> final(self).pos == 0,
            nl_skip_count(old(self).buffer@, old(self).offset as int) == 0
                ==> final(self).pos == old(self).pos,
            nl_skip_end(old(self).buffer@, old(self).offset as int) >= old(self).size
                ==> r == -1 && final(self).offset == old(self).offset,
            nl_skip_end(old(self).buffer@, old(self).offset as int) < old(self).size ==> r
                == 92 && final(self).offset == nl_skip_end(
                old(self).buffer@,
                old(self).offset as int,
            ),
    {
        let ghost buf = self.buffer@;
        let ghost off0 = self.offset as int;
        let mut off = self.offset;
        let ghost line0 = self.line;
        let ghost pos0 = self.pos;
        while off < self.size
            invariant
                wf(*self),
                off0 <= off <= self.size,
                off0 == old(self).offset,
                buf == self.buffer@,
                reader_frame(*old(self), *self),
                self.offset == old(self).offset,
                nl_skip_end(buf, off0) == nl_skip_end(buf, off as int),
                self.line == sat_line_add(
                    line0,
                    (nl_skip_count(buf, off0) - nl_skip_count(buf, off as int)) as nat,
                ),
                nl_skip_count(buf, off0) > nl_skip_count(buf, off as int) ==> self.pos == 0,
                nl_skip_count(buf, off0) == nl_skip_count(buf, off as int) ==> self.pos
                    == pos0,
                nl_skip_count(buf, off as int) <= nl_skip_count(buf, off0),
                line0 == old(self).line,
                pos0 == old(self).pos,
            decreases self.size - off,
        {
            let b = self.buffer[off];
            if b == 10 {
                if self.line < i32::MAX {
                    self.line = self.line + 1;
                }
                self.pos = 0;
                off = off + 1;
            } else if b == 13 {
                if self.line < i32::MAX {
                    self.line = self.line + 1;
                }
                self.pos = 0;
                if off + 1 < self.size && self.buffer[off + 1] == 10 {
                    off = off + 2;
                } else {
                    off = off + 1;
                }
            } else {
                assert(nl_skip_end(buf, off as int) == off);
                assert(nl_skip_count(buf, off as int) == 0);
                self.offset = off;
                return 92;
            }
        }
        assert(nl_skip_end(buf, off as int) == buf.len());
        assert(nl_skip_count(buf, off as int) == 0);
        -1
    }

    /// Reads one character: a plain character comes back as itself
    /// with the cursor and column advanced (the column saturating);
    /// tabs, line breaks and backslashes take the slow path.
    pub fn nextchar(&mut self) -> (r: i32)
        requires
            wf(*old(self)),
        ensures
            wf(*final(self)),
            reader_frame(*old(self), *final(self)),
            -1 <= r <= 255,
            plain_at(old(self).buffer@, old(self).offset as int)
                ==> r == old(self).buffer@[old(self).offset as int]
                && final(self).offset == old(self).offset + 1
                && final(self).line == old(self).line
                && final(self).pos == (if old(self).pos < i32::MAX {
                    (old(self).pos + 1) as i32
                } else {
                    old(self).pos
                }),
            !plain_at(old(self).buffer@, old(self).offset as int) ==> (r == -1 || r == 92)
                && final(self).line == sat_line_add(
                old(self).line,
                nl_skip_count(old(self).buffer@, old(self).offset as int),
            ) && final(self).offset >= old(self).offset,
    {
        let off = self.offset;
        if off < self.size {
            let b = self.buffer[off];
            if !(b == 9 || b == 13 || b == 10 || b == 92) {
                self.offset = off + 1;
                if self.pos < i32::MAX {
                    self.pos = self.pos + 1;
                }
                return b as i32;
            }
            assert(!plain_at(self.buffer@, off as int));
        }
        proof {
            if self.offset as int >= self.buffer@.len() {
                assert(!plain_at(self.buffer@, self.offset as int));
            }
        }
        proof {
            lemma_nl_skip_ge(self.buffer@, self.offset as int);
        }
        let r = self.nextchar_slow();
        r
    }
}

/// Skipping line breaks never moves backwards.
pub proof fn lemma_nl_skip_ge(buf: Seq<u8>, off: int)
    requires
        0 <= off <= buf.len(),
    ensures
        nl_skip_end(buf, off) >= off,
    decreases buf.len() - off,
{
    if off < buf.len() {
        if buf[off] == 10 {
            lemma_nl_skip_ge(buf, off + 1);
        } else if buf[off] == 13 {
            if off + 1 < buf.len() && buf[off + 1] == 10 {
                lemma_nl_skip_ge(buf, off + 2);
            } else {
                lemma_nl_skip_ge(buf, off + 1);
            }
        }
    }
}

/// A position holding an ordinary character: inside the buffer and
/// none of tab, carriage return, newline or backslash.
pub open spec fn plain_at(buf: Seq<u8>, off: int) -> bool {
    &&& 0 <= off < buf.len()
    &&& buf[off] != 9
    &&& buf[off] != 13
    &&& buf[off] != 10
    &&& buf[off] != 92
}

} // verus!

verus! {

use crate::strings::push_char;

/// The fields no token scanner ever touches.
pub open spec fn scan_frame(a: CStream, b: CStream) -> bool {
    &&& a.fd == b.fd
    &&& a.size == b.size
    &&& a.buffer@ == b.buffer@
    &&& a.nr == b.nr
}

/// Whitespace as the scanner sees it: the ASCII separators and the two
/// Latin-1 ones.
pub open spec fn spec_is_ws_byte(b: u8) -> bool {
    b == 9 || b == 10 || b == 11 || b == 12 || b == 13 || b == 32 || b == 133 || b == 160
}

impl CStream {
    /// Drops a `/* ... */` comment, restoring the newline flag, and
    /// reads the character after it.  The scan gives up at the end of
    /// the buffer or when the reader stops advancing.
    pub fn drop_comment(&mut self) -> (r: i32)
        requires
            wf(*old(self)),
        ensures
            wf(*final(self)),
            scan_frame(*old(self), *final(self)),
            final(self).tokenlist@ == old(self).tokenlist@,
            final(self).newline == old(self).newline,
            -1 <= r <= 255,
    {
        let newline = self.newline;
        let rem = self.size - self.offset;
        let mut budget: usize = if rem > usize::MAX - 2 {
            usize::MAX
        } else {
            rem + 2
        };
        let mut next = self.nextchar();
        let mut curr: i32 = -1;
        loop
            invariant
                wf(*self),
                scan_frame(*old(self), *self),
                self.tokenlist@ == old(self).tokenlist@,
                self.newline == old(self).newline,
                -1 <= next <= 255,
            decreases budget,
        {
            curr = next;
            if curr < 0 {
                return curr;
            }
            if budget == 0 {
                return -1;
            }
            budget = budget - 1;
            next = self.nextchar();
            if curr == 42 && next == 47 {
                break;
            }
        }
        self.newline = newline;
        self.nextchar()
    }

    /// Drops the rest of the input and reports the end.  The reader
    /// folds every line break into a splice marker and never hands a
    /// newline back, so the after-the-line arm cannot fire and the
    /// scan always runs to the end of the buffer, or gives up when it
    /// stops advancing; either way the result is the end marker.
    pub fn drop_eoln(&mut self) -> (r: i32)
        requires
            wf(*old(self)),
        ensures
            wf(*final(self)),
            scan_frame(*old(self), *final(self)),
            final(self).tokenlist@ == old(self).tokenlist@,
            final(self).newline == old(self).newline,
            r == -1,
    {
        let rem = self.size - self.offset;
        let mut budget: usize = if rem > usize::MAX - 2 {
            usize::MAX
        } else {
            rem + 2
        };
        loop
            invariant
                wf(*self),
                scan_frame(*old(self), *self),
                self.tokenlist@ == old(self).tokenlist@,
                self.newline == old(self).newline,
            decreases budget,
        {
            let c = self.nextchar();
            if c < 0 {
                return c;
            }
            if c == 10 {
                return self.nextchar();
            }
            if budget == 0 {
                return -1;
            }
            budget = budget - 1;
        }
    }

    /// Gathers a string or character literal into one token, honoring
    /// backslash escapes, and reads the character after it.  An
    /// unterminated literal at a line end closes early, and one cut
    /// short by the end of the buffer adds no token.
    pub fn eat_string(&mut self, next: i32, is_str: bool, is_wide: bool) -> (r: i32)
        requires
            wf(*old(self)),
            -1 <= next <= 255,
        ensures
            wf(*final(self)),
            scan_frame(*old(self), *final(self)),
            old(self).tokenlist@.len() <= final(self).tokenlist@.len() <= old(self).tokenlist@.len() + 1,
            final(self).tokenlist@.take(old(self).tokenlist@.len() as int) == old(self).tokenlist@,
            final(self).tokenlist@.len() > old(self).tokenlist@.len() ==> (final(self).tokenlist@.last().ttype matches CTokenType::Str(a, b, _) && a == is_str && b
                == is_wide),
            -1 <= r <= 255,
    {
        let mut next = next;
        let delim: i32 = if is_str {
            34
        } else {
            39
        };
        let mut escape = false;
        let mut want_hex = false;
        let mut tmpstr = String::new();
        let rem = self.size - self.offset;
        let mut budget: usize = if rem > usize::MAX - 2 {
            usize::MAX
        } else {
            rem + 2
        };
        while escape || next != delim
            invariant
                wf(*self),
                scan_frame(*old(self), *self),
                self.tokenlist@ == old(self).tokenlist@,
                -1 <= next <= 255,
            decreases budget,
        {
            if next >= 0 && next <= 255 {
                let b = #[verifier::truncate] (next as u8);
                push_char(&mut tmpstr, b as char);
            }
            if next == 10 {
                break;
            }
            if next < 0 {
                return next;
            }
            if !escape {
                if want_hex && classify_char(next) & CC_HEX != 0 {
                }
                want_hex = false;
                if next == 92 {
                    escape = true;
                }
            } else {
                escape = false;
                if next == 120 {
                    want_hex = true;
                }
            }
            if budget == 0 {
                return -1;
            }
            budget = budget - 1;
            next = self.nextchar();
        }
        let ghost pre = self.tokenlist@;
        self.tokenlist.push(CToken { ttype: CTokenType::Str(is_str, is_wide, tmpstr) });
        assert(self.tokenlist@.take(pre.len() as int) =~= pre);
        self.nextchar()
    }

    /// Gathers one number token, taking in digits, letters, dots and
    /// signed exponents, and reads the character after it.
    pub fn get_one_number(&mut self, c: i32, next: i32) -> (r: i32)
        requires
            wf(*old(self)),
            -1 <= next <= 255,
        ensures
            wf(*final(self)),
            scan_frame(*old(self), *final(self)),
            final(self).tokenlist@.len() == old(self).tokenlist@.len() + 1,
            final(self).tokenlist@.take(old(self).tokenlist@.len() as int) == old(self).tokenlist@,
            final(self).tokenlist@.last().ttype matches CTokenType::Number(_),
            -1 <= r <= 255,
    {
        let mut next = next;
        let mut numstr = String::new();
        if c >= 0 && c <= 255 {
            let b = #[verifier::truncate] (c as u8);
            push_char(&mut numstr, b as char);
        }
        let rem = self.size - self.offset;
        let mut budget: usize = if rem > usize::MAX - 2 {
            usize::MAX
        } else {
            rem + 2
        };
        loop
            invariant
                wf(*self),
                scan_frame(*old(self), *self),
                self.tokenlist@ == old(self).tokenlist@,
                -1 <= next <= 255,
            decreases budget,
        {
            let class = classify_char(next);
            if (class & (CC_DOT | CC_DIGIT | CC_LETTER)) == 0 {
                break;
            }
            if next >= 0 {
                let b = #[verifier::truncate] (next as u8);
                push_char(&mut numstr, b as char);
            }
            if budget == 0 {
                next = -1;
                break;
            }
            budget = budget - 1;
            next = self.nextchar();
            if (class & CC_EXP) != 0 {
                if next == 45 || next == 43 {
                    let b = #[verifier::truncate] (next as u8);
                    push_char(&mut numstr, b as char);
                    if budget == 0 {
                        next = -1;
                        break;
                    }
                    budget = budget - 1;
                    next = self.nextchar();
                }
            }
        }
        let ghost pre = self.tokenlist@;
        self.tokenlist.push(CToken { ttype: CTokenType::Number(numstr) });
        assert(self.tokenlist@.take(pre.len() as int) =~= pre);
        next
    }

    /// Reads one token opened by a special character: a leading dot may
    /// start a number, quotes open literals, and slash pairs open
    /// comments; anything else is dropped for now.
    pub fn get_one_special(&mut self, c: i32) -> (r: i32)
        requires
            wf(*old(self)),
        ensures
            wf(*final(self)),
            scan_frame(*old(self), *final(self)),
            old(self).tokenlist@.len() <= final(self).tokenlist@.len() <= old(self).tokenlist@.len() + 1,
            final(self).tokenlist@.take(old(self).tokenlist@.len() as int) == old(self).tokenlist@,
            final(self).tokenlist@.len() > old(self).tokenlist@.len() ==> (final(self).tokenlist@.last().ttype matches CTokenType::Number(_) || final(self).tokenlist@.last().ttype matches CTokenType::Str(_, _, _)),
            -1 <= r <= 255,
    {
        let ghost pre = self.tokenlist@;
        assert(pre.take(pre.len() as int) =~= pre);
        let next = self.nextchar();
        if c == 46 {
            if next >= 48 && next <= 57 {
                return self.get_one_number(c, next);
            }
        } else if c == 34 {
            return self.eat_string(next, true, false);
        } else if c == 39 {
            return self.eat_string(next, false, false);
        } else if c == 47 {
            if next == 47 {
                return self.drop_eoln();
            }
            if next == 42 {
                return self.drop_comment();
            }
        }
        let mask = classify_char(next);
        if (mask & CC_SECOND) != 0 {
        }
        -1
    }

    /// Reads one identifier token; identifier scanning is not yet
    /// implemented, so the stream reports its end.
    pub fn get_one_identifier(&mut self, c: i32) -> (r: i32)
        ensures
            *final(self) == *old(self),
            r == -1,
    {
        let _ = c;
        -1
    }

    /// Reads one token starting at the classified character `c`.
    pub fn get_one_token(&mut self, c: i32) -> (r: i32)
        requires
            wf(*old(self)),
            spec_classify(c) != 0,
        ensures
            wf(*final(self)),
            scan_frame(*old(self), *final(self)),
            old(self).tokenlist@.len() <= final(self).tokenlist@.len() <= old(self).tokenlist@.len() + 1,
            final(self).tokenlist@.take(old(self).tokenlist@.len() as int) == old(self).tokenlist@,
            final(self).tokenlist@.len() > old(self).tokenlist@.len() ==> (final(self).tokenlist@.last().ttype matches CTokenType::Number(_) || final(self).tokenlist@.last().ttype matches CTokenType::Str(_, _, _)),
            -1 <= r <= 255,
    {
        let mask = classify_char(c);
        let ghost pre = self.tokenlist@;
        assert(pre.take(pre.len() as int) =~= pre);
        if (mask & CC_DIGIT) != 0 {
            let c2 = self.nextchar();
            return self.get_one_number(c, c2);
        }
        if (mask & CC_LETTER) != 0 {
            return self.get_one_identifier(c);
        }
        self.get_one_special(c)
    }

    /// Tokenizes the whole buffer: skips whitespace, reads one token at
    /// a time, and closes the list with a stream-end token.  A
    /// character that classifies to nothing, or a scan that stops
    /// advancing, ends the pass early.
    pub fn tokenize(&mut self)
        requires
            wf(*old(self)),
        ensures
            wf(*final(self)),
            scan_frame(*old(self), *final(self)),
            final(self).tokenlist@.len() > old(self).tokenlist@.len(),
            final(self).tokenlist@.take(old(self).tokenlist@.len() as int) == old(self).tokenlist@,
            final(self).tokenlist@.last().ttype == CTokenType::StreamEnd,
            forall|k: int|
                old(self).tokenlist@.len() <= k < final(self).tokenlist@.len() - 1 ==> !((#[trigger] final(self).tokenlist@[k]).ttype matches CTokenType::StreamEnd),
    {
        let ghost pre = self.tokenlist@;
        let rem = self.size - self.offset;
        let mut budget: usize = if rem > usize::MAX / 2 - 2 {
            usize::MAX
        } else {
            rem * 2 + 4
        };
        let mut c = self.nextchar();
        proof {
            assert(pre.take(pre.len() as int) =~= pre);
        }
        while c >= 0
            invariant
                wf(*self),
                scan_frame(*old(self), *self),
                pre == old(self).tokenlist@,
                pre.len() <= self.tokenlist@.len(),
                self.tokenlist@.take(pre.len() as int) == pre,
                forall|k: int|
                    pre.len() <= k < self.tokenlist@.len() ==> !((#[trigger] self.tokenlist@[k]).ttype matches CTokenType::StreamEnd),
                -1 <= c <= 255,
            decreases budget,
        {
            if budget == 0 {
                break;
            }
            budget = budget - 1;
            let b = #[verifier::truncate] (c as u8);
            let ghost mid = self.tokenlist@;
            if !(b == 9 || b == 10 || b == 11 || b == 12 || b == 13 || b == 32 || b == 133
                || b == 160) {
                self.token = CToken::new_type(CTokenType::Invalid);
                self.newline = 0;
                self.whitespace = 0;
                if classify_char(c) == 0 {
                    break;
                }
                c = self.get_one_token(c);
            } else {
                self.whitespace = 1;
                c = self.nextchar();
            }
            proof {
                assert(self.tokenlist@.take(pre.len() as int) =~= mid.take(
                    pre.len() as int,
                ));
                assert forall|k: int|
                    pre.len() <= k < self.tokenlist@.len() implies !((
                #[trigger] self.tokenlist@[k]).ttype matches CTokenType::StreamEnd) by {
                    if k < mid.len() {
                        assert(self.tokenlist@.take(mid.len() as int)[k]
                            == self.tokenlist@[k]);
                        assert(self.tokenlist@.take(mid.len() as int) == mid);
                    }
                }
            }
        }
        let ghost before_end = self.tokenlist@;
        self.mark_eof();
        proof {
            assert(self.tokenlist@.take(pre.len() as int) =~= before_end.take(
                pre.len() as int,
            ));
            assert forall|k: int|
                pre.len() <= k < self.tokenlist@.len() - 1 implies !((
            #[trigger] self.tokenlist@[k]).ttype matches CTokenType::StreamEnd) by {
                assert(self.tokenlist@.drop_last() == before_end);
                assert(self.tokenlist@[k] == before_end[k]);
            }
        }
    }
}

} // verus!
