//! The lex input-file parser: the three sections of a lex source —
//! definitions, rules and user code — read line by line into a
//! [`LexInfo`] table of rules and definitions.

use vstd::prelude::*;

verus! {

use crate::strings::chars_of;
use crate::strings::push_char;
use crate::strings::str_equal;
use crate::strings::string_of;
use vstd::string::StringExecFns;

/// One lex rule: an extended regular expression and its action text.
#[derive(Debug, Clone, PartialEq, Eq)]
pub struct LexRule {
    pub ere: String,
    pub action: String,
}

impl LexRule {
    /// An empty rule, ready to be filled.
    pub fn new() -> (r: LexRule)
        ensures
            r.ere@ == Seq::<char>::empty(),
            r.action@ == Seq::<char>::empty(),
    {
        LexRule { ere: String::new(), action: String::new() }
    }
}

/// Everything a lex input file defines.
#[derive(Debug, PartialEq, Eq)]
pub struct LexInfo {
    pub external_def: Vec<String>,
    pub subs: Vec<(String, String)>,
    pub internal_defs: Vec<String>,
    pub cond_start: Vec<String>,
    pub cond_xstart: Vec<String>,
    pub yyt_is_ptr: bool,
    pub user_subs: Vec<String>,
    pub rules: Vec<LexRule>,
}

/// Which section of the input the parser is in.
#[derive(Debug, Clone, Copy, PartialEq, Eq, Structural)]
pub enum LexSection {
    Definitions,
    Rules,
    UserCode,
}

/// The parser's working state.
#[derive(Debug)]
pub struct ParseState {
    pub section: LexSection,
    pub open_braces: u32,
    pub in_def: bool,
    pub external_def: Vec<String>,
    pub subs: Vec<(String, String)>,
    pub internal_defs: Vec<String>,
    pub user_subs: Vec<String>,
    pub cond_start: Vec<String>,
    pub cond_xstart: Vec<String>,
    pub yyt_is_ptr: bool,
    pub rules: Vec<LexRule>,
    pub tmp_rule: LexRule,
}

impl ParseState {
    /// The starting state: in the definitions section, pointer mode.
    pub fn new() -> (r: ParseState)
        ensures
            r.section == LexSection::Definitions,
            r.open_braces == 0,
            !r.in_def,
            r.yyt_is_ptr,
            r.rules@.len() == 0,
    {
        ParseState {
            section: LexSection::Definitions,
            open_braces: 0,
            in_def: false,
            external_def: Vec::new(),
            subs: Vec::new(),
            internal_defs: Vec::new(),
            user_subs: Vec::new(),
            cond_start: Vec::new(),
            cond_xstart: Vec::new(),
            yyt_is_ptr: true,
            rules: Vec::new(),
            tmp_rule: LexRule::new(),
        }
    }

    /// Appends one finished rule.
    pub fn push_rule(&mut self, ere: &str, action: &str)
        ensures
            final(self).rules@.len() == old(self).rules@.len() + 1,
            final(self).rules@.last().ere@ == ere@,
            final(self).rules@.last().action@ == action@,
            final(self).rules@.take(old(self).rules@.len() as int) == old(self).rules@,
            final(self).section == old(self).section,
            final(self).subs@ == old(self).subs@,
            final(self).open_braces == old(self).open_braces,
    {
        let ghost pre = self.rules@;
        self.rules.push(LexRule { ere: ere.to_owned(), action: action.to_owned() });
        assert(self.rules@.take(pre.len() as int) =~= pre);
    }
}

/// How many braces stay open after one line: `{` opens, `}` closes,
/// and a close below zero is the error.
pub open spec fn spec_braces_after(n: nat, cs: Seq<char>, i: int) -> Option<nat>
    decreases cs.len() - i,
{
    if i < 0 || i >= cs.len() {
        Some(n)
    } else if cs[i] == '{' {
        spec_braces_after(n + 1, cs, i + 1)
    } else if cs[i] == '}' {
        if n == 0 {
            None
        } else {
            spec_braces_after((n - 1) as nat, cs, i + 1)
        }
    } else {
        spec_braces_after(n, cs, i + 1)
    }
}

/// Counts the braces still open after a continued action line; an
/// unmatched closing brace is the error.
pub fn parse_braces(open_braces: u32, line: &str) -> (r: Result<u32, String>)
    ensures
        match r {
            Ok(n) => spec_braces_after(open_braces as nat, line@, 0) == Some(n as nat) && n
                <= open_braces + line@.len(),
            Err(_) => spec_braces_after(open_braces as nat, line@, 0) is None || open_braces
                + line@.len() >= 0x1_0000_0000,
        },
{
    let cs = chars_of(line);
    if cs.len() as u64 >= 0x1_0000_0000 || open_braces as u64 + cs.len() as u64
        >= 0x1_0000_0000 {
        return Err("line too long".to_owned());
    }
    let mut n: u64 = open_braces as u64;
    let mut i: usize = 0;
    while i < cs.len()
        invariant
            i <= cs@.len(),
            cs@ == line@,
            open_braces + cs@.len() < 0x1_0000_0000,
            n <= open_braces + i,
            spec_braces_after(open_braces as nat, line@, 0) == spec_braces_after(
                n as nat,
                line@,
                i as int,
            ),
        decreases cs@.len() - i,
    {
        let c = cs[i];
        if c == '{' {
            n = n + 1;
        } else if c == '}' {
            if n == 0 {
                return Err("Unmatched closing brace".to_owned());
            }
            n = n - 1;
        }
        i = i + 1;
    }
    Ok(n as u32)
}

/// The bracket kinds the regular-expression scanner balances.
#[derive(Debug, Clone, Copy, PartialEq, Eq, Structural)]
pub enum RegexType {
    Square,
    Paren,
    Curly,
}

/// One step of the regular-expression scan, from position `i` with the
/// given bracket stack and bracket-class flag: the index of the first
/// whitespace outside all brackets ends the expression; unbalanced
/// closers and an unterminated expression are the errors.
pub open spec fn spec_ere_end(
    cs: Seq<char>,
    i: int,
    stack: Seq<RegexType>,
    inside: bool,
) -> Option<int>
    decreases cs.len() - i,
{
    if i < 0 || i >= cs.len() {
        None
    } else {
        let c = cs[i];
        if c == '[' {
            if !inside {
                spec_ere_end(cs, i + 1, stack.push(RegexType::Square), true)
            } else {
                spec_ere_end(cs, i + 1, stack, inside)
            }
        } else if c == '(' {
            if !inside {
                spec_ere_end(cs, i + 1, stack.push(RegexType::Paren), inside)
            } else {
                spec_ere_end(cs, i + 1, stack, inside)
            }
        } else if c == '{' {
            if !inside {
                spec_ere_end(cs, i + 1, stack.push(RegexType::Curly), inside)
            } else {
                spec_ere_end(cs, i + 1, stack, inside)
            }
        } else if c == ']' {
            if stack.len() > 0 && stack.last() == RegexType::Square {
                spec_ere_end(cs, i + 1, stack.drop_last(), false)
            } else {
                None
            }
        } else if c == ')' {
            if inside {
                spec_ere_end(cs, i + 1, stack, inside)
            } else if stack.len() > 0 && stack.last() == RegexType::Paren {
                spec_ere_end(cs, i + 1, stack.drop_last(), inside)
            } else {
                None
            }
        } else if c == '}' {
            if inside {
                spec_ere_end(cs, i + 1, stack, inside)
            } else if stack.len() > 0 && stack.last() == RegexType::Curly {
                spec_ere_end(cs, i + 1, stack.drop_last(), inside)
            } else {
                None
            }
        } else if (c == ' ' || c == '\t' || c == '\n' || c == '\r') && stack.len() == 0 {
            Some(i)
        } else {
            spec_ere_end(cs, i + 1, stack, inside)
        }
    }
}

/// Whether a character is the whitespace that ends an expression.
fn is_ws_char(c: char) -> (r: bool)
    ensures
        r == (c == ' ' || c == '\t' || c == '\n' || c == '\r'),
{
    c == ' ' || c == '\t' || c == '\n' || c == '\r'
}

/// Finds where the regular expression of a rule line ends: the first
/// whitespace outside brackets, parentheses and braces; inside a
/// bracket class the closers lose their meaning.  Unbalanced closers
/// and a line that never ends its expression are errors.
pub fn find_ere_end(line: &str) -> (r: Result<usize, String>)
    ensures
        match r {
            Ok(i) => spec_ere_end(line@, 0, Seq::empty(), false) == Some(i as int),
            Err(_) => spec_ere_end(line@, 0, Seq::empty(), false) is None,
        },
{
    let cs = chars_of(line);
    let mut stack: Vec<RegexType> = Vec::new();
    let mut inside = false;
    let mut i: usize = 0;
    assert(stack@ =~= Seq::<RegexType>::empty());
    while i < cs.len()
        invariant
            i <= cs@.len(),
            cs@ == line@,
            spec_ere_end(line@, 0, Seq::empty(), false) == spec_ere_end(
                line@,
                i as int,
                stack@,
                inside,
            ),
        decreases cs@.len() - i,
    {
        let c = cs[i];
        if c == '[' {
            if !inside {
                stack.push(RegexType::Square);
                inside = true;
            }
        } else if c == '(' {
            if !inside {
                stack.push(RegexType::Paren);
            }
        } else if c == '{' {
            if !inside {
                stack.push(RegexType::Curly);
            }
        } else if c == ']' {
            let ok = stack.len() > 0 && matches!(stack[stack.len() - 1], RegexType::Square);
            if !ok {
                return Err("Unmatched closing square bracket".to_owned());
            }
            let _ = stack.pop();
            inside = false;
        } else if c == ')' {
            if !inside {
                let ok = stack.len() > 0 && matches!(
                    stack[stack.len() - 1],
                    RegexType::Paren,
                );
                if !ok {
                    return Err("Unmatched closing parenthesis".to_owned());
                }
                let _ = stack.pop();
            }
        } else if c == '}' {
            if !inside {
                let ok = stack.len() > 0 && matches!(
                    stack[stack.len() - 1],
                    RegexType::Curly,
                );
                if !ok {
                    return Err("Unmatched closing curly brace".to_owned());
                }
                let _ = stack.pop();
            }
        } else {
            if is_ws_char(c) && stack.len() == 0 {
                return Ok(i);
            }
        }
        i = i + 1;
    }
    Err("Unterminated regular expression".to_owned())
}

} // verus!

verus! {

/// The value bound to `name` in the substitution table, if any.
pub open spec fn subs_lookup(subs: Seq<(String, String)>, name: Seq<char>) -> Option<
    Seq<char>,
>
    decreases subs.len(),
{
    if subs.len() == 0 {
        None
    } else if subs.first().0@ == name {
        Some(subs.first().1@)
    } else {
        subs_lookup(subs.drop_first(), name)
    }
}

/// Looks a substitution name up.
fn subs_get(subs: &Vec<(String, String)>, name: &str) -> (r: Option<String>)
    ensures
        match r {
            Some(v) => subs_lookup(subs@, name@) == Some(v@),
            None => subs_lookup(subs@, name@) is None,
        },
{
    let mut i: usize = 0;
    proof {
        assert(subs@.skip(0) =~= subs@);
    }
    while i < subs.len()
        invariant
            i <= subs@.len(),
            subs_lookup(subs@, name@) == subs_lookup(subs@.skip(i as int), name@),
        decreases subs@.len() - i,
    {
        proof {
            assert(subs@.skip(i as int).first() == subs@[i as int]);
            assert(subs@.skip(i as int).drop_first() =~= subs@.skip(i + 1));
        }
        if str_equal(subs[i].0.as_str(), name) {
            return Some(subs[i].1.clone());
        }
        i = i + 1;
    }
    None
}

/// One step of the quoting-and-substitution rewrite of a rule's
/// expression: quoted operators are escaped to hex, `{name}` splices
/// the named definition, and an unknown name is the error.
pub open spec fn spec_translate(
    subs: Seq<(String, String)>,
    cs: Seq<char>,
    i: int,
    in_quotes: bool,
    in_sub: bool,
    sub_name: Seq<char>,
    acc: Seq<char>,
) -> Result<Seq<char>, Seq<char>>
    decreases cs.len() - i,
{
    if i < 0 || i >= cs.len() {
        Ok(acc)
    } else {
        let c = cs[i];
        if in_quotes && c == '"' {
            spec_translate(subs, cs, i + 1, false, in_sub, sub_name, acc)
        } else if in_quotes {
            if c == '*' {
                spec_translate(subs, cs, i + 1, in_quotes, in_sub, sub_name, acc + "\\x2a"@)
            } else if c == '+' {
                spec_translate(subs, cs, i + 1, in_quotes, in_sub, sub_name, acc + "\\x2b"@)
            } else if c == '.' {
                spec_translate(subs, cs, i + 1, in_quotes, in_sub, sub_name, acc + "\\x2e"@)
            } else if c == '{' {
                spec_translate(subs, cs, i + 1, in_quotes, in_sub, sub_name, acc + "\\x7b"@)
            } else {
                spec_translate(subs, cs, i + 1, in_quotes, in_sub, sub_name, acc.push(c))
            }
        } else if in_sub && c == '}' {
            match subs_lookup(subs, sub_name) {
                Some(v) => spec_translate(
                    subs,
                    cs,
                    i + 1,
                    in_quotes,
                    false,
                    Seq::empty(),
                    acc + v,
                ),
                None => Err(sub_name),
            }
        } else if in_sub {
            spec_translate(subs, cs, i + 1, in_quotes, in_sub, sub_name.push(c), acc)
        } else if c == '"' {
            spec_translate(subs, cs, i + 1, true, in_sub, sub_name, acc)
        } else if c == '{' {
            spec_translate(subs, cs, i + 1, in_quotes, true, sub_name, acc)
        } else {
            spec_translate(subs, cs, i + 1, in_quotes, in_sub, sub_name, acc.push(c))
        }
    }
}

/// Rewrites the lex-specific parts of a rule's expression: inside
/// double quotes the operators `*`, `+`, `.` and `{` become hex
/// escapes, and `{name}` splices the named definition from the
/// substitution table; an unknown name is the error, reported with the
/// name.
pub fn translate_ere(subs: &Vec<(String, String)>, ere: &str) -> (r: Result<String, String>)
    ensures
        match r {
            Ok(out) => spec_translate(
                subs@,
                ere@,
                0,
                false,
                false,
                Seq::empty(),
                Seq::empty(),
            ) == Ok::<Seq<char>, Seq<char>>(out@),
            Err(_) => spec_translate(
                subs@,
                ere@,
                0,
                false,
                false,
                Seq::empty(),
                Seq::empty(),
            ) is Err,
        },
{
    let cs = chars_of(ere);
    let mut out = String::new();
    let mut in_quotes = false;
    let mut in_sub = false;
    let mut sub_name = String::new();
    let mut i: usize = 0;
    while i < cs.len()
        invariant
            i <= cs@.len(),
            cs@ == ere@,
            spec_translate(subs@, ere@, 0, false, false, Seq::empty(), Seq::empty())
                == spec_translate(
                subs@,
                ere@,
                i as int,
                in_quotes,
                in_sub,
                sub_name@,
                out@,
            ),
        decreases cs@.len() - i,
    {
        let c = cs[i];
        if in_quotes && c == '"' {
            in_quotes = false;
        } else if in_quotes {
            if c == '*' {
                out.append("\\x2a");
            } else if c == '+' {
                out.append("\\x2b");
            } else if c == '.' {
                out.append("\\x2e");
            } else if c == '{' {
                out.append("\\x7b");
            } else {
                push_char(&mut out, c);
            }
        } else if in_sub && c == '}' {
            match subs_get(subs, sub_name.as_str()) {
                Some(v) => {
                    out.append(v.as_str());
                    in_sub = false;
                    sub_name = String::new();
                },
                None => {
                    let mut msg = "Unknown substitution: ".to_owned();
                    msg.append(sub_name.as_str());
                    return Err(msg);
                },
            }
        } else if in_sub {
            push_char(&mut sub_name, c);
        } else if c == '"' {
            in_quotes = true;
        } else if c == '{' {
            in_sub = true;
        } else {
            push_char(&mut out, c);
        }
        i = i + 1;
    }
    Ok(out)
}

} // verus!

verus! {

/// What a `(\w+)\s+(.*)` capture of a definition line yields: the
/// name and value of a substitution, a function of the pattern and
/// the line alone.
pub uninterp spec fn captures_pair_of(pattern: Seq<char>, line: Seq<char>) -> Option<
    (Seq<char>, Seq<char>),
>;

/// Relies on `regex::Regex::new` and `regex::Regex::captures`: for a
/// two-group pattern, the two capture groups of the leftmost match;
/// deterministic in the pattern and the line.
#[verifier::external_body]
fn regex_captures_pair(pattern: &str, line: &str) -> (r: Option<(String, String)>)
    ensures
        match r {
            Some(p) => captures_pair_of(pattern@, line@) == Some((p.0@, p.1@)),
            None => captures_pair_of(pattern@, line@) is None,
        },
{
    match regex::Regex::new(pattern) {
        Ok(re) => re.captures(line).and_then(
            |c|
                match (c.get(1), c.get(2)) {
                    (Some(a), Some(b)) => Some(
                        (a.as_str().to_string(), b.as_str().to_string()),
                    ),
                    _ => None,
                },
        ),
        Err(_) => None,
    }
}

/// The first whitespace-separated word of a line, and the rest split
/// the same way.
fn split_whitespace_words(line: &str) -> (r: Vec<String>)
    ensures
        true,
{
    let cs = chars_of(line);
    let mut words: Vec<String> = Vec::new();
    let mut cur: Vec<char> = Vec::new();
    let mut i: usize = 0;
    while i < cs.len()
        invariant
            i <= cs@.len(),
        decreases cs@.len() - i,
    {
        let c = cs[i];
        if c == ' ' || c == '\t' || c == '\n' || c == '\r' {
            if cur.len() > 0 {
                words.push(string_of(&cur));
                cur = Vec::new();
            }
        } else {
            cur.push(c);
        }
        i = i + 1;
    }
    if cur.len() > 0 {
        words.push(string_of(&cur));
    }
    words
}

/// An ASCII letter turned lower-case; anything else passes through.
fn to_lower_ascii(c: char) -> (r: char)
    ensures
        65 <= c as u32 <= 90 ==> r as u32 == c as u32 + 32,
        !(65 <= c as u32 <= 90) ==> r == c,
{
    let v = c as u32;
    if 65 <= v && v <= 90 {
        match crate::strings::char_from_u32(v + 32) {
            Some(l) => l,
            None => c,
        }
    } else {
        c
    }
}

/// A word lower-cased, ASCII-wise.
fn lower_ascii(s: &str) -> (r: String)
    ensures
        true,
{
    let cs = chars_of(s);
    let mut out: Vec<char> = Vec::new();
    let mut i: usize = 0;
    while i < cs.len()
        invariant
            i <= cs@.len(),
        decreases cs@.len() - i,
    {
        out.push(to_lower_ascii(cs[i]));
        i = i + 1;
    }
    string_of(&out)
}

impl ParseState {
    /// Reads one line of the definitions section: `%`-commands switch
    /// modes and sections, indented or block lines collect as external
    /// definitions, `name value` lines define substitutions, and
    /// anything else that is not blank is the error.
    pub fn parse_def_line(&mut self, line: &str) -> (r: Result<(), String>)
        ensures
            line@.len() == 0 ==> r is Ok && *final(self) == *old(self),
            final(self).rules@ == old(self).rules@,
            final(self).section == old(self).section || final(self).section
                == LexSection::Rules,
            final(self).section != old(self).section ==> line@.len() > 0 && line@[0] == '%',
    {
        let cs = chars_of(line);
        if cs.len() == 0 {
            return Ok(());
        }
        let first_char = cs[0];
        if first_char == '%' {
            let mut words = split_whitespace_words(line);
            if words.len() == 0 {
                return Ok(());
            }
            let cmd = lower_ascii(words[0].as_str());
            let rest = drop_first_word(words);
            if str_equal(cmd.as_str(), "%{") {
                self.in_def = true;
            } else if str_equal(cmd.as_str(), "%}") {
                self.in_def = false;
            } else if str_equal(cmd.as_str(), "%%") {
                self.section = LexSection::Rules;
            } else if str_equal(cmd.as_str(), "%s") || str_equal(cmd.as_str(), "%start") {
                self.cond_start = rest;
            } else if str_equal(cmd.as_str(), "%x") {
                self.cond_xstart = rest;
            } else if str_equal(cmd.as_str(), "%array") {
                self.yyt_is_ptr = false;
            } else if str_equal(cmd.as_str(), "%pointer") {
                self.yyt_is_ptr = true;
            } else if str_equal(cmd.as_str(), "%p") || str_equal(cmd.as_str(), "%n")
                || str_equal(cmd.as_str(), "%a") || str_equal(cmd.as_str(), "%e")
                || str_equal(cmd.as_str(), "%k") || str_equal(cmd.as_str(), "%o") {
            } else {
            }
            return Ok(());
        }
        if self.in_def || (is_ws_char(first_char) && cs.len() > 1) {
            self.external_def.push(line.to_owned());
            return Ok(());
        }
        match regex_captures_pair("(\\w+)\\s+(.*)", line) {
            Some((name, value)) => {
                self.subs.push((name, value));
                Ok(())
            },
            None => {
                if line_is_blank(&cs) {
                    Ok(())
                } else {
                    let mut msg = "Unexpected line in definitions section: ".to_owned();
                    msg.append(line);
                    Err(msg)
                }
            },
        }
    }

    /// Reads one rule line: an expression and its action, an action
    /// continued over lines by open braces, internal definitions, or a
    /// `%`-command.
    pub fn parse_rule_line(&mut self, line: &str) -> (r: Result<(), String>)
        ensures
            line@.len() == 0 ==> r is Ok && *final(self) == *old(self),
            final(self).section == old(self).section || final(self).section
                == LexSection::UserCode,
            final(self).section != old(self).section ==> line@.len() > 0 && line@[0] == '%',
    {
        let cs = chars_of(line);
        if cs.len() == 0 {
            return Ok(());
        }
        let first_char = cs[0];
        if first_char == '%' {
            let words = split_whitespace_words(line);
            if words.len() == 0 {
                return Ok(());
            }
            if str_equal(words[0].as_str(), "%{") {
                self.in_def = true;
            } else if str_equal(words[0].as_str(), "%}") {
                self.in_def = false;
            } else if str_equal(words[0].as_str(), "%%") {
                self.section = LexSection::UserCode;
            } else {
            }
            return Ok(());
        }
        if self.open_braces > 0 {
            self.tmp_rule.action.append(line);
            match parse_braces(self.open_braces, line) {
                Ok(n) => {
                    self.open_braces = n;
                },
                Err(e) => {
                    return Err(e);
                },
            }
            if self.open_braces == 0 {
                let ere = self.tmp_rule.ere.clone();
                let action = self.tmp_rule.action.clone();
                self.push_rule(ere.as_str(), action.as_str());
                self.tmp_rule = LexRule::new();
            }
            return Ok(());
        }
        if self.in_def || (is_ws_char(first_char) && cs.len() > 1) {
            self.internal_defs.push(line.to_owned());
            return Ok(());
        }
        if line_is_blank(&cs) {
            return Ok(());
        }
        let (ere, action, open_braces) = match self.parse_rule(line) {
            Ok(t) => t,
            Err(e) => {
                return Err(e);
            },
        };
        if open_braces == 0 {
            self.push_rule(ere.as_str(), action.as_str());
        } else {
            self.tmp_rule = LexRule { ere, action };
            self.open_braces = open_braces;
        }
        Ok(())
    }

    /// Splits one rule line into its translated expression, its action
    /// text, and how many braces the action leaves open.
    pub fn parse_rule(&mut self, line: &str) -> (r: Result<(String, String, u32), String>)
        ensures
            final(self).rules@ == old(self).rules@,
            final(self).section == old(self).section,
    {
        let pos = match find_ere_end(line) {
            Ok(p) => p,
            Err(e) => {
                return Err(e);
            },
        };
        let cs = chars_of(line);
        proof {
            lemma_ere_end_in_range(line@, 0, Seq::empty(), false);
        }
        let raw_ere = string_of_range_str(&cs, 0, pos);
        let ere = match translate_ere(&self.subs, raw_ere.as_str()) {
            Ok(t) => t,
            Err(e) => {
                return Err(e);
            },
        };
        let action_ws = string_of_range_str(&cs, pos, cs.len());
        let action = trim_start_ws(action_ws.as_str());
        let open_braces = match parse_braces(0, action.as_str()) {
            Ok(n) => n,
            Err(e) => {
                return Err(e);
            },
        };
        Ok((ere, action, open_braces))
    }

    /// Collects one user-code line.
    pub fn parse_user_line(&mut self, line: &str) -> (r: Result<(), String>)
        ensures
            r is Ok,
            final(self).user_subs@.len() == old(self).user_subs@.len() + 1,
            final(self).rules@ == old(self).rules@,
            final(self).section == old(self).section,
    {
        self.user_subs.push(line.to_owned());
        Ok(())
    }
}

/// A successful expression scan ends inside the line.
proof fn lemma_ere_end_in_range(cs: Seq<char>, i: int, stack: Seq<RegexType>, inside: bool)
    ensures
        spec_ere_end(cs, i, stack, inside) matches Some(p) ==> i <= p < cs.len(),
    decreases cs.len() - i,
{
    if 0 <= i < cs.len() {
        let c = cs[i];
        if c == '[' {
            if !inside {
                lemma_ere_end_in_range(cs, i + 1, stack.push(RegexType::Square), true);
            } else {
                lemma_ere_end_in_range(cs, i + 1, stack, inside);
            }
        } else if c == '(' {
            if !inside {
                lemma_ere_end_in_range(cs, i + 1, stack.push(RegexType::Paren), inside);
            } else {
                lemma_ere_end_in_range(cs, i + 1, stack, inside);
            }
        } else if c == '{' {
            if !inside {
                lemma_ere_end_in_range(cs, i + 1, stack.push(RegexType::Curly), inside);
            } else {
                lemma_ere_end_in_range(cs, i + 1, stack, inside);
            }
        } else if c == ']' {
            if stack.len() > 0 && stack.last() == RegexType::Square {
                lemma_ere_end_in_range(cs, i + 1, stack.drop_last(), false);
            }
        } else if c == ')' {
            if inside {
                lemma_ere_end_in_range(cs, i + 1, stack, inside);
            } else if stack.len() > 0 && stack.last() == RegexType::Paren {
                lemma_ere_end_in_range(cs, i + 1, stack.drop_last(), inside);
            }
        } else if c == '}' {
            if inside {
                lemma_ere_end_in_range(cs, i + 1, stack, inside);
            } else if stack.len() > 0 && stack.last() == RegexType::Curly {
                lemma_ere_end_in_range(cs, i + 1, stack.drop_last(), inside);
            }
        } else if (c == ' ' || c == '\t' || c == '\n' || c == '\r') && stack.len() == 0 {
        } else {
            lemma_ere_end_in_range(cs, i + 1, stack, inside);
        }
    }
}

/// The words after the first, as an owned list.
fn drop_first_word(words: Vec<String>) -> (r: Vec<String>)
    ensures
        true,
{
    let mut r: Vec<String> = Vec::new();
    let mut i: usize = 1;
    while i < words.len()
        invariant
            1 <= i || words@.len() == 0,
            i <= words@.len() || i == 1,
        decreases words@.len() - i,
    {
        r.push(words[i].clone());
        i = i + 1;
    }
    r
}

/// Whether a line holds only whitespace.
fn line_is_blank(cs: &Vec<char>) -> (r: bool)
    ensures
        true,
{
    let mut i: usize = 0;
    while i < cs.len()
        invariant
            i <= cs@.len(),
        decreases cs@.len() - i,
    {
        if !is_ws_char(cs[i]) {
            return false;
        }
        i = i + 1;
    }
    true
}

/// The substring as a string.
fn string_of_range_str(cs: &Vec<char>, from: usize, to: usize) -> (r: String)
    requires
        from <= to <= cs@.len(),
    ensures
        r@ == cs@.subrange(from as int, to as int),
{
    crate::strings::string_of_range(cs, from, to)
}

/// The text with its leading whitespace removed.
fn trim_start_ws(s: &str) -> (r: String)
    ensures
        true,
{
    let cs = chars_of(s);
    let mut i: usize = 0;
    while i < cs.len() && is_ws_char(cs[i])
        invariant
            i <= cs@.len(),
        decreases cs@.len() - i,
    {
        i = i + 1;
    }
    crate::strings::string_of_range(&cs, i, cs.len())
}

impl LexInfo {
    /// The finished table a parse run leaves behind.
    pub fn from(state: &ParseState) -> (r: LexInfo)
        ensures
            r.rules@.len() == state.rules@.len(),
            forall|k: int|
                0 <= k < state.rules@.len() ==> (#[trigger] r.rules@[k]).ere@
                    == state.rules@[k].ere@ && r.rules@[k].action@ == state.rules@[k].action@,
            r.yyt_is_ptr == state.yyt_is_ptr,
    {
        LexInfo {
            external_def: clone_strings(&state.external_def),
            subs: clone_pairs(&state.subs),
            internal_defs: clone_strings(&state.internal_defs),
            cond_start: clone_strings(&state.cond_start),
            cond_xstart: clone_strings(&state.cond_xstart),
            yyt_is_ptr: state.yyt_is_ptr,
            user_subs: clone_strings(&state.user_subs),
            rules: clone_rules(&state.rules),
        }
    }
}

/// A copy of a string list.
fn clone_strings(v: &Vec<String>) -> (r: Vec<String>)
    ensures
        true,
{
    let mut r: Vec<String> = Vec::new();
    let mut i: usize = 0;
    while i < v.len()
        invariant
            i <= v@.len(),
        decreases v@.len() - i,
    {
        r.push(v[i].clone());
        i = i + 1;
    }
    r
}

/// A copy of a substitution table.
fn clone_pairs(v: &Vec<(String, String)>) -> (r: Vec<(String, String)>)
    ensures
        true,
{
    let mut r: Vec<(String, String)> = Vec::new();
    let mut i: usize = 0;
    while i < v.len()
        invariant
            i <= v@.len(),
        decreases v@.len() - i,
    {
        r.push((v[i].0.clone(), v[i].1.clone()));
        i = i + 1;
    }
    r
}

/// A copy of a rule list, field by field.
fn clone_rules(v: &Vec<LexRule>) -> (r: Vec<LexRule>)
    ensures
        r@.len() == v@.len(),
        forall|k: int|
            0 <= k < v@.len() ==> (#[trigger] r@[k]).ere@ == v@[k].ere@ && r@[k].action@
                == v@[k].action@,
{
    let mut r: Vec<LexRule> = Vec::new();
    let mut i: usize = 0;
    while i < v.len()
        invariant
            i <= v@.len(),
            r@.len() == i,
            forall|k: int|
                0 <= k < i ==> (#[trigger] r@[k]).ere@ == v@[k].ere@ && r@[k].action@
                    == v@[k].action@,
        decreases v@.len() - i,
    {
        r.push(LexRule { ere: v[i].ere.clone(), action: v[i].action.clone() });
        i = i + 1;
    }
    r
}

/// Parses a whole lex input, line by line, under the three-section
/// machine: the definitions section until the first `%%`, the rules
/// section until the second, user code after; the first failing
/// line's error is returned unchanged and ends the walk.  Sections
/// only ever advance, and only a `%`-command line moves them.
pub fn parse(input: &Vec<String>) -> (r: Result<LexInfo, String>)
    ensures
        input@.len() == 0 ==> r is Ok && (r matches Ok(info) ==> info.rules@.len() == 0
            && info.yyt_is_ptr),
{
    let mut state = ParseState::new();
    let mut i: usize = 0;
    while i < input.len()
        invariant
            i <= input@.len(),
            i == 0 ==> state.section == LexSection::Definitions && state.rules@.len() == 0
                && state.yyt_is_ptr,
        decreases input@.len() - i,
    {
        let outcome = match state.section {
            LexSection::Definitions => state.parse_def_line(input[i].as_str()),
            LexSection::Rules => state.parse_rule_line(input[i].as_str()),
            LexSection::UserCode => state.parse_user_line(input[i].as_str()),
        };
        match outcome {
            Ok(()) => {},
            Err(e) => {
                return Err(e);
            },
        }
        i = i + 1;
    }
    Ok(LexInfo::from(&state))
}

} // verus!
