//! Expansion of parsed words against the environment: parameter
//! expansion, a leading-tilde rewrite, joining to a single string for
//! redirection targets and assignments, and splitting into fields for
//! command words.
//!
//! Command substitution and arithmetic expansion are not performed
//! here; a word that asks for them is outside these functions'
//! domains.

use vstd::prelude::*;

verus! {

use crate::command::Word;
use crate::command::WordPart;
use crate::environment::spec_lookup;
use crate::environment::Environment;
use crate::strings::chars_of;
use crate::wordexp::split_fields;
use crate::wordexp::spec_split_fields;
use crate::wordexp::words_model;
use crate::wordexp::ExpandedWord;
use crate::wordexp::PartTag;
use vstd::string::StrSliceExecFns;
use vstd::string::StringExecFns;

/// The model of one word part.
pub enum PartModel {
    Unquoted(Seq<char>),
    Quoted(Seq<char>),
    Param(Seq<char>, bool),
}

/// The model of a word part.
pub open spec fn part_model(p: WordPart) -> PartModel {
    match p {
        WordPart::UnquotedLiteral(s) => PartModel::Unquoted(s@),
        WordPart::QuotedLiteral(s) => PartModel::Quoted(s@),
        WordPart::ParameterExpansion { name, inside_double_quotes } => PartModel::Param(
            name@,
            inside_double_quotes,
        ),
    }
}

/// The model of a word.
pub open spec fn word_model(w: Word) -> Seq<PartModel> {
    w.parts@.map(|i: int, p: WordPart| part_model(p))
}

/// What a parameter expands to: the variable's value, or nothing when
/// it is unset.
pub open spec fn param_value(env: Seq<(Seq<char>, crate::environment::VarModel)>, name: Seq<char>) -> Seq<char> {
    match spec_lookup(env, name) {
        Some(vm) => vm.value,
        None => Seq::empty(),
    }
}

/// The joined text of the first `n` parts of a word, without field
/// splitting; parameters contribute their values.
pub open spec fn joined_expansion(
    m: Seq<PartModel>,
    n: int,
    env: Seq<(Seq<char>, crate::environment::VarModel)>,
) -> Seq<char>
    decreases n,
{
    if n <= 0 {
        Seq::empty()
    } else {
        joined_expansion(m, n - 1, env) + (match m[n - 1] {
            PartModel::Unquoted(s) => s,
            PartModel::Quoted(s) => s,
            PartModel::Param(name, _) => param_value(env, name),
        })
    }
}

/// Whether a word begins with an unquoted tilde that these functions
/// rewrite: a lone `~`, or `~/` opening a path.
pub open spec fn tilde_applies(m: Seq<PartModel>) -> bool {
    &&& m.len() > 0
    &&& m[0] matches PartModel::Unquoted(s)
    &&& (m[0]->Unquoted_0.len() == 1 && m[0]->Unquoted_0[0] == '~' || m[0]->Unquoted_0.len()
        > 1 && m[0]->Unquoted_0[0] == '~' && m[0]->Unquoted_0[1] == '/')
}

/// A word model with its leading tilde replaced by the home directory.
pub open spec fn tilde_rewritten(
    m: Seq<PartModel>,
    env: Seq<(Seq<char>, crate::environment::VarModel)>,
) -> Seq<PartModel> {
    if tilde_applies(m) {
        m.update(
            0,
            PartModel::Unquoted(
                param_value(env, "HOME"@) + m[0]->Unquoted_0.skip(1),
            ),
        )
    } else {
        m
    }
}

/// What `expand_word_to_string` returns: the joined expansion of the
/// tilde-rewritten word when tilde expansion is allowed, of the word
/// itself otherwise.
pub open spec fn spec_expand_word_to_string(
    w: Word,
    tilde: bool,
    env: Seq<(Seq<char>, crate::environment::VarModel)>,
) -> Seq<char> {
    let m = if tilde {
        tilde_rewritten(word_model(w), env)
    } else {
        word_model(w)
    };
    joined_expansion(m, m.len() as int, env)
}

/// A word free of expansion requests: literal and quoted parts only.
pub open spec fn literal_only(m: Seq<PartModel>) -> bool {
    forall|i: int| 0 <= i < m.len() ==> !((#[trigger] m[i]) is Param)
}

/// The plain text of a word, as the parser saw it.
pub open spec fn word_literal_text(m: Seq<PartModel>, n: int) -> Seq<char>
    decreases n,
{
    if n <= 0 {
        Seq::empty()
    } else {
        word_literal_text(m, n - 1) + (match m[n - 1] {
            PartModel::Unquoted(s) => s,
            PartModel::Quoted(s) => s,
            PartModel::Param(name, _) => Seq::empty(),
        })
    }
}

/// A word with no parameter, command or arithmetic request and no
/// leading tilde expands to its own literal text, exactly.
pub proof fn law_literal_word_round_trip(
    w: Word,
    tilde: bool,
    env: Seq<(Seq<char>, crate::environment::VarModel)>,
)
    requires
        literal_only(word_model(w)),
        !tilde_applies(word_model(w)),
    ensures
        spec_expand_word_to_string(w, tilde, env) == word_literal_text(
            word_model(w),
            word_model(w).len() as int,
        ),
{
    let m = word_model(w);
    lemma_literal_joined(m, m.len() as int, env);
}

/// Pointwise: on literal-only prefixes the expansion is the literal
/// text.
proof fn lemma_literal_joined(
    m: Seq<PartModel>,
    n: int,
    env: Seq<(Seq<char>, crate::environment::VarModel)>,
)
    requires
        literal_only(m),
        n <= m.len(),
    ensures
        joined_expansion(m, n, env) == word_literal_text(m, n),
    decreases n,
{
    if n > 0 {
        lemma_literal_joined(m, n - 1, env);
    }
}

/// Expands a word to a single string: a leading tilde, then
/// parameters from the environment; no field splitting and no
/// pathname expansion.  Used for redirection targets and assignment
/// values.  Only the leading `~` and `~/` forms are rewritten, and a
/// word that starts so is eligible both as a command word and as an
/// assignment value, so the assignment flag decides nothing in this
/// subset; the `~user` form and the colon-separated tildes of an
/// assignment value would each need a user-database lookup the
/// environment cannot answer.
pub fn expand_word_to_string(word: &Word, is_assignment: bool, env: &Environment) -> (r:
    String)
    ensures
        r@ == spec_expand_word_to_string(*word, true, env@),
{
    let mut out = String::new();
    let ghost m = tilde_rewritten(word_model(*word), env@);
    let mut i: usize = 0;
    let tilde_start = word_starts_with_tilde(word);
    if tilde_start {
        let home = match env.get_value("HOME") {
            Some(v) => v,
            None => String::new(),
        };
        out.append(home.as_str());
        proof {
            assert(word_model(*word)[0] == part_model(word.parts@[0]));
        }
        match &word.parts[0] {
            WordPart::UnquotedLiteral(s) => {
                let cs = chars_of(s.as_str());
                assert(cs@.len() >= 1);
                let rest = crate::strings::string_of_range(&cs, 1, cs.len());
                proof {
                    assert(cs@.subrange(1, cs@.len() as int) =~= s@.skip(1));
                }
                out.append(rest.as_str());
            },
            _ => {
                proof {
                    assert(false);
                }
            },
        }
        i = 1;
        proof {
            assert(m[0] == PartModel::Unquoted(
                param_value(env@, "HOME"@) + word_model(*word)[0]->Unquoted_0.skip(1),
            ));
            assert(joined_expansion(m, 0, env@) == Seq::<char>::empty());
            assert(out@ =~= joined_expansion(m, 1, env@));
        }
    } else {
        assert(out@ =~= joined_expansion(m, 0, env@));
    }
    while i < word.parts.len()
        invariant
            i <= word.parts@.len(),
            m == tilde_rewritten(word_model(*word), env@),
            m.len() == word.parts@.len(),
            i == 0 ==> !tilde_applies(word_model(*word)),
            !tilde_applies(word_model(*word)) ==> m == word_model(*word),
            forall|t: int|
                1 <= t < m.len() ==> m[t] == part_model(#[trigger] word.parts@[t]),
            out@ == joined_expansion(m, i as int, env@),
        decreases word.parts@.len() - i,
    {
        proof {
            if i == 0 {
                assert(m[0] == part_model(word.parts@[0]));
            }
        }
        match &word.parts[i] {
            WordPart::UnquotedLiteral(s) => {
                out.append(s.as_str());
            },
            WordPart::QuotedLiteral(s) => {
                out.append(s.as_str());
            },
            WordPart::ParameterExpansion { name, inside_double_quotes } => {
                match env.get_value(name.as_str()) {
                    Some(v) => {
                        out.append(v.as_str());
                    },
                    None => {},
                }
            },
        }
        i = i + 1;
    }
    let _ = is_assignment;
    out
}

/// Whether the word starts with a tilde these functions rewrite.
pub fn word_starts_with_tilde_pub(word: &Word) -> (r: bool)
    ensures
        r == tilde_applies(word_model(*word)),
{
    word_starts_with_tilde(word)
}

/// Whether the word starts with a tilde these functions rewrite.
fn word_starts_with_tilde(word: &Word) -> (r: bool)
    ensures
        r == tilde_applies(word_model(*word)),
{
    if word.parts.len() == 0 {
        return false;
    }
    match &word.parts[0] {
        WordPart::UnquotedLiteral(s) => {
            let cs = chars_of(s.as_str());
            if cs.len() == 1 && cs[0] == '~' {
                assert(word_model(*word)[0] == part_model(word.parts@[0]));
                true
            } else if cs.len() > 1 && cs[0] == '~' && cs[1] == '/' {
                assert(word_model(*word)[0] == part_model(word.parts@[0]));
                true
            } else {
                assert(word_model(*word)[0] == part_model(word.parts@[0]));
                false
            }
        },
        _ => {
            assert(word_model(*word)[0] == part_model(word.parts@[0]));
            false
        },
    }
}

} // verus!
