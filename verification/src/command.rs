//! The shell program syntax tree: words, redirections, simple and
//! compound commands, pipelines, conjunctions and complete commands.
//!
//! Every node can print itself back as shell text; the contracts give
//! that text exactly, through the `*_text` specification functions.

use vstd::prelude::*;

verus! {

use vstd::string::StringExecFns;

/// A variable or function name.
pub type Name = String;

/// One syntactic piece of an unexpanded word.
#[derive(Debug, Clone, PartialEq, Eq)]
pub enum WordPart {
    UnquotedLiteral(String),
    QuotedLiteral(String),
    /// `$name` or `${name}`, with the flag telling whether it stood
    /// inside double quotes.
    ParameterExpansion { name: String, inside_double_quotes: bool },
}

/// A word as the parser delivers it.
#[derive(Debug, Clone, PartialEq, Eq)]
pub struct Word {
    pub parts: Vec<WordPart>,
}

/// A word together with the source text it was parsed from.
#[derive(Debug, Clone, PartialEq, Eq)]
pub struct WordPair {
    pub word: Word,
    pub as_string: String,
}

/// A sequence with at least one element.
#[derive(Debug, Clone, PartialEq, Eq)]
pub struct NonEmpty<T> {
    pub head: T,
    pub tail: Vec<T>,
}

impl<T> NonEmpty<T> {
    /// A one-element sequence.
    pub fn new(head: T) -> (r: Self)
        ensures
            r.head == head,
            r.tail@ == Seq::<T>::empty(),
    {
        NonEmpty { head, tail: Vec::new() }
    }

    /// The first element.
    pub fn first(&self) -> (r: &T)
        ensures
            r == &self.head,
    {
        &self.head
    }

    /// How many elements there are; always at least one.
    pub fn len(&self) -> (r: usize)
        requires
            self.tail@.len() < usize::MAX,
        ensures
            r == 1 + self.tail@.len(),
    {
        1 + self.tail.len()
    }
}

/// The kind of a file redirection operator.
#[derive(Debug, PartialEq, Eq, Structural, Clone, Copy)]
pub enum IORedirectionKind {
    RedirectOutput,
    RedirectOutputClobber,
    RedirectOuputAppend,
    DuplicateOutput,
    RedirectInput,
    DuplicateInput,
    OpenRW,
}

/// The operator text of a redirection kind.
pub open spec fn io_kind_text(k: IORedirectionKind) -> Seq<char> {
    match k {
        IORedirectionKind::RedirectOutput => ">"@,
        IORedirectionKind::RedirectOutputClobber => ">|"@,
        IORedirectionKind::RedirectOuputAppend => ">>"@,
        IORedirectionKind::DuplicateOutput => ">&"@,
        IORedirectionKind::RedirectInput => "<"@,
        IORedirectionKind::DuplicateInput => "<&"@,
        IORedirectionKind::OpenRW => "<>"@,
    }
}

impl IORedirectionKind {
    /// The operator as text.
    pub fn to_string(&self) -> (r: String)
        ensures
            r@ == io_kind_text(*self),
    {
        match self {
            IORedirectionKind::RedirectOutput => ">".to_owned(),
            IORedirectionKind::RedirectOutputClobber => ">|".to_owned(),
            IORedirectionKind::RedirectOuputAppend => ">>".to_owned(),
            IORedirectionKind::DuplicateOutput => ">&".to_owned(),
            IORedirectionKind::RedirectInput => "<".to_owned(),
            IORedirectionKind::DuplicateInput => "<&".to_owned(),
            IORedirectionKind::OpenRW => "<>".to_owned(),
        }
    }
}

/// What a redirection does.
#[derive(Debug, Clone, PartialEq, Eq)]
pub enum RedirectionKind {
    IORedirection { kind: IORedirectionKind, file: WordPair },
    HereDocument(Word),
    QuotedHereDocument(String),
}

/// The text of a file redirection: operator, space, target word; a
/// here-document prints nothing here, its contents having been taken
/// up at parse time.
pub open spec fn redirection_kind_text(rk: RedirectionKind) -> Seq<char> {
    match rk {
        RedirectionKind::IORedirection { kind, file } => io_kind_text(kind) + " "@
            + file.as_string@,
        _ => Seq::empty(),
    }
}

impl RedirectionKind {
    /// The redirection as text; here-documents carry no operator text.
    pub fn to_string(&self) -> (r: String)
        ensures
            r@ == redirection_kind_text(*self),
    {
        match self {
            RedirectionKind::IORedirection { kind, file } => {
                let mut s = kind.to_string();
                s.append(" ");
                s.append(file.as_string.as_str());
                s
            },
            _ => String::new(),
        }
    }
}

/// A redirection, optionally aimed at an explicit file descriptor.
#[derive(Debug, Clone, PartialEq, Eq)]
pub struct Redirection {
    pub file_descriptor: Option<u32>,
    pub kind: RedirectionKind,
}

/// A variable assignment attached to a command.
#[derive(Debug, Clone, PartialEq, Eq)]
pub struct Assignment {
    pub name: Name,
    pub value: WordPair,
}

/// The text of an assignment, with its closing newline.
pub open spec fn assignment_text(a: Assignment) -> Seq<char> {
    a.name@ + "="@ + a.value.as_string@ + "\n"@
}

impl Assignment {
    /// The assignment as `name=value` text with a closing newline.
    pub fn to_string(&self) -> (r: String)
        ensures
            r@ == assignment_text(*self),
    {
        let mut s = self.name.clone();
        s.append("=");
        s.append(self.value.as_string.as_str());
        s.append("\n");
        s
    }
}

} // verus!

verus! {

/// A simple command: assignments, redirections and words.
#[derive(Debug, Clone, PartialEq, Eq, Default)]
pub struct SimpleCommand {
    pub assignments: Vec<Assignment>,
    pub redirections: Vec<Redirection>,
    pub words: Vec<WordPair>,
}

/// The text of a list of assignments, one trailing space each.
pub open spec fn assignments_text(s: Seq<Assignment>) -> Seq<char>
    decreases s,
{
    if s.len() == 0 {
        Seq::empty()
    } else {
        assignments_text(s.drop_last()) + assignment_text(s.last()) + " "@
    }
}

/// The text of a list of words, one trailing space each.
pub open spec fn words_text(s: Seq<WordPair>) -> Seq<char>
    decreases s,
{
    if s.len() == 0 {
        Seq::empty()
    } else {
        words_text(s.drop_last()) + s.last().as_string@ + " "@
    }
}

/// The text of a list of redirections, one trailing space each.
pub open spec fn redirections_text(s: Seq<Redirection>) -> Seq<char>
    decreases s,
{
    if s.len() == 0 {
        Seq::empty()
    } else {
        redirections_text(s.drop_last()) + redirection_kind_text(s.last().kind) + " "@
    }
}

/// The text of a simple command: assignments, then words, then
/// redirections.
pub open spec fn simple_command_text(sc: SimpleCommand) -> Seq<char> {
    assignments_text(sc.assignments@) + words_text(sc.words@) + redirections_text(
        sc.redirections@,
    )
}

impl SimpleCommand {
    /// `None` when the command holds nothing at all, the command
    /// otherwise.
    pub fn none_if_empty(self) -> (r: Option<Self>)
        ensures
            self.assignments@.len() == 0 && self.redirections@.len() == 0 && self.words@.len()
                == 0 ==> r is None,
            !(self.assignments@.len() == 0 && self.redirections@.len() == 0
                && self.words@.len() == 0) ==> r == Some(self),
    {
        if self.assignments.len() == 0 && self.redirections.len() == 0 && self.words.len()
            == 0 {
            None
        } else {
            Some(self)
        }
    }

    /// The command as text.
    pub fn to_string(&self) -> (r: String)
        ensures
            r@ == simple_command_text(*self),
    {
        let mut s = String::new();
        let mut i: usize = 0;
        assert(s@ =~= assignments_text(self.assignments@.take(0)));
        while i < self.assignments.len()
            invariant
                i <= self.assignments@.len(),
                s@ == assignments_text(self.assignments@.take(i as int)),
            decreases self.assignments@.len() - i,
        {
            let t = self.assignments[i].to_string();
            s.append(t.as_str());
            s.append(" ");
            i = i + 1;
            proof {
                assert(self.assignments@.take(i as int).drop_last() =~= self.assignments@.take(
                    i - 1,
                ));
            }
        }
        assert(self.assignments@.take(self.assignments@.len() as int) =~= self.assignments@);
        let ghost base1 = s@;
        let mut j: usize = 0;
        assert(s@ =~= base1 + words_text(self.words@.take(0)));
        while j < self.words.len()
            invariant
                j <= self.words@.len(),
                s@ == base1 + words_text(self.words@.take(j as int)),
            decreases self.words@.len() - j,
        {
            s.append(self.words[j].as_string.as_str());
            s.append(" ");
            j = j + 1;
            proof {
                assert(self.words@.take(j as int).drop_last() =~= self.words@.take(j - 1));
                assert(s@ =~= base1 + words_text(self.words@.take(j as int)));
            }
        }
        assert(self.words@.take(self.words@.len() as int) =~= self.words@);
        let ghost base2 = s@;
        let mut k: usize = 0;
        assert(s@ =~= base2 + redirections_text(self.redirections@.take(0)));
        while k < self.redirections.len()
            invariant
                k <= self.redirections@.len(),
                s@ == base2 + redirections_text(self.redirections@.take(k as int)),
            decreases self.redirections@.len() - k,
        {
            let t = self.redirections[k].kind.to_string();
            s.append(t.as_str());
            s.append(" ");
            k = k + 1;
            proof {
                assert(self.redirections@.take(k as int).drop_last()
                    =~= self.redirections@.take(k - 1));
                assert(s@ =~= base2 + redirections_text(self.redirections@.take(k as int)));
            }
        }
        assert(self.redirections@.take(self.redirections@.len() as int)
            =~= self.redirections@);
        s
    }
}

/// One arm of a `case` clause.
#[derive(Debug, PartialEq, Eq)]
pub struct CaseItem {
    pub pattern: NonEmpty<WordPair>,
    pub body: CompleteCommand,
}

/// One branch of an `if` chain.
#[derive(Debug, PartialEq, Eq)]
pub struct If {
    pub condition: CompleteCommand,
    pub body: CompleteCommand,
}

/// A compound command.
#[derive(Debug, PartialEq, Eq)]
pub enum CompoundCommand {
    BraceGroup(CompleteCommand),
    Subshell(CompleteCommand),
    ForClause { iter_var: Name, words: Vec<WordPair>, body: CompleteCommand },
    CaseClause { arg: WordPair, cases: Vec<CaseItem> },
    IfClause { if_chain: NonEmpty<If>, else_body: Option<CompleteCommand> },
    WhileClause { condition: CompleteCommand, body: CompleteCommand },
    UntilClause { condition: CompleteCommand, body: CompleteCommand },
}

/// A function definition; the body is shared so that installing the
/// function keeps the tree intact.
#[derive(Debug, PartialEq, Eq)]
pub struct FunctionDefinition {
    pub name: Name,
    pub body: std::rc::Rc<CompoundCommand>,
}

/// The payload of a command.
#[derive(Debug, PartialEq, Eq)]
pub enum CommandType {
    FunctionDefinition(FunctionDefinition),
    SimpleCommand(SimpleCommand),
    CompoundCommand { command: Box<CompoundCommand>, redirections: Vec<Redirection> },
}

/// A command with the source line it came from.
#[derive(Debug, PartialEq, Eq)]
pub struct Command {
    pub type_: CommandType,
    pub lineno: u32,
}

/// Commands joined by pipes, with an optional status negation.
#[derive(Debug, PartialEq, Eq)]
pub struct Pipeline {
    pub commands: NonEmpty<Command>,
    pub negate_status: bool,
}

/// How one pipeline's status feeds the next.
#[derive(Debug, PartialEq, Eq, Structural, Clone, Copy)]
pub enum LogicalOp {
    And,
    Or,
    End,
}

/// Pipelines joined by `&&` and `||`, possibly asynchronous.
#[derive(Debug, PartialEq, Eq)]
pub struct Conjunction {
    pub elements: NonEmpty<(Pipeline, LogicalOp)>,
    pub is_async: bool,
}

/// One complete command: a list of conjunctions.
#[derive(Debug, PartialEq, Eq)]
pub struct CompleteCommand {
    pub commands: NonEmpty<Conjunction>,
}

/// A whole program.
#[derive(Debug, PartialEq, Eq)]
pub struct Program {
    pub commands: Vec<CompleteCommand>,
}

} // verus!

verus! {

/// The text of a case item: the patterns joined by `|`, then the body,
/// then the double semicolon.
pub open spec fn case_item_text(ci: CaseItem) -> Seq<char>
    decreases ci,
{
    "("@ + ci.pattern.head.as_string@ + patterns_text(ci.pattern.tail@) + ")"@ + " "@
        + complete_command_text(ci.body) + ";;"@
}

/// The text of the further patterns of a case item.
pub open spec fn patterns_text(s: Seq<WordPair>) -> Seq<char>
    decreases s,
{
    if s.len() == 0 {
        Seq::empty()
    } else {
        patterns_text(s.drop_last()) + " | "@ + s.last().as_string@
    }
}

/// The text of the case items of a case clause.
pub open spec fn cases_text(s: Seq<CaseItem>) -> Seq<char>
    decreases s,
{
    if s.len() == 0 {
        Seq::empty()
    } else {
        cases_text(s.drop_last()) + " "@ + case_item_text(s.last())
    }
}

/// The text of the `for` words, one leading space each.
pub open spec fn for_words_text(s: Seq<WordPair>) -> Seq<char>
    decreases s,
{
    if s.len() == 0 {
        Seq::empty()
    } else {
        for_words_text(s.drop_last()) + " "@ + s.last().as_string@
    }
}

/// The text of the later branches of an `if` chain.
pub open spec fn if_chain_text(s: Seq<If>) -> Seq<char>
    decreases s,
{
    if s.len() == 0 {
        Seq::empty()
    } else {
        if_chain_text(s.drop_last()) + "else if "@ + complete_command_text(
            s.last().condition,
        ) + " then "@ + complete_command_text(s.last().body)
    }
}

/// The text of a compound command, exactly as it prints itself.
pub open spec fn compound_command_text(cc: CompoundCommand) -> Seq<char>
    decreases cc,
{
    match cc {
        CompoundCommand::BraceGroup(c) => "{ "@ + complete_command_text(c) + " }"@,
        CompoundCommand::Subshell(c) => "("@ + complete_command_text(c) + ")"@,
        CompoundCommand::ForClause { iter_var, words, body } => "for "@ + iter_var@ + " in"@
            + for_words_text(words@) + "; do "@ + complete_command_text(body) + " done"@
            + complete_command_text(body) + "; done\n"@,
        CompoundCommand::CaseClause { arg, cases } => "case "@ + arg.as_string@ + " in"@
            + cases_text(cases@) + " esac"@,
        CompoundCommand::IfClause { if_chain, else_body } => "if "@ + complete_command_text(
            if_chain.head.condition,
        ) + " then "@ + complete_command_text(if_chain.head.body) + if_chain_text(
            if_chain.tail@,
        ) + (match else_body {
            Some(e) => "else"@ + complete_command_text(e),
            None => Seq::empty(),
        }) + "fi"@,
        CompoundCommand::WhileClause { condition, body } => "while "@
            + complete_command_text(condition) + " do "@ + complete_command_text(body)
            + complete_command_text(body) + "done"@,
        CompoundCommand::UntilClause { condition, body } => "until "@
            + complete_command_text(condition) + " do "@ + complete_command_text(body)
            + complete_command_text(body) + "done"@,
    }
}

/// The text of the redirections after a compound command, unspaced.
pub open spec fn redirections_text_unspaced(s: Seq<Redirection>) -> Seq<char>
    decreases s,
{
    if s.len() == 0 {
        Seq::empty()
    } else {
        redirections_text_unspaced(s.drop_last()) + redirection_kind_text(s.last().kind)
    }
}

/// The text of a command's payload.
pub open spec fn command_type_text(ct: CommandType) -> Seq<char>
    decreases ct,
{
    match ct {
        CommandType::FunctionDefinition(f) => f.name@ + " () "@ + compound_command_text(
            *f.body,
        ),
        CommandType::SimpleCommand(sc) => simple_command_text(sc),
        CommandType::CompoundCommand { command, redirections } => compound_command_text(
            *command,
        ) + redirections_text_unspaced(redirections@),
    }
}

/// The text of a command.
pub open spec fn command_text(c: Command) -> Seq<char>
    decreases c,
{
    command_type_text(c.type_)
}

/// The text of the later stages of a pipeline.
pub open spec fn pipe_tail_text(s: Seq<Command>) -> Seq<char>
    decreases s,
{
    if s.len() == 0 {
        Seq::empty()
    } else {
        pipe_tail_text(s.drop_last()) + " | "@ + command_text(s.last())
    }
}

/// The text of a pipeline.
pub open spec fn pipeline_text(p: Pipeline) -> Seq<char>
    decreases p,
{
    command_text(p.commands.head) + pipe_tail_text(p.commands.tail@)
}

/// The text of one pipeline with its following operator.
pub open spec fn element_text(e: (Pipeline, LogicalOp)) -> Seq<char>
    decreases e,
{
    match e.1 {
        LogicalOp::And => pipeline_text(e.0) + " && "@,
        LogicalOp::Or => pipeline_text(e.0) + " || "@,
        LogicalOp::End => pipeline_text(e.0),
    }
}

/// The text of the later elements of a conjunction.
pub open spec fn elements_text(s: Seq<(Pipeline, LogicalOp)>) -> Seq<char>
    decreases s,
{
    if s.len() == 0 {
        Seq::empty()
    } else {
        elements_text(s.drop_last()) + element_text(s.last())
    }
}

/// The text of a conjunction: its pipelines with their operators, then
/// `&` for an asynchronous one or `;` when a semicolon is asked for.
pub open spec fn conjunction_text(cj: Conjunction, print_semicolon: bool) -> Seq<char>
    decreases cj,
{
    element_text(cj.elements.head) + elements_text(cj.elements.tail@) + (if cj.is_async {
        "&"@
    } else if print_semicolon {
        ";"@
    } else {
        Seq::empty()
    })
}

/// The text of the later conjunctions of a complete command.
pub open spec fn conjunctions_text(s: Seq<Conjunction>) -> Seq<char>
    decreases s,
{
    if s.len() == 0 {
        Seq::empty()
    } else {
        conjunctions_text(s.drop_last()) + conjunction_text(s.last(), true)
    }
}

/// The text of a complete command: every conjunction with a trailing
/// terminator.
pub open spec fn complete_command_text(c: CompleteCommand) -> Seq<char>
    decreases c,
{
    conjunction_text(c.commands.head, true) + conjunctions_text(c.commands.tail@)
}

} // verus!

verus! {

impl CaseItem {
    /// The case item as text.
    #[verifier::loop_isolation(false)]
    #[verifier::rlimit(60)]
    pub fn to_string(&self) -> (r: String)
        ensures
            r@ == case_item_text(*self),
        decreases self,
    {
        let mut s = "(".to_owned();
        s.append(self.pattern.head.as_string.as_str());
        let ghost base = s@;
        let mut i: usize = 0;
        assert(s@ =~= base + patterns_text(self.pattern.tail@.take(0)));
        while i < self.pattern.tail.len()
            invariant
                i <= self.pattern.tail@.len(),
                s@ == base + patterns_text(self.pattern.tail@.take(i as int)),
            decreases self.pattern.tail@.len() - i,
        {
            s.append(" | ");
            s.append(self.pattern.tail[i].as_string.as_str());
            i = i + 1;
            proof {
                assert(self.pattern.tail@.take(i as int).drop_last()
                    =~= self.pattern.tail@.take(i - 1));
                assert(s@ =~= base + patterns_text(self.pattern.tail@.take(i as int)));
            }
        }
        assert(self.pattern.tail@.take(self.pattern.tail@.len() as int)
            =~= self.pattern.tail@);
        s.append(")");
        s.append(" ");
        let bt = self.body.to_string();
        s.append(bt.as_str());
        s.append(";;");
        s
    }
}

impl CompoundCommand {
    /// The compound command as text, exactly as the grammar nodes
    /// print themselves.
    #[verifier::loop_isolation(false)]
    #[verifier::rlimit(100)]
    pub fn to_string(&self) -> (r: String)
        ensures
            r@ == compound_command_text(*self),
        decreases self,
    {
        match self {
            CompoundCommand::BraceGroup(c) => {
                let mut s = "{ ".to_owned();
                let t = c.to_string();
                s.append(t.as_str());
                s.append(" }");
                s
            },
            CompoundCommand::Subshell(c) => {
                let mut s = "(".to_owned();
                let t = c.to_string();
                s.append(t.as_str());
                s.append(")");
                s
            },
            CompoundCommand::ForClause { iter_var, words, body } => {
                let mut s = "for ".to_owned();
                s.append(iter_var.as_str());
                s.append(" in");
                let ghost base = s@;
                let mut i: usize = 0;
                assert(s@ =~= base + for_words_text(words@.take(0)));
                while i < words.len()
                    invariant
                        i <= words@.len(),
                        s@ == base + for_words_text(words@.take(i as int)),
                    decreases words@.len() - i,
                {
                    s.append(" ");
                    s.append(words[i].as_string.as_str());
                    i = i + 1;
                    proof {
                        assert(words@.take(i as int).drop_last() =~= words@.take(i - 1));
                        assert(s@ =~= base + for_words_text(words@.take(i as int)));
                    }
                }
                assert(words@.take(words@.len() as int) =~= words@);
                s.append("; do ");
                let bt = body.to_string();
                s.append(bt.as_str());
                s.append(" done");
                s.append(bt.as_str());
                s.append("; done\n");
                s
            },
            CompoundCommand::CaseClause { arg, cases } => {
                let mut s = "case ".to_owned();
                s.append(arg.as_string.as_str());
                s.append(" in");
                let ghost base = s@;
                let mut i: usize = 0;
                assert(s@ =~= base + cases_text(cases@.take(0)));
                while i < cases.len()
                    invariant
                        i <= cases@.len(),
                        s@ == base + cases_text(cases@.take(i as int)),
                    decreases cases@.len() - i,
                {
                    s.append(" ");
                    let ct = cases[i].to_string();
                    s.append(ct.as_str());
                    i = i + 1;
                    proof {
                        assert(cases@.take(i as int).drop_last() =~= cases@.take(i - 1));
                        assert(s@ =~= base + cases_text(cases@.take(i as int)));
                    }
                }
                assert(cases@.take(cases@.len() as int) =~= cases@);
                s.append(" esac");
                s
            },
            CompoundCommand::IfClause { if_chain, else_body } => {
                let mut s = "if ".to_owned();
                let ct = if_chain.head.condition.to_string();
                s.append(ct.as_str());
                s.append(" then ");
                let bt = if_chain.head.body.to_string();
                s.append(bt.as_str());
                let ghost base = s@;
                let mut i: usize = 0;
                assert(s@ =~= base + if_chain_text(if_chain.tail@.take(0)));
                while i < if_chain.tail.len()
                    invariant
                        i <= if_chain.tail@.len(),
                        s@ == base + if_chain_text(if_chain.tail@.take(i as int)),
                    decreases if_chain.tail@.len() - i,
                {
                    s.append("else if ");
                    let c2 = if_chain.tail[i].condition.to_string();
                    s.append(c2.as_str());
                    s.append(" then ");
                    let b2 = if_chain.tail[i].body.to_string();
                    s.append(b2.as_str());
                    i = i + 1;
                    proof {
                        assert(if_chain.tail@.take(i as int).drop_last()
                            =~= if_chain.tail@.take(i - 1));
                        assert(s@ =~= base + if_chain_text(if_chain.tail@.take(i as int)));
                    }
                }
                assert(if_chain.tail@.take(if_chain.tail@.len() as int) =~= if_chain.tail@);
                match else_body {
                    Some(e) => {
                        s.append("else");
                        let et = e.to_string();
                        s.append(et.as_str());
                    },
                    None => {},
                }
                s.append("fi");
                s
            },
            CompoundCommand::WhileClause { condition, body } => {
                let mut s = "while ".to_owned();
                let ct = condition.to_string();
                s.append(ct.as_str());
                s.append(" do ");
                let bt = body.to_string();
                s.append(bt.as_str());
                s.append(bt.as_str());
                s.append("done");
                s
            },
            CompoundCommand::UntilClause { condition, body } => {
                let mut s = "until ".to_owned();
                let ct = condition.to_string();
                s.append(ct.as_str());
                s.append(" do ");
                let bt = body.to_string();
                s.append(bt.as_str());
                s.append(bt.as_str());
                s.append("done");
                s
            },
        }
    }
}

impl CommandType {
    /// The payload as text.
    #[verifier::loop_isolation(false)]
    #[verifier::rlimit(60)]
    pub fn to_string(&self) -> (r: String)
        ensures
            r@ == command_type_text(*self),
        decreases self,
    {
        match self {
            CommandType::FunctionDefinition(f) => {
                let mut s = f.name.clone();
                s.append(" () ");
                let bt = f.body.to_string();
                s.append(bt.as_str());
                s
            },
            CommandType::SimpleCommand(sc) => sc.to_string(),
            CommandType::CompoundCommand { command, redirections } => {
                let mut s = command.to_string();
                let ghost base = s@;
                let mut i: usize = 0;
                assert(s@ =~= base + redirections_text_unspaced(redirections@.take(0)));
                while i < redirections.len()
                    invariant
                        i <= redirections@.len(),
                        s@ == base + redirections_text_unspaced(
                            redirections@.take(i as int),
                        ),
                    decreases redirections@.len() - i,
                {
                    let rt = redirections[i].kind.to_string();
                    s.append(rt.as_str());
                    i = i + 1;
                    proof {
                        assert(redirections@.take(i as int).drop_last()
                            =~= redirections@.take(i - 1));
                        assert(s@ =~= base + redirections_text_unspaced(
                            redirections@.take(i as int),
                        ));
                    }
                }
                assert(redirections@.take(redirections@.len() as int) =~= redirections@);
                s
            },
        }
    }
}

impl Command {
    /// A command at a source line.
    pub fn new(type_: CommandType, lineno: u32) -> (r: Self)
        ensures
            r.type_ == type_,
            r.lineno == lineno,
    {
        Self { type_, lineno }
    }

    /// The command as text.
    pub fn to_string(&self) -> (r: String)
        ensures
            r@ == command_text(*self),
        decreases self,
    {
        self.type_.to_string()
    }
}

impl Pipeline {
    /// The pipeline as text, stages joined by pipes.
    #[verifier::loop_isolation(false)]
    #[verifier::rlimit(60)]
    pub fn to_string(&self) -> (r: String)
        ensures
            r@ == pipeline_text(*self),
        decreases self,
    {
        let mut s = self.commands.head.to_string();
        let ghost base = s@;
        let mut i: usize = 0;
        assert(s@ =~= base + pipe_tail_text(self.commands.tail@.take(0)));
        while i < self.commands.tail.len()
            invariant
                i <= self.commands.tail@.len(),
                s@ == base + pipe_tail_text(self.commands.tail@.take(i as int)),
            decreases self.commands.tail@.len() - i,
        {
            s.append(" | ");
            let ct = self.commands.tail[i].to_string();
            s.append(ct.as_str());
            i = i + 1;
            proof {
                assert(self.commands.tail@.take(i as int).drop_last()
                    =~= self.commands.tail@.take(i - 1));
                assert(s@ =~= base + pipe_tail_text(self.commands.tail@.take(i as int)));
            }
        }
        assert(self.commands.tail@.take(self.commands.tail@.len() as int)
            =~= self.commands.tail@);
        s
    }
}

/// Writes one pipeline-with-operator element onto `string`.
fn write_element(e: &(Pipeline, LogicalOp), string: &mut String)
    ensures
        final(string)@ == old(string)@ + element_text(*e),
    decreases e,
{
    let pt = e.0.to_string();
    string.append(pt.as_str());
    match e.1 {
        LogicalOp::And => {
            string.append(" && ");
        },
        LogicalOp::Or => {
            string.append(" || ");
        },
        LogicalOp::End => {},
    }
}

impl Conjunction {
    /// Appends the conjunction's text, closing it with `&` when it is
    /// asynchronous, or with `;` when a semicolon is asked for.
    #[verifier::loop_isolation(false)]
    #[verifier::rlimit(60)]
    pub fn write_into_string(&self, string: &mut String, print_semicolon: bool)
        ensures
            final(string)@ == old(string)@ + conjunction_text(*self, print_semicolon),
        decreases self,
    {
        write_element(&self.elements.head, string);
        let ghost base = string@;
        let mut i: usize = 0;
        assert(string@ =~= base + elements_text(self.elements.tail@.take(0)));
        while i < self.elements.tail.len()
            invariant
                i <= self.elements.tail@.len(),
                string@ == base + elements_text(self.elements.tail@.take(i as int)),
            decreases self.elements.tail@.len() - i,
        {
            write_element(&self.elements.tail[i], string);
            i = i + 1;
            proof {
                assert(self.elements.tail@.take(i as int).drop_last()
                    =~= self.elements.tail@.take(i - 1));
                assert(string@ =~= base + elements_text(
                    self.elements.tail@.take(i as int),
                ));
            }
        }
        assert(self.elements.tail@.take(self.elements.tail@.len() as int)
            =~= self.elements.tail@);
        if self.is_async {
            string.append("&");
        } else if print_semicolon {
            string.append(";");
        }
    }
}

impl CompleteCommand {
    /// The whole command list as text, every conjunction terminated.
    #[verifier::loop_isolation(false)]
    #[verifier::rlimit(60)]
    pub fn to_string(&self) -> (r: String)
        ensures
            r@ == complete_command_text(*self),
        decreases self,
    {
        let mut result = String::new();
        self.commands.head.write_into_string(&mut result, true);
        let ghost base = result@;
        let mut i: usize = 0;
        assert(result@ =~= base + conjunctions_text(self.commands.tail@.take(0)));
        while i < self.commands.tail.len()
            invariant
                i <= self.commands.tail@.len(),
                result@ == base + conjunctions_text(self.commands.tail@.take(i as int)),
            decreases self.commands.tail@.len() - i,
        {
            self.commands.tail[i].write_into_string(&mut result, true);
            i = i + 1;
            proof {
                assert(self.commands.tail@.take(i as int).drop_last()
                    =~= self.commands.tail@.take(i - 1));
                assert(result@ =~= base + conjunctions_text(
                    self.commands.tail@.take(i as int),
                ));
            }
        }
        assert(self.commands.tail@.take(self.commands.tail@.len() as int)
            =~= self.commands.tail@);
        result
    }
}

} // verus!
