use posixutils::command::{
    Assignment, Command, CommandType, CompleteCommand, CompoundCommand, Conjunction,
    IORedirectionKind, LogicalOp, NonEmpty, Pipeline, Program, Redirection, RedirectionKind,
    SimpleCommand, Word, WordPair, WordPart,
};
use posixutils::environment::Variable;
use posixutils::shell::{
    apply_redirections, FdAction, FdTable, Host, Shell,
};

struct MockHost {
    stdout: String,
    errors: Vec<String>,
}

impl MockHost {
    fn new() -> MockHost {
        MockHost { stdout: String::new(), errors: Vec::new() }
    }

    fn emulate(&mut self, name: &str, args: &[String]) -> i32 {
        match name {
            "true" => 0,
            "false" => 1,
            "echo" => {
                self.stdout.push_str(&args.join(" "));
                self.stdout.push('\n');
                0
            }
            "[" => {
                if args.len() == 4 && args[1] == "=" && args[3] == "]" {
                    if args[0] == args[2] {
                        0
                    } else {
                        1
                    }
                } else {
                    2
                }
            }
            _ => 127,
        }
    }
}

fn base_name(path: &str) -> &str {
    match path.rfind('/') {
        Some(i) => &path[i + 1..],
        None => path,
    }
}

impl Host for MockHost {
    fn run_external(
        &mut self,
        path: &String,
        args: &Vec<String>,
        _env_vars: &Vec<(String, String)>,
        _fds: &FdTable,
    ) -> i32 {
        let name = base_name(path).to_string();
        self.emulate(&name, args)
    }

    fn run_pipeline_stages(&mut self, _shell: &Shell, pipeline: &Pipeline) -> Vec<i32> {
        // One process per stage; the mock emulates the handful of
        // utilities the scenarios use, wiring printf output to grep.
        let mut statuses = Vec::new();
        let mut commands = vec![&pipeline.commands.head];
        for c in pipeline.commands.tail.iter() {
            commands.push(c);
        }
        let mut piped = String::new();
        for cmd in commands {
            if let CommandType::SimpleCommand(sc) = &cmd.type_ {
                let mut words = Vec::new();
                for w in sc.words.iter() {
                    words.push(w.as_string.clone());
                }
                if words.is_empty() {
                    statuses.push(0);
                    continue;
                }
                match words[0].as_str() {
                    "printf" => {
                        piped = words[1].replace("\\n", "\n");
                        statuses.push(0);
                    }
                    "grep" => {
                        let needle = words[1].clone();
                        let mut out = String::new();
                        for line in piped.lines() {
                            if line.contains(&needle) {
                                out.push_str(line);
                                out.push('\n');
                            }
                        }
                        self.stdout.push_str(&out);
                        statuses.push(if out.is_empty() { 1 } else { 0 });
                    }
                    "false" => statuses.push(1),
                    "true" => statuses.push(0),
                    other => {
                        let args = words[1..].to_vec();
                        let s = self.emulate(other, &args);
                        statuses.push(s);
                    }
                }
            } else {
                statuses.push(0);
            }
        }
        statuses
    }

    fn glob_matches(&mut self, _cwd: &String, _pattern: &String) -> Vec<String> {
        Vec::new()
    }

    fn is_file(&mut self, path: &String) -> bool {
        path.starts_with("/bin/")
    }

    fn parse_program(&mut self, _text: &String) -> Option<Program> {
        None
    }

    fn launch_async(&mut self, _shell: &Shell, _conjunction: &Conjunction) -> i32 {
        4242
    }

    fn report_error(&mut self, message: &String) {
        self.errors.push(message.clone());
    }
}

struct NoFilesHost {
    errors: Vec<String>,
}

impl Host for NoFilesHost {
    fn run_external(
        &mut self,
        _path: &String,
        _args: &Vec<String>,
        _env_vars: &Vec<(String, String)>,
        _fds: &FdTable,
    ) -> i32 {
        127
    }
    fn run_pipeline_stages(&mut self, _shell: &Shell, _p: &Pipeline) -> Vec<i32> {
        Vec::new()
    }
    fn glob_matches(&mut self, _c: &String, _p: &String) -> Vec<String> {
        Vec::new()
    }
    fn is_file(&mut self, _p: &String) -> bool {
        false
    }
    fn parse_program(&mut self, _t: &String) -> Option<Program> {
        None
    }
    fn launch_async(&mut self, _shell: &Shell, _conjunction: &Conjunction) -> i32 {
        -1
    }
    fn report_error(&mut self, m: &String) {
        self.errors.push(m.clone());
    }
}

fn lit_word(s: &str) -> Word {
    Word { parts: vec![WordPart::UnquotedLiteral(s.to_string())] }
}

fn param_word(name: &str) -> Word {
    Word {
        parts: vec![WordPart::ParameterExpansion {
            name: name.to_string(),
            inside_double_quotes: false,
        }],
    }
}

fn wp(s: &str) -> WordPair {
    WordPair { word: lit_word(s), as_string: s.to_string() }
}

fn wp_param(name: &str) -> WordPair {
    let mut text = String::from("$");
    text.push_str(name);
    WordPair { word: param_word(name), as_string: text }
}

fn simple(words: Vec<WordPair>) -> Command {
    Command {
        type_: CommandType::SimpleCommand(SimpleCommand {
            assignments: Vec::new(),
            redirections: Vec::new(),
            words,
        }),
        lineno: 1,
    }
}

fn assign(name: &str, value: &str) -> Command {
    Command {
        type_: CommandType::SimpleCommand(SimpleCommand {
            assignments: vec![Assignment { name: name.to_string(), value: wp(value) }],
            redirections: Vec::new(),
            words: Vec::new(),
        }),
        lineno: 1,
    }
}

fn pipeline_of(cmds: Vec<Command>, negate: bool) -> Pipeline {
    let mut it = cmds.into_iter();
    let head = it.next().unwrap();
    Pipeline { commands: NonEmpty { head, tail: it.collect() }, negate_status: negate }
}

fn conj_single(p: Pipeline) -> Conjunction {
    Conjunction { elements: NonEmpty { head: (p, LogicalOp::End), tail: Vec::new() }, is_async: false }
}

fn complete_of_command(c: Command) -> CompleteCommand {
    CompleteCommand {
        commands: NonEmpty { head: conj_single(pipeline_of(vec![c], false)), tail: Vec::new() },
    }
}

fn program_of(cs: Vec<Command>) -> Program {
    Program { commands: cs.into_iter().map(complete_of_command).collect() }
}

fn shell_with_path() -> Shell {
    let mut shell = Shell::new();
    shell.environment.set("PATH", "/bin".to_string(), true).unwrap();
    shell
}

fn compound(cc: CompoundCommand) -> Command {
    Command {
        type_: CommandType::CompoundCommand { command: Box::new(cc), redirections: Vec::new() },
        lineno: 1,
    }
}

#[test]
fn break_two_leaves_both_loops() {
    // A doubly-nested for loop; `break 2` in the inner body ends both
    // loops before the outer body's trailing assignment ever runs,
    // and execution resumes after the outer loop.
    let inner = CompoundCommand::ForClause {
        iter_var: "j".to_string(),
        words: vec![wp("1"), wp("2")],
        body: complete_of_command(simple(vec![wp("break"), wp("2")])),
    };
    let outer_body = CompleteCommand {
        commands: NonEmpty {
            head: conj_single(pipeline_of(vec![compound(inner)], false)),
            tail: vec![conj_single(pipeline_of(vec![assign("OUTER", "ran")], false))],
        },
    };
    let outer = CompoundCommand::ForClause {
        iter_var: "i".to_string(),
        words: vec![wp("1"), wp("2")],
        body: outer_body,
    };
    let program = program_of(vec![compound(outer), assign("AFTER", "yes")]);
    let mut shell = shell_with_path();
    let mut host = MockHost::new();
    shell.interpret_program(&mut host, &program, 1000);
    assert_eq!(shell.environment.get_value("i"), Some("1".to_string()));
    assert_eq!(shell.environment.get_value("j"), Some("1".to_string()));
    assert_eq!(shell.environment.get_value("OUTER"), None);
    assert_eq!(shell.environment.get_value("AFTER"), Some("yes".to_string()));
}

#[test]
fn continue_skips_rest_of_inner_iteration() {
    // `continue` in the inner loop skips the inner body's tail on
    // every iteration, while the outer loop runs to completion.
    let inner_body = CompleteCommand {
        commands: NonEmpty {
            head: conj_single(pipeline_of(vec![simple(vec![wp("continue")])], false)),
            tail: vec![conj_single(pipeline_of(vec![assign("INNER", "ran")], false))],
        },
    };
    let inner = CompoundCommand::ForClause {
        iter_var: "j".to_string(),
        words: vec![wp("1"), wp("2")],
        body: inner_body,
    };
    let outer = CompoundCommand::ForClause {
        iter_var: "i".to_string(),
        words: vec![wp("1"), wp("2")],
        body: complete_of_command(compound(inner)),
    };
    let program = program_of(vec![compound(outer)]);
    let mut shell = shell_with_path();
    let mut host = MockHost::new();
    shell.interpret_program(&mut host, &program, 1000);
    assert_eq!(shell.environment.get_value("INNER"), None);
    assert_eq!(shell.environment.get_value("i"), Some("2".to_string()));
    assert_eq!(shell.environment.get_value("j"), Some("2".to_string()));
}

#[test]
fn pipeline_reports_last_stage_status() {
    // `false | true` reports the last stage's status: zero.
    let p = pipeline_of(vec![simple(vec![wp("false")]), simple(vec![wp("true")])], false);
    let program = Program {
        commands: vec![CompleteCommand {
            commands: NonEmpty { head: conj_single(p), tail: Vec::new() },
        }],
    };
    let mut shell = shell_with_path();
    let mut host = MockHost::new();
    let status = shell.interpret_program(&mut host, &program, 100);
    assert_eq!(status, 0);
}

#[test]
fn negated_pipeline_inverts_status() {
    // `! false` reports zero; `! true` reports one.
    let p1 = pipeline_of(vec![simple(vec![wp("false")])], true);
    let program1 = Program {
        commands: vec![CompleteCommand {
            commands: NonEmpty { head: conj_single(p1), tail: Vec::new() },
        }],
    };
    let mut shell = shell_with_path();
    let mut host = MockHost::new();
    assert_eq!(shell.interpret_program(&mut host, &program1, 100), 0);
    let p2 = pipeline_of(vec![simple(vec![wp("true")])], true);
    let program2 = Program {
        commands: vec![CompleteCommand {
            commands: NonEmpty { head: conj_single(p2), tail: Vec::new() },
        }],
    };
    assert_eq!(shell.interpret_program(&mut host, &program2, 100), 1);
}

#[test]
fn negated_multi_stage_pipeline_inverts_last_status() {
    // `! false | true` inverts the last stage's zero into one.
    let p = pipeline_of(vec![simple(vec![wp("false")]), simple(vec![wp("true")])], true);
    let program = Program {
        commands: vec![CompleteCommand {
            commands: NonEmpty { head: conj_single(p), tail: Vec::new() },
        }],
    };
    let mut shell = shell_with_path();
    let mut host = MockHost::new();
    assert_eq!(shell.interpret_program(&mut host, &program, 100), 1);
}

#[test]
fn assignment_then_parameter_expansion() {
    // `VAR=hello; echo $VAR` writes `hello` and succeeds.
    let program = program_of(vec![
        assign("VAR", "hello"),
        simple(vec![wp("echo"), wp_param("VAR")]),
    ]);
    let mut shell = shell_with_path();
    let mut host = MockHost::new();
    let status = shell.interpret_program(&mut host, &program, 100);
    assert_eq!(host.stdout, "hello\n");
    assert_eq!(status, 0);
}

#[test]
fn and_or_chain_short_circuits() {
    // `false && echo no || echo yes`: the failed `&&` skips `echo no`
    // but keeps the status, so the `||` branch runs `echo yes`;
    // output is `yes` and the status is zero.
    let cj = Conjunction {
        elements: NonEmpty {
            head: (pipeline_of(vec![simple(vec![wp("false")])], false), LogicalOp::And),
            tail: vec![
                (pipeline_of(vec![simple(vec![wp("echo"), wp("no")])], false), LogicalOp::Or),
                (pipeline_of(vec![simple(vec![wp("echo"), wp("yes")])], false), LogicalOp::End),
            ],
        },
        is_async: false,
    };
    let program = Program {
        commands: vec![CompleteCommand { commands: NonEmpty { head: cj, tail: Vec::new() } }],
    };
    let mut shell = shell_with_path();
    let mut host = MockHost::new();
    let status = shell.interpret_program(&mut host, &program, 100);
    assert_eq!(host.stdout, "yes\n");
    assert_eq!(status, 0);
}

#[test]
fn for_loop_with_break_on_match() {
    // `for i in 1 2 3; do if [ $i = 2 ]; then break; fi; echo $i; done`
    // writes `1` alone.
    let test_cmd = simple(vec![wp("["), wp_param("i"), wp("="), wp("2"), wp("]")]);
    let if_clause = CompoundCommand::IfClause {
        if_chain: NonEmpty {
            head: posixutils::command::If {
                condition: complete_of_command(test_cmd),
                body: complete_of_command(simple(vec![wp("break")])),
            },
            tail: Vec::new(),
        },
        else_body: None,
    };
    let body = CompleteCommand {
        commands: NonEmpty {
            head: conj_single(pipeline_of(vec![compound(if_clause)], false)),
            tail: vec![conj_single(pipeline_of(
                vec![simple(vec![wp("echo"), wp_param("i")])],
                false,
            ))],
        },
    };
    let f = CompoundCommand::ForClause {
        iter_var: "i".to_string(),
        words: vec![wp("1"), wp("2"), wp("3")],
        body,
    };
    let program = program_of(vec![compound(f)]);
    let mut shell = shell_with_path();
    let mut host = MockHost::new();
    shell.interpret_program(&mut host, &program, 1000);
    assert_eq!(host.stdout, "1\n");
}

#[test]
fn pipeline_printf_grep() {
    // `printf 'a\nb\n' | grep a` writes `a` and succeeds.
    let p = pipeline_of(
        vec![
            simple(vec![wp("printf"), wp("a\\nb\\n")]),
            simple(vec![wp("grep"), wp("a")]),
        ],
        false,
    );
    let program = Program {
        commands: vec![CompleteCommand {
            commands: NonEmpty { head: conj_single(p), tail: Vec::new() },
        }],
    };
    let mut shell = shell_with_path();
    let mut host = MockHost::new();
    let status = shell.interpret_program(&mut host, &program, 100);
    assert_eq!(host.stdout, "a\n");
    assert_eq!(status, 0);
}

#[test]
fn command_not_found_gives_127() {
    // With nothing on the path, dispatch reports 127 and a
    // diagnostic.
    let program = program_of(vec![simple(vec![wp("no-such-command")])]);
    let mut shell = Shell::new();
    let mut host = NoFilesHost { errors: Vec::new() };
    let status = shell.interpret_program(&mut host, &program, 100);
    assert!(host.errors.iter().any(|e| e.contains("command not found")));
    assert_eq!(status, 127);
}

#[test]
fn function_definition_and_call() {
    // f() { X=set; }; f   — the function body's assignment lands in
    // the calling shell's environment.
    let body = CompoundCommand::BraceGroup(complete_of_command(assign("X", "set")));
    let def = Command {
        type_: CommandType::FunctionDefinition(posixutils::command::FunctionDefinition {
            name: "f".to_string(),
            body: std::rc::Rc::new(body),
        }),
        lineno: 1,
    };
    let program = program_of(vec![def, simple(vec![wp("f")])]);
    let mut shell = Shell::new();
    let mut host = MockHost::new();
    let status = shell.interpret_program(&mut host, &program, 100);
    assert_eq!(status, 0);
    assert_eq!(shell.environment.get_value("X"), Some("set".to_string()));
}

#[test]
fn break_outside_loop_is_an_error() {
    let program = program_of(vec![simple(vec![wp("break")])]);
    let mut shell = Shell::new();
    let mut host = MockHost::new();
    let status = shell.interpret_program(&mut host, &program, 100);
    assert_eq!(status, 1);
    assert!(host.errors.iter().any(|e| e.contains("can only be used inside")));
}

#[test]
fn last_redirection_wins_for_a_descriptor() {
    // Two output redirections of descriptor 1: the table keeps only
    // the later one.
    let env = posixutils::environment::Environment::new();
    let reds = vec![
        Redirection {
            file_descriptor: Some(1),
            kind: RedirectionKind::IORedirection {
                kind: IORedirectionKind::RedirectOutput,
                file: wp("first.txt"),
            },
        },
        Redirection {
            file_descriptor: Some(1),
            kind: RedirectionKind::IORedirection {
                kind: IORedirectionKind::RedirectOuputAppend,
                file: wp("second.txt"),
            },
        },
    ];
    let mut table = FdTable::new();
    apply_redirections(&mut table, &reds, &env, false).unwrap();
    let mut found = None;
    for (fd, action) in table.entries.iter() {
        if *fd == 1 {
            found = Some(action.clone());
        }
    }
    match found {
        Some(FdAction::OpenFile { path, kind, noclobber }) => {
            assert_eq!(path, "second.txt");
            assert_eq!(kind, IORedirectionKind::RedirectOuputAppend);
            assert!(!noclobber);
        }
        other => panic!("unexpected table entry: {:?}", other),
    }
}

#[test]
fn duplicate_and_close_redirections() {
    let env = posixutils::environment::Environment::new();
    let reds = vec![
        Redirection {
            file_descriptor: Some(2),
            kind: RedirectionKind::IORedirection {
                kind: IORedirectionKind::DuplicateOutput,
                file: wp("1"),
            },
        },
        Redirection {
            file_descriptor: Some(3),
            kind: RedirectionKind::IORedirection {
                kind: IORedirectionKind::DuplicateInput,
                file: wp("-"),
            },
        },
    ];
    let mut table = FdTable::new();
    apply_redirections(&mut table, &reds, &env, false).unwrap();
    assert!(table.entries.iter().any(|(fd, a)| *fd == 2 && *a == FdAction::Duplicate(1)));
    assert!(table.entries.iter().any(|(fd, a)| *fd == 3 && *a == FdAction::Close));
}

#[test]
fn expand_word_to_string_literal_round_trip() {
    // A word with no parameter, command or arithmetic construct
    // expands to exactly its literal text.
    let env = posixutils::environment::Environment::new();
    let word = Word {
        parts: vec![
            WordPart::UnquotedLiteral("he".to_string()),
            WordPart::QuotedLiteral("llo wor".to_string()),
            WordPart::UnquotedLiteral("ld".to_string()),
        ],
    };
    let s = posixutils::expansion::expand_word_to_string(&word, false, &env);
    assert_eq!(s, "hello world");
}

#[test]
fn tilde_expands_to_home() {
    let mut env = posixutils::environment::Environment::new();
    env.set("HOME", "/home/me".to_string(), true).unwrap();
    let word = Word { parts: vec![WordPart::UnquotedLiteral("~/docs".to_string())] };
    let s = posixutils::expansion::expand_word_to_string(&word, false, &env);
    assert_eq!(s, "/home/me/docs");
}

#[test]
fn pathname_expansion_keeps_unmatched_pattern() {
    // No filesystem match: the literal pattern text comes back, and
    // running the expansion again changes nothing.
    let once =
        posixutils::shell::pathname_expand_field("*.nomatch".to_string(), Vec::new());
    assert_eq!(once, vec!["*.nomatch".to_string()]);
    let twice =
        posixutils::shell::pathname_expand_field(once[0].clone(), Vec::new());
    assert_eq!(twice, vec!["*.nomatch".to_string()]);
}

#[test]
fn readonly_variable_rejects_assignment() {
    let mut env = posixutils::environment::Environment::new();
    env.entries.push((
        "FIXED".to_string(),
        Variable { value: "v".to_string(), export: false, readonly: true },
    ));
    let r = env.set("FIXED", "w".to_string(), false);
    assert_eq!(r, Err(posixutils::environment::EnvError::Readonly));
    assert_eq!(env.get_value("FIXED"), Some("v".to_string()));
}

#[test]
fn async_conjunction_records_pid_and_succeeds() {
    // An `&` conjunction is launched through the host without
    // waiting: the shell records the spawned id and reports zero.
    let cj = Conjunction {
        elements: NonEmpty {
            head: (pipeline_of(vec![simple(vec![wp("false")])], false), LogicalOp::End),
            tail: Vec::new(),
        },
        is_async: true,
    };
    let program = Program {
        commands: vec![CompleteCommand { commands: NonEmpty { head: cj, tail: Vec::new() } }],
    };
    let mut shell = shell_with_path();
    let mut host = MockHost::new();
    let status = shell.interpret_program(&mut host, &program, 100);
    assert_eq!(status, 0);
    assert_eq!(shell.most_recent_background_command_pid, 4242);
}

#[test]
fn quoted_pattern_text_is_not_globbed() {
    // A field whose pattern characters came from quoted text asks the
    // filesystem nothing; the star reaches the command verbatim.
    let word = Word { parts: vec![WordPart::QuotedLiteral("*".to_string())] };
    let pair = WordPair { word, as_string: "\"*\"".to_string() };
    let program = program_of(vec![simple(vec![wp("echo"), pair])]);
    let mut shell = shell_with_path();
    let mut host = CountingGlobHost { inner: MockHost::new(), glob_calls: 0 };
    let status = shell.interpret_program(&mut host, &program, 100);
    assert_eq!(status, 0);
    assert_eq!(host.inner.stdout, "*\n");
    assert_eq!(host.glob_calls, 0);
}

struct CountingGlobHost {
    inner: MockHost,
    glob_calls: u32,
}

impl Host for CountingGlobHost {
    fn run_external(
        &mut self,
        path: &String,
        args: &Vec<String>,
        env_vars: &Vec<(String, String)>,
        fds: &FdTable,
    ) -> i32 {
        self.inner.run_external(path, args, env_vars, fds)
    }
    fn run_pipeline_stages(&mut self, shell: &Shell, p: &Pipeline) -> Vec<i32> {
        self.inner.run_pipeline_stages(shell, p)
    }
    fn glob_matches(&mut self, cwd: &String, pattern: &String) -> Vec<String> {
        self.glob_calls += 1;
        self.inner.glob_matches(cwd, pattern)
    }
    fn is_file(&mut self, p: &String) -> bool {
        self.inner.is_file(p)
    }
    fn parse_program(&mut self, t: &String) -> Option<Program> {
        self.inner.parse_program(t)
    }
    fn launch_async(&mut self, shell: &Shell, c: &Conjunction) -> i32 {
        self.inner.launch_async(shell, c)
    }
    fn report_error(&mut self, m: &String) {
        self.inner.report_error(m)
    }
}

#[test]
fn noclobber_mark_rides_on_plain_output_redirections() {
    // With noclobber set, a `>` action carries the mark for the
    // opener to enforce, while `>|` and `>>` stay clobber-free.
    let env = posixutils::environment::Environment::new();
    let reds = vec![
        Redirection {
            file_descriptor: Some(1),
            kind: RedirectionKind::IORedirection {
                kind: IORedirectionKind::RedirectOutput,
                file: wp("out.txt"),
            },
        },
        Redirection {
            file_descriptor: Some(2),
            kind: RedirectionKind::IORedirection {
                kind: IORedirectionKind::RedirectOutputClobber,
                file: wp("err.txt"),
            },
        },
    ];
    let mut table = FdTable::new();
    apply_redirections(&mut table, &reds, &env, true).unwrap();
    assert!(table.entries.iter().any(|(fd, a)| *fd == 1 && matches!(
        a,
        FdAction::OpenFile { noclobber: true, kind: IORedirectionKind::RedirectOutput, .. }
    )));
    assert!(table.entries.iter().any(|(fd, a)| *fd == 2 && matches!(
        a,
        FdAction::OpenFile {
            noclobber: true,
            kind: IORedirectionKind::RedirectOutputClobber,
            ..
        }
    )));
}
