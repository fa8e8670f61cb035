//! The `break`, `continue`, `return` and `eval` special builtins, and
//! the registry that classifies builtin names.

use vstd::prelude::*;

verus! {

use crate::shell::ControlFlowState;
use crate::shell::Host;
use crate::shell::Shell;
use crate::strings::str_equal;
use vstd::string::StringExecFns;

/// Which loop-control builtin is running.
#[derive(Debug, Clone, Copy, PartialEq, Eq, Structural)]
pub enum LoopControlKind {
    BreakLoop,
    ContinueLoop,
}

/// Why a control-flow builtin rejected its arguments.
#[derive(Debug, Clone, Copy, PartialEq, Eq, Structural)]
pub enum ControlFlowError {
    /// `break` or `continue` outside any loop, or `return` outside a
    /// function or dot script.
    OutsidePermittedScope,
    /// More than one argument.
    TooManyArguments,
    /// An argument that is not a number.
    ExpectedNumericArgument,
    /// A level below one.
    NotPositive,
}

/// The diagnostic text for an error, phrased for a builtin name.
pub open spec fn spec_cf_message(e: ControlFlowError, name: Seq<char>) -> Seq<char> {
    name + (match e {
        ControlFlowError::OutsidePermittedScope => ": can only be used inside 'for', 'while' and 'until' loops"@,
        ControlFlowError::TooManyArguments => ": too many arguments"@,
        ControlFlowError::ExpectedNumericArgument => ": expected numeric argument"@,
        ControlFlowError::NotPositive => ": argument has to be bigger than 0"@,
    })
}

impl ControlFlowError {
    /// The diagnostic for this error, phrased for the given builtin
    /// name.
    pub fn message(&self, name: &str) -> (r: String)
        ensures
            r@ == spec_cf_message(*self, name@),
    {
        let mut s = name.to_owned();
        match self {
            ControlFlowError::OutsidePermittedScope => {
                s.append(": can only be used inside 'for', 'while' and 'until' loops");
            },
            ControlFlowError::TooManyArguments => {
                s.append(": too many arguments");
            },
            ControlFlowError::ExpectedNumericArgument => {
                s.append(": expected numeric argument");
            },
            ControlFlowError::NotPositive => {
                s.append(": argument has to be bigger than 0");
            },
        }
        s
    }
}

/// The numeric value of an optional signed decimal argument, when it
/// reads as an `i32`.
pub open spec fn spec_parse_i32(t: Seq<char>) -> Option<i32> {
    if t.len() > 0 && t[0] == '-' {
        let ds = t.skip(1);
        if ds.len() > 0 && crate::cut::all_digits(ds) && crate::tr::dec_val(ds)
            <= 0x8000_0000 {
            Some((-(crate::tr::dec_val(ds) as int)) as i32)
        } else {
            None
        }
    } else {
        if t.len() > 0 && crate::cut::all_digits(t) && crate::tr::dec_val(t)
            <= 0x7FFF_FFFF {
            Some(crate::tr::dec_val(t) as i32)
        } else {
            None
        }
    }
}

/// Reads a signed decimal `i32`.
pub fn parse_i32(s: &str) -> (r: Option<i32>)
    ensures
        r == spec_parse_i32(s@),
{
    let cs = crate::strings::chars_of(s);
    if cs.len() == 0 {
        return None;
    }
    let neg = cs[0] == '-';
    let start: usize = if neg {
        1
    } else {
        0
    };
    if start >= cs.len() {
        return None;
    }
    let ghost ds = if neg {
        cs@.skip(1)
    } else {
        cs@
    };
    proof {
        if neg {
            assert(cs@.skip(1) =~= cs@.subrange(1, cs@.len() as int));
        } else {
            assert(cs@ =~= cs@.subrange(0, cs@.len() as int));
        }
    }
    let mut v: u64 = 0;
    let mut i = start;
    assert(ds.take(0) =~= Seq::<char>::empty());
    while i < cs.len()
        invariant
            cs@ == s@,
            start <= i <= cs@.len(),
            cs@.len() > start,
            neg == (cs@.len() > 0 && cs@[0] == '-'),
            start == (if neg {
                1int
            } else {
                0int
            }),
            ds == (if neg {
                cs@.skip(1)
            } else {
                cs@
            }),
            crate::cut::all_digits(ds.take(i - start)),
            v == crate::tr::dec_val(ds.take(i - start)),
            v <= 0x8000_0000,
        decreases cs@.len() - i,
    {
        let c = cs[i];
        let cv = c as u32;
        if cv < 48 || cv > 57 {
            assert(!crate::tr::spec_is_digit(ds[i - start]));
            assert(!crate::cut::all_digits(ds));
            return None;
        }
        proof {
            assert(ds.take(i - start + 1).drop_last() =~= ds.take(i - start));
            assert(ds.take(i - start + 1).last() == ds[i - start]);
        }
        let v2: u64 = v * 10 + (cv - 48) as u64;
        if v2 > 0x8000_0000 {
            proof {
                crate::tr::lemma_val_prefix_le(ds, i - start + 1);
            }
            return None;
        }
        v = v2;
        assert(crate::cut::all_digits(ds.take(i - start + 1)));
        i = i + 1;
    }
    proof {
        assert(ds.take(cs@.len() - start) =~= ds);
    }
    if neg {
        if v == 0x8000_0000 {
            return Some(i32::MIN);
        }
        Some(-(v as i32))
    } else {
        if v > 0x7FFF_FFFF {
            return None;
        }
        Some(v as i32)
    }
}

/// What `break n` and `continue n` set the signal to, and when they
/// fail: outside a loop, with extra arguments, with a non-numeric or
/// non-positive level; a level above the open loops is clamped to the
/// outermost one.
pub open spec fn spec_loop_control(
    loop_depth: u32,
    args: Seq<Seq<char>>,
    kind: LoopControlKind,
) -> Result<ControlFlowState, ControlFlowError> {
    if loop_depth == 0 {
        Err(ControlFlowError::OutsidePermittedScope)
    } else if args.len() > 1 {
        Err(ControlFlowError::TooManyArguments)
    } else {
        let n = if args.len() == 0 {
            Some(1i32)
        } else {
            spec_parse_i32(args[0])
        };
        match n {
            None => Err(ControlFlowError::ExpectedNumericArgument),
            Some(v) => if v < 1 {
                Err(ControlFlowError::NotPositive)
            } else {
                let lvl = if loop_depth < v as u32 {
                    loop_depth
                } else {
                    v as u32
                };
                Ok(
                    match kind {
                        LoopControlKind::BreakLoop => ControlFlowState::Break(lvl),
                        LoopControlKind::ContinueLoop => ControlFlowState::Continue(lvl),
                    },
                )
            },
        }
    }
}

/// The shared body of `break` and `continue`: checks that a loop is
/// open, reads the level, clamps it to the open depth, and raises the
/// signal.
pub fn loop_control_flow(args: &Vec<String>, shell: &mut Shell, kind: LoopControlKind) -> (r:
    Result<i32, ControlFlowError>)
    ensures
        final(shell).environment == old(shell).environment,
        final(shell).opened_files == old(shell).opened_files,
        final(shell).loop_depth == old(shell).loop_depth,
        final(shell).function_call_depth == old(shell).function_call_depth,
        match spec_loop_control(old(shell).loop_depth, args.deep_view(), kind) {
            Ok(st) => r == Ok::<i32, ControlFlowError>(0) && final(shell).control_flow_state
                == st,
            Err(e) => r == Err::<i32, ControlFlowError>(e) && final(shell).control_flow_state == old(shell).control_flow_state,
        },
{
    let ghost dargs = args.deep_view();
    proof {
        assert(dargs.len() == args@.len());
        if args@.len() > 0 {
            assert(dargs[0] == args@[0].deep_view());
        }
    }
    if shell.loop_depth == 0 {
        return Err(ControlFlowError::OutsidePermittedScope);
    }
    if args.len() > 1 {
        return Err(ControlFlowError::TooManyArguments);
    }
    let n: Option<i32> = if args.len() == 0 {
        Some(1)
    } else {
        parse_i32(args[0].as_str())
    };
    let v = match n {
        Some(v) => v,
        None => {
            return Err(ControlFlowError::ExpectedNumericArgument);
        },
    };
    if v < 1 {
        return Err(ControlFlowError::NotPositive);
    }
    let lvl: u32 = if shell.loop_depth < v as u32 {
        shell.loop_depth
    } else {
        v as u32
    };
    shell.control_flow_state = match kind {
        LoopControlKind::BreakLoop => ControlFlowState::Break(lvl),
        LoopControlKind::ContinueLoop => ControlFlowState::Continue(lvl),
    };
    Ok(0)
}

/// The `break` special builtin.
pub struct Break;

impl Break {
    /// Raises the break signal for the requested number of loops.
    pub fn exec(&self, args: &Vec<String>, shell: &mut Shell) -> (r: Result<
        i32,
        ControlFlowError,
    >)
        ensures
            final(shell).environment == old(shell).environment,
            final(shell).opened_files == old(shell).opened_files,
            final(shell).loop_depth == old(shell).loop_depth,
            final(shell).function_call_depth == old(shell).function_call_depth,
            match spec_loop_control(
                old(shell).loop_depth,
                args.deep_view(),
                LoopControlKind::BreakLoop,
            ) {
                Ok(st) => r == Ok::<i32, ControlFlowError>(0) && final(shell).control_flow_state == st,
                Err(e) => r == Err::<i32, ControlFlowError>(e) && final(shell).control_flow_state == old(shell).control_flow_state,
            },
    {
        loop_control_flow(args, shell, LoopControlKind::BreakLoop)
    }
}

/// The `continue` special builtin.
pub struct Continue;

impl Continue {
    /// Raises the continue signal for the requested loop level.
    pub fn exec(&self, args: &Vec<String>, shell: &mut Shell) -> (r: Result<
        i32,
        ControlFlowError,
    >)
        ensures
            final(shell).environment == old(shell).environment,
            final(shell).opened_files == old(shell).opened_files,
            final(shell).loop_depth == old(shell).loop_depth,
            final(shell).function_call_depth == old(shell).function_call_depth,
            match spec_loop_control(
                old(shell).loop_depth,
                args.deep_view(),
                LoopControlKind::ContinueLoop,
            ) {
                Ok(st) => r == Ok::<i32, ControlFlowError>(0) && final(shell).control_flow_state == st,
                Err(e) => r == Err::<i32, ControlFlowError>(e) && final(shell).control_flow_state == old(shell).control_flow_state,
            },
    {
        loop_control_flow(args, shell, LoopControlKind::ContinueLoop)
    }
}

/// What `return n` does: outside any function call or dot script it
/// is an error; so is more than one argument or a non-numeric one;
/// otherwise the status is the argument, zero by default.
pub open spec fn spec_return_control(
    function_call_depth: u32,
    dot_script_depth: u32,
    args: Seq<Seq<char>>,
) -> Result<i32, ControlFlowError> {
    if function_call_depth == 0 && dot_script_depth == 0 {
        Err(ControlFlowError::OutsidePermittedScope)
    } else if args.len() > 1 {
        Err(ControlFlowError::TooManyArguments)
    } else {
        let n = if args.len() == 0 {
            Some(0i32)
        } else {
            spec_parse_i32(args[0])
        };
        match n {
            None => Err(ControlFlowError::ExpectedNumericArgument),
            Some(v) => Ok(v),
        }
    }
}

/// The `return` special builtin.
pub struct Return;

impl Return {
    /// Raises the return signal, valid only inside a function call or
    /// dot script; the optional argument gives the status.
    pub fn exec(&self, args: &Vec<String>, shell: &mut Shell) -> (r: Result<
        i32,
        ControlFlowError,
    >)
        ensures
            match spec_return_control(
                old(shell).function_call_depth,
                old(shell).dot_script_depth,
                args.deep_view(),
            ) {
                Ok(v) => r == Ok::<i32, ControlFlowError>(v) && final(shell).control_flow_state
                    == ControlFlowState::Return && final(shell).environment == old(shell).environment && final(shell).opened_files == old(shell).opened_files
                    && final(shell).loop_depth == old(shell).loop_depth && final(shell).function_call_depth == old(shell).function_call_depth,
                Err(e) => r == Err::<i32, ControlFlowError>(e) && *final(shell) == *old(shell),
            },
    {
        proof {
            assert(args.deep_view().len() == args@.len());
            if args@.len() > 0 {
                assert(args.deep_view()[0] == args@[0].deep_view());
            }
        }
        if shell.function_call_depth == 0 && shell.dot_script_depth == 0 {
            return Err(ControlFlowError::OutsidePermittedScope);
        }
        if args.len() > 1 {
            return Err(ControlFlowError::TooManyArguments);
        }
        let n: i32 = if args.len() == 0 {
            0
        } else {
            match parse_i32(args[0].as_str()) {
                Some(v) => v,
                None => {
                    return Err(ControlFlowError::ExpectedNumericArgument);
                },
            }
        };
        shell.control_flow_state = ControlFlowState::Return;
        Ok(n)
    }
}

/// The words joined with single spaces, over the first `n` of them.
pub open spec fn spec_joined_words(ws: Seq<Seq<char>>, n: int) -> Seq<char>
    decreases n,
{
    if n <= 0 {
        Seq::empty()
    } else if n == 1 {
        ws[0]
    } else {
        spec_joined_words(ws, n - 1) + seq![' '] + ws[n - 1]
    }
}

/// The text `eval` hands to the parser: the arguments joined with
/// single spaces, a leading option terminator dropped first.
pub open spec fn spec_eval_text(args: Seq<Seq<char>>) -> Seq<char> {
    let rest = if args.len() > 0 && args[0] == seq!['-', '-'] {
        args.skip(1)
    } else {
        args
    };
    spec_joined_words(rest, rest.len() as int)
}

/// The `eval` special builtin.
pub struct Eval;

impl Eval {
    /// The program text `eval` hands to the parser: its arguments
    /// joined with single spaces, after an option terminator is
    /// dropped.
    pub fn program_text(&self, args: &Vec<String>) -> (r: String)
        ensures
            r@ == spec_eval_text(args.deep_view()),
    {
        let ghost dargs = args.deep_view();
        proof {
            assert(dargs.len() == args@.len());
            assert forall|t: int|
                0 <= t < args@.len() implies dargs[t] == (#[trigger] args@[t])@ by {
                assert(dargs[t] == args@[t].deep_view());
            }
            reveal_strlit("--");
        }
        let mut start: usize = 0;
        if args.len() > 0 && str_equal(args[0].as_str(), "--") {
            proof {
                assert(dargs[0] =~= seq!['-', '-']);
            }
            start = 1;
        } else {
            proof {
                if args@.len() > 0 {
                    assert("--"@ =~= seq!['-', '-']);
                }
            }
        }
        let ghost rest = if dargs.len() > 0 && dargs[0] == seq!['-', '-'] {
            dargs.skip(1)
        } else {
            dargs
        };
        proof {
            assert(rest.len() == dargs.len() - start);
            assert forall|t: int| 0 <= t < rest.len() implies rest[t] == dargs[t + start] by {}
        }
        let mut s = String::new();
        let mut i = start;
        while i < args.len()
            invariant
                start <= i <= args@.len(),
                start == 0 || start == 1,
                start <= args@.len(),
                dargs == args.deep_view(),
                dargs.len() == args@.len(),
                forall|t: int| 0 <= t < args@.len() ==> dargs[t] == (#[trigger] args@[t])@,
                rest == (if dargs.len() > 0 && dargs[0] == seq!['-', '-'] {
                    dargs.skip(1)
                } else {
                    dargs
                }),
                start == (if dargs.len() > 0 && dargs[0] == seq!['-', '-'] {
                    1int
                } else {
                    0int
                }),
                s@ == spec_joined_words(rest, i - start),
            decreases args@.len() - i,
        {
            proof {
                assert(rest[i - start] == dargs[i as int]);
            }
            if i > start {
                s.append(" ");
                proof {
                    reveal_strlit(" ");
                    assert(" "@ =~= seq![' ']);
                }
            }
            s.append(args[i].as_str());
            i = i + 1;
        }
        s
    }
}

/// The special builtins the dispatcher knows.
#[derive(Debug, Clone, Copy, PartialEq, Eq, Structural)]
pub enum SpecialBuiltin {
    BreakBuiltin,
    ContinueBuiltin,
    ReturnBuiltin,
    EvalBuiltin,
}

/// The special builtin a name denotes, if any: `break`, `continue`,
/// `return` or `eval`.
pub fn get_special_builtin_utility(name: &str) -> (r: Option<SpecialBuiltin>)
    ensures
        r == Some(SpecialBuiltin::BreakBuiltin) <==> name@ == "break"@,
        r == Some(SpecialBuiltin::ContinueBuiltin) <==> name@ == "continue"@,
        r == Some(SpecialBuiltin::ReturnBuiltin) <==> name@ == "return"@,
        r == Some(SpecialBuiltin::EvalBuiltin) <==> name@ == "eval"@,
        r is Some <==> (name@ == "break"@ || name@ == "continue"@ || name@ == "return"@
            || name@ == "eval"@),
    {
    proof {
        broadcast use vstd::string::group_string_axioms;

        reveal_strlit("break");
        reveal_strlit("continue");
        reveal_strlit("return");
        reveal_strlit("eval");
        assert("break"@.len() == 5);
        assert("continue"@.len() == 8);
        assert("return"@.len() == 6);
        assert("eval"@.len() == 4);
    }
    if str_equal(name, "break") {
        Some(SpecialBuiltin::BreakBuiltin)
    } else if str_equal(name, "continue") {
        Some(SpecialBuiltin::ContinueBuiltin)
    } else if str_equal(name, "return") {
        Some(SpecialBuiltin::ReturnBuiltin)
    } else if str_equal(name, "eval") {
        Some(SpecialBuiltin::EvalBuiltin)
    } else {
        None
    }
}

/// The regular builtin a name denotes; this shell knows none yet.
pub fn get_bultin_utility(name: &str) -> (r: Option<SpecialBuiltin>)
    ensures
        r is None,
{
    let _ = name;
    None
}

} // verus!
