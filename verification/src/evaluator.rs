//! Depth-first backtracking evaluation of an instruction program.
//!
//! The search walks `(program counter, input position)` pairs. A `Split`
//! records its second target as a pending alternative and follows its
//! first; a failed path resumes the most recent pending alternative. The
//! semantics is captured by the fuel-indexed step function [`run`]: the
//! evaluator is proved to return exactly what `run` yields at some fuel.

use vstd::prelude::*;

use crate::ast::SpecAst;
use crate::ast::code_len;
use crate::codegen::CodeGenError;
use crate::codegen::gen_code;
use crate::codegen::program_spec;
use crate::instruction::Instruction;
use crate::parser::ParseError;
use crate::parser::parse;
use crate::parser::parse_spec;
use crate::parser::str_chars;

verus! {

/// Errors of the evaluation stage.
///
/// `PCOverFlow` and `SPOverFlow` mark an exhausted program-counter or
/// input-position counter, `InvalidPC` a program counter outside the
/// instruction array, and `InvalidContext` is reserved for invariant
/// violations not otherwise classified. Evaluation proves that it returns
/// `InvalidPC` at most: the counters of a valid search never wrap.
#[derive(Debug, Clone, Copy, PartialEq, Eq)]
pub enum EvalError {
    PCOverFlow,
    SPOverFlow,
    InvalidPC,
    InvalidContext,
}

/// A unified failure of the whole matching pipeline: the stage taxonomies
/// are kept apart, never conflated.
#[derive(Debug, Clone, Copy, PartialEq, Eq)]
pub enum MatchError {
    Parse(ParseError),
    CodeGen(CodeGenError),
    Eval(EvalError),
}

/// One depth-first backtracking search step over the program `inst` and
/// the input `line`, from program counter `pc` and input position `sp`,
/// with `stack` holding the pending `(pc, sp)` alternatives, most recent
/// last. `None` means the search needs more than `fuel` steps; otherwise
/// the result is the search's outcome: a match verdict or a structural
/// error.
pub open spec fn run(
    inst: Seq<Instruction>,
    line: Seq<char>,
    stack: Seq<(usize, usize)>,
    pc: usize,
    sp: usize,
    fuel: nat,
) -> Option<Result<bool, EvalError>>
    decreases fuel,
{
    if fuel == 0 {
        None
    } else if pc >= inst.len() {
        Some(Err(EvalError::InvalidPC))
    } else {
        match inst[pc as int] {
            Instruction::Char(c) => {
                if sp < line.len() && line[sp as int] == c {
                    run(inst, line, stack, (pc + 1) as usize, (sp + 1) as usize, (fuel - 1) as nat)
                } else if stack.len() == 0 {
                    Some(Ok(false))
                } else {
                    run(
                        inst,
                        line,
                        stack.drop_last(),
                        stack.last().0,
                        stack.last().1,
                        (fuel - 1) as nat,
                    )
                }
            },
            Instruction::Match => Some(Ok(true)),
            Instruction::Jump(a) => run(inst, line, stack, a, sp, (fuel - 1) as nat),
            Instruction::Split(a1, a2) => run(
                inst,
                line,
                stack.push((a2, sp)),
                a1,
                sp,
                (fuel - 1) as nat,
            ),
        }
    }
}

/// The depth-first search from `(0, 0)` with no pending alternatives
/// finishes within some number of steps.
pub open spec fn search_terminates(inst: Seq<Instruction>, line: Seq<char>) -> bool {
    exists|fuel: nat| run(inst, line, Seq::empty(), 0, 0, fuel) is Some
}

/// Once the search finishes within `f1` steps, more fuel changes nothing.
pub proof fn lemma_run_mono(
    inst: Seq<Instruction>,
    line: Seq<char>,
    stack: Seq<(usize, usize)>,
    pc: usize,
    sp: usize,
    f1: nat,
    f2: nat,
)
    requires
        f1 <= f2,
        run(inst, line, stack, pc, sp, f1) is Some,
    ensures
        run(inst, line, stack, pc, sp, f2) == run(inst, line, stack, pc, sp, f1),
    decreases f1,
{
    if pc < inst.len() {
        match inst[pc as int] {
            Instruction::Char(c) => {
                if sp < line.len() && line[sp as int] == c {
                    lemma_run_mono(
                        inst,
                        line,
                        stack,
                        (pc + 1) as usize,
                        (sp + 1) as usize,
                        (f1 - 1) as nat,
                        (f2 - 1) as nat,
                    );
                } else if stack.len() > 0 {
                    lemma_run_mono(
                        inst,
                        line,
                        stack.drop_last(),
                        stack.last().0,
                        stack.last().1,
                        (f1 - 1) as nat,
                        (f2 - 1) as nat,
                    );
                }
            },
            Instruction::Match => {},
            Instruction::Jump(a) => {
                lemma_run_mono(inst, line, stack, a, sp, (f1 - 1) as nat, (f2 - 1) as nat);
            },
            Instruction::Split(a1, a2) => {
                lemma_run_mono(
                    inst,
                    line,
                    stack.push((a2, sp)),
                    a1,
                    sp,
                    (f1 - 1) as nat,
                    (f2 - 1) as nat,
                );
            },
        }
    }
}

/// The search's outcome does not depend on the fuel that witnesses it:
/// any two finished runs from the same state agree.
pub proof fn lemma_run_deterministic(
    inst: Seq<Instruction>,
    line: Seq<char>,
    stack: Seq<(usize, usize)>,
    pc: usize,
    sp: usize,
    f1: nat,
    f2: nat,
)
    requires
        run(inst, line, stack, pc, sp, f1) is Some,
        run(inst, line, stack, pc, sp, f2) is Some,
    ensures
        run(inst, line, stack, pc, sp, f1) == run(inst, line, stack, pc, sp, f2),
{
    if f1 <= f2 {
        lemma_run_mono(inst, line, stack, pc, sp, f1, f2);
    } else {
        lemma_run_mono(inst, line, stack, pc, sp, f2, f1);
    }
}

/// The depth-first backtracking search itself, with an explicit stack of
/// pending alternatives in place of call recursion.
fn eval_depth(inst: &[Instruction], line: &[char], pc: usize, sp: usize) -> (r: Result<
    bool,
    EvalError,
>)
    requires
        exists|fuel: nat| run(inst@, line@, Seq::empty(), pc, sp, fuel) is Some,
    ensures
        exists|fuel: nat| run(inst@, line@, Seq::empty(), pc, sp, fuel) == Some(r),
{
    let ghost f0 = choose|fuel: nat| run(inst@, line@, Seq::empty(), pc, sp, fuel) is Some;
    let ghost r0 = run(inst@, line@, Seq::empty(), pc, sp, f0);
    let mut cur_pc = pc;
    let mut cur_sp = sp;
    let mut stack: Vec<(usize, usize)> = Vec::new();
    let ghost mut fuel = f0;
    loop
        invariant
            r0 is Some,
            r0 == run(inst@, line@, Seq::empty(), pc, sp, f0),
            run(inst@, line@, stack@, cur_pc, cur_sp, fuel) == r0,
        decreases fuel,
    {
        if cur_pc >= inst.len() {
            return Err(EvalError::InvalidPC);
        }
        let next = inst[cur_pc];
        match next {
            Instruction::Char(c) => {
                if cur_sp < line.len() && line[cur_sp] == c {
                    if cur_pc == usize::MAX {
                        // unreachable: the counter is below the program length
                        return Err(EvalError::PCOverFlow);
                    }
                    if cur_sp == usize::MAX {
                        // unreachable: the position is below the input length
                        return Err(EvalError::SPOverFlow);
                    }
                    cur_pc = cur_pc + 1;
                    cur_sp = cur_sp + 1;
                    proof {
                        fuel = (fuel - 1) as nat;
                    }
                } else {
                    // this path fails; resume the most recent alternative
                    match stack.pop() {
                        Some(top) => {
                            cur_pc = top.0;
                            cur_sp = top.1;
                            proof {
                                fuel = (fuel - 1) as nat;
                            }
                        },
                        None => {
                            return Ok(false);
                        },
                    }
                }
            },
            Instruction::Match => {
                return Ok(true);
            },
            Instruction::Jump(addr) => {
                cur_pc = addr;
                proof {
                    fuel = (fuel - 1) as nat;
                }
            },
            Instruction::Split(addr1, addr2) => {
                stack.push((addr2, cur_sp));
                cur_pc = addr1;
                proof {
                    fuel = (fuel - 1) as nat;
                }
            },
        }
    }
}

/// A finished search reports `InvalidPC` at most: the checked counters
/// of the search never wrap, since both stay under the lengths of the
/// program and the input.
pub proof fn lemma_run_errors(
    inst: Seq<Instruction>,
    line: Seq<char>,
    stack: Seq<(usize, usize)>,
    pc: usize,
    sp: usize,
    fuel: nat,
)
    ensures
        match run(inst, line, stack, pc, sp, fuel) {
            Some(Err(e)) => e == EvalError::InvalidPC,
            _ => true,
        },
    decreases fuel,
{
    if fuel > 0 && pc < inst.len() {
        match inst[pc as int] {
            Instruction::Char(c) => {
                if sp < line.len() && line[sp as int] == c {
                    lemma_run_errors(
                        inst,
                        line,
                        stack,
                        (pc + 1) as usize,
                        (sp + 1) as usize,
                        (fuel - 1) as nat,
                    );
                } else if stack.len() > 0 {
                    lemma_run_errors(
                        inst,
                        line,
                        stack.drop_last(),
                        stack.last().0,
                        stack.last().1,
                        (fuel - 1) as nat,
                    );
                }
            },
            Instruction::Match => {},
            Instruction::Jump(a) => {
                lemma_run_errors(inst, line, stack, a, sp, (fuel - 1) as nat);
            },
            Instruction::Split(a1, a2) => {
                lemma_run_errors(inst, line, stack.push((a2, sp)), a1, sp, (fuel - 1) as nat);
            },
        }
    }
}

/// Evaluates `inst` against `line`, anchored at program address 0 and
/// input position 0.
///
/// Only depth-first backtracking evaluation exists in this engine; the
/// breadth-first mode named by the flag is left out of scope, so callers
/// must pass `is_depth`. The result is exactly the outcome of the
/// depth-first search, as [`run`] defines it; an ordinary non-match is
/// `Ok(false)`, never an error.
pub fn eval(inst: &[Instruction], line: &[char], is_depth: bool) -> (r: Result<bool, EvalError>)
    requires
        is_depth,
        search_terminates(inst@, line@),
    ensures
        exists|fuel: nat| run(inst@, line@, Seq::empty(), 0, 0, fuel) == Some(r),
        r is Err ==> r->Err_0 == EvalError::InvalidPC,
{
    if is_depth {
        let r = eval_depth(inst, line, 0, 0);
        proof {
            let f = choose|fuel: nat| run(inst@, line@, Seq::empty(), 0, 0, fuel) == Some(r);
            lemma_run_errors(inst@, line@, Seq::empty(), 0, 0, f);
        }
        r
    } else {
        // breadth-first evaluation is out of scope; `requires` excludes this arm
        Err(EvalError::InvalidContext)
    }
}

/// The outcome that `do_matching` owes for pattern `expr` and subject
/// `line`: the parse error if the pattern is rejected, the generation
/// error if the program would not fit the address space, and otherwise
/// exactly the verdict of the depth-first search over the compiled
/// program.
pub open spec fn matching_outcome(
    expr: Seq<char>,
    line: Seq<char>,
    r: Result<bool, MatchError>,
) -> bool {
    match parse_spec(expr) {
        Err(pe) => r == Err::<bool, MatchError>(MatchError::Parse(pe)),
        Ok(ast) => {
            if code_len(ast) + 1 > usize::MAX {
                r == Err::<bool, MatchError>(MatchError::CodeGen(CodeGenError::PCOverFlow))
            } else {
                match r {
                    Ok(b) => exists|fuel: nat|
                        run(program_spec(ast), line, Seq::empty(), 0, 0, fuel) == Some(Ok::<bool, EvalError>(b)),
                    Err(MatchError::Eval(e)) => exists|fuel: nat|
                        run(program_spec(ast), line, Seq::empty(), 0, 0, fuel) == Some(Err::<bool, EvalError>(e)),
                    Err(_) => false,
                }
            }
        },
    }
}

/// The searches that `do_matching` would start all finish: if the pattern
/// parses and its program fits the address space, the depth-first search
/// over that program finishes within some number of steps.
pub open spec fn matching_search_terminates(expr: Seq<char>, line: Seq<char>) -> bool {
    match parse_spec(expr) {
        Err(_) => true,
        Ok(ast) => code_len(ast) + 1 <= usize::MAX ==> search_terminates(program_spec(ast), line),
    }
}

/// Matching is deterministic: any two outcomes that `matching_outcome`
/// admits for the same pattern and subject are equal, so repeated calls
/// of `do_matching` with identical inputs return identical results.
pub proof fn lemma_matching_deterministic(
    expr: Seq<char>,
    line: Seq<char>,
    r1: Result<bool, MatchError>,
    r2: Result<bool, MatchError>,
)
    requires
        matching_outcome(expr, line, r1),
        matching_outcome(expr, line, r2),
    ensures
        r1 == r2,
{
    if let Ok(ast) = parse_spec(expr) {
        if code_len(ast) + 1 <= usize::MAX {
            let v1 = match r1 {
                Ok(b) => Ok(b),
                Err(MatchError::Eval(e)) => Err(e),
                Err(_) => Err(EvalError::InvalidContext),
            };
            let v2 = match r2 {
                Ok(b) => Ok(b),
                Err(MatchError::Eval(e)) => Err(e),
                Err(_) => Err(EvalError::InvalidContext),
            };
            let f1 = choose|fuel: nat|
                run(program_spec(ast), line, Seq::empty(), 0, 0, fuel) == Some(v1);
            let f2 = choose|fuel: nat|
                run(program_spec(ast), line, Seq::empty(), 0, 0, fuel) == Some(v2);
            lemma_run_deterministic(program_spec(ast), line, Seq::empty(), 0, 0, f1, f2);
        }
    }
}

/// Parses `expr`, compiles it, and evaluates the program against `line`,
/// anchored at both ends of the search state: a three-valued outcome of
/// match, non-match, or the first error of whichever stage failed.
///
/// Only depth-first backtracking evaluation exists in this engine, so
/// callers must pass `is_depth`; the search must also finish, which a
/// pattern with a starred empty-matching subexpression can prevent.
pub fn do_matching(expr: &str, line: &str, is_depth: bool) -> (r: Result<bool, MatchError>)
    requires
        is_depth,
        matching_search_terminates(expr@, line@),
    ensures
        matching_outcome(expr@, line@, r),
        r matches Err(MatchError::Eval(e)) ==> e == EvalError::InvalidPC,
{
    let ast = match parse(expr) {
        Ok(ast) => ast,
        Err(e) => {
            return Err(MatchError::Parse(e));
        },
    };
    let code = match gen_code(&ast) {
        Ok(code) => code,
        Err(e) => {
            return Err(MatchError::CodeGen(e));
        },
    };
    let chars = str_chars(line);
    match eval(code.as_slice(), chars.as_slice(), is_depth) {
        Ok(b) => Ok(b),
        Err(e) => Err(MatchError::Eval(e)),
    }
}

} // verus!
