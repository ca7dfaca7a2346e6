//! Lowering of a syntax tree into a flat instruction program.
//!
//! The generator walks the tree once, emitting instructions in order and
//! resolving forward branch targets by backpatching: a placeholder target is
//! emitted first and overwritten once the true join address is known.

use vstd::prelude::*;

use crate::ast::AST;
use crate::ast::SpecAst;
use crate::ast::ast_view_list;
use crate::ast::code_len;
use crate::ast::code_len_list;
use crate::ast::lemma_view_list_props;
use crate::instruction::Instruction;
use crate::instruction::program_targets_valid;
use crate::instruction::targets_within;

verus! {

/// Errors of the code-generation stage.
///
/// `PCOverFlow` means the program-counter address space was exhausted.
/// The `Fail*` variants tag a malformed patch target, one per operator
/// (alternation, zero-or-more, one-or-more, zero-or-one); they mark
/// internal contract violations, never user-input problems, and
/// `gen_code` proves that it returns none of them.
#[derive(Debug, Clone, Copy, PartialEq, Eq)]
pub enum CodeGenError {
    PCOverFlow,
    FailStar,
    FailOr,
    FailPlus,
    FailQuestion,
}

/// The instruction sequence that code generation emits for `ast` when the
/// emission starts at address `base`, without the final `Match`.
pub open spec fn compile(ast: SpecAst, base: int) -> Seq<Instruction>
    decreases ast,
{
    match ast {
        SpecAst::Char(c) => seq![Instruction::Char(c)],
        SpecAst::Plus(e) => compile(*e, base)
            + seq![Instruction::Split(base as usize, (base + code_len(*e) + 1) as usize)],
        SpecAst::Star(e) => seq![
            Instruction::Split((base + 1) as usize, (base + code_len(*e) + 2) as usize),
        ] + compile(*e, base + 1) + seq![Instruction::Jump(base as usize)],
        SpecAst::Question(e) => seq![
            Instruction::Split((base + 1) as usize, (base + code_len(*e) + 1) as usize),
        ] + compile(*e, base + 1),
        SpecAst::Or(e1, e2) => seq![
            Instruction::Split((base + 1) as usize, (base + code_len(*e1) + 2) as usize),
        ] + compile(*e1, base + 1)
            + seq![Instruction::Jump((base + code_len(*e1) + code_len(*e2) + 2) as usize)]
            + compile(*e2, base + code_len(*e1) + 2),
        SpecAst::Concat(s) => compile_list(s, base),
    }
}

/// Code for a list of concatenated subtrees: each child's code in order,
/// with no extra instructions.
pub open spec fn compile_list(s: Seq<SpecAst>, base: int) -> Seq<Instruction>
    decreases s,
{
    if s.len() == 0 {
        Seq::empty()
    } else {
        compile(s[0], base) + compile_list(s.drop_first(), base + code_len(s[0]))
    }
}

/// The finished program for `ast`: its code followed by the one `Match`.
pub open spec fn program_spec(ast: SpecAst) -> Seq<Instruction> {
    compile(ast, 0) + seq![Instruction::Match]
}

/// The emitted code is exactly `code_len(ast)` instructions long.
pub proof fn lemma_compile_len(ast: SpecAst, base: int)
    ensures
        compile(ast, base).len() == code_len(ast),
    decreases ast,
{
    match ast {
        SpecAst::Char(_) => {},
        SpecAst::Plus(e) => lemma_compile_len(*e, base),
        SpecAst::Star(e) => lemma_compile_len(*e, base + 1),
        SpecAst::Question(e) => lemma_compile_len(*e, base + 1),
        SpecAst::Or(e1, e2) => {
            lemma_compile_len(*e1, base + 1);
            lemma_compile_len(*e2, base + code_len(*e1) + 2);
        },
        SpecAst::Concat(s) => lemma_compile_list_len(s, base),
    }
}

/// List version of `lemma_compile_len`.
pub proof fn lemma_compile_list_len(s: Seq<SpecAst>, base: int)
    ensures
        compile_list(s, base).len() == code_len_list(s),
    decreases s,
{
    if s.len() > 0 {
        lemma_compile_len(s[0], base);
        lemma_compile_list_len(s.drop_first(), base + code_len(s[0]));
    }
}

/// A one-element list compiles to the code of its element.
pub proof fn lemma_compile_list_singleton(x: SpecAst, base: int)
    ensures
        code_len_list(seq![x]) == code_len(x),
        compile_list(seq![x], base) == compile(x, base),
{
    let one = seq![x];
    assert(one.len() == 1);
    assert(one[0] == x);
    assert(one.drop_first() =~= Seq::<SpecAst>::empty());
    assert(code_len_list(one.drop_first()) == 0);
    assert(compile_list(one.drop_first(), base + code_len(x)) =~= Seq::<Instruction>::empty());
    assert(compile(x, base) + Seq::<Instruction>::empty() =~= compile(x, base));
}

/// Splitting a list of subtrees splits its code and its length.
pub proof fn lemma_compile_list_append(s1: Seq<SpecAst>, s2: Seq<SpecAst>, base: int)
    ensures
        code_len_list(s1 + s2) == code_len_list(s1) + code_len_list(s2),
        compile_list(s1 + s2, base) == compile_list(s1, base) + compile_list(
            s2,
            base + code_len_list(s1),
        ),
    decreases s1,
{
    if s1.len() == 0 {
        assert(s1 + s2 =~= s2);
        assert(compile_list(s1, base) + compile_list(s2, base) =~= compile_list(s2, base));
    } else {
        assert((s1 + s2)[0] == s1[0]);
        assert((s1 + s2).drop_first() =~= s1.drop_first() + s2);
        lemma_compile_list_append(s1.drop_first(), s2, base + code_len(s1[0]));
        assert(compile_list(s1 + s2, base) =~= compile_list(s1, base) + compile_list(
            s2,
            base + code_len_list(s1),
        ));
    }
}

/// No instruction emitted for `ast` is a `Match`, and every address it
/// stores lies between 0 and the address just past the emitted code.
pub proof fn lemma_compile_targets(ast: SpecAst, base: int)
    requires
        0 <= base,
        base + code_len(ast) <= usize::MAX,
    ensures
        forall|j: int|
            0 <= j < compile(ast, base).len() ==> {
                &&& !(#[trigger] compile(ast, base)[j] matches Instruction::Match)
                &&& targets_within(compile(ast, base)[j], 0, base + code_len(ast))
            },
    decreases ast,
{
    lemma_compile_len(ast, base);
    match ast {
        SpecAst::Char(_) => {},
        SpecAst::Plus(e) => {
            lemma_compile_len(*e, base);
            lemma_compile_targets(*e, base);
        },
        SpecAst::Star(e) => {
            lemma_compile_len(*e, base + 1);
            lemma_compile_targets(*e, base + 1);
        },
        SpecAst::Question(e) => {
            lemma_compile_len(*e, base + 1);
            lemma_compile_targets(*e, base + 1);
        },
        SpecAst::Or(e1, e2) => {
            lemma_compile_len(*e1, base + 1);
            lemma_compile_len(*e2, base + code_len(*e1) + 2);
            lemma_compile_targets(*e1, base + 1);
            lemma_compile_targets(*e2, base + code_len(*e1) + 2);
        },
        SpecAst::Concat(s) => {
            lemma_compile_list_targets(s, base);
        },
    }
}

/// List version of `lemma_compile_targets`.
pub proof fn lemma_compile_list_targets(s: Seq<SpecAst>, base: int)
    requires
        0 <= base,
        base + code_len_list(s) <= usize::MAX,
    ensures
        forall|j: int|
            0 <= j < compile_list(s, base).len() ==> {
                &&& !(#[trigger] compile_list(s, base)[j] matches Instruction::Match)
                &&& targets_within(compile_list(s, base)[j], 0, base + code_len_list(s))
            },
    decreases s,
{
    lemma_compile_list_len(s, base);
    if s.len() > 0 {
        lemma_compile_len(s[0], base);
        lemma_compile_targets(s[0], base);
        lemma_compile_list_targets(s.drop_first(), base + code_len(s[0]));
    }
}

/// Transient state of one generation call: the address the next emitted
/// instruction will occupy, and the instruction list under construction.
struct Generator {
    pc: usize,
    insts: Vec<Instruction>,
}

/// Contract of one emission step: on success the instruction list grows by
/// exactly the code of `node` and the cursor moves past it, keeping the
/// cursor equal to the list length; the only failure is address-space
/// exhaustion, reported exactly when the code would not fit.
spec fn gen_result(
    pre: Generator,
    post: Generator,
    node: SpecAst,
    r: Result<(), CodeGenError>,
) -> bool {
    match r {
        Ok(()) => {
            &&& post.pc == post.insts@.len()
            &&& post.pc == pre.pc + code_len(node)
            &&& post.insts@ == pre.insts@ + compile(node, pre.pc as int)
        },
        Err(e) => e == CodeGenError::PCOverFlow && pre.pc + code_len(node) > usize::MAX,
    }
}

impl Generator {
    /// Checked advance of the program-counter cursor.
    fn inc_pc(&mut self) -> (r: Result<(), CodeGenError>)
        ensures
            match r {
                Ok(()) => {
                    &&& old(self).pc < usize::MAX
                    &&& final(self).pc == old(self).pc + 1
                    &&& final(self).insts == old(self).insts
                },
                Err(e) => {
                    &&& e == CodeGenError::PCOverFlow
                    &&& old(self).pc == usize::MAX
                    &&& *final(self) == *old(self)
                },
            },
    {
        if self.pc == usize::MAX {
            Err(CodeGenError::PCOverFlow)
        } else {
            self.pc = self.pc + 1;
            Ok(())
        }
    }

    /// Emits one `Char` instruction.
    fn gen_char(&mut self, c: char) -> (r: Result<(), CodeGenError>)
        requires
            old(self).pc == old(self).insts@.len(),
        ensures
            gen_result(*old(self), *final(self), SpecAst::Char(c), r),
    {
        let ghost base = self.pc as int;
        self.insts.push(Instruction::Char(c));
        self.inc_pc()?;
        proof {
            assert(self.insts@ =~= old(self).insts@ + compile(SpecAst::Char(c), base));
        }
        Ok(())
    }

    /// Emits the code for `ast` at the current cursor.
    ///
    /// On success the instruction list has grown by exactly
    /// `compile(ast@, old pc)` and the cursor moved past it; the only
    /// possible failure is address-space exhaustion.
    fn gen_expr(&mut self, ast: &AST) -> (r: Result<(), CodeGenError>)
        requires
            old(self).pc == old(self).insts@.len(),
        ensures
            gen_result(*old(self), *final(self), ast@, r),
        decreases *ast, 1int,
    {
        match ast {
            AST::Char(c) => self.gen_char(*c),
            AST::Or(e1, e2) => {
                proof {
                    assert(decreases_to!(*ast => **e1));
                    assert(decreases_to!(*ast => **e2));
                }
                self.gen_or(e1, e2, Ghost(*ast))
            },
            AST::Plus(e) => {
                proof {
                    assert(decreases_to!(*ast => **e));
                }
                self.gen_plus(e, Ghost(*ast))
            },
            AST::Star(e) => {
                proof {
                    assert(decreases_to!(*ast => **e));
                }
                self.gen_star(e, Ghost(*ast))
            },
            AST::Question(e) => {
                proof {
                    assert(decreases_to!(*ast => **e));
                }
                self.gen_question(e, Ghost(*ast))
            },
            AST::Concat(v) => {
                proof {
                    assert(decreases_to!(*ast => *v));
                }
                self.gen_seq(v, Ghost(*ast))
            },
        }
    }

    /// Emits `split L1, L2; e1; jmp L3; L2: e2; L3:`, patching the split's
    /// second target and the jump once the join addresses are known.
    fn gen_or(&mut self, e1: &AST, e2: &AST, Ghost(parent): Ghost<AST>) -> (r: Result<
        (),
        CodeGenError,
    >)
        requires
            old(self).pc == old(self).insts@.len(),
            decreases_to!(parent => *e1),
            decreases_to!(parent => *e2),
        ensures
            gen_result(
                *old(self),
                *final(self),
                SpecAst::Or(Box::new(e1@), Box::new(e2@)),
                r,
            ),
        decreases parent, 0int,
    {
        let ghost base = self.pc as int;
        let ghost node = SpecAst::Or(Box::new(e1@), Box::new(e2@));
        proof {
            lemma_compile_len(e1@, base + 1);
            lemma_compile_len(e2@, base + code_len(e1@) + 2);
        }
        let split_addr = self.pc;
        self.inc_pc()?;
        self.insts.push(Instruction::Split(self.pc, 0));
        self.gen_expr(e1)?;
        let jmp_addr = self.pc;
        self.insts.push(Instruction::Jump(0));
        self.inc_pc()?;
        let l2 = self.pc;
        let slot = self.insts[split_addr];
        proof {
            assert(self.insts@[split_addr as int] == Instruction::Split((base + 1) as usize, 0));
        }
        if let Instruction::Split(l1, _) = slot {
            self.insts.set(split_addr, Instruction::Split(l1, l2));
        } else {
            return Err(CodeGenError::FailOr);
        }
        self.gen_expr(e2)?;
        let l3 = self.pc;
        let slot2 = self.insts[jmp_addr];
        proof {
            assert(self.insts@[jmp_addr as int] == Instruction::Jump(0));
        }
        if let Instruction::Jump(_) = slot2 {
            self.insts.set(jmp_addr, Instruction::Jump(l3));
        } else {
            return Err(CodeGenError::FailOr);
        }
        proof {
            assert(self.insts@ =~= old(self).insts@ + compile(node, base));
        }
        Ok(())
    }

    /// Emits `L1: e; split L1, L2; L2:`; the split needs no patching.
    fn gen_plus(&mut self, e: &AST, Ghost(parent): Ghost<AST>) -> (r: Result<(), CodeGenError>)
        requires
            old(self).pc == old(self).insts@.len(),
            decreases_to!(parent => *e),
        ensures
            gen_result(*old(self), *final(self), SpecAst::Plus(Box::new(e@)), r),
        decreases parent, 0int,
    {
        let ghost base = self.pc as int;
        let ghost node = SpecAst::Plus(Box::new(e@));
        proof {
            lemma_compile_len(e@, base);
        }
        let l1 = self.pc;
        self.gen_expr(e)?;
        self.inc_pc()?;
        self.insts.push(Instruction::Split(l1, self.pc));
        proof {
            assert(self.insts@ =~= old(self).insts@ + compile(node, base));
        }
        Ok(())
    }

    /// Emits `L1: split L2, L3; L2: e; jmp L1; L3:`, patching the split's
    /// second target to the exit once it is known.
    fn gen_star(&mut self, e: &AST, Ghost(parent): Ghost<AST>) -> (r: Result<(), CodeGenError>)
        requires
            old(self).pc == old(self).insts@.len(),
            decreases_to!(parent => *e),
        ensures
            gen_result(*old(self), *final(self), SpecAst::Star(Box::new(e@)), r),
        decreases parent, 0int,
    {
        let ghost base = self.pc as int;
        let ghost node = SpecAst::Star(Box::new(e@));
        proof {
            lemma_compile_len(e@, base + 1);
        }
        let split_addr = self.pc;
        self.inc_pc()?;
        self.insts.push(Instruction::Split(self.pc, 0));
        self.gen_expr(e)?;
        self.insts.push(Instruction::Jump(split_addr));
        self.inc_pc()?;
        let l2 = self.pc;
        let slot = self.insts[split_addr];
        proof {
            assert(self.insts@[split_addr as int] == Instruction::Split((base + 1) as usize, 0));
        }
        if let Instruction::Split(l1, _) = slot {
            self.insts.set(split_addr, Instruction::Split(l1, l2));
        } else {
            return Err(CodeGenError::FailStar);
        }
        proof {
            assert(self.insts@ =~= old(self).insts@ + compile(node, base));
        }
        Ok(())
    }

    /// Emits `split L1, L2; L1: e; L2:`, patching the split's second
    /// target to the join once it is known.
    fn gen_question(&mut self, e: &AST, Ghost(parent): Ghost<AST>) -> (r: Result<
        (),
        CodeGenError,
    >)
        requires
            old(self).pc == old(self).insts@.len(),
            decreases_to!(parent => *e),
        ensures
            gen_result(*old(self), *final(self), SpecAst::Question(Box::new(e@)), r),
        decreases parent, 0int,
    {
        let ghost base = self.pc as int;
        let ghost node = SpecAst::Question(Box::new(e@));
        proof {
            lemma_compile_len(e@, base + 1);
        }
        let split_addr = self.pc;
        self.inc_pc()?;
        self.insts.push(Instruction::Split(self.pc, 0));
        self.gen_expr(e)?;
        let l2 = self.pc;
        let slot = self.insts[split_addr];
        proof {
            assert(self.insts@[split_addr as int] == Instruction::Split((base + 1) as usize, 0));
        }
        if let Instruction::Split(l1, _) = slot {
            self.insts.set(split_addr, Instruction::Split(l1, l2));
        } else {
            return Err(CodeGenError::FailQuestion);
        }
        proof {
            assert(self.insts@ =~= old(self).insts@ + compile(node, base));
        }
        Ok(())
    }

    /// Emits each child's code in order; an empty list emits nothing.
    fn gen_seq(&mut self, v: &Vec<AST>, Ghost(parent): Ghost<AST>) -> (r: Result<
        (),
        CodeGenError,
    >)
        requires
            old(self).pc == old(self).insts@.len(),
            decreases_to!(parent => *v),
        ensures
            gen_result(*old(self), *final(self), SpecAst::Concat(ast_view_list(v@)), r),
        decreases parent, 0int,
    {
        let ghost base = self.pc as int;
        let ghost specs = ast_view_list(v@);
        proof {
            lemma_view_list_props(v@);
        }
        let mut i: usize = 0;
        while i < v.len()
            invariant
                i <= v@.len(),
                specs == ast_view_list(v@),
                specs.len() == v@.len(),
                forall|k: int| 0 <= k < v@.len() ==> #[trigger] specs[k] == v@[k]@,
                decreases_to!(parent => *v),
                base == old(self).pc,
                old(self).pc == old(self).insts@.len(),
                self.pc == self.insts@.len(),
                self.pc == base + code_len_list(specs.take(i as int)),
                self.insts@ == old(self).insts@ + compile_list(specs.take(i as int), base),
            decreases v@.len() - i,
        {
            proof {
                vstd::std_specs::vec::axiom_vec_decreases_to_view(*v);
                vstd::seq::axiom_seq_index_decreases(v@, i as int);
                assert(decreases_to!(parent => v@[i as int]));
                assert(specs.take(i as int) + seq![specs[i as int]] =~= specs.take(i + 1));
                assert(specs.take(i + 1) + specs.skip(i + 1) =~= specs);
                lemma_compile_list_append(specs.take(i as int), seq![specs[i as int]], base);
                lemma_compile_list_append(specs.take(i + 1), specs.skip(i + 1), base);
                lemma_compile_list_singleton(
                    specs[i as int],
                    base + code_len_list(specs.take(i as int)),
                );
            }
            let r = self.gen_expr(&v[i]);
            if let Err(e) = r {
                return Err(e);
            }
            i = i + 1;
        }
        proof {
            assert(specs.take(v@.len() as int) =~= specs);
        }
        Ok(())
    }
}

/// Compiles `ast` into a finished program: the tree's code followed by one
/// trailing `Match`.
///
/// Success is owed exactly when the program fits the address space; the
/// result is then the program `program_spec(ast@)`, all of whose branch
/// targets are valid indices into itself.
pub fn gen_code(ast: &AST) -> (r: Result<Vec<Instruction>, CodeGenError>)
    ensures
        match r {
            Ok(prog) => {
                &&& code_len(ast@) + 1 <= usize::MAX
                &&& prog@ == program_spec(ast@)
                &&& prog@.len() == code_len(ast@) + 1
                &&& program_targets_valid(prog@)
            },
            Err(e) => e == CodeGenError::PCOverFlow && code_len(ast@) + 1 > usize::MAX,
        },
{
    let mut generator = Generator { pc: 0, insts: Vec::new() };
    let r = generator.gen_expr(ast);
    if let Err(e) = r {
        return Err(e);
    }
    let r2 = generator.inc_pc();
    if let Err(e) = r2 {
        return Err(e);
    }
    generator.insts.push(Instruction::Match);
    proof {
        lemma_compile_len(ast@, 0);
        lemma_compile_targets(ast@, 0);
        assert(generator.insts@ =~= program_spec(ast@));
    }
    Ok(generator.insts)
}

} // verus!
