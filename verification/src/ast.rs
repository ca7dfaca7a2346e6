//! The regular-expression syntax tree consumed by the code generator,
//! and its mathematical model.

use vstd::prelude::*;

verus! {

/// A node of the regular-expression syntax tree produced by the parser.
///
/// `Concat` is concatenation in list order, `Or` tries its left operand
/// first, and `Star`, `Plus`, `Question` are the greedy repetition
/// operators (zero-or-more, one-or-more, zero-or-one).
#[derive(Debug)]
pub enum AST {
    Char(char),
    Plus(Box<AST>),
    Star(Box<AST>),
    Question(Box<AST>),
    Or(Box<AST>, Box<AST>),
    Concat(Vec<AST>),
}

/// The mathematical model of a syntax tree: the same shape as [`AST`],
/// with a `Seq` for the concatenation list. Contracts and the language
/// semantics are stated over this type.
pub ghost enum SpecAst {
    Char(char),
    Plus(Box<SpecAst>),
    Star(Box<SpecAst>),
    Question(Box<SpecAst>),
    Or(Box<SpecAst>, Box<SpecAst>),
    Concat(Seq<SpecAst>),
}

/// The model of a syntax tree node.
pub open spec fn ast_view(ast: AST) -> SpecAst
    decreases ast,
{
    match ast {
        AST::Char(c) => SpecAst::Char(c),
        AST::Plus(e) => SpecAst::Plus(Box::new(ast_view(*e))),
        AST::Star(e) => SpecAst::Star(Box::new(ast_view(*e))),
        AST::Question(e) => SpecAst::Question(Box::new(ast_view(*e))),
        AST::Or(e1, e2) => SpecAst::Or(Box::new(ast_view(*e1)), Box::new(ast_view(*e2))),
        AST::Concat(v) => SpecAst::Concat(ast_view_list(v@)),
    }
}

/// The models of a list of syntax tree nodes, element by element.
pub open spec fn ast_view_list(s: Seq<AST>) -> Seq<SpecAst>
    decreases s,
{
    if s.len() == 0 {
        Seq::empty()
    } else {
        seq![ast_view(s[0])] + ast_view_list(s.drop_first())
    }
}

impl View for AST {
    type V = SpecAst;

    open spec fn view(&self) -> SpecAst {
        ast_view(*self)
    }
}

/// The model of a leaf node is the same symbol.
pub broadcast proof fn lemma_view_char(c: char)
    ensures
        #[trigger] ast_view(AST::Char(c)) == SpecAst::Char(c),
{
}

/// The model of a one-or-more node wraps its child's model.
pub broadcast proof fn lemma_view_plus(e: Box<AST>)
    ensures
        #[trigger] ast_view(AST::Plus(e)) == SpecAst::Plus(Box::new(ast_view(*e))),
{
}

/// The model of a zero-or-more node wraps its child's model.
pub broadcast proof fn lemma_view_star(e: Box<AST>)
    ensures
        #[trigger] ast_view(AST::Star(e)) == SpecAst::Star(Box::new(ast_view(*e))),
{
}

/// The model of a zero-or-one node wraps its child's model.
pub broadcast proof fn lemma_view_question(e: Box<AST>)
    ensures
        #[trigger] ast_view(AST::Question(e)) == SpecAst::Question(Box::new(ast_view(*e))),
{
}

/// The model of an alternation node wraps its children's models.
pub broadcast proof fn lemma_view_or(e1: Box<AST>, e2: Box<AST>)
    ensures
        #[trigger] ast_view(AST::Or(e1, e2)) == SpecAst::Or(
            Box::new(ast_view(*e1)),
            Box::new(ast_view(*e2)),
        ),
{
}

/// The model of a concatenation node holds its children's models.
pub broadcast proof fn lemma_view_concat(v: Vec<AST>)
    ensures
        #[trigger] ast_view(AST::Concat(v)) == SpecAst::Concat(ast_view_list(v@)),
{
}

/// `ast_view_list` maps `ast_view` over the list, index by index.
pub proof fn lemma_view_list_props(s: Seq<AST>)
    ensures
        ast_view_list(s).len() == s.len(),
        forall|i: int| 0 <= i < s.len() ==> #[trigger] ast_view_list(s)[i] == ast_view(s[i]),
    decreases s,
{
    if s.len() > 0 {
        lemma_view_list_props(s.drop_first());
        assert forall|i: int| 0 <= i < s.len() implies #[trigger] ast_view_list(s)[i] == ast_view(
            s[i],
        ) by {
            if i > 0 {
                assert(ast_view_list(s)[i] == ast_view_list(s.drop_first())[i - 1]);
                assert(s.drop_first()[i - 1] == s[i]);
            }
        }
    }
}

/// Number of instructions that code generation emits for `ast`,
/// not counting the final `Match` appended at top level.
pub open spec fn code_len(ast: SpecAst) -> nat
    decreases ast,
{
    match ast {
        SpecAst::Char(_) => 1,
        SpecAst::Plus(e) => code_len(*e) + 1,
        SpecAst::Star(e) => code_len(*e) + 2,
        SpecAst::Question(e) => code_len(*e) + 1,
        SpecAst::Or(e1, e2) => code_len(*e1) + code_len(*e2) + 2,
        SpecAst::Concat(s) => code_len_list(s),
    }
}

/// Total instruction count for a list of concatenated subtrees.
pub open spec fn code_len_list(s: Seq<SpecAst>) -> nat
    decreases s,
{
    if s.len() == 0 {
        0
    } else {
        code_len(s[0]) + code_len_list(s.drop_first())
    }
}

} // verus!
