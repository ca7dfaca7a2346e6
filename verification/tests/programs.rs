use regex_engine::EvalError;
use regex_engine::ast::AST;
use regex_engine::codegen::gen_code;
use regex_engine::eval;
use regex_engine::instruction::Instruction;
use regex_engine::parser::parse;

#[test]
fn char_compiles_to_char_then_match() {
    let prog = gen_code(&AST::Char('a')).unwrap();
    assert_eq!(prog, vec![Instruction::Char('a'), Instruction::Match]);
}

#[test]
fn empty_concat_compiles_to_match_only() {
    let prog = gen_code(&AST::Concat(Vec::new())).unwrap();
    assert_eq!(prog, vec![Instruction::Match]);
}

#[test]
fn concat_compiles_children_in_order() {
    let tree = AST::Concat(vec![AST::Char('a'), AST::Char('b'), AST::Char('c')]);
    let prog = gen_code(&tree).unwrap();
    assert_eq!(
        prog,
        vec![
            Instruction::Char('a'),
            Instruction::Char('b'),
            Instruction::Char('c'),
            Instruction::Match,
        ],
    );
}

#[test]
fn alternation_compiles_to_split_and_patched_jump() {
    let tree = AST::Or(Box::new(AST::Char('a')), Box::new(AST::Char('b')));
    let prog = gen_code(&tree).unwrap();
    assert_eq!(
        prog,
        vec![
            Instruction::Split(1, 3),
            Instruction::Char('a'),
            Instruction::Jump(4),
            Instruction::Char('b'),
            Instruction::Match,
        ],
    );
}

#[test]
fn star_compiles_to_loop_with_patched_exit() {
    let tree = AST::Star(Box::new(AST::Char('a')));
    let prog = gen_code(&tree).unwrap();
    assert_eq!(
        prog,
        vec![
            Instruction::Split(1, 3),
            Instruction::Char('a'),
            Instruction::Jump(0),
            Instruction::Match,
        ],
    );
}

#[test]
fn plus_compiles_to_body_then_split_back() {
    let tree = AST::Plus(Box::new(AST::Char('a')));
    let prog = gen_code(&tree).unwrap();
    assert_eq!(
        prog,
        vec![Instruction::Char('a'), Instruction::Split(0, 2), Instruction::Match],
    );
}

#[test]
fn question_compiles_to_split_over_body() {
    let tree = AST::Question(Box::new(AST::Char('a')));
    let prog = gen_code(&tree).unwrap();
    assert_eq!(
        prog,
        vec![Instruction::Split(1, 2), Instruction::Char('a'), Instruction::Match],
    );
}

#[test]
fn every_emitted_address_is_within_program_bounds() {
    let tree = AST::Or(
        Box::new(AST::Plus(Box::new(AST::Char('x')))),
        Box::new(AST::Star(Box::new(AST::Question(Box::new(AST::Char('y')))))),
    );
    let prog = gen_code(&tree).unwrap();
    for inst in &prog {
        match inst {
            Instruction::Jump(a) => assert!(*a < prog.len()),
            Instruction::Split(a1, a2) => {
                assert!(*a1 < prog.len());
                assert!(*a2 < prog.len());
            },
            Instruction::Char(_) | Instruction::Match => {},
        }
    }
}

#[test]
fn parser_flattens_nested_concatenation_to_same_program() {
    let nested = parse("(ab)c").unwrap();
    let flat = parse("abc").unwrap();
    assert_eq!(gen_code(&nested).unwrap(), gen_code(&flat).unwrap());
}

#[test]
fn parsed_alternation_compiles_like_a_built_tree() {
    let parsed = parse("a|b").unwrap();
    let built = AST::Or(
        Box::new(AST::Concat(vec![AST::Char('a')])),
        Box::new(AST::Concat(vec![AST::Char('b')])),
    );
    assert_eq!(gen_code(&parsed).unwrap(), gen_code(&built).unwrap());
}

#[test]
fn eval_accepts_a_simple_program() {
    let prog = vec![Instruction::Char('a'), Instruction::Match];
    assert_eq!(eval(&prog, &['a'], true), Ok(true));
    assert_eq!(eval(&prog, &['b'], true), Ok(false));
    assert_eq!(eval(&prog, &[], true), Ok(false));
}

#[test]
fn eval_takes_second_split_target_on_failure() {
    let prog = vec![
        Instruction::Split(1, 3),
        Instruction::Char('a'),
        Instruction::Jump(4),
        Instruction::Char('b'),
        Instruction::Match,
    ];
    assert_eq!(eval(&prog, &['a'], true), Ok(true));
    assert_eq!(eval(&prog, &['b'], true), Ok(true));
    assert_eq!(eval(&prog, &['c'], true), Ok(false));
}

#[test]
fn eval_reports_invalid_pc_on_empty_program() {
    let prog: Vec<Instruction> = Vec::new();
    assert_eq!(eval(&prog, &[], true), Err(EvalError::InvalidPC));
}

#[test]
fn eval_reports_invalid_pc_on_dangling_jump() {
    let prog = vec![Instruction::Jump(7)];
    assert_eq!(eval(&prog, &[], true), Err(EvalError::InvalidPC));
}

#[test]
fn eval_ignores_trailing_input_after_match() {
    let prog = vec![Instruction::Char('a'), Instruction::Match];
    assert_eq!(eval(&prog, &['a', 'b'], true), Ok(true));
}
