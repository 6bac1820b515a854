use minicc::ir::{BinOp, Constant, Instr, RelOp};
use minicc::ir::Instr::{Binary, Compare, Const, Goto, If, IfFalse, Label, Load, Neg, Store};
use minicc::lexer::{Lexer, Real, Tag, Token, TokenBase, Word, WordBase};
use minicc::parser::{compile, CompileError, Parser};

fn run(text: &str) -> Result<Vec<Instr>, CompileError> {
    compile(text.as_bytes().to_vec())
}

fn num(v: u32) -> Constant {
    Constant::Int(v)
}

fn word(tag: Tag, text: &str) -> Token {
    Token::Word(Word::Word(WordBase { token: TokenBase { tag: tag.code() }, lexeme: text.to_string() }))
}

fn symbol(c: char) -> Token {
    Token::Token(TokenBase { tag: c as u32 })
}

/// Every label from 1 to the largest is defined once, and every jump goes to
/// one of them.
fn check_labels(code: &[Instr]) {
    let mut defined = vec![0usize];
    for i in code {
        if let Label(l) = i {
            let l = *l as usize;
            if defined.len() <= l {
                defined.resize(l + 1, 0);
            }
            defined[l] += 1;
        }
    }
    assert_eq!(defined[0], 0);
    for l in 1..defined.len() {
        assert_eq!(defined[l], 1, "label {}", l);
    }
    for i in code {
        match i {
            Goto(l) | If(_, l) | IfFalse(_, l) => {
                assert!(*l >= 1 && (*l as usize) < defined.len(), "target {}", l);
            }
            _ => {}
        }
    }
}

#[test]
fn empty_block() {
    assert_eq!(run("{ }"), Ok(vec![Label(1), Label(2)]));
}

#[test]
fn nothing_but_the_end() {
    assert_eq!(run(""), Err(CompileError::Syntax { line: 1, found: Token::Eof }));
}

#[test]
fn one_assignment() {
    assert_eq!(
        run("{ int x; x = 1; }"),
        Ok(vec![Label(1), Const(1, num(1)), Store(0, 1), Label(3), Label(2)])
    );
}

#[test]
fn if_else_branches_meet_at_after() {
    let code = run("{ int x; if (1==1) x=1; else x=2; }").unwrap();
    assert_eq!(
        code,
        vec![
            Label(1),
            Const(1, num(1)),
            Const(2, num(1)),
            Compare(3, RelOp::Eq, 1, 2),
            If(3, 4),
            Goto(5),
            Label(4),
            Const(4, num(1)),
            Store(0, 4),
            Goto(3),
            Label(5),
            Const(5, num(2)),
            Store(0, 5),
            Label(3),
            Label(2),
        ]
    );
    check_labels(&code);
    // The condition reaches each branch label by exactly one jump.
    assert_eq!(code.iter().filter(|i| matches!(i, If(_, 4))).count(), 1);
    assert_eq!(code.iter().filter(|i| matches!(i, Goto(5))).count(), 1);
    // The first branch leaves to the label at which the second one ends.
    let leave = code.iter().position(|i| *i == Goto(3)).unwrap();
    let second = code.iter().position(|i| *i == Label(5)).unwrap();
    let after = code.iter().position(|i| *i == Label(3)).unwrap();
    assert!(leave < second && second < after);
    assert_eq!(code[after - 1], Store(0, 5));
}

#[test]
fn if_without_else() {
    assert_eq!(
        run("{ int x; if (x >= 1) ; }"),
        Ok(vec![
            Label(1),
            Load(1, 0),
            Const(2, num(1)),
            Compare(3, RelOp::Ge, 1, 2),
            IfFalse(3, 3),
            Label(4),
            Label(3),
            Label(2),
        ])
    );
}

#[test]
fn and_skips_the_second_operand() {
    let code = run("{ bool a; bool b; int x; if (a && b) x = 1; }").unwrap();
    assert_eq!(
        code,
        vec![
            Label(1),
            Load(1, 0),
            If(1, 5),
            Goto(3),
            Label(5),
            Load(2, 1),
            IfFalse(2, 3),
            Label(4),
            Const(3, num(1)),
            Store(2, 3),
            Label(3),
            Label(2),
        ]
    );
    check_labels(&code);
    // Where `a` fails control leaves before the label behind which `b` is read.
    let leave = code.iter().position(|i| *i == Goto(3)).unwrap();
    let second = code.iter().position(|i| *i == Load(2, 1)).unwrap();
    assert!(leave < second);
    assert_eq!(code[second - 1], Label(5));
}

#[test]
fn or_skips_the_second_operand() {
    let code = run("{ bool a; bool b; int x; if (a || b) x = 1; }").unwrap();
    assert_eq!(
        code,
        vec![
            Label(1),
            Load(1, 0),
            If(1, 6),
            Goto(5),
            Label(5),
            Load(2, 1),
            IfFalse(2, 3),
            Label(6),
            Label(4),
            Const(3, num(1)),
            Store(2, 3),
            Label(3),
            Label(2),
        ]
    );
    check_labels(&code);
}

#[test]
fn break_leaves_the_innermost_loop() {
    let code = run("{ int x; while (true) { while (x < 3) break; break; } }").unwrap();
    assert_eq!(
        code,
        vec![
            Label(1),
            Goto(4),
            Label(4),
            Load(1, 0),
            Const(2, num(3)),
            Compare(3, RelOp::Lt, 1, 2),
            If(3, 6),
            Goto(5),
            Label(6),
            Goto(5),
            Goto(4),
            Label(5),
            Goto(3),
            Label(7),
            Goto(1),
            Label(3),
            Label(2),
        ]
    );
    check_labels(&code);
}

#[test]
fn break_outside_a_loop() {
    assert_eq!(
        run("{ break; }"),
        Err(CompileError::Semantic { line: 1, found: word(Tag::Break, "break") })
    );
    assert_eq!(
        run("{ int x;\n while (x < 1) x = 1;\n break; }"),
        Err(CompileError::Semantic { line: 3, found: word(Tag::Break, "break") })
    );
}

#[test]
fn break_in_if_inside_loop() {
    let code = run("{ int i; while (i < 9) { if (i == 4) break; i = i + 1; } }").unwrap();
    check_labels(&code);
    // while: after is 3; the only jumps to it are the loop test and the break.
    assert_eq!(code.iter().filter(|i| **i == Goto(3)).count(), 2);
}

#[test]
fn undeclared_identifier() {
    assert_eq!(
        run("{ x = 1; }"),
        Err(CompileError::Semantic { line: 1, found: word(Tag::Id, "x") })
    );
    assert_eq!(
        run("{ int x;\n x = y; }"),
        Err(CompileError::Semantic { line: 2, found: word(Tag::Id, "y") })
    );
}

#[test]
fn inner_declaration_shadows_and_ends_with_its_block() {
    // Outer x lies at 0, inner x at 4: the storage goes on counting.
    assert_eq!(
        run("{ int x; { float x; x = 1; } x = 2; }"),
        Ok(vec![
            Label(1),
            Const(1, num(1)),
            Store(4, 1),
            Label(4),
            Label(3),
            Const(2, num(2)),
            Store(0, 2),
            Label(5),
            Label(2),
        ])
    );
}

#[test]
fn declaration_ends_with_its_block() {
    assert_eq!(
        run("{ { int y; y = 1; } y = 2; }"),
        Err(CompileError::Semantic { line: 1, found: word(Tag::Id, "y") })
    );
}

#[test]
fn redeclaration_in_one_block_replaces() {
    assert_eq!(
        run("{ int x; char x; x = 1; }"),
        Ok(vec![Label(1), Const(1, num(1)), Store(4, 1), Label(3), Label(2)])
    );
}

#[test]
fn offsets_follow_the_widths() {
    assert_eq!(
        run("{ int a; float b; char c; bool d; int e; e = 0; d = true; }"),
        Ok(vec![
            Label(1),
            Const(1, num(0)),
            Store(14, 1),
            Label(3),
            Const(2, Constant::Bool(true)),
            Store(13, 2),
            Label(4),
            Label(2),
        ])
    );
}

#[test]
fn arithmetic_goes_through_temporaries() {
    assert_eq!(
        run("{ int x; x = 3 + 4 * -x - (x / 2); }"),
        Ok(vec![
            Label(1),
            Const(1, num(3)),
            Const(2, num(4)),
            Load(3, 0),
            Neg(4, 3),
            Binary(5, BinOp::Mul, 2, 4),
            Binary(6, BinOp::Add, 1, 5),
            Load(7, 0),
            Const(8, num(2)),
            Binary(9, BinOp::Div, 7, 8),
            Binary(10, BinOp::Sub, 6, 9),
            Store(0, 10),
            Label(3),
            Label(2),
        ])
    );
}

#[test]
fn literal_with_fraction_is_kept_exactly() {
    assert_eq!(
        run("{ float y; y = 1.5; }"),
        Ok(vec![
            Label(1),
            Const(1, Constant::Real(Real::new(1, vec![5]))),
            Store(0, 1),
            Label(3),
            Label(2),
        ])
    );
}

#[test]
fn boolean_value_is_stored_through_jumps() {
    let code = run("{ bool a; a = !a || 1 <= 2 && 3 != 4; }").unwrap();
    assert_eq!(
        code,
        vec![
            Label(1),
            Load(2, 0),
            If(2, 6),
            Goto(7),
            Label(6),
            Const(3, num(1)),
            Const(4, num(2)),
            Compare(5, RelOp::Le, 3, 4),
            If(5, 8),
            Goto(4),
            Label(8),
            Const(6, num(3)),
            Const(7, num(4)),
            Compare(8, RelOp::Ne, 6, 7),
            IfFalse(8, 4),
            Label(7),
            Const(1, Constant::Bool(true)),
            Goto(5),
            Label(4),
            Const(1, Constant::Bool(false)),
            Label(5),
            Store(0, 1),
            Label(3),
            Label(2),
        ]
    );
    check_labels(&code);
}

#[test]
fn truth_values_jump_to_their_own_target() {
    // `if`: true goes on, false leaves to after.
    assert_eq!(
        run("{ if (true) ; }"),
        Ok(vec![Label(1), Label(4), Label(3), Label(2)])
    );
    assert_eq!(
        run("{ if (false) ; }"),
        Ok(vec![Label(1), Goto(3), Label(4), Label(3), Label(2)])
    );
    assert_eq!(
        run("{ if (!false) ; }"),
        Ok(vec![Label(1), Label(4), Label(3), Label(2)])
    );
}

#[test]
fn comparison_is_not_chained() {
    assert_eq!(
        run("{ int x; if (x < 1 < 2) ; }"),
        Err(CompileError::Syntax { line: 1, found: symbol('<') })
    );
}

#[test]
fn equality_groups_to_the_left() {
    let code = run("{ bool b; b = 1 == 2 == 3; }").unwrap();
    assert_eq!(
        code,
        vec![
            Label(1),
            Const(1, num(1)),
            Const(2, num(2)),
            Compare(3, RelOp::Eq, 1, 2),
            Const(4, num(3)),
            Compare(5, RelOp::Eq, 3, 4),
            Store(0, 5),
            Label(3),
            Label(2),
        ]
    );
}

#[test]
fn syntax_errors_name_the_token_and_the_line() {
    assert_eq!(
        run("{ int x; x = ; }"),
        Err(CompileError::Syntax { line: 1, found: symbol(';') })
    );
    assert_eq!(run("{ int x; x = 1 "), Err(CompileError::Syntax { line: 1, found: Token::Eof }));
    assert_eq!(
        run("{\n int ;\n}"),
        Err(CompileError::Syntax { line: 2, found: symbol(';') })
    );
    assert_eq!(
        run("{ int x; x = 1; int y; }"),
        Err(CompileError::Syntax {
            line: 1,
            found: match Lexer::new(b"int".to_vec()).scan() {
                Ok(t) => t,
                Err(_) => unreachable!(),
            },
        })
    );
    assert_eq!(
        run("x"),
        Err(CompileError::Syntax { line: 1, found: word(Tag::Id, "x") })
    );
    assert_eq!(
        run("{ int x; x = (1 ; }"),
        Err(CompileError::Syntax { line: 1, found: symbol(';') })
    );
    assert_eq!(
        run("{ int x; x ! 1; }"),
        Err(CompileError::Syntax { line: 1, found: symbol('!') })
    );
}

#[test]
fn unreadable_literal() {
    assert_eq!(run("{ int x;\n\n x = 99999999999; }"), Err(CompileError::Lex { line: 3 }));
    assert_eq!(run("4294967296"), Err(CompileError::Lex { line: 1 }));
}

#[test]
fn labels_are_defined_once_in_larger_programs() {
    for text in [
        "{ int i; int j; bool b; i = 0; while (i < 10) { j = 0; while (j < i || b) { if (j == 5 && !b) break; else j = j + 1; } i = i + 1; } }",
        "{ bool a; bool b; bool c; a = (a || b) && (b || c) || !(a && c); if (a) { } else { { } } }",
        "{ ;;; { { } } ; }",
        "{ bool a; while (!(a && a) || a) if (a) if (a) ; else break; }",
    ] {
        check_labels(&run(text).unwrap());
    }
}

#[test]
fn parser_can_be_driven_by_hand() {
    let lexer = Lexer::new(b"{ int x; x = 7; } trailing".to_vec());
    let mut parser = match Parser::new(lexer) {
        Ok(p) => p,
        Err(e) => panic!("{:?}", e),
    };
    assert_eq!(
        parser.program(),
        Ok(vec![Label(1), Const(1, num(7)), Store(0, 1), Label(3), Label(2)])
    );
    assert_eq!(
        Parser::new(Lexer::new(b"  99999999999".to_vec())).err(),
        Some(CompileError::Lex { line: 1 })
    );
}
