use minicc::expr::{jumps, Expr};
use minicc::ir::Instr::{Binary, Compare, Const, Goto, If, IfFalse, Label, Load, Neg, Store};
use minicc::ir::{BinOp, Constant, Emitter, Instr, RelOp};
use minicc::lexer::{Tag, TokenBase, TypeBase, WordBase};
use minicc::stmt::Stmt;
use minicc::symbols::Id;

fn var(name: &str, offset: u64) -> Id {
    Id::new(
        WordBase { token: TokenBase { tag: Tag::Id.code() }, lexeme: name.to_string() },
        TypeBase::new(WordBase { token: TokenBase { tag: Tag::Basic.code() }, lexeme: "bool".to_string() }, 1),
        offset,
    )
}

fn read(name: &str, offset: u64) -> Box<Expr> {
    Box::new(Expr::Id(var(name, offset)))
}

fn jumping(e: &Expr, t: u64, f: u64) -> Vec<Instr> {
    let mut em = Emitter::new();
    e.jumping(&mut em, t, f);
    em.finish()
}

#[test]
fn labels_and_temporaries_count_from_one() {
    let mut em = Emitter::new();
    assert_eq!(em.new_label(), 1);
    assert_eq!(em.new_label(), 2);
    assert_eq!(em.new_temp(), 1);
    assert_eq!(em.new_label(), 3);
    assert_eq!(em.new_temp(), 2);
    em.emit_label(2);
    em.emit(Instr::Goto(1));
    assert_eq!(em.finish(), vec![Label(2), Goto(1)]);
}

#[test]
fn jumps_leave_out_the_fall_through() {
    let emit = |t: u64, f: u64| {
        let mut em = Emitter::new();
        jumps(&mut em, 7, t, f);
        em.finish()
    };
    assert_eq!(emit(3, 4), vec![If(7, 3), Goto(4)]);
    assert_eq!(emit(3, 0), vec![If(7, 3)]);
    assert_eq!(emit(0, 4), vec![IfFalse(7, 4)]);
    assert_eq!(emit(0, 0), vec![]);
}

#[test]
fn and_against_real_targets() {
    let e = Expr::And(read("a", 0), read("b", 1));
    assert_eq!(
        jumping(&e, 8, 9),
        vec![Load(1, 0), If(1, 1), Goto(9), Label(1), Load(2, 1), If(2, 8), Goto(9)]
    );
}

#[test]
fn and_with_false_falling_through() {
    let e = Expr::And(read("a", 0), read("b", 1));
    assert_eq!(
        jumping(&e, 8, 0),
        vec![Load(1, 0), If(1, 1), Goto(2), Label(1), Load(2, 1), If(2, 8), Label(2)]
    );
}

#[test]
fn or_against_real_targets() {
    let e = Expr::Or(read("a", 0), read("b", 1));
    assert_eq!(
        jumping(&e, 8, 9),
        vec![Load(1, 0), If(1, 8), Goto(1), Label(1), Load(2, 1), If(2, 8), Goto(9)]
    );
}

#[test]
fn or_with_true_falling_through() {
    let e = Expr::Or(read("a", 0), read("b", 1));
    assert_eq!(
        jumping(&e, 0, 9),
        vec![Load(1, 0), If(1, 2), Goto(1), Label(1), Load(2, 1), IfFalse(2, 9), Label(2)]
    );
}

#[test]
fn not_exchanges_the_targets() {
    let e = Expr::Not(read("a", 0));
    assert_eq!(jumping(&e, 8, 9), vec![Load(1, 0), If(1, 9), Goto(8)]);
    assert_eq!(jumping(&e, 0, 9), vec![Load(1, 0), If(1, 9)]);
}

#[test]
fn truth_values() {
    let yes = Expr::Constant(Constant::Bool(true));
    let no = Expr::Constant(Constant::Bool(false));
    assert_eq!(jumping(&yes, 8, 9), vec![Goto(8)]);
    assert_eq!(jumping(&yes, 0, 9), vec![]);
    assert_eq!(jumping(&no, 8, 9), vec![Goto(9)]);
    assert_eq!(jumping(&no, 8, 0), vec![]);
    assert!(!yes.is_logical());
}

#[test]
fn comparison_against_targets() {
    let e = Expr::Rel(RelOp::Lt, read("a", 0), Box::new(Expr::Constant(Constant::Int(3))));
    assert_eq!(
        jumping(&e, 0, 9),
        vec![Load(1, 0), Const(2, Constant::Int(3)), Compare(3, RelOp::Lt, 1, 2), IfFalse(3, 9)]
    );
}

#[test]
fn value_of_arithmetic() {
    let e = Expr::Arith(
        BinOp::Sub,
        Box::new(Expr::Unary(read("a", 4))),
        Box::new(Expr::Constant(Constant::Int(1))),
    );
    let mut em = Emitter::new();
    assert_eq!(e.value(&mut em), 4);
    assert_eq!(
        em.finish(),
        vec![Load(1, 4), Neg(2, 1), Const(3, Constant::Int(1)), Binary(4, BinOp::Sub, 2, 3)]
    );
}

#[test]
fn value_of_a_logical_node() {
    let e = Expr::Not(read("a", 0));
    assert!(e.is_logical());
    let mut em = Emitter::new();
    assert_eq!(e.value(&mut em), 1);
    assert_eq!(
        em.finish(),
        vec![
            Load(2, 0),
            If(2, 1),
            Const(1, Constant::Bool(true)),
            Goto(2),
            Label(1),
            Const(1, Constant::Bool(false)),
            Label(2),
        ]
    );
}

#[test]
fn statement_between_given_labels() {
    let s = Stmt::While(
        Expr::Constant(Constant::Bool(true)),
        Box::new(Stmt::Sequence(Box::new(Stmt::Break), Box::new(Stmt::Null))),
    );
    let mut em = Emitter::new();
    let begin = em.new_label();
    let after = em.new_label();
    s.gen(&mut em, begin, after, 0);
    assert_eq!(
        em.finish(),
        vec![Goto(3), Label(3), Goto(2), Label(4), Goto(1)]
    );
}

#[test]
fn whole_program_of_one_statement() {
    let s = Stmt::Assign(var("x", 6), Expr::Constant(Constant::Int(5)));
    assert_eq!(
        s.translate(),
        vec![Label(1), Const(1, Constant::Int(5)), Store(6, 1), Label(2)]
    );
    assert_eq!(Stmt::Null.translate(), vec![Label(1), Label(2)]);
}
