//! The grammar, as functions from a token sequence to what is recognized.
//!
//! ```text
//! program  := block
//! block    := '{' decls stmts '}'
//! decls    := (type Id ';')*
//! stmts    := stmt stmts | (nothing)
//! stmt     := ';' | if '(' bool ')' stmt [else stmt] | while '(' bool ')' stmt
//!           | break ';' | block | assign
//! assign   := Id '=' bool ';'
//! bool     := join ('||' join)*
//! join     := equality ('&&' equality)*
//! equality := rel (('=='|'!=') rel)*
//! rel      := expr (('<'|'<='|'>='|'>') expr)?
//! expr     := term (('+'|'-') term)*
//! term     := unary (('*'|'/') unary)*
//! unary    := '-' unary | '!' unary | factor
//! factor   := '(' bool ')' | Num | Real | true | false | Id
//! ```
//!
//! `!=`, `<=` and `>=` are read as the symbol `!`, `<` or `>` with the symbol
//! `=` as the next token.
//!
//! Where a rule goes on behind a part it has recognized, the functions ask
//! that the part has taken at least one token (`onward`); the lemmas at the
//! end show that every part does, so the other branch is never taken.

use vstd::prelude::*;
use crate::expr::ExprView;
use crate::ir::{BinOp, ConstantView, Gen, InstrView, RelOp};
use crate::lexer::{Tag, TokenView};
use crate::stmt::StmtView;
use crate::wiring::{theorem_program_labels, tidy};
use crate::stream::{tokens, Lexeme};
use crate::symbols::{declare, enter, resolve, Frame, IdView};

verus! {

/// Why a compilation stopped, as a plain value.
pub enum ErrorView {
    /// A literal on the given line cannot be read.
    Lex(u32),
    /// The token, on the given line, is not what the grammar asks for.
    Syntax(u32, TokenView),
    /// The token, on the given line, is an identifier that no open scope
    /// declares, or a `break` outside every loop.
    Semantic(u32, TokenView),
}

/// An expression and the index of the token behind it, or why there is none.
pub type PExpr = Result<(ExprView, int), ErrorView>;

/// A statement, the index of the token behind it and the storage used so
/// far, or why there is none.
pub type PStmt = Result<(StmtView, int, int), ErrorView>;

/// The token at index `i`; behind the sequence stands the end marker.
pub open spec fn tok(toks: Seq<Lexeme>, i: int) -> TokenView {
    if 0 <= i < toks.len() {
        toks[i].token()
    } else {
        TokenView::Eof
    }
}

/// The line of the token at index `i`.
pub open spec fn line_of(toks: Seq<Lexeme>, i: int) -> u32 {
    if 0 <= i < toks.len() {
        toks[i].line()
    } else {
        0
    }
}

/// Whether the token at index `i` has the tag `t`.
pub open spec fn tag_is(toks: Seq<Lexeme>, i: int, t: u32) -> bool {
    tok(toks, i).tag() == Some(t)
}

/// The error for a token that the grammar does not ask for.
pub open spec fn syntax(toks: Seq<Lexeme>, i: int) -> ErrorView {
    ErrorView::Syntax(line_of(toks, i), tok(toks, i))
}

/// The error for a token that names nothing or leaves no loop.
pub open spec fn semantic(toks: Seq<Lexeme>, i: int) -> ErrorView {
    ErrorView::Semantic(line_of(toks, i), tok(toks, i))
}

/// Takes the token at index `i`: gives the index of the next one. The end
/// marker cannot be taken, and the next token must be readable.
pub open spec fn advance(toks: Seq<Lexeme>, i: int) -> Result<int, ErrorView> {
    if tok(toks, i) is Eof {
        Err(syntax(toks, i))
    } else if i + 1 < toks.len() && toks[i + 1] is Bad {
        Err(ErrorView::Lex(toks[i + 1].line()))
    } else {
        Ok(i + 1)
    }
}

/// Takes the token at index `i` where it has the tag `t`.
pub open spec fn expect(toks: Seq<Lexeme>, i: int, t: u32) -> Result<int, ErrorView> {
    if tag_is(toks, i, t) {
        advance(toks, i)
    } else {
        Err(syntax(toks, i))
    }
}

/// Whether `m` lies behind `j` and within the sequence.
pub open spec fn onward(toks: Seq<Lexeme>, j: int, m: int) -> bool {
    j < m <= toks.len()
}

/// A node made of the single token at index `i`.
pub open spec fn leaf(toks: Seq<Lexeme>, i: int, e: ExprView) -> PExpr {
    match advance(toks, i) {
        Ok(j) => Ok((e, j)),
        Err(err) => Err(err),
    }
}

/// `factor := '(' bool ')' | Num | Real | true | false | Id`
///
/// An identifier must be declared in one of the scopes `fr`.
pub open spec fn p_factor(toks: Seq<Lexeme>, i: int, fr: Seq<Frame>) -> PExpr
    decreases toks.len() - i, 1nat,
{
    match tok(toks, i) {
        TokenView::Symbol(c) => {
            if c == 40 {
                match advance(toks, i) {
                    Err(err) => Err(err),
                    Ok(j) => match p_bool(toks, j, fr) {
                        Err(err) => Err(err),
                        Ok((x, k)) => match expect(toks, k, 41) {
                            Err(err) => Err(err),
                            Ok(m) => Ok((x, m)),
                        },
                    },
                }
            } else {
                Err(syntax(toks, i))
            }
        },
        TokenView::Num(v) => leaf(toks, i, ExprView::Constant(ConstantView::Int(v))),
        TokenView::Real(w, f) => leaf(toks, i, ExprView::Constant(ConstantView::Real(w, f))),
        TokenView::Word(t, s) => {
            if t == Tag::True.spec_code() {
                leaf(toks, i, ExprView::Constant(ConstantView::Bool(true)))
            } else if t == Tag::False.spec_code() {
                leaf(toks, i, ExprView::Constant(ConstantView::Bool(false)))
            } else if t == Tag::Id.spec_code() {
                match resolve(fr, (t, s)) {
                    Some(id) => leaf(toks, i, ExprView::Id(id)),
                    None => Err(semantic(toks, i)),
                }
            } else {
                Err(syntax(toks, i))
            }
        },
        _ => Err(syntax(toks, i)),
    }
}

/// `unary := '-' unary | '!' unary | factor`
pub open spec fn p_unary(toks: Seq<Lexeme>, i: int, fr: Seq<Frame>) -> PExpr
    decreases toks.len() - i, 2nat,
{
    if tag_is(toks, i, 45) || tag_is(toks, i, 33) {
        match advance(toks, i) {
            Err(err) => Err(err),
            Ok(j) => match p_unary(toks, j, fr) {
                Err(err) => Err(err),
                Ok((x, k)) => if tag_is(toks, i, 45) {
                    Ok((ExprView::Unary(Box::new(x)), k))
                } else {
                    Ok((ExprView::Not(Box::new(x)), k))
                },
            },
        }
    } else {
        p_factor(toks, i, fr)
    }
}

/// `('*' unary | '/' unary)*` behind the operand `left`.
pub open spec fn p_term_rest(toks: Seq<Lexeme>, j: int, fr: Seq<Frame>, left: ExprView) -> PExpr
    decreases toks.len() - j, 0nat,
{
    if tag_is(toks, j, 42) || tag_is(toks, j, 47) {
        let op = if tag_is(toks, j, 42) { BinOp::Mul } else { BinOp::Div };
        match advance(toks, j) {
            Err(err) => Err(err),
            Ok(k) => match p_unary(toks, k, fr) {
                Err(err) => Err(err),
                Ok((r, m)) => {
                    let x = ExprView::Arith(op, Box::new(left), Box::new(r));
                    if onward(toks, j, m) {
                        p_term_rest(toks, m, fr, x)
                    } else {
                        Ok((x, m))
                    }
                },
            },
        }
    } else {
        Ok((left, j))
    }
}

/// `term := unary (('*'|'/') unary)*`, grouped to the left.
pub open spec fn p_term(toks: Seq<Lexeme>, i: int, fr: Seq<Frame>) -> PExpr
    decreases toks.len() - i, 3nat,
{
    match p_unary(toks, i, fr) {
        Err(err) => Err(err),
        Ok((x, j)) => if onward(toks, i, j) {
            p_term_rest(toks, j, fr, x)
        } else {
            Ok((x, j))
        },
    }
}

/// `('+' term | '-' term)*` behind the operand `left`.
pub open spec fn p_expr_rest(toks: Seq<Lexeme>, j: int, fr: Seq<Frame>, left: ExprView) -> PExpr
    decreases toks.len() - j, 0nat,
{
    if tag_is(toks, j, 43) || tag_is(toks, j, 45) {
        let op = if tag_is(toks, j, 43) { BinOp::Add } else { BinOp::Sub };
        match advance(toks, j) {
            Err(err) => Err(err),
            Ok(k) => match p_term(toks, k, fr) {
                Err(err) => Err(err),
                Ok((r, m)) => {
                    let x = ExprView::Arith(op, Box::new(left), Box::new(r));
                    if onward(toks, j, m) {
                        p_expr_rest(toks, m, fr, x)
                    } else {
                        Ok((x, m))
                    }
                },
            },
        }
    } else {
        Ok((left, j))
    }
}

/// `expr := term (('+'|'-') term)*`, grouped to the left.
pub open spec fn p_expr(toks: Seq<Lexeme>, i: int, fr: Seq<Frame>) -> PExpr
    decreases toks.len() - i, 4nat,
{
    match p_term(toks, i, fr) {
        Err(err) => Err(err),
        Ok((x, j)) => if onward(toks, i, j) {
            p_expr_rest(toks, j, fr, x)
        } else {
            Ok((x, j))
        },
    }
}

/// The right operand of a comparison whose operator ends before index `k`.
pub open spec fn p_rel_right(toks: Seq<Lexeme>, k: int, fr: Seq<Frame>, op: RelOp, left: ExprView) -> PExpr
    decreases toks.len() - k, 5nat,
{
    match p_expr(toks, k, fr) {
        Err(err) => Err(err),
        Ok((r, m)) => Ok((ExprView::Rel(op, Box::new(left), Box::new(r)), m)),
    }
}

/// `rel := expr (('<'|'<='|'>='|'>') expr)?`
pub open spec fn p_rel(toks: Seq<Lexeme>, i: int, fr: Seq<Frame>) -> PExpr
    decreases toks.len() - i, 6nat,
{
    match p_expr(toks, i, fr) {
        Err(err) => Err(err),
        Ok((x, j)) => if onward(toks, i, j) && (tag_is(toks, j, 60) || tag_is(toks, j, 62)) {
            let less = tag_is(toks, j, 60);
            match advance(toks, j) {
                Err(err) => Err(err),
                Ok(k) => if tag_is(toks, k, 61) {
                    match advance(toks, k) {
                        Err(err) => Err(err),
                        Ok(m) => p_rel_right(toks, m, fr, if less { RelOp::Le } else { RelOp::Ge }, x),
                    }
                } else {
                    p_rel_right(toks, k, fr, if less { RelOp::Lt } else { RelOp::Gt }, x)
                },
            }
        } else {
            Ok((x, j))
        },
    }
}

/// Takes the operator at index `j`: `==`, or `!` with `=` behind it.
pub open spec fn p_equality_op(toks: Seq<Lexeme>, j: int) -> Result<int, ErrorView> {
    if tag_is(toks, j, 33) {
        match advance(toks, j) {
            Err(err) => Err(err),
            Ok(k) => expect(toks, k, 61),
        }
    } else {
        advance(toks, j)
    }
}

/// `('==' rel | '!=' rel)*` behind the operand `left`.
pub open spec fn p_equality_rest(toks: Seq<Lexeme>, j: int, fr: Seq<Frame>, left: ExprView) -> PExpr
    decreases toks.len() - j, 0nat,
{
    if tag_is(toks, j, Tag::Eq_.spec_code()) || tag_is(toks, j, 33) {
        let op = if tag_is(toks, j, 33) { RelOp::Ne } else { RelOp::Eq };
        match p_equality_op(toks, j) {
            Err(err) => Err(err),
            Ok(k) => match p_rel(toks, k, fr) {
                Err(err) => Err(err),
                Ok((r, m)) => {
                    let x = ExprView::Rel(op, Box::new(left), Box::new(r));
                    if onward(toks, j, m) {
                        p_equality_rest(toks, m, fr, x)
                    } else {
                        Ok((x, m))
                    }
                },
            },
        }
    } else {
        Ok((left, j))
    }
}

/// `equality := rel (('=='|'!=') rel)*`, grouped to the left.
pub open spec fn p_equality(toks: Seq<Lexeme>, i: int, fr: Seq<Frame>) -> PExpr
    decreases toks.len() - i, 7nat,
{
    match p_rel(toks, i, fr) {
        Err(err) => Err(err),
        Ok((x, j)) => if onward(toks, i, j) {
            p_equality_rest(toks, j, fr, x)
        } else {
            Ok((x, j))
        },
    }
}

/// `('&&' equality)*` behind the operand `left`.
pub open spec fn p_join_rest(toks: Seq<Lexeme>, j: int, fr: Seq<Frame>, left: ExprView) -> PExpr
    decreases toks.len() - j, 0nat,
{
    if tag_is(toks, j, Tag::And.spec_code()) {
        match advance(toks, j) {
            Err(err) => Err(err),
            Ok(k) => match p_equality(toks, k, fr) {
                Err(err) => Err(err),
                Ok((r, m)) => {
                    let x = ExprView::And(Box::new(left), Box::new(r));
                    if onward(toks, j, m) {
                        p_join_rest(toks, m, fr, x)
                    } else {
                        Ok((x, m))
                    }
                },
            },
        }
    } else {
        Ok((left, j))
    }
}

/// `join := equality ('&&' equality)*`, grouped to the left.
pub open spec fn p_join(toks: Seq<Lexeme>, i: int, fr: Seq<Frame>) -> PExpr
    decreases toks.len() - i, 8nat,
{
    match p_equality(toks, i, fr) {
        Err(err) => Err(err),
        Ok((x, j)) => if onward(toks, i, j) {
            p_join_rest(toks, j, fr, x)
        } else {
            Ok((x, j))
        },
    }
}

/// `('||' join)*` behind the operand `left`.
pub open spec fn p_bool_rest(toks: Seq<Lexeme>, j: int, fr: Seq<Frame>, left: ExprView) -> PExpr
    decreases toks.len() - j, 0nat,
{
    if tag_is(toks, j, Tag::Or.spec_code()) {
        match advance(toks, j) {
            Err(err) => Err(err),
            Ok(k) => match p_join(toks, k, fr) {
                Err(err) => Err(err),
                Ok((r, m)) => {
                    let x = ExprView::Or(Box::new(left), Box::new(r));
                    if onward(toks, j, m) {
                        p_bool_rest(toks, m, fr, x)
                    } else {
                        Ok((x, m))
                    }
                },
            },
        }
    } else {
        Ok((left, j))
    }
}

/// `bool := join ('||' join)*`, grouped to the left.
pub open spec fn p_bool(toks: Seq<Lexeme>, i: int, fr: Seq<Frame>) -> PExpr
    decreases toks.len() - i, 9nat,
{
    match p_join(toks, i, fr) {
        Err(err) => Err(err),
        Ok((x, j)) => if onward(toks, i, j) {
            p_bool_rest(toks, j, fr, x)
        } else {
            Ok((x, j))
        },
    }
}


/// Scopes, storage used and the index of the next token, or why there are
/// none.
pub type PDecls = Result<(Seq<Frame>, int, int), ErrorView>;

/// `decls := (type Id ';')*`
///
/// Each declaration enters its identifier in the innermost scope, at the
/// offset `used`, and adds the width of its type to `used`.
pub open spec fn p_decls(toks: Seq<Lexeme>, i: int, fr: Seq<Frame>, used: int) -> PDecls
    decreases toks.len() - i,
{
    match tok(toks, i) {
        TokenView::Type(tt, ts, w) => match advance(toks, i) {
            Err(err) => Err(err),
            Ok(j) => match tok(toks, j) {
                TokenView::Word(t, s) => if t == Tag::Id.spec_code() {
                    match advance(toks, j) {
                        Err(err) => Err(err),
                        Ok(k) => match expect(toks, k, 59) {
                            Err(err) => Err(err),
                            Ok(m) => p_decls(
                                toks,
                                m,
                                declare(
                                    fr,
                                    (t, s),
                                    IdView {
                                        word: (t, s),
                                        type_word: (tt, ts),
                                        width: w,
                                        offset: used as u64,
                                    },
                                ),
                                used + w,
                            ),
                        },
                    }
                } else {
                    Err(syntax(toks, j))
                },
                _ => Err(syntax(toks, j)),
            },
        },
        _ => Ok((fr, used, i)),
    }
}

/// `assign := Id '=' bool ';'`
///
/// The identifier must be declared in one of the scopes `fr`.
pub open spec fn p_assign(toks: Seq<Lexeme>, i: int, fr: Seq<Frame>, used: int) -> PStmt
    decreases toks.len() - i, 10nat,
{
    match tok(toks, i) {
        TokenView::Word(t, s) => if t == Tag::Id.spec_code() {
            match resolve(fr, (t, s)) {
                None => Err(semantic(toks, i)),
                Some(id) => match advance(toks, i) {
                    Err(err) => Err(err),
                    Ok(j) => match expect(toks, j, 61) {
                        Err(err) => Err(err),
                        Ok(k) => match p_bool(toks, k, fr) {
                            Err(err) => Err(err),
                            Ok((x, m)) => match expect(toks, m, 59) {
                                Err(err) => Err(err),
                                Ok(n) => Ok((StmtView::Assign(id, x), n, used)),
                            },
                        },
                    },
                },
            }
        } else {
            Err(syntax(toks, i))
        },
        _ => Err(syntax(toks, i)),
    }
}

/// The condition in brackets behind the keyword at index `i`.
pub open spec fn p_condition(toks: Seq<Lexeme>, i: int, fr: Seq<Frame>) -> PExpr
    decreases toks.len() - i, 10nat,
{
    match advance(toks, i) {
        Err(err) => Err(err),
        Ok(j) => match expect(toks, j, 40) {
            Err(err) => Err(err),
            Ok(k) => match p_bool(toks, k, fr) {
                Err(err) => Err(err),
                Ok((c, m)) => match expect(toks, m, 41) {
                    Err(err) => Err(err),
                    Ok(n) => Ok((c, n)),
                },
            },
        },
    }
}

/// ```text
/// stmt := ';' | if '(' bool ')' stmt [else stmt] | while '(' bool ')' stmt
///       | break ';' | block | assign
/// ```
///
/// `in_loop` says whether the statement stands inside a loop: only there
/// is `break` accepted.
pub open spec fn p_stmt(toks: Seq<Lexeme>, i: int, fr: Seq<Frame>, used: int, in_loop: bool) -> PStmt
    decreases toks.len() - i, 12nat,
{
    if tag_is(toks, i, 59) {
        match advance(toks, i) {
            Err(err) => Err(err),
            Ok(j) => Ok((StmtView::Null, j, used)),
        }
    } else if tag_is(toks, i, Tag::If.spec_code()) {
        match p_condition(toks, i, fr) {
            Err(err) => Err(err),
            Ok((c, j)) => if !onward(toks, i, j) {
                Err(syntax(toks, j))
            } else {
                match p_stmt(toks, j, fr, used, in_loop) {
                    Err(err) => Err(err),
                    Ok((s1, k, u1)) => if !tag_is(toks, k, Tag::Else.spec_code()) || !onward(toks, j, k) {
                        Ok((StmtView::If(c, Box::new(s1)), k, u1))
                    } else {
                        match advance(toks, k) {
                            Err(err) => Err(err),
                            Ok(m) => match p_stmt(toks, m, fr, u1, in_loop) {
                                Err(err) => Err(err),
                                Ok((s2, n, u2)) => Ok(
                                    (StmtView::Else(c, Box::new(s1), Box::new(s2)), n, u2),
                                ),
                            },
                        }
                    },
                }
            },
        }
    } else if tag_is(toks, i, Tag::While.spec_code()) {
        match p_condition(toks, i, fr) {
            Err(err) => Err(err),
            Ok((c, j)) => if !onward(toks, i, j) {
                Err(syntax(toks, j))
            } else {
                match p_stmt(toks, j, fr, used, true) {
                    Err(err) => Err(err),
                    Ok((s, k, u1)) => Ok((StmtView::While(c, Box::new(s)), k, u1)),
                }
            },
        }
    } else if tag_is(toks, i, Tag::Break.spec_code()) {
        if !in_loop {
            Err(semantic(toks, i))
        } else {
            match advance(toks, i) {
                Err(err) => Err(err),
                Ok(j) => match expect(toks, j, 59) {
                    Err(err) => Err(err),
                    Ok(k) => Ok((StmtView::Break, k, used)),
                },
            }
        }
    } else if tag_is(toks, i, 123) {
        p_block(toks, i, fr, used, in_loop)
    } else {
        p_assign(toks, i, fr, used)
    }
}

/// `stmts := stmt stmts | (nothing)`: statements up to a `}`.
pub open spec fn p_stmts(toks: Seq<Lexeme>, i: int, fr: Seq<Frame>, used: int, in_loop: bool) -> PStmt
    decreases toks.len() - i, 13nat,
{
    if tag_is(toks, i, 125) {
        Ok((StmtView::Null, i, used))
    } else {
        match p_stmt(toks, i, fr, used, in_loop) {
            Err(err) => Err(err),
            Ok((s, j, u1)) => if !onward(toks, i, j) {
                Err(syntax(toks, j))
            } else {
                match p_stmts(toks, j, fr, u1, in_loop) {
                    Err(err) => Err(err),
                    Ok((rest, k, u2)) => Ok((StmtView::Sequence(Box::new(s), Box::new(rest)), k, u2)),
                }
            },
        }
    }
}

/// `block := '{' decls stmts '}'`
///
/// The block opens a new innermost scope for its declarations; behind the
/// block the scopes are those before it. The storage used goes on counting
/// through nested blocks.
pub open spec fn p_block(toks: Seq<Lexeme>, i: int, fr: Seq<Frame>, used: int, in_loop: bool) -> PStmt
    decreases toks.len() - i, 11nat,
{
    match expect(toks, i, 123) {
        Err(err) => Err(err),
        Ok(j) => match p_decls(toks, j, enter(fr), used) {
            Err(err) => Err(err),
            Ok((fr1, u1, k)) => if !onward(toks, i, k) {
                Err(syntax(toks, k))
            } else {
                match p_stmts(toks, k, fr1, u1, in_loop) {
                    Err(err) => Err(err),
                    Ok((s, m, u2)) => match expect(toks, m, 125) {
                        Err(err) => Err(err),
                        Ok(n) => Ok((s, n, u2)),
                    },
                }
            },
        },
    }
}


/// The state of the emission after the input `src` was compiled: the block
/// it starts with, translated as a whole program; or the first error.
pub open spec fn compiled_state(src: Seq<u8>) -> Result<Gen, ErrorView> {
    let toks = tokens(src);
    match toks[0] {
        Lexeme::Bad(line) => Err(ErrorView::Lex(line)),
        Lexeme::Token(_, _) => match p_block(toks, 0, Seq::empty(), 0, false) {
            Ok((s, _, _)) => Ok(s.program()),
            Err(e) => Err(e),
        },
    }
}

/// What compiling the input `src` gives: the code of the block it starts
/// with, or the first error.
pub open spec fn compiled(src: Seq<u8>) -> Result<Seq<InstrView>, ErrorView> {
    match compiled_state(src) {
        Ok(g) => Ok(g.code),
        Err(e) => Err(e),
    }
}

/// An identifier that no open scope declares is a semantic error, in an
/// expression and as the target of an assignment.
pub proof fn lemma_undeclared(toks: Seq<Lexeme>, i: int, fr: Seq<Frame>, used: int, s: Seq<char>)
    requires
        tok(toks, i) == TokenView::Word(Tag::Id.spec_code(), s),
        resolve(fr, (Tag::Id.spec_code(), s)).is_none(),
    ensures
        p_factor(toks, i, fr) == PExpr::Err(semantic(toks, i)),
        p_assign(toks, i, fr, used) == PStmt::Err(semantic(toks, i)),
        semantic(toks, i) is Semantic,
{
}

/// A `break` outside every loop is a semantic error; inside a loop it is
/// accepted where `;` follows.
pub proof fn lemma_break(toks: Seq<Lexeme>, i: int, fr: Seq<Frame>, used: int)
    requires
        tag_is(toks, i, Tag::Break.spec_code()),
    ensures
        p_stmt(toks, i, fr, used, false) == PStmt::Err(semantic(toks, i)),
        p_stmt(toks, i, fr, used, true) == match advance(toks, i) {
            Err(e) => PStmt::Err(e),
            Ok(j) => match expect(toks, j, 59) {
                Err(e) => PStmt::Err(e),
                Ok(k) => PStmt::Ok((StmtView::Break, k, used)),
            },
        },
{
}


/// Whether an expression that was recognized from index `i` on ends behind
/// `i` and within the sequence.
pub open spec fn ahead(r: PExpr, toks: Seq<Lexeme>, i: int) -> bool {
    match r {
        Ok((_, j)) => onward(toks, i, j),
        Err(_) => true,
    }
}

/// Whether what was recognized behind an operand that ends at index `j`
/// ends at `j` or behind it, and within the sequence.
pub open spec fn not_behind(r: PExpr, toks: Seq<Lexeme>, j: int) -> bool {
    match r {
        Ok((_, m)) => j <= m <= toks.len(),
        Err(_) => true,
    }
}

/// Whether a statement that was recognized from index `i` on ends behind
/// `i` and within the sequence, and keeps every `break` inside a loop.
pub open spec fn stmt_ahead(r: PStmt, toks: Seq<Lexeme>, i: int, in_loop: bool) -> bool {
    match r {
        Ok((s, j, _)) => onward(toks, i, j) && s.breaks_ok(in_loop),
        Err(_) => true,
    }
}

/// The node that one step of `term` builds.
pub open spec fn p_term_rest_node(toks: Seq<Lexeme>, j: int, left: ExprView, r: ExprView) -> ExprView {
    ExprView::Arith(if tag_is(toks, j, 42) { BinOp::Mul } else { BinOp::Div }, Box::new(left), Box::new(r))
}

/// The node that one step of `expr` builds.
pub open spec fn p_expr_rest_node(toks: Seq<Lexeme>, j: int, left: ExprView, r: ExprView) -> ExprView {
    ExprView::Arith(if tag_is(toks, j, 43) { BinOp::Add } else { BinOp::Sub }, Box::new(left), Box::new(r))
}

/// The node that one step of `equality` builds.
pub open spec fn p_equality_rest_node(toks: Seq<Lexeme>, j: int, left: ExprView, r: ExprView) -> ExprView {
    ExprView::Rel(if tag_is(toks, j, 33) { RelOp::Ne } else { RelOp::Eq }, Box::new(left), Box::new(r))
}

/// The node that one step of `join` builds.
pub open spec fn p_join_rest_node(toks: Seq<Lexeme>, j: int, left: ExprView, r: ExprView) -> ExprView {
    ExprView::And(Box::new(left), Box::new(r))
}

/// The node that one step of `bool` builds.
pub open spec fn p_bool_rest_node(toks: Seq<Lexeme>, j: int, left: ExprView, r: ExprView) -> ExprView {
    ExprView::Or(Box::new(left), Box::new(r))
}

/// What `factor` recognizes takes at least one token.
pub proof fn lemma_factor_ahead(toks: Seq<Lexeme>, i: int, fr: Seq<Frame>)
    ensures
        ahead(p_factor(toks, i, fr), toks, i),
    decreases toks.len() - i, 1nat,
{
    if tag_is(toks, i, 40) {
        if let Ok(j) = advance(toks, i) {
            lemma_bool_ahead(toks, j, fr);
        }
    }
}

/// What `unary` recognizes takes at least one token.
pub proof fn lemma_unary_ahead(toks: Seq<Lexeme>, i: int, fr: Seq<Frame>)
    ensures
        ahead(p_unary(toks, i, fr), toks, i),
    decreases toks.len() - i, 2nat,
{
    if tag_is(toks, i, 45) || tag_is(toks, i, 33) {
        if let Ok(j) = advance(toks, i) {
            lemma_unary_ahead(toks, j, fr);
        }
    } else {
        lemma_factor_ahead(toks, i, fr);
    }
}

/// What follows the first operand of `term` ends at that operand's end or behind it.
pub proof fn lemma_term_rest_ahead(toks: Seq<Lexeme>, j: int, fr: Seq<Frame>, left: ExprView)
    requires
        j <= toks.len(),
    ensures
        not_behind(p_term_rest(toks, j, fr, left), toks, j),
    decreases toks.len() - j, 0nat,
{
    if tag_is(toks, j, 42) || tag_is(toks, j, 47) {
        if let Ok(k) = advance(toks, j) {
            lemma_unary_ahead(toks, k, fr);
            if let Ok((r, m)) = p_unary(toks, k, fr) {
                if onward(toks, j, m) {
                    lemma_term_rest_ahead(toks, m, fr, p_term_rest_node(toks, j, left, r));
                }
            }
        }
    }
}

/// What `term` recognizes takes at least one token.
pub proof fn lemma_term_ahead(toks: Seq<Lexeme>, i: int, fr: Seq<Frame>)
    ensures
        ahead(p_term(toks, i, fr), toks, i),
    decreases toks.len() - i, 3nat,
{
    lemma_unary_ahead(toks, i, fr);
    if let Ok((x, j)) = p_unary(toks, i, fr) {
        lemma_term_rest_ahead(toks, j, fr, x);
    }
}

/// What follows the first operand of `expr` ends at that operand's end or behind it.
pub proof fn lemma_expr_rest_ahead(toks: Seq<Lexeme>, j: int, fr: Seq<Frame>, left: ExprView)
    requires
        j <= toks.len(),
    ensures
        not_behind(p_expr_rest(toks, j, fr, left), toks, j),
    decreases toks.len() - j, 0nat,
{
    if tag_is(toks, j, 43) || tag_is(toks, j, 45) {
        if let Ok(k) = advance(toks, j) {
            lemma_term_ahead(toks, k, fr);
            if let Ok((r, m)) = p_term(toks, k, fr) {
                if onward(toks, j, m) {
                    lemma_expr_rest_ahead(toks, m, fr, p_expr_rest_node(toks, j, left, r));
                }
            }
        }
    }
}

/// What `expr` recognizes takes at least one token.
pub proof fn lemma_expr_ahead(toks: Seq<Lexeme>, i: int, fr: Seq<Frame>)
    ensures
        ahead(p_expr(toks, i, fr), toks, i),
    decreases toks.len() - i, 4nat,
{
    lemma_term_ahead(toks, i, fr);
    if let Ok((x, j)) = p_term(toks, i, fr) {
        lemma_expr_rest_ahead(toks, j, fr, x);
    }
}

/// What `rel` recognizes takes at least one token.
pub proof fn lemma_rel_ahead(toks: Seq<Lexeme>, i: int, fr: Seq<Frame>)
    ensures
        ahead(p_rel(toks, i, fr), toks, i),
    decreases toks.len() - i, 6nat,
{
    lemma_expr_ahead(toks, i, fr);
    if let Ok((x, j)) = p_expr(toks, i, fr) {
        if let Ok(k) = advance(toks, j) {
            lemma_expr_ahead(toks, k, fr);
            if let Ok(m) = advance(toks, k) {
                lemma_expr_ahead(toks, m, fr);
            }
        }
    }
}

/// What follows the first operand of `equality` ends at that operand's end or behind it.
pub proof fn lemma_equality_rest_ahead(toks: Seq<Lexeme>, j: int, fr: Seq<Frame>, left: ExprView)
    requires
        j <= toks.len(),
    ensures
        not_behind(p_equality_rest(toks, j, fr, left), toks, j),
    decreases toks.len() - j, 0nat,
{
    if tag_is(toks, j, Tag::Eq_.spec_code()) || tag_is(toks, j, 33) {
        if let Ok(k) = p_equality_op(toks, j) {
            lemma_rel_ahead(toks, k, fr);
            if let Ok((r, m)) = p_rel(toks, k, fr) {
                if onward(toks, j, m) {
                    lemma_equality_rest_ahead(toks, m, fr, p_equality_rest_node(toks, j, left, r));
                }
            }
        }
    }
}

/// What `equality` recognizes takes at least one token.
pub proof fn lemma_equality_ahead(toks: Seq<Lexeme>, i: int, fr: Seq<Frame>)
    ensures
        ahead(p_equality(toks, i, fr), toks, i),
    decreases toks.len() - i, 7nat,
{
    lemma_rel_ahead(toks, i, fr);
    if let Ok((x, j)) = p_rel(toks, i, fr) {
        lemma_equality_rest_ahead(toks, j, fr, x);
    }
}

/// What follows the first operand of `join` ends at that operand's end or behind it.
pub proof fn lemma_join_rest_ahead(toks: Seq<Lexeme>, j: int, fr: Seq<Frame>, left: ExprView)
    requires
        j <= toks.len(),
    ensures
        not_behind(p_join_rest(toks, j, fr, left), toks, j),
    decreases toks.len() - j, 0nat,
{
    if tag_is(toks, j, Tag::And.spec_code()) {
        if let Ok(k) = advance(toks, j) {
            lemma_equality_ahead(toks, k, fr);
            if let Ok((r, m)) = p_equality(toks, k, fr) {
                if onward(toks, j, m) {
                    lemma_join_rest_ahead(toks, m, fr, p_join_rest_node(toks, j, left, r));
                }
            }
        }
    }
}

/// What `join` recognizes takes at least one token.
pub proof fn lemma_join_ahead(toks: Seq<Lexeme>, i: int, fr: Seq<Frame>)
    ensures
        ahead(p_join(toks, i, fr), toks, i),
    decreases toks.len() - i, 8nat,
{
    lemma_equality_ahead(toks, i, fr);
    if let Ok((x, j)) = p_equality(toks, i, fr) {
        lemma_join_rest_ahead(toks, j, fr, x);
    }
}

/// What follows the first operand of `bool` ends at that operand's end or behind it.
pub proof fn lemma_bool_rest_ahead(toks: Seq<Lexeme>, j: int, fr: Seq<Frame>, left: ExprView)
    requires
        j <= toks.len(),
    ensures
        not_behind(p_bool_rest(toks, j, fr, left), toks, j),
    decreases toks.len() - j, 0nat,
{
    if tag_is(toks, j, Tag::Or.spec_code()) {
        if let Ok(k) = advance(toks, j) {
            lemma_join_ahead(toks, k, fr);
            if let Ok((r, m)) = p_join(toks, k, fr) {
                if onward(toks, j, m) {
                    lemma_bool_rest_ahead(toks, m, fr, p_bool_rest_node(toks, j, left, r));
                }
            }
        }
    }
}

/// What `bool` recognizes takes at least one token.
pub proof fn lemma_bool_ahead(toks: Seq<Lexeme>, i: int, fr: Seq<Frame>)
    ensures
        ahead(p_bool(toks, i, fr), toks, i),
    decreases toks.len() - i, 9nat,
{
    lemma_join_ahead(toks, i, fr);
    if let Ok((x, j)) = p_join(toks, i, fr) {
        lemma_bool_rest_ahead(toks, j, fr, x);
    }
}

/// A condition takes at least one token.
pub proof fn lemma_condition_ahead(toks: Seq<Lexeme>, i: int, fr: Seq<Frame>)
    ensures
        ahead(p_condition(toks, i, fr), toks, i),
{
    if let Ok(j) = advance(toks, i) {
        if let Ok(k) = expect(toks, j, 40) {
            lemma_bool_ahead(toks, k, fr);
        }
    }
}

/// Declarations end where they start or behind it.
pub proof fn lemma_decls_ahead(toks: Seq<Lexeme>, i: int, fr: Seq<Frame>, used: int)
    requires
        i <= toks.len(),
    ensures
        p_decls(toks, i, fr, used) matches Ok((_, _, j)) ==> i <= j <= toks.len(),
    decreases toks.len() - i,
{
    if let TokenView::Type(tt, ts, w) = tok(toks, i) {
        if let Ok(j) = advance(toks, i) {
            if let TokenView::Word(t, s) = tok(toks, j) {
                if let Ok(k) = advance(toks, j) {
                    if let Ok(m) = expect(toks, k, 59) {
                        lemma_decls_ahead(
                            toks,
                            m,
                            declare(
                                fr,
                                (t, s),
                                IdView { word: (t, s), type_word: (tt, ts), width: w, offset: used as u64 },
                            ),
                            used + w,
                        );
                    }
                }
            }
        }
    }
}

/// A statement takes at least one token, and every `break` in it stands
/// inside a loop, where the statement itself does or the loop is part of it.
pub proof fn lemma_stmt_ahead(toks: Seq<Lexeme>, i: int, fr: Seq<Frame>, used: int, in_loop: bool)
    ensures
        stmt_ahead(p_stmt(toks, i, fr, used, in_loop), toks, i, in_loop),
    decreases toks.len() - i, 12nat,
{
    if tag_is(toks, i, 59) {
    } else if tag_is(toks, i, Tag::If.spec_code()) {
        lemma_condition_ahead(toks, i, fr);
        if let Ok((c, j)) = p_condition(toks, i, fr) {
            lemma_stmt_ahead(toks, j, fr, used, in_loop);
            if let Ok((s1, k, u1)) = p_stmt(toks, j, fr, used, in_loop) {
                if let Ok(m) = advance(toks, k) {
                    lemma_stmt_ahead(toks, m, fr, u1, in_loop);
                }
            }
        }
    } else if tag_is(toks, i, Tag::While.spec_code()) {
        lemma_condition_ahead(toks, i, fr);
        if let Ok((c, j)) = p_condition(toks, i, fr) {
            lemma_stmt_ahead(toks, j, fr, used, true);
        }
    } else if tag_is(toks, i, Tag::Break.spec_code()) {
    } else if tag_is(toks, i, 123) {
        lemma_block_ahead(toks, i, fr, used, in_loop);
    } else {
        if let TokenView::Word(t, s) = tok(toks, i) {
            if let Ok(j) = advance(toks, i) {
                if let Ok(k) = expect(toks, j, 61) {
                    lemma_bool_ahead(toks, k, fr);
                }
            }
        }
    }
}

/// Statements end where they start or behind it, and keep every `break`
/// inside a loop.
pub proof fn lemma_stmts_ahead(toks: Seq<Lexeme>, i: int, fr: Seq<Frame>, used: int, in_loop: bool)
    requires
        i <= toks.len(),
    ensures
        p_stmts(toks, i, fr, used, in_loop) matches Ok((s, j, _)) ==> i <= j <= toks.len() && s.breaks_ok(
            in_loop,
        ),
    decreases toks.len() - i, 13nat,
{
    if !tag_is(toks, i, 125) {
        lemma_stmt_ahead(toks, i, fr, used, in_loop);
        if let Ok((s, j, u1)) = p_stmt(toks, i, fr, used, in_loop) {
            lemma_stmts_ahead(toks, j, fr, u1, in_loop);
        }
    }
}

/// A block takes at least one token and keeps every `break` inside a loop.
pub proof fn lemma_block_ahead(toks: Seq<Lexeme>, i: int, fr: Seq<Frame>, used: int, in_loop: bool)
    ensures
        stmt_ahead(p_block(toks, i, fr, used, in_loop), toks, i, in_loop),
    decreases toks.len() - i, 11nat,
{
    if let Ok(j) = expect(toks, i, 123) {
        lemma_decls_ahead(toks, j, enter(fr), used);
        if let Ok((fr1, u1, k)) = p_decls(toks, j, enter(fr), used) {
            lemma_stmts_ahead(toks, k, fr1, u1, in_loop);
        }
    }
}

/// In the code of every input that compiles, each label that was handed
/// out is defined exactly once, no other label is defined, and every jump
/// goes to a label that was handed out.
pub proof fn theorem_compiled_labels(src: Seq<u8>)
    ensures
        match compiled_state(src) {
            Ok(g) => g.labels >= 2 && tidy(g.code, g.labels),
            Err(_) => true,
        },
{
    let toks = tokens(src);
    if compiled_state(src) is Ok {
        lemma_block_ahead(toks, 0, Seq::empty(), 0, false);
        let s = p_block(toks, 0, Seq::empty(), 0, false)->Ok_0.0;
        theorem_program_labels(s);
    }
}

} // verus!
