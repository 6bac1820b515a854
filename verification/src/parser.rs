//! The recursive-descent parser: it recognizes the grammar, resolves
//! identifiers through the scopes, and hands the statement it has built to
//! the translator.

use vstd::prelude::*;
use crate::expr::Expr;
use crate::grammar::{
    advance, compiled, expect, p_assign, p_block, p_bool, p_bool_rest, p_condition, p_decls,
    p_equality, p_equality_rest, p_expr, p_expr_rest, p_factor, p_join, p_join_rest, p_rel,
    p_rel_right, p_stmt, p_stmts, p_term, p_term_rest, p_unary, semantic, syntax, tag_is,
    ErrorView, PExpr, PStmt,
};
use crate::ir::{code_view, BinOp, Constant, Instr, RelOp};
use crate::lexer::{skip_blanks, Lexer, Tag, Token, TokenView, Word, WordBase};
use crate::stmt::Stmt;
use crate::stream::{
    lemma_lex_shape, lemma_skip_blanks, lemma_token_end, lemma_type_width, lex, stream_ok, Lexeme,
};
use crate::symbols::{chain, declare, resolve, Env, Frame, Id};

verus! {

/// Why a compilation stopped. Every error ends the compilation.
#[derive(Debug, PartialEq, Eq)]
pub enum CompileError {
    /// A literal cannot be read.
    Lex { line: u32 },
    /// The token found is not what the grammar asks for.
    Syntax { line: u32, found: Token },
    /// The token found is an identifier that no open scope declares, or a
    /// `break` outside every loop.
    Semantic { line: u32, found: Token },
}

impl View for CompileError {
    type V = ErrorView;

    open spec fn view(&self) -> ErrorView {
        match self {
            CompileError::Lex { line } => ErrorView::Lex(*line),
            CompileError::Syntax { line, found } => ErrorView::Syntax(*line, found@),
            CompileError::Semantic { line, found } => ErrorView::Semantic(*line, found@),
        }
    }
}

/// The parser: the tokenizer, the token looked at, the innermost scope, and
/// the storage that the declarations have used.
pub struct Parser {
    lex: Lexer,
    look: Token,
    top: Option<Box<Env>>,
    used: u64,
    toks: Ghost<Seq<Lexeme>>,
    k: Ghost<int>,
}

impl Parser {
    /// The tokens of the input, from where the tokenizer stood when the
    /// parser was made.
    pub closed spec fn stream(&self) -> Seq<Lexeme> {
        self.toks@
    }

    /// The index, in `stream`, of the token looked at.
    pub closed spec fn index(&self) -> int {
        self.k@
    }

    /// The open scopes, innermost first.
    pub closed spec fn frames(&self) -> Seq<Frame> {
        chain(self.top)
    }

    /// The storage that the declarations so far have used.
    pub closed spec fn used(&self) -> int {
        self.used as int
    }

    /// The parser's invariant.
    pub closed spec fn inv(&self) -> bool {
        &&& self.lex.wf()
        &&& 0 <= self.k@ < self.toks@.len() <= u32::MAX
        &&& stream_ok(self.toks@)
        &&& self.toks@[self.k@] == Lexeme::Token(self.look@, self.lex.line())
        &&& !(self.look@ is Eof) ==> self.toks@.skip(self.k@ + 1) == lex(
            self.lex.source(),
            self.lex.cursor(),
            self.lex.table(),
            self.lex.line(),
        )
        &&& self.look@ matches TokenView::Type(_, _, w) ==> w <= 8
        &&& self.used <= 8 * self.k@
    }

    /// Whether `self` differs from `old` at most in the token looked at.
    closed spec fn follows(&self, old: &Parser) -> bool {
        &&& self.toks@ == old.toks@
        &&& chain(self.top) == chain(old.top)
        &&& self.used == old.used
    }

    /// What the invariant says of the index.
    pub proof fn lemma_inv(&self)
        requires
            self.inv(),
        ensures
            0 <= self.index() < self.stream().len() <= u32::MAX,
            0 <= self.used() <= 8 * self.index(),
    {
    }

    /// The error for the token looked at, where the grammar does not ask
    /// for it.
    fn unexpected(&self) -> (e: CompileError)
        requires
            self.inv(),
        ensures
            e@ == syntax(self.stream(), self.index()),
    {
        CompileError::Syntax { line: self.lex.line_num(), found: self.look.clone() }
    }

    /// The error for the token looked at, where it names nothing or leaves
    /// no loop.
    fn unresolved(&self) -> (e: CompileError)
        requires
            self.inv(),
        ensures
            e@ == semantic(self.stream(), self.index()),
    {
        CompileError::Semantic { line: self.lex.line_num(), found: self.look.clone() }
    }

    /// Whether the token looked at has the tag `t`.
    fn at(&self, t: u32) -> (b: bool)
        requires
            self.inv(),
        ensures
            b == tag_is(self.stream(), self.index(), t),
    {
        match self.look.get_tag() {
            Some(x) => x == t,
            None => false,
        }
    }

    /// Takes the token looked at and looks at the next one.
    #[verifier::rlimit(60)]
    fn move_(&mut self) -> (r: Result<(), CompileError>)
        requires
            old(self).inv(),
        ensures
            final(self).follows(old(self)),
            match advance(old(self).stream(), old(self).index()) {
                Ok(j) => r.is_ok() && final(self).inv() && final(self).index() == j,
                Err(e) => r matches Err(x) && x@ == e,
            },
    {
        if let Token::Eof = self.look {
            return Err(self.unexpected());
        }
        proof {
            self.lex.lemma_wf();
            let src = self.lex.source();
            let start = skip_blanks(src, self.lex.cursor());
            lemma_skip_blanks(src, self.lex.cursor());
            lemma_type_width(src, self.lex.table(), start);
            if start < src.len() {
                lemma_token_end(src, start);
            }
            assert(self.toks@.skip(self.k@ + 1).len() >= 1);
            assert(self.toks@[self.k@ + 1] == self.toks@.skip(self.k@ + 1)[0]);
        }
        let ghost before = lex(
            self.lex.source(),
            self.lex.cursor(),
            self.lex.table(),
            self.lex.line(),
        );
        match self.lex.scan() {
            Err(e) => Err(CompileError::Lex { line: e.line }),
            Ok(t) => {
                self.look = t;
                proof {
                    self.k@ = self.k@ + 1;
                    if !(self.look@ is Eof) {
                        let after = lex(
                            self.lex.source(),
                            self.lex.cursor(),
                            self.lex.table(),
                            self.lex.line(),
                        );
                        assert(before.skip(1) =~= after);
                        assert(self.toks@.skip(self.k@ + 1) =~= before.skip(1));
                    }
                }
                Ok(())
            },
        }
    }

    /// Takes the token looked at where it has the tag `t`.
    fn match_(&mut self, t: u32) -> (r: Result<(), CompileError>)
        requires
            old(self).inv(),
        ensures
            final(self).follows(old(self)),
            match expect(old(self).stream(), old(self).index(), t) {
                Ok(j) => r.is_ok() && final(self).inv() && final(self).index() == j,
                Err(e) => r matches Err(x) && x@ == e,
            },
    {
        if self.at(t) {
            self.move_()
        } else {
            Err(self.unexpected())
        }
    }

    /// A parser on the tokens that `l` has yet to give, looking at the first
    /// of them, with no scope open and no storage used.
    pub fn new(l: Lexer) -> (r: Result<Parser, CompileError>)
        requires
            l.wf(),
        ensures
            ({
                let toks = lex(l.source(), l.cursor(), l.table(), l.line());
                match toks[0] {
                    Lexeme::Bad(line) => r matches Err(e) && e@ == ErrorView::Lex(line),
                    Lexeme::Token(_, _) => r matches Ok(p) && p.inv() && p.stream() == toks
                        && p.index() == 0 && p.frames() == Seq::<Frame>::empty() && p.used() == 0,
                }
            }),
    {
        let ghost toks = lex(l.source(), l.cursor(), l.table(), l.line());
        let mut lx = l;
        proof {
            lx.lemma_wf();
            let src = lx.source();
            let start = skip_blanks(src, lx.cursor());
            lemma_skip_blanks(src, lx.cursor());
            lemma_type_width(src, lx.table(), start);
            lemma_lex_shape(src, lx.cursor(), lx.table(), lx.line());
            if start < src.len() {
                lemma_token_end(src, start);
            }
        }
        match lx.scan() {
            Err(e) => Err(CompileError::Lex { line: e.line }),
            Ok(t) => {
                let p = Parser { lex: lx, look: t, top: None, used: 0, toks: Ghost(toks), k: Ghost(0) };
                proof {
                    if !(p.look@ is Eof) {
                        let after = lex(
                            p.lex.source(),
                            p.lex.cursor(),
                            p.lex.table(),
                            p.lex.line(),
                        );
                        assert(toks.skip(1) =~= after);
                    }
                }
                Ok(p)
            },
        }
    }
}

impl Parser {
    /// What a function that recognizes an expression owes: where the grammar
    /// gives an expression, that expression, with the parser looking at the
    /// token behind it; where it gives an error, that error. `base` is the
    /// index from which the expression's nodes are counted.
    closed spec fn expr_done(
        &self,
        old: &Parser,
        want: PExpr,
        r: Result<Expr, CompileError>,
        base: int,
    ) -> bool {
        match want {
            Ok((e, j)) => r matches Ok(x) && x@ == e && self.inv() && self.index() == j
                && old.index() < j && e.size() <= 2 * (j - base),
            Err(ev) => r matches Err(x) && x@ == ev,
        }
    }

    /// What the word `w` names in the open scopes.
    fn lookup(&self, w: &WordBase) -> (r: Option<Id>)
        ensures
            match resolve(self.frames(), w@) {
                Some(v) => r matches Some(id) && id@ == v,
                None => r.is_none(),
            },
    {
        match &self.top {
            Some(env) => env.get(w),
            None => None,
        }
    }

    /// `factor := '(' bool ')' | Num | Real | true | false | Id`
    #[verifier::rlimit(60)]
    fn factor(&mut self) -> (r: Result<Expr, CompileError>)
        requires
            old(self).inv(),
        ensures
            final(self).follows(old(self)),
            final(self).expr_done(
                old(self),
                p_factor(old(self).stream(), old(self).index(), old(self).frames()),
                r,
                old(self).index(),
            ),
        decreases old(self).stream().len() - old(self).index(), 1nat,
    {
        let look = self.look.clone();
        match look {
            Token::Token(b) => {
                if b.tag == 40 {
                    self.move_()?;
                    let x = self.bool_()?;
                    self.match_(41)?;
                    Ok(x)
                } else {
                    Err(self.unexpected())
                }
            },
            Token::Num(n) => {
                self.move_()?;
                Ok(Expr::Constant(Constant::Int(n.value)))
            },
            Token::Real(v) => {
                self.move_()?;
                Ok(Expr::Constant(Constant::Real(v)))
            },
            Token::Word(Word::Word(w)) => {
                if w.token.tag == Tag::True.code() {
                    self.move_()?;
                    Ok(Expr::Constant(Constant::Bool(true)))
                } else if w.token.tag == Tag::False.code() {
                    self.move_()?;
                    Ok(Expr::Constant(Constant::Bool(false)))
                } else if w.token.tag == Tag::Id.code() {
                    match self.lookup(&w) {
                        Some(id) => {
                            self.move_()?;
                            Ok(Expr::Id(id))
                        },
                        None => Err(self.unresolved()),
                    }
                } else {
                    Err(self.unexpected())
                }
            },
            _ => Err(self.unexpected()),
        }
    }

    /// `unary := '-' unary | '!' unary | factor`
    #[verifier::rlimit(60)]
    fn unary(&mut self) -> (r: Result<Expr, CompileError>)
        requires
            old(self).inv(),
        ensures
            final(self).follows(old(self)),
            final(self).expr_done(
                old(self),
                p_unary(old(self).stream(), old(self).index(), old(self).frames()),
                r,
                old(self).index(),
            ),
        decreases old(self).stream().len() - old(self).index(), 2nat,
    {
        if self.at(45) {
            self.move_()?;
            let x = self.unary()?;
            Ok(Expr::Unary(Box::new(x)))
        } else if self.at(33) {
            self.move_()?;
            let x = self.unary()?;
            Ok(Expr::Not(Box::new(x)))
        } else {
            self.factor()
        }
    }

    /// `term := unary (('*'|'/') unary)*`
    #[verifier::rlimit(60)]
    fn term(&mut self) -> (r: Result<Expr, CompileError>)
        requires
            old(self).inv(),
        ensures
            final(self).follows(old(self)),
            final(self).expr_done(
                old(self),
                p_term(old(self).stream(), old(self).index(), old(self).frames()),
                r,
                old(self).index(),
            ),
        decreases old(self).stream().len() - old(self).index(), 3nat,
    {
        let ghost i0 = self.k@;
        let mut x = self.unary()?;
        while self.at(42) || self.at(47)
            invariant
                self.inv(),
                self.follows(old(self)),
                i0 == old(self).index(),
                i0 < self.index(),
                x@.size() <= 2 * (self.index() - i0),
                p_term(old(self).stream(), i0, old(self).frames()) == p_term_rest(
                    self.stream(),
                    self.index(),
                    self.frames(),
                    x@,
                ),
            decreases self.stream().len() - self.index(),
        {
            let op = if self.at(42) {
                BinOp::Mul
            } else {
                BinOp::Div
            };
            self.move_()?;
            let y = self.unary()?;
            x = Expr::Arith(op, Box::new(x), Box::new(y));
        }
        Ok(x)
    }

    /// `expr := term (('+'|'-') term)*`
    #[verifier::rlimit(60)]
    fn expr(&mut self) -> (r: Result<Expr, CompileError>)
        requires
            old(self).inv(),
        ensures
            final(self).follows(old(self)),
            final(self).expr_done(
                old(self),
                p_expr(old(self).stream(), old(self).index(), old(self).frames()),
                r,
                old(self).index(),
            ),
        decreases old(self).stream().len() - old(self).index(), 4nat,
    {
        let ghost i0 = self.k@;
        let mut x = self.term()?;
        while self.at(43) || self.at(45)
            invariant
                self.inv(),
                self.follows(old(self)),
                i0 == old(self).index(),
                i0 < self.index(),
                x@.size() <= 2 * (self.index() - i0),
                p_expr(old(self).stream(), i0, old(self).frames()) == p_expr_rest(
                    self.stream(),
                    self.index(),
                    self.frames(),
                    x@,
                ),
            decreases self.stream().len() - self.index(),
        {
            let op = if self.at(43) {
                BinOp::Add
            } else {
                BinOp::Sub
            };
            self.move_()?;
            let y = self.term()?;
            x = Expr::Arith(op, Box::new(x), Box::new(y));
        }
        Ok(x)
    }

    /// The right operand of the comparison `op` whose left operand is `x`.
    #[verifier::rlimit(60)]
    fn rel_right(&mut self, op: RelOp, x: Expr, Ghost(base): Ghost<int>) -> (r: Result<Expr, CompileError>)
        requires
            old(self).inv(),
            base < old(self).index(),
            x@.size() + 2 <= 2 * (old(self).index() - base),
        ensures
            final(self).follows(old(self)),
            final(self).expr_done(
                old(self),
                p_rel_right(old(self).stream(), old(self).index(), old(self).frames(), op, x@),
                r,
                base,
            ),
        decreases old(self).stream().len() - old(self).index(), 5nat,
    {
        let y = self.expr()?;
        Ok(Expr::Rel(op, Box::new(x), Box::new(y)))
    }

    /// `rel := expr (('<'|'<='|'>='|'>') expr)?`
    #[verifier::rlimit(60)]
    fn rel(&mut self) -> (r: Result<Expr, CompileError>)
        requires
            old(self).inv(),
        ensures
            final(self).follows(old(self)),
            final(self).expr_done(
                old(self),
                p_rel(old(self).stream(), old(self).index(), old(self).frames()),
                r,
                old(self).index(),
            ),
        decreases old(self).stream().len() - old(self).index(), 6nat,
    {
        let ghost base = self.k@;
        let x = self.expr()?;
        if self.at(60) || self.at(62) {
            let less = self.at(60);
            self.move_()?;
            if self.at(61) {
                self.move_()?;
                self.rel_right(if less {
                    RelOp::Le
                } else {
                    RelOp::Ge
                }, x, Ghost(base))
            } else {
                self.rel_right(if less {
                    RelOp::Lt
                } else {
                    RelOp::Gt
                }, x, Ghost(base))
            }
        } else {
            Ok(x)
        }
    }

    /// `equality := rel (('=='|'!=') rel)*`
    #[verifier::rlimit(60)]
    fn equality(&mut self) -> (r: Result<Expr, CompileError>)
        requires
            old(self).inv(),
        ensures
            final(self).follows(old(self)),
            final(self).expr_done(
                old(self),
                p_equality(old(self).stream(), old(self).index(), old(self).frames()),
                r,
                old(self).index(),
            ),
        decreases old(self).stream().len() - old(self).index(), 7nat,
    {
        let ghost i0 = self.k@;
        let mut x = self.rel()?;
        while self.at(Tag::Eq_.code()) || self.at(33)
            invariant
                self.inv(),
                self.follows(old(self)),
                i0 == old(self).index(),
                i0 < self.index(),
                x@.size() <= 2 * (self.index() - i0),
                p_equality(old(self).stream(), i0, old(self).frames()) == p_equality_rest(
                    self.stream(),
                    self.index(),
                    self.frames(),
                    x@,
                ),
            decreases self.stream().len() - self.index(),
        {
            let differ = self.at(33);
            self.move_()?;
            if differ {
                self.match_(61)?;
            }
            let y = self.rel()?;
            x = Expr::Rel(if differ {
                RelOp::Ne
            } else {
                RelOp::Eq
            }, Box::new(x), Box::new(y));
        }
        Ok(x)
    }

    /// `join := equality ('&&' equality)*`
    #[verifier::rlimit(60)]
    fn join(&mut self) -> (r: Result<Expr, CompileError>)
        requires
            old(self).inv(),
        ensures
            final(self).follows(old(self)),
            final(self).expr_done(
                old(self),
                p_join(old(self).stream(), old(self).index(), old(self).frames()),
                r,
                old(self).index(),
            ),
        decreases old(self).stream().len() - old(self).index(), 8nat,
    {
        let ghost i0 = self.k@;
        let mut x = self.equality()?;
        while self.at(Tag::And.code())
            invariant
                self.inv(),
                self.follows(old(self)),
                i0 == old(self).index(),
                i0 < self.index(),
                x@.size() <= 2 * (self.index() - i0),
                p_join(old(self).stream(), i0, old(self).frames()) == p_join_rest(
                    self.stream(),
                    self.index(),
                    self.frames(),
                    x@,
                ),
            decreases self.stream().len() - self.index(),
        {
            self.move_()?;
            let y = self.equality()?;
            x = Expr::And(Box::new(x), Box::new(y));
        }
        Ok(x)
    }

    /// `bool := join ('||' join)*`
    #[verifier::rlimit(60)]
    fn bool_(&mut self) -> (r: Result<Expr, CompileError>)
        requires
            old(self).inv(),
        ensures
            final(self).follows(old(self)),
            final(self).expr_done(
                old(self),
                p_bool(old(self).stream(), old(self).index(), old(self).frames()),
                r,
                old(self).index(),
            ),
        decreases old(self).stream().len() - old(self).index(), 9nat,
    {
        let ghost i0 = self.k@;
        let mut x = self.join()?;
        while self.at(Tag::Or.code())
            invariant
                self.inv(),
                self.follows(old(self)),
                i0 == old(self).index(),
                i0 < self.index(),
                x@.size() <= 2 * (self.index() - i0),
                p_bool(old(self).stream(), i0, old(self).frames()) == p_bool_rest(
                    self.stream(),
                    self.index(),
                    self.frames(),
                    x@,
                ),
            decreases self.stream().len() - self.index(),
        {
            self.move_()?;
            let y = self.join()?;
            x = Expr::Or(Box::new(x), Box::new(y));
        }
        Ok(x)
    }
}

impl Parser {
    /// What a function that recognizes a statement owes: where the grammar
    /// gives a statement, that statement, with the parser looking at the
    /// token behind it, the scopes as before and the storage as the grammar
    /// says; where it gives an error, that error.
    closed spec fn stmt_done(
        &self,
        old: &Parser,
        want: PStmt,
        r: Result<Stmt, CompileError>,
        in_loop: bool,
        slack: int,
    ) -> bool {
        match want {
            Ok((s, j, u)) => r matches Ok(x) && x@ == s && self.inv() && self.index() == j
                && old.index() <= j && self.used() == u && self.frames() == old.frames()
                && s.size() <= 2 * (j - old.index()) + slack && s.breaks_ok(in_loop),
            Err(ev) => r matches Err(x) && x@ == ev,
        }
    }

    /// `decls := (type Id ';')*`
    #[verifier::rlimit(60)]
    fn decls(&mut self) -> (r: Result<(), CompileError>)
        requires
            old(self).inv(),
            old(self).frames().len() >= 1,
        ensures
            final(self).stream() == old(self).stream(),
            match p_decls(old(self).stream(), old(self).index(), old(self).frames(), old(self).used()) {
                Ok((fr, u, j)) => r.is_ok() && final(self).inv() && final(self).index() == j
                    && old(self).index() <= j && final(self).frames() == fr && final(self).used() == u
                    && fr.len() >= 1 && fr.skip(1) == old(self).frames().skip(1),
                Err(e) => r matches Err(x) && x@ == e,
            },
    {
        loop
            invariant
                self.inv(),
                self.stream() == old(self).stream(),
                self.frames().len() >= 1,
                self.frames().skip(1) == old(self).frames().skip(1),
                old(self).index() <= self.index(),
                p_decls(old(self).stream(), old(self).index(), old(self).frames(), old(self).used())
                    == p_decls(self.stream(), self.index(), self.frames(), self.used()),
            decreases self.stream().len() - self.index(),
        {
            let look = self.look.clone();
            let ty = match look {
                Token::Word(Word::Type(t)) => t,
                _ => {
                    return Ok(());
                },
            };
            let ghost fr = self.frames();
            self.move_()?;
            let name = self.look.clone();
            let w = match name {
                Token::Word(Word::Word(w)) => w,
                _ => {
                    return Err(self.unexpected());
                },
            };
            if w.token.tag != Tag::Id.code() {
                return Err(self.unexpected());
            }
            self.move_()?;
            self.match_(59)?;
            let id = Id::new(w.clone(), ty.clone(), self.used);
            let ghost key = w@;
            let ghost val = id@;
            let mut scopes = self.top.take();
            match scopes {
                Some(mut env) => {
                    env.put(w, id);
                    self.top = Some(env);
                },
                None => {},
            }
            self.used = self.used + ty.get_width() as u64;
            proof {
                assert(self.frames() =~= declare(fr, key, val));
                assert(self.frames().skip(1) =~= fr.skip(1));
            }
        }
    }

    /// `assign := Id '=' bool ';'`
    #[verifier::rlimit(60)]
    fn assign(&mut self) -> (r: Result<Stmt, CompileError>)
        requires
            old(self).inv(),
        ensures
            final(self).stream() == old(self).stream(),
            final(self).stmt_done(
                old(self),
                p_assign(old(self).stream(), old(self).index(), old(self).frames(), old(self).used()),
                r,
                false,
                -1,
            ),
        decreases old(self).stream().len() - old(self).index(), 10nat,
    {
        let look = self.look.clone();
        match look {
            Token::Word(Word::Word(w)) => {
                if w.token.tag == Tag::Id.code() {
                    match self.lookup(&w) {
                        None => Err(self.unresolved()),
                        Some(id) => {
                            self.move_()?;
                            self.match_(61)?;
                            let x = self.bool_()?;
                            self.match_(59)?;
                            Ok(Stmt::Assign(id, x))
                        },
                    }
                } else {
                    Err(self.unexpected())
                }
            },
            _ => Err(self.unexpected()),
        }
    }

    /// The condition in brackets behind the keyword looked at.
    #[verifier::rlimit(60)]
    fn condition(&mut self) -> (r: Result<Expr, CompileError>)
        requires
            old(self).inv(),
        ensures
            final(self).follows(old(self)),
            final(self).expr_done(
                old(self),
                p_condition(old(self).stream(), old(self).index(), old(self).frames()),
                r,
                old(self).index() + 3,
            ),
        decreases old(self).stream().len() - old(self).index(), 10nat,
    {
        self.move_()?;
        self.match_(40)?;
        let c = self.bool_()?;
        self.match_(41)?;
        Ok(c)
    }

    /// `if '(' bool ')' stmt [else stmt]`
    #[verifier::rlimit(60)]
    fn if_(&mut self, in_loop: bool) -> (r: Result<Stmt, CompileError>)
        requires
            old(self).inv(),
            !tag_is(old(self).stream(), old(self).index(), 59),
            tag_is(old(self).stream(), old(self).index(), Tag::If.spec_code()),
        ensures
            final(self).stream() == old(self).stream(),
            final(self).stmt_done(
                old(self),
                p_stmt(
                    old(self).stream(),
                    old(self).index(),
                    old(self).frames(),
                    old(self).used(),
                    in_loop,
                ),
                r,
                in_loop,
                -1,
            ),
        decreases old(self).stream().len() - old(self).index(), 11nat,
    {
        let c = self.condition()?;
        let s1 = self.stmt(in_loop)?;
        if !self.at(Tag::Else.code()) {
            return Ok(Stmt::If(c, Box::new(s1)));
        }
        self.move_()?;
        let s2 = self.stmt(in_loop)?;
        Ok(Stmt::Else(c, Box::new(s1), Box::new(s2)))
    }

    /// `while '(' bool ')' stmt`
    #[verifier::rlimit(60)]
    fn while_(&mut self, in_loop: bool) -> (r: Result<Stmt, CompileError>)
        requires
            old(self).inv(),
            !tag_is(old(self).stream(), old(self).index(), 59),
            !tag_is(old(self).stream(), old(self).index(), Tag::If.spec_code()),
            tag_is(old(self).stream(), old(self).index(), Tag::While.spec_code()),
        ensures
            final(self).stream() == old(self).stream(),
            final(self).stmt_done(
                old(self),
                p_stmt(
                    old(self).stream(),
                    old(self).index(),
                    old(self).frames(),
                    old(self).used(),
                    in_loop,
                ),
                r,
                in_loop,
                -1,
            ),
        decreases old(self).stream().len() - old(self).index(), 11nat,
    {
        let c = self.condition()?;
        let s = self.stmt(true)?;
        Ok(Stmt::While(c, Box::new(s)))
    }

    /// One statement. `in_loop` says whether it stands inside a loop.
    #[verifier::rlimit(60)]
    fn stmt(&mut self, in_loop: bool) -> (r: Result<Stmt, CompileError>)
        requires
            old(self).inv(),
        ensures
            final(self).stream() == old(self).stream(),
            final(self).stmt_done(
                old(self),
                p_stmt(
                    old(self).stream(),
                    old(self).index(),
                    old(self).frames(),
                    old(self).used(),
                    in_loop,
                ),
                r,
                in_loop,
                -1,
            ),
        decreases old(self).stream().len() - old(self).index(), 12nat,
    {
        if self.at(59) {
            self.move_()?;
            Ok(Stmt::Null)
        } else if self.at(Tag::If.code()) {
            self.if_(in_loop)
        } else if self.at(Tag::While.code()) {
            self.while_(in_loop)
        } else if self.at(Tag::Break.code()) {
            if !in_loop {
                return Err(self.unresolved());
            }
            self.move_()?;
            self.match_(59)?;
            Ok(Stmt::Break)
        } else if self.at(123) {
            self.block(in_loop)
        } else {
            self.assign()
        }
    }

    /// `stmts := stmt stmts | (nothing)`
    #[verifier::rlimit(60)]
    fn stmts(&mut self, in_loop: bool) -> (r: Result<Stmt, CompileError>)
        requires
            old(self).inv(),
        ensures
            final(self).stream() == old(self).stream(),
            final(self).stmt_done(
                old(self),
                p_stmts(
                    old(self).stream(),
                    old(self).index(),
                    old(self).frames(),
                    old(self).used(),
                    in_loop,
                ),
                r,
                in_loop,
                1,
            ),
        decreases old(self).stream().len() - old(self).index(), 13nat,
    {
        if self.at(125) {
            Ok(Stmt::Null)
        } else {
            let s = self.stmt(in_loop)?;
            let rest = self.stmts(in_loop)?;
            Ok(Stmt::Sequence(Box::new(s), Box::new(rest)))
        }
    }

    /// `block := '{' decls stmts '}'`
    #[verifier::rlimit(60)]
    fn block(&mut self, in_loop: bool) -> (r: Result<Stmt, CompileError>)
        requires
            old(self).inv(),
        ensures
            final(self).stream() == old(self).stream(),
            final(self).stmt_done(
                old(self),
                p_block(
                    old(self).stream(),
                    old(self).index(),
                    old(self).frames(),
                    old(self).used(),
                    in_loop,
                ),
                r,
                in_loop,
                -1,
            ),
        decreases old(self).stream().len() - old(self).index(), 11nat,
    {
        self.match_(123)?;
        let outer = self.top.take();
        self.top = Some(Box::new(Env::new(outer)));
        self.decls()?;
        let ghost fr1 = self.frames();
        let s = self.stmts(in_loop)?;
        self.match_(125)?;
        let inner = self.top.take();
        match inner {
            Some(env) => {
                let e: Env = *env;
                self.top = e.leave();
            },
            None => {},
        }
        proof {
            assert(self.frames() =~= old(self).frames());
        }
        Ok(s)
    }

    /// Compiles one program: recognizes a block and gives its code.
    #[verifier::rlimit(60)]
    pub fn program(&mut self) -> (r: Result<Vec<Instr>, CompileError>)
        requires
            old(self).inv(),
        ensures
            final(self).stream() == old(self).stream(),
            match p_block(
                old(self).stream(),
                old(self).index(),
                old(self).frames(),
                old(self).used(),
                false,
            ) {
                Ok((s, j, u)) => r matches Ok(code) && code_view(code@) == s.program().code
                    && final(self).inv() && final(self).index() == j && final(self).used() == u
                    && final(self).frames() == old(self).frames(),
                Err(e) => r matches Err(x) && x@ == e,
            },
    {
        let s = self.block(false)?;
        proof {
            self.lemma_inv();
        }
        Ok(s.translate())
    }
}


/// Compiles the input `src`: gives the code of the block it starts with, or
/// the first error.
pub fn compile(src: Vec<u8>) -> (r: Result<Vec<Instr>, CompileError>)
    requires
        src.len() < u32::MAX,
    ensures
        match compiled(src@) {
            Ok(code) => r matches Ok(c) && code_view(c@) == code,
            Err(e) => r matches Err(x) && x@ == e,
        },
{
    let lexer = Lexer::new(src);
    let mut parser = Parser::new(lexer)?;
    parser.program()
}

} // verus!
