//! Statement nodes and their translation into labelled jumping code.

use vstd::prelude::*;
use crate::expr::{room, within, Expr, ExprView};
use crate::ir::{code_view, Emitter, Gen, Instr, InstrView};
use crate::symbols::{Id, IdView};

verus! {

/// A statement, as a plain value.
pub enum StmtView {
    Null,
    Sequence(Box<StmtView>, Box<StmtView>),
    If(ExprView, Box<StmtView>),
    Else(ExprView, Box<StmtView>, Box<StmtView>),
    While(ExprView, Box<StmtView>),
    Break,
    Assign(IdView, ExprView),
}

/// A statement node. It lives from the moment it is parsed until its code is
/// emitted.
#[derive(Debug, PartialEq, Eq)]
pub enum Stmt {
    /// The empty statement.
    Null,
    /// One statement, then the rest of the sequence.
    Sequence(Box<Stmt>, Box<Stmt>),
    /// `if (condition) statement`
    If(Expr, Box<Stmt>),
    /// `if (condition) statement else statement`
    Else(Expr, Box<Stmt>, Box<Stmt>),
    /// `while (condition) statement`
    While(Expr, Box<Stmt>),
    /// `break;`
    Break,
    /// `variable = expression;`
    Assign(Id, Expr),
}

impl Stmt {
    /// The statement as a plain value.
    pub open spec fn as_view(&self) -> StmtView
        decreases self,
    {
        match self {
            Stmt::Null => StmtView::Null,
            Stmt::Sequence(a, b) => StmtView::Sequence(Box::new(a.as_view()), Box::new(b.as_view())),
            Stmt::If(c, a) => StmtView::If(c@, Box::new(a.as_view())),
            Stmt::Else(c, a, b) => StmtView::Else(c@, Box::new(a.as_view()), Box::new(b.as_view())),
            Stmt::While(c, a) => StmtView::While(c@, Box::new(a.as_view())),
            Stmt::Break => StmtView::Break,
            Stmt::Assign(id, e) => StmtView::Assign(id@, e@),
        }
    }
}

impl View for Stmt {
    type V = StmtView;

    open spec fn view(&self) -> StmtView {
        self.as_view()
    }
}

impl StmtView {
    /// The number of nodes, those of the expressions included.
    pub open spec fn size(self) -> nat
        decreases self,
    {
        match self {
            StmtView::Null => 1,
            StmtView::Sequence(a, b) => 1 + a.size() + b.size(),
            StmtView::If(c, a) => 1 + c.size() + a.size(),
            StmtView::Else(c, a, b) => 1 + c.size() + a.size() + b.size(),
            StmtView::While(c, a) => 1 + c.size() + a.size(),
            StmtView::Break => 1,
            StmtView::Assign(_, e) => 1 + e.size(),
        }
    }

    /// Whether every `break` stands inside a loop, given whether the
    /// statement itself does.
    pub open spec fn breaks_ok(self, in_loop: bool) -> bool
        decreases self,
    {
        match self {
            StmtView::Null => true,
            StmtView::Sequence(a, b) => a.breaks_ok(in_loop) && b.breaks_ok(in_loop),
            StmtView::If(_, a) => a.breaks_ok(in_loop),
            StmtView::Else(_, a, b) => a.breaks_ok(in_loop) && b.breaks_ok(in_loop),
            StmtView::While(_, a) => a.breaks_ok(true),
            StmtView::Break => in_loop,
            StmtView::Assign(_, _) => true,
        }
    }

    /// The translation of a statement. `begin` is the label, already defined,
    /// at which control enters the statement; `after` is the label to which
    /// control goes when the statement is done; `brk` is the `after` of the
    /// innermost loop around the statement, or 0 outside every loop.
    ///
    /// A sequence takes a fresh label `m`: the first statement runs from
    /// `begin` to `m`, `m` is defined, the rest runs from `m` to `after`.
    /// `if` takes a fresh label for its body; the condition goes on into the
    /// body where it holds and jumps to `after` where it does not. `if` with
    /// `else` takes two fresh labels, one for each branch, and the first
    /// branch ends with a jump to `after`. `while` takes a fresh label for
    /// its body; the condition jumps there where it holds and to `after`
    /// where it does not; the body runs from that label to `begin` with
    /// `after` as its `brk`, and ends with a jump back to `begin`. `break`
    /// jumps to `brk`. An assignment computes the value and stores it.
    pub open spec fn code(self, g: Gen, begin: int, after: int, brk: int) -> Gen
        decreases self,
    {
        match self {
            StmtView::Null => g,
            StmtView::Sequence(a, b) => {
                let g1 = g.new_label();
                let m = g1.labels;
                let g2 = a.code(g1, begin, m, brk).emit(InstrView::Label(m));
                b.code(g2, m, after, brk)
            },
            StmtView::If(c, a) => {
                let g1 = g.new_label();
                let l = g1.labels;
                let g2 = c.jumping(g1, 0, after).emit(InstrView::Label(l));
                a.code(g2, l, after, brk)
            },
            StmtView::Else(c, a, b) => {
                let g1 = g.new_label();
                let l1 = g1.labels;
                let g2 = g1.new_label();
                let l2 = g2.labels;
                let g3 = c.jumping(g2, l1, l2).emit(InstrView::Label(l1));
                let g4 = a.code(g3, l1, after, brk).emit(InstrView::Goto(after)).emit(
                    InstrView::Label(l2),
                );
                b.code(g4, l2, after, brk)
            },
            StmtView::While(c, a) => {
                let g1 = g.new_label();
                let l = g1.labels;
                let g2 = c.jumping(g1, l, after).emit(InstrView::Label(l));
                a.code(g2, l, begin, after).emit(InstrView::Goto(begin))
            },
            StmtView::Break => g.emit(InstrView::Goto(brk)),
            StmtView::Assign(id, e) => {
                let (g1, v) = e.value(g);
                g1.emit(InstrView::Store(id.offset as int, v))
            },
        }
    }

    /// The state after a whole program was translated: two fresh labels,
    /// `begin` and `after`; `begin` is defined, the statement runs from
    /// `begin` to `after` outside every loop, and `after` is defined.
    pub open spec fn program(self) -> Gen {
        let g1 = Gen::start().new_label();
        let begin = g1.labels;
        let g2 = g1.new_label();
        let after = g2.labels;
        self.code(g2.emit(InstrView::Label(begin)), begin, after, 0).emit(InstrView::Label(after))
    }
}

impl Stmt {
    /// Emits the code of the statement.
    pub fn gen(&self, em: &mut Emitter, begin: u64, after: u64, brk: u64)
        requires
            begin != 0,
            after != 0,
            self@.breaks_ok(brk != 0),
            room(old(em)@, 4 * self@.size() as int, self@.size() as int),
        ensures
            final(em)@ == self@.code(old(em)@, begin as int, after as int, brk as int),
            within(old(em)@, final(em)@, 4 * self@.size() as int, self@.size() as int),
        decreases self,
    {
        proof {
            em.lemma_bounds();
        }
        match self {
            Stmt::Null => {},
            Stmt::Sequence(a, b) => {
                let m = em.new_label();
                a.gen(em, begin, m, brk);
                em.emit_label(m);
                b.gen(em, m, after, brk);
            },
            Stmt::If(c, a) => {
                let l = em.new_label();
                c.jumping(em, 0, after);
                em.emit_label(l);
                a.gen(em, l, after, brk);
            },
            Stmt::Else(c, a, b) => {
                let l1 = em.new_label();
                let l2 = em.new_label();
                c.jumping(em, l1, l2);
                em.emit_label(l1);
                a.gen(em, l1, after, brk);
                em.emit(Instr::Goto(after));
                em.emit_label(l2);
                b.gen(em, l2, after, brk);
            },
            Stmt::While(c, a) => {
                let l = em.new_label();
                c.jumping(em, l, after);
                em.emit_label(l);
                a.gen(em, l, begin, after);
                em.emit(Instr::Goto(begin));
            },
            Stmt::Break => {
                em.emit(Instr::Goto(brk));
            },
            Stmt::Assign(id, e) => {
                let v = e.value(em);
                em.emit(Instr::Store(id.offset, v));
            },
        }
    }

    /// The code of a whole program whose body is this statement.
    pub fn translate(&self) -> (code: Vec<Instr>)
        requires
            self@.breaks_ok(false),
            4 * self@.size() + 2 <= u64::MAX,
        ensures
            code_view(code@) == self@.program().code,
    {
        let mut em = Emitter::new();
        let begin = em.new_label();
        let after = em.new_label();
        em.emit_label(begin);
        self.gen(&mut em, begin, after, 0);
        em.emit_label(after);
        em.finish()
    }
}

} // verus!
