//! Expression nodes and their translation: arithmetic into temporaries,
//! boolean structure into jumps.

use vstd::prelude::*;
use crate::ir::{BinOp, Constant, ConstantView, Emitter, Gen, Instr, InstrView, RelOp};
use crate::symbols::{Id, IdView};

verus! {

/// An expression, as a plain value.
pub enum ExprView {
    Constant(ConstantView),
    Id(IdView),
    Arith(BinOp, Box<ExprView>, Box<ExprView>),
    Unary(Box<ExprView>),
    Not(Box<ExprView>),
    And(Box<ExprView>, Box<ExprView>),
    Or(Box<ExprView>, Box<ExprView>),
    Rel(RelOp, Box<ExprView>, Box<ExprView>),
}

/// An expression node. It lives from the moment it is parsed until its code
/// is emitted.
#[derive(Debug, PartialEq, Eq)]
pub enum Expr {
    /// A literal number or truth value.
    Constant(Constant),
    /// A reference to a declared variable.
    Id(Id),
    /// `left op right` for one of `+ - * /`.
    Arith(BinOp, Box<Expr>, Box<Expr>),
    /// `-operand`
    Unary(Box<Expr>),
    /// `!operand`
    Not(Box<Expr>),
    /// `left && right`
    And(Box<Expr>, Box<Expr>),
    /// `left || right`
    Or(Box<Expr>, Box<Expr>),
    /// `left rel right` for a comparison.
    Rel(RelOp, Box<Expr>, Box<Expr>),
}

impl Expr {
    /// The expression as a plain value.
    pub open spec fn as_view(&self) -> ExprView
        decreases self,
    {
        match self {
            Expr::Constant(c) => ExprView::Constant(c@),
            Expr::Id(id) => ExprView::Id(id@),
            Expr::Arith(op, a, b) => ExprView::Arith(*op, Box::new(a.as_view()), Box::new(b.as_view())),
            Expr::Unary(a) => ExprView::Unary(Box::new(a.as_view())),
            Expr::Not(a) => ExprView::Not(Box::new(a.as_view())),
            Expr::And(a, b) => ExprView::And(Box::new(a.as_view()), Box::new(b.as_view())),
            Expr::Or(a, b) => ExprView::Or(Box::new(a.as_view()), Box::new(b.as_view())),
            Expr::Rel(op, a, b) => ExprView::Rel(*op, Box::new(a.as_view()), Box::new(b.as_view())),
        }
    }
}

impl View for Expr {
    type V = ExprView;

    open spec fn view(&self) -> ExprView {
        self.as_view()
    }
}

/// The jumps that send control to `t` where the temporary `v` holds true and
/// to `f` where it holds false. Label 0 means "go on with the next record":
/// no jump is emitted for it.
pub open spec fn emit_jumps(g: Gen, v: int, t: int, f: int) -> Gen {
    if t != 0 && f != 0 {
        g.emit(InstrView::If(v, t)).emit(InstrView::Goto(f))
    } else if t != 0 {
        g.emit(InstrView::If(v, t))
    } else if f != 0 {
        g.emit(InstrView::IfFalse(v, f))
    } else {
        g
    }
}

impl ExprView {
    /// The number of nodes.
    pub open spec fn size(self) -> nat
        decreases self,
    {
        match self {
            ExprView::Constant(_) => 1,
            ExprView::Id(_) => 1,
            ExprView::Arith(_, a, b) => 1 + a.size() + b.size(),
            ExprView::Unary(a) => 1 + a.size(),
            ExprView::Not(a) => 1 + a.size(),
            ExprView::And(a, b) => 1 + a.size() + b.size(),
            ExprView::Or(a, b) => 1 + a.size() + b.size(),
            ExprView::Rel(_, a, b) => 1 + a.size() + b.size(),
        }
    }

    /// Whether the node is `!`, `&&` or `||`: these have no instruction of
    /// their own and are translated into jumps.
    pub open spec fn logical(self) -> bool {
        self is Not || self is And || self is Or
    }

    /// The translation of a node that is not logical into a value: the
    /// operands are translated first, left to right, then one instruction
    /// leaves the node's value in a fresh temporary, which is the result.
    pub open spec fn plain(self, g: Gen) -> (Gen, int)
        decreases self, 0nat,
    {
        match self {
            ExprView::Constant(c) => {
                let g1 = g.new_temp();
                (g1.emit(InstrView::Const(g1.temps, c)), g1.temps)
            },
            ExprView::Id(id) => {
                let g1 = g.new_temp();
                (g1.emit(InstrView::Load(g1.temps, id.offset as int)), g1.temps)
            },
            ExprView::Arith(op, a, b) => {
                let (g1, x) = a.value(g);
                let (g2, y) = b.value(g1);
                let g3 = g2.new_temp();
                (g3.emit(InstrView::Binary(g3.temps, op, x, y)), g3.temps)
            },
            ExprView::Rel(op, a, b) => {
                let (g1, x) = a.value(g);
                let (g2, y) = b.value(g1);
                let g3 = g2.new_temp();
                (g3.emit(InstrView::Compare(g3.temps, op, x, y)), g3.temps)
            },
            ExprView::Unary(a) => {
                let (g1, x) = a.value(g);
                let g2 = g1.new_temp();
                (g2.emit(InstrView::Neg(g2.temps, x)), g2.temps)
            },
            _ => (g, 0),
        }
    }

    /// The translation into jumps: control goes to `t` where the expression
    /// holds and to `f` where it does not; label 0 stands for going on with
    /// the next record.
    ///
    /// `!a` is `a` with the two targets exchanged. `a && b` takes a fresh
    /// label `l`: `a` goes to `l` where it holds and leaves where it does
    /// not, `l` is defined, and `b` follows against `t` and `f`. Where `f`
    /// is 0 a second fresh label, defined behind `b`, is where `a` leaves.
    /// `a || b` is the same with true and false exchanged. A truth value
    /// jumps to its own target, if that is not 0. Any other expression is
    /// translated into a value, which is then tested.
    pub open spec fn jumping(self, g: Gen, t: int, f: int) -> Gen
        decreases self, 1nat,
    {
        match self {
            ExprView::Constant(ConstantView::Bool(b)) => {
                if b && t != 0 {
                    g.emit(InstrView::Goto(t))
                } else if !b && f != 0 {
                    g.emit(InstrView::Goto(f))
                } else {
                    g
                }
            },
            ExprView::Not(a) => a.jumping(g, f, t),
            ExprView::And(a, b) => {
                let g1 = g.new_label();
                let l = g1.labels;
                let g2 = if f != 0 { g1 } else { g1.new_label() };
                let out = if f != 0 { f } else { g2.labels };
                let g3 = a.jumping(g2, l, out).emit(InstrView::Label(l));
                let g4 = b.jumping(g3, t, f);
                if f != 0 { g4 } else { g4.emit(InstrView::Label(out)) }
            },
            ExprView::Or(a, b) => {
                let g1 = g.new_label();
                let l = g1.labels;
                let g2 = if t != 0 { g1 } else { g1.new_label() };
                let out = if t != 0 { t } else { g2.labels };
                let g3 = a.jumping(g2, out, l).emit(InstrView::Label(l));
                let g4 = b.jumping(g3, t, f);
                if t != 0 { g4 } else { g4.emit(InstrView::Label(out)) }
            },
            _ => {
                let (g1, v) = self.plain(g);
                emit_jumps(g1, v, t, f)
            },
        }
    }

    /// The translation into a value: the state afterwards and the temporary
    /// that holds the value. A logical node is translated into jumps that
    /// end in storing true or false.
    pub open spec fn value(self, g: Gen) -> (Gen, int)
        decreases self, 2nat,
    {
        if self.logical() {
            let g1 = g.new_label();
            let f = g1.labels;
            let g2 = g1.new_label();
            let a = g2.labels;
            let g3 = g2.new_temp();
            let v = g3.temps;
            let g4 = self.jumping(g3, 0, f);
            let g5 = g4.emit(InstrView::Const(v, ConstantView::Bool(true))).emit(InstrView::Goto(a))
                .emit(InstrView::Label(f)).emit(InstrView::Const(v, ConstantView::Bool(false)))
                .emit(InstrView::Label(a));
            (g5, v)
        } else {
            self.plain(g)
        }
    }
}


impl ExprView {
    /// The most labels that the translation into jumps can take.
    pub open spec fn jump_labels(self) -> int {
        4 * self.size() - 2
    }

    /// The most temporaries that the translation into jumps can take.
    pub open spec fn jump_temps(self) -> int {
        if self.logical() {
            self.size() - 1
        } else {
            self.size() as int
        }
    }
}

/// Whether `labels` more labels and `temps` more temporaries can be handed
/// out after `g` without leaving the range of their numbers.
pub open spec fn room(g: Gen, labels: int, temps: int) -> bool {
    g.labels + labels <= u64::MAX && g.temps + temps <= u64::MAX
}

/// Whether `h` has handed out at most `labels` labels and `temps`
/// temporaries more than `g`.
pub open spec fn within(g: Gen, h: Gen, labels: int, temps: int) -> bool {
    h.labels <= g.labels + labels && h.temps <= g.temps + temps
}

/// Emits the jumps of `emit_jumps`.
pub fn jumps(em: &mut Emitter, v: u64, t: u64, f: u64)
    ensures
        final(em)@ == emit_jumps(old(em)@, v as int, t as int, f as int),
{
    if t != 0 && f != 0 {
        em.emit(Instr::If(v, t));
        em.emit(Instr::Goto(f));
    } else if t != 0 {
        em.emit(Instr::If(v, t));
    } else if f != 0 {
        em.emit(Instr::IfFalse(v, f));
    }
}

impl Expr {
    /// Whether the node is `!`, `&&` or `||`.
    pub fn is_logical(&self) -> (b: bool)
        ensures
            b == self@.logical(),
    {
        match self {
            Expr::Not(_) => true,
            Expr::And(_, _) => true,
            Expr::Or(_, _) => true,
            _ => false,
        }
    }

    /// Emits the code of a node that is not logical; gives the temporary
    /// that holds its value.
    fn plain(&self, em: &mut Emitter) -> (v: u64)
        requires
            !self@.logical(),
            room(old(em)@, 4 * self@.size() - 4, self@.size() as int),
        ensures
            (final(em)@, v as int) == self@.plain(old(em)@),
            within(old(em)@, final(em)@, 4 * self@.size() - 4, self@.size() as int),
        decreases self, 0nat,
    {
        match self {
            Expr::Constant(c) => {
                let v = em.new_temp();
                em.emit(Instr::Const(v, c.clone()));
                v
            },
            Expr::Id(id) => {
                let v = em.new_temp();
                em.emit(Instr::Load(v, id.offset));
                v
            },
            Expr::Arith(op, a, b) => {
                let x = a.value(em);
                let y = b.value(em);
                let v = em.new_temp();
                em.emit(Instr::Binary(v, *op, x, y));
                v
            },
            Expr::Rel(op, a, b) => {
                let x = a.value(em);
                let y = b.value(em);
                let v = em.new_temp();
                em.emit(Instr::Compare(v, *op, x, y));
                v
            },
            Expr::Unary(a) => {
                let x = a.value(em);
                let v = em.new_temp();
                em.emit(Instr::Neg(v, x));
                v
            },
            _ => 0,
        }
    }

    /// Emits the jumping code of the expression against the targets `t`
    /// and `f`.
    pub fn jumping(&self, em: &mut Emitter, t: u64, f: u64)
        requires
            room(old(em)@, self@.jump_labels(), self@.jump_temps()),
        ensures
            final(em)@ == self@.jumping(old(em)@, t as int, f as int),
            within(old(em)@, final(em)@, self@.jump_labels(), self@.jump_temps()),
        decreases self, 1nat,
    {
        proof {
            em.lemma_bounds();
        }
        match self {
            Expr::Constant(Constant::Bool(b)) => {
                if *b && t != 0 {
                    em.emit(Instr::Goto(t));
                } else if !*b && f != 0 {
                    em.emit(Instr::Goto(f));
                }
            },
            Expr::Not(a) => {
                a.jumping(em, f, t);
            },
            Expr::And(a, b) => {
                let l = em.new_label();
                let out = if f != 0 {
                    f
                } else {
                    em.new_label()
                };
                a.jumping(em, l, out);
                em.emit_label(l);
                b.jumping(em, t, f);
                if f == 0 {
                    em.emit_label(out);
                }
            },
            Expr::Or(a, b) => {
                let l = em.new_label();
                let out = if t != 0 {
                    t
                } else {
                    em.new_label()
                };
                a.jumping(em, out, l);
                em.emit_label(l);
                b.jumping(em, t, f);
                if t == 0 {
                    em.emit_label(out);
                }
            },
            _ => {
                let v = self.plain(em);
                jumps(em, v, t, f);
            },
        }
    }

    /// Emits the code that computes the expression; gives the temporary that
    /// holds its value.
    pub fn value(&self, em: &mut Emitter) -> (v: u64)
        requires
            room(old(em)@, 4 * self@.size() as int, self@.size() as int),
        ensures
            (final(em)@, v as int) == self@.value(old(em)@),
            within(old(em)@, final(em)@, 4 * self@.size() as int, self@.size() as int),
        decreases self, 2nat,
    {
        proof {
            em.lemma_bounds();
        }
        if self.is_logical() {
            let f = em.new_label();
            let a = em.new_label();
            let v = em.new_temp();
            self.jumping(em, 0, f);
            em.emit(Instr::Const(v, Constant::Bool(true)));
            em.emit(Instr::Goto(a));
            em.emit_label(f);
            em.emit(Instr::Const(v, Constant::Bool(false)));
            em.emit_label(a);
            v
        } else {
            self.plain(em)
        }
    }
}

} // verus!
