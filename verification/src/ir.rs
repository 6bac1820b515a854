//! The intermediate code: instructions, labels, temporaries, and the service
//! that hands out labels and collects what is emitted.

use vstd::prelude::*;
use crate::lexer::Real;

verus! {

/// An arithmetic operator.
#[derive(Clone, Copy, Debug, PartialEq, Eq, Structural)]
pub enum BinOp {
    Add,
    Sub,
    Mul,
    Div,
}

/// A comparison.
#[derive(Clone, Copy, Debug, PartialEq, Eq, Structural)]
pub enum RelOp {
    Eq,
    Ne,
    Lt,
    Le,
    Ge,
    Gt,
}

/// A literal constant, as a plain value.
pub enum ConstantView {
    Int(u32),
    Real(u32, Seq<u8>),
    Bool(bool),
}

/// A literal constant.
#[derive(Debug, PartialEq, Eq)]
pub enum Constant {
    Int(u32),
    Real(Real),
    Bool(bool),
}

impl View for Constant {
    type V = ConstantView;

    open spec fn view(&self) -> ConstantView {
        match self {
            Constant::Int(v) => ConstantView::Int(*v),
            Constant::Real(r) => ConstantView::Real(r.whole, r.frac@),
            Constant::Bool(b) => ConstantView::Bool(*b),
        }
    }
}

impl Clone for Constant {
    fn clone(&self) -> (c: Constant)
        ensures
            c@ == self@,
    {
        match self {
            Constant::Int(v) => Constant::Int(*v),
            Constant::Real(r) => Constant::Real(r.clone()),
            Constant::Bool(b) => Constant::Bool(*b),
        }
    }
}

/// One record of the output, as a plain value. Temporaries and labels are
/// numbers counted from one; variables are named by their storage offset.
pub enum InstrView {
    /// Defines a label at this point.
    Label(int),
    /// `temp = constant`
    Const(int, ConstantView),
    /// `temp = variable`
    Load(int, int),
    /// `variable = temp`
    Store(int, int),
    /// `temp = temp op temp`
    Binary(int, BinOp, int, int),
    /// `temp = temp rel temp`
    Compare(int, RelOp, int, int),
    /// `temp = -temp`
    Neg(int, int),
    /// Jumps to a label.
    Goto(int),
    /// Jumps to a label where the temporary holds true.
    If(int, int),
    /// Jumps to a label where the temporary holds false.
    IfFalse(int, int),
}

impl InstrView {
    /// The label that the record defines, if it defines one.
    pub open spec fn defines(self) -> Option<int> {
        match self {
            InstrView::Label(l) => Some(l),
            _ => None,
        }
    }

    /// The label that the record jumps to, if it jumps.
    pub open spec fn target(self) -> Option<int> {
        match self {
            InstrView::Goto(l) => Some(l),
            InstrView::If(_, l) => Some(l),
            InstrView::IfFalse(_, l) => Some(l),
            _ => None,
        }
    }
}

/// One record of the output: a label definition or an instruction.
#[derive(Debug, PartialEq, Eq)]
pub enum Instr {
    Label(u64),
    Const(u64, Constant),
    Load(u64, u64),
    Store(u64, u64),
    Binary(u64, BinOp, u64, u64),
    Compare(u64, RelOp, u64, u64),
    Neg(u64, u64),
    Goto(u64),
    If(u64, u64),
    IfFalse(u64, u64),
}

impl View for Instr {
    type V = InstrView;

    open spec fn view(&self) -> InstrView {
        match self {
            Instr::Label(l) => InstrView::Label(*l as int),
            Instr::Const(t, c) => InstrView::Const(*t as int, c@),
            Instr::Load(t, x) => InstrView::Load(*t as int, *x as int),
            Instr::Store(x, t) => InstrView::Store(*x as int, *t as int),
            Instr::Binary(t, op, a, b) => InstrView::Binary(*t as int, *op, *a as int, *b as int),
            Instr::Compare(t, op, a, b) => InstrView::Compare(*t as int, *op, *a as int, *b as int),
            Instr::Neg(t, a) => InstrView::Neg(*t as int, *a as int),
            Instr::Goto(l) => InstrView::Goto(*l as int),
            Instr::If(t, l) => InstrView::If(*t as int, *l as int),
            Instr::IfFalse(t, l) => InstrView::IfFalse(*t as int, *l as int),
        }
    }
}

/// The records of a list, each as a plain value.
pub open spec fn code_view(code: Seq<Instr>) -> Seq<InstrView> {
    Seq::new(code.len(), |i: int| code[i]@)
}

/// The state of an emission, as a plain value: how many labels and
/// temporaries were handed out, and the records emitted so far.
pub struct Gen {
    pub labels: int,
    pub temps: int,
    pub code: Seq<InstrView>,
}

impl Gen {
    /// The state before anything was emitted.
    pub open spec fn start() -> Gen {
        Gen { labels: 0, temps: 0, code: Seq::empty() }
    }

    /// The state after one more label was handed out; the label is the new
    /// count.
    pub open spec fn new_label(self) -> Gen {
        Gen { labels: self.labels + 1, ..self }
    }

    /// The state after one more temporary was handed out.
    pub open spec fn new_temp(self) -> Gen {
        Gen { temps: self.temps + 1, ..self }
    }

    /// The state after one more record was emitted.
    pub open spec fn emit(self, i: InstrView) -> Gen {
        Gen { code: self.code.push(i), ..self }
    }
}

/// Hands out labels and temporaries and collects the output. Label 0 is never
/// handed out: as a jump target it stands for "go on with the next record".
pub struct Emitter {
    labels: u64,
    temps: u64,
    code: Vec<Instr>,
}

impl View for Emitter {
    type V = Gen;

    closed spec fn view(&self) -> Gen {
        Gen { labels: self.labels as int, temps: self.temps as int, code: code_view(self.code@) }
    }
}

impl Emitter {
    /// What holds of every state.
    pub proof fn lemma_bounds(&self)
        ensures
            0 <= self@.labels <= u64::MAX,
            0 <= self@.temps <= u64::MAX,
    {
    }

    pub fn new() -> (em: Emitter)
        ensures
            em@ == Gen::start(),
    {
        let em = Emitter { labels: 0, temps: 0, code: Vec::new() };
        assert(em@.code =~= Seq::empty());
        em
    }

    /// A label that was never handed out before.
    pub fn new_label(&mut self) -> (l: u64)
        requires
            old(self)@.labels < u64::MAX,
        ensures
            final(self)@ == old(self)@.new_label(),
            l == final(self)@.labels,
            l != 0,
    {
        self.labels += 1;
        self.labels
    }

    /// A temporary that was never handed out before.
    pub fn new_temp(&mut self) -> (t: u64)
        requires
            old(self)@.temps < u64::MAX,
        ensures
            final(self)@ == old(self)@.new_temp(),
            t == final(self)@.temps,
    {
        self.temps += 1;
        self.temps
    }

    /// Appends one record to the output.
    pub fn emit(&mut self, i: Instr)
        ensures
            final(self)@ == old(self)@.emit(i@),
    {
        self.code.push(i);
        assert(self@.code =~= old(self)@.code.push(i@));
    }

    /// Defines the label `l` at the current end of the output.
    pub fn emit_label(&mut self, l: u64)
        ensures
            final(self)@ == old(self)@.emit(InstrView::Label(l as int)),
    {
        self.emit(Instr::Label(l));
    }

    /// The output collected so far.
    pub fn finish(self) -> (code: Vec<Instr>)
        ensures
            code_view(code@) == self@.code,
    {
        self.code
    }
}

} // verus!
