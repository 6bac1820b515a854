//! What holds of the labels in every translation: each label handed out is
//! defined exactly once, and every jump goes to a label that was handed out.

use vstd::prelude::*;
use crate::expr::{emit_jumps, ExprView};
use crate::ir::{ConstantView, Gen, InstrView};
use crate::stmt::StmtView;

verus! {

/// How often `code` defines the label `l`.
pub open spec fn defs(code: Seq<InstrView>, l: int) -> nat
    decreases code.len(),
{
    if code.len() == 0 {
        0
    } else {
        defs(code.drop_last(), l) + if code.last().defines() == Some(l) {
            1nat
        } else {
            0nat
        }
    }
}

/// What a translation step from the state `g` to the state `h` keeps to,
/// where `a`, `b` and `c` are the labels it was given as targets:
/// what was emitted before stays; each label handed out in the step is
/// defined exactly once in the step, and no other label is defined in it;
/// every jump emitted in the step goes to one of the given labels or to a
/// label handed out in the step, and never to label 0.
pub open spec fn wired(g: Gen, h: Gen, a: int, b: int, c: int) -> bool {
    &&& g.labels <= h.labels
    &&& g.temps <= h.temps
    &&& g.code.len() <= h.code.len()
    &&& forall|i: int| 0 <= i < g.code.len() ==> #[trigger] h.code[i] == g.code[i]
    &&& forall|l: int| #[trigger]
        defs(h.code, l) == defs(g.code, l) + if g.labels < l <= h.labels {
            1nat
        } else {
            0nat
        }
    &&& forall|i: int|
        g.code.len() <= i < h.code.len() ==> match (#[trigger] h.code[i]).target() {
            Some(l) => l != 0 && (l == a || l == b || l == c || g.labels < l <= h.labels),
            None => true,
        }
}

/// One more record adds the definition it makes, and no other.
pub proof fn lemma_defs_push(code: Seq<InstrView>, i: InstrView)
    ensures
        forall|l: int| #[trigger]
            defs(code.push(i), l) == defs(code, l) + if i.defines() == Some(l) {
                1nat
            } else {
                0nat
            },
{
    assert(code.push(i).drop_last() =~= code);
}

/// The translation of an expression that is not logical keeps to `wired`.
pub proof fn lemma_plain_wired(e: ExprView, g: Gen)
    requires
        0 <= g.labels,
    ensures
        wired(g, e.plain(g).0, 0, 0, 0),
    decreases e, 0nat,
{
    match e {
        ExprView::Constant(c) => {
            let g1 = g.new_temp();
            lemma_defs_push(g1.code, InstrView::Const(g1.temps, c));
        },
        ExprView::Id(id) => {
            let g1 = g.new_temp();
            lemma_defs_push(g1.code, InstrView::Load(g1.temps, id.offset as int));
        },
        ExprView::Arith(op, a, b) => {
            lemma_value_wired(*a, g);
            let (g1, x) = a.value(g);
            lemma_value_wired(*b, g1);
            let (g2, y) = b.value(g1);
            let g3 = g2.new_temp();
            lemma_defs_push(g3.code, InstrView::Binary(g3.temps, op, x, y));
        },
        ExprView::Rel(op, a, b) => {
            lemma_value_wired(*a, g);
            let (g1, x) = a.value(g);
            lemma_value_wired(*b, g1);
            let (g2, y) = b.value(g1);
            let g3 = g2.new_temp();
            lemma_defs_push(g3.code, InstrView::Compare(g3.temps, op, x, y));
        },
        ExprView::Unary(a) => {
            lemma_value_wired(*a, g);
            let (g1, x) = a.value(g);
            let g2 = g1.new_temp();
            lemma_defs_push(g2.code, InstrView::Neg(g2.temps, x));
        },
        _ => {},
    }
}

/// The jumps that test a temporary keep to `wired`.
pub proof fn lemma_emit_jumps_wired(g: Gen, v: int, t: int, f: int)
    ensures
        wired(g, emit_jumps(g, v, t, f), t, f, 0),
{
    lemma_defs_push(g.code, InstrView::If(v, t));
    lemma_defs_push(g.code, InstrView::IfFalse(v, f));
    lemma_defs_push(g.code.push(InstrView::If(v, t)), InstrView::Goto(f));
}

/// The translation of an expression into jumps keeps to `wired`.
pub proof fn lemma_jumping_wired(e: ExprView, g: Gen, t: int, f: int)
    requires
        0 <= g.labels,
    ensures
        wired(g, e.jumping(g, t, f), t, f, 0),
    decreases e, 1nat,
{
    match e {
        ExprView::Constant(ConstantView::Bool(b)) => {
            lemma_defs_push(g.code, InstrView::Goto(t));
            lemma_defs_push(g.code, InstrView::Goto(f));
        },
        ExprView::Not(a) => {
            lemma_jumping_wired(*a, g, f, t);
        },
        ExprView::And(a, b) => {
            let g1 = g.new_label();
            let l = g1.labels;
            let g2 = if f != 0 { g1 } else { g1.new_label() };
            let out = if f != 0 { f } else { g2.labels };
            lemma_jumping_wired(*a, g2, l, out);
            let ga = a.jumping(g2, l, out);
            lemma_defs_push(ga.code, InstrView::Label(l));
            let g3 = ga.emit(InstrView::Label(l));
            lemma_jumping_wired(*b, g3, t, f);
            let g4 = b.jumping(g3, t, f);
            lemma_defs_push(g4.code, InstrView::Label(out));
        },
        ExprView::Or(a, b) => {
            let g1 = g.new_label();
            let l = g1.labels;
            let g2 = if t != 0 { g1 } else { g1.new_label() };
            let out = if t != 0 { t } else { g2.labels };
            lemma_jumping_wired(*a, g2, out, l);
            let ga = a.jumping(g2, out, l);
            lemma_defs_push(ga.code, InstrView::Label(l));
            let g3 = ga.emit(InstrView::Label(l));
            lemma_jumping_wired(*b, g3, t, f);
            let g4 = b.jumping(g3, t, f);
            lemma_defs_push(g4.code, InstrView::Label(out));
        },
        _ => {
            lemma_plain_wired(e, g);
            let (g1, v) = e.plain(g);
            lemma_emit_jumps_wired(g1, v, t, f);
        },
    }
}

/// The translation of an expression into a value keeps to `wired`.
pub proof fn lemma_value_wired(e: ExprView, g: Gen)
    requires
        0 <= g.labels,
    ensures
        wired(g, e.value(g).0, 0, 0, 0),
    decreases e, 2nat,
{
    if e.logical() {
        let g1 = g.new_label();
        let f = g1.labels;
        let g2 = g1.new_label();
        let a = g2.labels;
        let g3 = g2.new_temp();
        let v = g3.temps;
        lemma_jumping_wired(e, g3, 0, f);
        let g4 = e.jumping(g3, 0, f);
        let c1 = g4.emit(InstrView::Const(v, ConstantView::Bool(true)));
        let c2 = c1.emit(InstrView::Goto(a));
        let c3 = c2.emit(InstrView::Label(f));
        let c4 = c3.emit(InstrView::Const(v, ConstantView::Bool(false)));
        lemma_defs_push(g4.code, InstrView::Const(v, ConstantView::Bool(true)));
        lemma_defs_push(c1.code, InstrView::Goto(a));
        lemma_defs_push(c2.code, InstrView::Label(f));
        lemma_defs_push(c3.code, InstrView::Const(v, ConstantView::Bool(false)));
        lemma_defs_push(c4.code, InstrView::Label(a));
    } else {
        lemma_plain_wired(e, g);
    }
}

/// The translation of a statement keeps to `wired`, where every `break` in
/// it has a loop to leave.
pub proof fn lemma_stmt_wired(s: StmtView, g: Gen, begin: int, after: int, brk: int)
    requires
        0 <= g.labels,
        begin != 0,
        after != 0,
        s.breaks_ok(brk != 0),
    ensures
        wired(g, s.code(g, begin, after, brk), begin, after, brk),
    decreases s,
{
    match s {
        StmtView::Null => {},
        StmtView::Sequence(a, b) => {
            let g1 = g.new_label();
            let m = g1.labels;
            lemma_stmt_wired(*a, g1, begin, m, brk);
            let ga = a.code(g1, begin, m, brk);
            lemma_defs_push(ga.code, InstrView::Label(m));
            let g2 = ga.emit(InstrView::Label(m));
            lemma_stmt_wired(*b, g2, m, after, brk);
        },
        StmtView::If(c, a) => {
            let g1 = g.new_label();
            let l = g1.labels;
            lemma_jumping_wired(c, g1, 0, after);
            let gc = c.jumping(g1, 0, after);
            lemma_defs_push(gc.code, InstrView::Label(l));
            let g2 = gc.emit(InstrView::Label(l));
            lemma_stmt_wired(*a, g2, l, after, brk);
        },
        StmtView::Else(c, a, b) => {
            let g1 = g.new_label();
            let l1 = g1.labels;
            let g2 = g1.new_label();
            let l2 = g2.labels;
            lemma_jumping_wired(c, g2, l1, l2);
            let gc = c.jumping(g2, l1, l2);
            lemma_defs_push(gc.code, InstrView::Label(l1));
            let g3 = gc.emit(InstrView::Label(l1));
            lemma_stmt_wired(*a, g3, l1, after, brk);
            let ga = a.code(g3, l1, after, brk);
            lemma_defs_push(ga.code, InstrView::Goto(after));
            let gb = ga.emit(InstrView::Goto(after));
            lemma_defs_push(gb.code, InstrView::Label(l2));
            let g4 = gb.emit(InstrView::Label(l2));
            lemma_stmt_wired(*b, g4, l2, after, brk);
        },
        StmtView::While(c, a) => {
            let g1 = g.new_label();
            let l = g1.labels;
            lemma_jumping_wired(c, g1, l, after);
            let gc = c.jumping(g1, l, after);
            lemma_defs_push(gc.code, InstrView::Label(l));
            let g2 = gc.emit(InstrView::Label(l));
            lemma_stmt_wired(*a, g2, l, begin, after);
            let ga = a.code(g2, l, begin, after);
            lemma_defs_push(ga.code, InstrView::Goto(begin));
        },
        StmtView::Break => {
            lemma_defs_push(g.code, InstrView::Goto(brk));
        },
        StmtView::Assign(id, e) => {
            lemma_value_wired(e, g);
            let (g1, v) = e.value(g);
            lemma_defs_push(g1.code, InstrView::Store(id.offset as int, v));
        },
    }
}

/// Whether in `code` each of the labels 1 to `n` is defined exactly once, no
/// other label is defined, and every jump goes to one of the labels 1 to
/// `n`.
pub open spec fn tidy(code: Seq<InstrView>, n: int) -> bool {
    &&& forall|l: int| #[trigger]
        defs(code, l) == if 1 <= l <= n {
            1nat
        } else {
            0nat
        }
    &&& forall|i: int|
        0 <= i < code.len() ==> match (#[trigger] code[i]).target() {
            Some(l) => 1 <= l <= n,
            None => true,
        }
}

/// In the code of a whole program every label that was handed out is
/// defined exactly once, no other label is defined, and every jump goes to a
/// label that was handed out.
pub proof fn theorem_program_labels(s: StmtView)
    requires
        s.breaks_ok(false),
    ensures
        s.program().labels >= 2,
        tidy(s.program().code, s.program().labels),
{
    let g1 = Gen::start().new_label();
    let g2 = g1.new_label();
    let g3 = g2.emit(InstrView::Label(1));
    lemma_defs_push(g2.code, InstrView::Label(1));
    lemma_stmt_wired(s, g3, 1, 2, 0);
    let g4 = s.code(g3, 1, 2, 0);
    lemma_defs_push(g4.code, InstrView::Label(2));
    assert(forall|l: int| defs(g2.code, l) == 0);
}

/// `a && b` is short-circuit by construction. Against a real false target
/// `f`, the code is that of `a` against a fresh label `l` and `f`, then the
/// definition of `l`, then the code of `b`. So the only way into the code of
/// `b` is through `l`, and where `a` fails it jumps to `f`: every jump in
/// the code of `a` goes to `l`, to `f`, or to a label handed out and defined
/// within the code of `a`.
pub proof fn lemma_and_short_circuit(a: ExprView, b: ExprView, g: Gen, t: int, f: int)
    requires
        0 <= g.labels,
        f != 0,
    ensures
        ({
            let l = g.labels + 1;
            let ga = a.jumping(g.new_label(), l, f);
            &&& ExprView::And(Box::new(a), Box::new(b)).jumping(g, t, f) == b.jumping(
                ga.emit(InstrView::Label(l)),
                t,
                f,
            )
            &&& wired(g.new_label(), ga, l, f, 0)
            &&& wired(ga.emit(InstrView::Label(l)), b.jumping(ga.emit(InstrView::Label(l)), t, f), t, f, 0)
        }),
{
    let l = g.labels + 1;
    lemma_jumping_wired(a, g.new_label(), l, f);
    let ga = a.jumping(g.new_label(), l, f);
    lemma_jumping_wired(b, ga.emit(InstrView::Label(l)), t, f);
}

/// `a || b` is short-circuit by construction: against a real true target
/// `t`, the code is that of `a` against `t` and a fresh label `l`, then the
/// definition of `l`, then the code of `b`.
pub proof fn lemma_or_short_circuit(a: ExprView, b: ExprView, g: Gen, t: int, f: int)
    requires
        0 <= g.labels,
        t != 0,
    ensures
        ({
            let l = g.labels + 1;
            let ga = a.jumping(g.new_label(), t, l);
            &&& ExprView::Or(Box::new(a), Box::new(b)).jumping(g, t, f) == b.jumping(
                ga.emit(InstrView::Label(l)),
                t,
                f,
            )
            &&& wired(g.new_label(), ga, t, l, 0)
        }),
{
    let l = g.labels + 1;
    lemma_jumping_wired(a, g.new_label(), t, l);
}

/// `break` jumps to the `after` of the innermost loop around it: the code of
/// a loop does not depend on the loop around that loop, and a `break` that
/// is the body of a loop jumps to that loop's `after`.
pub proof fn lemma_break_innermost(
    c: ExprView,
    s: StmtView,
    g: Gen,
    begin: int,
    after: int,
    outer: int,
    other: int,
)
    ensures
        StmtView::While(c, Box::new(s)).code(g, begin, after, outer) == StmtView::While(
            c,
            Box::new(s),
        ).code(g, begin, after, other),
        StmtView::Break.code(g, begin, after, outer) == g.emit(InstrView::Goto(outer)),
        ({
            let l = g.labels + 1;
            let gc = c.jumping(g.new_label(), l, after).emit(InstrView::Label(l));
            StmtView::While(c, Box::new(StmtView::Break)).code(g, begin, after, outer) == gc.emit(
                InstrView::Goto(after),
            ).emit(InstrView::Goto(begin))
        }),
{
    reveal_with_fuel(StmtView::code, 2);
}

} // verus!
