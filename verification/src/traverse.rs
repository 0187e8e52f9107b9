//! Taking statements apart into their frame and nested blocks, and putting them back together.

use vstd::prelude::*;

use crate::ir::{stmt_blocks, Block, Expr, ScopeTy, Stmt};

verus! {

/// `t` has the same variant as `s` and agrees with it on everything except nested blocks.
pub open spec fn same_frame(s: Stmt, t: Stmt) -> bool {
    match s {
        Stmt::Expr { target, expr: Expr::Function { kind, .. } } => {
            &&& t matches Stmt::Expr { target: t2, expr: Expr::Function { kind: k2, .. } }
            &&& t2 == target
            &&& k2 == kind
        },
        Stmt::Label { label, .. } => t matches Stmt::Label { label: l2, .. } && l2 == label,
        Stmt::Loop { .. } => t is Loop,
        Stmt::ForEach { kind, init, .. } => {
            &&& t matches Stmt::ForEach { kind: k2, init: i2, .. }
            &&& k2 == kind
            &&& i2 == init
        },
        Stmt::IfElse { cond, .. } => t matches Stmt::IfElse { cond: c2, .. } && c2 == cond,
        Stmt::Switch { discr, .. } => t matches Stmt::Switch { discr: d2, .. } && d2 == discr,
        Stmt::Try { .. } => t is Try,
        _ => t == s,
    }
}

pub proof fn lemma_same_frame_blocks(s: Stmt, t: Stmt)
    requires
        same_frame(s, t),
    ensures
        stmt_blocks(s).len() == stmt_blocks(t).len(),
        forall|j: int|
            0 <= j < stmt_blocks(s).len() ==> #[trigger] stmt_blocks(s)[j].0 == stmt_blocks(t)[j].0,
        same_frame(t, s),
{
}

pub proof fn lemma_same_frame_trans(a: Stmt, b: Stmt, c: Stmt)
    requires
        same_frame(a, b),
        same_frame(b, c),
    ensures
        same_frame(a, c),
        stmt_blocks(a).len() == stmt_blocks(c).len(),
{
}

pub fn empty_block() -> (b: Block)
    ensures
        b.0@.len() == 0,
{
    Block(Vec::new())
}

/// Splits a statement into its frame (nested blocks emptied) and its nested blocks, in order.
pub fn take_blocks(s: Stmt) -> (r: (Stmt, Vec<(ScopeTy, Block)>))
    ensures
        same_frame(s, r.0),
        r.1@ == stmt_blocks(s),
{
    let ghost s0 = s;
    let mut bs: Vec<(ScopeTy, Block)> = Vec::new();
    let frame = match s {
        Stmt::Expr { target, expr: Expr::Function { kind, body } } => {
            bs.push((ScopeTy::Function, body));
            Stmt::Expr { target, expr: Expr::Function { kind, body: empty_block() } }
        },
        Stmt::Label { label, body } => {
            bs.push((ScopeTy::Normal, body));
            Stmt::Label { label, body: empty_block() }
        },
        Stmt::Loop { body } => {
            bs.push((ScopeTy::Nonlinear, body));
            Stmt::Loop { body: empty_block() }
        },
        Stmt::ForEach { kind, init, body } => {
            bs.push((ScopeTy::Nonlinear, body));
            Stmt::ForEach { kind, init, body: empty_block() }
        },
        Stmt::IfElse { cond, cons, alt } => {
            bs.push((ScopeTy::Normal, cons));
            bs.push((ScopeTy::Normal, alt));
            Stmt::IfElse { cond, cons: empty_block(), alt: empty_block() }
        },
        Stmt::Switch { discr, body } => {
            bs.push((ScopeTy::Normal, body));
            Stmt::Switch { discr, body: empty_block() }
        },
        Stmt::Try { body, catch, finally } => {
            bs.push((ScopeTy::Normal, body));
            bs.push((ScopeTy::Normal, catch));
            bs.push((ScopeTy::Normal, *finally));
            Stmt::Try { body: empty_block(), catch: empty_block(), finally: Box::new(empty_block()) }
        },
        other => other,
    };
    assert(bs@ =~= stmt_blocks(s0));
    (frame, bs)
}

/// Puts blocks back into a frame, in order.
pub fn put_blocks(frame: Stmt, bs: Vec<Block>) -> (t: Stmt)
    requires
        bs@.len() == stmt_blocks(frame).len(),
    ensures
        same_frame(frame, t),
        stmt_blocks(t).len() == bs@.len(),
        forall|j: int| 0 <= j < bs@.len() ==> #[trigger] stmt_blocks(t)[j].1 == bs@[j],
{
    let mut bs = bs;
    let ghost b0 = bs@;
    match frame {
        Stmt::Expr { target, expr: Expr::Function { kind, body } } => {
            let b = bs.pop().unwrap();
            Stmt::Expr { target, expr: Expr::Function { kind, body: b } }
        },
        Stmt::Label { label, body } => {
            let b = bs.pop().unwrap();
            Stmt::Label { label, body: b }
        },
        Stmt::Loop { body } => {
            let b = bs.pop().unwrap();
            Stmt::Loop { body: b }
        },
        Stmt::ForEach { kind, init, body } => {
            let b = bs.pop().unwrap();
            Stmt::ForEach { kind, init, body: b }
        },
        Stmt::IfElse { cond, cons, alt } => {
            let a = bs.pop().unwrap();
            let c = bs.pop().unwrap();
            Stmt::IfElse { cond, cons: c, alt: a }
        },
        Stmt::Switch { discr, body } => {
            let b = bs.pop().unwrap();
            Stmt::Switch { discr, body: b }
        },
        Stmt::Try { body, catch, finally } => {
            let f = bs.pop().unwrap();
            let c = bs.pop().unwrap();
            let b = bs.pop().unwrap();
            Stmt::Try { body: b, catch: c, finally: Box::new(f) }
        },
        other => other,
    }
}

} // verus!
