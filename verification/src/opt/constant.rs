//! Constant propagation and precomputation.

use vstd::prelude::*;

use std::collections::HashMap;

use vstd::string::{StrSliceExecFns, StringExecFns};

use crate::collections::ZeroOneMany;
use crate::ir::{lemma_nested_block_decreases, stmt_blocks, BinaryOp, Block, Expr, Ref, Stmt, UnaryOp, SSA};
use crate::traverse::{put_blocks, same_frame, take_blocks};

verus! {

/// Operations on numbers that the caller's evaluator computes with JS semantics on
/// IEEE-754 binary64 values, passed and returned as bit patterns.
///
/// Comparisons return a non-zero value for true. `FromLen` converts its first operand, an
/// integer, to a number.
#[derive(Clone, Copy, PartialEq, Eq, Structural)]
pub enum NumOp {
    FromLen,
    Tilde,
    Eq,
    Lt,
    LtEq,
    Gt,
    GtEq,
    Shl,
    Shr,
    ShrZero,
    Add,
    Sub,
    Mul,
    Div,
    Mod,
    BitOr,
    BitXor,
    BitAnd,
    Exp,
}

/// An evaluator can be called on any operands and is a function of them.
pub open spec fn evaluator_ok<F: Fn(NumOp, u64, u64) -> u64>(f: F) -> bool {
    &&& forall|op: NumOp, a: u64, b: u64| #[trigger] call_requires(f, (op, a, b))
    &&& forall|op: NumOp, a: u64, b: u64, r1: u64, r2: u64|
        #![trigger call_ensures(f, (op, a, b), r1), call_ensures(f, (op, a, b), r2)]
        call_ensures(f, (op, a, b), r1) && call_ensures(f, (op, a, b), r2) ==> r1 == r2
}

/// What the evaluator returns for `op` on `a` and `b`.
pub open spec fn num<F: Fn(NumOp, u64, u64) -> u64>(f: F, op: NumOp, a: u64, b: u64) -> u64 {
    choose|r: u64| call_ensures(f, (op, a, b), r)
}

fn eval<F: Fn(NumOp, u64, u64) -> u64>(f: &F, op: NumOp, a: u64, b: u64) -> (r: u64)
    requires
        evaluator_ok(*f),
    ensures
        r == num(*f, op, a, b),
{
    let r = f(op, a, b);
    assert(call_ensures(*f, (op, a, b), r));
    r
}

pub const SIGN_BIT: u64 = 0x8000_0000_0000_0000;

/// Bit pattern of the canonical NaN.
pub const NAN_BITS: u64 = 0x7ff8_0000_0000_0000;

/// Whether a binary64 value is NaN.
pub open spec fn is_nan(x: u64) -> bool {
    (x & 0x7ff0_0000_0000_0000u64) == 0x7ff0_0000_0000_0000u64 && (x & 0x000f_ffff_ffff_ffffu64) != 0
}

/// Whether a binary64 value is truthy in JS: neither zero (of either sign) nor NaN.
pub open spec fn truthy(x: u64) -> bool {
    (x & 0x7fff_ffff_ffff_ffffu64) != 0 && !is_nan(x)
}

fn truthy_exec(x: u64) -> (r: bool)
    ensures
        r == truthy(x),
{
    (x & 0x7fff_ffff_ffff_ffffu64) != 0 && !((x & 0x7ff0_0000_0000_0000u64) == 0x7ff0_0000_0000_0000u64
        && (x & 0x000f_ffff_ffff_ffffu64) != 0)
}

/// Number of UTF-16 code units of a string.
pub open spec fn utf16_len(s: Seq<char>) -> nat
    decreases s.len(),
{
    if s.len() == 0 {
        0
    } else {
        utf16_len(s.drop_last()) + if (s.last() as u32) > 0xffff { 2nat } else { 1nat }
    }
}

/// Cached value of an SSA ref, with limited information.
pub enum Shallow {
    Bool(bool),
    Number(u64),
    String(String),
    Null,
    Undefined,
    This,
    Array,
    Object,
    RegExp,
    Function,
    CurrentFunction,
    Argument,
}

/// A cached value as the contracts see it: a string by its characters.
pub enum ShallowV {
    Bool(bool),
    Number(u64),
    String(Seq<char>),
    Null,
    Undefined,
    This,
    Array,
    Object,
    RegExp,
    Function,
    CurrentFunction,
    Argument,
}

impl View for Shallow {
    type V = ShallowV;

    open spec fn view(&self) -> ShallowV {
        match self {
            Shallow::Bool(b) => ShallowV::Bool(*b),
            Shallow::Number(x) => ShallowV::Number(*x),
            Shallow::String(s) => ShallowV::String(s@),
            Shallow::Null => ShallowV::Null,
            Shallow::Undefined => ShallowV::Undefined,
            Shallow::This => ShallowV::This,
            Shallow::Array => ShallowV::Array,
            Shallow::Object => ShallowV::Object,
            Shallow::RegExp => ShallowV::RegExp,
            Shallow::Function => ShallowV::Function,
            Shallow::CurrentFunction => ShallowV::CurrentFunction,
            Shallow::Argument => ShallowV::Argument,
        }
    }
}

pub open spec fn cache_view(m: Map<u64, Shallow>) -> Map<u64, ShallowV> {
    m.map_values(|v: Shallow| v@)
}

pub open spec fn lookup(m: Map<u64, ShallowV>, id: u64) -> Option<ShallowV> {
    if m.contains_key(id) {
        Some(m[id])
    } else {
        None
    }
}

/// The value cached for an expression, if the expression is one whose value is worth caching.
pub open spec fn shallow_of(e: Expr) -> Option<ShallowV> {
    match e {
        Expr::Bool { value } => Some(ShallowV::Bool(value)),
        Expr::Number { value } => Some(ShallowV::Number(value)),
        Expr::String { value } => Some(ShallowV::String(value@)),
        Expr::Null => Some(ShallowV::Null),
        Expr::Undefined => Some(ShallowV::Undefined),
        Expr::This => Some(ShallowV::This),
        Expr::Array { .. } => Some(ShallowV::Array),
        Expr::Object { .. } => Some(ShallowV::Object),
        Expr::RegExp { .. } => Some(ShallowV::RegExp),
        Expr::Function { .. } => Some(ShallowV::Function),
        Expr::CurrentFunction => Some(ShallowV::CurrentFunction),
        Expr::Argument { .. } => Some(ShallowV::Argument),
        _ => None,
    }
}

/// What an expression folds to: itself, or a constant.
pub enum Folded {
    Keep,
    Bool(bool),
    Number(u64),
    Str(Seq<char>),
    Undefined,
}

/// `e2` is the constant `r` (which is not `Keep`).
pub open spec fn folded_is(e2: Expr, r: Folded) -> bool {
    match r {
        Folded::Keep => false,
        Folded::Bool(b) => e2 == Expr::Bool { value: b },
        Folded::Number(x) => e2 == Expr::Number { value: x },
        Folded::Str(s) => e2 matches Expr::String { value } && value@ == s,
        Folded::Undefined => e2 == Expr::Undefined,
    }
}

/// `e2` is what `e` becomes when it folds to `r`.
pub open spec fn expr_is(e2: Expr, e: Expr, r: Folded) -> bool {
    if r is Keep {
        e2 == e
    } else {
        folded_is(e2, r)
    }
}

/// The value cached for the result of folding `e` to `r`.
pub open spec fn folded_shallow(e: Expr, r: Folded) -> Option<ShallowV> {
    match r {
        Folded::Keep => shallow_of(e),
        Folded::Bool(b) => Some(ShallowV::Bool(b)),
        Folded::Number(x) => Some(ShallowV::Number(x)),
        Folded::Str(s) => Some(ShallowV::String(s)),
        Folded::Undefined => Some(ShallowV::Undefined),
    }
}

pub open spec fn cp_unary<F: Fn(NumOp, u64, u64) -> u64>(op: UnaryOp, v: ShallowV, f: F) -> Folded {
    match (op, v) {
        (UnaryOp::Plus, ShallowV::Number(x)) => Folded::Number(x),
        (UnaryOp::Minus, ShallowV::Number(x)) => Folded::Number(x ^ SIGN_BIT),
        (UnaryOp::Not, ShallowV::Bool(b)) => Folded::Bool(!b),
        (UnaryOp::Not, ShallowV::Number(x)) => Folded::Bool(!truthy(x)),
        (UnaryOp::Not, ShallowV::String(s)) => Folded::Bool(s.len() == 0),
        (UnaryOp::Not, ShallowV::Null) => Folded::Bool(true),
        (UnaryOp::Not, ShallowV::Undefined) => Folded::Bool(true),
        (UnaryOp::Not, ShallowV::Array) => Folded::Bool(false),
        (UnaryOp::Not, ShallowV::Object) => Folded::Bool(false),
        (UnaryOp::Not, ShallowV::RegExp) => Folded::Bool(false),
        (UnaryOp::Not, ShallowV::Function) => Folded::Bool(false),
        (UnaryOp::Not, ShallowV::CurrentFunction) => Folded::Bool(false),
        (UnaryOp::Tilde, ShallowV::Number(x)) => Folded::Number(num(f, NumOp::Tilde, x, 0)),
        (UnaryOp::Typeof, ShallowV::Bool(_)) => Folded::Str("boolean"@),
        (UnaryOp::Typeof, ShallowV::Number(_)) => Folded::Str("number"@),
        (UnaryOp::Typeof, ShallowV::String(_)) => Folded::Str("string"@),
        (UnaryOp::Typeof, ShallowV::Null) => Folded::Str("object"@),
        (UnaryOp::Typeof, ShallowV::Undefined) => Folded::Str("undefined"@),
        (UnaryOp::Typeof, ShallowV::Array) => Folded::Str("object"@),
        (UnaryOp::Typeof, ShallowV::Object) => Folded::Str("object"@),
        (UnaryOp::Typeof, ShallowV::RegExp) => Folded::Str("object"@),
        (UnaryOp::Typeof, ShallowV::Function) => Folded::Str("function"@),
        (UnaryOp::Typeof, ShallowV::CurrentFunction) => Folded::Str("function"@),
        (UnaryOp::Void, _) => Folded::Undefined,
        _ => Folded::Keep,
    }
}

/// The evaluator's operation for a binary operator on two numbers, if it has one.
pub open spec fn num_binop(op: BinaryOp) -> Option<NumOp> {
    match op {
        BinaryOp::ShiftLeft => Some(NumOp::Shl),
        BinaryOp::ShiftRight => Some(NumOp::Shr),
        BinaryOp::ShiftRightZero => Some(NumOp::ShrZero),
        BinaryOp::Add => Some(NumOp::Add),
        BinaryOp::Sub => Some(NumOp::Sub),
        BinaryOp::Mul => Some(NumOp::Mul),
        BinaryOp::Div => Some(NumOp::Div),
        BinaryOp::Mod => Some(NumOp::Mod),
        BinaryOp::BitOr => Some(NumOp::BitOr),
        BinaryOp::BitXor => Some(NumOp::BitXor),
        BinaryOp::BitAnd => Some(NumOp::BitAnd),
        BinaryOp::Exp => Some(NumOp::Exp),
        _ => None,
    }
}

/// The evaluator's comparison for a relational operator, if it is one.
pub open spec fn num_cmpop(op: BinaryOp) -> Option<NumOp> {
    match op {
        BinaryOp::Lt => Some(NumOp::Lt),
        BinaryOp::LtEq => Some(NumOp::LtEq),
        BinaryOp::Gt => Some(NumOp::Gt),
        BinaryOp::GtEq => Some(NumOp::GtEq),
        _ => None,
    }
}

pub open spec fn is_eq_op(op: BinaryOp) -> bool {
    op == BinaryOp::EqEq || op == BinaryOp::StrictEq
}

pub open spec fn is_neq_op(op: BinaryOp) -> bool {
    op == BinaryOp::NotEq || op == BinaryOp::NotStrictEq
}

/// Folding of a binary operator whose operands are both cached; `same` says whether both
/// operands are the same ref. A value equals itself, except a number, which the evaluator
/// compares (NaN is not equal to itself).
pub open spec fn cp_binary<F: Fn(NumOp, u64, u64) -> u64>(
    op: BinaryOp,
    same: bool,
    a: ShallowV,
    b: ShallowV,
    f: F,
) -> Folded {
    if is_eq_op(op) && same && !(a is Number) {
        Folded::Bool(true)
    } else {
        match (a, b) {
            (ShallowV::Bool(x), ShallowV::Bool(y)) => if is_eq_op(op) {
                Folded::Bool(x == y)
            } else if is_neq_op(op) {
                Folded::Bool(x != y)
            } else {
                Folded::Keep
            },
            (ShallowV::String(x), ShallowV::String(y)) => if is_eq_op(op) {
                Folded::Bool(x == y)
            } else if is_neq_op(op) {
                Folded::Bool(x != y)
            } else if op == BinaryOp::Add {
                Folded::Str(x + y)
            } else {
                Folded::Keep
            },
            (ShallowV::Number(x), ShallowV::Number(y)) => if is_eq_op(op) {
                Folded::Bool(num(f, NumOp::Eq, x, y) != 0)
            } else if is_neq_op(op) {
                Folded::Bool(num(f, NumOp::Eq, x, y) == 0)
            } else if num_cmpop(op) is Some {
                Folded::Bool(num(f, num_cmpop(op)->0, x, y) != 0)
            } else if num_binop(op) is Some {
                Folded::Number(num(f, num_binop(op)->0, x, y))
            } else {
                Folded::Keep
            },
            _ => Folded::Keep,
        }
    }
}

/// The length of a string, as the evaluator's integer operand.
pub open spec fn len_operand(s: Seq<char>) -> u64 {
    if utf16_len(s) <= u64::MAX {
        utf16_len(s) as u64
    } else {
        u64::MAX
    }
}

/// What an expression folds to under the cache `m`.
pub open spec fn cp_expr<F: Fn(NumOp, u64, u64) -> u64>(e: Expr, m: Map<u64, ShallowV>, f: F) -> Folded {
    match e {
        Expr::ReadGlobal { source } => if source@ == "NaN"@ {
            Folded::Number(NAN_BITS)
        } else if source@ == "undefined"@ {
            Folded::Undefined
        } else {
            Folded::Keep
        },
        Expr::ReadMember { obj, prop } => match (lookup(m, obj.id), lookup(m, prop.id)) {
            (Some(ShallowV::String(s)), Some(ShallowV::String(p))) => if p == "length"@ {
                Folded::Number(num(f, NumOp::FromLen, len_operand(s), 0))
            } else {
                Folded::Keep
            },
            _ => Folded::Keep,
        },
        Expr::Unary { op, val } => match lookup(m, val.id) {
            Some(v) => cp_unary(op, v, f),
            None => Folded::Keep,
        },
        Expr::Binary { op, left, right } => match (lookup(m, left.id), lookup(m, right.id)) {
            (Some(a), Some(b)) => cp_binary(op, left.id == right.id, a, b, f),
            _ => Folded::Keep,
        },
        _ => Folded::Keep,
    }
}

/// The cache after `s` itself has been folded.
pub open spec fn fold_cache<F: Fn(NumOp, u64, u64) -> u64>(s: Stmt, m: Map<u64, ShallowV>, f: F) -> Map<u64, ShallowV> {
    match s {
        Stmt::Expr { target, expr } => match folded_shallow(expr, cp_expr(expr, m, f)) {
            Some(v) => m.insert(target.id, v),
            None => m,
        },
        _ => m,
    }
}

/// For an `if` whose condition is cached: `Some(true)` if the consequent is taken,
/// `Some(false)` if the alternative is.
pub open spec fn branch_of(s: Stmt, m: Map<u64, ShallowV>) -> Option<bool> {
    match s {
        Stmt::IfElse { cond, .. } => match lookup(m, cond.id) {
            Some(ShallowV::Bool(b)) => Some(b),
            Some(ShallowV::Array) => Some(true),
            Some(ShallowV::Object) => Some(true),
            Some(ShallowV::RegExp) => Some(true),
            Some(ShallowV::Function) => Some(true),
            Some(ShallowV::Null) => Some(false),
            Some(ShallowV::Undefined) => Some(false),
            Some(ShallowV::Number(x)) => Some(truthy(x)),
            Some(ShallowV::String(v)) => Some(v.len() != 0),
            _ => None,
        },
        _ => None,
    }
}

/// The statements of the branch an `if` is replaced by.
pub open spec fn branch_stmts(s: Stmt, c: bool) -> Seq<Stmt> {
    match s {
        Stmt::IfElse { cons, alt, .. } => if c {
            cons.0@
        } else {
            alt.0@
        },
        _ => Seq::empty(),
    }
}

// ---------------------------------------------------------------------------
// How the cache evolves along a traversal.
// ---------------------------------------------------------------------------

pub open spec fn cache_block<F: Fn(NumOp, u64, u64) -> u64>(b: Block, m: Map<u64, ShallowV>, f: F) -> Map<u64, ShallowV>
    decreases b, 1nat,
{
    cache_seq(b.0@, m, f)
}

pub open spec fn cache_seq<F: Fn(NumOp, u64, u64) -> u64>(ss: Seq<Stmt>, m: Map<u64, ShallowV>, f: F) -> Map<u64, ShallowV>
    decreases ss, 0nat,
{
    if ss.len() == 0 {
        m
    } else {
        cache_stmt(ss.last(), cache_seq(ss.drop_last(), m, f), f)
    }
}

pub open spec fn cache_stmt<F: Fn(NumOp, u64, u64) -> u64>(s: Stmt, m: Map<u64, ShallowV>, f: F) -> Map<u64, ShallowV>
    decreases s, 5nat,
{
    match branch_of(s, m) {
        Some(c) => match s {
            Stmt::IfElse { cons, alt, .. } => if c {
                cache_block(cons, m, f)
            } else {
                cache_block(alt, m, f)
            },
            _ => m,
        },
        None => cache_nested(s, stmt_blocks(s).len(), fold_cache(s, m, f), f),
    }
}

/// The cache after the first `k` blocks of `s` have been traversed.
pub open spec fn cache_nested<F: Fn(NumOp, u64, u64) -> u64>(s: Stmt, k: nat, m: Map<u64, ShallowV>, f: F) -> Map<u64, ShallowV>
    decreases s, k,
{
    if k == 0 || k > stmt_blocks(s).len() {
        m
    } else {
        cache_block(stmt_blocks(s)[k - 1].1, cache_nested(s, (k - 1) as nat, m, f), f)
    }
}

// ---------------------------------------------------------------------------
// The rewrite.
// ---------------------------------------------------------------------------

/// Number of statements `s` becomes: one, or for an `if` whose condition is known, what the
/// taken branch becomes.
pub open spec fn out_count<F: Fn(NumOp, u64, u64) -> u64>(s: Stmt, m: Map<u64, ShallowV>, f: F) -> nat
    decreases s, 5nat,
{
    match branch_of(s, m) {
        Some(c) => match s {
            Stmt::IfElse { cons, alt, .. } => if c {
                block_out_count(cons, m, f)
            } else {
                block_out_count(alt, m, f)
            },
            _ => 0,
        },
        None => 1,
    }
}

pub open spec fn block_out_count<F: Fn(NumOp, u64, u64) -> u64>(b: Block, m: Map<u64, ShallowV>, f: F) -> nat
    decreases b, 1nat,
{
    seq_out_count(b.0@, m, f)
}

pub open spec fn seq_out_count<F: Fn(NumOp, u64, u64) -> u64>(ss: Seq<Stmt>, m: Map<u64, ShallowV>, f: F) -> nat
    decreases ss, 0nat,
{
    if ss.len() == 0 {
        0
    } else {
        seq_out_count(ss.drop_last(), m, f) + out_count(ss.last(), cache_seq(ss.drop_last(), m, f), f)
    }
}

/// `b` is `a` with constants propagated, starting from the cache `m`.
pub open spec fn cp_block_rel<F: Fn(NumOp, u64, u64) -> u64>(a: Block, b: Block, m: Map<u64, ShallowV>, f: F) -> bool
    decreases a, 1nat,
{
    cp_seq_rel(a.0@, b.0@, m, f)
}

pub open spec fn cp_seq_rel<F: Fn(NumOp, u64, u64) -> u64>(
    ins: Seq<Stmt>,
    outs: Seq<Stmt>,
    m: Map<u64, ShallowV>,
    f: F,
) -> bool
    decreases ins, 0nat,
{
    if ins.len() == 0 {
        outs.len() == 0
    } else {
        let ml = cache_seq(ins.drop_last(), m, f);
        let n = out_count(ins.last(), ml, f);
        &&& outs.len() >= n
        &&& cp_seq_rel(ins.drop_last(), outs.take(outs.len() - n), m, f)
        &&& cp_stmt_rel(ins.last(), outs.skip(outs.len() - n), ml, f)
    }
}

/// `s`, met with the cache `m`, becomes `outs`.
pub open spec fn cp_stmt_rel<F: Fn(NumOp, u64, u64) -> u64>(
    s: Stmt,
    outs: Seq<Stmt>,
    m: Map<u64, ShallowV>,
    f: F,
) -> bool
    decreases s, 5nat,
{
    match branch_of(s, m) {
        Some(c) => match s {
            Stmt::IfElse { cons, alt, .. } => if c {
                cp_branch_rel(cons, outs, m, f)
            } else {
                cp_branch_rel(alt, outs, m, f)
            },
            _ => false,
        },
        None => {
            &&& outs.len() == 1
            &&& cp_frame_rel(s, outs[0], m, f)
            &&& cp_nested_rel(s, outs[0], stmt_blocks(s).len(), fold_cache(s, m, f), f)
        },
    }
}

/// `t` is `s` folded, nested blocks aside.
pub open spec fn cp_frame_rel<F: Fn(NumOp, u64, u64) -> u64>(s: Stmt, t: Stmt, m: Map<u64, ShallowV>, f: F) -> bool {
    match s {
        Stmt::Expr { target, expr } => if expr is Function {
            same_frame(s, t)
        } else {
            t matches Stmt::Expr { target: t2, expr: e2 } && t2 == target && expr_is(
                e2,
                expr,
                cp_expr(expr, m, f),
            )
        },
        _ => same_frame(s, t),
    }
}

/// The first `k` blocks of `t` are those of `s` with constants propagated, each starting from
/// the cache left by the blocks before it.
pub open spec fn cp_nested_rel<F: Fn(NumOp, u64, u64) -> u64>(
    s: Stmt,
    t: Stmt,
    k: nat,
    m: Map<u64, ShallowV>,
    f: F,
) -> bool
    decreases s, k,
{
    if k == 0 || k > stmt_blocks(s).len() {
        stmt_blocks(t).len() == stmt_blocks(s).len()
    } else {
        &&& cp_nested_rel(s, t, (k - 1) as nat, m, f)
        &&& cp_block_rel(stmt_blocks(s)[k - 1].1, stmt_blocks(t)[k - 1].1, cache_nested(s, (k - 1) as nat, m, f), f)
    }
}

/// The statements of a taken branch, spliced in place of their `if`, are folded like any
/// others.
pub open spec fn cp_branch_rel<F: Fn(NumOp, u64, u64) -> u64>(b: Block, outs: Seq<Stmt>, m: Map<u64, ShallowV>, f: F) -> bool
    decreases b, 1nat,
{
    cp_seq_rel(b.0@, outs, m, f)
}

/// What statement `s` is replaced by when folded with the cache `m`, before the blocks the
/// replacement holds are traversed.
pub open spec fn fold_out<F: Fn(NumOp, u64, u64) -> u64>(s: Stmt, outs: Seq<Stmt>, m: Map<u64, ShallowV>, f: F) -> bool {
    match branch_of(s, m) {
        Some(c) => outs == branch_stmts(s, c),
        None => {
            &&& outs.len() == 1
            &&& match s {
                Stmt::Expr { target, expr } => outs[0] matches Stmt::Expr { target: t2, expr: e2 }
                    && t2 == target && expr_is(e2, expr, cp_expr(expr, m, f)),
                _ => outs[0] == s,
            }
        },
    }
}

pub proof fn lemma_nested_same_blocks<F: Fn(NumOp, u64, u64) -> u64>(
    s: Stmt,
    s2: Stmt,
    t: Stmt,
    k: nat,
    m: Map<u64, ShallowV>,
    f: F,
)
    requires
        stmt_blocks(s) == stmt_blocks(s2),
    ensures
        cp_nested_rel(s, t, k, m, f) == cp_nested_rel(s2, t, k, m, f),
        cache_nested(s, k, m, f) == cache_nested(s2, k, m, f),
    decreases k,
{
    if k > 0 {
        lemma_nested_same_blocks(s, s2, t, (k - 1) as nat, m, f);
    }
}

pub proof fn lemma_nested_rel_from_blocks<F: Fn(NumOp, u64, u64) -> u64>(
    s: Stmt,
    t: Stmt,
    k: nat,
    m: Map<u64, ShallowV>,
    f: F,
)
    requires
        k <= stmt_blocks(s).len(),
        stmt_blocks(t).len() == stmt_blocks(s).len(),
        forall|j: int|
            0 <= j < k ==> cp_block_rel(
                #[trigger] stmt_blocks(s)[j].1,
                stmt_blocks(t)[j].1,
                cache_nested(s, j as nat, m, f),
                f,
            ),
    ensures
        cp_nested_rel(s, t, k, m, f),
    decreases k,
{
    if k > 0 {
        lemma_nested_rel_from_blocks(s, t, (k - 1) as nat, m, f);
        assert(cp_block_rel(stmt_blocks(s)[k - 1].1, stmt_blocks(t)[k - 1].1, cache_nested(s, (k - 1) as nat, m, f), f));
    }
}

pub proof fn lemma_cp_seq_len<F: Fn(NumOp, u64, u64) -> u64>(ins: Seq<Stmt>, outs: Seq<Stmt>, m: Map<u64, ShallowV>, f: F)
    requires
        cp_seq_rel(ins, outs, m, f),
    ensures
        outs.len() == seq_out_count(ins, m, f),
    decreases ins, 0nat,
{
    if ins.len() > 0 {
        let ml = cache_seq(ins.drop_last(), m, f);
        let n = out_count(ins.last(), ml, f);
        lemma_cp_seq_len(ins.drop_last(), outs.take(outs.len() - n), m, f);
        lemma_cp_stmt_len(ins.last(), outs.skip(outs.len() - n), ml, f);
    }
}

pub proof fn lemma_cp_block_len<F: Fn(NumOp, u64, u64) -> u64>(b: Block, outs: Seq<Stmt>, m: Map<u64, ShallowV>, f: F)
    requires
        cp_branch_rel(b, outs, m, f),
    ensures
        outs.len() == block_out_count(b, m, f),
    decreases b, 1nat,
{
    lemma_cp_seq_len(b.0@, outs, m, f);
}

pub proof fn lemma_cp_stmt_len<F: Fn(NumOp, u64, u64) -> u64>(s: Stmt, outs: Seq<Stmt>, m: Map<u64, ShallowV>, f: F)
    requires
        cp_stmt_rel(s, outs, m, f),
    ensures
        outs.len() == out_count(s, m, f),
    decreases s, 5nat,
{
    match branch_of(s, m) {
        Some(c) => match s {
            Stmt::IfElse { cons, alt, .. } => if c {
                lemma_cp_block_len(cons, outs, m, f);
            } else {
                lemma_cp_block_len(alt, outs, m, f);
            },
            _ => {},
        },
        None => {},
    }
}

/// Constant propagation / precompute.
///
/// An `if` whose condition is known is replaced by the branch taken, whose statements are
/// folded in the same pass.
/// Does not profit from DCE running first; may create opportunities for DCE.
pub struct ConstProp {
    pub shallow_values: HashMap<u64, Shallow>,
}

fn num_binop_exec(op: BinaryOp) -> (r: Option<NumOp>)
    ensures
        r == num_binop(op),
{
    match op {
        BinaryOp::ShiftLeft => Some(NumOp::Shl),
        BinaryOp::ShiftRight => Some(NumOp::Shr),
        BinaryOp::ShiftRightZero => Some(NumOp::ShrZero),
        BinaryOp::Add => Some(NumOp::Add),
        BinaryOp::Sub => Some(NumOp::Sub),
        BinaryOp::Mul => Some(NumOp::Mul),
        BinaryOp::Div => Some(NumOp::Div),
        BinaryOp::Mod => Some(NumOp::Mod),
        BinaryOp::BitOr => Some(NumOp::BitOr),
        BinaryOp::BitXor => Some(NumOp::BitXor),
        BinaryOp::BitAnd => Some(NumOp::BitAnd),
        BinaryOp::Exp => Some(NumOp::Exp),
        _ => None,
    }
}

fn num_cmpop_exec(op: BinaryOp) -> (r: Option<NumOp>)
    ensures
        r == num_cmpop(op),
{
    match op {
        BinaryOp::Lt => Some(NumOp::Lt),
        BinaryOp::LtEq => Some(NumOp::LtEq),
        BinaryOp::Gt => Some(NumOp::Gt),
        BinaryOp::GtEq => Some(NumOp::GtEq),
        _ => None,
    }
}

/// The UTF-16 length of a string, saturated to fit the evaluator's operand.
fn len_operand_exec(s: &String) -> (r: u64)
    ensures
        r == len_operand(s@),
{
    let n = s.as_str().unicode_len();
    let mut i: usize = 0;
    let mut c: u64 = 0;
    while i < n
        invariant
            i <= n,
            n == s@.len(),
            c == len_operand(s@.take(i as int)),
        decreases n - i,
    {
        let ch = s.as_str().get_char(i);
        let w: u64 = if (ch as u32) > 0xffff { 2 } else { 1 };
        assert(s@.take(i + 1).drop_last() =~= s@.take(i as int));
        assert(s@.take(i + 1).last() == ch);
        c = if c > u64::MAX - w { u64::MAX } else { c + w };
        i += 1;
    }
    assert(s@.take(n as int) =~= s@);
    c
}

fn typeof_string(name: &str) -> (e: Expr)
    ensures
        e matches Expr::String { value } && value@ == name@,
{
    Expr::String { value: String::from_str(name) }
}

impl ConstProp {
    /// The cache, with strings by their characters.
    pub open spec fn cache(&self) -> Map<u64, ShallowV> {
        cache_view(self.shallow_values@)
    }

    pub fn new() -> (r: Self)
        ensures
            r.cache() == Map::<u64, ShallowV>::empty(),
    {
        let r = ConstProp { shallow_values: HashMap::new() };
        assert(r.cache() =~= Map::<u64, ShallowV>::empty());
        r
    }

    fn get(&self, id: u64) -> (r: Option<&Shallow>)
        ensures
            match r {
                Some(v) => lookup(self.cache(), id) == Some(v@),
                None => lookup(self.cache(), id) is None,
            },
    {
        broadcast use vstd::std_specs::hash::group_hash_axioms;
        self.shallow_values.get(&id)
    }

    fn fold_unary<F: Fn(NumOp, u64, u64) -> u64>(op: UnaryOp, v: &Shallow, f: &F) -> (r: Option<Expr>)
        requires
            evaluator_ok(*f),
        ensures
            cp_unary(op, v@, *f) is Keep ==> r is None,
            !(cp_unary(op, v@, *f) is Keep) ==> r is Some && folded_is(r->0, cp_unary(op, v@, *f)),
    {
        match (op, v) {
            (UnaryOp::Plus, Shallow::Number(x)) => Some(Expr::Number { value: *x }),
            (UnaryOp::Minus, Shallow::Number(x)) => Some(Expr::Number { value: *x ^ SIGN_BIT }),
            (UnaryOp::Not, Shallow::Bool(b)) => Some(Expr::Bool { value: !*b }),
            (UnaryOp::Not, Shallow::Number(x)) => Some(Expr::Bool { value: !truthy_exec(*x) }),
            (UnaryOp::Not, Shallow::String(s)) => Some(Expr::Bool { value: s.as_str().is_empty() }),
            (UnaryOp::Not, Shallow::Null) | (UnaryOp::Not, Shallow::Undefined) => Some(
                Expr::Bool { value: true },
            ),
            (UnaryOp::Not, Shallow::Array) | (UnaryOp::Not, Shallow::Object) | (
                UnaryOp::Not,
                Shallow::RegExp,
            ) | (UnaryOp::Not, Shallow::Function) | (UnaryOp::Not, Shallow::CurrentFunction) => Some(
                Expr::Bool { value: false },
            ),
            (UnaryOp::Tilde, Shallow::Number(x)) => Some(
                Expr::Number { value: eval(f, NumOp::Tilde, *x, 0) },
            ),
            (UnaryOp::Typeof, Shallow::Bool(_)) => Some(typeof_string("boolean")),
            (UnaryOp::Typeof, Shallow::Number(_)) => Some(typeof_string("number")),
            (UnaryOp::Typeof, Shallow::String(_)) => Some(typeof_string("string")),
            (UnaryOp::Typeof, Shallow::Null) => Some(typeof_string("object")),
            (UnaryOp::Typeof, Shallow::Undefined) => Some(typeof_string("undefined")),
            (UnaryOp::Typeof, Shallow::Array) | (UnaryOp::Typeof, Shallow::Object) | (
                UnaryOp::Typeof,
                Shallow::RegExp,
            ) => Some(typeof_string("object")),
            (UnaryOp::Typeof, Shallow::Function) | (UnaryOp::Typeof, Shallow::CurrentFunction) => Some(
                typeof_string("function"),
            ),
            (UnaryOp::Void, _) => Some(Expr::Undefined),
            _ => None,
        }
    }

    fn fold_binary<F: Fn(NumOp, u64, u64) -> u64>(
        op: BinaryOp,
        same: bool,
        a: &Shallow,
        b: &Shallow,
        f: &F,
    ) -> (r: Option<Expr>)
        requires
            evaluator_ok(*f),
        ensures
            cp_binary(op, same, a@, b@, *f) is Keep ==> r is None,
            !(cp_binary(op, same, a@, b@, *f) is Keep) ==> r is Some && folded_is(
                r->0,
                cp_binary(op, same, a@, b@, *f),
            ),
    {
        let is_eq = op == BinaryOp::EqEq || op == BinaryOp::StrictEq;
        let is_neq = op == BinaryOp::NotEq || op == BinaryOp::NotStrictEq;
        let is_number = match a {
            Shallow::Number(_) => true,
            _ => false,
        };
        if is_eq && same && !is_number {
            return Some(Expr::Bool { value: true });
        }
        match (a, b) {
            (Shallow::Bool(x), Shallow::Bool(y)) => if is_eq {
                Some(Expr::Bool { value: *x == *y })
            } else if is_neq {
                Some(Expr::Bool { value: *x != *y })
            } else {
                None
            },
            (Shallow::String(x), Shallow::String(y)) => if is_eq {
                Some(Expr::Bool { value: *x == *y })
            } else if is_neq {
                Some(Expr::Bool { value: !(*x == *y) })
            } else if op == BinaryOp::Add {
                let mut v = x.clone();
                v.append(y.as_str());
                Some(Expr::String { value: v })
            } else {
                None
            },
            (Shallow::Number(x), Shallow::Number(y)) => if is_eq {
                Some(Expr::Bool { value: eval(f, NumOp::Eq, *x, *y) != 0 })
            } else if is_neq {
                Some(Expr::Bool { value: eval(f, NumOp::Eq, *x, *y) == 0 })
            } else {
                match num_cmpop_exec(op) {
                    Some(c) => Some(Expr::Bool { value: eval(f, c, *x, *y) != 0 }),
                    None => match num_binop_exec(op) {
                        Some(o) => Some(Expr::Number { value: eval(f, o, *x, *y) }),
                        None => None,
                    },
                }
            },
            _ => None,
        }
    }

    /// Folds an expression whose operands are cached.
    fn fold_expr<F: Fn(NumOp, u64, u64) -> u64>(&self, e: Expr, f: &F) -> (r: Expr)
        requires
            evaluator_ok(*f),
        ensures
            expr_is(r, e, cp_expr(e, self.cache(), *f)),
    {
        let ghost e0 = e;
        match e {
            Expr::ReadGlobal { source } => {
                if source == String::from_str("NaN") {
                    Expr::Number { value: NAN_BITS }
                } else if source == String::from_str("undefined") {
                    Expr::Undefined
                } else {
                    Expr::ReadGlobal { source }
                }
            },
            Expr::ReadMember { obj, prop } => {
                let folded: Option<u64> = match (self.get(obj.id), self.get(prop.id)) {
                    (Some(Shallow::String(s)), Some(Shallow::String(p))) => {
                        if *p == String::from_str("length") {
                            Some(eval(f, NumOp::FromLen, len_operand_exec(s), 0))
                        } else {
                            None
                        }
                    },
                    _ => None,
                };
                match folded {
                    Some(x) => Expr::Number { value: x },
                    None => Expr::ReadMember { obj, prop },
                }
            },
            Expr::Unary { op, val } => {
                let folded = match self.get(val.id) {
                    Some(v) => ConstProp::fold_unary(op, v, f),
                    None => None,
                };
                match folded {
                    Some(e2) => e2,
                    None => Expr::Unary { op, val },
                }
            },
            Expr::Binary { op, left, right } => {
                let folded = match (self.get(left.id), self.get(right.id)) {
                    (Some(a), Some(b)) => ConstProp::fold_binary(op, left.id == right.id, a, b, f),
                    _ => None,
                };
                match folded {
                    Some(e2) => e2,
                    None => Expr::Binary { op, left, right },
                }
            },
            other => other,
        }
    }

    fn maybe_shallow_cache_expr(&mut self, target: &Ref<SSA>, e: &Expr)
        ensures
            final(self).cache() == match shallow_of(*e) {
                Some(v) => old(self).cache().insert(target.id, v),
                None => old(self).cache(),
            },
    {
        broadcast use vstd::std_specs::hash::group_hash_axioms;
        let shallow = match e {
            Expr::Bool { value } => Some(Shallow::Bool(*value)),
            Expr::Number { value } => Some(Shallow::Number(*value)),
            Expr::String { value } => Some(Shallow::String(value.clone())),
            Expr::Null => Some(Shallow::Null),
            Expr::Undefined => Some(Shallow::Undefined),
            Expr::This => Some(Shallow::This),
            Expr::Array { .. } => Some(Shallow::Array),
            Expr::Object { .. } => Some(Shallow::Object),
            Expr::RegExp { .. } => Some(Shallow::RegExp),
            Expr::Function { .. } => Some(Shallow::Function),
            Expr::CurrentFunction => Some(Shallow::CurrentFunction),
            Expr::Argument { .. } => Some(Shallow::Argument),
            _ => None,
        };
        match shallow {
            Some(v) => {
                let ghost old_m = self.shallow_values@;
                let ghost vv = v@;
                self.shallow_values.insert(target.id, v);
                assert(self.cache() =~= cache_view(old_m).insert(target.id, vv));
            },
            None => {},
        }
    }

    fn decide(v: &Shallow) -> (r: Option<bool>)
        ensures
            forall|cond: Ref<SSA>, cons: Block, alt: Block, m: Map<u64, ShallowV>|
                lookup(m, cond.id) == Some(v@) ==> #[trigger] branch_of(
                    Stmt::IfElse { cond, cons, alt },
                    m,
                ) == r,
    {
        match v {
            Shallow::Bool(b) => Some(*b),
            Shallow::Array | Shallow::Object | Shallow::RegExp | Shallow::Function => Some(true),
            Shallow::Null | Shallow::Undefined => Some(false),
            Shallow::Number(x) => Some(truthy_exec(*x)),
            Shallow::String(s) => Some(!s.as_str().is_empty()),
            _ => None,
        }
    }

    /// Folds one statement with the values cached so far: precomputes an expression and
    /// caches its value, or replaces an `if` whose condition is known by the branch taken.
    pub fn fold<F: Fn(NumOp, u64, u64) -> u64>(&mut self, stmt: Stmt, f: &F) -> (r: ZeroOneMany<Stmt>)
        requires
            evaluator_ok(*f),
        ensures
            fold_out(stmt, r.items(), old(self).cache(), *f),
            final(self).cache() == fold_cache(stmt, old(self).cache(), *f),
    {
        let ghost s0 = stmt;
        match stmt {
            Stmt::Expr { target, expr } => {
                let ghost e0 = expr;
                let e2 = self.fold_expr(expr, f);
                self.maybe_shallow_cache_expr(&target, &e2);
                assert(shallow_of(e2) == folded_shallow(e0, cp_expr(e0, old(self).cache(), *f)));
                ZeroOneMany::One(Stmt::Expr { target, expr: e2 })
            },
            Stmt::IfElse { cond, cons, alt } => {
                let d = match self.get(cond.id) {
                    Some(v) => ConstProp::decide(v),
                    None => None,
                };
                assert(d == branch_of(s0, self.cache()));
                match d {
                    Some(true) => {
                        let Block(v) = cons;
                        ZeroOneMany::Many(v)
                    },
                    Some(false) => {
                        let Block(v) = alt;
                        ZeroOneMany::Many(v)
                    },
                    None => ZeroOneMany::One(Stmt::IfElse { cond, cons, alt }),
                }
            },
            other => ZeroOneMany::One(other),
        }
    }
}

impl ConstProp {
    /// Propagates constants into the blocks a statement holds, in order.
    #[verifier::spinoff_prover]
    #[verifier::rlimit(40)]
    fn fold_nested<F: Fn(NumOp, u64, u64) -> u64>(&mut self, t0: Stmt, f: &F, Ghost(orig): Ghost<Block>) -> (t: Stmt)
        requires
            evaluator_ok(*f),
            forall|j: int|
                0 <= j < stmt_blocks(t0).len() ==> decreases_to!(orig => #[trigger] stmt_blocks(t0)[j].1),
        ensures
            same_frame(t0, t),
            cp_nested_rel(t0, t, stmt_blocks(t0).len(), old(self).cache(), *f),
            final(self).cache() == cache_nested(t0, stmt_blocks(t0).len(), old(self).cache(), *f),
        decreases orig, 0nat,
    {
        let ghost m_in = self.cache();
        let ghost bs0 = stmt_blocks(t0);
        let (frame, bs) = take_blocks(t0);
        let mut done: Vec<Block> = Vec::new();
        for pair in jt: bs.into_iter()
            invariant
                jt.seq() == bs0,
                bs0 == stmt_blocks(t0),
                evaluator_ok(*f),
                forall|j: int| 0 <= j < bs0.len() ==> decreases_to!(orig => #[trigger] bs0[j].1),
                done@.len() == jt.index(),
                self.cache() == cache_nested(t0, jt.index() as nat, m_in, *f),
                forall|j: int|
                    0 <= j < jt.index() ==> cp_block_rel(
                        #[trigger] bs0[j].1,
                        done@[j],
                        cache_nested(t0, j as nat, m_in, *f),
                        *f,
                    ),
        {
            let ghost j = jt.index() as int;
            assert(pair == bs0[j]);
            let (_, b) = pair;
            assert(decreases_to!(orig => b));
            let nb = self.fold_block(b, f);
            done.push(nb);
        }
        let t = put_blocks(frame, done);
        proof {
            crate::traverse::lemma_same_frame_trans(t0, frame, t);
            lemma_nested_rel_from_blocks(t0, t, stmt_blocks(t0).len(), m_in, *f);
        }
        t
    }

    /// Propagates constants through a block and, recursively, the blocks it holds.
    #[verifier::loop_isolation(false)]
    fn fold_block<F: Fn(NumOp, u64, u64) -> u64>(&mut self, block: Block, f: &F) -> (r: Block)
        requires
            evaluator_ok(*f),
        ensures
            cp_block_rel(block, r, old(self).cache(), *f),
            final(self).cache() == cache_block(block, old(self).cache(), *f),
        decreases block, 1nat,
    {
        let ghost orig = block;
        let ghost m_start = self.cache();
        let Block(children) = block;
        let ghost items = children@;
        let mut out: Vec<Stmt> = Vec::new();
        for stmt in it: children.into_iter()
            invariant
                it.seq() == items,
                items == orig.0@,
                evaluator_ok(*f),
                self.cache() == cache_seq(items.take(it.index() as int), m_start, *f),
                cp_seq_rel(items.take(it.index() as int), out@, m_start, *f),
        {
            let ghost i = it.index() as int;
            let ghost m0 = self.cache();
            assert(items.take(i + 1).drop_last() =~= items.take(i));
            assert(stmt == items[i]);
            let ghost s0 = stmt;
            let branch: Option<bool> = match &stmt {
                Stmt::IfElse { cond, cons, alt } => {
                    let ghost sg = Stmt::IfElse { cond: *cond, cons: *cons, alt: *alt };
                    assert(sg == s0);
                    let d = match self.get(cond.id) {
                        Some(v) => {
                            let d = ConstProp::decide(v);
                            assert(branch_of(sg, m0) == d);
                            d
                        },
                        None => None,
                    };
                    assert(d == branch_of(s0, m0));
                    d
                },
                _ => {
                    assert(branch_of(s0, m0) is None);
                    None
                },
            };
            proof {
                assert forall|j: int| 0 <= j < stmt_blocks(s0).len() implies decreases_to!(
                    orig => #[trigger] stmt_blocks(s0)[j].1) by {
                    lemma_nested_block_decreases(orig, i, j);
                }
            }
            let mut done: Vec<Stmt> = Vec::new();
            match branch {
                Some(c) => {
                    match stmt {
                        Stmt::IfElse { cond, cons, alt } => {
                            let b = if c {
                                cons
                            } else {
                                alt
                            };
                            assert(b == stmt_blocks(s0)[if c { 0int } else { 1int }].1);
                            let nb = self.fold_block(b, f);
                            let Block(v) = nb;
                            done = v;
                        },
                        _ => {},
                    }
                    assert(cp_stmt_rel(s0, done@, m0, *f));
                    assert(self.cache() == cache_stmt(s0, m0, *f));
                },
                None => {
                    let mut outs = self.fold(stmt, f).into_vec();
                    let ghost m1 = self.cache();
                    let ghost t0g = outs@[0];
                    let t0 = outs.pop().unwrap();
                    assert(t0 == t0g);
                    assert(stmt_blocks(t0) == stmt_blocks(s0));
                    let t = self.fold_nested(t0, f, Ghost(orig));
                    done.push(t);
                    proof {
                        lemma_nested_same_blocks(t0, s0, t, stmt_blocks(s0).len(), m1, *f);
                        assert(cp_frame_rel(s0, t, m0, *f));
                        assert(done@[0] == t);
                    }
                    assert(cp_stmt_rel(s0, done@, m0, *f));
                    assert(self.cache() == cache_stmt(s0, m0, *f));
                },
            }
            proof {
                lemma_cp_stmt_len(s0, done@, m0, *f);
                assert(cache_seq(items.take(i + 1), m_start, *f) == cache_stmt(s0, m0, *f));
            }
            let ghost out0 = out@;
            let ghost dn = done@;
            out.append(&mut done);
            proof {
                let ins = items.take(i + 1);
                assert(ins.drop_last() =~= items.take(i));
                assert(ins.last() == s0);
                assert(out@.take(out@.len() - dn.len()) =~= out0);
                assert(out@.skip(out@.len() - dn.len()) =~= dn);
            }
        }
        assert(items.take(items.len() as int) =~= items);
        Block(out)
    }

    /// Runs constant propagation over a whole program, starting with nothing cached.
    pub fn run<F: Fn(NumOp, u64, u64) -> u64>(block: Block, f: &F) -> (r: Block)
        requires
            evaluator_ok(*f),
        ensures
            cp_block_rel(block, r, Map::empty(), *f),
    {
        let mut cp = ConstProp::new();
        cp.fold_block(block, f)
    }
}


/// Folding a relational operator on two known numbers gives the evaluator's answer for that
/// very comparison: `x < y` folds to whether the evaluator finds `x` less than `y`, and
/// likewise for `<=`, `>` and `>=`.
pub proof fn law_cp_relational_folds_to_its_comparison<F: Fn(NumOp, u64, u64) -> u64>(
    op: BinaryOp,
    left: Ref<SSA>,
    right: Ref<SSA>,
    m: Map<u64, ShallowV>,
    f: F,
    x: u64,
    y: u64,
)
    requires
        lookup(m, left.id) == Some(ShallowV::Number(x)),
        lookup(m, right.id) == Some(ShallowV::Number(y)),
    ensures
        op == BinaryOp::Lt ==> cp_expr((Expr::Binary { op, left, right }), m, f) == Folded::Bool(
            num(f, NumOp::Lt, x, y) != 0,
        ),
        op == BinaryOp::LtEq ==> cp_expr((Expr::Binary { op, left, right }), m, f) == Folded::Bool(
            num(f, NumOp::LtEq, x, y) != 0,
        ),
        op == BinaryOp::Gt ==> cp_expr((Expr::Binary { op, left, right }), m, f) == Folded::Bool(
            num(f, NumOp::Gt, x, y) != 0,
        ),
        op == BinaryOp::GtEq ==> cp_expr((Expr::Binary { op, left, right }), m, f) == Folded::Bool(
            num(f, NumOp::GtEq, x, y) != 0,
        ),
{
}

} // verus!
