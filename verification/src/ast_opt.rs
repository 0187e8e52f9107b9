//! Passes on the syntax tree that turn the output of raising back into idiomatic code.
//!
//! Each pass folds the whole tree bottom-up: the children of a node are folded first, then the
//! node itself is rewritten. The relations below say, node by node, what a fold gives back.

use vstd::prelude::*;

use crate::ast::{AssignOp, AssignTarget, ForHead, ForInit, JsExpr, JsFunction, JsStmt, VarDecl};

verus! {

/// The rewrite a fold applies at its nodes.
#[derive(PartialEq, Eq, Structural, Clone, Copy)]
pub enum AstPass {
    /// An `if` whose branches both assign to one name becomes an assignment of a conditional.
    If2Cond,
    /// A `for (;;)` whose body starts with `if (c); else break;` takes `c` as its test.
    ResugarLoops,
    /// Runs of adjacent declarations of one kind in a statement list become one declaration.
    MergeVars,
}

/// `name = value;`
pub open spec fn assign_stmt(name: String, value: JsExpr) -> JsStmt {
    JsStmt::Expr(JsExpr::Assign { op: AssignOp::Assign, left: AssignTarget::Name(name), right: Box::new(value) })
}

/// A plain assignment to a name, as a statement.
pub open spec fn is_assign_stmt(s: JsStmt) -> bool {
    s matches JsStmt::Expr(JsExpr::Assign { op: AssignOp::Assign, left: AssignTarget::Name(_), .. })
}

pub open spec fn assigned_name(s: JsStmt) -> Seq<char> {
    match s {
        JsStmt::Expr(JsExpr::Assign { left: AssignTarget::Name(n), .. }) => n@,
        _ => Seq::empty(),
    }
}

/// Two statements that assign to the same name.
pub open spec fn same_assignments(c: JsStmt, a: JsStmt) -> bool {
    is_assign_stmt(c) && is_assign_stmt(a) && assigned_name(c) == assigned_name(a)
}

/// `if (test); else break;`
pub open spec fn loop_guard(test: JsExpr) -> JsStmt {
    JsStmt::If { test, cons: Box::new(JsStmt::Empty), alt: Some(Box::new(JsStmt::Break(None))) }
}

/// A block that starts with a loop guard.
pub open spec fn starts_with_guard(b: JsStmt) -> bool {
    match b {
        JsStmt::Block(v) => v@.len() > 0 && is_guard(v@[0]),
        _ => false,
    }
}

pub open spec fn is_guard(s: JsStmt) -> bool {
    match s {
        JsStmt::If { cons, alt: Some(a), .. } => *cons == JsStmt::Empty && *a == JsStmt::Break(None),
        _ => false,
    }
}

pub open spec fn opt_expr_rel(p: AstPass, e: Option<JsExpr>, r: Option<JsExpr>) -> bool
    decreases e, 1nat,
{
    match e {
        None => r is None,
        Some(x) => r matches Some(y) && expr_rel(p, x, y),
    }
}

pub open spec fn exprs_rel(p: AstPass, v: Seq<JsExpr>, w: Seq<JsExpr>) -> bool
    decreases v, 1nat,
{
    v.len() == w.len() && forall|i: int| 0 <= i < v.len() ==> expr_rel(p, #[trigger] v[i], w[i])
}

pub open spec fn opt_exprs_rel(p: AstPass, v: Seq<Option<JsExpr>>, w: Seq<Option<JsExpr>>) -> bool
    decreases v, 1nat,
{
    v.len() == w.len() && forall|i: int| 0 <= i < v.len() ==> opt_expr_rel(p, #[trigger] v[i], w[i])
}

pub open spec fn props_rel(p: AstPass, v: Seq<(JsExpr, JsExpr)>, w: Seq<(JsExpr, JsExpr)>) -> bool
    decreases v, 1nat,
{
    v.len() == w.len() && forall|i: int|
        0 <= i < v.len() ==> expr_rel(p, #[trigger] v[i].0, w[i].0) && expr_rel(p, v[i].1, w[i].1)
}

pub open spec fn decls_rel(p: AstPass, v: Seq<(String, Option<JsExpr>)>, w: Seq<(String, Option<JsExpr>)>) -> bool
    decreases v, 1nat,
{
    v.len() == w.len() && forall|i: int|
        0 <= i < v.len() ==> w[i].0 == v[i].0 && opt_expr_rel(p, #[trigger] v[i].1, w[i].1)
}

pub open spec fn var_rel(p: AstPass, d: VarDecl, r: VarDecl) -> bool
    decreases d, 1nat,
{
    r.kind == d.kind && decls_rel(p, d.decls@, r.decls@)
}

pub open spec fn function_rel(p: AstPass, f: JsFunction, r: JsFunction) -> bool
    decreases f, 1nat,
{
    r.params == f.params && r.is_async == f.is_async && r.is_generator == f.is_generator && stmts_rel(
        p,
        f.body@,
        r.body@,
    )
}

pub open spec fn target_rel(p: AstPass, t: AssignTarget, r: AssignTarget) -> bool
    decreases t, 1nat,
{
    match t {
        AssignTarget::Name(n) => r == AssignTarget::Name(n),
        AssignTarget::Member { obj, prop } => r matches AssignTarget::Member { obj: o2, prop: p2 } && expr_rel(
            p,
            *obj,
            *o2,
        ) && expr_rel(p, *prop, *p2),
    }
}

/// What folding an expression gives: the same expression with its parts folded.
pub open spec fn expr_rel(p: AstPass, e: JsExpr, r: JsExpr) -> bool
    decreases e, 1nat,
{
    match e {
        JsExpr::Array(v) => r matches JsExpr::Array(w) && opt_exprs_rel(p, v@, w@),
        JsExpr::Object(v) => r matches JsExpr::Object(w) && props_rel(p, v@, w@),
        JsExpr::Function { name, function } => r matches JsExpr::Function { name: n2, function: f2 } && n2 == name
            && function_rel(p, function, f2),
        JsExpr::Arrow { params, body, is_async } => r matches JsExpr::Arrow { params: p2, body: b2, is_async: a2 }
            && p2 == params && a2 == is_async && stmts_rel(p, body@, b2@),
        JsExpr::Unary { op, arg } => r matches JsExpr::Unary { op: o2, arg: a2 } && o2 == op && expr_rel(p, *arg, *a2),
        JsExpr::Binary { op, left, right } => r matches JsExpr::Binary { op: o2, left: l2, right: r2 } && o2 == op
            && expr_rel(p, *left, *l2) && expr_rel(p, *right, *r2),
        JsExpr::Assign { op, left, right } => r matches JsExpr::Assign { op: o2, left: l2, right: r2 } && o2 == op
            && target_rel(p, left, l2) && expr_rel(p, *right, *r2),
        JsExpr::Member { obj, prop } => r matches JsExpr::Member { obj: o2, prop: p2 } && expr_rel(p, *obj, *o2)
            && expr_rel(p, *prop, *p2),
        JsExpr::Cond { test, cons, alt } => r matches JsExpr::Cond { test: t2, cons: c2, alt: a2 } && expr_rel(
            p,
            *test,
            *t2,
        ) && expr_rel(p, *cons, *c2) && expr_rel(p, *alt, *a2),
        JsExpr::Call { callee, args } => r matches JsExpr::Call { callee: c2, args: a2 } && expr_rel(p, *callee, *c2)
            && exprs_rel(p, args@, a2@),
        JsExpr::New { callee, args } => r matches JsExpr::New { callee: c2, args: a2 } && expr_rel(p, *callee, *c2)
            && exprs_rel(p, args@, a2@),
        JsExpr::Sequence(v) => r matches JsExpr::Sequence(w) && exprs_rel(p, v@, w@),
        _ => r == e,
    }
}

pub open spec fn cases_rel(p: AstPass, v: Seq<(Option<JsExpr>, Vec<JsStmt>)>, w: Seq<(Option<JsExpr>, Vec<JsStmt>)>) -> bool
    decreases v, 1nat,
{
    v.len() == w.len() && forall|i: int|
        0 <= i < v.len() ==> opt_expr_rel(p, #[trigger] v[i].0, w[i].0) && stmts_rel(p, v[i].1@, w[i].1@)
}

pub open spec fn opt_block_rel(p: AstPass, b: Option<Vec<JsStmt>>, r: Option<Vec<JsStmt>>) -> bool
    decreases b, 1nat,
{
    match b {
        None => r is None,
        Some(v) => r matches Some(w) && stmts_rel(p, v@, w@),
    }
}

pub open spec fn handler_rel(
    p: AstPass,
    h: Option<(Option<String>, Vec<JsStmt>)>,
    r: Option<(Option<String>, Vec<JsStmt>)>,
) -> bool
    decreases h, 1nat,
{
    match h {
        None => r is None,
        Some(x) => r matches Some(y) && y.0 == x.0 && stmts_rel(p, x.1@, y.1@),
    }
}

pub open spec fn for_init_rel(p: AstPass, i: Option<ForInit>, r: Option<ForInit>) -> bool
    decreases i, 1nat,
{
    match i {
        None => r is None,
        Some(ForInit::Var(d)) => r matches Some(ForInit::Var(d2)) && var_rel(p, d, d2),
        Some(ForInit::Expr(e)) => r matches Some(ForInit::Expr(e2)) && expr_rel(p, e, e2),
    }
}

pub open spec fn for_head_rel(p: AstPass, h: ForHead, r: ForHead) -> bool
    decreases h, 1nat,
{
    match h {
        ForHead::Var(d) => r matches ForHead::Var(d2) && var_rel(p, d, d2),
        ForHead::Name(n) => r == ForHead::Name(n),
    }
}

/// What folding a statement gives: its parts folded, then the pass's rewrite of the statement.
pub open spec fn stmt_rel(p: AstPass, s: JsStmt, r: JsStmt) -> bool
    decreases s, 1nat,
{
    match s {
        JsStmt::Block(v) => r matches JsStmt::Block(w) && stmts_rel(p, v@, w@),
        JsStmt::With { obj, body } => r matches JsStmt::With { obj: o2, body: b2 } && expr_rel(p, obj, o2)
            && stmt_rel(p, *body, *b2),
        JsStmt::Return(e) => r matches JsStmt::Return(e2) && opt_expr_rel(p, e, e2),
        JsStmt::Labeled { label, body } => r matches JsStmt::Labeled { label: l2, body: b2 } && l2 == label
            && stmt_rel(p, *body, *b2),
        JsStmt::If { test, cons, alt } => match alt {
            Some(a) => if p == AstPass::If2Cond {
                ||| r matches JsStmt::If { test: t2, cons: c2, alt: Some(a2) } && expr_rel(p, test, t2) && stmt_rel(
                    p,
                    *cons,
                    *c2,
                ) && stmt_rel(p, *a, *a2) && !same_assignments(*c2, *a2)
                ||| r matches JsStmt::Expr(
                    JsExpr::Assign { op: AssignOp::Assign, left: AssignTarget::Name(x), right },
                ) && (match *right {
                    JsExpr::Cond { test: t2, cons: v1, alt: v2 } => expr_rel(p, test, *t2) && stmt_rel(
                        p,
                        *cons,
                        assign_stmt(x, *v1),
                    ) && exists|y: String| y@ == x@ && stmt_rel(p, *a, #[trigger] assign_stmt(y, *v2)),
                    _ => false,
                })
            } else {
                r matches JsStmt::If { test: t2, cons: c2, alt: Some(a2) } && expr_rel(p, test, t2) && stmt_rel(
                    p,
                    *cons,
                    *c2,
                ) && stmt_rel(p, *a, *a2)
            },
            None => r matches JsStmt::If { test: t2, cons: c2, alt: None } && expr_rel(p, test, t2) && stmt_rel(
                p,
                *cons,
                *c2,
            ),
        },
        JsStmt::Switch { discriminant, cases } => r matches JsStmt::Switch { discriminant: d2, cases: c2 } && expr_rel(
            p,
            discriminant,
            d2,
        ) && cases_rel(p, cases@, c2@),
        JsStmt::Throw(e) => r matches JsStmt::Throw(e2) && expr_rel(p, e, e2),
        JsStmt::Try { block, handler, finalizer } => r matches JsStmt::Try {
            block: b2,
            handler: h2,
            finalizer: f2,
        } && stmts_rel(p, block@, b2@) && handler_rel(p, handler, h2) && opt_block_rel(p, finalizer, f2),
        JsStmt::While { test, body } => r matches JsStmt::While { test: t2, body: b2 } && expr_rel(p, test, t2)
            && stmt_rel(p, *body, *b2),
        JsStmt::DoWhile { body, test } => r matches JsStmt::DoWhile { body: b2, test: t2 } && expr_rel(p, test, t2)
            && stmt_rel(p, *body, *b2),
        JsStmt::For { init, test, update, body } => r matches JsStmt::For {
            init: i2,
            test: t2,
            update: u2,
            body: b2,
        } && for_init_rel(p, init, i2) && opt_expr_rel(p, update, u2) && if p == AstPass::ResugarLoops
            && test is None {
            ||| t2 is None && stmt_rel(p, *body, *b2) && !starts_with_guard(*b2)
            ||| t2 matches Some(t) && (match *body {
                JsStmt::Block(v) => match *b2 {
                    JsStmt::Block(w) => stmts_rel(p, v@, seq![loop_guard(t)] + w@),
                    _ => false,
                },
                _ => false,
            })
        } else {
            opt_expr_rel(p, test, t2) && stmt_rel(p, *body, *b2)
        },
        JsStmt::ForIn { left, right, body } => r matches JsStmt::ForIn { left: l2, right: r2, body: b2 } && for_head_rel(
            p,
            left,
            l2,
        ) && expr_rel(p, right, r2) && stmt_rel(p, *body, *b2),
        JsStmt::ForOf { left, right, body } => r matches JsStmt::ForOf { left: l2, right: r2, body: b2 } && for_head_rel(
            p,
            left,
            l2,
        ) && expr_rel(p, right, r2) && stmt_rel(p, *body, *b2),
        JsStmt::FnDecl { name, function } => r matches JsStmt::FnDecl { name: n2, function: f2 } && n2 == name
            && function_rel(p, function, f2),
        JsStmt::Var(d) => r matches JsStmt::Var(d2) && var_rel(p, d, d2),
        JsStmt::Expr(e) => r matches JsStmt::Expr(e2) && expr_rel(p, e, e2),
        _ => r == s,
    }
}

/// What folding a statement list gives: each statement folded, and for `MergeVars` each run
/// of adjacent declarations of one kind merged into one.
pub open spec fn stmts_rel(p: AstPass, v: Seq<JsStmt>, w: Seq<JsStmt>) -> bool
    decreases v, 1nat,
{
    if p == AstPass::MergeVars {
        w.len() == group_count(v) && forall|j: int|
            #![trigger v[j]]
            0 <= j < v.len() ==> match v[j] {
                JsStmt::Var(d) => w[group_of(v, j)] matches JsStmt::Var(d2) && d2.kind == d.kind && (forall|k: int|
                    0 <= k < d.decls@.len() ==> decl_rel(p, #[trigger] d.decls@[k], d2.decls@[decl_offset(v, j) + k]))
                    && (!joins(v, j + 1) ==> d2.decls@.len() == decl_offset(v, j) + d.decls@.len()),
                _ => stmt_rel(p, v[j], w[group_of(v, j)]),
            }
    } else {
        v.len() == w.len() && forall|i: int| 0 <= i < v.len() ==> stmt_rel(p, #[trigger] v[i], w[i])
    }
}

/// Statement `j` of `v` is a declaration of the same kind as statement `j - 1`, so the two
/// are merged.
pub open spec fn joins(v: Seq<JsStmt>, j: int) -> bool {
    0 < j < v.len() && v[j] is Var && v[j - 1] is Var && v[j]->Var_0.kind == v[j - 1]->Var_0.kind
}

/// The output statement that statement `j` of `v` goes into.
pub open spec fn group_of(v: Seq<JsStmt>, j: int) -> int
    decreases j,
{
    if j <= 0 {
        0
    } else if joins(v, j) {
        group_of(v, j - 1)
    } else {
        group_of(v, j - 1) + 1
    }
}

pub open spec fn group_count(v: Seq<JsStmt>) -> int {
    if v.len() == 0 {
        0
    } else {
        group_of(v, v.len() - 1) + 1
    }
}

pub open spec fn decl_count(s: JsStmt) -> int {
    match s {
        JsStmt::Var(d) => d.decls@.len() as int,
        _ => 0,
    }
}

/// Where the declarators of statement `j` start in the merged declaration.
pub open spec fn decl_offset(v: Seq<JsStmt>, j: int) -> int
    decreases j,
{
    if j <= 0 || !joins(v, j) {
        0
    } else {
        decl_offset(v, j - 1) + decl_count(v[j - 1])
    }
}

/// A declarator folded: the same name, its initializer folded.
pub open spec fn decl_rel(p: AstPass, a: (String, Option<JsExpr>), b: (String, Option<JsExpr>)) -> bool
    decreases a, 1nat,
{
    b.0 == a.0 && opt_expr_rel(p, a.1, b.1)
}

/// Statement `j` of `v`, folded, sits in its output statement of `w`: a non-declaration is
/// that statement; each declarator of a declaration is, folded, at its offset in the merged
/// declaration, which has the same kind and ends with the last declarator of the run.
pub open spec fn merged_at(p: AstPass, v: Seq<JsStmt>, w: Seq<JsStmt>, j: int) -> bool {
    if 0 <= j < v.len() {
        match v[j] {
            JsStmt::Var(d) => w[group_of(v, j)] matches JsStmt::Var(d2) && d2.kind == d.kind && (forall|k: int|
                0 <= k < d.decls@.len() ==> decl_rel(p, #[trigger] d.decls@[k], d2.decls@[decl_offset(v, j) + k]))
                && (!joins(v, j + 1) ==> d2.decls@.len() == decl_offset(v, j) + d.decls@.len()),
            _ => stmt_rel(p, v[j], w[group_of(v, j)]),
        }
    } else {
        true
    }
}

// ---------------------------------------------------------------------------
// The fold.
// ---------------------------------------------------------------------------

/// The items of `v` in reverse order, so that popping hands them out front to back.
fn reversed<T>(v: Vec<T>) -> (r: Vec<T>)
    ensures
        r@.len() == v@.len(),
        forall|j: int| 0 <= j < v@.len() ==> r@[j] == v@[v@.len() - 1 - j],
{
    let ghost v0 = v@;
    let mut v = v;
    let mut r: Vec<T> = Vec::new();
    while v.len() > 0
        invariant
            v@.len() <= v0.len(),
            v@ == v0.take(v@.len() as int),
            r@.len() + v@.len() == v0.len(),
            forall|j: int| 0 <= j < r@.len() ==> r@[j] == v0[v0.len() - 1 - j],
        decreases v.len(),
    {
        let x = v.pop().unwrap();
        r.push(x);
        assert(v@ =~= v0.take(v@.len() as int));
    }
    r
}

fn fold_opt_expr(p: AstPass, e: Option<JsExpr>) -> (r: Option<JsExpr>)
    ensures
        opt_expr_rel(p, e, r),
    decreases e, 2nat,
{
    match e {
        None => None,
        Some(x) => Some(fold_expr(p, x)),
    }
}

#[verifier::loop_isolation(false)]
fn fold_exprs(p: AstPass, v: Vec<JsExpr>) -> (w: Vec<JsExpr>)
    ensures
        exprs_rel(p, v@, w@),
    decreases v@, 2nat,
{
    let ghost v0 = v@;
    let mut rest = reversed(v);
    let mut w: Vec<JsExpr> = Vec::new();
    while rest.len() > 0
        invariant
            rest@.len() + w@.len() == v0.len(),
            forall|j: int| 0 <= j < rest@.len() ==> rest@[j] == v0[v0.len() - 1 - j],
            forall|j: int| 0 <= j < w@.len() ==> expr_rel(p, v0[j], w@[j]),
        decreases rest.len(),
    {
        let x = rest.pop().unwrap();
        assert(x == v0[w@.len() as int]);
        let y = fold_expr(p, x);
        w.push(y);
    }
    w
}

#[verifier::loop_isolation(false)]
fn fold_opt_exprs(p: AstPass, v: Vec<Option<JsExpr>>) -> (w: Vec<Option<JsExpr>>)
    ensures
        opt_exprs_rel(p, v@, w@),
    decreases v@, 2nat,
{
    let ghost v0 = v@;
    let mut rest = reversed(v);
    let mut w: Vec<Option<JsExpr>> = Vec::new();
    while rest.len() > 0
        invariant
            rest@.len() + w@.len() == v0.len(),
            forall|j: int| 0 <= j < rest@.len() ==> rest@[j] == v0[v0.len() - 1 - j],
            forall|j: int| 0 <= j < w@.len() ==> opt_expr_rel(p, v0[j], w@[j]),
        decreases rest.len(),
    {
        let x = rest.pop().unwrap();
        assert(x == v0[w@.len() as int]);
        let y = fold_opt_expr(p, x);
        w.push(y);
    }
    w
}

#[verifier::loop_isolation(false)]
fn fold_props(p: AstPass, v: Vec<(JsExpr, JsExpr)>) -> (w: Vec<(JsExpr, JsExpr)>)
    ensures
        props_rel(p, v@, w@),
    decreases v@, 2nat,
{
    let ghost v0 = v@;
    let mut rest = reversed(v);
    let mut w: Vec<(JsExpr, JsExpr)> = Vec::new();
    while rest.len() > 0
        invariant
            rest@.len() + w@.len() == v0.len(),
            forall|j: int| 0 <= j < rest@.len() ==> rest@[j] == v0[v0.len() - 1 - j],
            forall|j: int| 0 <= j < w@.len() ==> expr_rel(p, v0[j].0, w@[j].0) && expr_rel(p, v0[j].1, w@[j].1),
        decreases rest.len(),
    {
        let x = rest.pop().unwrap();
        assert(x == v0[w@.len() as int]);
        let (k, val) = x;
        let k2 = fold_expr(p, k);
        let val2 = fold_expr(p, val);
        w.push((k2, val2));
    }
    w
}

#[verifier::loop_isolation(false)]
fn fold_decls(p: AstPass, v: Vec<(String, Option<JsExpr>)>) -> (w: Vec<(String, Option<JsExpr>)>)
    ensures
        decls_rel(p, v@, w@),
    decreases v@, 2nat,
{
    let ghost v0 = v@;
    let mut rest = reversed(v);
    let mut w: Vec<(String, Option<JsExpr>)> = Vec::new();
    while rest.len() > 0
        invariant
            rest@.len() + w@.len() == v0.len(),
            forall|j: int| 0 <= j < rest@.len() ==> rest@[j] == v0[v0.len() - 1 - j],
            forall|j: int| 0 <= j < w@.len() ==> w@[j].0 == v0[j].0 && opt_expr_rel(p, v0[j].1, w@[j].1),
        decreases rest.len(),
    {
        let x = rest.pop().unwrap();
        assert(x == v0[w@.len() as int]);
        let (name, init) = x;
        let init2 = fold_opt_expr(p, init);
        w.push((name, init2));
    }
    w
}

fn fold_var(p: AstPass, d: VarDecl) -> (r: VarDecl)
    ensures
        var_rel(p, d, r),
    decreases d, 2nat,
{
    let VarDecl { kind, decls } = d;
    VarDecl { kind, decls: fold_decls(p, decls) }
}

fn fold_function(p: AstPass, f: JsFunction) -> (r: JsFunction)
    ensures
        function_rel(p, f, r),
    decreases f, 2nat,
{
    let JsFunction { params, body, is_async, is_generator } = f;
    JsFunction { params, body: fold_stmts(p, body), is_async, is_generator }
}

fn fold_target(p: AstPass, t: AssignTarget) -> (r: AssignTarget)
    ensures
        target_rel(p, t, r),
    decreases t, 2nat,
{
    match t {
        AssignTarget::Name(n) => AssignTarget::Name(n),
        AssignTarget::Member { obj, prop } => {
            let o2 = fold_expr(p, *obj);
            let p2 = fold_expr(p, *prop);
            AssignTarget::Member { obj: Box::new(o2), prop: Box::new(p2) }
        },
    }
}

/// Folds an expression: the statements in the functions it holds are folded.
pub fn fold_expr(p: AstPass, e: JsExpr) -> (r: JsExpr)
    ensures
        expr_rel(p, e, r),
    decreases e, 2nat,
{
    match e {
        JsExpr::Array(v) => JsExpr::Array(fold_opt_exprs(p, v)),
        JsExpr::Object(v) => JsExpr::Object(fold_props(p, v)),
        JsExpr::Function { name, function } => JsExpr::Function { name, function: fold_function(p, function) },
        JsExpr::Arrow { params, body, is_async } => JsExpr::Arrow { params, body: fold_stmts(p, body), is_async },
        JsExpr::Unary { op, arg } => JsExpr::Unary { op, arg: Box::new(fold_expr(p, *arg)) },
        JsExpr::Binary { op, left, right } => {
            let l2 = fold_expr(p, *left);
            let r2 = fold_expr(p, *right);
            JsExpr::Binary { op, left: Box::new(l2), right: Box::new(r2) }
        },
        JsExpr::Assign { op, left, right } => {
            let l2 = fold_target(p, left);
            let r2 = fold_expr(p, *right);
            JsExpr::Assign { op, left: l2, right: Box::new(r2) }
        },
        JsExpr::Member { obj, prop } => {
            let o2 = fold_expr(p, *obj);
            let p2 = fold_expr(p, *prop);
            JsExpr::Member { obj: Box::new(o2), prop: Box::new(p2) }
        },
        JsExpr::Cond { test, cons, alt } => {
            let t2 = fold_expr(p, *test);
            let c2 = fold_expr(p, *cons);
            let a2 = fold_expr(p, *alt);
            JsExpr::Cond { test: Box::new(t2), cons: Box::new(c2), alt: Box::new(a2) }
        },
        JsExpr::Call { callee, args } => {
            let c2 = fold_expr(p, *callee);
            let a2 = fold_exprs(p, args);
            JsExpr::Call { callee: Box::new(c2), args: a2 }
        },
        JsExpr::New { callee, args } => {
            let c2 = fold_expr(p, *callee);
            let a2 = fold_exprs(p, args);
            JsExpr::New { callee: Box::new(c2), args: a2 }
        },
        JsExpr::Sequence(v) => JsExpr::Sequence(fold_exprs(p, v)),
        other => other,
    }
}

/// Folds each statement of a list; for `MergeVars`, then merges adjacent declarations.
pub fn fold_stmts(p: AstPass, v: Vec<JsStmt>) -> (w: Vec<JsStmt>)
    ensures
        stmts_rel(p, v@, w@),
    decreases v@, 1nat,
{
    if p == AstPass::MergeVars {
        fold_merging(v)
    } else {
        fold_each(p, v)
    }
}

#[verifier::loop_isolation(false)]
fn fold_each(p: AstPass, v: Vec<JsStmt>) -> (w: Vec<JsStmt>)
    requires
        p != AstPass::MergeVars,
    ensures
        stmts_rel(p, v@, w@),
    decreases v@, 0nat,
{
    let ghost v0 = v@;
    let mut rest = reversed(v);
    let mut w: Vec<JsStmt> = Vec::new();
    while rest.len() > 0
        invariant
            rest@.len() + w@.len() == v0.len(),
            forall|j: int| 0 <= j < rest@.len() ==> rest@[j] == v0[v0.len() - 1 - j],
            forall|j: int| 0 <= j < w@.len() ==> stmt_rel(p, v0[j], w@[j]),
        decreases rest.len(),
    {
        let x = rest.pop().unwrap();
        assert(x == v0[w@.len() as int]);
        let y = fold_stmt(p, x);
        w.push(y);
    }
    w
}

#[verifier::loop_isolation(false)]
fn fold_cases(p: AstPass, v: Vec<(Option<JsExpr>, Vec<JsStmt>)>) -> (w: Vec<(Option<JsExpr>, Vec<JsStmt>)>)
    ensures
        cases_rel(p, v@, w@),
    decreases v@, 2nat,
{
    let ghost v0 = v@;
    let mut rest = reversed(v);
    let mut w: Vec<(Option<JsExpr>, Vec<JsStmt>)> = Vec::new();
    while rest.len() > 0
        invariant
            rest@.len() + w@.len() == v0.len(),
            forall|j: int| 0 <= j < rest@.len() ==> rest@[j] == v0[v0.len() - 1 - j],
            forall|j: int| 0 <= j < w@.len() ==> opt_expr_rel(p, v0[j].0, w@[j].0) && stmts_rel(p, v0[j].1@, w@[j].1@),
        decreases rest.len(),
    {
        let x = rest.pop().unwrap();
        assert(x == v0[w@.len() as int]);
        let (test, body) = x;
        let t2 = fold_opt_expr(p, test);
        let b2 = fold_stmts(p, body);
        w.push((t2, b2));
    }
    w
}


fn fold_opt_block(p: AstPass, b: Option<Vec<JsStmt>>) -> (r: Option<Vec<JsStmt>>)
    ensures
        opt_block_rel(p, b, r),
    decreases b, 2nat,
{
    match b {
        None => None,
        Some(v) => Some(fold_stmts(p, v)),
    }
}

fn fold_handler(p: AstPass, h: Option<(Option<String>, Vec<JsStmt>)>) -> (r: Option<(Option<String>, Vec<JsStmt>)>)
    ensures
        handler_rel(p, h, r),
    decreases h, 2nat,
{
    match h {
        None => None,
        Some(x) => {
            let (param, body) = x;
            Some((param, fold_stmts(p, body)))
        },
    }
}

fn fold_for_init(p: AstPass, i: Option<ForInit>) -> (r: Option<ForInit>)
    ensures
        for_init_rel(p, i, r),
    decreases i, 2nat,
{
    match i {
        None => None,
        Some(ForInit::Var(d)) => Some(ForInit::Var(fold_var(p, d))),
        Some(ForInit::Expr(e)) => Some(ForInit::Expr(fold_expr(p, e))),
    }
}

fn fold_for_head(p: AstPass, h: ForHead) -> (r: ForHead)
    ensures
        for_head_rel(p, h, r),
    decreases h, 2nat,
{
    match h {
        ForHead::Var(d) => ForHead::Var(fold_var(p, d)),
        ForHead::Name(n) => ForHead::Name(n),
    }
}

fn same_assignments_exec(c: &JsStmt, a: &JsStmt) -> (r: bool)
    ensures
        r == same_assignments(*c, *a),
{
    match c {
        JsStmt::Expr(JsExpr::Assign { op: AssignOp::Assign, left: AssignTarget::Name(x), .. }) => match a {
            JsStmt::Expr(JsExpr::Assign { op: AssignOp::Assign, left: AssignTarget::Name(y), .. }) => *x == *y,
            _ => false,
        },
        _ => false,
    }
}

pub open spec fn plain_if(test: JsExpr, cons: JsStmt, alt: JsStmt) -> JsStmt {
    JsStmt::If { test, cons: Box::new(cons), alt: Some(Box::new(alt)) }
}

/// `r` assigns to the name `cons` assigns to the value `test ? v1 : v2`, where `cons` and
/// `alt` assign `v1` and `v2`.
pub open spec fn is_cond_assign(r: JsStmt, test: JsExpr, cons: JsStmt, alt: JsStmt) -> bool {
    r matches JsStmt::Expr(JsExpr::Assign { op: AssignOp::Assign, left: AssignTarget::Name(x), right }) && (
    match *right {
        JsExpr::Cond { test: t2, cons: v1, alt: v2 } => *t2 == test && cons == assign_stmt(x, *v1) && exists|
            y: String,
        | y@ == x@ && alt == #[trigger] assign_stmt(y, *v2),
        _ => false,
    })
}

/// The `If2Cond` rewrite of an `if` whose parts are folded.
fn if_to_cond(test: JsExpr, cons: JsStmt, alt: JsStmt) -> (r: JsStmt)
    ensures
        !same_assignments(cons, alt) ==> r == plain_if(test, cons, alt),
        same_assignments(cons, alt) ==> is_cond_assign(r, test, cons, alt),
{
    if same_assignments_exec(&cons, &alt) {
        match cons {
            JsStmt::Expr(JsExpr::Assign { left: AssignTarget::Name(x), right: v1, .. }) => match alt {
                JsStmt::Expr(JsExpr::Assign { left: AssignTarget::Name(y), right: v2, .. }) => {
                    assert(alt == assign_stmt(y, *v2));
                    JsStmt::Expr(
                        JsExpr::Assign {
                            op: AssignOp::Assign,
                            left: AssignTarget::Name(x),
                            right: Box::new(JsExpr::Cond { test: Box::new(test), cons: v1, alt: v2 }),
                        },
                    )
                },
                _ => {
                    assert(false);
                    JsStmt::Empty
                },
            },
            _ => {
                assert(false);
                JsStmt::Empty
            },
        }
    } else {
        JsStmt::If { test, cons: Box::new(cons), alt: Some(Box::new(alt)) }
    }
}

fn starts_with_guard_exec(b: &JsStmt) -> (r: bool)
    ensures
        r == starts_with_guard(*b),
{
    match b {
        JsStmt::Block(v) => {
            if v.len() == 0 {
                false
            } else {
                match &v[0] {
                    JsStmt::If { cons, alt: Some(a), .. } => {
                        let c_empty = match &**cons {
                            JsStmt::Empty => true,
                            _ => false,
                        };
                        let a_break = match &**a {
                            JsStmt::Break(None) => true,
                            _ => false,
                        };
                        c_empty && a_break
                    },
                    _ => false,
                }
            }
        },
        _ => false,
    }
}


/// `r` is the loop `for (init; t; update) { rest }` where `body` is `{ if (t); else break; rest }`.
pub open spec fn is_resugared(r: JsStmt, init: Option<ForInit>, update: Option<JsExpr>, body: JsStmt) -> bool {
    r matches JsStmt::For { init: i2, test: Some(t), update: u2, body: b2 } && i2 == init && u2 == update && (
    match *b2 {
        JsStmt::Block(w) => match body {
            JsStmt::Block(v) => v@ == seq![loop_guard(t)] + w@,
            _ => false,
        },
        _ => false,
    })
}

/// The `ResugarLoops` rewrite of a `for (init; ; update) body` whose parts are folded.
fn resugar_for(init: Option<ForInit>, update: Option<JsExpr>, body: JsStmt) -> (r: JsStmt)
    ensures
        !starts_with_guard(body) ==> r == (JsStmt::For { init, test: None, update, body: Box::new(body) }),
        starts_with_guard(body) ==> is_resugared(r, init, update, body),
{
    if starts_with_guard_exec(&body) {
        match body {
            JsStmt::Block(v) => {
                let ghost v0 = v@;
                let mut w = v;
                let first = w.remove(0);
                match first {
                    JsStmt::If { test, .. } => {
                        assert(v0 =~= seq![loop_guard(test)] + w@);
                        JsStmt::For { init, test: Some(test), update, body: Box::new(JsStmt::Block(w)) }
                    },
                    _ => {
                        assert(false);
                        JsStmt::Empty
                    },
                }
            },
            _ => {
                assert(false);
                JsStmt::Empty
            },
        }
    } else {
        JsStmt::For { init, test: None, update, body: Box::new(body) }
    }
}

/// Folds a statement: its parts first, then the pass's rewrite of the statement itself.
pub fn fold_stmt(p: AstPass, s: JsStmt) -> (r: JsStmt)
    ensures
        stmt_rel(p, s, r),
    decreases s, 2nat,
{
    match s {
        JsStmt::Block(v) => JsStmt::Block(fold_stmts(p, v)),
        JsStmt::With { obj, body } => {
            let o2 = fold_expr(p, obj);
            let b2 = fold_stmt(p, *body);
            JsStmt::With { obj: o2, body: Box::new(b2) }
        },
        JsStmt::Return(e) => JsStmt::Return(fold_opt_expr(p, e)),
        JsStmt::Labeled { label, body } => {
            let b2 = fold_stmt(p, *body);
            JsStmt::Labeled { label, body: Box::new(b2) }
        },
        JsStmt::If { test, cons, alt } => {
            let t2 = fold_expr(p, test);
            let c2 = fold_stmt(p, *cons);
            match alt {
                None => JsStmt::If { test: t2, cons: Box::new(c2), alt: None },
                Some(a) => {
                    let a2 = fold_stmt(p, *a);
                    if p == AstPass::If2Cond {
                        if_to_cond(t2, c2, a2)
                    } else {
                        JsStmt::If { test: t2, cons: Box::new(c2), alt: Some(Box::new(a2)) }
                    }
                },
            }
        },
        JsStmt::Switch { discriminant, cases } => {
            let d2 = fold_expr(p, discriminant);
            let c2 = fold_cases(p, cases);
            JsStmt::Switch { discriminant: d2, cases: c2 }
        },
        JsStmt::Throw(e) => JsStmt::Throw(fold_expr(p, e)),
        JsStmt::Try { block, handler, finalizer } => {
            let b2 = fold_stmts(p, block);
            let h2 = fold_handler(p, handler);
            let f2 = fold_opt_block(p, finalizer);
            JsStmt::Try { block: b2, handler: h2, finalizer: f2 }
        },
        JsStmt::While { test, body } => {
            let t2 = fold_expr(p, test);
            let b2 = fold_stmt(p, *body);
            JsStmt::While { test: t2, body: Box::new(b2) }
        },
        JsStmt::DoWhile { body, test } => {
            let b2 = fold_stmt(p, *body);
            let t2 = fold_expr(p, test);
            JsStmt::DoWhile { body: Box::new(b2), test: t2 }
        },
        JsStmt::For { init, test, update, body } => {
            let i2 = fold_for_init(p, init);
            let no_test = test.is_none();
            let t2 = fold_opt_expr(p, test);
            let u2 = fold_opt_expr(p, update);
            let b2 = fold_stmt(p, *body);
            if p == AstPass::ResugarLoops && no_test {
                resugar_for(i2, u2, b2)
            } else {
                JsStmt::For { init: i2, test: t2, update: u2, body: Box::new(b2) }
            }
        },
        JsStmt::ForIn { left, right, body } => {
            let l2 = fold_for_head(p, left);
            let r2 = fold_expr(p, right);
            let b2 = fold_stmt(p, *body);
            JsStmt::ForIn { left: l2, right: r2, body: Box::new(b2) }
        },
        JsStmt::ForOf { left, right, body } => {
            let l2 = fold_for_head(p, left);
            let r2 = fold_expr(p, right);
            let b2 = fold_stmt(p, *body);
            JsStmt::ForOf { left: l2, right: r2, body: Box::new(b2) }
        },
        JsStmt::FnDecl { name, function } => JsStmt::FnDecl { name, function: fold_function(p, function) },
        JsStmt::Var(d) => JsStmt::Var(fold_var(p, d)),
        JsStmt::Expr(e) => JsStmt::Expr(fold_expr(p, e)),
        other => other,
    }
}


/// The output so far with the open declaration, if any, at its end.
pub open spec fn with_buffer(out: Seq<JsStmt>, buf: Option<VarDecl>) -> Seq<JsStmt> {
    match buf {
        Some(b) => out.push(JsStmt::Var(b)),
        None => out,
    }
}

/// `merged_at` reads only the output statement that statement `j` goes into.
proof fn lemma_merged_at_frame(p: AstPass, v: Seq<JsStmt>, w1: Seq<JsStmt>, w2: Seq<JsStmt>, j: int)
    requires
        merged_at(p, v, w1, j),
        0 <= group_of(v, j) < w1.len(),
        group_of(v, j) < w2.len(),
        w1[group_of(v, j)] == w2[group_of(v, j)],
    ensures
        merged_at(p, v, w2, j),
{
}

/// Declarators appended to the open declaration leave those of earlier statements in place.
proof fn lemma_merged_at_extend(p: AstPass, v: Seq<JsStmt>, out: Seq<JsStmt>, b: VarDecl, b2: VarDecl, j: int)
    requires
        0 <= j < v.len(),
        merged_at(p, v, out.push(JsStmt::Var(b)), j),
        group_of(v, j) == out.len(),
        b2.kind == b.kind,
        b.decls@.len() <= b2.decls@.len(),
        forall|m: int| 0 <= m < b.decls@.len() ==> b2.decls@[m] == b.decls@[m],
        decl_offset(v, j) + decl_count(v[j]) <= b.decls@.len(),
        joins(v, j + 1),
    ensures
        merged_at(p, v, out.push(JsStmt::Var(b2)), j),
{
    let w1 = out.push(JsStmt::Var(b));
    let w2 = out.push(JsStmt::Var(b2));
    assert(w1[out.len() as int] == JsStmt::Var(b));
    assert(w2[out.len() as int] == JsStmt::Var(b2));
    lemma_offset_nonneg(v, j);
    match v[j] {
        JsStmt::Var(d) => {
            assert forall|k: int| 0 <= k < d.decls@.len() implies decl_rel(
                p,
                #[trigger] d.decls@[k],
                b2.decls@[decl_offset(v, j) + k],
            ) by {
                assert(decl_count(v[j]) == d.decls@.len());
                assert(decl_rel(p, d.decls@[k], b.decls@[decl_offset(v, j) + k]));
                assert(b2.decls@[decl_offset(v, j) + k] == b.decls@[decl_offset(v, j) + k]);
            }
        },
        _ => {},
    }
}

proof fn lemma_offset_nonneg(v: Seq<JsStmt>, j: int)
    ensures
        decl_offset(v, j) >= 0,
    decreases j,
{
    if j > 0 {
        lemma_offset_nonneg(v, j - 1);
    }
}

proof fn lemma_group_mono(v: Seq<JsStmt>, j: int, i: int)
    requires
        0 <= j <= i < v.len(),
    ensures
        group_of(v, j) <= group_of(v, i),
        group_of(v, j) == group_of(v, i) ==> decl_offset(v, j) + decl_count(v[j]) <= decl_offset(v, i) + decl_count(v[i]),
    decreases i - j,
{
    if j < i {
        lemma_group_mono(v, j, i - 1);
    }
}

#[verifier::loop_isolation(false)]
#[verifier::spinoff_prover]
#[verifier::rlimit(60)]
fn fold_merging(v: Vec<JsStmt>) -> (w: Vec<JsStmt>)
    ensures
        stmts_rel(AstPass::MergeVars, v@, w@),
    decreases v@, 0nat,
{
    let p = AstPass::MergeVars;
    let ghost v0 = v@;
    let ghost n = v0.len() as int;
    let mut rest = reversed(v);
    let mut out: Vec<JsStmt> = Vec::new();
    let mut buf: Option<VarDecl> = None;
    let ghost mut i: int = 0;
    while rest.len() > 0
        invariant
            0 <= i <= n,
            rest@.len() + i == n,
            forall|j: int| 0 <= j < rest@.len() ==> rest@[j] == v0[n - 1 - j],
            i == 0 ==> out@.len() == 0 && buf is None,
            i > 0 ==> (buf is Some <==> v0[i - 1] is Var),
            i > 0 && buf is Some ==> out@.len() == group_of(v0, i - 1) && buf->0.kind == v0[i - 1]->Var_0.kind
                && buf->0.decls@.len() == decl_offset(v0, i - 1) + decl_count(v0[i - 1]),
            i > 0 && buf is None ==> out@.len() == group_of(v0, i - 1) + 1,
            forall|j: int| #![trigger v0[j]] 0 <= j < i ==> merged_at(p, v0, with_buffer(out@, buf), j),
        decreases rest.len(),
    {
        let x = rest.pop().unwrap();
        assert(x == v0[i]);
        let ghost w0 = with_buffer(out@, buf);
        proof {
            if i > 0 {
                assert(w0.len() == group_of(v0, i - 1) + 1);
            }
        }
        match x {
            JsStmt::Var(d) => {
                let ghost dd = d;
                let d2 = fold_var(p, d);
                proof {
                    assert(var_rel(p, dd, d2));
                    assert(decls_rel(p, dd.decls@, d2.decls@));
                    assert forall|k: int| 0 <= k < dd.decls@.len() implies decl_rel(p, #[trigger] dd.decls@[k], d2.decls@[k]) by {
                        assert(opt_expr_rel(p, dd.decls@[k].1, d2.decls@[k].1));
                    }
                }
                match buf {
                    None => {
                        buf = Some(d2);
                        proof {
                            assert(!joins(v0, i));
                            assert(with_buffer(out@, buf) =~= w0.push(JsStmt::Var(d2)));
                        }
                    },
                    Some(b) => {
                        if b.kind == d2.kind {
                            let ghost bd = b.decls@;
                            let ghost b_old = b;
                            let VarDecl { kind, decls } = b;
                            let mut decls = decls;
                            let VarDecl { kind: _, decls: more } = d2;
                            let mut more = more;
                            decls.append(&mut more);
                            buf = Some(VarDecl { kind, decls });
                            proof {
                                assert(joins(v0, i));
                                assert(with_buffer(out@, buf) =~= out@.push(JsStmt::Var(buf->0)));
                                assert(buf->0.decls@ =~= bd + d2.decls@);
                                assert forall|j: int| 0 <= j < i implies #[trigger] merged_at(p, v0, with_buffer(out@, buf), j) by {
                                    assert(merged_at(p, v0, w0, j));
                                    lemma_group_mono(v0, j, i - 1);
                                    lemma_group_mono(v0, 0, j);
                                    if j + 1 <= i - 1 {
                                        lemma_group_mono(v0, j + 1, i - 1);
                                    }
                                    if group_of(v0, j) < out@.len() {
                                        lemma_merged_at_frame(p, v0, w0, with_buffer(out@, buf), j);
                                    } else {
                                        lemma_merged_at_extend(p, v0, out@, b_old, buf->0, j);
                                    }
                                }
                                assert(group_of(v0, i) == out@.len());
                                assert(decl_offset(v0, i) == bd.len());
                                assert forall|k: int| 0 <= k < dd.decls@.len() implies decl_rel(
                                    p,
                                    #[trigger] dd.decls@[k],
                                    buf->0.decls@[decl_offset(v0, i) + k],
                                ) by {
                                    assert(buf->0.decls@[bd.len() + k] == d2.decls@[k]);
                                }
                            }
                        } else {
                            out.push(JsStmt::Var(b));
                            buf = Some(d2);
                            proof {
                                assert(!joins(v0, i));
                                assert(with_buffer(out@, buf) =~= w0.push(JsStmt::Var(d2)));
                            }
                        }
                    },
                }
            },
            other => {
                let y = fold_stmt(p, other);
                match buf {
                    Some(b) => {
                        out.push(JsStmt::Var(b));
                    },
                    None => {},
                }
                buf = None;
                out.push(y);
                proof {
                    assert(!joins(v0, i));
                    assert(with_buffer(out@, buf) =~= w0.push(y));
                }
            },
        }
        proof {
            if !joins(v0, i) {
                assert(with_buffer(out@, buf).drop_last() =~= w0);
                assert forall|j: int| 0 <= j < i implies #[trigger] merged_at(p, v0, with_buffer(out@, buf), j) by {
                    assert(merged_at(p, v0, w0, j));
                    lemma_group_mono(v0, j, i - 1);
                    lemma_group_mono(v0, 0, j);
                    let g = group_of(v0, j);
                    assert(g < w0.len());
                    assert(with_buffer(out@, buf)[g] == w0[g]);
                    lemma_merged_at_frame(p, v0, w0, with_buffer(out@, buf), j);
                }
                if i > 0 {
                    assert(group_of(v0, i) == group_of(v0, i - 1) + 1);
                } else {
                    assert(group_of(v0, i) == 0);
                }
                assert(group_of(v0, i) == w0.len());
                assert(decl_offset(v0, i) == 0);
            }
            assert(merged_at(p, v0, with_buffer(out@, buf), i));
        }
        proof {
            i = i + 1;
        }
    }
    let ghost wfinal = with_buffer(out@, buf);
    match buf {
        Some(b) => {
            out.push(JsStmt::Var(b));
        },
        None => {},
    }
    assert(out@ =~= wfinal);
    assert(out@.len() == group_count(v0));
    assert(forall|j: int| #![trigger v0[j]] 0 <= j < v0.len() ==> merged_at(p, v0, out@, j));
    assert(p == AstPass::MergeVars);
    assert(stmts_rel(p, v0, out@));
    out
}


/// Converts `if`-statements whose branches both assign to the same name into an assignment of
/// a conditional expression.
pub struct If2Cond;

impl If2Cond {
    pub fn fold_stmt(&mut self, s: JsStmt) -> (r: JsStmt)
        ensures
            stmt_rel(AstPass::If2Cond, s, r),
    {
        fold_stmt(AstPass::If2Cond, s)
    }

    pub fn fold_stmts(&mut self, v: Vec<JsStmt>) -> (w: Vec<JsStmt>)
        ensures
            stmts_rel(AstPass::If2Cond, v@, w@),
    {
        fold_stmts(AstPass::If2Cond, v)
    }
}

/// Moves loop conditions back into loop headers.
pub struct ResugarLoops;

impl ResugarLoops {
    pub fn fold_for_stmt(&mut self, s: JsStmt) -> (r: JsStmt)
        ensures
            stmt_rel(AstPass::ResugarLoops, s, r),
    {
        fold_stmt(AstPass::ResugarLoops, s)
    }

    pub fn fold_stmts(&mut self, v: Vec<JsStmt>) -> (w: Vec<JsStmt>)
        ensures
            stmts_rel(AstPass::ResugarLoops, v@, w@),
    {
        fold_stmts(AstPass::ResugarLoops, v)
    }
}

/// Merges adjacent variable declarations.
pub struct MergeVars;

impl MergeVars {
    pub fn fold_stmts(&mut self, v: Vec<JsStmt>) -> (w: Vec<JsStmt>)
        ensures
            stmts_rel(AstPass::MergeVars, v@, w@),
    {
        fold_stmts(AstPass::MergeVars, v)
    }
}

} // verus!
