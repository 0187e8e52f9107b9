//! Hoisting: the declarations of a function or program body that take effect before its
//! first statement runs.

use vstd::prelude::*;

use crate::ast::{AstScope, ForHead, ForInit, JsStmt, VarDecl, VarKind};
use crate::ir::{Expr, Mutable, Ref, RefType, Stmt, SSA};

use vstd::string::StringExecFns;

verus! {

/// Which declarations are hoisted.
#[derive(PartialEq, Eq, Structural, Clone, Copy)]
pub enum Hoist {
    /// `var` declarations and function declarations, at any depth, and `let`/`const` names of
    /// the body itself (only reserved: they get no initial value).
    Everything,
    /// Only the `let`/`const` names of the body itself.
    OnlyLetConst,
}

/// Whether a statement is part of the body itself or nested in one of its statements.
#[derive(PartialEq, Eq, Structural, Clone, Copy)]
pub enum Level {
    First,
    Below,
}

/// The state hoisting works on: the mutable bindings of the current scope, and the next id
/// to hand out.
pub struct HSt {
    pub own: Map<Seq<char>, Ref<Mutable>>,
    pub next: u64,
}

pub open spec fn mk_ref<T: RefType>(id: u64, name: String) -> Ref<T> {
    Ref { id, name_hint: name, marker: core::marker::PhantomData }
}

pub open spec fn append(out: Seq<Stmt>, r: Option<(Seq<Stmt>, HSt)>) -> Option<(Seq<Stmt>, HSt)> {
    match r {
        Some((o, st)) => Some((out + o, st)),
        None => None,
    }
}

/// A hoisted binding: declared with a fresh initial value of `undefined` (an SSA value named
/// `ini`). Declaring a name the scope already declares fails.
pub open spec fn declare_pair(st: HSt, name: String, ini: String) -> Option<(Seq<Stmt>, HSt)> {
    if st.own.contains_key(name@) {
        None
    } else {
        let v = mk_ref::<Mutable>(st.next, name);
        let i = mk_ref::<SSA>(st.next.wrapping_add(1), ini);
        Some((
            seq![Stmt::Expr { target: i, expr: Expr::Undefined }, Stmt::DeclareMutable { target: v, val: i }],
            HSt { own: st.own.insert(name@, v), next: st.next.wrapping_add(1).wrapping_add(1) },
        ))
    }
}

/// `var` declarators: each name not yet declared in the scope is declared.
pub open spec fn hoist_var_decls(ds: Seq<(String, Option<crate::ast::JsExpr>)>, st: HSt, ini: String) -> Option<(Seq<Stmt>, HSt)>
    decreases ds.len(),
{
    if ds.len() == 0 {
        Some((Seq::empty(), st))
    } else {
        match hoist_var_decls(ds.drop_last(), st, ini) {
            None => None,
            Some((out, st1)) => if st1.own.contains_key(ds.last().0@) {
                Some((out, st1))
            } else {
                append(out, declare_pair(st1, ds.last().0, ini))
            },
        }
    }
}

/// `let`/`const` names of the body itself are declared without a value, reserving them for
/// functions above the declaration that use them.
pub open spec fn reserve_names(ds: Seq<(String, Option<crate::ast::JsExpr>)>, st: HSt) -> Option<HSt>
    decreases ds.len(),
{
    if ds.len() == 0 {
        Some(st)
    } else {
        match reserve_names(ds.drop_last(), st) {
            None => None,
            Some(st1) => {
                let name = ds.last().0;
                if st1.own.contains_key(name@) {
                    None
                } else {
                    Some(HSt { own: st1.own.insert(name@, mk_ref::<Mutable>(st1.next, name)), next: st1.next.wrapping_add(1) })
                }
            },
        }
    }
}

pub open spec fn hoist_var(vd: VarDecl, st: HSt, hoist: Hoist, level: Level, ini: String) -> Option<(Seq<Stmt>, HSt)> {
    if hoist == Hoist::Everything && vd.kind == VarKind::Var {
        hoist_var_decls(vd.decls@, st, ini)
    } else if level == Level::First && vd.kind != VarKind::Var {
        match reserve_names(vd.decls@, st) {
            Some(st1) => Some((Seq::empty(), st1)),
            None => None,
        }
    } else {
        Some((Seq::empty(), st))
    }
}

/// The declarations hoisted out of a statement.
pub open spec fn hoist_stmt(s: JsStmt, st: HSt, hoist: Hoist, level: Level, ini: String) -> Option<(Seq<Stmt>, HSt)>
    decreases s, 3nat,
{
    match s {
        JsStmt::Block(stmts) => hoist_block(stmts@, st, hoist, Level::Below, ini),
        JsStmt::With { body, .. } => hoist_stmt(*body, st, hoist, Level::Below, ini),
        JsStmt::Labeled { body, .. } => hoist_stmt(*body, st, hoist, level, ini),
        JsStmt::If { cons, alt, .. } => match hoist_stmt(*cons, st, hoist, Level::Below, ini) {
            None => None,
            Some((o1, st1)) => match alt {
                Some(a) => append(o1, hoist_stmt(*a, st1, hoist, Level::Below, ini)),
                None => Some((o1, st1)),
            },
        },
        JsStmt::Switch { cases, .. } => hoist_cases(cases@, st, hoist, ini),
        JsStmt::Try { block, handler, finalizer } => match hoist_block(block@, st, hoist, Level::Below, ini) {
            None => None,
            Some((o1, st1)) => {
                let r2 = match handler {
                    Some(h) => hoist_block(h.1@, st1, hoist, Level::Below, ini),
                    None => Some((Seq::empty(), st1)),
                };
                match r2 {
                    None => None,
                    Some((o2, st2)) => match finalizer {
                        Some(f) => append(o1 + o2, hoist_block(f@, st2, hoist, Level::Below, ini)),
                        None => Some((o1 + o2, st2)),
                    },
                }
            },
        },
        JsStmt::While { body, .. } => hoist_stmt(*body, st, hoist, Level::Below, ini),
        JsStmt::DoWhile { body, .. } => hoist_stmt(*body, st, hoist, Level::Below, ini),
        JsStmt::For { init, body, .. } => {
            let r1 = match init {
                Some(ForInit::Var(vd)) => hoist_var(vd, st, hoist, Level::Below, ini),
                _ => Some((Seq::empty(), st)),
            };
            match r1 {
                None => None,
                Some((o1, st1)) => append(o1, hoist_stmt(*body, st1, hoist, Level::Below, ini)),
            }
        },
        JsStmt::ForIn { left, body, .. } => {
            let r1 = match left {
                ForHead::Var(vd) => hoist_var(vd, st, hoist, Level::Below, ini),
                _ => Some((Seq::empty(), st)),
            };
            match r1 {
                None => None,
                Some((o1, st1)) => append(o1, hoist_stmt(*body, st1, hoist, Level::Below, ini)),
            }
        },
        JsStmt::ForOf { left, body, .. } => {
            let r1 = match left {
                ForHead::Var(vd) => hoist_var(vd, st, hoist, Level::Below, ini),
                _ => Some((Seq::empty(), st)),
            };
            match r1 {
                None => None,
                Some((o1, st1)) => append(o1, hoist_stmt(*body, st1, hoist, Level::Below, ini)),
            }
        },
        JsStmt::FnDecl { name, .. } => if hoist == Hoist::Everything {
            declare_pair(st, name, ini)
        } else {
            Some((Seq::empty(), st))
        },
        JsStmt::Var(vd) => hoist_var(vd, st, hoist, level, ini),
        _ => Some((Seq::empty(), st)),
    }
}

/// The declarations hoisted out of a block: nothing below the body itself when only
/// `let`/`const` names are hoisted.
pub open spec fn hoist_block(ss: Seq<JsStmt>, st: HSt, hoist: Hoist, level: Level, ini: String) -> Option<(Seq<Stmt>, HSt)>
    decreases ss, 2nat,
{
    if hoist == Hoist::OnlyLetConst && level == Level::Below {
        Some((Seq::empty(), st))
    } else {
        hoist_each(ss, st, hoist, level, ini)
    }
}

/// The declarations hoisted out of each statement, in order.
pub open spec fn hoist_each(ss: Seq<JsStmt>, st: HSt, hoist: Hoist, level: Level, ini: String) -> Option<(Seq<Stmt>, HSt)>
    decreases ss, 1nat,
{
    if ss.len() == 0 {
        Some((Seq::empty(), st))
    } else {
        match hoist_each(ss.drop_last(), st, hoist, level, ini) {
            None => None,
            Some((o, st1)) => append(o, hoist_stmt(ss.last(), st1, hoist, level, ini)),
        }
    }
}

/// The declarations hoisted out of the statements of each case of a `switch`.
pub open spec fn hoist_cases(
    cs: Seq<(Option<crate::ast::JsExpr>, Vec<JsStmt>)>,
    st: HSt,
    hoist: Hoist,
    ini: String,
) -> Option<(Seq<Stmt>, HSt)>
    decreases cs, 1nat,
{
    if cs.len() == 0 {
        Some((Seq::empty(), st))
    } else {
        match hoist_cases(cs.drop_last(), st, hoist, ini) {
            None => None,
            Some((o, st1)) => append(o, hoist_each(cs.last().1@, st1, hoist, Level::Below, ini)),
        }
    }
}


// ---------------------------------------------------------------------------
// Executable hoisting.
// ---------------------------------------------------------------------------

/// The hoisting state of a scope and an id counter.
pub open spec fn hst<'a>(scope: AstScope<'a>, ids: u64) -> HSt {
    HSt { own: scope.own_mutables(), next: ids }
}

/// `r` is a successful hoisting whose statements were appended to `out0`, giving `out`, and
/// which left the scope's own bindings `own` and the id counter at `next`.
pub open spec fn tracks(r: Option<(Seq<Stmt>, HSt)>, out0: Seq<Stmt>, out: Seq<Stmt>, own: Map<Seq<char>, Ref<Mutable>>, next: u64) -> bool {
    r matches Some((o, st)) && out == out0 + o && own == st.own && next == st.next
}

proof fn lemma_ref_is_mk_ref<T: RefType>(r: Ref<T>)
    ensures
        r == mk_ref::<T>(r.id, r.name_hint),
{
}

/// Declares `name` with an `undefined` initial value, appending the two statements to `out`.
fn declare_hoisted(scope: &mut AstScope, name: String, ini: &String, ids: &mut u64, out: &mut Vec<Stmt>)
    requires
        !old(scope).own_mutables().contains_key(name@),
    ensures
        tracks(declare_pair(hst(*old(scope), *old(ids)), name, *ini), old(out)@, final(out)@, final(scope).own_mutables(), *final(ids)),
        final(scope).parent == old(scope).parent,
        final(scope).labels == old(scope).labels,
{
    let ghost out0 = out@;
    let ghost st0 = hst(*scope, *ids);
    let v = scope.declare_mutable(name, ids);
    let i: Ref<SSA> = Ref::new(*ids, ini.clone());
    *ids = ids.wrapping_add(1);
    proof {
        lemma_ref_is_mk_ref(v);
        lemma_ref_is_mk_ref(i);
    }
    out.push(Stmt::Expr { target: i.duplicate(), expr: Expr::Undefined });
    out.push(Stmt::DeclareMutable { target: v, val: i });
    proof {
        let o = declare_pair(st0, name, *ini).unwrap().0;
        assert(out@ =~= out0 + o);
    }
}


proof fn lemma_suffix(out0: Seq<Stmt>, out1: Seq<Stmt>, a: Seq<Stmt>)
    requires
        out1 == out0 + a,
    ensures
        a == out1.subrange(out0.len() as int, out1.len() as int),
{
    assert(a =~= out1.subrange(out0.len() as int, out1.len() as int));
}

/// Hoisted statements appended one run after another.
proof fn lemma_tracks_then(
    o1: Seq<Stmt>,
    r2: Option<(Seq<Stmt>, HSt)>,
    out0: Seq<Stmt>,
    out1: Seq<Stmt>,
    out2: Seq<Stmt>,
    own: Map<Seq<char>, Ref<Mutable>>,
    next: u64,
)
    requires
        out1 == out0 + o1,
        tracks(r2, out1, out2, own, next),
    ensures
        tracks(append(o1, r2), out0, out2, own, next),
{
    let o2 = r2.unwrap().0;
    assert(out0 + (o1 + o2) =~= out0 + o1 + o2);
}

proof fn lemma_reserve_prefix(ds: Seq<(String, Option<crate::ast::JsExpr>)>, st: HSt, i: int)
    requires
        0 <= i <= ds.len(),
        reserve_names(ds, st) is Some,
    ensures
        reserve_names(ds.take(i), st) is Some,
    decreases ds.len(),
{
    if i < ds.len() {
        lemma_reserve_prefix(ds.drop_last(), st, i);
        assert(ds.drop_last().take(i) =~= ds.take(i));
    } else {
        assert(ds.take(i) =~= ds);
    }
}

proof fn lemma_each_prefix(ss: Seq<JsStmt>, st: HSt, hoist: Hoist, level: Level, ini: String, i: int)
    requires
        0 <= i <= ss.len(),
        hoist_each(ss, st, hoist, level, ini) is Some,
    ensures
        hoist_each(ss.take(i), st, hoist, level, ini) is Some,
    decreases ss.len(),
{
    if i < ss.len() {
        lemma_each_prefix(ss.drop_last(), st, hoist, level, ini, i);
        assert(ss.drop_last().take(i) =~= ss.take(i));
    } else {
        assert(ss.take(i) =~= ss);
    }
}

proof fn lemma_cases_prefix(cs: Seq<(Option<crate::ast::JsExpr>, Vec<JsStmt>)>, st: HSt, hoist: Hoist, ini: String, i: int)
    requires
        0 <= i <= cs.len(),
        hoist_cases(cs, st, hoist, ini) is Some,
    ensures
        hoist_cases(cs.take(i), st, hoist, ini) is Some,
    decreases cs.len(),
{
    if i < cs.len() {
        lemma_cases_prefix(cs.drop_last(), st, hoist, ini, i);
        assert(cs.drop_last().take(i) =~= cs.take(i));
    } else {
        assert(cs.take(i) =~= cs);
    }
}

fn hoist_var_declarators(
    ds: &Vec<(String, Option<crate::ast::JsExpr>)>,
    scope: &mut AstScope,
    ini: &String,
    ids: &mut u64,
    out: &mut Vec<Stmt>,
)
    ensures
        tracks(hoist_var_decls(ds@, hst(*old(scope), *old(ids)), *ini), old(out)@, final(out)@, final(scope).own_mutables(), *final(ids)),
        final(scope).parent == old(scope).parent,
        final(scope).labels == old(scope).labels,
{
    let ghost st0 = hst(*scope, *ids);
    let ghost out0 = out@;
    let ghost parent0 = scope.parent;
    let ghost labels0 = scope.labels;
    assert(out0 =~= out0 + Seq::<Stmt>::empty());
    let mut i: usize = 0;
    while i < ds.len()
        invariant
            i <= ds@.len(),
            tracks(hoist_var_decls(ds@.take(i as int), st0, *ini), out0, out@, scope.own_mutables(), *ids),
            scope.parent == parent0,
            scope.labels == labels0,
        decreases ds.len() - i,
    {
        proof {
            assert(ds@.take(i + 1).drop_last() =~= ds@.take(i as int));
        }
        let ghost out1 = out@;
        let ghost st1 = hst(*scope, *ids);
        let ghost o1 = hoist_var_decls(ds@.take(i as int), st0, *ini).unwrap().0;
        if scope.get_mutable_in_current(&ds[i].0).is_none() {
            declare_hoisted(scope, ds[i].0.clone(), ini, ids, out);
            proof {
                lemma_tracks_then(o1, declare_pair(st1, ds@[i as int].0, *ini), out0, out1, out@, scope.own_mutables(), *ids);
            }
        }
        i += 1;
    }
    proof {
        assert(ds@.take(ds@.len() as int) =~= ds@);
    }
}


/// Declares the `let`/`const` names of a declaration of the body itself, without a value.
fn reserve_declarators(ds: &Vec<(String, Option<crate::ast::JsExpr>)>, scope: &mut AstScope, ids: &mut u64)
    requires
        reserve_names(ds@, hst(*old(scope), *old(ids))) is Some,
    ensures
        reserve_names(ds@, hst(*old(scope), *old(ids))) matches Some(st) && st.own == final(scope).own_mutables() && st.next == *final(ids),
        final(scope).parent == old(scope).parent,
        final(scope).labels == old(scope).labels,
{
    let ghost st0 = hst(*scope, *ids);
    let ghost parent0 = scope.parent;
    let ghost labels0 = scope.labels;
    let mut i: usize = 0;
    while i < ds.len()
        invariant
            i <= ds@.len(),
            reserve_names(ds@, st0) is Some,
            reserve_names(ds@.take(i as int), st0) matches Some(st) && st.own == scope.own_mutables() && st.next == *ids,
            scope.parent == parent0,
            scope.labels == labels0,
        decreases ds.len() - i,
    {
        proof {
            assert(ds@.take(i + 1).drop_last() =~= ds@.take(i as int));
            lemma_reserve_prefix(ds@, st0, i + 1);
        }
        let r = scope.declare_mutable(ds[i].0.clone(), ids);
        proof {
            lemma_ref_is_mk_ref(r);
        }
        i += 1;
    }
    proof {
        assert(ds@.take(ds@.len() as int) =~= ds@);
    }
}

fn hoist_var_declaration(
    vd: &VarDecl,
    scope: &mut AstScope,
    hoist: Hoist,
    level: Level,
    ini: &String,
    ids: &mut u64,
    out: &mut Vec<Stmt>,
)
    requires
        hoist_var(*vd, hst(*old(scope), *old(ids)), hoist, level, *ini) is Some,
    ensures
        tracks(hoist_var(*vd, hst(*old(scope), *old(ids)), hoist, level, *ini), old(out)@, final(out)@, final(scope).own_mutables(), *final(ids)),
        final(scope).parent == old(scope).parent,
        final(scope).labels == old(scope).labels,
{
    if hoist == Hoist::Everything && vd.kind == VarKind::Var {
        hoist_var_declarators(&vd.decls, scope, ini, ids, out);
    } else if level == Level::First && vd.kind != VarKind::Var {
        reserve_declarators(&vd.decls, scope, ids);
        assert(out@ =~= out@ + Seq::<Stmt>::empty());
    } else {
        assert(out@ =~= out@ + Seq::<Stmt>::empty());
    }
}


/// Appends the declarations hoisted out of `stmt` to `out`, declaring them in `scope`.
#[verifier::spinoff_prover]
#[verifier::rlimit(60)]
pub fn hoist_statement(
    stmt: &JsStmt,
    scope: &mut AstScope,
    hoist: Hoist,
    level: Level,
    ini: &String,
    ids: &mut u64,
    out: &mut Vec<Stmt>,
)
    requires
        hoist_stmt(*stmt, hst(*old(scope), *old(ids)), hoist, level, *ini) is Some,
    ensures
        tracks(hoist_stmt(*stmt, hst(*old(scope), *old(ids)), hoist, level, *ini), old(out)@, final(out)@, final(scope).own_mutables(), *final(ids)),
        final(scope).parent == old(scope).parent,
        final(scope).labels == old(scope).labels,
    decreases stmt, 3nat,
{
    let ghost st0 = hst(*scope, *ids);
    let ghost out0 = out@;
    match stmt {
        JsStmt::Block(stmts) => {
            assert(hoist_stmt(*stmt, st0, hoist, level, *ini) == hoist_block(stmts@, st0, hoist, Level::Below, *ini));
            hoist_block_statements(stmts, scope, hoist, Level::Below, ini, ids, out);
        },
        JsStmt::With { body, .. } => hoist_statement(&**body, scope, hoist, Level::Below, ini, ids, out),
        JsStmt::Labeled { body, .. } => hoist_statement(&**body, scope, hoist, level, ini, ids, out),
        JsStmt::If { cons, alt, .. } => {
            hoist_statement(&**cons, scope, hoist, Level::Below, ini, ids, out);
            let ghost out1 = out@;
            let ghost st1 = hst(*scope, *ids);
            let ghost o1 = hoist_stmt(**cons, st0, hoist, Level::Below, *ini).unwrap().0;
            match alt {
                Some(a) => {
                    hoist_statement(&**a, scope, hoist, Level::Below, ini, ids, out);
                    proof {
                        lemma_tracks_then(o1, hoist_stmt(**a, st1, hoist, Level::Below, *ini), out0, out1, out@, scope.own_mutables(), *ids);
                    }
                },
                None => {},
            }
        },
        JsStmt::Switch { cases, .. } => hoist_case_statements(cases, scope, hoist, ini, ids, out),
        JsStmt::Try { block, handler, finalizer } => {
            hoist_block_statements(block, scope, hoist, Level::Below, ini, ids, out);
            let ghost out1 = out@;
            let ghost st1 = hst(*scope, *ids);
            let ghost o1 = hoist_block(block@, st0, hoist, Level::Below, *ini).unwrap().0;
            match handler {
                Some(h) => {
                    hoist_block_statements(&h.1, scope, hoist, Level::Below, ini, ids, out);
                    proof {
                        lemma_tracks_then(o1, hoist_block(h.1@, st1, hoist, Level::Below, *ini), out0, out1, out@, scope.own_mutables(), *ids);
                    }
                },
                None => {
                    assert(out@ =~= out0 + (o1 + Seq::<Stmt>::empty()));
                },
            }
            let ghost r2 = match handler {
                Some(h) => hoist_block(h.1@, st1, hoist, Level::Below, *ini),
                None => Some((Seq::<Stmt>::empty(), st1)),
            };
            let ghost out2 = out@;
            let ghost st2 = hst(*scope, *ids);
            let ghost o12 = out2.subrange(out0.len() as int, out2.len() as int);
            proof {
                lemma_suffix(out0, out2, o1 + r2.unwrap().0);
            }
            assert(out2 =~= out0 + o12);
            match finalizer {
                Some(f) => {
                    hoist_block_statements(f, scope, hoist, Level::Below, ini, ids, out);
                    proof {
                        lemma_tracks_then(o12, hoist_block(f@, st2, hoist, Level::Below, *ini), out0, out2, out@, scope.own_mutables(), *ids);
                    }
                },
                None => {},
            }
        },
        JsStmt::While { body, .. } => hoist_statement(&**body, scope, hoist, Level::Below, ini, ids, out),
        JsStmt::DoWhile { body, .. } => hoist_statement(&**body, scope, hoist, Level::Below, ini, ids, out),
        JsStmt::For { init, body, .. } => {
            match init {
                Some(ForInit::Var(vd)) => hoist_var_declaration(vd, scope, hoist, Level::Below, ini, ids, out),
                _ => {
                    assert(out@ =~= out@ + Seq::<Stmt>::empty());
                },
            }
            let ghost r1 = match init {
                Some(ForInit::Var(vd)) => hoist_var(*vd, st0, hoist, Level::Below, *ini),
                _ => Some((Seq::<Stmt>::empty(), st0)),
            };
            let ghost out1 = out@;
            let ghost st1 = hst(*scope, *ids);
            let ghost o1 = out1.subrange(out0.len() as int, out1.len() as int);
            proof {
                lemma_suffix(out0, out1, r1.unwrap().0);
            }
            assert(out1 =~= out0 + o1);
            hoist_statement(&**body, scope, hoist, Level::Below, ini, ids, out);
            proof {
                lemma_tracks_then(o1, hoist_stmt(**body, st1, hoist, Level::Below, *ini), out0, out1, out@, scope.own_mutables(), *ids);
            }
        },
        JsStmt::ForIn { left, body, .. } => {
            match left {
                ForHead::Var(vd) => hoist_var_declaration(vd, scope, hoist, Level::Below, ini, ids, out),
                _ => {
                    assert(out@ =~= out@ + Seq::<Stmt>::empty());
                },
            }
            let ghost r1 = match left {
                ForHead::Var(vd) => hoist_var(*vd, st0, hoist, Level::Below, *ini),
                _ => Some((Seq::<Stmt>::empty(), st0)),
            };
            let ghost out1 = out@;
            let ghost st1 = hst(*scope, *ids);
            let ghost o1 = out1.subrange(out0.len() as int, out1.len() as int);
            proof {
                lemma_suffix(out0, out1, r1.unwrap().0);
            }
            assert(out1 =~= out0 + o1);
            hoist_statement(&**body, scope, hoist, Level::Below, ini, ids, out);
            proof {
                lemma_tracks_then(o1, hoist_stmt(**body, st1, hoist, Level::Below, *ini), out0, out1, out@, scope.own_mutables(), *ids);
            }
        },
        JsStmt::ForOf { left, body, .. } => {
            match left {
                ForHead::Var(vd) => hoist_var_declaration(vd, scope, hoist, Level::Below, ini, ids, out),
                _ => {
                    assert(out@ =~= out@ + Seq::<Stmt>::empty());
                },
            }
            let ghost r1 = match left {
                ForHead::Var(vd) => hoist_var(*vd, st0, hoist, Level::Below, *ini),
                _ => Some((Seq::<Stmt>::empty(), st0)),
            };
            let ghost out1 = out@;
            let ghost st1 = hst(*scope, *ids);
            let ghost o1 = out1.subrange(out0.len() as int, out1.len() as int);
            proof {
                lemma_suffix(out0, out1, r1.unwrap().0);
            }
            assert(out1 =~= out0 + o1);
            hoist_statement(&**body, scope, hoist, Level::Below, ini, ids, out);
            proof {
                lemma_tracks_then(o1, hoist_stmt(**body, st1, hoist, Level::Below, *ini), out0, out1, out@, scope.own_mutables(), *ids);
            }
        },
        JsStmt::FnDecl { name, .. } => {
            if hoist == Hoist::Everything {
                declare_hoisted(scope, name.clone(), ini, ids, out);
            } else {
                assert(out@ =~= out@ + Seq::<Stmt>::empty());
            }
        },
        JsStmt::Var(vd) => hoist_var_declaration(vd, scope, hoist, level, ini, ids, out),
        _ => {
            assert(out@ =~= out@ + Seq::<Stmt>::empty());
        },
    }
}

/// Appends the declarations hoisted out of a block to `out`.
pub fn hoist_block_statements(
    ss: &Vec<JsStmt>,
    scope: &mut AstScope,
    hoist: Hoist,
    level: Level,
    ini: &String,
    ids: &mut u64,
    out: &mut Vec<Stmt>,
)
    requires
        hoist_block(ss@, hst(*old(scope), *old(ids)), hoist, level, *ini) is Some,
    ensures
        tracks(hoist_block(ss@, hst(*old(scope), *old(ids)), hoist, level, *ini), old(out)@, final(out)@, final(scope).own_mutables(), *final(ids)),
        final(scope).parent == old(scope).parent,
        final(scope).labels == old(scope).labels,
    decreases ss@, 2nat,
{
    if hoist == Hoist::OnlyLetConst && level == Level::Below {
        assert(out@ =~= out@ + Seq::<Stmt>::empty());
    } else {
        hoist_each_statement(ss, scope, hoist, level, ini, ids, out);
    }
}

fn hoist_each_statement(
    ss: &Vec<JsStmt>,
    scope: &mut AstScope,
    hoist: Hoist,
    level: Level,
    ini: &String,
    ids: &mut u64,
    out: &mut Vec<Stmt>,
)
    requires
        hoist_each(ss@, hst(*old(scope), *old(ids)), hoist, level, *ini) is Some,
    ensures
        tracks(hoist_each(ss@, hst(*old(scope), *old(ids)), hoist, level, *ini), old(out)@, final(out)@, final(scope).own_mutables(), *final(ids)),
        final(scope).parent == old(scope).parent,
        final(scope).labels == old(scope).labels,
    decreases ss@, 1nat,
{
    let ghost st0 = hst(*scope, *ids);
    let ghost out0 = out@;
    let ghost parent0 = scope.parent;
    let ghost labels0 = scope.labels;
    assert(out0 =~= out0 + Seq::<Stmt>::empty());
    let mut i: usize = 0;
    while i < ss.len()
        invariant
            i <= ss@.len(),
            hoist_each(ss@, st0, hoist, level, *ini) is Some,
            tracks(hoist_each(ss@.take(i as int), st0, hoist, level, *ini), out0, out@, scope.own_mutables(), *ids),
            scope.parent == parent0,
            scope.labels == labels0,
        decreases ss.len() - i,
    {
        proof {
            assert(ss@.take(i + 1).drop_last() =~= ss@.take(i as int));
            lemma_each_prefix(ss@, st0, hoist, level, *ini, i + 1);
        }
        let ghost out1 = out@;
        let ghost st1 = hst(*scope, *ids);
        let ghost o1 = hoist_each(ss@.take(i as int), st0, hoist, level, *ini).unwrap().0;
        hoist_statement(&ss[i], scope, hoist, level, ini, ids, out);
        proof {
            lemma_tracks_then(o1, hoist_stmt(ss@[i as int], st1, hoist, level, *ini), out0, out1, out@, scope.own_mutables(), *ids);
        }
        i += 1;
    }
    proof {
        assert(ss@.take(ss@.len() as int) =~= ss@);
    }
}

fn hoist_case_statements(
    cs: &Vec<(Option<crate::ast::JsExpr>, Vec<JsStmt>)>,
    scope: &mut AstScope,
    hoist: Hoist,
    ini: &String,
    ids: &mut u64,
    out: &mut Vec<Stmt>,
)
    requires
        hoist_cases(cs@, hst(*old(scope), *old(ids)), hoist, *ini) is Some,
    ensures
        tracks(hoist_cases(cs@, hst(*old(scope), *old(ids)), hoist, *ini), old(out)@, final(out)@, final(scope).own_mutables(), *final(ids)),
        final(scope).parent == old(scope).parent,
        final(scope).labels == old(scope).labels,
    decreases cs@, 1nat,
{
    let ghost st0 = hst(*scope, *ids);
    let ghost out0 = out@;
    let ghost parent0 = scope.parent;
    let ghost labels0 = scope.labels;
    assert(out0 =~= out0 + Seq::<Stmt>::empty());
    let mut i: usize = 0;
    while i < cs.len()
        invariant
            i <= cs@.len(),
            hoist_cases(cs@, st0, hoist, *ini) is Some,
            tracks(hoist_cases(cs@.take(i as int), st0, hoist, *ini), out0, out@, scope.own_mutables(), *ids),
            scope.parent == parent0,
            scope.labels == labels0,
        decreases cs.len() - i,
    {
        proof {
            assert(cs@.take(i + 1).drop_last() =~= cs@.take(i as int));
            lemma_cases_prefix(cs@, st0, hoist, *ini, i + 1);
        }
        let ghost out1 = out@;
        let ghost st1 = hst(*scope, *ids);
        let ghost o1 = hoist_cases(cs@.take(i as int), st0, hoist, *ini).unwrap().0;
        hoist_each_statement(&cs[i].1, scope, hoist, Level::Below, ini, ids, out);
        proof {
            lemma_tracks_then(o1, hoist_each(cs@[i as int].1@, st1, hoist, Level::Below, *ini), out0, out1, out@, scope.own_mutables(), *ids);
        }
        i += 1;
    }
    proof {
        assert(cs@.take(cs@.len() as int) =~= cs@);
    }
}


/// Hoists the declarations of a function or program body: appends to the returned statements
/// the hoisted bindings, each declared with an `undefined` initial value (an SSA value named
/// `_ini`), and declares them in `scope`, handing out ids from `ids`. Declaring a name twice
/// in one scope is left out by `requires`.
pub fn hoist_vars(block: &Vec<JsStmt>, scope: &mut AstScope, hoist: Hoist, ids: &mut u64) -> (r: Vec<Stmt>)
    requires
        forall|ini: String|
            #![trigger hoist_block(block@, hst(*old(scope), *old(ids)), hoist, Level::First, ini)]
            ini@ == "_ini"@ ==> hoist_block(block@, hst(*old(scope), *old(ids)), hoist, Level::First, ini) is Some,
    ensures
        exists|ini: String|
            #![trigger hoist_block(block@, hst(*old(scope), *old(ids)), hoist, Level::First, ini)]
            ini@ == "_ini"@ && tracks(
                hoist_block(block@, hst(*old(scope), *old(ids)), hoist, Level::First, ini),
                Seq::empty(),
                r@,
                final(scope).own_mutables(),
                *final(ids),
            ),
        final(scope).parent == old(scope).parent,
        final(scope).labels == old(scope).labels,
{
    let ini = String::from_str("_ini");
    let mut out: Vec<Stmt> = Vec::new();
    let ghost st0 = hst(*scope, *ids);
    assert(hoist_block(block@, st0, hoist, Level::First, ini) is Some);
    hoist_block_statements(block, scope, hoist, Level::First, &ini, ids, &mut out);
    assert(Seq::<Stmt>::empty() + out@ =~= out@);
    out
}

/// A function declaration, directly or under labels.
pub open spec fn is_fn_decl(s: JsStmt) -> bool {
    match s {
        JsStmt::FnDecl { .. } => true,
        JsStmt::Labeled { body, .. } => *body is FnDecl,
        _ => false,
    }
}

/// The statements of `ss` that `keep` selects, in order: the function declarations, or the
/// others.
pub open spec fn select_fn_decls(ss: Seq<JsStmt>, keep: bool) -> Seq<JsStmt>
    decreases ss.len(),
{
    if ss.len() == 0 {
        ss
    } else if is_fn_decl(ss.last()) == keep {
        select_fn_decls(ss.drop_last(), keep).push(ss.last())
    } else {
        select_fn_decls(ss.drop_last(), keep)
    }
}

fn is_fn_declaration(s: &JsStmt) -> (r: bool)
    ensures
        r == is_fn_decl(*s),
{
    match s {
        JsStmt::FnDecl { .. } => true,
        JsStmt::Labeled { body, .. } => match &**body {
            JsStmt::FnDecl { .. } => true,
            _ => false,
        },
        _ => false,
    }
}

/// Moves the function declarations of a body (also those under a label) before its other
/// statements, keeping the order within each group.
pub fn hoist_fn_decls(block: &mut Vec<JsStmt>)
    ensures
        final(block)@ == select_fn_decls(old(block)@, true) + select_fn_decls(old(block)@, false),
{
    let ghost orig = block@;
    let mut rest: Vec<JsStmt> = Vec::new();
    std::mem::swap(&mut rest, block);
    let mut fns: Vec<JsStmt> = Vec::new();
    let mut others: Vec<JsStmt> = Vec::new();
    let ghost mut i: int = 0;
    while rest.len() > 0
        invariant
            0 <= i <= orig.len(),
            rest@ == orig.skip(i),
            fns@ == select_fn_decls(orig.take(i), true),
            others@ == select_fn_decls(orig.take(i), false),
        decreases rest.len(),
    {
        proof {
            assert(orig.take(i + 1).drop_last() =~= orig.take(i));
            assert(orig.take(i + 1).last() == orig[i]);
        }
        let s = rest.remove(0);
        if is_fn_declaration(&s) {
            fns.push(s);
        } else {
            others.push(s);
        }
        proof {
            i = i + 1;
            assert(rest@ =~= orig.skip(i));
        }
    }
    proof {
        assert(orig.take(i) =~= orig);
    }
    fns.append(&mut others);
    *block = fns;
}

} // verus!
