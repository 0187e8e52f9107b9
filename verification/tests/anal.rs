use std::collections::HashSet;

use lib::anal::fns::without_this;
use lib::anal::refs::used_in_only_one_fn_scope;
use lib::ir::{Block, Expr, FnKind, Ref, Stmt, SSA};

fn r(id: u64, name: &str) -> Ref<SSA> {
    Ref::new(id, name.to_string())
}

fn func(target: Ref<SSA>, kind: FnKind, body: Vec<Stmt>) -> Stmt {
    Stmt::Expr { target, expr: Expr::Function { kind, body: Block(body) } }
}

fn plain() -> FnKind {
    FnKind::Func { is_async: false, is_generator: false }
}

fn arrow() -> FnKind {
    FnKind::Arrow { is_async: false }
}

fn set(ids: &[u64]) -> HashSet<u64> {
    ids.iter().copied().collect()
}

#[test]
fn refs_basic() {
    let ir = Block(vec![
        Stmt::Expr { target: r(1, "x"), expr: Expr::Null },
        func(Ref::dead(10), plain(), vec![
            Stmt::Expr { target: r(2, "y"), expr: Expr::Null },
            Stmt::Expr { target: Ref::dead(11), expr: Expr::Read { source: r(2, "y") } },
        ]),
        Stmt::Expr { target: Ref::dead(12), expr: Expr::Read { source: r(1, "x") } },
    ]);
    assert_eq!(used_in_only_one_fn_scope(&ir), set(&[1, 2, 10, 11, 12]));
}

#[test]
fn refs_basic_bail() {
    let ir = Block(vec![
        Stmt::Expr { target: r(1, "x"), expr: Expr::Null },
        func(Ref::dead(10), plain(), vec![
            Stmt::Expr { target: Ref::dead(11), expr: Expr::Read { source: r(1, "x") } },
        ]),
        Stmt::Expr { target: Ref::dead(12), expr: Expr::Read { source: r(1, "x") } },
    ]);
    assert_eq!(used_in_only_one_fn_scope(&ir), set(&[10, 11, 12]));
}

#[test]
fn refs_bail_deep() {
    let ir = Block(vec![
        Stmt::Expr { target: r(1, "x"), expr: Expr::Null },
        func(Ref::dead(10), plain(), vec![
            func(Ref::dead(11), plain(), vec![
                Stmt::Expr { target: Ref::dead(12), expr: Expr::Read { source: r(1, "x") } },
            ]),
        ]),
    ]);
    assert_eq!(used_in_only_one_fn_scope(&ir), set(&[10, 11, 12]));
}

#[test]
fn refs_time_travel() {
    let ir = Block(vec![
        func(Ref::dead(10), plain(), vec![
            Stmt::Expr { target: Ref::dead(11), expr: Expr::Read { source: r(1, "x") } },
        ]),
        Stmt::Expr { target: r(1, "x"), expr: Expr::Null },
    ]);
    assert_eq!(used_in_only_one_fn_scope(&ir), set(&[10, 11]));
}

#[test]
fn fns_basic() {
    let ir = Block(vec![func(r(1, "x"), plain(), vec![
        Stmt::Expr { target: Ref::dead(10), expr: Expr::Null },
    ])]);
    assert_eq!(without_this(&ir), set(&[1]));
}

#[test]
fn fns_basic_bail() {
    let ir = Block(vec![func(r(1, "x"), plain(), vec![
        Stmt::Expr { target: Ref::dead(10), expr: Expr::This },
    ])]);
    assert_eq!(without_this(&ir), set(&[]));
}

#[test]
fn fns_bail_containing_arrow_this() {
    let ir = Block(vec![func(r(1, "x"), plain(), vec![func(r(2, "y"), arrow(), vec![
        Stmt::Expr { target: Ref::dead(10), expr: Expr::This },
    ])])]);
    assert_eq!(without_this(&ir), set(&[]));
}

#[test]
fn fns_partial_bail_containing_arrow_this() {
    let ir = Block(vec![func(r(1, "x"), plain(), vec![func(r(2, "y"), plain(), vec![
        func(r(3, "z"), arrow(), vec![Stmt::Expr { target: Ref::dead(10), expr: Expr::This }]),
    ])])]);
    assert_eq!(without_this(&ir), set(&[1]));
}

#[test]
fn fns_bail_containing_arrow_this_deep() {
    let ir = Block(vec![func(r(1, "x"), plain(), vec![func(r(2, "y"), arrow(), vec![
        func(r(3, "z"), arrow(), vec![Stmt::Expr { target: Ref::dead(10), expr: Expr::This }]),
    ])])]);
    assert_eq!(without_this(&ir), set(&[]));
}
