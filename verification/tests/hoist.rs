use lib::ast::{AstScope, JsExpr, JsFunction, JsStmt, VarDecl, VarKind};
use lib::hoist::{hoist_fn_decls, hoist_vars, Hoist};
use lib::ir::{Expr, Stmt};

fn s(x: &str) -> String {
    x.to_string()
}

fn var(kind: VarKind, names: &[&str]) -> JsStmt {
    JsStmt::Var(VarDecl { kind, decls: names.iter().map(|n| (s(n), None)).collect() })
}

fn func(name: &str) -> JsStmt {
    JsStmt::FnDecl {
        name: s(name),
        function: JsFunction { params: vec![], body: vec![], is_async: false, is_generator: false },
    }
}

fn call(name: &str) -> JsStmt {
    JsStmt::Expr(JsExpr::Call { callee: Box::new(JsExpr::Ident(s(name))), args: vec![] })
}

/// The names declared by a hoisted statement list, checking its shape: pairs of an
/// `undefined` value named `_ini` and the declaration that takes it.
fn declared(out: &[Stmt]) -> Vec<String> {
    assert_eq!(out.len() % 2, 0);
    let mut names = vec![];
    for pair in out.chunks(2) {
        match (&pair[0], &pair[1]) {
            (Stmt::Expr { target, expr: Expr::Undefined }, Stmt::DeclareMutable { target: v, val }) => {
                assert_eq!(target.name_hint, "_ini");
                assert_eq!(val.id, target.id);
                names.push(v.name_hint.clone());
            }
            _ => panic!("unexpected hoisted statement"),
        }
    }
    names
}

#[test]
fn hoist_vars_and_functions_everywhere() {
    let block = vec![
        var(VarKind::Var, &["a"]),
        JsStmt::If {
            test: JsExpr::Ident(s("c")),
            cons: Box::new(JsStmt::Block(vec![var(VarKind::Var, &["b", "a"])])),
            alt: Some(Box::new(func("f"))),
        },
        var(VarKind::Let, &["l"]),
        call("g"),
    ];
    let mut scope = AstScope::new();
    let mut ids: u64 = 10;
    let out = hoist_vars(&block, &mut scope, Hoist::Everything, &mut ids);
    assert_eq!(declared(&out), vec![s("a"), s("b"), s("f")]);
    // each hoisted binding takes two ids, the reserved `let` one
    assert_eq!(ids, 17);
    assert_eq!(scope.get_mutable_in_current(&s("a")).unwrap().id, 10);
    assert_eq!(scope.get_mutable_in_current(&s("b")).unwrap().id, 12);
    assert_eq!(scope.get_mutable_in_current(&s("f")).unwrap().id, 14);
    assert_eq!(scope.get_mutable_in_current(&s("l")).unwrap().id, 16);
}

#[test]
fn hoist_only_let_const_reserves_top_level_names() {
    let block = vec![
        var(VarKind::Var, &["a"]),
        var(VarKind::Const, &["k"]),
        func("f"),
        JsStmt::Block(vec![var(VarKind::Let, &["inner"])]),
    ];
    let mut scope = AstScope::new();
    let mut ids: u64 = 0;
    let out = hoist_vars(&block, &mut scope, Hoist::OnlyLetConst, &mut ids);
    assert!(out.is_empty());
    assert_eq!(ids, 1);
    assert_eq!(scope.get_mutable_in_current(&s("k")).unwrap().id, 0);
    assert!(scope.get_mutable_in_current(&s("a")).is_none());
    assert!(scope.get_mutable_in_current(&s("f")).is_none());
    assert!(scope.get_mutable_in_current(&s("inner")).is_none());
}

#[test]
fn hoist_loops_switch_and_try() {
    let block = vec![
        JsStmt::For {
            init: Some(lib::ast::ForInit::Var(VarDecl { kind: VarKind::Var, decls: vec![(s("i"), None)] })),
            test: None,
            update: None,
            body: Box::new(var(VarKind::Var, &["x"])),
        },
        JsStmt::Switch {
            discriminant: JsExpr::Ident(s("d")),
            cases: vec![(None, vec![var(VarKind::Var, &["y"])])],
        },
        JsStmt::Try {
            block: vec![var(VarKind::Var, &["t"])],
            handler: Some((Some(s("e")), vec![var(VarKind::Var, &["h"])])),
            finalizer: Some(vec![var(VarKind::Var, &["z"])]),
        },
    ];
    let mut scope = AstScope::new();
    let mut ids: u64 = 0;
    let out = hoist_vars(&block, &mut scope, Hoist::Everything, &mut ids);
    assert_eq!(declared(&out), vec![s("i"), s("x"), s("y"), s("t"), s("h"), s("z")]);
    assert_eq!(ids, 12);
}

#[test]
fn hoist_var_already_declared_is_skipped() {
    let block = vec![var(VarKind::Var, &["a"]), var(VarKind::Var, &["a"])];
    let mut scope = AstScope::new();
    let mut ids: u64 = 0;
    let out = hoist_vars(&block, &mut scope, Hoist::Everything, &mut ids);
    assert_eq!(declared(&out), vec![s("a")]);
    assert_eq!(ids, 2);
}

#[test]
fn hoist_fn_decls_first_keeping_order() {
    let mut block = vec![
        call("a"),
        func("f"),
        JsStmt::Labeled { label: s("l"), body: Box::new(func("g")) },
        call("b"),
        func("h"),
    ];
    hoist_fn_decls(&mut block);
    let kinds: Vec<String> = block
        .iter()
        .map(|st| match st {
            JsStmt::FnDecl { name, .. } => name.clone(),
            JsStmt::Labeled { label, .. } => label.clone(),
            JsStmt::Expr(JsExpr::Call { callee, .. }) => match callee.as_ref() {
                JsExpr::Ident(n) => n.clone(),
                _ => panic!(),
            },
            _ => panic!(),
        })
        .collect();
    assert_eq!(kinds, vec![s("f"), s("l"), s("h"), s("a"), s("b")]);
}

#[test]
fn ast_scope_nested_lookup_and_labels() {
    let mut outer = AstScope::new();
    let mut ids: u64 = 0;
    let a = outer.declare_mutable(s("a"), &mut ids);
    let l = outer.declare_label(s("l"), &mut ids);
    assert_eq!((a.id, l.id, ids), (0, 1, 2));
    let mut inner = outer.nested();
    assert_eq!(inner.get_mutable(&s("a")).unwrap().id, 0);
    assert!(inner.get_mutable_in_current(&s("a")).is_none());
    let a2 = inner.declare_mutable(s("a"), &mut ids);
    assert_eq!(a2.id, 2);
    assert_eq!(inner.get_mutable(&s("a")).unwrap().id, 2);
    assert_eq!(inner.get_label(&s("l")).unwrap().id, 1);
    assert!(inner.get_label(&s("m")).is_none());
    assert!(inner.get_mutable(&s("b")).is_none());
}
