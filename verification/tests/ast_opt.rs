use lib::ast::{AssignOp, AssignTarget, JsExpr, JsFunction, JsStmt, VarDecl, VarKind};
use lib::ast_opt::{If2Cond, MergeVars, ResugarLoops};
use lib::ir::BinaryOp;

fn id(n: &str) -> JsExpr {
    JsExpr::Ident(n.to_string())
}

fn num(bits_of: f64) -> JsExpr {
    JsExpr::Number(bits_of.to_bits())
}

fn assign_op(op: AssignOp, name: &str, value: JsExpr) -> JsStmt {
    JsStmt::Expr(JsExpr::Assign { op, left: AssignTarget::Name(name.to_string()), right: Box::new(value) })
}

fn assign(name: &str, value: JsExpr) -> JsStmt {
    assign_op(AssignOp::Assign, name, value)
}

fn call(name: &str) -> JsExpr {
    JsExpr::Call { callee: Box::new(id(name)), args: vec![] }
}

fn if_else(test: JsExpr, cons: JsStmt, alt: JsStmt) -> JsStmt {
    JsStmt::If { test, cons: Box::new(cons), alt: Some(Box::new(alt)) }
}

fn decl(kind: VarKind, decls: Vec<(&str, Option<JsExpr>)>) -> JsStmt {
    JsStmt::Var(VarDecl { kind, decls: decls.into_iter().map(|(n, e)| (n.to_string(), e)).collect() })
}

fn var_x() -> JsStmt {
    decl(VarKind::Var, vec![("x", None)])
}

fn if2cond(prog: Vec<JsStmt>) -> Vec<JsStmt> {
    If2Cond.fold_stmts(prog)
}

#[test]
fn if2cond_basic() {
    let out = if2cond(vec![var_x(), if_else(id("foo"), assign("x", num(1.0)), assign("x", num(2.0)))]);
    let expected = vec![
        var_x(),
        assign(
            "x",
            JsExpr::Cond { test: Box::new(id("foo")), cons: Box::new(num(1.0)), alt: Box::new(num(2.0)) },
        ),
    ];
    assert_eq!(out, expected);
}

#[test]
fn if2cond_bail_different_var() {
    let prog = || vec![var_x(), if_else(id("foo"), assign("x", num(1.0)), assign("y", num(2.0)))];
    assert_eq!(if2cond(prog()), prog());
}

#[test]
fn if2cond_bail_multiple_exprs() {
    let prog = || {
        vec![
            var_x(),
            if_else(
                id("foo"),
                JsStmt::Block(vec![assign("x", num(1.0)), JsStmt::Expr(call("foo"))]),
                assign("x", num(2.0)),
            ),
        ]
    };
    assert_eq!(if2cond(prog()), prog());
}

#[test]
fn if2cond_bail_comma() {
    let prog = || {
        vec![
            var_x(),
            if_else(
                id("foo"),
                JsStmt::Expr(JsExpr::Sequence(vec![
                    JsExpr::Assign {
                        op: AssignOp::Assign,
                        left: AssignTarget::Name("x".to_string()),
                        right: Box::new(num(1.0)),
                    },
                    call("foo"),
                ])),
                assign("x", num(2.0)),
            ),
        ]
    };
    assert_eq!(if2cond(prog()), prog());
}

#[test]
fn if2cond_bail_special_op() {
    let prog = || {
        vec![
            var_x(),
            if_else(id("foo"), assign_op(AssignOp::Compound(BinaryOp::Add), "x", num(1.0)), assign("x", num(2.0))),
        ]
    };
    assert_eq!(if2cond(prog()), prog());
    let prog2 = || {
        vec![
            var_x(),
            if_else(id("foo"), assign("x", num(1.0)), assign_op(AssignOp::Compound(BinaryOp::Add), "x", num(2.0))),
        ]
    };
    assert_eq!(if2cond(prog2()), prog2());
}

#[test]
fn if2cond_nested_inside_function_expression() {
    let inner = || if_else(id("c"), assign("x", num(1.0)), assign("x", num(2.0)));
    let prog = vec![JsStmt::Expr(JsExpr::Function {
        name: None,
        function: JsFunction { params: vec![], body: vec![inner()], is_async: false, is_generator: false },
    })];
    let out = if2cond(prog);
    match &out[0] {
        JsStmt::Expr(JsExpr::Function { function, .. }) => {
            assert!(matches!(&function.body[0], JsStmt::Expr(JsExpr::Assign { .. })));
        }
        _ => panic!("function expression expected"),
    }
}

#[test]
fn merge_vars_basic() {
    let prog = vec![
        decl(VarKind::Var, vec![("x", None)]),
        decl(VarKind::Var, vec![("y", None)]),
        decl(VarKind::Var, vec![("z", None)]),
        decl(VarKind::Let, vec![("a", None)]),
        decl(VarKind::Let, vec![("b", None)]),
        decl(VarKind::Let, vec![("c", None)]),
        decl(VarKind::Const, vec![("d", None)]),
        decl(VarKind::Const, vec![("e", None)]),
        decl(VarKind::Const, vec![("f", None)]),
    ];
    let expected = vec![
        decl(VarKind::Var, vec![("x", None), ("y", None), ("z", None)]),
        decl(VarKind::Let, vec![("a", None), ("b", None), ("c", None)]),
        decl(VarKind::Const, vec![("d", None), ("e", None), ("f", None)]),
    ];
    assert_eq!(MergeVars.fold_stmts(prog), expected);
}

#[test]
fn merge_vars_basic_values() {
    let prog = vec![
        decl(VarKind::Var, vec![("x", None)]),
        decl(VarKind::Var, vec![("y", Some(num(1.0)))]),
        decl(VarKind::Var, vec![("z", None)]),
        decl(VarKind::Let, vec![("a", None)]),
        decl(VarKind::Let, vec![("b", Some(num(2.0)))]),
        decl(VarKind::Let, vec![("c", None)]),
    ];
    let expected = vec![
        decl(VarKind::Var, vec![("x", None), ("y", Some(num(1.0))), ("z", None)]),
        decl(VarKind::Let, vec![("a", None), ("b", Some(num(2.0))), ("c", None)]),
    ];
    assert_eq!(MergeVars.fold_stmts(prog), expected);
}

#[test]
fn merge_vars_inner_scopes() {
    let prog = vec![JsStmt::If {
        test: id("foo"),
        cons: Box::new(JsStmt::Block(vec![
            decl(VarKind::Var, vec![("a", None)]),
            decl(VarKind::Var, vec![("b", Some(num(1.0)))]),
        ])),
        alt: None,
    }];
    let expected = vec![JsStmt::If {
        test: id("foo"),
        cons: Box::new(JsStmt::Block(vec![decl(VarKind::Var, vec![("a", None), ("b", Some(num(1.0)))])])),
        alt: None,
    }];
    assert_eq!(MergeVars.fold_stmts(prog), expected);
}

#[test]
fn merge_vars_inner_fn_scopes() {
    let f = |body: Vec<JsStmt>| JsStmt::FnDecl {
        name: "foo".to_string(),
        function: JsFunction { params: vec![], body, is_async: false, is_generator: false },
    };
    let prog = vec![f(vec![decl(VarKind::Var, vec![("a", None)]), decl(VarKind::Var, vec![("b", Some(num(1.0)))])])];
    let expected = vec![f(vec![decl(VarKind::Var, vec![("a", None), ("b", Some(num(1.0)))])])];
    assert_eq!(MergeVars.fold_stmts(prog), expected);
}

#[test]
fn merge_vars_bail_nondecl() {
    let prog = || {
        vec![
            decl(VarKind::Var, vec![("a", None)]),
            JsStmt::Expr(call("foo")),
            decl(VarKind::Var, vec![("b", Some(num(1.0)))]),
        ]
    };
    assert_eq!(MergeVars.fold_stmts(prog()), prog());
}

#[test]
fn merge_vars_bail_different_types() {
    let prog = || {
        vec![
            decl(VarKind::Var, vec![("x", None)]),
            decl(VarKind::Let, vec![("y", None)]),
            decl(VarKind::Const, vec![("z", None)]),
            decl(VarKind::Var, vec![("a", None)]),
        ]
    };
    assert_eq!(MergeVars.fold_stmts(prog()), prog());
}

fn guard(test: JsExpr) -> JsStmt {
    if_else(test, JsStmt::Empty, JsStmt::Break(None))
}

fn lt(a: JsExpr, b: JsExpr) -> JsExpr {
    JsExpr::Binary { op: BinaryOp::Lt, left: Box::new(a), right: Box::new(b) }
}

fn a_len() -> JsExpr {
    lt(id("a"), JsExpr::Member { obj: Box::new(id("A")), prop: Box::new(JsExpr::Str("length".to_string())) })
}

fn a_inc() -> JsStmt {
    assign_op(AssignOp::Compound(BinaryOp::Add), "a", num(1.0))
}

fn for_loop(test: Option<JsExpr>, body: Vec<JsStmt>) -> JsStmt {
    JsStmt::For { init: None, test, update: None, body: Box::new(JsStmt::Block(body)) }
}

#[test]
fn resugar_loops_basic() {
    let prog = vec![for_loop(None, vec![guard(a_len()), a_inc()])];
    let expected = vec![for_loop(Some(a_len()), vec![a_inc()])];
    assert_eq!(ResugarLoops.fold_stmts(prog), expected);
}

#[test]
fn resugar_loops_nested() {
    let b_len = || lt(id("b"), JsExpr::Member { obj: Box::new(id("B")), prop: Box::new(JsExpr::Str("length".to_string())) });
    let b_inc = || assign_op(AssignOp::Compound(BinaryOp::Add), "b", num(1.0));
    let prog = vec![for_loop(None, vec![guard(a_len()), a_inc(), for_loop(None, vec![guard(b_len()), b_inc()])])];
    let expected = vec![for_loop(Some(a_len()), vec![a_inc(), for_loop(Some(b_len()), vec![b_inc()])])];
    assert_eq!(ResugarLoops.fold_stmts(prog), expected);
}

#[test]
fn resugar_loops_bail_existing_test() {
    let prog = || vec![for_loop(Some(lt(id("b"), num(1.0))), vec![guard(a_len()), a_inc()])];
    assert_eq!(ResugarLoops.fold_stmts(prog()), prog());
}

#[test]
fn resugar_loops_bail_labelled() {
    let prog = || {
        vec![JsStmt::Labeled {
            label: "outer".to_string(),
            body: Box::new(for_loop(
                None,
                vec![for_loop(
                    None,
                    vec![if_else(a_len(), JsStmt::Empty, JsStmt::Break(Some("outer".to_string()))), a_inc()],
                )],
            )),
        }]
    };
    assert_eq!(ResugarLoops.fold_stmts(prog()), prog());
}

#[test]
fn resugar_loops_bail_consequent() {
    let prog = || vec![for_loop(None, vec![if_else(a_len(), JsStmt::Expr(call("log")), JsStmt::Break(None)), a_inc()])];
    assert_eq!(ResugarLoops.fold_stmts(prog()), prog());
}

#[test]
fn resugar_loops_bail_alternate() {
    let prog = || vec![for_loop(None, vec![if_else(a_len(), JsStmt::Empty, JsStmt::Expr(call("log"))), a_inc()])];
    assert_eq!(ResugarLoops.fold_stmts(prog()), prog());
}

#[test]
fn resugar_loops_for_stmt_directly() {
    let out = ResugarLoops.fold_for_stmt(for_loop(None, vec![guard(id("c"))]));
    assert_eq!(out, for_loop(Some(id("c")), vec![]));
}
