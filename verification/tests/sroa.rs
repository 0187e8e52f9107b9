use lib::ir::{Block, CallKind, Expr, FnKind, PropKind, Ref, Stmt, SSA};
use lib::opt::sroa::Replace;
use lib::print::print;

fn r(id: u64, name: &str) -> Ref<SSA> {
    Ref::new(id, name.to_string())
}

fn fmt_num(bits: u64) -> String {
    f64::from_bits(bits).to_string()
}

fn string(t: &Ref<SSA>, v: &str) -> Stmt {
    Stmt::Expr { target: t.duplicate(), expr: Expr::String { value: v.to_string() } }
}

fn object(t: &Ref<SSA>, props: Vec<(&Ref<SSA>, &Ref<SSA>)>) -> Stmt {
    Stmt::Expr {
        target: t.duplicate(),
        expr: Expr::Object { props: props.into_iter().map(|(k, v)| (PropKind::Simple, k.duplicate(), v.duplicate())).collect() },
    }
}

fn function(t: &Ref<SSA>, body: Vec<Stmt>) -> Stmt {
    Stmt::Expr {
        target: t.duplicate(),
        expr: Expr::Function { kind: FnKind::Func { is_async: false, is_generator: false }, body: Block(body) },
    }
}

fn method_call(t: Ref<SSA>, obj: &Ref<SSA>, prop: &Ref<SSA>) -> Stmt {
    Stmt::Expr {
        target: t,
        expr: Expr::Call { kind: CallKind::Call, base: obj.duplicate(), prop: Some(prop.duplicate()), args: vec![] },
    }
}

#[test]
fn sroa_basic() {
    let (k1, v1, o, f) = (r(1, "_key"), r(2, "_val"), r(3, "something"), r(4, "_fun"));
    let (k2, v2, k3, v3) = (r(6, "_prp"), r(7, "_val"), r(8, "_prp"), r(9, "_val"));
    let ir = Block(vec![
        string(&k1, "x"),
        Stmt::Expr { target: v1.duplicate(), expr: Expr::Number { value: 1.0f64.to_bits() } },
        object(&o, vec![(&k1, &v1)]),
        Stmt::Expr { target: f.duplicate(), expr: Expr::ReadGlobal { source: "foo".to_string() } },
        Stmt::Expr {
            target: Ref::dead(5),
            expr: Expr::Call { kind: CallKind::Call, base: f.duplicate(), prop: None, args: vec![] },
        },
        string(&k2, "x"),
        Stmt::Expr { target: v2.duplicate(), expr: Expr::ReadMember { obj: o.duplicate(), prop: k2.duplicate() } },
        Stmt::WriteGlobal { target: "g1".to_string(), val: v2.duplicate() },
        string(&k3, "x"),
        Stmt::Expr { target: v3.duplicate(), expr: Expr::ReadGlobal { source: "g2".to_string() } },
        Stmt::WriteMember { obj: o.duplicate(), prop: k3.duplicate(), val: v3.duplicate() },
    ]);
    let ir = Replace::run(ir);
    assert_eq!(
        print(&ir, &fmt_num),
        "<dead> = \"x\"\n_val = 1\n<dead> = <void>\nx <= _val\n_fun = <global foo>\n<dead> = _fun()\n<dead> = \"x\"\n_val$1 = *x\n<global g1> <- _val$1\n<dead> = \"x\"\n_val$2 = <global g2>\nx <- _val$2"
    );
}

#[test]
fn sroa_unknown_prop() {
    let (o, k, v) = (r(1, "something"), r(2, "_prp"), r(3, "_val"));
    let ir = Block(vec![
        object(&o, vec![]),
        string(&k, "foo"),
        Stmt::Expr { target: v.duplicate(), expr: Expr::ReadMember { obj: o.duplicate(), prop: k.duplicate() } },
        Stmt::WriteGlobal { target: "g".to_string(), val: v.duplicate() },
    ]);
    let ir = Replace::run(ir);
    assert_eq!(print(&ir, &fmt_num), "_mis = <void>\nfoo <= _mis\n<dead> = \"foo\"\n_val = *foo\n<global g> <- _val");
}

#[test]
fn sroa_invalidate_escape() {
    let (k1, v1, o, c, k2, v2) = (r(1, "_key"), r(2, "_val"), r(3, "something"), r(4, "_iff"), r(5, "_prp"), r(6, "_val"));
    let ir = Block(vec![
        string(&k1, "x"),
        Stmt::Expr { target: v1.duplicate(), expr: Expr::Number { value: 1.0f64.to_bits() } },
        object(&o, vec![(&k1, &v1)]),
        Stmt::Expr { target: c.duplicate(), expr: Expr::ReadGlobal { source: "foo".to_string() } },
        Stmt::IfElse {
            cond: c.duplicate(),
            cons: Block(vec![Stmt::WriteGlobal { target: "g".to_string(), val: o.duplicate() }]),
            alt: Block(vec![]),
        },
        string(&k2, "x"),
        Stmt::Expr { target: v2.duplicate(), expr: Expr::ReadMember { obj: o.duplicate(), prop: k2.duplicate() } },
        Stmt::WriteGlobal { target: "g1".to_string(), val: v2.duplicate() },
    ]);
    let ir = Replace::run(ir);
    assert_eq!(
        print(&ir, &fmt_num),
        "_key = \"x\"\n_val = 1\nsomething = { [_key]: _val }\n_iff = <global foo>\n<if> _iff:\n    <global g> <- something\n<else>:\n    <empty>\n_prp = \"x\"\n_val$1 = something[_prp]\n<global g1> <- _val$1"
    );
}

#[test]
fn sroa_safe_call_receiver() {
    let (k, f, o, p) = (r(1, "_key"), r(2, "_val"), r(3, "something"), r(4, "_prp"));
    let ir = Block(vec![
        string(&k, "x"),
        function(&f, vec![]),
        object(&o, vec![(&k, &f)]),
        string(&p, "x"),
        method_call(Ref::dead(5), &o, &p),
    ]);
    let ir = Replace::run(ir);
    assert_eq!(
        print(&ir, &fmt_num),
        "<dead> = \"x\"\n_val = <function>:\n    <empty>\n<dead> = <void>\nx <= _val\n<dead> = \"x\"\nx$1 = *x\n<dead> = x$1()"
    );
}

#[test]
fn sroa_bail_call_receiver() {
    let (k, f, t, o, p) = (r(1, "_key"), r(2, "_val"), r(3, "_val"), r(4, "_obj"), r(5, "_prp"));
    let ir = Block(vec![
        string(&k, "x"),
        function(
            &f,
            vec![
                Stmt::Expr { target: t.duplicate(), expr: Expr::This },
                Stmt::WriteGlobal { target: "g".to_string(), val: t.duplicate() },
            ],
        ),
        object(&o, vec![(&k, &f)]),
        string(&p, "x"),
        method_call(Ref::dead(6), &o, &p),
    ]);
    let ir = Replace::run(ir);
    assert_eq!(
        print(&ir, &fmt_num),
        "_key = \"x\"\n_val = <function>:\n    _val$1 = <this>\n    <global g> <- _val$1\n_obj = { [_key]: _val }\n_prp = \"x\"\n<dead> = _obj[_prp]()"
    );
}

#[test]
fn sroa_repeated_prop_is_written() {
    // { x: a, x: b }: the second value overwrites the first
    let (k1, a, k2, b, o, p, v) = (r(1, "_key"), r(2, "a"), r(3, "_key"), r(4, "b"), r(5, "something"), r(6, "_prp"), r(7, "_val"));
    let ir = Block(vec![
        string(&k1, "x"),
        Stmt::Expr { target: a.duplicate(), expr: Expr::Null },
        string(&k2, "x"),
        Stmt::Expr { target: b.duplicate(), expr: Expr::Bool { value: true } },
        object(&o, vec![(&k1, &a), (&k2, &b)]),
        string(&p, "x"),
        Stmt::Expr { target: v.duplicate(), expr: Expr::ReadMember { obj: o.duplicate(), prop: p.duplicate() } },
        Stmt::Return { val: v.duplicate() },
    ]);
    let ir = Replace::run(ir);
    assert_eq!(
        print(&ir, &fmt_num),
        "<dead> = \"x\"\na = <null>\n<dead> = \"x\"\nb = true\n<dead> = <void>\nx <= a\nx <- b\n<dead> = \"x\"\n_val = *x\n<return> _val"
    );
}
