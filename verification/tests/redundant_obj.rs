use lib::ir::{Block, CallKind, Expr, Ref, Stmt, SSA};
use lib::opt::redundant_obj::LoadStore;
use lib::print::print;

fn r(id: u64, name: &str) -> Ref<SSA> {
    Ref::new(id, name.to_string())
}

fn fmt_num(bits: u64) -> String {
    f64::from_bits(bits).to_string()
}

fn string(t: &Ref<SSA>, v: &str) -> Stmt {
    Stmt::Expr { target: t.duplicate(), expr: Expr::String { value: v.to_string() } }
}

fn global(t: &Ref<SSA>, name: &str) -> Stmt {
    Stmt::Expr { target: t.duplicate(), expr: Expr::ReadGlobal { source: name.to_string() } }
}

fn read_member(t: &Ref<SSA>, obj: &Ref<SSA>, prop: &Ref<SSA>) -> Stmt {
    Stmt::Expr { target: t.duplicate(), expr: Expr::ReadMember { obj: obj.duplicate(), prop: prop.duplicate() } }
}

fn write_global(name: &str, val: &Ref<SSA>) -> Stmt {
    Stmt::WriteGlobal { target: name.to_string(), val: val.duplicate() }
}

fn call(t: Ref<SSA>, f: &Ref<SSA>, args: Vec<Ref<SSA>>) -> Stmt {
    Stmt::Expr {
        target: t,
        expr: Expr::Call {
            kind: CallKind::Call,
            base: f.duplicate(),
            prop: None,
            args: args.into_iter().map(|a| (lib::ir::EleKind::Single, a)).collect(),
        },
    }
}

#[test]
fn redundant_obj_read_to_read() {
    let (o, f, p1, v1, p2, v2) = (r(1, "something"), r(2, "_fun"), r(3, "_prp"), r(4, "_val"), r(5, "_prp"), r(6, "_val"));
    let ir = Block(vec![
        Stmt::Expr { target: o.duplicate(), expr: Expr::Object { props: vec![] } },
        global(&f, "foo"),
        call(Ref::dead(20), &f, vec![]),
        string(&p1, "x"),
        read_member(&v1, &o, &p1),
        write_global("g1", &v1),
        string(&p2, "x"),
        read_member(&v2, &o, &p2),
        write_global("g2", &v2),
    ]);
    let ir = LoadStore::run(ir);
    assert_eq!(
        print(&ir, &fmt_num),
        "something = {  }\n_fun = <global foo>\n<dead> = _fun()\n_prp = \"x\"\n_val = something[_prp]\n<global g1> <- _val\n<dead> = \"x\"\n_val$1 = _val\n<global g2> <- _val$1"
    );
}

#[test]
fn redundant_obj_write_to_read() {
    let (o, f, p1, v1, p2, v2) = (r(1, "something"), r(2, "_fun"), r(3, "_prp"), r(4, "_val"), r(5, "_prp"), r(6, "_val"));
    let ir = Block(vec![
        Stmt::Expr { target: o.duplicate(), expr: Expr::Object { props: vec![] } },
        global(&f, "foo"),
        call(Ref::dead(20), &f, vec![o.duplicate()]),
        string(&p1, "x"),
        global(&v1, "x"),
        Stmt::WriteMember { obj: o.duplicate(), prop: p1.duplicate(), val: v1.duplicate() },
        string(&p2, "x"),
        read_member(&v2, &o, &p2),
        write_global("g", &v2),
    ]);
    let ir = LoadStore::run(ir);
    assert_eq!(
        print(&ir, &fmt_num),
        "something = {  }\n_fun = <global foo>\n<dead> = _fun(something)\n_prp = \"x\"\n_val = <global x>\nsomething[_prp] <- _val\n<dead> = \"x\"\n_val$1 = _val\n<global g> <- _val$1"
    );
}

#[test]
fn redundant_obj_write_to_write() {
    let (o, f, p1, v1, p2, v2) = (r(1, "something"), r(2, "_fun"), r(3, "_prp"), r(4, "_val"), r(5, "_prp"), r(6, "_val"));
    let ir = Block(vec![
        Stmt::Expr { target: o.duplicate(), expr: Expr::Object { props: vec![] } },
        global(&f, "foo"),
        call(Ref::dead(20), &f, vec![o.duplicate()]),
        string(&p1, "x"),
        global(&v1, "x"),
        Stmt::WriteMember { obj: o.duplicate(), prop: p1.duplicate(), val: v1.duplicate() },
        string(&p2, "x"),
        global(&v2, "y"),
        Stmt::WriteMember { obj: o.duplicate(), prop: p2.duplicate(), val: v2.duplicate() },
    ]);
    let ir = LoadStore::run(ir);
    assert_eq!(
        print(&ir, &fmt_num),
        "something = {  }\n_fun = <global foo>\n<dead> = _fun(something)\n<dead> = \"x\"\n<dead> = <global x>\n_prp = \"x\"\n_val = <global y>\nsomething[_prp] <- _val"
    );
}

#[test]
fn redundant_obj_different_props() {
    let (o, f, p1, v1, p2, v2) = (r(1, "something"), r(2, "_fun"), r(3, "_prp"), r(4, "_val"), r(5, "_prp"), r(6, "_val"));
    let ir = Block(vec![
        Stmt::Expr { target: o.duplicate(), expr: Expr::Object { props: vec![] } },
        global(&f, "foo"),
        call(Ref::dead(20), &f, vec![]),
        string(&p1, "x"),
        read_member(&v1, &o, &p1),
        write_global("g1", &v1),
        string(&p2, "y"),
        read_member(&v2, &o, &p2),
        write_global("g2", &v2),
    ]);
    let ir = LoadStore::run(ir);
    assert_eq!(
        print(&ir, &fmt_num),
        "something = {  }\n_fun = <global foo>\n<dead> = _fun()\n_prp = \"x\"\n_val = something[_prp]\n<global g1> <- _val\n_prp$1 = \"y\"\n_val$1 = something[_prp$1]\n<global g2> <- _val$1"
    );
}

#[test]
fn redundant_obj_no_forwarding_past_call() {
    // a call may change the property: the second read stays
    let (o, f, p1, v1, p2, v2) = (r(1, "something"), r(2, "_fun"), r(3, "_prp"), r(4, "_val"), r(5, "_prp"), r(6, "_val"));
    let ir = Block(vec![
        Stmt::Expr { target: o.duplicate(), expr: Expr::Object { props: vec![] } },
        global(&f, "foo"),
        string(&p1, "x"),
        read_member(&v1, &o, &p1),
        write_global("g1", &v1),
        call(Ref::dead(20), &f, vec![]),
        string(&p2, "x"),
        read_member(&v2, &o, &p2),
        write_global("g2", &v2),
    ]);
    let ir = LoadStore::run(ir);
    assert_eq!(
        print(&ir, &fmt_num),
        "something = {  }\n_fun = <global foo>\n_prp = \"x\"\n_val = something[_prp]\n<global g1> <- _val\n<dead> = _fun()\n_prp$1 = \"x\"\n_val$1 = something[_prp$1]\n<global g2> <- _val$1"
    );
}

#[test]
fn redundant_obj_accessor_invalidates() {
    // an object literal with a getter may run code: nothing known survives it
    let (o, p1, v1, k, f, o2, p2, v2) =
        (r(1, "something"), r(2, "_prp"), r(3, "_val"), r(4, "_key"), r(5, "_fun"), r(6, "other"), r(7, "_prp"), r(8, "_val"));
    let ir = Block(vec![
        Stmt::Expr { target: o.duplicate(), expr: Expr::Object { props: vec![] } },
        string(&p1, "x"),
        read_member(&v1, &o, &p1),
        write_global("g1", &v1),
        string(&k, "y"),
        global(&f, "f"),
        Stmt::Expr {
            target: o2.duplicate(),
            expr: Expr::Object { props: vec![(lib::ir::PropKind::Getter, k.duplicate(), f.duplicate())] },
        },
        write_global("g3", &o2),
        string(&p2, "x"),
        read_member(&v2, &o, &p2),
        write_global("g2", &v2),
    ]);
    let ir = LoadStore::run(ir);
    assert_eq!(
        print(&ir, &fmt_num),
        "something = {  }\n_prp = \"x\"\n_val = something[_prp]\n<global g1> <- _val\n_key = \"y\"\n_fun = <global f>\nother = { <get> [_key]: _fun }\n<global g3> <- other\n_prp$1 = \"x\"\n_val$1 = something[_prp$1]\n<global g2> <- _val$1"
    );
}
