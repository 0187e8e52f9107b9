use lib::ir::{BinaryOp, Block, CallKind, EleKind, Expr, ForKind, FnKind, Mutable, PropKind, Ref, Stmt, UnaryOp, SSA};
use lib::opt::constant::{ConstProp, NumOp};
use lib::opt::dce::Dce;
use lib::opt::inline::Inline;
use lib::opt::mut2ssa::Mut2Ssa;
use lib::opt::redundant::LoadStore;
use lib::opt::run_passes;
use lib::opt::unroll::Loops;
use lib::opt::writeonly::Objects;
use lib::print::print;

fn r(id: u64, name: &str) -> Ref<SSA> {
    Ref::new(id, name.to_string())
}

fn m(id: u64, name: &str) -> Ref<Mutable> {
    Ref::new(id, name.to_string())
}

fn num(x: f64) -> Expr {
    Expr::Number { value: x.to_bits() }
}

fn fmt_num(bits: u64) -> String {
    f64::from_bits(bits).to_string()
}

fn to_i32(x: f64) -> i32 {
    if x.is_nan() || x.is_infinite() {
        0
    } else {
        (x.trunc() as i64) as i32
    }
}

fn js_num(op: NumOp, a: u64, b: u64) -> u64 {
    let x = f64::from_bits(a);
    let y = f64::from_bits(b);
    let flag = |c: bool| if c { 1u64 } else { 0u64 };
    match op {
        NumOp::FromLen => (a as f64).to_bits(),
        NumOp::Tilde => (!to_i32(x) as f64).to_bits(),
        NumOp::Eq => flag(x == y),
        NumOp::Lt => flag(x < y),
        NumOp::LtEq => flag(x <= y),
        NumOp::Gt => flag(x > y),
        NumOp::GtEq => flag(x >= y),
        NumOp::Shl => (to_i32(x).wrapping_shl(to_i32(y) as u32) as f64).to_bits(),
        NumOp::Shr => (to_i32(x).wrapping_shr(to_i32(y) as u32) as f64).to_bits(),
        NumOp::ShrZero => ((to_i32(x) as u32).wrapping_shr(to_i32(y) as u32) as f64).to_bits(),
        NumOp::Add => (x + y).to_bits(),
        NumOp::Sub => (x - y).to_bits(),
        NumOp::Mul => (x * y).to_bits(),
        NumOp::Div => (x / y).to_bits(),
        NumOp::Mod => (x % y).to_bits(),
        NumOp::BitOr => ((to_i32(x) | to_i32(y)) as f64).to_bits(),
        NumOp::BitXor => ((to_i32(x) ^ to_i32(y)) as f64).to_bits(),
        NumOp::BitAnd => ((to_i32(x) & to_i32(y)) as f64).to_bits(),
        NumOp::Exp => x.powf(y).to_bits(),
    }
}

fn add(t: Ref<SSA>, a: &Ref<SSA>, b: &Ref<SSA>) -> Stmt {
    Stmt::Expr { target: t, expr: Expr::Binary { op: BinaryOp::Add, left: a.duplicate(), right: b.duplicate() } }
}

#[test]
fn constant_typeof_sum() {
    // typeof (1 + 1 + 1 + 1)
    let (a, b, c, d, e, f, g, h) = (r(1, "a"), r(2, "b"), r(3, "c"), r(4, "d"), r(5, "e"), r(6, "f"), r(7, "g"), r(8, "h"));
    let ir = Block(vec![
        Stmt::Expr { target: a.duplicate(), expr: num(1.0) },
        Stmt::Expr { target: b.duplicate(), expr: num(1.0) },
        add(c.duplicate(), &a, &b),
        Stmt::Expr { target: d.duplicate(), expr: num(1.0) },
        add(e.duplicate(), &c, &d),
        Stmt::Expr { target: f.duplicate(), expr: num(1.0) },
        add(g.duplicate(), &e, &f),
        Stmt::Expr { target: h, expr: Expr::Unary { op: UnaryOp::Typeof, val: g } },
    ]);
    let ir = ConstProp::run(ir, &js_num);
    assert_eq!(
        print(&ir, &fmt_num),
        "<dead> = 1\n<dead> = 1\n<dead> = 2\n<dead> = 1\n<dead> = 3\n<dead> = 1\n<dead> = 4\n<dead> = \"number\""
    );
}

#[test]
fn constant_bails_on_null() {
    let (a, b, c, d) = (r(1, "_lhs"), r(2, "_rhs"), r(3, "x"), r(4, "y"));
    let ir = Block(vec![
        Stmt::Expr { target: a.duplicate(), expr: num(2.0) },
        Stmt::Expr { target: b.duplicate(), expr: Expr::Null },
        add(c.duplicate(), &a, &b),
        Stmt::Expr { target: d, expr: Expr::Unary { op: UnaryOp::Typeof, val: c } },
    ]);
    let ir = ConstProp::run(ir, &js_num);
    assert_eq!(print(&ir, &fmt_num), "_lhs = 2\n_rhs = <null>\nx = _lhs + _rhs\n<dead> = <typeof> x");
}

#[test]
fn constant_dead_if() {
    let (t, z) = (r(1, "t"), r(2, "z"));
    let ir = Block(vec![
        Stmt::Expr { target: t.duplicate(), expr: Expr::Bool { value: true } },
        Stmt::IfElse {
            cond: t,
            cons: Block(vec![Stmt::Expr { target: Ref::dead(10), expr: Expr::ReadGlobal { source: "good".to_string() } }]),
            alt: Block(vec![Stmt::Expr { target: Ref::dead(11), expr: Expr::ReadGlobal { source: "bad".to_string() } }]),
        },
        Stmt::Expr { target: z.duplicate(), expr: num(0.0) },
        Stmt::IfElse {
            cond: z,
            cons: Block(vec![Stmt::Expr { target: Ref::dead(12), expr: Expr::ReadGlobal { source: "bad".to_string() } }]),
            alt: Block(vec![Stmt::Expr { target: Ref::dead(13), expr: Expr::ReadGlobal { source: "good".to_string() } }]),
        },
    ]);
    let ir = ConstProp::run(ir, &js_num);
    assert_eq!(print(&ir, &fmt_num), "<dead> = true\n<dead> = <global good>\n<dead> = 0\n<dead> = <global good>");
}

#[test]
fn constant_magic_globals_and_length() {
    let (g1, g2, s, l, n) = (r(1, "nan"), r(2, "und"), r(3, "s"), r(4, "l"), r(5, "n"));
    let ir = Block(vec![
        Stmt::Expr { target: g1.duplicate(), expr: Expr::ReadGlobal { source: "NaN".to_string() } },
        Stmt::Expr { target: g2.duplicate(), expr: Expr::ReadGlobal { source: "undefined".to_string() } },
        Stmt::Expr { target: s.duplicate(), expr: Expr::String { value: "h\u{1F600}".to_string() } },
        Stmt::Expr { target: l.duplicate(), expr: Expr::String { value: "length".to_string() } },
        Stmt::Expr { target: n, expr: Expr::ReadMember { obj: s, prop: l } },
        Stmt::WriteGlobal { target: "g".to_string(), val: g1 },
        Stmt::WriteGlobal { target: "h".to_string(), val: g2 },
    ]);
    let ir = ConstProp::run(ir, &js_num);
    assert_eq!(
        print(&ir, &fmt_num),
        "nan = NaN\nund = <void>\n<dead> = \"h\u{1F600}\"\n<dead> = \"length\"\n<dead> = 3\n<global g> <- nan\n<global h> <- und"
    );
}

#[test]
fn dce_drops_after_jump_and_unused() {
    let (a, b) = (r(1, "a"), r(2, "b"));
    let ir = Block(vec![
        Stmt::Expr { target: a.duplicate(), expr: Expr::Null },
        Stmt::Expr { target: b.duplicate(), expr: Expr::Null },
        Stmt::Return { val: a },
        Stmt::Expr { target: Ref::dead(10), expr: Expr::ReadGlobal { source: "gone".to_string() } },
    ]);
    let ir = Dce::run(ir);
    assert_eq!(print(&ir, &fmt_num), "a = <null>\n<return> a");
}

#[test]
fn dce_converges() {
    // b is used only by c, which is unused: one pass drops c, the next drops b
    let (b, c) = (r(1, "b"), r(2, "c"));
    let ir = Block(vec![
        Stmt::Expr { target: b.duplicate(), expr: Expr::Null },
        Stmt::Expr { target: c, expr: Expr::Read { source: b } },
    ]);
    let once = Dce::run(Block(vec![
        Stmt::Expr { target: r(1, "b"), expr: Expr::Null },
        Stmt::Expr { target: r(2, "c"), expr: Expr::Read { source: r(1, "b") } },
    ]));
    assert_eq!(print(&once, &fmt_num), "<dead> = <null>");
    let ir = Dce::converge(ir);
    assert_eq!(print(&ir, &fmt_num), "<empty>");
}

#[test]
fn mut2ssa_converts_single_write() {
    let (v, x, y) = (r(1, "_ini"), m(2, "x"), r(3, "y"));
    let ir = Block(vec![
        Stmt::Expr { target: v.duplicate(), expr: Expr::Null },
        Stmt::DeclareMutable { target: x.duplicate(), val: v },
        Stmt::Expr { target: y.duplicate(), expr: Expr::ReadMutable { source: x } },
        Stmt::Return { val: y },
    ]);
    let ir = Mut2Ssa::run(ir);
    assert_eq!(print(&ir, &fmt_num), "_ini = <null>\nx = _ini\ny = x\n<return> y");
}

#[test]
fn redundant_write_to_read() {
    let (i, x, w, y) = (r(1, "_ini"), m(2, "x"), r(3, "w"), r(4, "y"));
    let ir = Block(vec![
        Stmt::Expr { target: i.duplicate(), expr: Expr::Null },
        Stmt::DeclareMutable { target: x.duplicate(), val: i },
        Stmt::Expr { target: w.duplicate(), expr: num(1.0) },
        Stmt::WriteMutable { target: x.duplicate(), val: w },
        Stmt::Expr { target: y.duplicate(), expr: Expr::ReadMutable { source: x } },
        Stmt::Return { val: y },
    ]);
    let ir = LoadStore::run(ir);
    assert_eq!(print(&ir, &fmt_num), "<dead> = <null>\nw = 1\nx <= w\ny = w\n<return> y");
}

#[test]
fn unroll_single_key_loop() {
    let (k, v, o, x) = (r(1, "k"), r(2, "v"), r(3, "o"), r(4, "x"));
    let ir = Block(vec![
        Stmt::Expr { target: k.duplicate(), expr: Expr::String { value: "a".to_string() } },
        Stmt::Expr { target: v.duplicate(), expr: num(1.0) },
        Stmt::Expr { target: o.duplicate(), expr: Expr::Object { props: vec![(PropKind::Simple, k, v)] } },
        Stmt::ForEach {
            kind: ForKind::In,
            init: o,
            body: Block(vec![
                Stmt::Expr { target: x.duplicate(), expr: Expr::Argument { index: 0 } },
                Stmt::WriteGlobal { target: "g".to_string(), val: x },
            ]),
        },
    ]);
    let ir = Loops::run(ir);
    assert_eq!(
        print(&ir, &fmt_num),
        "k = \"a\"\nv = 1\n<dead> = { [k]: v }\nx = k\n<global g> <- x"
    );
}

#[test]
fn writeonly_object_dropped() {
    let (o, k, v) = (r(1, "o"), r(2, "k"), r(3, "v"));
    let ir = Block(vec![
        Stmt::Expr { target: o.duplicate(), expr: Expr::Object { props: vec![] } },
        Stmt::Expr { target: k.duplicate(), expr: Expr::String { value: "a".to_string() } },
        Stmt::Expr { target: v.duplicate(), expr: num(1.0) },
        Stmt::WriteMember { obj: o, prop: k, val: v },
    ]);
    let ir = Objects::run(ir);
    assert_eq!(print(&ir, &fmt_num), "<dead> = \"a\"\n<dead> = 1");
}

#[test]
fn print_nested_blocks() {
    let (c, f, x, l) = (r(1, "c"), r(2, "f"), r(3, "x"), Ref::new(4, "outer".to_string()));
    let ir = Block(vec![
        Stmt::Expr { target: c.duplicate(), expr: Expr::Bool { value: false } },
        Stmt::IfElse {
            cond: c,
            cons: Block(vec![]),
            alt: Block(vec![Stmt::Label { label: l.duplicate(), body: Block(vec![Stmt::Break { label: Some(l) }]) }]),
        },
        Stmt::Expr {
            target: f.duplicate(),
            expr: Expr::Function {
                kind: FnKind::Arrow { is_async: true },
                body: Block(vec![
                    Stmt::Expr { target: x.duplicate(), expr: Expr::Argument { index: 0 } },
                    Stmt::Return { val: x },
                ]),
            },
        },
        Stmt::Return { val: f },
    ]);
    assert_eq!(
        print(&ir, &fmt_num),
        "c = false\n<if> c:\n    <empty>\n<else>:\n    <label outer>:\n        <break outer>\nf = <arrow async>:\n    x = <argument 0>\n    <return> x\n<return> f"
    );
}

#[test]
fn pipeline_folds_and_drops() {
    let (a, b, c) = (r(1, "a"), r(2, "b"), r(3, "c"));
    let ir = Block(vec![
        Stmt::Expr { target: a.duplicate(), expr: num(2.0) },
        Stmt::Expr { target: b.duplicate(), expr: num(3.0) },
        Stmt::Expr { target: c.duplicate(), expr: Expr::Binary { op: BinaryOp::Mul, left: a, right: b } },
        Stmt::Return { val: c },
    ]);
    let ir = run_passes(ir, &js_num);
    assert_eq!(print(&ir, &fmt_num), "c = 6\n<return> c");
}

fn call(t: Ref<SSA>, f: &Ref<SSA>, args: Vec<Ref<SSA>>) -> Stmt {
    Stmt::Expr {
        target: t,
        expr: Expr::Call {
            kind: CallKind::Call,
            base: f.duplicate(),
            prop: None,
            args: args.into_iter().map(|a| (EleKind::Single, a)).collect(),
        },
    }
}

#[test]
fn inline_basic() {
    let (f, g) = (r(1, "_fun"), r(2, "_fun"));
    let ir = Block(vec![
        Stmt::Expr {
            target: f.duplicate(),
            expr: Expr::Function {
                kind: FnKind::Func { is_async: false, is_generator: false },
                body: Block(vec![Stmt::Expr { target: Ref::dead(10), expr: Expr::ReadGlobal { source: "foo".to_string() } }]),
            },
        },
        call(Ref::dead(11), &f, vec![]),
        Stmt::Expr {
            target: g.duplicate(),
            expr: Expr::Function {
                kind: FnKind::Arrow { is_async: false },
                body: Block(vec![Stmt::Expr { target: Ref::dead(12), expr: Expr::ReadGlobal { source: "foo".to_string() } }]),
            },
        },
        call(Ref::dead(13), &g, vec![]),
    ]);
    let ir = Inline::run(ir);
    assert_eq!(
        print(&ir, &fmt_num),
        "_mis = <void>\n<dead> = <global foo>\n<dead> = _mis\n_mis$1 = <void>\n<dead> = <global foo>\n<dead> = _mis$1"
    );
}

#[test]
fn inline_args_and_return() {
    let (f, x, y, a, c) = (r(1, "_fun"), r(2, "x"), r(3, "y"), r(4, "a"), r(5, "c"));
    let ir = Block(vec![
        Stmt::Expr {
            target: f.duplicate(),
            expr: Expr::Function {
                kind: FnKind::Func { is_async: false, is_generator: false },
                body: Block(vec![
                    Stmt::Expr { target: x.duplicate(), expr: Expr::Argument { index: 0 } },
                    Stmt::Expr { target: y, expr: Expr::Argument { index: 1 } },
                    Stmt::Return { val: x },
                ]),
            },
        },
        Stmt::Expr { target: a.duplicate(), expr: Expr::String { value: "a".to_string() } },
        call(c.duplicate(), &f, vec![a]),
        Stmt::Return { val: c },
    ]);
    let ir = Inline::run(ir);
    assert_eq!(
        print(&ir, &fmt_num),
        "a = \"a\"\n_mis = <void>\nx = a\n<dead> = _mis\nc = x\n<return> c"
    );
}

#[test]
fn inline_bails_on_generator() {
    let f = r(1, "_fun");
    let ir = Block(vec![
        Stmt::Expr {
            target: f.duplicate(),
            expr: Expr::Function {
                kind: FnKind::Func { is_async: false, is_generator: true },
                body: Block(vec![Stmt::Expr { target: Ref::dead(10), expr: Expr::ReadGlobal { source: "foo".to_string() } }]),
            },
        },
        call(Ref::dead(11), &f, vec![]),
    ]);
    let ir = Inline::run(ir);
    assert_eq!(print(&ir, &fmt_num), "_fun = <function generator>:\n    <dead> = <global foo>\n<dead> = _fun()");
}

#[test]
fn writeonly_removes_what_becomes_write_only() {
    // removing `a` leaves `b` only written to: `run` removes both, one pass only `a`
    let (a, b, k) = (r(1, "a"), r(2, "b"), r(3, "_key"));
    let ir = Block(vec![
        Stmt::Expr { target: a.duplicate(), expr: Expr::Object { props: vec![] } },
        Stmt::Expr { target: b.duplicate(), expr: Expr::Object { props: vec![] } },
        Stmt::Expr { target: k.duplicate(), expr: Expr::String { value: "a".to_string() } },
        Stmt::WriteMember { obj: b.duplicate(), prop: k.duplicate(), val: k.duplicate() },
        Stmt::WriteMember { obj: a, prop: k.duplicate(), val: b },
    ]);
    let once = Objects::run_once(ir);
    assert_eq!(print(&once, &fmt_num), "b = {  }\n_key = \"a\"\nb[_key] <- _key");
    let full = Objects::run(once);
    assert_eq!(print(&full, &fmt_num), "<dead> = \"a\"");
    let (a, b, k) = (r(1, "a"), r(2, "b"), r(3, "_key"));
    let ir = Block(vec![
        Stmt::Expr { target: a.duplicate(), expr: Expr::Object { props: vec![] } },
        Stmt::Expr { target: b.duplicate(), expr: Expr::Object { props: vec![] } },
        Stmt::Expr { target: k.duplicate(), expr: Expr::String { value: "a".to_string() } },
        Stmt::WriteMember { obj: b.duplicate(), prop: k.duplicate(), val: k.duplicate() },
        Stmt::WriteMember { obj: a, prop: k.duplicate(), val: b },
    ]);
    assert_eq!(print(&Objects::run(ir), &fmt_num), "<dead> = \"a\"");
}

#[test]
fn constant_folds_spliced_branch_in_one_pass() {
    // the statements of a branch spliced in place of its `if` are folded in the same pass
    let (t, a, b, c) = (r(1, "t"), r(2, "a"), r(3, "b"), r(4, "c"));
    let ir = Block(vec![
        Stmt::Expr { target: t.duplicate(), expr: Expr::Bool { value: true } },
        Stmt::IfElse {
            cond: t,
            cons: Block(vec![
                Stmt::Expr { target: a.duplicate(), expr: num(1.0) },
                Stmt::Expr { target: b.duplicate(), expr: num(2.0) },
                add(c.duplicate(), &a, &b),
                Stmt::Return { val: c },
            ]),
            alt: Block(vec![]),
        },
    ]);
    let once = ConstProp::run(ir, &js_num);
    assert_eq!(print(&once, &fmt_num), "<dead> = true
<dead> = 1
<dead> = 2
c = 3
<return> c");
    let twice = ConstProp::run(once, &js_num);
    assert_eq!(print(&twice, &fmt_num), "<dead> = true
<dead> = 1
<dead> = 2
c = 3
<return> c");
}

#[test]
fn constant_nested_known_ifs_fold_in_one_pass() {
    let (t, u, a) = (r(1, "t"), r(2, "u"), r(3, "a"));
    let ir = Block(vec![
        Stmt::Expr { target: t.duplicate(), expr: Expr::Bool { value: true } },
        Stmt::IfElse {
            cond: t,
            cons: Block(vec![
                Stmt::Expr { target: u.duplicate(), expr: Expr::Bool { value: false } },
                Stmt::IfElse {
                    cond: u,
                    cons: Block(vec![Stmt::Expr { target: Ref::dead(10), expr: Expr::ReadGlobal { source: "bad".to_string() } }]),
                    alt: Block(vec![Stmt::Expr { target: a.duplicate(), expr: num(5.0) }, Stmt::Return { val: a }]),
                },
            ]),
            alt: Block(vec![]),
        },
    ]);
    let ir = ConstProp::run(ir, &js_num);
    assert_eq!(print(&ir, &fmt_num), "<dead> = true
<dead> = false
a = 5
<return> a");
}

#[test]
fn constant_nan_is_not_equal_to_itself() {
    let (n, t, s, e) = (r(1, "n"), r(2, "t"), r(3, "s"), r(4, "e"));
    let ir = Block(vec![
        Stmt::Expr { target: n.duplicate(), expr: num(f64::NAN) },
        Stmt::Expr { target: t.duplicate(), expr: Expr::Binary { op: BinaryOp::StrictEq, left: n.duplicate(), right: n } },
        Stmt::Expr { target: s.duplicate(), expr: Expr::String { value: "x".to_string() } },
        Stmt::Expr { target: e.duplicate(), expr: Expr::Binary { op: BinaryOp::StrictEq, left: s.duplicate(), right: s } },
        Stmt::WriteGlobal { target: "g".to_string(), val: t },
        Stmt::WriteGlobal { target: "h".to_string(), val: e },
    ]);
    let ir = ConstProp::run(ir, &js_num);
    assert_eq!(
        print(&ir, &fmt_num),
        "<dead> = NaN
t = false
<dead> = \"x\"
e = true
<global g> <- t
<global h> <- e"
    );
}

#[test]
fn redundant_read_to_read() {
    // inside the loop nothing is known of `x`: the first read stays, the second reads its value
    let (i, x, a, b) = (r(1, "_ini"), m(2, "x"), r(3, "a"), r(4, "b"));
    let ir = Block(vec![
        Stmt::Expr { target: i.duplicate(), expr: Expr::Null },
        Stmt::DeclareMutable { target: x.duplicate(), val: i },
        Stmt::Loop {
            body: Block(vec![
                Stmt::Expr { target: a.duplicate(), expr: Expr::ReadMutable { source: x.duplicate() } },
                Stmt::Expr { target: b.duplicate(), expr: Expr::ReadMutable { source: x.duplicate() } },
                Stmt::WriteGlobal { target: "g".to_string(), val: a },
                Stmt::WriteGlobal { target: "h".to_string(), val: b },
            ]),
        },
    ]);
    let ir = LoadStore::run(ir);
    assert_eq!(
        print(&ir, &fmt_num),
        "_ini = <null>\nx <= _ini\n<loop>:\n    a = *x\n    b = a\n    <global g> <- a\n    <global h> <- b"
    );
}

#[test]
fn redundant_read_not_forwarded_past_write() {
    let (i, x, a, w, b) = (r(1, "_ini"), m(2, "x"), r(3, "a"), r(4, "w"), r(5, "b"));
    let ir = Block(vec![
        Stmt::Expr { target: i.duplicate(), expr: Expr::Null },
        Stmt::DeclareMutable { target: x.duplicate(), val: i },
        Stmt::Loop {
            body: Block(vec![
                Stmt::Expr { target: a.duplicate(), expr: Expr::ReadMutable { source: x.duplicate() } },
                Stmt::Expr { target: w.duplicate(), expr: Expr::Bool { value: true } },
                Stmt::WriteMutable { target: x.duplicate(), val: w },
                Stmt::Expr { target: b.duplicate(), expr: Expr::ReadMutable { source: x.duplicate() } },
                Stmt::WriteGlobal { target: "g".to_string(), val: a },
                Stmt::WriteGlobal { target: "h".to_string(), val: b },
            ]),
        },
    ]);
    let ir = LoadStore::run(ir);
    assert_eq!(
        print(&ir, &fmt_num),
        "_ini = <null>\nx <= _ini\n<loop>:\n    a = *x\n    w = true\n    x <- w\n    b = w\n    <global g> <- a\n    <global h> <- b"
    );
}

#[test]
fn writeonly_array_dropped() {
    let (a, k, v) = (r(1, "a"), r(2, "k"), r(3, "v"));
    let ir = Block(vec![
        Stmt::Expr { target: a.duplicate(), expr: Expr::Array { elems: vec![] } },
        Stmt::Expr { target: k.duplicate(), expr: Expr::String { value: "x".to_string() } },
        Stmt::Expr { target: v.duplicate(), expr: num(1.0) },
        Stmt::WriteMember { obj: a, prop: k, val: v },
    ]);
    let ir = Objects::run(ir);
    assert_eq!(print(&ir, &fmt_num), "<dead> = \"x\"\n<dead> = 1");
}
