use lib::ir::{BinaryOp, Block, Expr, Ref, Stmt, SSA};
use lib::opt::forward::Reads;
use lib::print::print;

fn ssa(id: u64, name: &str) -> Ref<SSA> {
    Ref::new(id, name.to_string())
}

fn fmt_num(bits: u64) -> String {
    f64::from_bits(bits).to_string()
}

#[test]
fn forward_basic() {
    let a = ssa(1, "a");
    let b = ssa(2, "b");
    let c = ssa(3, "c");
    let d = ssa(4, "d");
    let ir = Block(vec![
        Stmt::Expr { target: a.duplicate(), expr: Expr::Null },
        Stmt::Expr { target: b.duplicate(), expr: Expr::Read { source: a } },
        Stmt::Expr { target: c.duplicate(), expr: Expr::Read { source: b } },
        Stmt::Expr {
            target: d,
            expr: Expr::Binary { op: BinaryOp::Add, left: c.duplicate(), right: c },
        },
    ]);
    let ir = Reads::run(ir);
    assert_eq!(print(&ir, &fmt_num), "c = <null>\n<dead> = c + c");
}

#[test]
fn move_down() {
    let a = ssa(1, "a");
    let b = ssa(2, "b");
    let dwn = ssa(3, "downleveled");
    let ir = Block(vec![
        Stmt::Expr { target: a.duplicate(), expr: Expr::Null },
        Stmt::Expr { target: b.duplicate(), expr: Expr::Read { source: a } },
        Stmt::Expr { target: dwn, expr: Expr::Read { source: b } },
    ]);
    let ir = Reads::run(ir);
    assert_eq!(print(&ir, &fmt_num), "<dead> = <null>");
}

#[test]
fn dont_move_down_past_effects() {
    let a = ssa(1, "a");
    let b = ssa(2, "b");
    let dwn = ssa(3, "downleveled");
    let ir = Block(vec![
        Stmt::Expr { target: a.duplicate(), expr: Expr::Null },
        Stmt::Break { label: None },
        Stmt::Expr { target: b.duplicate(), expr: Expr::Read { source: a } },
        Stmt::Expr { target: dwn, expr: Expr::Read { source: b } },
    ]);
    let ir = Reads::run(ir);
    assert_eq!(print(&ir, &fmt_num), "a = <null>\n<break>\n<dead> = a");
}
