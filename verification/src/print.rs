//! Pretty-printing of the IR, with refs named as an output scope would name them.

use vstd::prelude::*;

use vstd::string::{StrSliceExecFns, StringExecFns};

use crate::ir::{
    used_of, occ_block, sat, BinaryOp, Block, CallKind, EleKind, Expr, FnKind, ForKind, Lbl,
    Mutable, PropKind, Ref, Stmt, UnaryOp, UseCounts, YieldKind, SSA, count_uses,
};
use crate::scope::{
    decimal, first_free, minified_name_spec, push_decimal, seen_entries_len, unique_from,
    unique_steps, Ir,
};

verus! {

// ---------------------------------------------------------------------------
// The naming state of an output scope, as the contracts see it.
// ---------------------------------------------------------------------------

/// What a scope knows: the minifier's counter, how often each name has been handed out,
/// how many counts it holds, the names of refs visible from it, and the refs declared in it.
pub struct Names {
    pub counter: Option<usize>,
    pub seen: Map<Seq<char>, u64>,
    pub len: nat,
    pub ssa: Map<u64, Seq<char>>,
    pub muts: Map<u64, Seq<char>>,
    pub lbls: Map<u64, Seq<char>>,
    pub own_ssa: Set<u64>,
    pub own_muts: Set<u64>,
    pub own_lbls: Set<u64>,
}

pub open spec fn str_map(m: Map<u64, String>) -> Map<u64, Seq<char>> {
    m.map_values(|s: String| s@)
}

pub open spec fn names_of(ir: Ir) -> Names {
    Names {
        counter: ir.minified_name_counter,
        seen: ir.seen.view_all(),
        len: seen_entries_len(&ir.seen),
        ssa: str_map(ir.ssa_names.view_all()),
        muts: str_map(ir.mutable_names.view_all()),
        lbls: str_map(ir.label_names.view_all()),
        own_ssa: ir.ssa_names.map@.dom(),
        own_muts: ir.mutable_names.map@.dom(),
        own_lbls: ir.label_names.map@.dom(),
    }
}

/// The state of a scope nested in one whose state is `n`.
pub open spec fn nested_names(n: Names) -> Names {
    Names { own_ssa: Set::empty(), own_muts: Set::empty(), own_lbls: Set::empty(), ..n }
}

/// A fresh name for `hint`, and the state after handing it out.
pub open spec fn fresh(n: Names, hint: Seq<char>) -> (Seq<char>, Names) {
    match n.counter {
        Some(c) => {
            let i = first_free(n.seen, c as int);
            (
                minified_name_spec(i as nat),
                Names {
                    counter: Some(if i >= usize::MAX { i as usize } else { (i + 1) as usize }),
                    ..n
                },
            )
        },
        None => {
            let fuel = if n.len >= u64::MAX { u64::MAX as nat } else { n.len };
            let (name, seen2) = unique_from(n.seen, hint, fuel);
            (name, Names { seen: seen2, len: n.len + unique_steps(n.seen, hint, fuel), ..n })
        },
    }
}

pub open spec fn declare_ssa(n: Names, r: Ref<SSA>) -> (Seq<char>, Names) {
    let (name, n2) = fresh(n, r.name_hint@);
    (name, Names { ssa: n2.ssa.insert(r.id, name), own_ssa: n2.own_ssa.insert(r.id), ..n2 })
}

pub open spec fn declare_mut(n: Names, r: Ref<Mutable>) -> (Seq<char>, Names) {
    let (name, n2) = fresh(n, r.name_hint@);
    (name, Names { muts: n2.muts.insert(r.id, name), own_muts: n2.own_muts.insert(r.id), ..n2 })
}

pub open spec fn declare_lbl(n: Names, r: Ref<Lbl>) -> (Seq<char>, Names) {
    let (name, n2) = fresh(n, r.name_hint@);
    (name, Names { lbls: n2.lbls.insert(r.id, name), own_lbls: n2.own_lbls.insert(r.id), ..n2 })
}

// ---------------------------------------------------------------------------
// The text.
// ---------------------------------------------------------------------------

pub open spec fn spaces(k: nat) -> Seq<char> {
    Seq::new(k, |i: int| ' ')
}

/// A new line at the given indentation.
pub open spec fn line(indent: nat) -> Seq<char> {
    seq!['\n'] + spaces(indent)
}

pub open spec fn deeper(indent: usize) -> usize {
    if indent > usize::MAX - 4 {
        usize::MAX
    } else {
        (indent + 4) as usize
    }
}

/// An evaluator that formats a number given by its binary64 bit pattern: it can be called on
/// any value and is a function of it.
pub open spec fn formatter_ok<F: Fn(u64) -> String>(f: F) -> bool {
    &&& forall|x: u64| #[trigger] call_requires(f, (x,))
    &&& forall|x: u64, r1: String, r2: String|
        #![trigger call_ensures(f, (x,), r1), call_ensures(f, (x,), r2)]
        call_ensures(f, (x,), r1) && call_ensures(f, (x,), r2) ==> r1@ == r2@
}

/// The text the formatter gives for a number.
pub open spec fn num_text<F: Fn(u64) -> String>(f: F, x: u64) -> Seq<char> {
    (choose|r: String| call_ensures(f, (x,), r))@
}

pub open spec fn ele_prefix(k: EleKind) -> Seq<char> {
    match k {
        EleKind::Single => ""@,
        EleKind::Spread => "..."@,
    }
}

pub open spec fn prop_prefix(k: PropKind) -> Seq<char> {
    match k {
        PropKind::Simple => ""@,
        PropKind::Getter => "<get> "@,
        PropKind::Setter => "<set> "@,
    }
}

pub open spec fn unary_text(op: UnaryOp) -> Seq<char> {
    match op {
        UnaryOp::Plus => "+ "@,
        UnaryOp::Minus => "- "@,
        UnaryOp::Not => "! "@,
        UnaryOp::Tilde => "! "@,
        UnaryOp::Typeof => "<typeof> "@,
        UnaryOp::Void => "<void> "@,
    }
}

pub open spec fn binary_text(op: BinaryOp) -> Seq<char> {
    match op {
        BinaryOp::EqEq => " == "@,
        BinaryOp::NotEq => " != "@,
        BinaryOp::StrictEq => " === "@,
        BinaryOp::NotStrictEq => " !== "@,
        BinaryOp::Lt => " < "@,
        BinaryOp::LtEq => " <= "@,
        BinaryOp::Gt => " > "@,
        BinaryOp::GtEq => " >= "@,
        BinaryOp::ShiftLeft => " << "@,
        BinaryOp::ShiftRight => " >> "@,
        BinaryOp::ShiftRightZero => " >>> "@,
        BinaryOp::Add => " + "@,
        BinaryOp::Sub => " - "@,
        BinaryOp::Mul => " * "@,
        BinaryOp::Div => " / "@,
        BinaryOp::Mod => " % "@,
        BinaryOp::BitOr => " | "@,
        BinaryOp::BitXor => " ^ "@,
        BinaryOp::BitAnd => " & "@,
        BinaryOp::Exp => " ** "@,
        BinaryOp::In => " <in> "@,
        BinaryOp::Instanceof => " <instanceof> "@,
    }
}

pub open spec fn yield_text(k: YieldKind) -> Seq<char> {
    match k {
        YieldKind::Single => "<yield> "@,
        YieldKind::Delegate => "<yield*> "@,
    }
}

pub open spec fn call_prefix(k: CallKind) -> Seq<char> {
    match k {
        CallKind::Call => ""@,
        CallKind::New => "<new> "@,
    }
}

pub open spec fn fn_header(k: FnKind) -> Seq<char> {
    match k {
        FnKind::Arrow { is_async } => "<arrow"@ + (if is_async { " async"@ } else { ""@ }) + ">:"@,
        FnKind::Func { is_async, is_generator } => "<function"@ + (if is_async {
            " async"@
        } else {
            ""@
        }) + (if is_generator { " generator"@ } else { ""@ }) + ">:"@,
    }
}

/// `a` and `b` separated by a comma, unless `a` is the first item.
pub open spec fn sep(first: bool) -> Seq<char> {
    if first {
        ""@
    } else {
        ", "@
    }
}

pub open spec fn elems_text(elems: Seq<Option<(EleKind, Ref<SSA>)>>, n: Names) -> Seq<char>
    decreases elems.len(),
{
    if elems.len() == 0 {
        Seq::empty()
    } else {
        elems_text(elems.drop_last(), n) + sep(elems.len() == 1) + match elems.last() {
            Some((k, v)) => ele_prefix(k) + n.ssa[v.id],
            None => Seq::empty(),
        }
    }
}

pub open spec fn props_text(props: Seq<(PropKind, Ref<SSA>, Ref<SSA>)>, n: Names) -> Seq<char>
    decreases props.len(),
{
    if props.len() == 0 {
        Seq::empty()
    } else {
        let (k, key, val) = props.last();
        props_text(props.drop_last(), n) + sep(props.len() == 1) + prop_prefix(k) + "["@
            + n.ssa[key.id] + "]: "@ + n.ssa[val.id]
    }
}

pub open spec fn args_text(args: Seq<(EleKind, Ref<SSA>)>, n: Names) -> Seq<char>
    decreases args.len(),
{
    if args.len() == 0 {
        Seq::empty()
    } else {
        args_text(args.drop_last(), n) + sep(args.len() == 1) + ele_prefix(args.last().0)
            + n.ssa[args.last().1.id]
    }
}

/// Text of an expression (a function's body included) in a scope with state `n`.
pub open spec fn expr_text<F: Fn(u64) -> String>(e: Expr, n: Names, indent: usize, prog: Block, f: F) -> Seq<char>
    decreases e, 0nat,
{
    match e {
        Expr::Bool { value } => if value { "true"@ } else { "false"@ },
        Expr::Number { value } => num_text(f, value),
        Expr::String { value } => "\""@ + value@ + "\""@,
        Expr::Null => "<null>"@,
        Expr::Undefined => "<void>"@,
        Expr::This => "<this>"@,
        Expr::Read { source } => n.ssa[source.id],
        Expr::ReadMutable { source } => "*"@ + n.muts[source.id],
        Expr::ReadGlobal { source } => "<global "@ + source@ + ">"@,
        Expr::ReadMember { obj, prop } => n.ssa[obj.id] + "["@ + n.ssa[prop.id] + "]"@,
        Expr::Array { elems } => "["@ + elems_text(elems@, n) + "]"@,
        Expr::Object { props } => "{ "@ + props_text(props@, n) + " }"@,
        Expr::RegExp { regex, flags } => "/"@ + regex@ + "/"@ + flags@,
        Expr::Unary { op, val } => unary_text(op) + n.ssa[val.id],
        Expr::Binary { op, left, right } => n.ssa[left.id] + binary_text(op) + n.ssa[right.id],
        Expr::Delete { obj, prop } => "<delete> "@ + n.ssa[obj.id] + "["@ + n.ssa[prop.id] + "]"@,
        Expr::Yield { kind, val } => yield_text(kind) + n.ssa[val.id],
        Expr::Await { val } => "<await> "@ + n.ssa[val.id],
        Expr::Call { kind, base, prop, args } => call_prefix(kind) + n.ssa[base.id] + match prop {
            Some(p) => "["@ + n.ssa[p.id] + "]"@,
            None => ""@,
        } + "("@ + args_text(args@, n) + ")"@,
        Expr::Function { kind, body } => fn_header(kind) + block_text(body, n, deeper(indent), prog, f),
        Expr::CurrentFunction => "<current function>"@,
        Expr::Argument { index } => "<argument "@ + decimal(index as nat) + ">"@,
    }
}

pub open spec fn lbl_opt_text(l: Option<Ref<Lbl>>, n: Names, word: Seq<char>) -> Seq<char> {
    match l {
        Some(l) => "<"@ + word + " "@ + n.lbls[l.id] + ">"@,
        None => "<"@ + word + ">"@,
    }
}

/// Text of a statement in a scope with state `n`, and the state after it.
pub open spec fn stmt_step<F: Fn(u64) -> String>(s: Stmt, n: Names, indent: usize, prog: Block, f: F) -> (
    Seq<char>,
    Names,
)
    decreases s, 1nat,
{
    let ind = deeper(indent);
    match s {
        Stmt::Expr { target, expr } => {
            let (lhs, n2) = if used_of(sat(occ_block(prog, target.id))) is Never {
                ("<dead>"@, n)
            } else {
                declare_ssa(n, target)
            };
            (lhs + " = "@ + expr_text(expr, n2, indent, prog, f), n2)
        },
        Stmt::DeclareMutable { target, val } => {
            let (name, n2) = declare_mut(n, target);
            (name + " <= "@ + n2.ssa[val.id], n2)
        },
        Stmt::WriteMutable { target, val } => (n.muts[target.id] + " <- "@ + n.ssa[val.id], n),
        Stmt::WriteGlobal { target, val } => ("<global "@ + target@ + "> <- "@ + n.ssa[val.id], n),
        Stmt::WriteMember { obj, prop, val } => (
            n.ssa[obj.id] + "["@ + n.ssa[prop.id] + "] <- "@ + n.ssa[val.id],
            n,
        ),
        Stmt::Return { val } => ("<return> "@ + n.ssa[val.id], n),
        Stmt::Throw { val } => ("<throw> "@ + n.ssa[val.id], n),
        Stmt::Break { label } => (lbl_opt_text(label, n, "break"@), n),
        Stmt::Continue { label } => (lbl_opt_text(label, n, "continue"@), n),
        Stmt::Debugger => ("<debugger>"@, n),
        Stmt::Label { label, body } => {
            let (name, n2) = declare_lbl(n, label);
            ("<label "@ + name + ">:"@ + block_text(body, n2, ind, prog, f), n2)
        },
        Stmt::Loop { body } => ("<loop>:"@ + block_text(body, n, ind, prog, f), n),
        Stmt::ForEach { kind, init, body } => (
            "<foreach"@ + match kind {
                ForKind::In => " in> "@,
                ForKind::Of => " of> "@,
            } + n.ssa[init.id] + ":"@ + block_text(body, n, ind, prog, f),
            n,
        ),
        Stmt::IfElse { cond, cons, alt } => (
            "<if> "@ + n.ssa[cond.id] + ":"@ + block_text(cons, n, ind, prog, f) + line(indent as nat)
                + "<else>:"@ + block_text(alt, n, ind, prog, f),
            n,
        ),
        Stmt::Switch { discr, body } => (
            "<switch> "@ + n.ssa[discr.id] + ":"@ + block_text(body, n, ind, prog, f),
            n,
        ),
        Stmt::SwitchCase { val } => (
            match val {
                Some(v) => "<case> "@ + n.ssa[v.id] + ":"@,
                None => "<default>:"@,
            },
            n,
        ),
        Stmt::Try { body, catch, finally } => (
            "<try>:"@ + block_text(body, n, ind, prog, f) + line(indent as nat) + "<catch>:"@
                + block_text(catch, n, ind, prog, f) + line(indent as nat) + "<finally>:"@
                + block_text(*finally, n, ind, prog, f),
            n,
        ),
    }
}

/// Text of the statements `ss`, one per line, and the state after them.
pub open spec fn stmts_step<F: Fn(u64) -> String>(ss: Seq<Stmt>, n: Names, indent: usize, prog: Block, f: F) -> (
    Seq<char>,
    Names,
)
    decreases ss, 0nat,
{
    if ss.len() == 0 {
        (Seq::empty(), n)
    } else {
        let (t, n1) = stmts_step(ss.drop_last(), n, indent, prog, f);
        let (t2, n2) = stmt_step(ss.last(), n1, indent, prog, f);
        (t + line(indent as nat) + t2, n2)
    }
}

/// Text of a block printed in a scope nested in one with state `n`.
pub open spec fn block_text<F: Fn(u64) -> String>(b: Block, n: Names, indent: usize, prog: Block, f: F) -> Seq<char>
    decreases b, 2nat,
{
    if b.0@.len() == 0 {
        line(indent as nat) + "<empty>"@
    } else {
        stmts_step(b.0@, nested_names(n), indent, prog, f).0
    }
}

// ---------------------------------------------------------------------------
// Which programs can be printed: every ref used is named in scope, and no ref is declared
// twice in one scope.
// ---------------------------------------------------------------------------

pub open spec fn all_in(ids: Seq<u64>, m: Map<u64, Seq<char>>) -> bool {
    forall|i: int| 0 <= i < ids.len() ==> m.contains_key(#[trigger] ids[i])
}

/// The state after a statement has been printed.
pub open spec fn stmt_names(s: Stmt, n: Names, prog: Block) -> Names {
    match s {
        Stmt::Expr { target, .. } => if used_of(sat(occ_block(prog, target.id))) is Never {
            n
        } else {
            declare_ssa(n, target).1
        },
        Stmt::DeclareMutable { target, .. } => declare_mut(n, target).1,
        Stmt::Label { label, .. } => declare_lbl(n, label).1,
        _ => n,
    }
}

pub open spec fn stmts_names(ss: Seq<Stmt>, n: Names, prog: Block) -> Names
    decreases ss.len(),
{
    if ss.len() == 0 {
        n
    } else {
        stmt_names(ss.last(), stmts_names(ss.drop_last(), n, prog), prog)
    }
}

pub open spec fn expr_ok(e: Expr, n: Names, prog: Block) -> bool
    decreases e, 0nat,
{
    match e {
        Expr::ReadMutable { source } => n.muts.contains_key(source.id),
        Expr::Function { body, .. } => block_ok(body, n, prog),
        _ => all_in(crate::ir::expr_uses(e), n.ssa),
    }
}

pub open spec fn stmt_ok(s: Stmt, n: Names, prog: Block) -> bool
    decreases s, 1nat,
{
    match s {
        Stmt::Expr { target, expr } => {
            &&& !(used_of(sat(occ_block(prog, target.id))) is Never) ==> !n.own_ssa.contains(target.id)
            &&& expr_ok(expr, stmt_names(s, n, prog), prog)
        },
        Stmt::DeclareMutable { target, val } => !n.own_muts.contains(target.id) && n.ssa.contains_key(val.id),
        Stmt::WriteMutable { target, val } => n.muts.contains_key(target.id) && n.ssa.contains_key(val.id),
        Stmt::Break { label: Some(l) } => n.lbls.contains_key(l.id),
        Stmt::Continue { label: Some(l) } => n.lbls.contains_key(l.id),
        Stmt::Label { label, body } => !n.own_lbls.contains(label.id) && block_ok(body, declare_lbl(n, label).1, prog),
        Stmt::Loop { body } => block_ok(body, n, prog),
        Stmt::ForEach { init, body, .. } => n.ssa.contains_key(init.id) && block_ok(body, n, prog),
        Stmt::IfElse { cond, cons, alt } => n.ssa.contains_key(cond.id) && block_ok(cons, n, prog) && block_ok(alt, n, prog),
        Stmt::Switch { discr, body } => n.ssa.contains_key(discr.id) && block_ok(body, n, prog),
        Stmt::Try { body, catch, finally } => block_ok(body, n, prog) && block_ok(catch, n, prog) && block_ok(*finally, n, prog),
        _ => all_in(crate::ir::stmt_uses(s), n.ssa),
    }
}

pub open spec fn stmts_ok(ss: Seq<Stmt>, n: Names, prog: Block) -> bool
    decreases ss, 0nat,
{
    ss.len() == 0 || (stmts_ok(ss.drop_last(), n, prog) && stmt_ok(ss.last(), stmts_names(ss.drop_last(), n, prog), prog))
}

/// Every ref `b` uses is named when printed in a scope nested in one with state `n`.
pub open spec fn block_ok(b: Block, n: Names, prog: Block) -> bool
    decreases b, 2nat,
{
    stmts_ok(b.0@, nested_names(n), prog)
}

pub proof fn lemma_stmt_step_names<F: Fn(u64) -> String>(s: Stmt, n: Names, indent: usize, prog: Block, f: F)
    ensures
        stmt_step(s, n, indent, prog, f).1 == stmt_names(s, n, prog),
{
}

/// The state a scope starts with when nothing has been named.
pub open spec fn initial_names() -> Names {
    Names {
        counter: None,
        seen: Map::empty(),
        len: 0,
        ssa: Map::empty(),
        muts: Map::empty(),
        lbls: Map::empty(),
        own_ssa: Set::empty(),
        own_muts: Set::empty(),
        own_lbls: Set::empty(),
    }
}

// ---------------------------------------------------------------------------
// The printer.
// ---------------------------------------------------------------------------

fn start_line(out: &mut String, indent: usize)
    ensures
        final(out)@ == old(out)@ + line(indent as nat),
{
    crate::ir::push_char(out, '\n');
    let mut i: usize = 0;
    while i < indent
        invariant
            i <= indent,
            out@ == old(out)@ + line(i as nat),
        decreases indent - i,
    {
        crate::ir::push_char(out, ' ');
        assert(line((i + 1) as nat) =~= line(i as nat).push(' '));
        i += 1;
    }
}

fn deeper_exec(indent: usize) -> (r: usize)
    ensures
        r == deeper(indent),
{
    if indent > usize::MAX - 4 {
        usize::MAX
    } else {
        indent + 4
    }
}

fn print_ssa(r: &Ref<SSA>, scope: &Ir, out: &mut String)
    requires
        names_of(*scope).ssa.contains_key(r.id),
    ensures
        final(out)@ == old(out)@ + names_of(*scope).ssa[r.id],
{
    match scope.get_ssa(r) {
        Some(name) => out.append(name.as_str()),
        None => {},
    }
}

fn format_number<F: Fn(u64) -> String>(f: &F, x: u64) -> (r: String)
    requires
        formatter_ok(*f),
    ensures
        r@ == num_text(*f, x),
{
    let r = f(x);
    assert(call_ensures(*f, (x,), r));
    r
}

pub proof fn lemma_declared<'a>(pre: Ir<'a>, post: Ir<'a>, id: u64, hint: Seq<char>, name: String, kind: int)
    requires
        crate::scope::unique_name_post(pre, hint, name@, post),
        seen_entries_len(&post.seen) == seen_entries_len(&pre.seen) + crate::scope::name_steps(pre, hint),
        kind == 0 ==> {
            &&& post.ssa_names.map@ == pre.ssa_names.map@.insert(id, name)
            &&& post.ssa_names.parent == pre.ssa_names.parent
            &&& post.mutable_names == pre.mutable_names
            &&& post.label_names == pre.label_names
        },
        kind == 1 ==> {
            &&& post.mutable_names.map@ == pre.mutable_names.map@.insert(id, name)
            &&& post.mutable_names.parent == pre.mutable_names.parent
            &&& post.ssa_names == pre.ssa_names
            &&& post.label_names == pre.label_names
        },
        kind == 2 ==> {
            &&& post.label_names.map@ == pre.label_names.map@.insert(id, name)
            &&& post.label_names.parent == pre.label_names.parent
            &&& post.ssa_names == pre.ssa_names
            &&& post.mutable_names == pre.mutable_names
        },
        0 <= kind <= 2,
    ensures
        fresh(names_of(pre), hint).0 == name@,
        kind == 0 ==> names_of(post) == (Names {
            ssa: names_of(pre).ssa.insert(id, name@),
            own_ssa: names_of(pre).own_ssa.insert(id),
            ..fresh(names_of(pre), hint).1
        }),
        kind == 1 ==> names_of(post) == (Names {
            muts: names_of(pre).muts.insert(id, name@),
            own_muts: names_of(pre).own_muts.insert(id),
            ..fresh(names_of(pre), hint).1
        }),
        kind == 2 ==> names_of(post) == (Names {
            lbls: names_of(pre).lbls.insert(id, name@),
            own_lbls: names_of(pre).own_lbls.insert(id),
            ..fresh(names_of(pre), hint).1
        }),
{
    let a = names_of(pre);
    let b = names_of(post);
    let fr = fresh(a, hint).1;
    if kind == 0 {
        assert(post.ssa_names.view_all() =~= pre.ssa_names.view_all().insert(id, name));
        assert(b.ssa =~= a.ssa.insert(id, name@));
        assert(b.own_ssa =~= a.own_ssa.insert(id));
    } else if kind == 1 {
        assert(post.mutable_names.view_all() =~= pre.mutable_names.view_all().insert(id, name));
        assert(b.muts =~= a.muts.insert(id, name@));
        assert(b.own_muts =~= a.own_muts.insert(id));
    } else {
        assert(post.label_names.view_all() =~= pre.label_names.view_all().insert(id, name));
        assert(b.lbls =~= a.lbls.insert(id, name@));
        assert(b.own_lbls =~= a.own_lbls.insert(id));
    }
}

fn print_ele_prefix(k: EleKind, out: &mut String)
    ensures
        final(out)@ == old(out)@ + ele_prefix(k),
{
    match k {
        EleKind::Single => out.append(""),
        EleKind::Spread => out.append("..."),
    }
}

fn print_sep(first: bool, out: &mut String)
    ensures
        final(out)@ == old(out)@ + sep(first),
{
    if first {
        out.append("");
    } else {
        out.append(", ");
    }
}

fn print_elems(elems: &Vec<Option<(EleKind, Ref<SSA>)>>, scope: &Ir, out: &mut String)
    requires
        all_in(crate::ir::elems_uses(elems@), names_of(*scope).ssa),
    ensures
        final(out)@ == old(out)@ + elems_text(elems@, names_of(*scope)),
{
    let ghost n = names_of(*scope);
    let mut i: usize = 0;
    while i < elems.len()
        invariant
            i <= elems@.len(),
            n == names_of(*scope),
            all_in(crate::ir::elems_uses(elems@), n.ssa),
            out@ == old(out)@ + elems_text(elems@.take(i as int), n),
        decreases elems@.len() - i,
    {
        let ghost pre = elems@.take(i as int);
        assert(elems@.take(i + 1).drop_last() =~= pre);
        print_sep(i == 0, out);
        match &elems[i] {
            Some((k, v)) => {
                proof {
                    crate::ir::lemma_elems_uses_mem(elems@, i as int);
                }
                print_ele_prefix(*k, out);
                print_ssa(v, scope, out);
            },
            None => {},
        }
        i += 1;
        assert(out@ =~= old(out)@ + elems_text(elems@.take(i as int), n));
    }
    assert(elems@.take(elems@.len() as int) =~= elems@);
}

#[verifier::spinoff_prover]
#[verifier::rlimit(30)]
fn print_props(props: &Vec<(PropKind, Ref<SSA>, Ref<SSA>)>, scope: &Ir, out: &mut String)
    requires
        all_in(crate::ir::props_uses(props@), names_of(*scope).ssa),
    ensures
        final(out)@ == old(out)@ + props_text(props@, names_of(*scope)),
{
    let ghost n = names_of(*scope);
    let mut i: usize = 0;
    while i < props.len()
        invariant
            i <= props@.len(),
            n == names_of(*scope),
            all_in(crate::ir::props_uses(props@), n.ssa),
            out@ == old(out)@ + props_text(props@.take(i as int), n),
        decreases props@.len() - i,
    {
        assert(props@.take(i + 1).drop_last() =~= props@.take(i as int));
        proof {
            crate::ir::lemma_props_uses_mem(props@, i as int);
        }
        print_sep(i == 0, out);
        let (k, key, val) = &props[i];
        match k {
            PropKind::Simple => out.append(""),
            PropKind::Getter => out.append("<get> "),
            PropKind::Setter => out.append("<set> "),
        }
        out.append("[");
        print_ssa(key, scope, out);
        out.append("]: ");
        print_ssa(val, scope, out);
        i += 1;
        assert(out@ =~= old(out)@ + props_text(props@.take(i as int), n));
    }
    assert(props@.take(props@.len() as int) =~= props@);
}

fn print_args(args: &Vec<(EleKind, Ref<SSA>)>, scope: &Ir, out: &mut String)
    requires
        all_in(crate::ir::args_uses(args@), names_of(*scope).ssa),
    ensures
        final(out)@ == old(out)@ + args_text(args@, names_of(*scope)),
{
    let ghost n = names_of(*scope);
    let mut i: usize = 0;
    while i < args.len()
        invariant
            i <= args@.len(),
            n == names_of(*scope),
            all_in(crate::ir::args_uses(args@), n.ssa),
            out@ == old(out)@ + args_text(args@.take(i as int), n),
        decreases args@.len() - i,
    {
        assert(args@.take(i + 1).drop_last() =~= args@.take(i as int));
        proof {
            crate::ir::lemma_args_uses_mem(args@, i as int);
        }
        print_sep(i == 0, out);
        let (k, v) = &args[i];
        print_ele_prefix(*k, out);
        print_ssa(v, scope, out);
        i += 1;
        assert(out@ =~= old(out)@ + args_text(args@.take(i as int), n));
    }
    assert(args@.take(args@.len() as int) =~= args@);
}

fn print_unary(op: UnaryOp, out: &mut String)
    ensures
        final(out)@ == old(out)@ + unary_text(op),
{
    match op {
        UnaryOp::Plus => out.append("+ "),
        UnaryOp::Minus => out.append("- "),
        UnaryOp::Not => out.append("! "),
        UnaryOp::Tilde => out.append("! "),
        UnaryOp::Typeof => out.append("<typeof> "),
        UnaryOp::Void => out.append("<void> "),
    }
}

fn print_binary(op: BinaryOp, out: &mut String)
    ensures
        final(out)@ == old(out)@ + binary_text(op),
{
    match op {
        BinaryOp::EqEq => out.append(" == "),
        BinaryOp::NotEq => out.append(" != "),
        BinaryOp::StrictEq => out.append(" === "),
        BinaryOp::NotStrictEq => out.append(" !== "),
        BinaryOp::Lt => out.append(" < "),
        BinaryOp::LtEq => out.append(" <= "),
        BinaryOp::Gt => out.append(" > "),
        BinaryOp::GtEq => out.append(" >= "),
        BinaryOp::ShiftLeft => out.append(" << "),
        BinaryOp::ShiftRight => out.append(" >> "),
        BinaryOp::ShiftRightZero => out.append(" >>> "),
        BinaryOp::Add => out.append(" + "),
        BinaryOp::Sub => out.append(" - "),
        BinaryOp::Mul => out.append(" * "),
        BinaryOp::Div => out.append(" / "),
        BinaryOp::Mod => out.append(" % "),
        BinaryOp::BitOr => out.append(" | "),
        BinaryOp::BitXor => out.append(" ^ "),
        BinaryOp::BitAnd => out.append(" & "),
        BinaryOp::Exp => out.append(" ** "),
        BinaryOp::In => out.append(" <in> "),
        BinaryOp::Instanceof => out.append(" <instanceof> "),
    }
}

fn print_fn_header(kind: FnKind, out: &mut String)
    ensures
        final(out)@ == old(out)@ + fn_header(kind),
{
    match kind {
        FnKind::Arrow { is_async } => {
            out.append("<arrow");
            if is_async {
                out.append(" async");
            } else {
                out.append("");
            }
            out.append(">:");
        },
        FnKind::Func { is_async, is_generator } => {
            out.append("<function");
            if is_async {
                out.append(" async");
            } else {
                out.append("");
            }
            if is_generator {
                out.append(" generator");
            } else {
                out.append("");
            }
            out.append(">:");
        },
    }
}

pub struct Printer<'f, F: Fn(u64) -> String> {
    pub counts: UseCounts,
    pub fmt: &'f F,
}

impl<'f, F: Fn(u64) -> String> Printer<'f, F> {
    fn print_expr(&self, e: &Expr, scope: &Ir, indent: usize, out: &mut String, Ghost(prog): Ghost<Block>)
        requires
            self.counts.describes(prog),
            formatter_ok(*self.fmt),
            expr_ok(*e, names_of(*scope), prog),
        ensures
            final(out)@ == old(out)@ + expr_text(*e, names_of(*scope), indent, prog, *self.fmt),
        decreases *e, 0nat,
    {
        let ghost n = names_of(*scope);
        match e {
            Expr::Bool { value } => if *value {
                out.append("true")
            } else {
                out.append("false")
            },
            Expr::Number { value } => {
                let t = format_number(self.fmt, *value);
                out.append(t.as_str());
            },
            Expr::String { value } => {
                out.append("\"");
                out.append(value.as_str());
                out.append("\"");
            },
            Expr::Null => out.append("<null>"),
            Expr::Undefined => out.append("<void>"),
            Expr::This => out.append("<this>"),
            Expr::Read { source } => {
                assert(crate::ir::expr_uses(*e)[0] == source.id);
                print_ssa(source, scope, out);
            },
            Expr::ReadMutable { source } => {
                out.append("*");
                match scope.get_mutable(source) {
                    Some(name) => out.append(name.as_str()),
                    None => {},
                }
            },
            Expr::ReadGlobal { source } => {
                out.append("<global ");
                out.append(source.as_str());
                out.append(">");
            },
            Expr::ReadMember { obj, prop } => {
                assert(crate::ir::expr_uses(*e)[0] == obj.id);
                assert(crate::ir::expr_uses(*e)[1] == prop.id);
                print_ssa(obj, scope, out);
                out.append("[");
                print_ssa(prop, scope, out);
                out.append("]");
            },
            Expr::Array { elems } => {
                out.append("[");
                print_elems(elems, scope, out);
                out.append("]");
            },
            Expr::Object { props } => {
                out.append("{ ");
                print_props(props, scope, out);
                out.append(" }");
            },
            Expr::RegExp { regex, flags } => {
                out.append("/");
                out.append(regex.as_str());
                out.append("/");
                out.append(flags.as_str());
            },
            Expr::Unary { op, val } => {
                assert(crate::ir::expr_uses(*e)[0] == val.id);
                print_unary(*op, out);
                print_ssa(val, scope, out);
            },
            Expr::Binary { op, left, right } => {
                assert(crate::ir::expr_uses(*e)[0] == left.id);
                assert(crate::ir::expr_uses(*e)[1] == right.id);
                print_ssa(left, scope, out);
                print_binary(*op, out);
                print_ssa(right, scope, out);
            },
            Expr::Delete { obj, prop } => {
                assert(crate::ir::expr_uses(*e)[0] == obj.id);
                assert(crate::ir::expr_uses(*e)[1] == prop.id);
                out.append("<delete> ");
                print_ssa(obj, scope, out);
                out.append("[");
                print_ssa(prop, scope, out);
                out.append("]");
            },
            Expr::Yield { kind, val } => {
                assert(crate::ir::expr_uses(*e)[0] == val.id);
                match kind {
                    YieldKind::Single => out.append("<yield> "),
                    YieldKind::Delegate => out.append("<yield*> "),
                }
                print_ssa(val, scope, out);
            },
            Expr::Await { val } => {
                assert(crate::ir::expr_uses(*e)[0] == val.id);
                out.append("<await> ");
                print_ssa(val, scope, out);
            },
            Expr::Call { kind, base, prop, args } => {
                let ghost u = crate::ir::expr_uses(*e);
                let ghost pu = crate::ir::opt_uses(*prop);
                assert(u[0] == base.id);
                assert forall|i: int| 0 <= i < pu.len() implies n.ssa.contains_key(#[trigger] pu[i]) by {
                    assert(u[1 + i] == pu[i]);
                }
                assert forall|i: int| 0 <= i < crate::ir::args_uses(args@).len() implies n.ssa.contains_key(
                    #[trigger] crate::ir::args_uses(args@)[i]) by {
                    assert(u[1 + pu.len() + i] == crate::ir::args_uses(args@)[i]);
                }
                match kind {
                    CallKind::Call => out.append(""),
                    CallKind::New => out.append("<new> "),
                }
                print_ssa(base, scope, out);
                match prop {
                    Some(p) => {
                        assert(pu[0] == p.id);
                        out.append("[");
                        print_ssa(p, scope, out);
                        out.append("]");
                    },
                    None => out.append(""),
                }
                out.append("(");
                print_args(args, scope, out);
                out.append(")");
            },
            Expr::Function { kind, body } => {
                print_fn_header(*kind, out);
                self.print_block(body, scope, deeper_exec(indent), out, Ghost(prog));
            },
            Expr::CurrentFunction => out.append("<current function>"),
            Expr::Argument { index } => {
                out.append("<argument ");
                push_decimal(out, *index as u64);
                out.append(">");
            },
        }
    }

    fn print_block(&self, b: &Block, parent: &Ir, indent: usize, out: &mut String, Ghost(prog): Ghost<Block>)
        requires
            self.counts.describes(prog),
            formatter_ok(*self.fmt),
            block_ok(*b, names_of(*parent), prog),
        ensures
            final(out)@ == old(out)@ + block_text(*b, names_of(*parent), indent, prog, *self.fmt),
        decreases *b, 2nat,
    {
        let mut scope = parent.nested();
        let ghost n0 = nested_names(names_of(*parent));
        assert(names_of(scope).ssa =~= n0.ssa);
        assert(names_of(scope).muts =~= n0.muts);
        assert(names_of(scope).lbls =~= n0.lbls);
        assert(names_of(scope).own_ssa =~= n0.own_ssa);
        assert(names_of(scope).own_muts =~= n0.own_muts);
        assert(names_of(scope).own_lbls =~= n0.own_lbls);
        assert(names_of(scope) == n0);
        if b.0.len() == 0 {
            start_line(out, indent);
            out.append("<empty>");
            return;
        }
        let ghost items = b.0@;
        let mut i: usize = 0;
        while i < b.0.len()
            invariant
                i <= items.len(),
                items == b.0@,
                items.len() > 0,
                self.counts.describes(prog),
                formatter_ok(*self.fmt),
                stmts_ok(items, n0, prog),
                names_of(scope) == stmts_names(items.take(i as int), n0, prog),
                out@ == old(out)@ + stmts_step(items.take(i as int), n0, indent, prog, *self.fmt).0,
            decreases items.len() - i,
        {
            let ghost pre = items.take(i as int);
            assert(items.take(i + 1).drop_last() =~= pre);
            proof {
                lemma_stmts_ok_prefix(items, i + 1, n0, prog);
                lemma_stmts_step_names(pre, n0, indent, prog, *self.fmt);
            }
            start_line(out, indent);
            self.print_stmt(&b.0[i], &mut scope, indent, out, Ghost(prog));
            i += 1;
        }
        assert(items.take(items.len() as int) =~= items);
    }

    fn print_stmt(&self, s: &Stmt, scope: &mut Ir, indent: usize, out: &mut String, Ghost(prog): Ghost<Block>)
        requires
            self.counts.describes(prog),
            formatter_ok(*self.fmt),
            stmt_ok(*s, names_of(*old(scope)), prog),
        ensures
            final(out)@ == old(out)@ + stmt_step(*s, names_of(*old(scope)), indent, prog, *self.fmt).0,
            names_of(*final(scope)) == stmt_names(*s, names_of(*old(scope)), prog),
        decreases *s, 1nat,
    {
        match s {
            Stmt::Expr { .. } | Stmt::DeclareMutable { .. } | Stmt::Label { .. } => self.print_declaring(
                s,
                scope,
                indent,
                out,
                Ghost(prog),
            ),
            Stmt::Loop { .. } | Stmt::ForEach { .. } | Stmt::Switch { .. } => self.print_compound(
                s,
                scope,
                indent,
                out,
                Ghost(prog),
            ),
            Stmt::IfElse { .. } | Stmt::Try { .. } => self.print_branches(s, scope, indent, out, Ghost(prog)),
            _ => self.print_simple(s, scope, out, Ghost(prog)),
        }
    }

    /// Prints a statement that declares a name.
    fn print_declaring(&self, s: &Stmt, scope: &mut Ir, indent: usize, out: &mut String, Ghost(prog): Ghost<Block>)
        requires
            self.counts.describes(prog),
            formatter_ok(*self.fmt),
            stmt_ok(*s, names_of(*old(scope)), prog),
            s is Expr || s is DeclareMutable || s is Label,
        ensures
            final(out)@ == old(out)@ + stmt_step(*s, names_of(*old(scope)), indent, prog, *self.fmt).0,
            names_of(*final(scope)) == stmt_names(*s, names_of(*old(scope)), prog),
        decreases *s, 0nat,
    {
        let ghost pre_scope = *scope;
        match s {
            Stmt::Expr { target, expr } => {
                if target.used(&self.counts).is_never() {
                    out.append("<dead>");
                } else {
                    let name = scope.declare_ssa(target);
                    proof {
                        lemma_declared(pre_scope, *scope, target.id, target.name_hint@, name, 0);
                    }
                    out.append(name.as_str());
                }
                out.append(" = ");
                self.print_expr(expr, scope, indent, out, Ghost(prog));
            },
            Stmt::DeclareMutable { target, val } => {
                let name = scope.declare_mutable(target);
                proof {
                    lemma_declared(pre_scope, *scope, target.id, target.name_hint@, name, 1);
                }
                out.append(name.as_str());
                out.append(" <= ");
                print_ssa(val, scope, out);
            },
            Stmt::Label { label, body } => {
                let name = scope.declare_label(label);
                proof {
                    lemma_declared(pre_scope, *scope, label.id, label.name_hint@, name, 2);
                }
                out.append("<label ");
                out.append(name.as_str());
                out.append(">:");
                self.print_block(body, scope, deeper_exec(indent), out, Ghost(prog));
            },
            _ => {},
        }
    }

    /// Prints a statement that holds blocks and declares nothing.
    fn print_compound(&self, s: &Stmt, scope: &Ir, indent: usize, out: &mut String, Ghost(prog): Ghost<Block>)
        requires
            self.counts.describes(prog),
            formatter_ok(*self.fmt),
            stmt_ok(*s, names_of(*scope), prog),
            s is Loop || s is ForEach || s is Switch,
        ensures
            final(out)@ == old(out)@ + stmt_step(*s, names_of(*scope), indent, prog, *self.fmt).0,
        decreases *s, 0nat,
    {
        let ghost o = out@;
        let ghost t = stmt_step(*s, names_of(*scope), indent, prog, *self.fmt).0;
        let ind = deeper_exec(indent);
        match s {
            Stmt::Loop { body } => {
                out.append("<loop>:");
                self.print_block(body, scope, ind, out, Ghost(prog));
                assert(out@ =~= o + t);
            },
            Stmt::ForEach { kind, init, body } => {
                out.append("<foreach");
                match kind {
                    ForKind::In => out.append(" in> "),
                    ForKind::Of => out.append(" of> "),
                }
                print_ssa(init, scope, out);
                out.append(":");
                self.print_block(body, scope, ind, out, Ghost(prog));
                assert(out@ =~= o + t);
            },
            Stmt::Switch { discr, body } => {
                out.append("<switch> ");
                print_ssa(discr, scope, out);
                out.append(":");
                self.print_block(body, scope, ind, out, Ghost(prog));
                assert(out@ =~= o + t);
            },
            _ => {},
        }
    }

    /// Prints an `if` or a `try`.
    #[verifier::rlimit(50)]
    fn print_branches(&self, s: &Stmt, scope: &Ir, indent: usize, out: &mut String, Ghost(prog): Ghost<Block>)
        requires
            self.counts.describes(prog),
            formatter_ok(*self.fmt),
            stmt_ok(*s, names_of(*scope), prog),
            s is IfElse || s is Try,
        ensures
            final(out)@ == old(out)@ + stmt_step(*s, names_of(*scope), indent, prog, *self.fmt).0,
        decreases *s, 0nat,
    {
        let ghost o = out@;
        let ghost t = stmt_step(*s, names_of(*scope), indent, prog, *self.fmt).0;
        let ind = deeper_exec(indent);
        match s {
            Stmt::IfElse { cond, cons, alt } => {
                out.append("<if> ");
                print_ssa(cond, scope, out);
                out.append(":");
                self.print_block(cons, scope, ind, out, Ghost(prog));
                start_line(out, indent);
                out.append("<else>:");
                self.print_block(alt, scope, ind, out, Ghost(prog));
                assert(out@ =~= o + t);
            },
            Stmt::Try { body, catch, finally } => {
                out.append("<try>:");
                self.print_block(body, scope, ind, out, Ghost(prog));
                start_line(out, indent);
                out.append("<catch>:");
                self.print_block(catch, scope, ind, out, Ghost(prog));
                start_line(out, indent);
                out.append("<finally>:");
                self.print_block(&**finally, scope, ind, out, Ghost(prog));
                assert(out@ =~= o + t);
            },
            _ => {},
        }
    }

    /// Prints a statement that holds no block and declares nothing.
    fn print_simple(&self, s: &Stmt, scope: &Ir, out: &mut String, Ghost(prog): Ghost<Block>)
        requires
            stmt_ok(*s, names_of(*scope), prog),
            !(s is Expr || s is DeclareMutable || s is Label || s is Loop || s is ForEach || s is IfElse
                || s is Switch || s is Try),
        ensures
            forall|indent: usize, f: F| final(out)@ == old(out)@ + #[trigger] stmt_step(*s, names_of(*scope), indent, prog, f).0,
    {
        match s {
            Stmt::WriteMutable { target, val } => {
                match scope.get_mutable(target) {
                    Some(name) => out.append(name.as_str()),
                    None => {},
                }
                out.append(" <- ");
                print_ssa(val, scope, out);
            },
            Stmt::WriteGlobal { target, val } => {
                assert(crate::ir::stmt_uses(*s)[0] == val.id);
                out.append("<global ");
                out.append(target.as_str());
                out.append("> <- ");
                print_ssa(val, scope, out);
            },
            Stmt::WriteMember { obj, prop, val } => {
                assert(crate::ir::stmt_uses(*s)[0] == obj.id);
                assert(crate::ir::stmt_uses(*s)[1] == prop.id);
                assert(crate::ir::stmt_uses(*s)[2] == val.id);
                print_ssa(obj, scope, out);
                out.append("[");
                print_ssa(prop, scope, out);
                out.append("] <- ");
                print_ssa(val, scope, out);
            },
            Stmt::Return { val } => {
                assert(crate::ir::stmt_uses(*s)[0] == val.id);
                out.append("<return> ");
                print_ssa(val, scope, out);
            },
            Stmt::Throw { val } => {
                assert(crate::ir::stmt_uses(*s)[0] == val.id);
                out.append("<throw> ");
                print_ssa(val, scope, out);
            },
            Stmt::Break { label } => self.print_jump(label, "break", scope, out),
            Stmt::Continue { label } => self.print_jump(label, "continue", scope, out),
            Stmt::Debugger => out.append("<debugger>"),
            Stmt::SwitchCase { val } => match val {
                Some(v) => {
                    assert(crate::ir::stmt_uses(*s)[0] == v.id);
                    out.append("<case> ");
                    print_ssa(v, scope, out);
                    out.append(":");
                },
                None => out.append("<default>:"),
            },
            _ => {},
        }
    }

    fn print_jump(&self, label: &Option<Ref<Lbl>>, word: &str, scope: &Ir, out: &mut String)
        requires
            label matches Some(l) ==> names_of(*scope).lbls.contains_key(l.id),
        ensures
            final(out)@ == old(out)@ + lbl_opt_text(*label, names_of(*scope), word@),
    {
        out.append("<");
        out.append(word);
        match label {
            Some(l) => {
                out.append(" ");
                match scope.get_label(l) {
                    Some(name) => out.append(name.as_str()),
                    None => {},
                }
            },
            None => {},
        }
        out.append(">");
    }
}

pub proof fn lemma_stmts_ok_prefix(ss: Seq<Stmt>, k: int, n: Names, prog: Block)
    requires
        stmts_ok(ss, n, prog),
        0 < k <= ss.len(),
    ensures
        stmts_ok(ss.take(k), n, prog),
        stmt_ok(ss[k - 1], stmts_names(ss.take(k - 1), n, prog), prog),
    decreases ss.len(),
{
    if k == ss.len() {
        assert(ss.take(k) =~= ss);
        assert(ss.drop_last() =~= ss.take(k - 1));
    } else {
        assert(ss.drop_last().take(k) =~= ss.take(k));
        assert(ss.drop_last().take(k - 1) =~= ss.take(k - 1));
        lemma_stmts_ok_prefix(ss.drop_last(), k, n, prog);
    }
}

pub proof fn lemma_stmts_step_names<F: Fn(u64) -> String>(ss: Seq<Stmt>, n: Names, indent: usize, prog: Block, f: F)
    ensures
        stmts_step(ss, n, indent, prog, f).1 == stmts_names(ss, n, prog),
    decreases ss.len(),
{
    if ss.len() > 0 {
        lemma_stmts_step_names(ss.drop_last(), n, indent, prog, f);
        lemma_stmt_step_names(ss.last(), stmts_names(ss.drop_last(), n, prog), indent, prog, f);
    }
}

/// Prints a program, one statement per line, nested blocks indented, refs named as an
/// output scope with no globals would name them; numbers are formatted by `fmt`.
pub fn print<F: Fn(u64) -> String>(ir: &Block, fmt: &F) -> (r: String)
    requires
        formatter_ok(*fmt),
        block_ok(*ir, initial_names(), *ir),
    ensures
        r@ == block_text(*ir, initial_names(), 0, *ir, *fmt).drop_first(),
{
    let counts = count_uses(ir);
    let p = Printer { counts, fmt };
    let scope = Ir::no_globals();
    let ghost n = names_of(scope);
    assert(n.seen =~= initial_names().seen);
    assert(n.ssa =~= initial_names().ssa);
    assert(n.muts =~= initial_names().muts);
    assert(n.lbls =~= initial_names().lbls);
    assert(n.own_ssa =~= initial_names().own_ssa);
    assert(n.own_muts =~= initial_names().own_muts);
    assert(n.own_lbls =~= initial_names().own_lbls);
    assert(n == initial_names());
    let mut out = String::new();
    p.print_block(ir, &scope, 0, &mut out, Ghost(*ir));
    let len = out.as_str().unicode_len();
    if len == 0 {
        return out;
    }
    out.as_str().substring_char(1, len).to_owned()
}

} // verus!
