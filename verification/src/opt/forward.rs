//! Forwarding of `Read` expressions to the SSA values they read.

use vstd::prelude::*;

use std::collections::HashMap;

use crate::ir::{
    lemma_nested_block_decreases, stmt_blocks, used_of, Block, EleKind, Expr, PropKind, Ref,
    ScopeTy, Stmt, UseCounts, SSA, count_uses, occ_block, sat,
};
use crate::traverse::{put_blocks, same_frame, take_blocks};

verus! {

/// Forward `Expr::Read` to the source SSA ref.
///
/// Does not profit from DCE running first; may create opportunities for DCE.
pub struct Reads {
    pub ssa_remappings: HashMap<u64, What>,
}

/// What becomes of an SSA ref.
pub enum What {
    /// Its (single-use) definition moves down to replace the read that immediately follows.
    MoveToNext,
    /// Its uses read the given ref instead.
    ForwardTo(Ref<SSA>),
}

// ---------------------------------------------------------------------------
// The analysis: a walk over every statement in preorder.
// ---------------------------------------------------------------------------

/// The statements of a block in preorder: each statement, then the statements of the
/// blocks it holds.
pub open spec fn preorder_block(b: Block) -> Seq<Stmt>
    decreases b, 0nat,
{
    preorder_stmts(b.0@)
}

pub open spec fn preorder_stmts(ss: Seq<Stmt>) -> Seq<Stmt>
    decreases ss, 0nat,
{
    if ss.len() == 0 {
        Seq::empty()
    } else {
        preorder_stmts(ss.drop_last()) + preorder_stmt(ss.last())
    }
}

pub open spec fn preorder_stmt(s: Stmt) -> Seq<Stmt>
    decreases s, stmt_blocks(s).len() + 1,
{
    seq![s] + preorder_nested(s, stmt_blocks(s).len())
}

pub open spec fn preorder_nested(s: Stmt, k: nat) -> Seq<Stmt>
    decreases s, k,
{
    if k == 0 || k > stmt_blocks(s).len() {
        Seq::empty()
    } else {
        preorder_nested(s, (k - 1) as nat) + preorder_block(stmt_blocks(s)[k - 1].1)
    }
}

pub open spec fn is_once(prog: Block, id: u64) -> bool {
    used_of(sat(occ_block(prog, id))) is Once
}

/// The remappings after walking `ss`, and the ref defined by the last statement walked if
/// that ref is used once.
pub open spec fn remap_after(ss: Seq<Stmt>, prog: Block) -> (Map<u64, What>, Option<u64>)
    decreases ss.len(),
{
    if ss.len() == 0 {
        (Map::empty(), None)
    } else {
        let (m, prev) = remap_after(ss.drop_last(), prog);
        match ss.last() {
            Stmt::Expr { target, expr } => {
                let m2 = match expr {
                    Expr::Read { source } => if prev == Some(source.id) {
                        m.insert(source.id, What::MoveToNext)
                    } else if m.contains_key(source.id) && m[source.id] is ForwardTo {
                        m.insert(target.id, What::ForwardTo(m[source.id]->ForwardTo_0))
                    } else if m.contains_key(source.id) {
                        m
                    } else {
                        m.insert(target.id, What::ForwardTo(source))
                    },
                    _ => m,
                };
                (m2, if is_once(prog, target.id) { Some(target.id) } else { None })
            },
            _ => (m, None),
        }
    }
}

/// The remappings computed for a whole program.
pub open spec fn remappings_of(prog: Block) -> Map<u64, What> {
    remap_after(preorder_block(prog), prog).0
}

fn clone_ref(r: &Ref<SSA>) -> (c: Ref<SSA>)
    ensures
        c == *r,
{
    r.duplicate()
}

/// Walks statements in preorder, updating the remappings.
#[verifier::rlimit(50)]
#[verifier::spinoff_prover]
fn collect_block(
    b: &Block,
    m: &mut HashMap<u64, What>,
    prev: &mut Option<u64>,
    counts: &UseCounts,
    Ghost(prog): Ghost<Block>,
    Ghost(walked): Ghost<Seq<Stmt>>,
)
    requires
        counts.describes(prog),
        (old(m)@, *old(prev)) == remap_after(walked, prog),
    ensures
        (final(m)@, *final(prev)) == remap_after(walked + preorder_block(*b), prog),
    decreases *b,
{
    broadcast use vstd::std_specs::hash::group_hash_axioms;
    let mut i: usize = 0;
    while i < b.0.len()
        invariant
            counts.describes(prog),
            i <= b.0@.len(),
            (m@, *prev) == remap_after(walked + preorder_stmts(b.0@.take(i as int)), prog),
        decreases b.0@.len() - i,
    {
        let s = &b.0[i];
        assert(b.0@.take(i + 1).drop_last() == b.0@.take(i as int));
        let ghost w0 = walked + preorder_stmts(b.0@.take(i as int));
        assert((w0 + seq![*s]).drop_last() == w0);
        match s {
            Stmt::Expr { target, expr } => {
                match expr {
                    Expr::Read { source } => {
                        if *prev == Some(source.id) {
                            m.insert(source.id, What::MoveToNext);
                        } else {
                            let fwd: Option<Ref<SSA>> = match m.get(&source.id) {
                                Some(What::ForwardTo(orig)) => Some(clone_ref(orig)),
                                Some(What::MoveToNext) => None,
                                None => Some(clone_ref(source)),
                            };
                            match fwd {
                                Some(r) => {
                                    m.insert(target.id, What::ForwardTo(r));
                                },
                                None => {},
                            }
                        }
                    },
                    _ => {},
                }
                *prev = if target.used(counts).is_once() { Some(target.id) } else { None };
            },
            _ => {
                *prev = None;
            },
        }
        let ghost w1 = w0 + seq![*s];
        assert((m@, *prev) == remap_after(w1, prog));
        let nested = crate::ir::nested_blocks(s);
        let mut j: usize = 0;
        while j < nested.len()
            invariant
                counts.describes(prog),
                i < b.0@.len(),
                *s == b.0@[i as int],
                j <= nested@.len(),
                nested@.len() == stmt_blocks(*s).len(),
                forall|k: int| 0 <= k < nested@.len() ==> *nested@[k] == #[trigger] stmt_blocks(*s)[k].1,
                (m@, *prev) == remap_after(w1 + preorder_nested(*s, j as nat), prog),
            decreases nested@.len() - j,
        {
            proof {
                lemma_nested_block_decreases(*b, i as int, j as int);
            }
            let ghost wj = w1 + preorder_nested(*s, j as nat);
            collect_block(nested[j], m, prev, counts, Ghost(prog), Ghost(wj));
            assert(wj + preorder_block(stmt_blocks(*s)[j as int].1) =~= w1 + preorder_nested(*s, (j + 1) as nat));
            j += 1;
        }
        assert(preorder_stmts(b.0@.take(i + 1)) == preorder_stmts(b.0@.take(i as int)) + preorder_stmt(*s));
        assert(preorder_stmt(*s) == seq![*s] + preorder_nested(*s, stmt_blocks(*s).len()));
        assert(w1 + preorder_nested(*s, stmt_blocks(*s).len()) =~= walked + preorder_stmts(b.0@.take(i + 1)));
        i += 1;
    }
    assert(b.0@.take(b.0@.len() as int) == b.0@);
}

// ---------------------------------------------------------------------------
// Substitution of forwarded uses.
// ---------------------------------------------------------------------------

/// The ref a use of `r` reads after forwarding.
pub open spec fn fwd(r: Ref<SSA>, remap: Map<u64, What>) -> Ref<SSA> {
    if remap.contains_key(r.id) && remap[r.id] is ForwardTo {
        remap[r.id]->ForwardTo_0
    } else {
        r
    }
}

pub open spec fn fwd_opt(r: Option<Ref<SSA>>, remap: Map<u64, What>) -> Option<Ref<SSA>> {
    match r {
        Some(r) => Some(fwd(r, remap)),
        None => None,
    }
}

/// `e2` is `e` with every read ref forwarded (a function body is left to be compared apart).
pub open spec fn subst_expr_rel(e: Expr, e2: Expr, remap: Map<u64, What>) -> bool {
    match e {
        Expr::Read { source } => e2 == Expr::Read { source: fwd(source, remap) },
        Expr::ReadMember { obj, prop } => e2 == Expr::ReadMember {
            obj: fwd(obj, remap),
            prop: fwd(prop, remap),
        },
        Expr::Array { elems } => {
            &&& e2 matches Expr::Array { elems: elems2 }
            &&& elems2@.len() == elems@.len()
            &&& forall|i: int|
                0 <= i < elems@.len() ==> (match #[trigger] elems@[i] {
                    None => elems2@[i] is None,
                    Some((k, r)) => elems2@[i] == Some((k, fwd(r, remap))),
                })
        },
        Expr::Object { props } => {
            &&& e2 matches Expr::Object { props: props2 }
            &&& props2@.len() == props@.len()
            &&& forall|i: int|
                0 <= i < props@.len() ==> props2@[i] == (
                    #[trigger] props@[i].0,
                    fwd(props@[i].1, remap),
                    fwd(props@[i].2, remap),
                )
        },
        Expr::Unary { op, val } => e2 == Expr::Unary { op, val: fwd(val, remap) },
        Expr::Binary { op, left, right } => e2 == Expr::Binary {
            op,
            left: fwd(left, remap),
            right: fwd(right, remap),
        },
        Expr::Delete { obj, prop } => e2 == Expr::Delete {
            obj: fwd(obj, remap),
            prop: fwd(prop, remap),
        },
        Expr::Yield { kind, val } => e2 == Expr::Yield { kind, val: fwd(val, remap) },
        Expr::Await { val } => e2 == Expr::Await { val: fwd(val, remap) },
        Expr::Call { kind, base, prop, args } => {
            &&& e2 matches Expr::Call { kind: k2, base: b2, prop: p2, args: args2 }
            &&& k2 == kind
            &&& b2 == fwd(base, remap)
            &&& p2 == fwd_opt(prop, remap)
            &&& args2@.len() == args@.len()
            &&& forall|i: int|
                0 <= i < args@.len() ==> args2@[i] == (#[trigger] args@[i].0, fwd(args@[i].1, remap))
        },
        Expr::Function { kind, .. } => e2 matches Expr::Function { kind: k2, .. } && k2 == kind,
        _ => e2 == e,
    }
}

/// `t` is `s` with every read ref forwarded, nested blocks aside.
pub open spec fn subst_frame_rel(s: Stmt, t: Stmt, remap: Map<u64, What>) -> bool {
    match s {
        Stmt::Expr { target, expr } => {
            &&& t matches Stmt::Expr { target: t2, expr: e2 }
            &&& t2 == target
            &&& subst_expr_rel(expr, e2, remap)
        },
        Stmt::DeclareMutable { target, val } => t == Stmt::DeclareMutable {
            target,
            val: fwd(val, remap),
        },
        Stmt::WriteMutable { target, val } => t == Stmt::WriteMutable {
            target,
            val: fwd(val, remap),
        },
        Stmt::WriteGlobal { target, val } => t == Stmt::WriteGlobal {
            target,
            val: fwd(val, remap),
        },
        Stmt::WriteMember { obj, prop, val } => t == Stmt::WriteMember {
            obj: fwd(obj, remap),
            prop: fwd(prop, remap),
            val: fwd(val, remap),
        },
        Stmt::Return { val } => t == Stmt::Return { val: fwd(val, remap) },
        Stmt::Throw { val } => t == Stmt::Throw { val: fwd(val, remap) },
        Stmt::Label { label, .. } => t matches Stmt::Label { label: l2, .. } && l2 == label,
        Stmt::Loop { .. } => t is Loop,
        Stmt::ForEach { kind, init, .. } => {
            &&& t matches Stmt::ForEach { kind: k2, init: i2, .. }
            &&& k2 == kind
            &&& i2 == fwd(init, remap)
        },
        Stmt::IfElse { cond, .. } => t matches Stmt::IfElse { cond: c2, .. } && c2 == fwd(
            cond,
            remap,
        ),
        Stmt::Switch { discr, .. } => t matches Stmt::Switch { discr: d2, .. } && d2 == fwd(
            discr,
            remap,
        ),
        Stmt::SwitchCase { val } => t == Stmt::SwitchCase { val: fwd_opt(val, remap) },
        Stmt::Try { .. } => t is Try,
        _ => t == s,
    }
}

impl Reads {
    fn fwd_ref(&self, r: Ref<SSA>) -> (o: Ref<SSA>)
        ensures
            o == fwd(r, self.ssa_remappings@),
    {
        broadcast use vstd::std_specs::hash::group_hash_axioms;
        match self.ssa_remappings.get(&r.id) {
            Some(What::ForwardTo(orig)) => clone_ref(orig),
            _ => r,
        }
    }

    fn fwd_opt_ref(&self, r: Option<Ref<SSA>>) -> (o: Option<Ref<SSA>>)
        ensures
            o == fwd_opt(r, self.ssa_remappings@),
    {
        match r {
            Some(r) => Some(self.fwd_ref(r)),
            None => None,
        }
    }

    fn subst_expr(&self, e: Expr) -> (r: Expr)
        ensures
            subst_expr_rel(e, r, self.ssa_remappings@),
            e is Function ==> r == e,
            !(e is Function) ==> !(r is Function),
    {
        match e {
            Expr::Read { source } => Expr::Read { source: self.fwd_ref(source) },
            Expr::ReadMember { obj, prop } => Expr::ReadMember {
                obj: self.fwd_ref(obj),
                prop: self.fwd_ref(prop),
            },
            Expr::Array { elems } => {
                let ghost e0 = elems@;
                let mut out: Vec<Option<(EleKind, Ref<SSA>)>> = Vec::new();
                for el in it: elems.into_iter()
                    invariant
                        it.seq() == e0,
                        out@.len() == it.index(),
                        forall|i: int|
                            0 <= i < it.index() ==> (match #[trigger] e0[i] {
                                None => out@[i] is None,
                                Some((k, r)) => out@[i] == Some((k, fwd(r, self.ssa_remappings@))),
                            }),
                {
                    match el {
                        Some((k, r)) => out.push(Some((k, self.fwd_ref(r)))),
                        None => out.push(None),
                    }
                }
                Expr::Array { elems: out }
            },
            Expr::Object { props } => {
                let ghost p0 = props@;
                let mut out: Vec<(PropKind, Ref<SSA>, Ref<SSA>)> = Vec::new();
                for p in it: props.into_iter()
                    invariant
                        it.seq() == p0,
                        out@.len() == it.index(),
                        forall|i: int|
                            0 <= i < it.index() ==> out@[i] == (
                                #[trigger] p0[i].0,
                                fwd(p0[i].1, self.ssa_remappings@),
                                fwd(p0[i].2, self.ssa_remappings@),
                            ),
                {
                    let (k, a, b) = p;
                    out.push((k, self.fwd_ref(a), self.fwd_ref(b)));
                }
                Expr::Object { props: out }
            },
            Expr::Unary { op, val } => Expr::Unary { op, val: self.fwd_ref(val) },
            Expr::Binary { op, left, right } => Expr::Binary {
                op,
                left: self.fwd_ref(left),
                right: self.fwd_ref(right),
            },
            Expr::Delete { obj, prop } => Expr::Delete {
                obj: self.fwd_ref(obj),
                prop: self.fwd_ref(prop),
            },
            Expr::Yield { kind, val } => Expr::Yield { kind, val: self.fwd_ref(val) },
            Expr::Await { val } => Expr::Await { val: self.fwd_ref(val) },
            Expr::Call { kind, base, prop, args } => {
                let ghost a0 = args@;
                let mut out: Vec<(EleKind, Ref<SSA>)> = Vec::new();
                for a in it: args.into_iter()
                    invariant
                        it.seq() == a0,
                        out@.len() == it.index(),
                        forall|i: int|
                            0 <= i < it.index() ==> out@[i] == (
                                #[trigger] a0[i].0,
                                fwd(a0[i].1, self.ssa_remappings@),
                            ),
                {
                    let (k, r) = a;
                    out.push((k, self.fwd_ref(r)));
                }
                let b = self.fwd_ref(base);
                let p = self.fwd_opt_ref(prop);
                Expr::Call { kind, base: b, prop: p, args: out }
            },
            other => other,
        }
    }
}


// ---------------------------------------------------------------------------
// The rewrite.
// ---------------------------------------------------------------------------

pub open spec fn is_move(remap: Map<u64, What>, id: u64) -> bool {
    remap.contains_key(id) && remap[id] is MoveToNext
}

/// The statement written for plan entry `(i, j)`: statement `i` of `items`, with the expression
/// of statement `j` in place of its own when the two differ.
pub open spec fn eff_stmt(items: Seq<Stmt>, e: (int, int)) -> Stmt {
    if e.0 == e.1 {
        items[e.0]
    } else {
        Stmt::Expr { target: items[e.0]->Expr_target, expr: items[e.1]->Expr_expr }
    }
}

pub open spec fn restore_of(p: Option<(int, int)>) -> Seq<(int, int)> {
    match p {
        Some(e) => seq![e],
        None => Seq::empty(),
    }
}

/// What statement `i` contributes to the output, given the pending moved definition `p`, and
/// what is pending after it. A pending definition is an entry `(i, j)`: the target of
/// statement `i` with the expression of statement `j`.
pub open spec fn fwd_step(items: Seq<Stmt>, p: Option<(int, int)>, i: int, remap: Map<u64, What>) -> (
    Seq<(int, int)>,
    Option<(int, int)>,
) {
    match items[i] {
        Stmt::Expr { target, expr } => {
            let (restore, j) = match p {
                Some(e) => if expr is Read {
                    (Seq::<(int, int)>::empty(), e.1)
                } else {
                    (seq![e], i)
                },
                None => (Seq::<(int, int)>::empty(), i),
            };
            if is_move(remap, target.id) {
                (restore, Some((i, j)))
            } else {
                (restore.push((i, j)), None)
            }
        },
        _ => (restore_of(p).push((i, i)), None),
    }
}

/// The output plan for the first `n` statements, and what is pending after them.
pub open spec fn fwd_plan_prefix(items: Seq<Stmt>, n: int, remap: Map<u64, What>) -> (
    Seq<(int, int)>,
    Option<(int, int)>,
)
    decreases n,
{
    if n <= 0 {
        (Seq::empty(), None)
    } else {
        let (ps, p) = fwd_plan_prefix(items, n - 1, remap);
        let (o, p2) = fwd_step(items, p, n - 1, remap);
        (ps + o, p2)
    }
}

/// The output plan of a whole block: a definition still pending at its end is written back.
pub open spec fn fwd_plan(items: Seq<Stmt>, remap: Map<u64, What>) -> Seq<(int, int)> {
    let (ps, p) = fwd_plan_prefix(items, items.len() as int, remap);
    ps + restore_of(p)
}

/// `b` is `a` with reads forwarded under `remap`.
pub open spec fn fwd_block_rel(a: Block, b: Block, remap: Map<u64, What>) -> bool
    decreases a, 1nat,
{
    fwd_seq_rel(a.0@, b.0@, remap)
}

pub open spec fn fwd_seq_rel(items: Seq<Stmt>, outs: Seq<Stmt>, remap: Map<u64, What>) -> bool
    decreases items, 0nat,
{
    let plan = fwd_plan(items, remap);
    &&& outs.len() == plan.len()
    &&& forall|k: int|
        0 <= k < plan.len() ==> {
            &&& 0 <= #[trigger] plan[k].1 < items.len()
            &&& fwd_stmt_rel(items[plan[k].1], eff_stmt(items, plan[k]), outs[k], remap)
        }
}

/// `t` is `s` with reads forwarded; the blocks of `s` are those of `src`, which they came from.
pub open spec fn fwd_stmt_rel(src: Stmt, s: Stmt, t: Stmt, remap: Map<u64, What>) -> bool
    decreases src, 2nat,
{
    &&& subst_frame_rel(s, t, remap)
    &&& stmt_blocks(t).len() == stmt_blocks(src).len()
    &&& forall|j: int|
        0 <= j < stmt_blocks(src).len() ==> fwd_block_rel(
            #[trigger] stmt_blocks(src)[j].1,
            stmt_blocks(t)[j].1,
            remap,
        )
}

pub proof fn lemma_subst_then_frame(s: Stmt, s2: Stmt, t: Stmt, remap: Map<u64, What>)
    requires
        subst_frame_rel(s, s2, remap),
        !(s matches Stmt::Expr { expr: Expr::Function { .. }, .. }) ==> !(s2 matches Stmt::Expr {
            expr: Expr::Function { .. },
            ..
        }),
        same_frame(s2, t),
    ensures
        subst_frame_rel(s, t, remap),
{
}

impl Reads {
    /// `s` with every read ref forwarded; nested blocks are left alone.
    fn subst_stmt(&self, s: Stmt) -> (t: Stmt)
        ensures
            subst_frame_rel(s, t, self.ssa_remappings@),
            stmt_blocks(t) == stmt_blocks(s),
            !(s matches Stmt::Expr { expr: Expr::Function { .. }, .. }) ==> !(t matches Stmt::Expr {
                expr: Expr::Function { .. },
                ..
            }),
    {
        match s {
            Stmt::Expr { target, expr } => Stmt::Expr { target, expr: self.subst_expr(expr) },
            Stmt::DeclareMutable { target, val } => Stmt::DeclareMutable {
                target,
                val: self.fwd_ref(val),
            },
            Stmt::WriteMutable { target, val } => Stmt::WriteMutable {
                target,
                val: self.fwd_ref(val),
            },
            Stmt::WriteGlobal { target, val } => Stmt::WriteGlobal {
                target,
                val: self.fwd_ref(val),
            },
            Stmt::WriteMember { obj, prop, val } => {
                let o = self.fwd_ref(obj);
                let p = self.fwd_ref(prop);
                let v = self.fwd_ref(val);
                Stmt::WriteMember { obj: o, prop: p, val: v }
            },
            Stmt::Return { val } => Stmt::Return { val: self.fwd_ref(val) },
            Stmt::Throw { val } => Stmt::Throw { val: self.fwd_ref(val) },
            Stmt::ForEach { kind, init, body } => Stmt::ForEach {
                kind,
                init: self.fwd_ref(init),
                body,
            },
            Stmt::IfElse { cond, cons, alt } => Stmt::IfElse { cond: self.fwd_ref(cond), cons, alt },
            Stmt::Switch { discr, body } => Stmt::Switch { discr: self.fwd_ref(discr), body },
            Stmt::SwitchCase { val } => Stmt::SwitchCase { val: self.fwd_opt_ref(val) },
            other => other,
        }
    }

    /// Writes one planned statement: forwards its reads and rewrites the blocks it holds,
    /// which are those of statement `src` of `orig`.
    fn emit(&self, s: Stmt, Ghost(orig): Ghost<Block>, Ghost(src): Ghost<int>) -> (t: Stmt)
        requires
            0 <= src < orig.0@.len(),
            stmt_blocks(s) == stmt_blocks(orig.0@[src]),
        ensures
            fwd_stmt_rel(orig.0@[src], s, t, self.ssa_remappings@),
        decreases orig, 0nat,
    {
        let ghost s0 = s;
        let s2 = self.subst_stmt(s);
        let (frame, bs) = take_blocks(s2);
        let mut done: Vec<Block> = Vec::new();
        for pair in jt: bs.into_iter()
            invariant
                jt.seq() == stmt_blocks(orig.0@[src]),
                0 <= src < orig.0@.len(),
                done@.len() == jt.index(),
                forall|j: int|
                    0 <= j < jt.index() ==> fwd_block_rel(
                        #[trigger] stmt_blocks(orig.0@[src])[j].1,
                        done@[j],
                        self.ssa_remappings@,
                    ),
        {
            let ghost j = jt.index() as int;
            proof {
                lemma_nested_block_decreases(orig, src, j);
            }
            assert(pair == stmt_blocks(orig.0@[src])[j]);
            let (_, b) = pair;
            let nb = self.fold_block(b);
            done.push(nb);
        }
        let t = put_blocks(frame, done);
        proof {
            crate::traverse::lemma_same_frame_trans(s2, frame, t);
            lemma_subst_then_frame(s0, s2, t, self.ssa_remappings@);
        }
        t
    }

    fn is_moved(&self, id: u64) -> (r: bool)
        ensures
            r == is_move(self.ssa_remappings@, id),
    {
        broadcast use vstd::std_specs::hash::group_hash_axioms;
        match self.ssa_remappings.get(&id) {
            Some(What::MoveToNext) => true,
            _ => false,
        }
    }

    /// Forwards reads in a block and, recursively, in the blocks it holds.
    #[verifier::loop_isolation(false)]
    fn fold_block(&self, block: Block) -> (r: Block)
        ensures
            fwd_block_rel(block, r, self.ssa_remappings@),
        decreases block, 1nat,
    {
        let ghost orig = block;
        let ghost remap = self.ssa_remappings@;
        let Block(children) = block;
        let ghost items = children@;
        let mut out: Vec<Stmt> = Vec::new();
        let mut pending: Option<(Ref<SSA>, Expr)> = None;
        let ghost mut gp: Option<(int, int)> = None;
        for stmt in it: children.into_iter()
            invariant
                it.seq() == items,
                items == orig.0@,
                remap == self.ssa_remappings@,
                (fwd_plan_prefix(items, it.index() as int, remap).1) == gp,
                match gp {
                    Some(e) => {
                        &&& 0 <= e.0 < it.index()
                        &&& 0 <= e.1 < it.index()
                        &&& items[e.0] is Expr
                        &&& items[e.1] is Expr
                        &&& pending == Some((items[e.0]->Expr_target, items[e.1]->Expr_expr))
                    },
                    None => pending is None,
                },
                ({
                    let ps = fwd_plan_prefix(items, it.index() as int, remap).0;
                    &&& out@.len() == ps.len()
                    &&& forall|k: int|
                        0 <= k < ps.len() ==> {
                            &&& 0 <= #[trigger] ps[k].1 < items.len()
                            &&& fwd_stmt_rel(items[ps[k].1], eff_stmt(items, ps[k]), out@[k], remap)
                        }
                }),
        {
            let ghost i = it.index() as int;
            let ghost ps0 = fwd_plan_prefix(items, i, remap).0;
            let ghost out0 = out@;
            assert(stmt == items[i]);
            let p = pending;
            pending = None;
            match stmt {
                Stmt::Expr { target, expr } => {
                    let mut expr = expr;
                    let is_read = match &expr {
                        Expr::Read { .. } => true,
                        _ => false,
                    };
                    let ghost mut j: int = i;
                    match p {
                        Some((pt, pe)) => {
                            if is_read {
                                expr = pe;
                                proof {
                                    j = gp->Some_0.1;
                                }
                            } else {
                                let ghost e = gp->Some_0;
                                let t = self.emit(Stmt::Expr { target: pt, expr: pe }, Ghost(orig), Ghost(e.1));
                                assert(Stmt::Expr { target: pt, expr: pe } == eff_stmt(items, e));
                                out.push(t);
                            }
                        },
                        None => {},
                    }
                    if self.is_moved(target.id) {
                        pending = Some((target, expr));
                        proof {
                            gp = Some((i, j));
                        }
                    } else {
                        let s = Stmt::Expr { target, expr };
                        assert(s == eff_stmt(items, (i, j)));
                        let t = self.emit(s, Ghost(orig), Ghost(j));
                        out.push(t);
                        proof {
                            gp = None;
                        }
                    }
                },
                other => {
                    match p {
                        Some((pt, pe)) => {
                            let ghost e = gp->Some_0;
                            let t = self.emit(Stmt::Expr { target: pt, expr: pe }, Ghost(orig), Ghost(e.1));
                            assert(Stmt::Expr { target: pt, expr: pe } == eff_stmt(items, e));
                            out.push(t);
                        },
                        None => {},
                    }
                    let t = self.emit(other, Ghost(orig), Ghost(i));
                    out.push(t);
                    proof {
                        gp = None;
                    }
                },
            }
            assert(fwd_plan_prefix(items, i + 1, remap).0 =~= ps0 + fwd_step(items, fwd_plan_prefix(items, i, remap).1, i, remap).0);
        }
        let ghost ps = fwd_plan_prefix(items, items.len() as int, remap).0;
        match pending {
            Some((pt, pe)) => {
                let ghost e = gp->Some_0;
                let t = self.emit(Stmt::Expr { target: pt, expr: pe }, Ghost(orig), Ghost(e.1));
                assert(Stmt::Expr { target: pt, expr: pe } == eff_stmt(items, e));
                out.push(t);
            },
            None => {},
        }
        assert(fwd_plan(items, remap) =~= ps + restore_of(gp));
        Block(out)
    }
}

impl Reads {
    /// Computes the remappings of a whole program: walks it in preorder, marking single-use
    /// definitions read by the very next statement to move there, and forwarding other reads
    /// to their (already forwarded) source.
    pub fn collect(prog: &Block) -> (r: Reads)
        ensures
            r.ssa_remappings@ == remappings_of(*prog),
    {
        let counts = count_uses(prog);
        let mut m: HashMap<u64, What> = HashMap::new();
        let mut prev: Option<u64> = None;
        proof {
            assert(m@ == Map::<u64, What>::empty());
        }
        collect_block(prog, &mut m, &mut prev, &counts, Ghost(*prog), Ghost(Seq::empty()));
        assert(Seq::<Stmt>::empty() + preorder_block(*prog) =~= preorder_block(*prog));
        Reads { ssa_remappings: m }
    }

    /// Runs read forwarding over a whole program.
    pub fn run(block: Block) -> (r: Block)
        ensures
            fwd_block_rel(block, r, remappings_of(block)),
    {
        let reads = Reads::collect(&block);
        reads.fold_block(block)
    }
}

} // verus!
