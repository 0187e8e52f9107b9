//! Inlining of functions called a single time.

use vstd::prelude::*;

use std::collections::{HashMap, HashSet};

use crate::collections::ZeroOneMany;
use crate::ir::{
    lemma_nested_block_decreases, stmt_blocks, used_of, Block, CallKind, EleKind, Expr, FnKind, Ref,
    ScopeTy, Stmt, UseCounts, SSA,
};
use crate::traverse::{put_blocks, same_frame, take_blocks};
use crate::visit::{run_block, run_visitor, Visitor};

use vstd::string::StringExecFns;

verus! {

// ---------------------------------------------------------------------------
// Which functions to inline.
// ---------------------------------------------------------------------------

/// Abstract state of the analysis.
pub struct FnCallState {
    /// Functions whose single call is to be replaced by their body.
    pub fns_to_inline: Set<u64>,
    /// Functions whose definition can be inlined.
    pub fn_def_is_good: Set<u64>,
    pub about_to_enter_arrow_fn: bool,
    pub about_to_enter_fn: Option<u64>,
    /// The function being analysed, while nothing rules it out.
    pub current_fn: Option<u64>,
    /// Depth of nested non-function scopes in the current function.
    pub depth_in_current_fn: u64,
    pub used_this: bool,
    pub counts: spec_fn(u64) -> nat,
}

/// What entering a scope sets aside of the enclosing state.
pub struct FnCallSavedState {
    pub is_arrow_fn: bool,
    pub current_fn: Option<u64>,
    pub depth_in_current_fn: u64,
    pub used_this: bool,
}

pub open spec fn sat_inc(d: u64) -> u64 {
    if d == u64::MAX {
        d
    } else {
        (d + 1) as u64
    }
}

pub open spec fn opt_set(o: Option<u64>) -> Set<u64> {
    match o {
        Some(x) => set![x],
        None => Set::empty(),
    }
}

/// Whether every argument is passed as is (none is spread).
pub open spec fn all_single(args: Seq<(EleKind, Ref<SSA>)>) -> bool {
    forall|i: int| 0 <= i < args.len() ==> (#[trigger] args[i]).0 == EleKind::Single
}

pub open spec fn fn_call_visit(st: FnCallState, s: Stmt) -> FnCallState {
    match s {
        Stmt::Expr { target, expr } => {
            let once = used_of((st.counts)(target.id)) is Once;
            match expr {
                Expr::Function { kind, .. } => if kind == (FnKind::Func { is_async: false, is_generator: false }) && once {
                    FnCallState { about_to_enter_fn: Some(target.id), ..st }
                } else if kind == (FnKind::Arrow { is_async: false }) && once {
                    FnCallState { about_to_enter_arrow_fn: true, about_to_enter_fn: Some(target.id), ..st }
                } else {
                    FnCallState { about_to_enter_arrow_fn: true, ..st }
                },
                Expr::Call { kind: CallKind::Call, base, prop: None, args } => if st.fn_def_is_good.contains(
                    base.id,
                ) && all_single(args@) {
                    FnCallState { fns_to_inline: st.fns_to_inline.insert(base.id), ..st }
                } else {
                    st
                },
                Expr::This => FnCallState { current_fn: None, used_this: true, ..st },
                Expr::CurrentFunction => FnCallState { current_fn: None, ..st },
                _ => st,
            }
        },
        Stmt::Return { .. } => if st.depth_in_current_fn > 0 {
            FnCallState { current_fn: None, ..st }
        } else {
            st
        },
        _ => st,
    }
}

/// Collects the functions defined once, used once (by a plain call), whose bodies neither use
/// `this` (directly or through arrow functions), nor refer to themselves, nor return from
/// within a nested block.
pub struct CollectFnCallInfo {
    pub fns_to_inline: HashSet<u64>,
    pub fn_def_is_good: HashSet<u64>,
    pub about_to_enter_arrow_fn: bool,
    pub about_to_enter_fn: Option<u64>,
    pub current_fn: Option<u64>,
    pub depth_in_current_fn: u64,
    pub used_this: bool,
    pub counts: UseCounts,
}

pub struct FnCallSaved {
    pub is_arrow_fn: bool,
    pub current_fn: Option<u64>,
    pub depth_in_current_fn: u64,
    pub used_this: bool,
}

fn all_single_exec(args: &Vec<(EleKind, Ref<SSA>)>) -> (r: bool)
    ensures
        r == all_single(args@),
{
    let mut i: usize = 0;
    while i < args.len()
        invariant
            i <= args@.len(),
            forall|k: int| 0 <= k < i ==> (#[trigger] args@[k]).0 == EleKind::Single,
        decreases args@.len() - i,
    {
        match args[i].0 {
            EleKind::Single => {},
            EleKind::Spread => {
                return false;
            },
        }
        i += 1;
    }
    true
}

impl Visitor for CollectFnCallInfo {
    type St = FnCallState;

    type Saved = FnCallSaved;

    type Sv = FnCallSavedState;

    open spec fn state(&self) -> FnCallState {
        FnCallState {
            fns_to_inline: self.fns_to_inline@,
            fn_def_is_good: self.fn_def_is_good@,
            about_to_enter_arrow_fn: self.about_to_enter_arrow_fn,
            about_to_enter_fn: self.about_to_enter_fn,
            current_fn: self.current_fn,
            depth_in_current_fn: self.depth_in_current_fn,
            used_this: self.used_this,
            counts: |id: u64| self.counts.count_of(id),
        }
    }

    open spec fn saved_state(saved: &FnCallSaved) -> FnCallSavedState {
        FnCallSavedState {
            is_arrow_fn: saved.is_arrow_fn,
            current_fn: saved.current_fn,
            depth_in_current_fn: saved.depth_in_current_fn,
            used_this: saved.used_this,
        }
    }

    open spec fn spec_visit(st: FnCallState, s: Stmt) -> FnCallState {
        fn_call_visit(st, s)
    }

    open spec fn spec_visit_ref_use(st: FnCallState, id: u64) -> FnCallState {
        st
    }

    /// A function body is analysed as the function about to be entered, with nothing else
    /// carried in; other scopes only count as one level deeper.
    open spec fn spec_enter(st: FnCallState, ty: ScopeTy, b: Block) -> (FnCallState, FnCallSavedState) {
        let saved = FnCallSavedState {
            is_arrow_fn: st.about_to_enter_arrow_fn,
            current_fn: st.current_fn,
            depth_in_current_fn: st.depth_in_current_fn,
            used_this: st.used_this,
        };
        match ty {
            ScopeTy::Function => (
                FnCallState {
                    about_to_enter_arrow_fn: false,
                    about_to_enter_fn: None,
                    current_fn: st.about_to_enter_fn,
                    depth_in_current_fn: 0,
                    used_this: false,
                    ..st
                },
                saved,
            ),
            _ => (FnCallState { depth_in_current_fn: sat_inc(st.depth_in_current_fn), ..st }, saved),
        }
    }

    /// Leaving a function body, the function is good if nothing ruled it out; `this` used in
    /// an arrow function is used by the enclosing function too.
    open spec fn spec_exit(st: FnCallState, ty: ScopeTy, saved: FnCallSavedState) -> FnCallState {
        match ty {
            ScopeTy::Function => {
                let arrow_this = saved.is_arrow_fn && st.used_this;
                FnCallState {
                    fn_def_is_good: st.fn_def_is_good.union(opt_set(st.current_fn)),
                    about_to_enter_arrow_fn: false,
                    about_to_enter_fn: None,
                    current_fn: if arrow_this { None } else { saved.current_fn },
                    depth_in_current_fn: saved.depth_in_current_fn,
                    used_this: if arrow_this { true } else { saved.used_this },
                    ..st
                }
            },
            _ => FnCallState { depth_in_current_fn: saved.depth_in_current_fn, ..st },
        }
    }

    fn visit(&mut self, s: &Stmt) {
        broadcast use vstd::std_specs::hash::group_hash_axioms;
        match s {
            Stmt::Expr { target, expr } => {
                let once = target.used(&self.counts).is_once();
                match expr {
                    Expr::Function { kind, .. } => {
                        if *kind == (FnKind::Func { is_async: false, is_generator: false }) && once {
                            self.about_to_enter_fn = Some(target.id);
                        } else if *kind == (FnKind::Arrow { is_async: false }) && once {
                            self.about_to_enter_arrow_fn = true;
                            self.about_to_enter_fn = Some(target.id);
                        } else {
                            self.about_to_enter_arrow_fn = true;
                        }
                    },
                    Expr::Call { kind: CallKind::Call, base, prop: None, args } => {
                        if self.fn_def_is_good.contains(&base.id) && all_single_exec(args) {
                            self.fns_to_inline.insert(base.id);
                        }
                    },
                    Expr::This => {
                        self.current_fn = None;
                        self.used_this = true;
                    },
                    Expr::CurrentFunction => {
                        self.current_fn = None;
                    },
                    _ => {},
                }
            },
            Stmt::Return { .. } => {
                if self.depth_in_current_fn > 0 {
                    self.current_fn = None;
                }
            },
            _ => {},
        }
    }

    fn visit_ref_use(&mut self, id: u64) {
    }

    fn enter_scope(&mut self, ty: ScopeTy, b: &Block) -> (saved: FnCallSaved) {
        let saved = FnCallSaved {
            is_arrow_fn: self.about_to_enter_arrow_fn,
            current_fn: self.current_fn,
            depth_in_current_fn: self.depth_in_current_fn,
            used_this: self.used_this,
        };
        match ty {
            ScopeTy::Function => {
                self.current_fn = self.about_to_enter_fn;
                self.about_to_enter_arrow_fn = false;
                self.about_to_enter_fn = None;
                self.depth_in_current_fn = 0;
                self.used_this = false;
            },
            _ => {
                self.depth_in_current_fn = self.depth_in_current_fn.saturating_add(1);
            },
        }
        saved
    }

    fn exit_scope(&mut self, ty: ScopeTy, saved: FnCallSaved) {
        broadcast use vstd::std_specs::hash::group_hash_axioms;
        match ty {
            ScopeTy::Function => {
                let ghost good0 = self.fn_def_is_good@;
                if let Some(f) = self.current_fn {
                    self.fn_def_is_good.insert(f);
                }
                assert(self.fn_def_is_good@ =~= good0.union(opt_set(old(self).current_fn)));
                let arrow_this = saved.is_arrow_fn && self.used_this;
                self.about_to_enter_arrow_fn = false;
                self.about_to_enter_fn = None;
                if arrow_this {
                    self.current_fn = None;
                    self.used_this = true;
                } else {
                    self.current_fn = saved.current_fn;
                    self.used_this = saved.used_this;
                }
                self.depth_in_current_fn = saved.depth_in_current_fn;
            },
            _ => {
                self.depth_in_current_fn = saved.depth_in_current_fn;
            },
        }
    }
}

/// The state the analysis starts from for a program with occurrence counts `counts`.
pub open spec fn fn_call_initial(counts: spec_fn(u64) -> nat) -> FnCallState {
    FnCallState {
        fns_to_inline: Set::empty(),
        fn_def_is_good: Set::empty(),
        about_to_enter_arrow_fn: false,
        about_to_enter_fn: None,
        current_fn: None,
        depth_in_current_fn: 0,
        used_this: false,
        counts,
    }
}

/// The functions of a program to inline.
pub open spec fn fns_to_inline_of(prog: Block) -> Set<u64> {
    run_block::<CollectFnCallInfo>(
        fn_call_initial(|id: u64| crate::ir::sat(crate::ir::occ_block(prog, id))),
        ScopeTy::Toplevel,
        prog,
    ).fns_to_inline
}

/// Finds the functions of a program to inline.
pub fn collect_fns_to_inline(prog: &Block) -> (r: HashSet<u64>)
    ensures
        r@ == fns_to_inline_of(*prog),
{
    let counts = crate::ir::count_uses(prog);
    let mut collector = CollectFnCallInfo {
        fns_to_inline: HashSet::new(),
        fn_def_is_good: HashSet::new(),
        about_to_enter_arrow_fn: false,
        about_to_enter_fn: None,
        current_fn: None,
        depth_in_current_fn: 0,
        used_this: false,
        counts,
    };
    assert(collector.state().counts =~= (|id: u64| crate::ir::sat(crate::ir::occ_block(*prog, id))));
    assert(collector.state().fns_to_inline =~= Set::<u64>::empty());
    assert(collector.state().fn_def_is_good =~= Set::<u64>::empty());
    assert(collector.state() == fn_call_initial(|id: u64| crate::ir::sat(crate::ir::occ_block(*prog, id))));
    run_visitor(&mut collector, prog);
    collector.fns_to_inline
}

// ---------------------------------------------------------------------------
// The rewrite.
// ---------------------------------------------------------------------------

/// What becomes of a statement: a function to inline is stored away, its call replaced by
/// its body, anything else kept.
pub enum InlKind {
    Store,
    Splice(Block),
    Keep,
}

pub open spec fn inl_kind(s: Stmt, m: Map<u64, Block>, fns: Set<u64>) -> InlKind {
    match s {
        Stmt::Expr { target, expr: Expr::Function { .. } } => if fns.contains(target.id) {
            InlKind::Store
        } else {
            InlKind::Keep
        },
        Stmt::Expr { expr: Expr::Call { kind: CallKind::Call, base, prop: None, .. }, .. } => if m.contains_key(base.id) {
            InlKind::Splice(m[base.id])
        } else {
            InlKind::Keep
        },
        _ => InlKind::Keep,
    }
}

/// The stored bodies after `s` itself has been folded.
pub open spec fn inl_fold_state(s: Stmt, m: Map<u64, Block>, fns: Set<u64>) -> Map<u64, Block> {
    match s {
        Stmt::Expr { target, expr: Expr::Function { body, .. } } => if fns.contains(target.id) {
            m.insert(target.id, body)
        } else {
            m
        },
        Stmt::Expr { expr: Expr::Call { kind: CallKind::Call, base, prop: None, .. }, .. } => if m.contains_key(base.id) {
            m.remove(base.id)
        } else {
            m
        },
        _ => m,
    }
}

pub open spec fn call_args(s: Stmt) -> Seq<(EleKind, Ref<SSA>)> {
    match s {
        Stmt::Expr { expr: Expr::Call { args, .. }, .. } => args@,
        _ => Seq::empty(),
    }
}

/// A statement of an inlined body: the parameter reads become reads of the arguments (or of
/// `undefined`, `u`, past the last argument).
pub open spec fn conv(s: Stmt, args: Seq<(EleKind, Ref<SSA>)>, u: Ref<SSA>) -> Stmt {
    match s {
        Stmt::Expr { target, expr: Expr::Argument { index } } => Stmt::Expr {
            target,
            expr: Expr::Read { source: if index < args.len() { args[index as int].1 } else { u } },
        },
        _ => s,
    }
}

/// The statements of an inlined body, its `return`s taken out.
pub open spec fn inl_body(ss: Seq<Stmt>, args: Seq<(EleKind, Ref<SSA>)>, u: Ref<SSA>) -> Seq<Stmt>
    decreases ss.len(),
{
    if ss.len() == 0 {
        Seq::empty()
    } else {
        inl_body(ss.drop_last(), args, u) + if ss.last() is Return {
            Seq::empty()
        } else {
            seq![conv(ss.last(), args, u)]
        }
    }
}

/// What the inlined call evaluates to: the value of the last `return`, or `u`.
pub open spec fn returned(ss: Seq<Stmt>, u: Ref<SSA>) -> Ref<SSA>
    decreases ss.len(),
{
    if ss.len() == 0 {
        u
    } else {
        match ss.last() {
            Stmt::Return { val } => val,
            _ => returned(ss.drop_last(), u),
        }
    }
}

pub open spec fn inl_block_state(b: Block, m: Map<u64, Block>, fns: Set<u64>, fuel: nat) -> Map<u64, Block>
    decreases fuel, b, 1nat,
{
    inl_seq_state(b.0@, m, fns, fuel)
}

pub open spec fn inl_seq_state(ss: Seq<Stmt>, m: Map<u64, Block>, fns: Set<u64>, fuel: nat) -> Map<u64, Block>
    decreases fuel, ss, 0nat,
{
    if ss.len() == 0 {
        m
    } else {
        inl_stmt_state(ss.last(), inl_seq_state(ss.drop_last(), m, fns, fuel), fns, fuel)
    }
}

pub open spec fn inl_stmt_state(s: Stmt, m: Map<u64, Block>, fns: Set<u64>, fuel: nat) -> Map<u64, Block>
    decreases fuel, s, 5nat,
{
    let m1 = inl_fold_state(s, m, fns);
    match inl_kind(s, m, fns) {
        InlKind::Store => m1,
        InlKind::Keep => inl_nested_state(s, stmt_blocks(s).len(), m1, fns, fuel),
        InlKind::Splice(body) => if fuel == 0 {
            m1
        } else {
            inl_spliced_state(body.0@, m1, fns, (fuel - 1) as nat)
        },
    }
}

pub open spec fn inl_nested_state(s: Stmt, k: nat, m: Map<u64, Block>, fns: Set<u64>, fuel: nat) -> Map<u64, Block>
    decreases fuel, s, k,
{
    if k == 0 || k > stmt_blocks(s).len() {
        m
    } else {
        inl_block_state(stmt_blocks(s)[k - 1].1, inl_nested_state(s, (k - 1) as nat, m, fns, fuel), fns, fuel)
    }
}

pub open spec fn inl_spliced_state(ss: Seq<Stmt>, m: Map<u64, Block>, fns: Set<u64>, fuel: nat) -> Map<u64, Block>
    decreases fuel, ss, 0nat,
{
    if ss.len() == 0 {
        m
    } else {
        let u = ss.last();
        let m1 = inl_spliced_state(ss.drop_last(), m, fns, fuel);
        if u is Return {
            m1
        } else {
            inl_nested_state(u, stmt_blocks(u).len(), m1, fns, fuel)
        }
    }
}

/// How many statements of an inlined body are kept (all but its `return`s).
pub open spec fn kept_count(ss: Seq<Stmt>) -> nat
    decreases ss.len(),
{
    if ss.len() == 0 {
        0
    } else {
        kept_count(ss.drop_last()) + if ss.last() is Return {
            0nat
        } else {
            1nat
        }
    }
}

/// How many statements a statement folds into.
pub open spec fn inl_out_count(s: Stmt, m: Map<u64, Block>, fns: Set<u64>) -> nat {
    match inl_kind(s, m, fns) {
        InlKind::Store => 0,
        InlKind::Keep => 1,
        InlKind::Splice(body) => kept_count(body.0@) + 2,
    }
}

pub proof fn lemma_inl_body_len(ss: Seq<Stmt>, args: Seq<(EleKind, Ref<SSA>)>, u: Ref<SSA>)
    ensures
        inl_body(ss, args, u).len() == kept_count(ss),
    decreases ss.len(),
{
    if ss.len() > 0 {
        lemma_inl_body_len(ss.drop_last(), args, u);
    }
}

pub proof fn lemma_inl_spliced_len(
    ss: Seq<Stmt>,
    args: Seq<(EleKind, Ref<SSA>)>,
    u: Ref<SSA>,
    outs: Seq<Stmt>,
    m: Map<u64, Block>,
    fns: Set<u64>,
    fuel: nat,
)
    requires
        inl_spliced_rel(ss, args, u, outs, m, fns, fuel),
    ensures
        outs.len() == kept_count(ss),
    decreases ss.len(),
{
    if ss.len() > 0 {
        if ss.last() is Return {
            lemma_inl_spliced_len(ss.drop_last(), args, u, outs, m, fns, fuel);
        } else {
            lemma_inl_spliced_len(ss.drop_last(), args, u, outs.drop_last(), m, fns, fuel);
        }
    }
}

pub proof fn lemma_inl_stmt_rel_len(s: Stmt, outs: Seq<Stmt>, m: Map<u64, Block>, fns: Set<u64>, fuel: nat)
    requires
        inl_stmt_rel(s, outs, m, fns, fuel),
    ensures
        outs.len() == inl_out_count(s, m, fns),
{
    match inl_kind(s, m, fns) {
        InlKind::Splice(body) => {
            let mid = outs.subrange(1, outs.len() - 1);
            if fuel == 0 {
                lemma_inl_body_len(body.0@, call_args(s), outs[0]->Expr_target);
            } else {
                lemma_inl_spliced_len(
                    body.0@,
                    call_args(s),
                    outs[0]->Expr_target,
                    mid,
                    inl_fold_state(s, m, fns),
                    fns,
                    (fuel - 1) as nat,
                );
            }
        },
        _ => {},
    }
}

/// `b` is `a` with functions inlined, starting from the stored bodies `m`; `fuel` bounds how
/// deep inlined bodies are themselves rewritten.
pub open spec fn inl_block_rel(a: Block, b: Block, m: Map<u64, Block>, fns: Set<u64>, fuel: nat) -> bool
    decreases fuel, a, 1nat,
{
    inl_seq_rel(a.0@, b.0@, m, fns, fuel)
}

pub open spec fn inl_seq_rel(ins: Seq<Stmt>, outs: Seq<Stmt>, m: Map<u64, Block>, fns: Set<u64>, fuel: nat) -> bool
    decreases fuel, ins, 0nat,
{
    if ins.len() == 0 {
        outs.len() == 0
    } else {
        let ml = inl_seq_state(ins.drop_last(), m, fns, fuel);
        let n = inl_out_count(ins.last(), ml, fns);
        &&& outs.len() >= n
        &&& inl_seq_rel(ins.drop_last(), outs.take(outs.len() - n), m, fns, fuel)
        &&& inl_stmt_rel(ins.last(), outs.skip(outs.len() - n), ml, fns, fuel)
    }
}

pub open spec fn inl_stmt_rel(s: Stmt, outs: Seq<Stmt>, m: Map<u64, Block>, fns: Set<u64>, fuel: nat) -> bool
    decreases fuel, s, 5nat,
{
    let m1 = inl_fold_state(s, m, fns);
    match inl_kind(s, m, fns) {
        InlKind::Store => outs.len() == 0,
        InlKind::Keep => {
            &&& outs.len() == 1
            &&& same_frame(s, outs[0])
            &&& inl_nested_rel(s, outs[0], stmt_blocks(s).len(), m1, fns, fuel)
        },
        InlKind::Splice(body) => {
            let args = call_args(s);
            let base = s->Expr_expr->Call_base;
            &&& outs.len() >= 2
            &&& outs[0] matches Stmt::Expr { target: u, expr: Expr::Undefined }
            &&& outs[0]->Expr_target.id == base.id
            &&& outs[0]->Expr_target.name_hint@ == "_mis"@
            &&& outs.last() == Stmt::Expr {
                target: s->Expr_target,
                expr: Expr::Read { source: returned(body.0@, outs[0]->Expr_target) },
            }
            &&& if fuel == 0 {
                outs.subrange(1, outs.len() - 1) == inl_body(body.0@, args, outs[0]->Expr_target)
            } else {
                inl_spliced_rel(body.0@, args, outs[0]->Expr_target, outs.subrange(1, outs.len() - 1), m1, fns, (fuel - 1) as nat)
            }
        },
    }
}

/// The statements of an inlined body, converted, each with the blocks it holds rewritten.
pub open spec fn inl_spliced_rel(
    ss: Seq<Stmt>,
    args: Seq<(EleKind, Ref<SSA>)>,
    u: Ref<SSA>,
    outs: Seq<Stmt>,
    m: Map<u64, Block>,
    fns: Set<u64>,
    fuel: nat,
) -> bool
    decreases fuel, ss, 0nat,
{
    if ss.len() == 0 {
        outs.len() == 0
    } else {
        let v = ss.last();
        if v is Return {
            inl_spliced_rel(ss.drop_last(), args, u, outs, m, fns, fuel)
        } else {
            &&& outs.len() > 0
            &&& inl_spliced_rel(ss.drop_last(), args, u, outs.drop_last(), m, fns, fuel)
            &&& same_frame(conv(v, args, u), outs.last())
            &&& inl_nested_rel(v, outs.last(), stmt_blocks(v).len(), inl_spliced_state(ss.drop_last(), m, fns, fuel), fns, fuel)
        }
    }
}

pub open spec fn inl_nested_rel(s: Stmt, t: Stmt, k: nat, m: Map<u64, Block>, fns: Set<u64>, fuel: nat) -> bool
    decreases fuel, s, k,
{
    if k == 0 || k > stmt_blocks(s).len() {
        stmt_blocks(t).len() == stmt_blocks(s).len()
    } else {
        &&& inl_nested_rel(s, t, (k - 1) as nat, m, fns, fuel)
        &&& inl_block_rel(stmt_blocks(s)[k - 1].1, stmt_blocks(t)[k - 1].1, inl_nested_state(s, (k - 1) as nat, m, fns, fuel), fns, fuel)
    }
}

pub proof fn lemma_inl_nested_same_blocks(s: Stmt, s2: Stmt, t: Stmt, k: nat, m: Map<u64, Block>, fns: Set<u64>, fuel: nat)
    requires
        stmt_blocks(s) == stmt_blocks(s2),
    ensures
        inl_nested_rel(s, t, k, m, fns, fuel) == inl_nested_rel(s2, t, k, m, fns, fuel),
        inl_nested_state(s, k, m, fns, fuel) == inl_nested_state(s2, k, m, fns, fuel),
    decreases k,
{
    if k > 0 {
        lemma_inl_nested_same_blocks(s, s2, t, (k - 1) as nat, m, fns, fuel);
    }
}

pub proof fn lemma_inl_nested_rel_from_blocks(s: Stmt, t: Stmt, k: nat, m: Map<u64, Block>, fns: Set<u64>, fuel: nat)
    requires
        k <= stmt_blocks(s).len(),
        stmt_blocks(t).len() == stmt_blocks(s).len(),
        forall|j: int|
            0 <= j < k ==> inl_block_rel(
                #[trigger] stmt_blocks(s)[j].1,
                stmt_blocks(t)[j].1,
                inl_nested_state(s, j as nat, m, fns, fuel),
                fns,
                fuel,
            ),
    ensures
        inl_nested_rel(s, t, k, m, fns, fuel),
    decreases k,
{
    if k > 0 {
        lemma_inl_nested_rel_from_blocks(s, t, (k - 1) as nat, m, fns, fuel);
        assert(inl_block_rel(stmt_blocks(s)[k - 1].1, stmt_blocks(t)[k - 1].1, inl_nested_state(s, (k - 1) as nat, m, fns, fuel), fns, fuel));
    }
}

/// Inline functions called a single time.
///
/// May profit from DCE running first; may create opportunities for DCE.
/// May create opportunities for _everything_; in particular, read forwarding.
pub struct Inline {
    pub fns_to_inline: HashSet<u64>,
    pub fn_bodies: HashMap<u64, Block>,
}

fn mis_ref(id: u64) -> (u: Ref<SSA>)
    ensures
        u.id == id,
        u.name_hint@ == "_mis"@,
{
    Ref::new(id, String::from_str("_mis"))
}

/// A statement of an inlined body with its parameter reads converted.
fn conv_exec(s: Stmt, args: &Vec<(EleKind, Ref<SSA>)>, u: &Ref<SSA>) -> (t: Stmt)
    ensures
        t == conv(s, args@, *u),
        stmt_blocks(t) == stmt_blocks(s),
{
    match s {
        Stmt::Expr { target, expr: Expr::Argument { index } } => {
            let source = if index < args.len() {
                args[index].1.duplicate()
            } else {
                u.duplicate()
            };
            Stmt::Expr { target, expr: Expr::Read { source } }
        },
        other => other,
    }
}

impl Inline {
    pub open spec fn bodies(&self) -> Map<u64, Block> {
        self.fn_bodies@
    }

    pub open spec fn fns(&self) -> Set<u64> {
        self.fns_to_inline@
    }

    /// Folds one statement: a function to inline is stored away, and its call is replaced by
    /// `undefined`, the body (parameters read from the arguments, `return`s taken out) and a
    /// read of what the body returned.
    pub fn fold(&mut self, stmt: Stmt) -> (r: ZeroOneMany<Stmt>)
        ensures
            final(self).fns() == old(self).fns(),
            final(self).bodies() == inl_fold_state(stmt, old(self).bodies(), old(self).fns()),
            match inl_kind(stmt, old(self).bodies(), old(self).fns()) {
                InlKind::Store => r.items().len() == 0,
                InlKind::Keep => r.items() == seq![stmt],
                InlKind::Splice(body) => {
                    let outs = r.items();
                    &&& outs.len() >= 2
                    &&& outs[0] matches Stmt::Expr { target: u, expr: Expr::Undefined }
                    &&& outs[0]->Expr_target.id == stmt->Expr_expr->Call_base.id
                    &&& outs[0]->Expr_target.name_hint@ == "_mis"@
                    &&& outs.last() == Stmt::Expr {
                        target: stmt->Expr_target,
                        expr: Expr::Read { source: returned(body.0@, outs[0]->Expr_target) },
                    }
                    &&& outs.subrange(1, outs.len() - 1) == inl_body(body.0@, call_args(stmt), outs[0]->Expr_target)
                },
            },
    {
        broadcast use vstd::std_specs::hash::group_hash_axioms;
        let ghost s0 = stmt;
        match stmt {
            Stmt::Expr { target, expr: Expr::Function { kind, body } } => {
                if self.fns_to_inline.contains(&target.id) {
                    self.fn_bodies.insert(target.id, body);
                    ZeroOneMany::Zero
                } else {
                    ZeroOneMany::One(Stmt::Expr { target, expr: Expr::Function { kind, body } })
                }
            },
            Stmt::Expr { target, expr: Expr::Call { kind: CallKind::Call, base, prop: None, args } } => {
                match self.fn_bodies.remove(&base.id) {
                    Some(body) => {
                        let u = mis_ref(base.id);
                        let mut out: Vec<Stmt> = Vec::new();
                        out.push(Stmt::Expr { target: u.duplicate(), expr: Expr::Undefined });
                        let mut ret = u.duplicate();
                        let ghost items = body.0@;
                        let Block(children) = body;
                        for v in it: children.into_iter()
                            invariant
                                it.seq() == items,
                                out@.len() >= 1,
                                out@[0] == (Stmt::Expr { target: u, expr: Expr::Undefined }),
                                out@.subrange(1, out@.len() as int) == inl_body(items.take(it.index() as int), args@, u),
                                ret == returned(items.take(it.index() as int), u),
                        {
                            let ghost k = it.index() as int;
                            assert(items.take(k + 1).drop_last() =~= items.take(k));
                            let ghost o0 = out@;
                            match v {
                                Stmt::Return { val } => {
                                    ret = val;
                                },
                                other => {
                                    let t = conv_exec(other, &args, &u);
                                    out.push(t);
                                    assert(out@.subrange(1, out@.len() as int) =~= o0.subrange(1, o0.len() as int).push(t));
                                },
                            }
                        }
                        assert(items.take(items.len() as int) =~= items);
                        let ghost o1 = out@;
                        out.push(Stmt::Expr { target, expr: Expr::Read { source: ret } });
                        assert(out@.subrange(1, out@.len() - 1) =~= o1.subrange(1, o1.len() as int));
                        ZeroOneMany::Many(out)
                    },
                    None => ZeroOneMany::One(
                        Stmt::Expr { target, expr: Expr::Call { kind: CallKind::Call, base, prop: None, args } },
                    ),
                }
            },
            other => ZeroOneMany::One(other),
        }
    }

    /// Inlines in the blocks a statement holds, in order; they are those of `src`.
    #[verifier::spinoff_prover]
    #[verifier::rlimit(40)]
    fn fold_nested(&mut self, t0: Stmt, Ghost(src): Ghost<Stmt>, fuel: u64, Ghost(orig): Ghost<Block>) -> (t: Stmt)
        requires
            stmt_blocks(t0) == stmt_blocks(src),
            forall|j: int| 0 <= j < stmt_blocks(src).len() ==> decreases_to!(orig => #[trigger] stmt_blocks(src)[j].1),
        ensures
            same_frame(t0, t),
            inl_nested_rel(src, t, stmt_blocks(src).len(), old(self).bodies(), old(self).fns(), fuel as nat),
            final(self).bodies() == inl_nested_state(src, stmt_blocks(src).len(), old(self).bodies(), old(self).fns(), fuel as nat),
            final(self).fns() == old(self).fns(),
        decreases fuel, orig, 1nat,
    {
        let ghost m_in = self.bodies();
        let ghost fns = self.fns();
        let ghost bs0 = stmt_blocks(src);
        let (frame, bs) = take_blocks(t0);
        let mut done: Vec<Block> = Vec::new();
        for pair in jt: bs.into_iter()
            invariant
                jt.seq() == bs0,
                bs0 == stmt_blocks(src),
                fns == self.fns(),
                forall|j: int| 0 <= j < bs0.len() ==> decreases_to!(orig => #[trigger] bs0[j].1),
                done@.len() == jt.index(),
                self.bodies() == inl_nested_state(src, jt.index() as nat, m_in, fns, fuel as nat),
                forall|j: int|
                    0 <= j < jt.index() ==> inl_block_rel(
                        #[trigger] bs0[j].1,
                        done@[j],
                        inl_nested_state(src, j as nat, m_in, fns, fuel as nat),
                        fns,
                        fuel as nat,
                    ),
        {
            let ghost j = jt.index() as int;
            assert(pair == bs0[j]);
            let (_, b) = pair;
            assert(decreases_to!(orig => b));
            let nb = self.fold_block(b, fuel);
            done.push(nb);
        }
        let t = put_blocks(frame, done);
        proof {
            crate::traverse::lemma_same_frame_trans(t0, frame, t);
            lemma_inl_nested_rel_from_blocks(src, t, stmt_blocks(src).len(), m_in, fns, fuel as nat);
        }
        t
    }

    /// Inlines in the statements of a body spliced in place of its call.
    #[verifier::loop_isolation(false)]
    fn fold_spliced(
        &mut self,
        body: Block,
        args: &Vec<(EleKind, Ref<SSA>)>,
        u: &Ref<SSA>,
        fuel: u64,
        out: &mut Vec<Stmt>,
    ) -> (ret: Ref<SSA>)
        ensures
            final(self).fns() == old(self).fns(),
            final(self).bodies() == inl_spliced_state(body.0@, old(self).bodies(), old(self).fns(), fuel as nat),
            inl_spliced_rel(body.0@, args@, *u, final(out)@.skip(old(out)@.len() as int), old(self).bodies(), old(self).fns(), fuel as nat),
            final(out)@.take(old(out)@.len() as int) == old(out)@,
            final(out)@.len() >= old(out)@.len(),
            ret == returned(body.0@, *u),
        decreases fuel, body, 2nat,
    {
        let ghost orig = body;
        let ghost m_in = self.bodies();
        let ghost fns = self.fns();
        let ghost o_start = out@;
        let mut ret = u.duplicate();
        let Block(children) = body;
        let ghost items = children@;
        for v in it: children.into_iter()
            invariant
                it.seq() == items,
                items == orig.0@,
                fns == self.fns(),
                out@.take(o_start.len() as int) == o_start,
                out@.len() >= o_start.len(),
                inl_spliced_rel(items.take(it.index() as int), args@, *u, out@.skip(o_start.len() as int), m_in, fns, fuel as nat),
                self.bodies() == inl_spliced_state(items.take(it.index() as int), m_in, fns, fuel as nat),
                ret == returned(items.take(it.index() as int), *u),
        {
            let ghost k = it.index() as int;
            assert(items.take(k + 1).drop_last() =~= items.take(k));
            assert(v == items[k]);
            let ghost v0 = v;
            let ghost d0 = out@;
            match v {
                Stmt::Return { val } => {
                    ret = val;
                },
                other => {
                    proof {
                        assert forall|j: int| 0 <= j < stmt_blocks(v0).len() implies decreases_to!(
                            orig => #[trigger] stmt_blocks(v0)[j].1) by {
                            lemma_nested_block_decreases(orig, k, j);
                        }
                    }
                    let t0 = conv_exec(other, args, u);
                    let t = self.fold_nested(t0, Ghost(v0), fuel, Ghost(orig));
                    out.push(t);
                    assert(out@.skip(o_start.len() as int).drop_last() =~= d0.skip(o_start.len() as int));
                    assert(out@.take(o_start.len() as int) =~= o_start);
                },
            }
        }
        assert(items.take(items.len() as int) =~= items);
        ret
    }

    /// Inlines in one statement of a block (the `i`-th of `orig`) and the blocks it holds.
    fn fold_one(&mut self, stmt: Stmt, fuel: u64, Ghost(orig): Ghost<Block>, Ghost(i): Ghost<int>) -> (done: Vec<Stmt>)
        requires
            0 <= i < orig.0@.len(),
            stmt == orig.0@[i],
        ensures
            inl_stmt_rel(stmt, done@, old(self).bodies(), old(self).fns(), fuel as nat),
            final(self).bodies() == inl_stmt_state(stmt, old(self).bodies(), old(self).fns(), fuel as nat),
            final(self).fns() == old(self).fns(),
        decreases fuel, orig, 3nat,
    {
        broadcast use vstd::std_specs::hash::group_hash_axioms;
        let ghost s0 = stmt;
        let ghost m0 = self.bodies();
        proof {
            assert forall|j: int| 0 <= j < stmt_blocks(s0).len() implies decreases_to!(
                orig => #[trigger] stmt_blocks(s0)[j].1) by {
                lemma_nested_block_decreases(orig, i, j);
            }
        }
        let mut done: Vec<Stmt> = Vec::new();
        match stmt {
            Stmt::Expr { target, expr: Expr::Function { kind, body } } => {
                if self.fns_to_inline.contains(&target.id) {
                    self.fn_bodies.insert(target.id, body);
                } else {
                    let t = self.fold_nested(Stmt::Expr { target, expr: Expr::Function { kind, body } }, Ghost(s0), fuel, Ghost(orig));
                    done.push(t);
                }
            },
            Stmt::Expr { target, expr: Expr::Call { kind: CallKind::Call, base, prop: None, args } } => {
                match self.fn_bodies.remove(&base.id) {
                    Some(body) => {
                        let ghost m1 = self.bodies();
                        let u = mis_ref(base.id);
                        done.push(Stmt::Expr { target: u.duplicate(), expr: Expr::Undefined });
                        if fuel == 0 {
                            let mut ret = u.duplicate();
                            let ghost items = body.0@;
                            let Block(children) = body;
                            for v in it: children.into_iter()
                                invariant
                                    it.seq() == items,
                                    done@.len() >= 1,
                                    done@[0] == (Stmt::Expr { target: u, expr: Expr::Undefined }),
                                    done@.subrange(1, done@.len() as int) == inl_body(items.take(it.index() as int), args@, u),
                                    ret == returned(items.take(it.index() as int), u),
                            {
                                let ghost k = it.index() as int;
                                assert(items.take(k + 1).drop_last() =~= items.take(k));
                                let ghost o0 = done@;
                                match v {
                                    Stmt::Return { val } => {
                                        ret = val;
                                    },
                                    other => {
                                        let t = conv_exec(other, &args, &u);
                                        done.push(t);
                                        assert(done@.subrange(1, done@.len() as int) =~= o0.subrange(1, o0.len() as int).push(t));
                                    },
                                }
                            }
                            assert(items.take(items.len() as int) =~= items);
                            let ghost o1 = done@;
                            done.push(Stmt::Expr { target, expr: Expr::Read { source: ret } });
                            assert(done@.subrange(1, done@.len() - 1) =~= o1.subrange(1, o1.len() as int));
                        } else {
                            let ghost o1 = done@;
                            let ret = self.fold_spliced(body, &args, &u, fuel - 1, &mut done);
                            let ghost o2 = done@;
                            done.push(Stmt::Expr { target, expr: Expr::Read { source: ret } });
                            assert(done@.subrange(1, done@.len() - 1) =~= o2.skip(1));
                            assert(o1 == seq![Stmt::Expr { target: u, expr: Expr::Undefined }]);
                            assert(o2.take(1)[0] == o2[0]);
                            assert(done@[0] == o2[0]);
                        }
                    },
                    None => {
                        let t0 = Stmt::Expr { target, expr: Expr::Call { kind: CallKind::Call, base, prop: None, args } };
                        let t = self.fold_nested(t0, Ghost(s0), fuel, Ghost(orig));
                        done.push(t);
                    },
                }
            },
            other => {
                let t = self.fold_nested(other, Ghost(s0), fuel, Ghost(orig));
                done.push(t);
            },
        }
        done
    }

    /// Inlines in a block and, recursively, the blocks it holds.
    #[verifier::loop_isolation(false)]
    fn fold_block(&mut self, block: Block, fuel: u64) -> (r: Block)
        ensures
            inl_block_rel(block, r, old(self).bodies(), old(self).fns(), fuel as nat),
            final(self).bodies() == inl_block_state(block, old(self).bodies(), old(self).fns(), fuel as nat),
            final(self).fns() == old(self).fns(),
        decreases fuel, block, 4nat,
    {
        let ghost orig = block;
        let ghost m_start = self.bodies();
        let ghost fns = self.fns();
        let Block(children) = block;
        let ghost items = children@;
        let mut out: Vec<Stmt> = Vec::new();
        for stmt in it: children.into_iter()
            invariant
                it.seq() == items,
                items == orig.0@,
                fns == self.fns(),
                self.bodies() == inl_seq_state(items.take(it.index() as int), m_start, fns, fuel as nat),
                inl_seq_rel(items.take(it.index() as int), out@, m_start, fns, fuel as nat),
        {
            let ghost i = it.index() as int;
            let ghost m0 = self.bodies();
            assert(items.take(i + 1).drop_last() =~= items.take(i));
            assert(stmt == items[i]);
            let ghost s0 = stmt;
            let mut done = self.fold_one(stmt, fuel, Ghost(orig), Ghost(i));
            proof {
                assert(inl_seq_state(items.take(i + 1), m_start, fns, fuel as nat) == inl_stmt_state(s0, m0, fns, fuel as nat));
            }
            let ghost out0 = out@;
            let ghost dn = done@;
            out.append(&mut done);
            proof {
                let ins = items.take(i + 1);
                lemma_inl_stmt_rel_len(s0, dn, m0, fns, fuel as nat);
                assert(ins.drop_last() =~= items.take(i));
                assert(ins.last() == s0);
                assert(out@.take(out@.len() - dn.len()) =~= out0);
                assert(out@.skip(out@.len() - dn.len()) =~= dn);
            }
        }
        assert(items.take(items.len() as int) =~= items);
        Block(out)
    }

    /// Runs inlining over a whole program.
    pub fn run(block: Block) -> (r: Block)
        ensures
            inl_block_rel(block, r, Map::empty(), fns_to_inline_of(block), u64::MAX as nat),
    {
        let fns = collect_fns_to_inline(&block);
        let mut inline = Inline { fns_to_inline: fns, fn_bodies: HashMap::new() };
        assert(inline.bodies() =~= Map::<u64, Block>::empty());
        inline.fold_block(block, u64::MAX)
    }
}

} // verus!
