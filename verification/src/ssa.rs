//! Which SSA values can be written inline at their single use when the IR is turned back
//! into source, and a cache for the expressions of such values.

use vstd::prelude::*;

use std::collections::{HashMap, HashSet};

use crate::ir::{expr_uses, expr_uses_exec, stmt_uses, stmt_uses_exec, used_of, Block, Expr, Ref, ScopeTy, Stmt, UseCounts, SSA};
use crate::visit::{run_block, run_visitor, Visitor};

verus! {

/// How much an expression or statement may interact with the outside world.
#[derive(PartialEq, Eq, Structural, Clone, Copy)]
pub enum Effect {
    Pure,
    Read,
    Write,
}

pub open spec fn rank(e: Effect) -> nat {
    match e {
        Effect::Pure => 0,
        Effect::Read => 1,
        Effect::Write => 2,
    }
}

pub open spec fn eff_max(a: Effect, b: Effect) -> Effect {
    if rank(a) >= rank(b) {
        a
    } else {
        b
    }
}

fn eff_max_exec(a: Effect, b: Effect) -> (r: Effect)
    ensures
        r == eff_max(a, b),
{
    let ra: u8 = match a {
        Effect::Pure => 0,
        Effect::Read => 1,
        Effect::Write => 2,
    };
    let rb: u8 = match b {
        Effect::Pure => 0,
        Effect::Read => 1,
        Effect::Write => 2,
    };
    if ra >= rb {
        a
    } else {
        b
    }
}

/// Abstract state of the analysis: refs that can be inlined at their use; single-use refs
/// declared so far and not yet used, by the effect of their definition; the largest effect
/// seen in the current scope; and the occurrence counts of the program.
pub struct InlineState {
    pub can_inline: Set<u64>,
    pub pure_refs: Set<u64>,
    pub read_refs: Set<u64>,
    pub write_refs: Set<u64>,
    pub largest: Effect,
    pub counts: spec_fn(u64) -> nat,
}

/// What entering a scope sets aside of the enclosing state.
pub struct InlineSavedState {
    pub pure_refs: Set<u64>,
    pub read_refs: Set<u64>,
    pub write_refs: Set<u64>,
    pub largest: Effect,
}

/// Uses `ids` in order: a pending single-use ref used here can be inlined at this use. The
/// effect is the largest of `own` and those of the refs so used.
pub open spec fn use_refs(st: InlineState, own: Effect, ids: Seq<u64>) -> (InlineState, Effect)
    decreases ids.len(),
{
    if ids.len() == 0 {
        (st, own)
    } else {
        let (s1, e1) = use_refs(st, own, ids.drop_last());
        let id = ids.last();
        if s1.pure_refs.contains(id) {
            (
                InlineState { pure_refs: s1.pure_refs.remove(id), can_inline: s1.can_inline.insert(id), ..s1 },
                eff_max(e1, Effect::Pure),
            )
        } else if s1.read_refs.contains(id) {
            (
                InlineState { read_refs: s1.read_refs.remove(id), can_inline: s1.can_inline.insert(id), ..s1 },
                eff_max(e1, Effect::Read),
            )
        } else if s1.write_refs.contains(id) {
            (
                InlineState { write_refs: s1.write_refs.remove(id), can_inline: s1.can_inline.insert(id), ..s1 },
                eff_max(e1, Effect::Write),
            )
        } else {
            (s1, e1)
        }
    }
}

/// A side effect: a read invalidates pending refs defined by writes, a write invalidates
/// pending refs defined by reads and writes.
pub open spec fn side_effect(st: InlineState, eff: Effect) -> InlineState {
    let s1 = match eff {
        Effect::Pure => st,
        Effect::Read => InlineState { write_refs: Set::empty(), ..st },
        Effect::Write => InlineState { read_refs: Set::empty(), write_refs: Set::empty(), ..st },
    };
    InlineState { largest: eff_max(st.largest, eff), ..s1 }
}

/// The effect of an expression by itself, its operands aside.
pub open spec fn expr_own_effect(e: Expr) -> Effect {
    match e {
        Expr::Bool { .. } | Expr::Number { .. } | Expr::String { .. } | Expr::Null | Expr::Undefined
        | Expr::This | Expr::Array { .. } | Expr::Object { .. } | Expr::Unary { .. } | Expr::Binary {
            ..
        } | Expr::Function { .. } => Effect::Pure,
        Expr::Delete { .. } | Expr::Yield { .. } | Expr::Await { .. } | Expr::Call { .. } => Effect::Write,
        _ => Effect::Read,
    }
}

/// The effect of a statement other than an expression, its operands aside.
pub open spec fn stmt_own_effect(s: Stmt) -> Effect {
    match s {
        Stmt::WriteMutable { .. } | Stmt::WriteGlobal { .. } | Stmt::WriteMember { .. }
        | Stmt::Debugger => Effect::Write,
        Stmt::Return { .. } | Stmt::Throw { .. } | Stmt::Break { .. } | Stmt::Continue { .. }
        | Stmt::SwitchCase { .. } => Effect::Read,
        _ => Effect::Pure,
    }
}

pub open spec fn declare_ref(st: InlineState, id: u64, eff: Effect) -> InlineState {
    match eff {
        Effect::Pure => InlineState { pure_refs: st.pure_refs.insert(id), ..st },
        Effect::Read => InlineState { read_refs: st.read_refs.insert(id), ..st },
        Effect::Write => InlineState { write_refs: st.write_refs.insert(id), ..st },
    }
}

pub open spec fn visit_spec(st: InlineState, s: Stmt) -> InlineState {
    match s {
        Stmt::Expr { target, expr } => {
            let (s1, eff) = use_refs(st, expr_own_effect(expr), expr_uses(expr));
            let s2 = side_effect(s1, eff);
            if used_of((st.counts)(target.id)) is Once {
                declare_ref(s2, target.id, eff)
            } else {
                s2
            }
        },
        _ => {
            let (s1, eff) = use_refs(st, stmt_own_effect(s), stmt_uses(s));
            side_effect(s1, eff)
        },
    }
}

/// Collects the single-use SSA refs whose definition can be moved to their use: nothing
/// that could observe or change what the definition does lies between the two.
pub struct CollectSingleUseInliningInfo {
    pub can_inline_at_use: HashSet<u64>,
    pub pure_refs: HashSet<u64>,
    pub read_refs: HashSet<u64>,
    pub write_refs: HashSet<u64>,
    pub largest_effect: Effect,
    pub counts: UseCounts,
}

pub struct InlineSaved {
    pub pure_refs: HashSet<u64>,
    pub read_refs: HashSet<u64>,
    pub write_refs: HashSet<u64>,
    pub largest_effect: Effect,
}

impl CollectSingleUseInliningInfo {
    fn use_refs_exec(&mut self, own: Effect, ids: &Vec<u64>) -> (r: Effect)
        ensures
            (final(self).state(), r) == use_refs(old(self).state(), own, ids@),
            final(self).counts == old(self).counts,
    {
        broadcast use vstd::std_specs::hash::group_hash_axioms;
        let mut eff = own;
        let mut i: usize = 0;
        while i < ids.len()
            invariant
                i <= ids@.len(),
                self.counts == old(self).counts,
                (self.state(), eff) == use_refs(old(self).state(), own, ids@.take(i as int)),
            decreases ids@.len() - i,
        {
            assert(ids@.take(i + 1).drop_last() =~= ids@.take(i as int));
            let id = ids[i];
            if self.pure_refs.contains(&id) {
                self.pure_refs.remove(&id);
                self.can_inline_at_use.insert(id);
                eff = eff_max_exec(eff, Effect::Pure);
            } else if self.read_refs.contains(&id) {
                self.read_refs.remove(&id);
                self.can_inline_at_use.insert(id);
                eff = eff_max_exec(eff, Effect::Read);
            } else if self.write_refs.contains(&id) {
                self.write_refs.remove(&id);
                self.can_inline_at_use.insert(id);
                eff = eff_max_exec(eff, Effect::Write);
            }
            i += 1;
        }
        assert(ids@.take(ids@.len() as int) =~= ids@);
        eff
    }

    fn side_effect_exec(&mut self, eff: Effect)
        ensures
            final(self).state() == side_effect(old(self).state(), eff),
            final(self).counts == old(self).counts,
    {
        match eff {
            Effect::Pure => {},
            Effect::Read => {
                self.write_refs = HashSet::new();
            },
            Effect::Write => {
                self.read_refs = HashSet::new();
                self.write_refs = HashSet::new();
            },
        }
        self.largest_effect = eff_max_exec(self.largest_effect, eff);
    }

    fn expr_own_effect_exec(e: &Expr) -> (r: Effect)
        ensures
            r == expr_own_effect(*e),
    {
        match e {
            Expr::Bool { .. } | Expr::Number { .. } | Expr::String { .. } | Expr::Null
            | Expr::Undefined | Expr::This | Expr::Array { .. } | Expr::Object { .. } | Expr::Unary {
                ..
            } | Expr::Binary { .. } | Expr::Function { .. } => Effect::Pure,
            Expr::Delete { .. } | Expr::Yield { .. } | Expr::Await { .. } | Expr::Call { .. } => Effect::Write,
            _ => Effect::Read,
        }
    }

    fn stmt_own_effect_exec(s: &Stmt) -> (r: Effect)
        ensures
            r == stmt_own_effect(*s),
    {
        match s {
            Stmt::WriteMutable { .. } | Stmt::WriteGlobal { .. } | Stmt::WriteMember { .. }
            | Stmt::Debugger => Effect::Write,
            Stmt::Return { .. } | Stmt::Throw { .. } | Stmt::Break { .. } | Stmt::Continue { .. }
            | Stmt::SwitchCase { .. } => Effect::Read,
            _ => Effect::Pure,
        }
    }
}

impl Visitor for CollectSingleUseInliningInfo {
    type St = InlineState;

    type Saved = InlineSaved;

    type Sv = InlineSavedState;

    open spec fn state(&self) -> InlineState {
        InlineState {
            can_inline: self.can_inline_at_use@,
            pure_refs: self.pure_refs@,
            read_refs: self.read_refs@,
            write_refs: self.write_refs@,
            largest: self.largest_effect,
            counts: |id: u64| self.counts.count_of(id),
        }
    }

    open spec fn saved_state(saved: &InlineSaved) -> InlineSavedState {
        InlineSavedState {
            pure_refs: saved.pure_refs@,
            read_refs: saved.read_refs@,
            write_refs: saved.write_refs@,
            largest: saved.largest_effect,
        }
    }

    open spec fn spec_visit(st: InlineState, s: Stmt) -> InlineState {
        visit_spec(st, s)
    }

    open spec fn spec_visit_ref_use(st: InlineState, id: u64) -> InlineState {
        st
    }

    /// A function is analysed on its own; a normal scope keeps the pending pure and read
    /// refs (write refs cannot move into code that may not run); a nonlinear scope keeps only
    /// the pure ones.
    open spec fn spec_enter(st: InlineState, ty: ScopeTy, b: Block) -> (InlineState, InlineSavedState) {
        match ty {
            ScopeTy::Function => (
                InlineState {
                    pure_refs: Set::empty(),
                    read_refs: Set::empty(),
                    write_refs: Set::empty(),
                    largest: Effect::Pure,
                    ..st
                },
                InlineSavedState {
                    pure_refs: st.pure_refs,
                    read_refs: st.read_refs,
                    write_refs: st.write_refs,
                    largest: st.largest,
                },
            ),
            ScopeTy::Nonlinear => (
                InlineState { read_refs: Set::empty(), write_refs: Set::empty(), largest: Effect::Pure, ..st },
                InlineSavedState {
                    pure_refs: Set::empty(),
                    read_refs: st.read_refs,
                    write_refs: st.write_refs,
                    largest: st.largest,
                },
            ),
            _ => (
                InlineState { write_refs: Set::empty(), largest: Effect::Pure, ..st },
                InlineSavedState {
                    pure_refs: Set::empty(),
                    read_refs: Set::empty(),
                    write_refs: st.write_refs,
                    largest: st.largest,
                },
            ),
        }
    }

    /// Leaving a scope other than a function applies the largest effect seen in it.
    open spec fn spec_exit(st: InlineState, ty: ScopeTy, saved: InlineSavedState) -> InlineState {
        match ty {
            ScopeTy::Function => InlineState {
                pure_refs: saved.pure_refs,
                read_refs: saved.read_refs,
                write_refs: saved.write_refs,
                largest: saved.largest,
                ..st
            },
            ScopeTy::Nonlinear => side_effect(
                InlineState {
                    read_refs: saved.read_refs,
                    write_refs: saved.write_refs,
                    largest: saved.largest,
                    ..st
                },
                st.largest,
            ),
            _ => side_effect(
                InlineState { write_refs: saved.write_refs, largest: saved.largest, ..st },
                st.largest,
            ),
        }
    }

    fn visit(&mut self, s: &Stmt) {
        broadcast use vstd::std_specs::hash::group_hash_axioms;
        match s {
            Stmt::Expr { target, expr } => {
                let once = target.used(&self.counts).is_once();
                let ids = expr_uses_exec(expr);
                let own = CollectSingleUseInliningInfo::expr_own_effect_exec(expr);
                let eff = self.use_refs_exec(own, &ids);
                self.side_effect_exec(eff);
                if once {
                    match eff {
                        Effect::Pure => {
                            self.pure_refs.insert(target.id);
                        },
                        Effect::Read => {
                            self.read_refs.insert(target.id);
                        },
                        Effect::Write => {
                            self.write_refs.insert(target.id);
                        },
                    }
                }
            },
            _ => {
                let ids = stmt_uses_exec(s);
                let own = CollectSingleUseInliningInfo::stmt_own_effect_exec(s);
                let eff = self.use_refs_exec(own, &ids);
                self.side_effect_exec(eff);
            },
        }
    }

    fn visit_ref_use(&mut self, id: u64) {
    }

    fn enter_scope(&mut self, ty: ScopeTy, b: &Block) -> (saved: InlineSaved) {
        let mut pure_refs: HashSet<u64> = HashSet::new();
        let mut read_refs: HashSet<u64> = HashSet::new();
        let mut write_refs: HashSet<u64> = HashSet::new();
        let largest_effect = self.largest_effect;
        match ty {
            ScopeTy::Function => {
                std::mem::swap(&mut pure_refs, &mut self.pure_refs);
                std::mem::swap(&mut read_refs, &mut self.read_refs);
                std::mem::swap(&mut write_refs, &mut self.write_refs);
                let saved = InlineSaved { pure_refs, read_refs, write_refs, largest_effect };
                self.largest_effect = Effect::Pure;
                saved
            },
            ScopeTy::Nonlinear => {
                std::mem::swap(&mut read_refs, &mut self.read_refs);
                std::mem::swap(&mut write_refs, &mut self.write_refs);
                let saved = InlineSaved { pure_refs, read_refs, write_refs, largest_effect };
                self.largest_effect = Effect::Pure;
                saved
            },
            _ => {
                std::mem::swap(&mut write_refs, &mut self.write_refs);
                let saved = InlineSaved { pure_refs, read_refs, write_refs, largest_effect };
                self.largest_effect = Effect::Pure;
                saved
            },
        }
    }

    fn exit_scope(&mut self, ty: ScopeTy, saved: InlineSaved) {
        let inner = self.largest_effect;
        let InlineSaved { pure_refs, read_refs, write_refs, largest_effect } = saved;
        match ty {
            ScopeTy::Function => {
                self.pure_refs = pure_refs;
                self.read_refs = read_refs;
                self.write_refs = write_refs;
                self.largest_effect = largest_effect;
            },
            ScopeTy::Nonlinear => {
                self.read_refs = read_refs;
                self.write_refs = write_refs;
                self.largest_effect = largest_effect;
                self.side_effect_exec(inner);
            },
            _ => {
                self.write_refs = write_refs;
                self.largest_effect = largest_effect;
                self.side_effect_exec(inner);
            },
        }
    }
}

/// What to do with a value when its declaration is reached while writing source.
pub enum ToDo {
    EmitForSideEffects,
    AddToCache,
    DropAlreadyCached,
    DeclareVar,
}

/// Expressions of SSA values to write inline at their use, and what to do at declarations;
/// `E` is the type of expressions of the target language.
pub struct Cache<E> {
    pub can_inline_at_use: HashSet<u64>,
    pub expr_cache: HashMap<u64, E>,
    pub to_do_at_declaration: HashMap<u64, ToDo>,
}

/// The state the analysis starts from for a program with occurrence counts `counts`.
pub open spec fn initial_state(counts: spec_fn(u64) -> nat) -> InlineState {
    InlineState {
        can_inline: Set::empty(),
        pure_refs: Set::empty(),
        read_refs: Set::empty(),
        write_refs: Set::empty(),
        largest: Effect::Pure,
        counts,
    }
}

impl<E> Cache<E> {
    /// A cache for writing `ir`, knowing which of its SSA values can be inlined at their use.
    pub fn prepare_for_inlining(ir: &Block) -> (r: Self)
        ensures
            r.can_inline_at_use@ == run_block::<CollectSingleUseInliningInfo>(
                initial_state(|id: u64| crate::ir::sat(crate::ir::occ_block(*ir, id))),
                ScopeTy::Toplevel,
                *ir,
            ).can_inline,
            r.expr_cache@ == Map::<u64, E>::empty(),
            r.to_do_at_declaration@ == Map::<u64, ToDo>::empty(),
    {
        let counts = crate::ir::count_uses(ir);
        let mut collector = CollectSingleUseInliningInfo {
            can_inline_at_use: HashSet::new(),
            pure_refs: HashSet::new(),
            read_refs: HashSet::new(),
            write_refs: HashSet::new(),
            largest_effect: Effect::Pure,
            counts,
        };
        assert(collector.state().counts =~= (|id: u64| crate::ir::sat(crate::ir::occ_block(*ir, id))));
        assert(collector.state().can_inline =~= Set::<u64>::empty());
        assert(collector.state() == initial_state(|id: u64| crate::ir::sat(crate::ir::occ_block(*ir, id))));
        run_visitor(&mut collector, ir);
        Cache {
            can_inline_at_use: collector.can_inline_at_use,
            expr_cache: HashMap::new(),
            to_do_at_declaration: HashMap::new(),
        }
    }

    /// A cache that inlines nothing.
    pub fn empty() -> (r: Self)
        ensures
            r.can_inline_at_use@ == Set::<u64>::empty(),
            r.expr_cache@ == Map::<u64, E>::empty(),
            r.to_do_at_declaration@ == Map::<u64, ToDo>::empty(),
    {
        Cache { can_inline_at_use: HashSet::new(), expr_cache: HashMap::new(), to_do_at_declaration: HashMap::new() }
    }

    pub fn can_be_inlined_forwards(&self, ssa_ref: &Ref<SSA>) -> (r: bool)
        ensures
            r == self.can_inline_at_use@.contains(ssa_ref.id),
    {
        broadcast use vstd::std_specs::hash::group_hash_axioms;
        self.can_inline_at_use.contains(&ssa_ref.id)
    }

    /// Caches the expression of a value, which must not be cached yet.
    pub fn cache(&mut self, ssa_ref: &Ref<SSA>, expr: E)
        requires
            !old(self).expr_cache@.contains_key(ssa_ref.id),
        ensures
            final(self).expr_cache@ == old(self).expr_cache@.insert(ssa_ref.id, expr),
            final(self).can_inline_at_use == old(self).can_inline_at_use,
            final(self).to_do_at_declaration == old(self).to_do_at_declaration,
    {
        broadcast use vstd::std_specs::hash::group_hash_axioms;
        self.expr_cache.insert(ssa_ref.id, expr);
    }

    pub fn get_cached(&self, ssa_ref: &Ref<SSA>) -> (r: Option<&E>)
        ensures
            match r {
                Some(e) => self.expr_cache@.contains_key(ssa_ref.id) && *e == self.expr_cache@[ssa_ref.id],
                None => !self.expr_cache@.contains_key(ssa_ref.id),
            },
    {
        broadcast use vstd::std_specs::hash::group_hash_axioms;
        self.expr_cache.get(&ssa_ref.id)
    }

    /// Records what to do at a value's declaration, which must not be recorded yet.
    pub fn do_at_declaration(&mut self, ssa_ref: &Ref<SSA>, to_do: ToDo)
        requires
            !old(self).to_do_at_declaration@.contains_key(ssa_ref.id),
        ensures
            final(self).to_do_at_declaration@ == old(self).to_do_at_declaration@.insert(ssa_ref.id, to_do),
            final(self).can_inline_at_use == old(self).can_inline_at_use,
            final(self).expr_cache == old(self).expr_cache,
    {
        broadcast use vstd::std_specs::hash::group_hash_axioms;
        self.to_do_at_declaration.insert(ssa_ref.id, to_do);
    }

    pub fn what_to_do(&self, ssa_ref: &Ref<SSA>) -> (r: Option<&ToDo>)
        ensures
            match r {
                Some(t) => self.to_do_at_declaration@.contains_key(ssa_ref.id) && *t
                    == self.to_do_at_declaration@[ssa_ref.id],
                None => !self.to_do_at_declaration@.contains_key(ssa_ref.id),
            },
    {
        broadcast use vstd::std_specs::hash::group_hash_axioms;
        self.to_do_at_declaration.get(&ssa_ref.id)
    }
}


proof fn lemma_use_refs_effect_at_least(st: InlineState, own: Effect, ids: Seq<u64>)
    ensures
        rank(use_refs(st, own, ids).1) >= rank(own),
        use_refs(st, own, ids).0.largest == st.largest,
        use_refs(st, own, ids).0.counts == st.counts,
    decreases ids.len(),
{
    if ids.len() > 0 {
        lemma_use_refs_effect_at_least(st, own, ids.drop_last());
    }
}

/// A call (or `delete`, `yield`, `await`) may read and write anything: no single-use value
/// defined before it by a read or a write may be moved past it, so none stays pending; the
/// call's own value, if used once, counts as defined by a write; the scope has seen a write.
pub proof fn law_inline_not_across_call(st: InlineState, target: Ref<SSA>, expr: Expr)
    requires
        expr is Call || expr is Delete || expr is Yield || expr is Await,
    ensures
        visit_spec(st, (Stmt::Expr { target, expr })).read_refs == Set::<u64>::empty(),
        forall|id: u64| #[trigger] visit_spec(st, (Stmt::Expr { target, expr })).write_refs.contains(id) ==> id == target.id,
        used_of((st.counts)(target.id)) is Once ==> visit_spec(st, (Stmt::Expr { target, expr })).write_refs.contains(
            target.id,
        ),
        visit_spec(st, (Stmt::Expr { target, expr })).largest == Effect::Write,
{
    let own = expr_own_effect(expr);
    let (s1, eff) = use_refs(st, own, expr_uses(expr));
    lemma_use_refs_effect_at_least(st, own, expr_uses(expr));
    assert(own == Effect::Write);
    assert(eff == Effect::Write);
    let s2 = side_effect(s1, eff);
    assert(s2.read_refs =~= Set::<u64>::empty());
    assert(s2.write_refs =~= Set::<u64>::empty());
    assert(visit_spec(st, (Stmt::Expr { target, expr })).read_refs =~= Set::<u64>::empty());
}

} // verus!
