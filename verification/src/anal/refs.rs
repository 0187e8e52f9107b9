//! Which refs are used within a single function scope only.

use vstd::prelude::*;

use std::collections::{HashMap, HashSet};

use vstd::std_specs::hash::spec_hash_map_iter;
use vstd::std_specs::iter::IteratorSpec;

use crate::ir::{Block, Expr, Mutable, RefType, ScopeTy, Stmt, SSA};
use crate::visit::{run_block, run_visitor, Visitor};

verus! {

/// Where a ref has been seen so far: only at one function nesting level, or at several.
#[derive(PartialEq, Eq, Structural, Clone, Copy)]
pub enum LevelState {
    Valid(u64),
    Invalid,
}

/// Records, for each ref of kind `K`, the function nesting levels it occurs at.
pub struct UsedInOnlyOneFnScope<K: RefType> {
    pub refs: HashMap<u64, LevelState>,
    pub cur_level: u64,
    pub marker: core::marker::PhantomData<K>,
}

/// The state after recording an occurrence of `id` at level `level`.
pub open spec fn record_level(refs: Map<u64, LevelState>, id: u64, level: u64) -> Map<u64, LevelState> {
    if !refs.contains_key(id) {
        refs.insert(id, LevelState::Valid(level))
    } else {
        match refs[id] {
            LevelState::Valid(l) => if l != level {
                refs.insert(id, LevelState::Invalid)
            } else {
                refs
            },
            LevelState::Invalid => refs,
        }
    }
}

/// The ids recorded at one level only.
pub open spec fn valid_ids(refs: Map<u64, LevelState>) -> Set<u64> {
    Set::new(|id: u64| refs.contains_key(id) && refs[id] is Valid)
}

pub open spec fn level_after_enter(level: u64, ty: ScopeTy) -> u64 {
    if ty is Function {
        if level == u64::MAX { level } else { (level + 1) as u64 }
    } else {
        level
    }
}

pub open spec fn level_after_exit(level: u64, ty: ScopeTy) -> u64 {
    if ty is Function {
        if level == 0 { level } else { (level - 1) as u64 }
    } else {
        level
    }
}

impl<K: RefType> UsedInOnlyOneFnScope<K> {
    pub fn new() -> (r: Self)
        ensures
            r.refs@ == Map::<u64, LevelState>::empty(),
            r.cur_level == 0,
    {
        UsedInOnlyOneFnScope { refs: HashMap::new(), cur_level: 0, marker: core::marker::PhantomData }
    }

    pub fn visit_ref(&mut self, id: u64)
        ensures
            final(self).refs@ == record_level(old(self).refs@, id, old(self).cur_level),
            final(self).cur_level == old(self).cur_level,
            final(self).marker == old(self).marker,
    {
        broadcast use vstd::std_specs::hash::group_hash_axioms;
        let cur = self.cur_level;
        match self.refs.get(&id) {
            None => {
                self.refs.insert(id, LevelState::Valid(cur));
            },
            Some(LevelState::Valid(l)) => {
                if *l != cur {
                    self.refs.insert(id, LevelState::Invalid);
                }
            },
            Some(LevelState::Invalid) => {},
        }
    }

    pub fn enter(&mut self, ty: ScopeTy)
        ensures
            final(self).refs == old(self).refs,
            final(self).cur_level == level_after_enter(old(self).cur_level, ty),
            final(self).marker == old(self).marker,
    {
        if let ScopeTy::Function = ty {
            self.cur_level = self.cur_level.saturating_add(1);
        }
    }

    pub fn exit(&mut self, ty: ScopeTy)
        ensures
            final(self).refs == old(self).refs,
            final(self).cur_level == level_after_exit(old(self).cur_level, ty),
            final(self).marker == old(self).marker,
    {
        if let ScopeTy::Function = ty {
            self.cur_level = self.cur_level.saturating_sub(1);
        }
    }
}

impl Visitor for UsedInOnlyOneFnScope<SSA> {
    type St = (Map<u64, LevelState>, u64);

    type Saved = ();

    type Sv = ();

    open spec fn state(&self) -> Self::St {
        (self.refs@, self.cur_level)
    }

    open spec fn saved_state(saved: &()) -> () {
        ()
    }

    open spec fn spec_visit(st: Self::St, s: Stmt) -> Self::St {
        match s {
            Stmt::Expr { target, .. } => (record_level(st.0, target.id, st.1), st.1),
            _ => st,
        }
    }

    open spec fn spec_visit_ref_use(st: Self::St, id: u64) -> Self::St {
        (record_level(st.0, id, st.1), st.1)
    }

    open spec fn spec_enter(st: Self::St, ty: ScopeTy, b: Block) -> (Self::St, ()) {
        ((st.0, level_after_enter(st.1, ty)), ())
    }

    open spec fn spec_exit(st: Self::St, ty: ScopeTy, saved: ()) -> Self::St {
        (st.0, level_after_exit(st.1, ty))
    }

    fn visit(&mut self, s: &Stmt) {
        match s {
            Stmt::Expr { target, .. } => self.visit_ref(target.id),
            _ => {},
        }
    }

    fn visit_ref_use(&mut self, id: u64) {
        self.visit_ref(id);
    }

    fn enter_scope(&mut self, ty: ScopeTy, b: &Block) -> (saved: ()) {
        self.enter(ty);
    }

    fn exit_scope(&mut self, ty: ScopeTy, saved: ()) {
        self.exit(ty);
    }
}

impl Visitor for UsedInOnlyOneFnScope<Mutable> {
    type St = (Map<u64, LevelState>, u64);

    type Saved = ();

    type Sv = ();

    open spec fn state(&self) -> Self::St {
        (self.refs@, self.cur_level)
    }

    open spec fn saved_state(saved: &()) -> () {
        ()
    }

    open spec fn spec_visit(st: Self::St, s: Stmt) -> Self::St {
        match s {
            Stmt::Expr { expr: Expr::ReadMutable { source }, .. } => (
                record_level(st.0, source.id, st.1),
                st.1,
            ),
            Stmt::DeclareMutable { target, .. } => (record_level(st.0, target.id, st.1), st.1),
            Stmt::WriteMutable { target, .. } => (record_level(st.0, target.id, st.1), st.1),
            _ => st,
        }
    }

    open spec fn spec_visit_ref_use(st: Self::St, id: u64) -> Self::St {
        st
    }

    open spec fn spec_enter(st: Self::St, ty: ScopeTy, b: Block) -> (Self::St, ()) {
        ((st.0, level_after_enter(st.1, ty)), ())
    }

    open spec fn spec_exit(st: Self::St, ty: ScopeTy, saved: ()) -> Self::St {
        (st.0, level_after_exit(st.1, ty))
    }

    fn visit(&mut self, s: &Stmt) {
        match s {
            Stmt::Expr { expr: Expr::ReadMutable { source }, .. } => self.visit_ref(source.id),
            Stmt::DeclareMutable { target, .. } => self.visit_ref(target.id),
            Stmt::WriteMutable { target, .. } => self.visit_ref(target.id),
            _ => {},
        }
    }

    fn visit_ref_use(&mut self, id: u64) {
    }

    fn enter_scope(&mut self, ty: ScopeTy, b: &Block) -> (saved: ()) {
        self.enter(ty);
    }

    fn exit_scope(&mut self, ty: ScopeTy, saved: ()) {
        self.exit(ty);
    }
}

/// The ids of `HashMap` `m` whose state is `Valid`.
pub fn valid_keys(m: &HashMap<u64, LevelState>) -> (r: HashSet<u64>)
    ensures
        r@ == valid_ids(m@),
{
    broadcast use vstd::std_specs::hash::group_hash_axioms;
    let mut r: HashSet<u64> = HashSet::new();
    let ghost all = spec_hash_map_iter(m).remaining();
    assert(all.len() == m@.dom().len());
    for pair in it: m.iter()
        invariant
            it.seq() == all,
            all == spec_hash_map_iter(m).remaining(),
            forall|id: u64| #[trigger] r@.contains(id) <==> exists|i: int| 0 <= i < it.index() && *it.seq()[i].0 == id && *it.seq()[i].1 is Valid,
    {
        let (k, v) = pair;
        match v {
            LevelState::Valid(_) => {
                r.insert(*k);
            },
            LevelState::Invalid => {},
        }
    }
    assert forall|id: u64| #[trigger] r@.contains(id) <==> valid_ids(m@).contains(id) by {
        if m@.contains_key(id) && m@[id] is Valid {
            assert(all.contains((&id, &m@[id])));
        }
    }
    assert(r@ =~= valid_ids(m@));
    r
}

/// The refs of kind SSA that occur at one function nesting level only.
pub fn used_in_only_one_fn_scope(ir: &Block) -> (r: HashSet<u64>)
    ensures
        r@ == valid_ids(run_block::<UsedInOnlyOneFnScope<SSA>>((Map::empty(), 0), ScopeTy::Toplevel, *ir).0),
{
    let mut collector: UsedInOnlyOneFnScope<SSA> = UsedInOnlyOneFnScope::new();
    run_visitor(&mut collector, ir);
    valid_keys(&collector.refs)
}

/// The mutable bindings that occur at one function nesting level only.
pub fn mutables_used_in_only_one_fn_scope(ir: &Block) -> (r: HashSet<u64>)
    ensures
        r@ == valid_ids(run_block::<UsedInOnlyOneFnScope<Mutable>>((Map::empty(), 0), ScopeTy::Toplevel, *ir).0),
{
    let mut collector: UsedInOnlyOneFnScope<Mutable> = UsedInOnlyOneFnScope::new();
    run_visitor(&mut collector, ir);
    valid_keys(&collector.refs)
}

} // verus!
