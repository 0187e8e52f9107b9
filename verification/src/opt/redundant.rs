//! Removal and forwarding of redundant loads and stores of mutable bindings.

use vstd::prelude::*;

use std::collections::{HashMap, HashSet};

use crate::ir::{lemma_nested_block_decreases, stmt_blocks, Block, Expr, Mutable, Ref, ScopeTy, Stmt, SSA};
use crate::traverse::{put_blocks, same_frame, take_blocks};
use crate::visit::{run_block, run_visitor, Visitor};

use vstd::std_specs::iter::IteratorSpec;

verus! {

/// The last operation on a mutable binding.
pub enum LastOp {
    /// The binding was declared with this value.
    Declare(Ref<SSA>),
    /// The binding was written this value.
    Write(Ref<SSA>),
    /// The binding was read into this value (recorded for later reads only).
    Read(Ref<SSA>),
}

/// What becomes of the statement with a given index.
pub enum What {
    /// A read of the binding reads this SSA value instead.
    ReadSsa(Ref<SSA>),
    /// The write is overwritten before being read: it goes.
    Remove,
    /// The write replaces the declaration it overwrites.
    BecomeDecl,
}

pub struct InvalidV {
    pub all_local: bool,
    pub all_nonlocal: bool,
    pub refs: Set<u64>,
}

/// Last writes of bindings used in one function scope, of the others, and what a scope
/// invalidates in its parent.
pub struct OpsV {
    pub local: Map<u64, (u64, LastOp)>,
    pub nonlocal: Map<u64, (u64, LastOp)>,
    pub inv: InvalidV,
}

/// Abstract state of the analysis: the bindings used in one function scope, the decisions
/// so far, the index of the statement being visited, and the last writes that reads, and
/// writes, may be forwarded from or may overwrite.
pub struct LSState {
    pub refs: Set<u64>,
    pub ops: Map<u64, What>,
    pub cur: u64,
    pub reads: OpsV,
    pub writes: OpsV,
}

pub struct LSSavedState {
    pub reads: OpsV,
    pub writes: OpsV,
}

pub open spec fn sat_inc(d: u64) -> u64 {
    if d == u64::MAX {
        d
    } else {
        (d + 1) as u64
    }
}

pub open spec fn no_invalid() -> InvalidV {
    InvalidV { all_local: false, all_nonlocal: false, refs: Set::empty() }
}

pub open spec fn empty_ops() -> OpsV {
    OpsV { local: Map::empty(), nonlocal: Map::empty(), inv: no_invalid() }
}

/// What a nested scope's invalidations do to the enclosing one.
pub open spec fn invalidate_ops(this: OpsV, inv: InvalidV) -> OpsV {
    let local1 = if inv.all_local { Map::empty() } else { this.local };
    let nonlocal1 = if inv.all_nonlocal { Map::empty() } else { this.nonlocal };
    OpsV {
        local: local1.remove_keys(inv.refs),
        nonlocal: nonlocal1.remove_keys(inv.refs.filter(|r: u64| !local1.contains_key(r))),
        inv: InvalidV {
            all_local: this.inv.all_local || inv.all_local,
            all_nonlocal: this.inv.all_nonlocal || inv.all_nonlocal,
            refs: this.inv.refs.union(inv.refs),
        },
    }
}

pub open spec fn across_fn(o: OpsV) -> OpsV {
    OpsV { nonlocal: Map::empty(), inv: InvalidV { all_nonlocal: true, ..o.inv }, ..o }
}

pub open spec fn set_op(o: OpsV, local: bool, target: u64, op: (u64, LastOp)) -> OpsV {
    if local {
        OpsV { local: o.local.insert(target, op), inv: InvalidV { refs: o.inv.refs.insert(target), ..o.inv }, ..o }
    } else {
        OpsV { nonlocal: o.nonlocal.insert(target, op), inv: InvalidV { refs: o.inv.refs.insert(target), ..o.inv }, ..o }
    }
}

pub open spec fn set_last_op(st: LSState, target: u64, op: (u64, LastOp)) -> LSState {
    let local = st.refs.contains(target);
    LSState { reads: set_op(st.reads, local, target, op), writes: set_op(st.writes, local, target, op), ..st }
}

pub open spec fn get_last_op(o: OpsV, r: u64) -> Option<(u64, LastOp)> {
    if o.local.contains_key(r) {
        Some(o.local[r])
    } else if o.nonlocal.contains_key(r) {
        Some(o.nonlocal[r])
    } else {
        None
    }
}

pub open spec fn write_mut(st: LSState, target: u64, val: Ref<SSA>) -> LSState {
    match get_last_op(st.writes, target) {
        Some((di, LastOp::Declare(_))) => set_last_op(
            LSState { ops: st.ops.insert(di, What::Remove).insert(st.cur, What::BecomeDecl), ..st },
            target,
            (st.cur, LastOp::Declare(val)),
        ),
        Some((wi, LastOp::Write(_))) => set_last_op(
            LSState { ops: st.ops.insert(wi, What::Remove), ..st },
            target,
            (st.cur, LastOp::Write(val)),
        ),
        _ => set_last_op(st, target, (st.cur, LastOp::Write(val))),
    }
}

/// A read that nothing is known about is recorded, so that later reads may be forwarded
/// from it; it is not a write, so it leaves the parent's knowledge alone.
pub open spec fn record_read(st: LSState, source: u64, op: (u64, LastOp)) -> LSState {
    let o = st.reads;
    let reads = if st.refs.contains(source) {
        OpsV { local: o.local.insert(source, op), ..o }
    } else {
        OpsV { nonlocal: o.nonlocal.insert(source, op), ..o }
    };
    LSState { reads, ..st }
}

/// A read is forwarded from the last known write or read of the binding (write-to-read and
/// read-to-read forwarding); a read with nothing known is recorded for later reads.
pub open spec fn read_mut(st: LSState, target: Ref<SSA>, source: u64) -> LSState {
    match get_last_op(st.reads, source) {
        Some((_, LastOp::Declare(v))) => LSState { ops: st.ops.insert(st.cur, What::ReadSsa(v)), ..st },
        Some((_, LastOp::Write(v))) => LSState { ops: st.ops.insert(st.cur, What::ReadSsa(v)), ..st },
        Some((_, LastOp::Read(v))) => LSState { ops: st.ops.insert(st.cur, What::ReadSsa(v)), ..st },
        None => record_read(st, source, (st.cur, LastOp::Read(target))),
    }
}

pub open spec fn ls_visit(st0: LSState, s: Stmt) -> LSState {
    let st = LSState { cur: sat_inc(st0.cur), ..st0 };
    match s {
        Stmt::Expr { target, expr: Expr::ReadMutable { source } } => read_mut(st, target, source.id),
        Stmt::Expr { expr: Expr::Yield { .. }, .. } | Stmt::Expr { expr: Expr::Await { .. }, .. }
        | Stmt::Expr { expr: Expr::Call { .. }, .. } => LSState {
            reads: across_fn(st.reads),
            writes: across_fn(st.writes),
            ..st
        },
        Stmt::DeclareMutable { target, val } => set_last_op(st, target.id, (st.cur, LastOp::Declare(val))),
        Stmt::WriteMutable { target, val } => write_mut(st, target.id, val),
        Stmt::Return { .. } | Stmt::Throw { .. } | Stmt::Break { .. } | Stmt::Continue { .. } => LSState {
            writes: OpsV {
                local: Map::empty(),
                nonlocal: Map::empty(),
                inv: InvalidV { all_local: true, all_nonlocal: true, ..st.writes.inv },
            },
            ..st
        },
        Stmt::SwitchCase { .. } => LSState {
            reads: OpsV { local: Map::empty(), nonlocal: Map::empty(), ..st.reads },
            writes: OpsV { local: Map::empty(), nonlocal: Map::empty(), ..st.writes },
            ..st
        },
        _ => st,
    }
}

// ---------------------------------------------------------------------------
// The analysis.
// ---------------------------------------------------------------------------

pub struct InvalidSet {
    pub all_local: bool,
    pub all_nonlocal: bool,
    pub refs: HashSet<u64>,
}

pub struct Ops {
    pub local_last_op: HashMap<u64, (u64, LastOp)>,
    pub nonlocal_last_op: HashMap<u64, (u64, LastOp)>,
    pub invalid_in_parent: InvalidSet,
}

pub open spec fn inv_view(i: InvalidSet) -> InvalidV {
    InvalidV { all_local: i.all_local, all_nonlocal: i.all_nonlocal, refs: i.refs@ }
}

pub open spec fn ops_view(o: Ops) -> OpsV {
    OpsV { local: o.local_last_op@, nonlocal: o.nonlocal_last_op@, inv: inv_view(o.invalid_in_parent) }
}

fn dup_op(op: &(u64, LastOp)) -> (r: (u64, LastOp))
    ensures
        r == *op,
{
    match &op.1 {
        LastOp::Declare(v) => (op.0, LastOp::Declare(v.duplicate())),
        LastOp::Write(v) => (op.0, LastOp::Write(v.duplicate())),
        LastOp::Read(v) => (op.0, LastOp::Read(v.duplicate())),
    }
}

/// A copy of a map of last writes.
fn copy_ops_map(m: &HashMap<u64, (u64, LastOp)>) -> (r: HashMap<u64, (u64, LastOp)>)
    ensures
        r@ == m@,
{
    broadcast use vstd::std_specs::hash::group_hash_axioms;
    let mut r: HashMap<u64, (u64, LastOp)> = HashMap::new();
    let ghost items = vstd::std_specs::hash::spec_hash_map_iter(m).remaining();
    proof {
        vstd::std_specs::hash::axiom_spec_hash_map_iter(m);
    }
    for kv in it: m.iter()
        invariant
            it.seq() == items,
            items == vstd::std_specs::hash::spec_hash_map_iter(m).remaining(),
            items.no_duplicates(),
            forall|i: int| 0 <= i < items.len() ==> m@.contains_key(*items[i].0) && m@[*items[i].0] == *items[i].1,
            forall|k: u64| #[trigger] r@.contains_key(k) <==> exists|i: int| 0 <= i < it.index() && *items[i].0 == k,
            forall|k: u64| #[trigger] r@.contains_key(k) ==> r@[k] == m@[k],
    {
        let (k, v) = kv;
        let ghost i = it.index() as int;
        assert(items[i] == kv);
        r.insert(*k, dup_op(v));
        assert forall|x: u64| #[trigger] r@.contains_key(x) <==> exists|j: int| 0 <= j < i + 1 && *items[j].0 == x by {
            if x == *k {
                assert(*items[i].0 == x);
            }
        }
    }
    assert forall|k: u64| #[trigger] m@.contains_key(k) implies r@.contains_key(k) by {
        assert(items.contains((&k, &m@[k])));
        let j = choose|j: int| 0 <= j < items.len() && items[j] == (&k, &m@[k]);
        assert(*items[j].0 == k);
    }
    assert(r@ =~= m@);
    r
}

impl InvalidSet {
    fn new() -> (r: Self)
        ensures
            r.all_local == false,
            r.all_nonlocal == false,
            r.refs@ == Set::<u64>::empty(),
    {
        InvalidSet { all_local: false, all_nonlocal: false, refs: HashSet::new() }
    }
}

impl Ops {
    fn new() -> (r: Self)
        ensures
            ops_view(r) == empty_ops(),
    {
        let r = Ops { local_last_op: HashMap::new(), nonlocal_last_op: HashMap::new(), invalid_in_parent: InvalidSet::new() };
        assert(ops_view(r).local =~= empty_ops().local);
        assert(ops_view(r).nonlocal =~= empty_ops().nonlocal);
        assert(ops_view(r).inv.refs =~= empty_ops().inv.refs);
        r
    }

    /// Applies the invalidations of a nested scope.
    fn invalidate_from(&mut self, invalid: InvalidSet)
        ensures
            ops_view(*final(self)) == invalidate_ops(ops_view(*old(self)), inv_view(invalid)),
    {
        broadcast use vstd::std_specs::hash::group_hash_axioms;
        let ghost inv = InvalidV { all_local: invalid.all_local, all_nonlocal: invalid.all_nonlocal, refs: invalid.refs@ };
        if invalid.all_local {
            self.local_last_op.clear();
            self.invalid_in_parent.all_local = true;
        }
        if invalid.all_nonlocal {
            self.nonlocal_last_op.clear();
            self.invalid_in_parent.all_nonlocal = true;
        }
        let ghost local1 = self.local_last_op@;
        let ghost nonlocal1 = self.nonlocal_last_op@;
        let ghost al = self.invalid_in_parent.all_local;
        let ghost anl = self.invalid_in_parent.all_nonlocal;
        assert(al == (old(self).invalid_in_parent.all_local || inv.all_local));
        assert(anl == (old(self).invalid_in_parent.all_nonlocal || inv.all_nonlocal));
        let ghost refs0 = self.invalid_in_parent.refs@;
        let ghost items = vstd::std_specs::hash::spec_hash_keys_iter(&invalid.refs).remaining();
        for r in it: invalid.refs.iter()
            invariant
                it.seq() == items,
                items == vstd::std_specs::hash::spec_hash_keys_iter(&invalid.refs).remaining(),
                ({
                    let done = items.take(it.index() as int).map_values(|p: &u64| *p).to_set();
                    &&& self.local_last_op@ == local1.remove_keys(done)
                    &&& self.nonlocal_last_op@ == nonlocal1.remove_keys(done.filter(|x: u64| !local1.contains_key(x)))
                    &&& self.invalid_in_parent.refs@ == refs0.union(done)
                }),
                self.invalid_in_parent.all_local == al,
                self.invalid_in_parent.all_nonlocal == anl,
        {
            let ghost i = it.index() as int;
            let ghost done = items.take(i).map_values(|p: &u64| *p).to_set();
            assert(items.take(i + 1).map_values(|p: &u64| *p) =~= items.take(i).map_values(|p: &u64| *p).push(*r));
            proof {
                items.take(i).map_values(|p: &u64| *p).lemma_push_to_set_commute(*r);
            }
            if self.local_last_op.remove(r).is_none() {
                self.nonlocal_last_op.remove(r);
            }
            self.invalid_in_parent.refs.insert(*r);
            assert(self.local_last_op@ =~= local1.remove_keys(done.insert(*r)));
            assert(self.nonlocal_last_op@ =~= nonlocal1.remove_keys(done.insert(*r).filter(|x: u64| !local1.contains_key(x))));
            assert(self.invalid_in_parent.refs@ =~= refs0.union(done.insert(*r)));
        }
        assert(items.take(items.len() as int) == items);
        assert(items.map_values(|p: &u64| *p).to_set() =~= invalid.refs@) by {
            assert(items.unref().to_set() == invalid.refs@);
            assert(items.map_values(|p: &u64| *p) =~= items.unref());
        }
        assert(ops_view(*self).local =~= invalidate_ops(ops_view(*old(self)), inv).local);
        assert(ops_view(*self).nonlocal =~= invalidate_ops(ops_view(*old(self)), inv).nonlocal);
        assert(ops_view(*self).inv.refs =~= invalidate_ops(ops_view(*old(self)), inv).inv.refs);
        assert(self.invalid_in_parent.all_local == (old(self).invalid_in_parent.all_local || inv.all_local));
        assert(self.invalid_in_parent.all_nonlocal == (old(self).invalid_in_parent.all_nonlocal || inv.all_nonlocal));
        assert(ops_view(*self).inv == invalidate_ops(ops_view(*old(self)), inv).inv);
        assert(inv == inv_view(invalid));
    }

    fn across_fn(&mut self)
        ensures
            ops_view(*final(self)) == across_fn(ops_view(*old(self))),
    {
        self.nonlocal_last_op.clear();
        self.invalid_in_parent.all_nonlocal = true;
    }

    fn set_op(&mut self, local: bool, target: u64, op: (u64, LastOp))
        ensures
            ops_view(*final(self)) == set_op(ops_view(*old(self)), local, target, op),
    {
        broadcast use vstd::std_specs::hash::group_hash_axioms;
        if local {
            self.local_last_op.insert(target, op);
        } else {
            self.nonlocal_last_op.insert(target, op);
        }
        self.invalid_in_parent.refs.insert(target);
    }

    /// Records an operation that invalidates nothing in the parent.
    fn record(&mut self, local: bool, target: u64, op: (u64, LastOp))
        ensures
            ops_view(*final(self)) == (if local {
                OpsV { local: ops_view(*old(self)).local.insert(target, op), ..ops_view(*old(self)) }
            } else {
                OpsV { nonlocal: ops_view(*old(self)).nonlocal.insert(target, op), ..ops_view(*old(self)) }
            }),
    {
        broadcast use vstd::std_specs::hash::group_hash_axioms;
        if local {
            self.local_last_op.insert(target, op);
        } else {
            self.nonlocal_last_op.insert(target, op);
        }
    }

    fn get_last_op(&self, r: u64) -> (o: Option<&(u64, LastOp)>)
        ensures
            match o {
                Some(x) => get_last_op(ops_view(*self), r) == Some(*x),
                None => get_last_op(ops_view(*self), r) is None,
            },
    {
        broadcast use vstd::std_specs::hash::group_hash_axioms;
        match self.local_last_op.get(&r) {
            Some(x) => Some(x),
            None => self.nonlocal_last_op.get(&r),
        }
    }
}

/// Finds, for each read of a mutable binding, the SSA value last written to it (if known),
/// and each write overwritten before it is read.
pub struct CollectLoadStoreInfo {
    pub refs_used_in_only_one_fn_scope: HashSet<u64>,
    pub mut_ops_to_replace: HashMap<u64, What>,
    pub cur_index: u64,
    pub for_reads: Ops,
    pub for_writes: Ops,
}

pub struct LSSaved {
    pub for_reads: Ops,
    pub for_writes: Ops,
}

impl CollectLoadStoreInfo {
    fn set_last_op(&mut self, target: u64, op: (u64, LastOp))
        ensures
            final(self).state() == set_last_op(old(self).state(), target, op),
    {
        broadcast use vstd::std_specs::hash::group_hash_axioms;
        let local = self.refs_used_in_only_one_fn_scope.contains(&target);
        let op2 = dup_op(&op);
        self.for_reads.set_op(local, target, op);
        self.for_writes.set_op(local, target, op2);
    }

    fn write_mut(&mut self, target: u64, val: &Ref<SSA>)
        ensures
            final(self).state() == write_mut(old(self).state(), target, *val),
    {
        broadcast use vstd::std_specs::hash::group_hash_axioms;
        let cur = self.cur_index;
        let last: Option<(u64, bool)> = match self.for_writes.get_last_op(target) {
            Some((i, LastOp::Declare(_))) => Some((*i, true)),
            Some((i, LastOp::Write(_))) => Some((*i, false)),
            _ => None,
        };
        match last {
            Some((di, true)) => {
                self.mut_ops_to_replace.insert(di, What::Remove);
                self.mut_ops_to_replace.insert(cur, What::BecomeDecl);
                self.set_last_op(target, (cur, LastOp::Declare(val.duplicate())));
            },
            Some((wi, false)) => {
                self.mut_ops_to_replace.insert(wi, What::Remove);
                self.set_last_op(target, (cur, LastOp::Write(val.duplicate())));
            },
            None => {
                self.set_last_op(target, (cur, LastOp::Write(val.duplicate())));
            },
        }
    }

    fn read_mut(&mut self, target: &Ref<SSA>, source: u64)
        ensures
            final(self).state() == read_mut(old(self).state(), *target, source),
    {
        broadcast use vstd::std_specs::hash::group_hash_axioms;
        let cur = self.cur_index;
        let v: Option<Ref<SSA>> = match self.for_reads.get_last_op(source) {
            Some((_, LastOp::Declare(v))) => Some(v.duplicate()),
            Some((_, LastOp::Write(v))) => Some(v.duplicate()),
            Some((_, LastOp::Read(v))) => Some(v.duplicate()),
            None => None,
        };
        match v {
            Some(v) => {
                self.mut_ops_to_replace.insert(cur, What::ReadSsa(v));
            },
            None => {
                let local = self.refs_used_in_only_one_fn_scope.contains(&source);
                self.for_reads.record(local, source, (cur, LastOp::Read(target.duplicate())));
            },
        }
    }
}

impl Visitor for CollectLoadStoreInfo {
    type St = LSState;

    type Saved = LSSaved;

    type Sv = LSSavedState;

    open spec fn state(&self) -> LSState {
        LSState {
            refs: self.refs_used_in_only_one_fn_scope@,
            ops: self.mut_ops_to_replace@,
            cur: self.cur_index,
            reads: ops_view(self.for_reads),
            writes: ops_view(self.for_writes),
        }
    }

    open spec fn saved_state(saved: &LSSaved) -> LSSavedState {
        LSSavedState { reads: ops_view(saved.for_reads), writes: ops_view(saved.for_writes) }
    }

    open spec fn spec_visit(st: LSState, s: Stmt) -> LSState {
        ls_visit(st, s)
    }

    open spec fn spec_visit_ref_use(st: LSState, id: u64) -> LSState {
        st
    }

    /// A function body is analysed on its own; reads may be forwarded into a normal scope
    /// (not writes, which might not run); nothing is forwarded into a nonlinear scope.
    open spec fn spec_enter(st: LSState, ty: ScopeTy, b: Block) -> (LSState, LSSavedState) {
        let saved = LSSavedState { reads: st.reads, writes: st.writes };
        match ty {
            ScopeTy::Normal | ScopeTy::Toplevel => (
                LSState {
                    reads: OpsV { local: st.reads.local, nonlocal: st.reads.nonlocal, inv: no_invalid() },
                    writes: empty_ops(),
                    ..st
                },
                saved,
            ),
            _ => (LSState { reads: empty_ops(), writes: empty_ops(), ..st }, saved),
        }
    }

    /// Leaving a scope other than a function, what it wrote is invalidated.
    open spec fn spec_exit(st: LSState, ty: ScopeTy, saved: LSSavedState) -> LSState {
        match ty {
            ScopeTy::Function => LSState { reads: saved.reads, writes: saved.writes, ..st },
            _ => LSState {
                reads: invalidate_ops(saved.reads, st.reads.inv),
                writes: invalidate_ops(saved.writes, st.writes.inv),
                ..st
            },
        }
    }

    fn visit(&mut self, s: &Stmt) {
        self.cur_index = self.cur_index.saturating_add(1);
        match s {
            Stmt::Expr { target, expr } => match expr {
                Expr::ReadMutable { source } => self.read_mut(target, source.id),
                Expr::Yield { .. } | Expr::Await { .. } | Expr::Call { .. } => {
                    self.for_reads.across_fn();
                    self.for_writes.across_fn();
                },
                _ => {},
            },
            Stmt::DeclareMutable { target, val } => {
                let cur = self.cur_index;
                self.set_last_op(target.id, (cur, LastOp::Declare(val.duplicate())));
            },
            Stmt::WriteMutable { target, val } => self.write_mut(target.id, val),
            Stmt::Return { .. } | Stmt::Throw { .. } | Stmt::Break { .. } | Stmt::Continue { .. } => {
                self.for_writes.local_last_op.clear();
                self.for_writes.nonlocal_last_op.clear();
                self.for_writes.invalid_in_parent.all_local = true;
                self.for_writes.invalid_in_parent.all_nonlocal = true;
            },
            Stmt::SwitchCase { .. } => {
                self.for_reads.local_last_op.clear();
                self.for_reads.nonlocal_last_op.clear();
                self.for_writes.local_last_op.clear();
                self.for_writes.nonlocal_last_op.clear();
            },
            _ => {},
        }
    }

    fn visit_ref_use(&mut self, id: u64) {
    }

    fn enter_scope(&mut self, ty: ScopeTy, b: &Block) -> (saved: LSSaved) {
        let mut reads = Ops::new();
        let mut writes = Ops::new();
        match ty {
            ScopeTy::Normal | ScopeTy::Toplevel => {
                reads.local_last_op = copy_ops_map(&self.for_reads.local_last_op);
                reads.nonlocal_last_op = copy_ops_map(&self.for_reads.nonlocal_last_op);
            },
            _ => {},
        }
        std::mem::swap(&mut reads, &mut self.for_reads);
        std::mem::swap(&mut writes, &mut self.for_writes);
        LSSaved { for_reads: reads, for_writes: writes }
    }

    fn exit_scope(&mut self, ty: ScopeTy, saved: LSSaved) {
        let LSSaved { for_reads, for_writes } = saved;
        let mut reads = for_reads;
        let mut writes = for_writes;
        std::mem::swap(&mut reads, &mut self.for_reads);
        std::mem::swap(&mut writes, &mut self.for_writes);
        match ty {
            ScopeTy::Function => {},
            _ => {
                self.for_reads.invalidate_from(reads.invalid_in_parent);
                self.for_writes.invalidate_from(writes.invalid_in_parent);
            },
        }
    }
}

// ---------------------------------------------------------------------------
// The rewrite.
// ---------------------------------------------------------------------------

/// State of the rewrite: the decisions not yet applied, and the index of the last statement.
pub struct LSFold {
    pub ops: Map<u64, What>,
    pub cur: u64,
}

/// The statement `s` is replaced by (before the blocks it holds are rewritten), if any.
pub open spec fn ls_out(s: Stmt, st: LSFold) -> Option<Stmt> {
    let c = sat_inc(st.cur);
    let d = if st.ops.contains_key(c) { Some(st.ops[c]) } else { None };
    match s {
        Stmt::Expr { target, expr: Expr::ReadMutable { .. } } => match d {
            Some(What::ReadSsa(r)) => Some(Stmt::Expr { target, expr: Expr::Read { source: r } }),
            _ => Some(s),
        },
        Stmt::DeclareMutable { .. } => match d {
            Some(What::Remove) => None,
            _ => Some(s),
        },
        Stmt::WriteMutable { target, val } => match d {
            Some(What::Remove) => None,
            Some(What::BecomeDecl) => Some(Stmt::DeclareMutable { target, val }),
            _ => Some(s),
        },
        _ => Some(s),
    }
}

pub open spec fn ls_fold_state(s: Stmt, st: LSFold) -> LSFold {
    let c = sat_inc(st.cur);
    match s {
        Stmt::Expr { expr: Expr::ReadMutable { .. }, .. } | Stmt::DeclareMutable { .. }
        | Stmt::WriteMutable { .. } => LSFold { ops: st.ops.remove(c), cur: c },
        _ => LSFold { cur: c, ..st },
    }
}

pub open spec fn ls_block_state(b: Block, st: LSFold) -> LSFold
    decreases b, 1nat,
{
    ls_seq_state(b.0@, st)
}

pub open spec fn ls_seq_state(ss: Seq<Stmt>, st: LSFold) -> LSFold
    decreases ss, 0nat,
{
    if ss.len() == 0 {
        st
    } else {
        ls_stmt_state(ss.last(), ls_seq_state(ss.drop_last(), st))
    }
}

pub open spec fn ls_stmt_state(s: Stmt, st: LSFold) -> LSFold
    decreases s, 4nat,
{
    let st1 = ls_fold_state(s, st);
    if ls_out(s, st) is Some {
        ls_nested_state(s, stmt_blocks(s).len(), st1)
    } else {
        st1
    }
}

pub open spec fn ls_nested_state(s: Stmt, k: nat, st: LSFold) -> LSFold
    decreases s, k,
{
    if k == 0 || k > stmt_blocks(s).len() {
        st
    } else {
        ls_block_state(stmt_blocks(s)[k - 1].1, ls_nested_state(s, (k - 1) as nat, st))
    }
}

/// `b` is `a` rewritten from the state `st`.
pub open spec fn ls_block_rel(a: Block, b: Block, st: LSFold) -> bool
    decreases a, 1nat,
{
    ls_seq_rel(a.0@, b.0@, st)
}

pub open spec fn ls_seq_rel(ins: Seq<Stmt>, outs: Seq<Stmt>, st: LSFold) -> bool
    decreases ins, 0nat,
{
    if ins.len() == 0 {
        outs.len() == 0
    } else {
        let sl = ls_seq_state(ins.drop_last(), st);
        if ls_out(ins.last(), sl) is Some {
            &&& outs.len() > 0
            &&& ls_seq_rel(ins.drop_last(), outs.drop_last(), st)
            &&& ls_stmt_rel(ins.last(), outs.last(), sl)
        } else {
            ls_seq_rel(ins.drop_last(), outs, st)
        }
    }
}

pub open spec fn ls_stmt_rel(s: Stmt, t: Stmt, st: LSFold) -> bool
    decreases s, 4nat,
{
    &&& same_frame(ls_out(s, st)->0, t)
    &&& ls_nested_rel(s, t, stmt_blocks(s).len(), ls_fold_state(s, st))
}

pub open spec fn ls_nested_rel(s: Stmt, t: Stmt, k: nat, st: LSFold) -> bool
    decreases s, k,
{
    if k == 0 || k > stmt_blocks(s).len() {
        stmt_blocks(t).len() == stmt_blocks(s).len()
    } else {
        &&& ls_nested_rel(s, t, (k - 1) as nat, st)
        &&& ls_block_rel(stmt_blocks(s)[k - 1].1, stmt_blocks(t)[k - 1].1, ls_nested_state(s, (k - 1) as nat, st))
    }
}

pub proof fn lemma_ls_nested_rel_from_blocks(s: Stmt, t: Stmt, k: nat, st: LSFold)
    requires
        k <= stmt_blocks(s).len(),
        stmt_blocks(t).len() == stmt_blocks(s).len(),
        forall|j: int|
            0 <= j < k ==> ls_block_rel(#[trigger] stmt_blocks(s)[j].1, stmt_blocks(t)[j].1, ls_nested_state(s, j as nat, st)),
    ensures
        ls_nested_rel(s, t, k, st),
    decreases k,
{
    if k > 0 {
        lemma_ls_nested_rel_from_blocks(s, t, (k - 1) as nat, st);
        assert(ls_block_rel(stmt_blocks(s)[k - 1].1, stmt_blocks(t)[k - 1].1, ls_nested_state(s, (k - 1) as nat, st)));
    }
}

/// Remove or forward redundant loads and stores of mutable vars.
///
/// Does not profit from DCE running first; may create opportunities for DCE.
/// May create opportunities for mut-to-ssa downleveling.
/// May create opportunities for read forwarding.
///
/// Read-to-read forwarding: `x = *v; y = *v` becomes `x = *v; y = x`.
/// Write-to-read forwarding: `v <- x; y = *v` becomes `v <- x; y = x`.
/// Dead write elimination: `v <- x; v <- y` becomes `v <- y`.
pub struct LoadStore {
    pub mut_ops_to_replace: HashMap<u64, What>,
    pub cur_index: u64,
}

impl LoadStore {
    pub open spec fn state(&self) -> LSFold {
        LSFold { ops: self.mut_ops_to_replace@, cur: self.cur_index }
    }

    /// Rewrites one statement by the decision taken for its index.
    pub fn fold(&mut self, stmt: Stmt) -> (r: Option<Stmt>)
        ensures
            r == ls_out(stmt, old(self).state()),
            final(self).state() == ls_fold_state(stmt, old(self).state()),
    {
        broadcast use vstd::std_specs::hash::group_hash_axioms;
        self.cur_index = self.cur_index.saturating_add(1);
        let c = self.cur_index;
        match stmt {
            Stmt::Expr { target, expr: Expr::ReadMutable { source } } => match self.mut_ops_to_replace.remove(&c) {
                Some(What::ReadSsa(r)) => Some(Stmt::Expr { target, expr: Expr::Read { source: r } }),
                _ => Some(Stmt::Expr { target, expr: Expr::ReadMutable { source } }),
            },
            Stmt::DeclareMutable { target, val } => match self.mut_ops_to_replace.remove(&c) {
                Some(What::Remove) => None,
                _ => Some(Stmt::DeclareMutable { target, val }),
            },
            Stmt::WriteMutable { target, val } => match self.mut_ops_to_replace.remove(&c) {
                Some(What::Remove) => None,
                Some(What::BecomeDecl) => Some(Stmt::DeclareMutable { target, val }),
                _ => Some(Stmt::WriteMutable { target, val }),
            },
            other => Some(other),
        }
    }

    fn fold_nested(&mut self, t0: Stmt, Ghost(s0): Ghost<Stmt>, Ghost(orig): Ghost<Block>) -> (t: Stmt)
        requires
            stmt_blocks(t0) == stmt_blocks(s0),
            forall|j: int| 0 <= j < stmt_blocks(s0).len() ==> decreases_to!(orig => #[trigger] stmt_blocks(s0)[j].1),
        ensures
            same_frame(t0, t),
            ls_nested_rel(s0, t, stmt_blocks(s0).len(), old(self).state()),
            final(self).state() == ls_nested_state(s0, stmt_blocks(s0).len(), old(self).state()),
        decreases orig, 0nat,
    {
        let ghost st_in = self.state();
        let ghost bs0 = stmt_blocks(s0);
        let (frame, bs) = take_blocks(t0);
        let mut done: Vec<Block> = Vec::new();
        for pair in jt: bs.into_iter()
            invariant
                jt.seq() == bs0,
                bs0 == stmt_blocks(s0),
                forall|j: int| 0 <= j < bs0.len() ==> decreases_to!(orig => #[trigger] bs0[j].1),
                done@.len() == jt.index(),
                self.state() == ls_nested_state(s0, jt.index() as nat, st_in),
                forall|j: int|
                    0 <= j < jt.index() ==> ls_block_rel(#[trigger] bs0[j].1, done@[j], ls_nested_state(s0, j as nat, st_in)),
        {
            let ghost j = jt.index() as int;
            assert(pair == bs0[j]);
            let (_, b) = pair;
            assert(decreases_to!(orig => b));
            let nb = self.fold_block(b);
            done.push(nb);
        }
        let t = put_blocks(frame, done);
        proof {
            crate::traverse::lemma_same_frame_trans(t0, frame, t);
            lemma_ls_nested_rel_from_blocks(s0, t, stmt_blocks(s0).len(), st_in);
        }
        t
    }

    /// Rewrites a block and, recursively, the blocks it holds.
    #[verifier::loop_isolation(false)]
    fn fold_block(&mut self, block: Block) -> (r: Block)
        ensures
            ls_block_rel(block, r, old(self).state()),
            final(self).state() == ls_block_state(block, old(self).state()),
        decreases block, 1nat,
    {
        let ghost orig = block;
        let ghost st_start = self.state();
        let Block(children) = block;
        let ghost items = children@;
        let mut out: Vec<Stmt> = Vec::new();
        for stmt in it: children.into_iter()
            invariant
                it.seq() == items,
                items == orig.0@,
                self.state() == ls_seq_state(items.take(it.index() as int), st_start),
                ls_seq_rel(items.take(it.index() as int), out@, st_start),
        {
            let ghost i = it.index() as int;
            let ghost st0 = self.state();
            assert(items.take(i + 1).drop_last() =~= items.take(i));
            assert(stmt == items[i]);
            let ghost s0 = stmt;
            match self.fold(stmt) {
                Some(t0) => {
                    proof {
                        assert forall|j: int| 0 <= j < stmt_blocks(s0).len() implies decreases_to!(
                            orig => #[trigger] stmt_blocks(s0)[j].1) by {
                            lemma_nested_block_decreases(orig, i, j);
                        }
                    }
                    let t = self.fold_nested(t0, Ghost(s0), Ghost(orig));
                    let ghost out0 = out@;
                    out.push(t);
                    assert(out@.drop_last() =~= out0);
                    assert(ls_stmt_rel(s0, t, st0));
                },
                None => {},
            }
            assert(ls_seq_state(items.take(i + 1), st_start) == ls_stmt_state(s0, st0));
        }
        assert(items.take(items.len() as int) =~= items);
        Block(out)
    }
}

/// The state the analysis starts from, with the mutables used in only one function scope.
pub open spec fn ls_initial(refs: Set<u64>) -> LSState {
    LSState { refs, ops: Map::empty(), cur: 0, reads: empty_ops(), writes: empty_ops() }
}

/// The decisions the analysis takes for a whole program.
pub open spec fn ls_decisions(prog: Block) -> Map<u64, What> {
    run_block::<CollectLoadStoreInfo>(
        ls_initial(crate::anal::refs::valid_ids(
            run_block::<crate::anal::refs::UsedInOnlyOneFnScope<Mutable>>((Map::empty(), 0), ScopeTy::Toplevel, prog).0,
        )),
        ScopeTy::Toplevel,
        prog,
    ).ops
}

impl LoadStore {
    /// Runs the pass over a whole program: statements are numbered in traversal order, each
    /// read, declaration and write is rewritten by the decision taken for its number.
    pub fn run(block: Block) -> (r: Block)
        ensures
            ls_block_rel(block, r, LSFold { ops: ls_decisions(block), cur: 0 }),
    {
        let refs = crate::anal::refs::mutables_used_in_only_one_fn_scope(&block);
        let mut collector = CollectLoadStoreInfo {
            refs_used_in_only_one_fn_scope: refs,
            mut_ops_to_replace: HashMap::new(),
            cur_index: 0,
            for_reads: Ops::new(),
            for_writes: Ops::new(),
        };
        assert(collector.state().ops =~= Map::<u64, What>::empty());
        run_visitor(&mut collector, &block);
        let mut folder = LoadStore { mut_ops_to_replace: collector.mut_ops_to_replace, cur_index: 0 };
        folder.fold_block(block)
    }
}


/// A call (or `yield`, `await`) may run code that reads or writes any binding used across
/// function scopes: afterwards nothing is known of such bindings, and nothing is decided.
pub proof fn law_ls_call_forgets_nonlocal(st: LSState, target: Ref<SSA>, expr: Expr)
    requires
        expr is Call || expr is Yield || expr is Await,
    ensures
        ls_visit(st, (Stmt::Expr { target, expr })).reads.nonlocal == Map::<u64, (u64, LastOp)>::empty(),
        ls_visit(st, (Stmt::Expr { target, expr })).writes.nonlocal == Map::<u64, (u64, LastOp)>::empty(),
        ls_visit(st, (Stmt::Expr { target, expr })).reads.local == st.reads.local,
        ls_visit(st, (Stmt::Expr { target, expr })).writes.local == st.writes.local,
        ls_visit(st, (Stmt::Expr { target, expr })).ops == st.ops,
{
}

/// So a write of such a binding after a call removes no earlier declaration or write: the
/// call may have read it.
pub proof fn law_ls_write_after_call_removes_nothing(
    st: LSState,
    target: Ref<SSA>,
    expr: Expr,
    written: Ref<Mutable>,
    val: Ref<SSA>,
)
    requires
        expr is Call || expr is Yield || expr is Await,
        !st.writes.local.contains_key(written.id),
    ensures
        ls_visit(ls_visit(st, (Stmt::Expr { target, expr })), (Stmt::WriteMutable { target: written, val })).ops
            == st.ops,
{
    let s1 = ls_visit(st, (Stmt::Expr { target, expr }));
    assert(get_last_op(s1.writes, written.id) is None);
}

} // verus!
