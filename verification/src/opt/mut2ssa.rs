//! Conversion of read-only mutable bindings to SSA values, and removal of write-only ones.

use vstd::prelude::*;

use std::collections::{HashMap, HashSet};

use vstd::std_specs::hash::{spec_hash_keys_iter, spec_hash_map_iter};
use vstd::std_specs::iter::IteratorSpec;

use crate::ir::{stmt_blocks, Block, Expr, Mutable, Ref, ScopeTy, Stmt, SSA};
use crate::traverse::{put_blocks, same_frame, take_blocks};
use crate::visit::{run_block, run_nested, run_stmt, run_stmts, run_uses, run_visitor, Visitor};

verus! {

/// Converts read-only mutable vars to SSA, and removes write-only mutable vars.
///
/// May profit from DCE running first; may create opportunities for DCE.
/// May create opportunities for read forwarding.
pub struct Mut2Ssa {
    pub mut_vars_to_replace: HashMap<u64, What>,
}

/// What becomes of a mutable binding.
#[derive(PartialEq, Eq, Structural, Clone, Copy)]
pub enum What {
    /// Becomes an SSA value (with the same id).
    Convert,
    Remove,
}

/// What has been seen done to a mutable binding.
#[derive(PartialEq, Eq, Structural, Clone, Copy)]
pub enum MutState {
    ReadOnly { frozen: bool },
    WriteOnly,
    Invalid,
}

/// Collects, for each mutable binding, whether it is only read (after its declaration),
/// only written, or neither.
pub struct CollectMutOpInfo {
    pub mut_ops: HashMap<u64, MutState>,
    pub reads_in_scope: HashSet<u64>,
    pub declared_at_toplevel_of_switch: HashSet<u64>,
    pub at_toplevel_of_switch: bool,
    pub about_to_enter_switch: bool,
}

/// What a scope entry saves: the enclosing scope's own fields.
pub struct MutOpSaved {
    pub reads_in_scope: HashSet<u64>,
    pub declared_at_toplevel_of_switch: HashSet<u64>,
    pub at_toplevel_of_switch: bool,
    pub about_to_enter_switch: bool,
}

/// Abstract state: (ops, reads in scope, declared at toplevel of switch,
/// at toplevel of switch, about to enter switch).
pub type MutOpState = (Map<u64, MutState>, Set<u64>, Set<u64>, bool, bool);

pub type MutOpSavedState = (Set<u64>, Set<u64>, bool, bool);

/// Records an operation: a first operation sets the state, a different one invalidates it.
pub open spec fn record_op(m: Map<u64, MutState>, id: u64, op: MutState) -> Map<u64, MutState> {
    if !m.contains_key(id) {
        m.insert(id, op)
    } else if m[id] != op {
        m.insert(id, MutState::Invalid)
    } else {
        m
    }
}

/// Marks the given bindings as frozen: read-only ones can no longer be read, and ones not
/// seen yet count as write-only.
pub open spec fn freeze(m: Map<u64, MutState>, d: Set<u64>) -> Map<u64, MutState> {
    Map::new(
        |k: u64| m.contains_key(k) || d.contains(k),
        |k: u64|
            if d.contains(k) {
                if !m.contains_key(k) {
                    MutState::WriteOnly
                } else if m[k] is ReadOnly {
                    MutState::ReadOnly { frozen: true }
                } else {
                    m[k]
                }
            } else {
                m[k]
            },
    )
}

impl Visitor for CollectMutOpInfo {
    type St = MutOpState;

    type Saved = MutOpSaved;

    type Sv = MutOpSavedState;

    open spec fn state(&self) -> MutOpState {
        (
            self.mut_ops@,
            self.reads_in_scope@,
            self.declared_at_toplevel_of_switch@,
            self.at_toplevel_of_switch,
            self.about_to_enter_switch,
        )
    }

    open spec fn saved_state(saved: &MutOpSaved) -> MutOpSavedState {
        (
            saved.reads_in_scope@,
            saved.declared_at_toplevel_of_switch@,
            saved.at_toplevel_of_switch,
            saved.about_to_enter_switch,
        )
    }

    open spec fn spec_visit(st: MutOpState, s: Stmt) -> MutOpState {
        match s {
            Stmt::Expr { expr: Expr::ReadMutable { source }, .. } => (
                record_op(st.0, source.id, MutState::ReadOnly { frozen: false }),
                st.1.insert(source.id),
                st.2,
                st.3,
                st.4,
            ),
            Stmt::WriteMutable { target, .. } => (
                record_op(st.0, target.id, MutState::WriteOnly),
                st.1,
                st.2,
                st.3,
                st.4,
            ),
            Stmt::DeclareMutable { target, .. } => (
                if st.1.contains(target.id) {
                    st.0.insert(target.id, MutState::Invalid)
                } else {
                    st.0
                },
                st.1,
                if st.3 {
                    st.2.insert(target.id)
                } else {
                    st.2
                },
                st.3,
                st.4,
            ),
            Stmt::Switch { .. } => (st.0, st.1, st.2, st.3, true),
            Stmt::SwitchCase { .. } => (freeze(st.0, st.2), st.1, Set::empty(), st.3, st.4),
            _ => st,
        }
    }

    open spec fn spec_visit_ref_use(st: MutOpState, id: u64) -> MutOpState {
        st
    }

    open spec fn spec_enter(st: MutOpState, ty: ScopeTy, b: Block) -> (MutOpState, MutOpSavedState) {
        if ty is Function {
            ((st.0, Set::empty(), Set::empty(), false, false), (st.1, st.2, st.3, st.4))
        } else {
            ((st.0, st.1, Set::empty(), st.4, false), (Set::empty(), st.2, st.3, false))
        }
    }

    open spec fn spec_exit(st: MutOpState, ty: ScopeTy, saved: MutOpSavedState) -> MutOpState {
        if ty is Function {
            (st.0, saved.0, saved.1, saved.2, saved.3)
        } else {
            (st.0, st.1, saved.1, saved.2, false)
        }
    }

    fn visit(&mut self, s: &Stmt) {
        broadcast use vstd::std_specs::hash::group_hash_axioms;
        match s {
            Stmt::Expr { expr: Expr::ReadMutable { source }, .. } => {
                record_op_exec(&mut self.mut_ops, source.id, MutState::ReadOnly { frozen: false });
                self.reads_in_scope.insert(source.id);
            },
            Stmt::WriteMutable { target, .. } => {
                record_op_exec(&mut self.mut_ops, target.id, MutState::WriteOnly);
            },
            Stmt::DeclareMutable { target, .. } => {
                if self.reads_in_scope.contains(&target.id) {
                    self.mut_ops.insert(target.id, MutState::Invalid);
                }
                if self.at_toplevel_of_switch {
                    self.declared_at_toplevel_of_switch.insert(target.id);
                }
            },
            Stmt::Switch { .. } => {
                self.about_to_enter_switch = true;
            },
            Stmt::SwitchCase { .. } => {
                freeze_exec(&mut self.mut_ops, &self.declared_at_toplevel_of_switch);
                self.declared_at_toplevel_of_switch.clear();
            },
            _ => {},
        }
    }

    fn visit_ref_use(&mut self, id: u64) {
    }

    fn enter_scope(&mut self, ty: ScopeTy, b: &Block) -> (saved: MutOpSaved) {
        match ty {
            ScopeTy::Function => {
                let mut reads = HashSet::new();
                core::mem::swap(&mut reads, &mut self.reads_in_scope);
                let mut declared = HashSet::new();
                core::mem::swap(&mut declared, &mut self.declared_at_toplevel_of_switch);
                let saved = MutOpSaved {
                    reads_in_scope: reads,
                    declared_at_toplevel_of_switch: declared,
                    at_toplevel_of_switch: self.at_toplevel_of_switch,
                    about_to_enter_switch: self.about_to_enter_switch,
                };
                self.at_toplevel_of_switch = false;
                self.about_to_enter_switch = false;
                saved
            },
            _ => {
                let mut declared = HashSet::new();
                core::mem::swap(&mut declared, &mut self.declared_at_toplevel_of_switch);
                let saved = MutOpSaved {
                    reads_in_scope: HashSet::new(),
                    declared_at_toplevel_of_switch: declared,
                    at_toplevel_of_switch: self.at_toplevel_of_switch,
                    about_to_enter_switch: false,
                };
                self.at_toplevel_of_switch = self.about_to_enter_switch;
                self.about_to_enter_switch = false;
                saved
            },
        }
    }

    fn exit_scope(&mut self, ty: ScopeTy, saved: MutOpSaved) {
        match ty {
            ScopeTy::Function => {
                self.reads_in_scope = saved.reads_in_scope;
                self.declared_at_toplevel_of_switch = saved.declared_at_toplevel_of_switch;
                self.at_toplevel_of_switch = saved.at_toplevel_of_switch;
                self.about_to_enter_switch = saved.about_to_enter_switch;
            },
            _ => {
                self.declared_at_toplevel_of_switch = saved.declared_at_toplevel_of_switch;
                self.at_toplevel_of_switch = saved.at_toplevel_of_switch;
                self.about_to_enter_switch = false;
            },
        }
    }
}

fn record_op_exec(m: &mut HashMap<u64, MutState>, id: u64, op: MutState)
    ensures
        final(m)@ == record_op(old(m)@, id, op),
{
    broadcast use vstd::std_specs::hash::group_hash_axioms;
    let cur = match m.get(&id) {
        None => None,
        Some(st) => Some(*st),
    };
    match cur {
        None => {
            m.insert(id, op);
        },
        Some(st) => {
            if st != op {
                m.insert(id, MutState::Invalid);
            }
        },
    }
}

fn freeze_exec(m: &mut HashMap<u64, MutState>, d: &HashSet<u64>)
    ensures
        final(m)@ == freeze(old(m)@, d@),
{
    broadcast use vstd::std_specs::hash::group_hash_axioms;
    let ghost m0 = m@;
    let ghost items = spec_hash_keys_iter(d).remaining();
    for k in it: d.iter()
        invariant
            it.seq() == items,
            items == spec_hash_keys_iter(d).remaining(),
            items.no_duplicates(),
            m@ == freeze(m0, items.take(it.index() as int).map_values(|p: &u64| *p).to_set()),
    {
        let ghost i = it.index() as int;
        let ghost before = m@;
        let cur = match m.get(k) {
            None => None,
            Some(st) => Some(*st),
        };
        match cur {
            None => {
                m.insert(*k, MutState::WriteOnly);
            },
            Some(MutState::ReadOnly { .. }) => {
                m.insert(*k, MutState::ReadOnly { frozen: true });
            },
            Some(_) => {},
        }
        let ghost s0 = items.take(i).map_values(|p: &u64| *p);
        assert(items.take(i + 1).map_values(|p: &u64| *p) =~= s0.push(*k));
        proof {
            s0.lemma_push_to_set_commute(*k);
            assert(!s0.to_set().contains(*k)) by {
                if s0.to_set().contains(*k) {
                    let j = choose|j: int| 0 <= j < s0.len() && s0[j] == *k;
                    assert(items[j] == items[i]);
                }
            }
        }
        assert(m@ =~= freeze(m0, items.take(i + 1).map_values(|p: &u64| *p).to_set()));
    }
    assert(items.take(items.len() as int) == items);
    assert(items.map_values(|p: &u64| *p) =~= items.unref());
    assert(m@ =~= freeze(m0, d@));
}

// ---------------------------------------------------------------------------
// The rewrite.
// ---------------------------------------------------------------------------

/// The bindings to convert or remove, from the final analysis state.
pub open spec fn replacements(m: Map<u64, MutState>) -> Map<u64, What> {
    Map::new(
        |k: u64| m.contains_key(k) && !(m[k] is Invalid),
        |k: u64| if m[k] is ReadOnly { What::Convert } else { What::Remove },
    )
}

/// The bindings of a program to convert or remove.
pub open spec fn replacements_of(b: Block) -> Map<u64, What> {
    replacements(
        run_block::<CollectMutOpInfo>(
            (Map::empty(), Set::empty(), Set::empty(), false, false),
            ScopeTy::Toplevel,
            b,
        ).0,
    )
}

/// The SSA ref standing for a converted mutable binding: same id and name hint.
pub open spec fn as_ssa(r: Ref<Mutable>) -> Ref<SSA> {
    Ref { id: r.id, name_hint: r.name_hint, marker: core::marker::PhantomData }
}

/// The statement that replaces `s` (none if it goes away). Reads of converted bindings become
/// reads of their SSA value; declarations of converted bindings become SSA definitions;
/// declarations and writes of removed bindings go away. (The analysis never asks to convert
/// a binding that is written, nor to remove one that is read; such statements are kept.)
pub open spec fn m2s_step(s: Stmt, what: Map<u64, What>) -> Option<Stmt> {
    match s {
        Stmt::Expr { target, expr: Expr::ReadMutable { source } } => if what.contains_key(source.id)
            && what[source.id] == What::Convert {
            Some(Stmt::Expr { target, expr: Expr::Read { source: as_ssa(source) } })
        } else {
            Some(s)
        },
        Stmt::DeclareMutable { target, val } => if what.contains_key(target.id) {
            if what[target.id] == What::Convert {
                Some(Stmt::Expr { target: as_ssa(target), expr: Expr::Read { source: val } })
            } else {
                None
            }
        } else {
            Some(s)
        },
        Stmt::WriteMutable { target, .. } => if what.contains_key(target.id) && what[target.id]
            == What::Remove {
            None
        } else {
            Some(s)
        },
        _ => Some(s),
    }
}

pub open spec fn m2s_block_rel(a: Block, b: Block, what: Map<u64, What>) -> bool
    decreases a,
{
    m2s_seq_rel(a.0@, b.0@, what)
}

pub open spec fn m2s_seq_rel(ins: Seq<Stmt>, outs: Seq<Stmt>, what: Map<u64, What>) -> bool
    decreases ins,
{
    if ins.len() == 0 {
        outs.len() == 0
    } else {
        match m2s_step(ins.last(), what) {
            None => m2s_seq_rel(ins.drop_last(), outs, what),
            Some(t) => {
                &&& outs.len() > 0
                &&& m2s_seq_rel(ins.drop_last(), outs.drop_last(), what)
                &&& m2s_stmt_rel(ins.last(), outs.last(), what)
            },
        }
    }
}

/// `t` is the replacement of `s` (which is kept), with its nested blocks rewritten in turn.
pub open spec fn m2s_stmt_rel(s: Stmt, t: Stmt, what: Map<u64, What>) -> bool
    decreases s,
{
    &&& m2s_step(s, what) is Some
    &&& same_frame(m2s_step(s, what).unwrap(), t)
    &&& stmt_blocks(t).len() == stmt_blocks(s).len()
    &&& forall|j: int|
        0 <= j < stmt_blocks(s).len() ==> m2s_block_rel(
            #[trigger] stmt_blocks(s)[j].1,
            stmt_blocks(t)[j].1,
            what,
        )
}

fn replacement_map(m: &HashMap<u64, MutState>) -> (r: HashMap<u64, What>)
    ensures
        r@ == replacements(m@),
{
    broadcast use vstd::std_specs::hash::group_hash_axioms;
    let mut r: HashMap<u64, What> = HashMap::new();
    let ghost all = spec_hash_map_iter(m).remaining();
    for pair in it: m.iter()
        invariant
            it.seq() == all,
            all == spec_hash_map_iter(m).remaining(),
            forall|k: u64| #[trigger] r@.contains_key(k) ==> replacements(m@).contains_key(k) && r@[k] == replacements(m@)[k],
            forall|i: int| 0 <= i < it.index() && replacements(m@).contains_key(*#[trigger] it.seq()[i].0) ==> r@.contains_key(*it.seq()[i].0),
    {
        let (k, v) = pair;
        match v {
            MutState::ReadOnly { .. } => {
                r.insert(*k, What::Convert);
            },
            MutState::WriteOnly => {
                r.insert(*k, What::Remove);
            },
            MutState::Invalid => {},
        }
    }
    assert forall|k: u64| #[trigger] replacements(m@).contains_key(k) implies r@.contains_key(k) by {
        assert(all.contains((&k, &m@[k])));
        let i = choose|i: int| 0 <= i < all.len() && all[i] == (&k, &m@[k]);
        assert(*all[i].0 == k);
    }
    assert(r@ =~= replacements(m@));
    r
}

impl Mut2Ssa {
    pub fn fold(&self, stmt: Stmt) -> (r: Option<Stmt>)
        ensures
            r == m2s_step(stmt, self.mut_vars_to_replace@),
    {
        broadcast use vstd::std_specs::hash::group_hash_axioms;
        match stmt {
            Stmt::Expr { target, expr: Expr::ReadMutable { source } } => {
                match self.mut_vars_to_replace.get(&source.id) {
                    Some(What::Convert) => Some(
                        Stmt::Expr {
                            target,
                            expr: Expr::Read {
                                source: Ref {
                                    id: source.id,
                                    name_hint: source.name_hint,
                                    marker: core::marker::PhantomData,
                                },
                            },
                        },
                    ),
                    _ => Some(Stmt::Expr { target, expr: Expr::ReadMutable { source } }),
                }
            },
            Stmt::DeclareMutable { target, val } => {
                match self.mut_vars_to_replace.get(&target.id) {
                    Some(What::Convert) => Some(
                        Stmt::Expr {
                            target: Ref {
                                id: target.id,
                                name_hint: target.name_hint,
                                marker: core::marker::PhantomData,
                            },
                            expr: Expr::Read { source: val },
                        },
                    ),
                    Some(What::Remove) => None,
                    None => Some(Stmt::DeclareMutable { target, val }),
                }
            },
            Stmt::WriteMutable { target, val } => {
                match self.mut_vars_to_replace.get(&target.id) {
                    Some(What::Remove) => None,
                    _ => Some(Stmt::WriteMutable { target, val }),
                }
            },
            other => Some(other),
        }
    }

    #[verifier::loop_isolation(false)]
    pub fn fold_block(&self, block: Block) -> (r: Block)
        ensures
            m2s_block_rel(block, r, self.mut_vars_to_replace@),
        decreases block,
    {
        let ghost orig = block;
        let Block(children) = block;
        let ghost items = children@;
        let mut out: Vec<Stmt> = Vec::new();
        for stmt in it: children.into_iter()
            invariant
                it.seq() == items,
                m2s_seq_rel(items.take(it.index() as int), out@, self.mut_vars_to_replace@),
        {
            let ghost i = it.index() as int;
            let ghost s0 = stmt;
            assert(items.take(i + 1).drop_last() == items.take(i));
            assert(s0 == items[i]);
            match self.fold(stmt) {
                Some(s) => {
                    let ghost s1 = s;
                    assert(stmt_blocks(s1) == stmt_blocks(s0));
                    let (frame, bs) = take_blocks(s);
                    let mut done: Vec<Block> = Vec::new();
                    for pair in jt: bs.into_iter()
                        invariant
                            jt.seq() == stmt_blocks(s1),
                            done@.len() == jt.index(),
                            forall|j: int|
                                0 <= j < jt.index() ==> m2s_block_rel(
                                    #[trigger] stmt_blocks(s1)[j].1,
                                    done@[j],
                                    self.mut_vars_to_replace@,
                                ),
                    {
                        let ghost j = jt.index() as int;
                        proof {
                            crate::ir::lemma_nested_block_decreases(orig, i, j);
                        }
                        assert(pair == stmt_blocks(s1)[j]);
                        let (_, b) = pair;
                        let nb = self.fold_block(b);
                        done.push(nb);
                    }
                    let t = put_blocks(frame, done);
                    proof {
                        crate::traverse::lemma_same_frame_trans(s1, frame, t);
                    }
                    assert(m2s_stmt_rel(s0, t, self.mut_vars_to_replace@));
                    let ghost out0 = out@;
                    out.push(t);
                    assert(out@.drop_last() =~= out0);
                },
                None => {
                    assert(m2s_seq_rel(items.take(i + 1), out@, self.mut_vars_to_replace@));
                },
            }
        }
        assert(items.take(items.len() as int) == items);
        Block(out)
    }

    /// Runs the pass over a whole program.
    pub fn run(block: Block) -> (r: Block)
        ensures
            m2s_block_rel(block, r, replacements_of(block)),
    {
        let mut collector = CollectMutOpInfo {
            mut_ops: HashMap::new(),
            reads_in_scope: HashSet::new(),
            declared_at_toplevel_of_switch: HashSet::new(),
            at_toplevel_of_switch: false,
            about_to_enter_switch: false,
        };
        run_visitor(&mut collector, &block);
        let pass = Mut2Ssa { mut_vars_to_replace: replacement_map(&collector.mut_ops) };
        pass.fold_block(block)
    }
}


/// A binding that is both read and written is invalid, whichever comes first.
pub proof fn law_m2s_read_and_write_invalidate(m: Map<u64, MutState>, id: u64, frozen: bool)
    ensures
        record_op(record_op(m, id, MutState::ReadOnly { frozen }), id, MutState::WriteOnly)[id] == MutState::Invalid,
        record_op(record_op(m, id, MutState::WriteOnly), id, MutState::ReadOnly { frozen })[id] == MutState::Invalid,
{
}

/// What the analysis has seen of a binding is never forgotten by a statement: an invalid
/// binding stays invalid, a read one stays read (or becomes invalid), a written one stays
/// written (or becomes invalid).
pub proof fn law_m2s_marks_persist(st: MutOpState, s: Stmt, id: u64)
    ensures
        st.0.contains_key(id) && st.0[id] is Invalid ==> CollectMutOpInfo::spec_visit(st, s).0.contains_key(id)
            && CollectMutOpInfo::spec_visit(st, s).0[id] is Invalid,
        st.0.contains_key(id) && (st.0[id] is ReadOnly || st.0[id] is Invalid) ==> CollectMutOpInfo::spec_visit(
            st,
            s,
        ).0.contains_key(id) && (CollectMutOpInfo::spec_visit(st, s).0[id] is ReadOnly
            || CollectMutOpInfo::spec_visit(st, s).0[id] is Invalid),
        st.0.contains_key(id) && (st.0[id] is WriteOnly || st.0[id] is Invalid) ==> CollectMutOpInfo::spec_visit(
            st,
            s,
        ).0.contains_key(id) && (CollectMutOpInfo::spec_visit(st, s).0[id] is WriteOnly
            || CollectMutOpInfo::spec_visit(st, s).0[id] is Invalid),
{
}

/// A write of a binding already read, or a read of one already written, makes it invalid,
/// so it is neither converted nor removed.
pub proof fn law_m2s_read_then_write_is_left_alone(st: MutOpState, s: Stmt, id: u64)
    requires
        st.0.contains_key(id),
        (st.0[id] is ReadOnly && (s matches Stmt::WriteMutable { target, .. } && target.id == id)) || (
        st.0[id] is WriteOnly && (s matches Stmt::Expr { expr: Expr::ReadMutable { source }, .. } && source.id
            == id)),
    ensures
        CollectMutOpInfo::spec_visit(st, s).0[id] is Invalid,
        !replacements(CollectMutOpInfo::spec_visit(st, s).0).contains_key(id),
{
}


/// `s` itself reads (`read`) or writes (`!read`) the mutable binding `id`.
pub open spec fn is_mut_op(s: Stmt, id: u64, read: bool) -> bool {
    if read {
        s matches Stmt::Expr { expr: Expr::ReadMutable { source }, .. } && source.id == id
    } else {
        s matches Stmt::WriteMutable { target, .. } && target.id == id
    }
}

/// A block reads (`read`) or writes (`!read`) the binding `id` somewhere, nested blocks
/// included.
pub open spec fn block_has_op(b: Block, id: u64, read: bool) -> bool
    decreases b, 0nat,
{
    stmts_have_op(b.0@, id, read)
}

pub open spec fn stmts_have_op(ss: Seq<Stmt>, id: u64, read: bool) -> bool
    decreases ss, 0nat,
{
    ss.len() > 0 && (stmts_have_op(ss.drop_last(), id, read) || stmt_has_op(ss.last(), id, read))
}

pub open spec fn stmt_has_op(s: Stmt, id: u64, read: bool) -> bool
    decreases s, stmt_blocks(s).len() + 1,
{
    is_mut_op(s, id, read) || nested_have_op(s, stmt_blocks(s).len(), id, read)
}

/// One of the first `k` blocks held by `s` has the operation.
pub open spec fn nested_have_op(s: Stmt, k: nat, id: u64, read: bool) -> bool
    decreases s, k,
{
    if k == 0 || k > stmt_blocks(s).len() {
        false
    } else {
        nested_have_op(s, (k - 1) as nat, id, read) || block_has_op(stmt_blocks(s)[k - 1].1, id, read)
    }
}

/// The analysis has seen the binding read (`read`) or written (`!read`), or found it invalid.
pub open spec fn op_mark(m: Map<u64, MutState>, id: u64, read: bool) -> bool {
    m.contains_key(id) && (m[id] is Invalid || (if read {
        m[id] is ReadOnly
    } else {
        m[id] is WriteOnly
    }))
}

proof fn lemma_mark_visit(st: MutOpState, s: Stmt, id: u64, read: bool)
    ensures
        op_mark(st.0, id, read) ==> op_mark(CollectMutOpInfo::spec_visit(st, s).0, id, read),
        is_mut_op(s, id, read) ==> op_mark(CollectMutOpInfo::spec_visit(st, s).0, id, read),
{
    law_m2s_marks_persist(st, s, id);
}

proof fn lemma_mark_uses(st: MutOpState, ids: Seq<u64>)
    ensures
        run_uses::<CollectMutOpInfo>(st, ids) == st,
    decreases ids.len(),
{
    if ids.len() > 0 {
        lemma_mark_uses(st, ids.drop_last());
    }
}

proof fn lemma_mark_block(st: MutOpState, ty: ScopeTy, b: Block, id: u64, read: bool)
    ensures
        op_mark(st.0, id, read) ==> op_mark(run_block::<CollectMutOpInfo>(st, ty, b).0, id, read),
        block_has_op(b, id, read) ==> op_mark(run_block::<CollectMutOpInfo>(st, ty, b).0, id, read),
    decreases b, 0nat,
{
    let (v1, saved) = CollectMutOpInfo::spec_enter(st, ty, b);
    lemma_mark_stmts(v1, b.0@, id, read);
}

proof fn lemma_mark_stmts(st: MutOpState, ss: Seq<Stmt>, id: u64, read: bool)
    ensures
        op_mark(st.0, id, read) ==> op_mark(run_stmts::<CollectMutOpInfo>(st, ss).0, id, read),
        stmts_have_op(ss, id, read) ==> op_mark(run_stmts::<CollectMutOpInfo>(st, ss).0, id, read),
    decreases ss, 0nat,
{
    if ss.len() > 0 {
        lemma_mark_stmts(st, ss.drop_last(), id, read);
        lemma_mark_stmt(run_stmts::<CollectMutOpInfo>(st, ss.drop_last()), ss.last(), id, read);
    }
}

proof fn lemma_mark_stmt(st: MutOpState, s: Stmt, id: u64, read: bool)
    ensures
        op_mark(st.0, id, read) ==> op_mark(run_stmt::<CollectMutOpInfo>(st, s).0, id, read),
        stmt_has_op(s, id, read) ==> op_mark(run_stmt::<CollectMutOpInfo>(st, s).0, id, read),
    decreases s, stmt_blocks(s).len() + 1,
{
    let v1 = CollectMutOpInfo::spec_visit(st, s);
    lemma_mark_visit(st, s, id, read);
    lemma_mark_uses(v1, crate::ir::stmt_uses(s));
    lemma_mark_nested(v1, s, stmt_blocks(s).len(), id, read);
}

proof fn lemma_mark_nested(st: MutOpState, s: Stmt, k: nat, id: u64, read: bool)
    ensures
        op_mark(st.0, id, read) ==> op_mark(run_nested::<CollectMutOpInfo>(st, s, k).0, id, read),
        nested_have_op(s, k, id, read) ==> op_mark(run_nested::<CollectMutOpInfo>(st, s, k).0, id, read),
    decreases s, k,
{
    if k == 0 || k > stmt_blocks(s).len() {
    } else {
        lemma_mark_nested(st, s, (k - 1) as nat, id, read);
        let prev = run_nested::<CollectMutOpInfo>(st, s, (k - 1) as nat);
        lemma_mark_block(prev, stmt_blocks(s)[k - 1].0, stmt_blocks(s)[k - 1].1, id, read);
    }
}

/// A binding that the program both reads and writes, anywhere, is neither converted to an
/// SSA value nor removed.
pub proof fn law_m2s_read_and_written_is_kept(b: Block, id: u64)
    requires
        block_has_op(b, id, true),
        block_has_op(b, id, false),
    ensures
        !replacements_of(b).contains_key(id),
{
    let st0: MutOpState = (Map::empty(), Set::empty(), Set::empty(), false, false);
    lemma_mark_block(st0, ScopeTy::Toplevel, b, id, true);
    lemma_mark_block(st0, ScopeTy::Toplevel, b, id, false);
}

} // verus!
