//! Removal of arrays and objects that are only ever written to.

use vstd::prelude::*;

use std::collections::{HashMap, HashSet};

use vstd::std_specs::hash::spec_hash_map_iter;
use vstd::std_specs::iter::IteratorSpec;

use crate::ir::{block_size, lemma_nested_block_decreases, nested_blocks, nested_size, seq_size, stmt_blocks, Block, Expr, ScopeTy, Stmt};
use crate::traverse::{put_blocks, same_frame, take_blocks};
use crate::visit::{run_block, run_visitor, Visitor};

verus! {

/// Remove arrays and objects which are only written to.
///
/// `run` also removes what becomes write-only once others are removed (a literal stored only
/// into a removed one).
/// May profit from DCE running first; may create opportunities for DCE.
pub struct Objects {
    pub objects_to_remove: HashSet<u64>,
}

#[derive(PartialEq, Eq, Structural, Clone, Copy)]
pub enum ObjState {
    WriteOnly,
    Invalid,
}

/// Collects, for each array or object literal, whether it is used other than as the target of
/// member writes.
pub struct CollectObjWriteInfo {
    pub obj_ops: HashMap<u64, ObjState>,
    pub last_use_was_safe: bool,
}

pub open spec fn mark_invalid(m: Map<u64, ObjState>, id: u64) -> Map<u64, ObjState> {
    m.insert(id, ObjState::Invalid)
}

impl Visitor for CollectObjWriteInfo {
    type St = (Map<u64, ObjState>, bool);

    type Saved = ();

    type Sv = ();

    open spec fn state(&self) -> (Map<u64, ObjState>, bool) {
        (self.obj_ops@, self.last_use_was_safe)
    }

    open spec fn saved_state(saved: &()) -> () {
        ()
    }

    open spec fn spec_visit(st: (Map<u64, ObjState>, bool), s: Stmt) -> (Map<u64, ObjState>, bool) {
        match s {
            Stmt::Expr { target, expr: Expr::Object { .. } } | Stmt::Expr { target, expr: Expr::Array { .. } } => (
                if st.0.contains_key(target.id) {
                    st.0
                } else {
                    st.0.insert(target.id, ObjState::WriteOnly)
                },
                false,
            ),
            Stmt::WriteMember { prop, val, .. } => (
                mark_invalid(mark_invalid(st.0, prop.id), val.id),
                true,
            ),
            _ => (st.0, false),
        }
    }

    open spec fn spec_visit_ref_use(st: (Map<u64, ObjState>, bool), id: u64) -> (
        Map<u64, ObjState>,
        bool,
    ) {
        if st.1 {
            st
        } else {
            (mark_invalid(st.0, id), st.1)
        }
    }

    open spec fn spec_enter(st: (Map<u64, ObjState>, bool), ty: ScopeTy, b: Block) -> (
        (Map<u64, ObjState>, bool),
        (),
    ) {
        (st, ())
    }

    open spec fn spec_exit(st: (Map<u64, ObjState>, bool), ty: ScopeTy, saved: ()) -> (
        Map<u64, ObjState>,
        bool,
    ) {
        st
    }

    fn visit(&mut self, s: &Stmt) {
        broadcast use vstd::std_specs::hash::group_hash_axioms;
        self.last_use_was_safe = false;
        match s {
            Stmt::Expr { target, expr: Expr::Object { .. } } | Stmt::Expr { target, expr: Expr::Array { .. } } => {
                if !self.obj_ops.contains_key(&target.id) {
                    self.obj_ops.insert(target.id, ObjState::WriteOnly);
                }
            },
            Stmt::WriteMember { prop, val, .. } => {
                self.last_use_was_safe = true;
                self.obj_ops.insert(prop.id, ObjState::Invalid);
                self.obj_ops.insert(val.id, ObjState::Invalid);
            },
            _ => {},
        }
    }

    fn visit_ref_use(&mut self, id: u64) {
        broadcast use vstd::std_specs::hash::group_hash_axioms;
        if !self.last_use_was_safe {
            self.obj_ops.insert(id, ObjState::Invalid);
        }
    }

    fn enter_scope(&mut self, ty: ScopeTy, b: &Block) -> (saved: ()) {
    }

    fn exit_scope(&mut self, ty: ScopeTy, saved: ()) {
    }
}

/// The objects (by id) found to be only written to.
pub open spec fn write_only(m: Map<u64, ObjState>) -> Set<u64> {
    Set::new(|id: u64| m.contains_key(id) && m[id] == ObjState::WriteOnly)
}

/// The arrays and objects of a program that are only written to.
pub open spec fn objects_to_remove_of(b: Block) -> Set<u64> {
    write_only(run_block::<CollectObjWriteInfo>((Map::empty(), false), ScopeTy::Toplevel, b).0)
}

/// Whether the pass drops a statement: it creates, or writes a member of, a removed array or
/// object.
pub open spec fn wo_drops(s: Stmt, remove: Set<u64>) -> bool {
    match s {
        Stmt::Expr { target, expr: Expr::Object { .. } } | Stmt::Expr { target, expr: Expr::Array { .. } } => remove.contains(target.id),
        Stmt::WriteMember { obj, .. } => remove.contains(obj.id),
        _ => false,
    }
}

/// `b` is `a` with the statements dropped that `wo_drops` selects, at every depth.
pub open spec fn wo_block_rel(a: Block, b: Block, remove: Set<u64>) -> bool
    decreases a,
{
    wo_seq_rel(a.0@, b.0@, remove)
}

pub open spec fn wo_seq_rel(ins: Seq<Stmt>, outs: Seq<Stmt>, remove: Set<u64>) -> bool
    decreases ins,
{
    if ins.len() == 0 {
        outs.len() == 0
    } else if wo_drops(ins.last(), remove) {
        wo_seq_rel(ins.drop_last(), outs, remove)
    } else {
        &&& outs.len() > 0
        &&& wo_seq_rel(ins.drop_last(), outs.drop_last(), remove)
        &&& wo_stmt_rel(ins.last(), outs.last(), remove)
    }
}

pub open spec fn wo_stmt_rel(s: Stmt, t: Stmt, remove: Set<u64>) -> bool
    decreases s,
{
    &&& same_frame(s, t)
    &&& stmt_blocks(t).len() == stmt_blocks(s).len()
    &&& forall|j: int|
        0 <= j < stmt_blocks(s).len() ==> wo_block_rel(
            #[trigger] stmt_blocks(s)[j].1,
            stmt_blocks(t)[j].1,
            remove,
        )
}

fn write_only_keys(m: &HashMap<u64, ObjState>) -> (r: HashSet<u64>)
    ensures
        r@ == write_only(m@),
{
    broadcast use vstd::std_specs::hash::group_hash_axioms;
    let mut r: HashSet<u64> = HashSet::new();
    let ghost all = spec_hash_map_iter(m).remaining();
    for pair in it: m.iter()
        invariant
            it.seq() == all,
            all == spec_hash_map_iter(m).remaining(),
            forall|id: u64| #[trigger] r@.contains(id) <==> exists|i: int| 0 <= i < it.index() && *it.seq()[i].0 == id && *it.seq()[i].1 == ObjState::WriteOnly,
    {
        let (k, v) = pair;
        if *v == ObjState::WriteOnly {
            r.insert(*k);
        }
    }
    assert forall|id: u64| #[trigger] r@.contains(id) <==> write_only(m@).contains(id) by {
        if m@.contains_key(id) && m@[id] == ObjState::WriteOnly {
            assert(all.contains((&id, &m@[id])));
        }
    }
    assert(r@ =~= write_only(m@));
    r
}

impl Objects {
    pub fn fold(&self, stmt: Stmt) -> (r: Option<Stmt>)
        ensures
            if wo_drops(stmt, self.objects_to_remove@) { r is None } else { r == Some(stmt) },
    {
        if drops_stmt(&stmt, &self.objects_to_remove) {
            None
        } else {
            Some(stmt)
        }
    }

    #[verifier::loop_isolation(false)]
    pub fn fold_block(&self, block: Block) -> (r: Block)
        ensures
            wo_block_rel(block, r, self.objects_to_remove@),
        decreases block,
    {
        let ghost orig = block;
        let Block(children) = block;
        let ghost items = children@;
        let mut out: Vec<Stmt> = Vec::new();
        for stmt in it: children.into_iter()
            invariant
                it.seq() == items,
                wo_seq_rel(items.take(it.index() as int), out@, self.objects_to_remove@),
        {
            let ghost i = it.index() as int;
            let ghost s0 = stmt;
            assert(items.take(i + 1).drop_last() == items.take(i));
            assert(s0 == items[i]);
            match self.fold(stmt) {
                Some(s) => {
                    let (frame, bs) = take_blocks(s);
                    let mut done: Vec<Block> = Vec::new();
                    for pair in jt: bs.into_iter()
                        invariant
                            jt.seq() == stmt_blocks(s0),
                            done@.len() == jt.index(),
                            forall|j: int|
                                0 <= j < jt.index() ==> wo_block_rel(
                                    #[trigger] stmt_blocks(s0)[j].1,
                                    done@[j],
                                    self.objects_to_remove@,
                                ),
                    {
                        let ghost j = jt.index() as int;
                        proof {
                            crate::ir::lemma_nested_block_decreases(orig, i, j);
                        }
                        assert(pair == stmt_blocks(s0)[j]);
                        let (_, b) = pair;
                        let nb = self.fold_block(b);
                        done.push(nb);
                    }
                    let t = put_blocks(frame, done);
                    proof {
                        crate::traverse::lemma_same_frame_trans(s0, frame, t);
                    }
                    assert(wo_stmt_rel(s0, t, self.objects_to_remove@));
                    let ghost out0 = out@;
                    out.push(t);
                    assert(out@.drop_last() =~= out0);
                },
                None => {
                    assert(wo_seq_rel(items.take(i + 1), out@, self.objects_to_remove@));
                },
            }
        }
        assert(items.take(items.len() as int) == items);
        Block(out)
    }

    /// One pass over a whole program: removes the arrays and objects that are only written to.
    pub fn run_once(block: Block) -> (r: Block)
        ensures
            wo_block_rel(block, r, objects_to_remove_of(block)),
    {
        let pass = Objects { objects_to_remove: removal_set(&block) };
        pass.fold_block(block)
    }

    /// Removes arrays and objects that are only written to, including those that become so
    /// once others are removed: passes run until one would remove nothing.
    #[verifier::loop_isolation(false)]
    pub fn run(block: Block) -> (r: Block)
        ensures
            wo_reaches(block, r),
            !wo_drops_block(r, objects_to_remove_of(r)),
    {
        let ghost orig = block;
        let mut b = block;
        loop
            invariant
                forall|x: Block| wo_reaches(b, x) ==> wo_reaches(orig, x),
            decreases block_size(b),
        {
            let remove = removal_set(&b);
            if !drops_in(&b, &remove) {
                assert(wo_reaches(b, b));
                assert(wo_reaches(orig, b));
                return b;
            }
            let ghost prev = b;
            let pass = Objects { objects_to_remove: remove };
            b = pass.fold_block(b);
            proof {
                law_wo_never_grows(prev, b, objects_to_remove_of(prev));
                assert forall|x: Block| wo_reaches(b, x) implies wo_reaches(orig, x) by {
                    assert(wo_reaches(prev, x));
                }
            }
        }
    }
}

/// The arrays and objects of a program that are only written to.
fn removal_set(b: &Block) -> (r: HashSet<u64>)
    ensures
        r@ == objects_to_remove_of(*b),
{
    let mut collector = CollectObjWriteInfo { obj_ops: HashMap::new(), last_use_was_safe: false };
    run_visitor(&mut collector, b);
    write_only_keys(&collector.obj_ops)
}

fn drops_stmt(stmt: &Stmt, remove: &HashSet<u64>) -> (r: bool)
    ensures
        r == wo_drops(*stmt, remove@),
{
    broadcast use vstd::std_specs::hash::group_hash_axioms;
    match stmt {
        Stmt::Expr { target, expr: Expr::Object { .. } } | Stmt::Expr { target, expr: Expr::Array { .. } } => remove.contains(&target.id),
        Stmt::WriteMember { obj, .. } => remove.contains(&obj.id),
        _ => false,
    }
}

/// Whether one pass with the removal set `remove` would drop anything in `block`.
fn drops_in(block: &Block, remove: &HashSet<u64>) -> (r: bool)
    ensures
        r == wo_drops_block(*block, remove@),
    decreases *block,
{
    let ghost items = block.0@;
    let mut i: usize = 0;
    let mut found = false;
    while i < block.0.len()
        invariant
            items == block.0@,
            i <= items.len(),
            found == wo_drops_seq(items.take(i as int), remove@),
        decreases items.len() - i,
    {
        let s = &block.0[i];
        assert(items.take(i + 1).drop_last() =~= items.take(i as int));
        if drops_stmt(s, remove) {
            found = true;
        } else {
            let nested = nested_blocks(s);
            let mut j: usize = 0;
            let mut inner = false;
            while j < nested.len()
                invariant
                    i < items.len(),
                    *s == items[i as int],
                    items == block.0@,
                    j <= nested@.len(),
                    nested@.len() == stmt_blocks(*s).len(),
                    forall|k: int| 0 <= k < nested@.len() ==> *nested@[k] == #[trigger] stmt_blocks(*s)[k].1,
                    inner == wo_drops_nested(*s, j as nat, remove@),
                decreases nested@.len() - j,
            {
                proof {
                    lemma_nested_block_decreases(*block, i as int, j as int);
                }
                if drops_in(nested[j], remove) {
                    inner = true;
                }
                j += 1;
            }
            if inner {
                found = true;
            }
        }
        i += 1;
    }
    assert(items.take(items.len() as int) =~= items);
    found
}

/// Whether a pass with the removal set `remove` drops anything in the statements `ins`, at
/// any depth.
pub open spec fn wo_drops_seq(ins: Seq<Stmt>, remove: Set<u64>) -> bool
    decreases ins, 0nat,
{
    if ins.len() == 0 {
        false
    } else {
        wo_drops_seq(ins.drop_last(), remove) || wo_drops(ins.last(), remove) || wo_drops_nested(
            ins.last(),
            stmt_blocks(ins.last()).len(),
            remove,
        )
    }
}

pub open spec fn wo_drops_nested(s: Stmt, k: nat, remove: Set<u64>) -> bool
    decreases s, k,
{
    if k == 0 || k > stmt_blocks(s).len() {
        false
    } else {
        wo_drops_nested(s, (k - 1) as nat, remove) || wo_drops_block(stmt_blocks(s)[k - 1].1, remove)
    }
}

pub open spec fn wo_drops_block(b: Block, remove: Set<u64>) -> bool
    decreases b, 1nat,
{
    wo_drops_seq(b.0@, remove)
}

/// `r` is reached from `a` by passes that each remove something.
pub open spec fn wo_reaches(a: Block, r: Block) -> bool
    decreases block_size(a),
{
    a == r || exists|c: Block|
        #![trigger wo_block_rel(a, c, objects_to_remove_of(a))]
        wo_block_rel(a, c, objects_to_remove_of(a)) && block_size(c) < block_size(a) && wo_reaches(c, r)
}

/// Removal never adds statements: it shrinks a block exactly when it drops something, at any
/// depth, and otherwise leaves its size alone.
pub proof fn law_wo_never_grows(a: Block, b: Block, remove: Set<u64>)
    requires
        wo_block_rel(a, b, remove),
    ensures
        block_size(b) <= block_size(a),
        wo_drops_block(a, remove) ==> block_size(b) < block_size(a),
        !wo_drops_block(a, remove) ==> block_size(b) == block_size(a),
    decreases a, 1nat,
{
    lemma_wo_size_seq(a.0@, b.0@, remove);
}

pub proof fn lemma_wo_size_seq(ins: Seq<Stmt>, outs: Seq<Stmt>, remove: Set<u64>)
    requires
        wo_seq_rel(ins, outs, remove),
    ensures
        seq_size(outs) <= seq_size(ins),
        wo_drops_seq(ins, remove) ==> seq_size(outs) < seq_size(ins),
        !wo_drops_seq(ins, remove) ==> seq_size(outs) == seq_size(ins),
    decreases ins, 0nat,
{
    if ins.len() > 0 {
        assert(seq_size(ins) == seq_size(ins.drop_last()) + crate::ir::stmt_size(ins.last()));
        if wo_drops(ins.last(), remove) {
            lemma_wo_size_seq(ins.drop_last(), outs, remove);
            assert(crate::ir::stmt_size(ins.last()) >= 1);
        } else {
            assert(wo_stmt_rel(ins.last(), outs.last(), remove));
            lemma_wo_size_seq(ins.drop_last(), outs.drop_last(), remove);
            lemma_wo_size_stmt(ins.last(), outs.last(), remove, stmt_blocks(ins.last()).len());
            assert(stmt_blocks(outs.last()).len() == stmt_blocks(ins.last()).len());
            assert(crate::ir::stmt_size(outs.last()) == 1 + nested_size(outs.last(), stmt_blocks(ins.last()).len()));
            assert(seq_size(outs) == seq_size(outs.drop_last()) + crate::ir::stmt_size(outs.last()));
        }
    }
}

pub proof fn lemma_wo_size_stmt(s: Stmt, t: Stmt, remove: Set<u64>, k: nat)
    requires
        wo_stmt_rel(s, t, remove),
        k <= stmt_blocks(s).len(),
    ensures
        nested_size(t, k) <= nested_size(s, k),
        wo_drops_nested(s, k, remove) ==> nested_size(t, k) < nested_size(s, k),
        !wo_drops_nested(s, k, remove) ==> nested_size(t, k) == nested_size(s, k),
    decreases s, k,
{
    if k > 0 {
        lemma_wo_size_stmt(s, t, remove, (k - 1) as nat);
        assert(wo_block_rel(stmt_blocks(s)[k - 1].1, stmt_blocks(t)[k - 1].1, remove));
        law_wo_never_grows(stmt_blocks(s)[k - 1].1, stmt_blocks(t)[k - 1].1, remove);
    }
}

} // verus!
