//! Removal and forwarding of redundant loads and stores of object properties.
//!
//! Read-to-read forwarding:
//!   something = { z: _1 }; x = something.z; y = something.z
//!   becomes something = { z: _1 }; x = something.z; y = x
//!
//! Write-to-read forwarding:
//!   something.z <- x; y = something.z
//!   becomes something.z <- x; y = x
//!
//! Dead write elimination:
//!   something.z <- x; something.z <- y
//!   becomes something.z <- y

use vstd::prelude::*;

use std::collections::{HashMap, HashSet};

use crate::ir::{lemma_nested_block_decreases, stmt_blocks, Block, Expr, PropKind, Ref, ScopeTy, Stmt, SSA};
use crate::opt::redundant::sat_inc;
use crate::traverse::{put_blocks, same_frame, take_blocks};
use crate::visit::{run_block, run_visitor, Visitor};

use vstd::std_specs::iter::IteratorSpec;

verus! {

/// The last operation on a property of an object.
pub enum ObjOp {
    /// The object literal gave the property this value.
    Declare(Ref<SSA>),
    /// The property was written this value.
    Write(Ref<SSA>),
    /// The property was read into this value.
    Read(Ref<SSA>),
}

/// What becomes of the statement with a given index.
pub enum ObjWhat {
    /// The property read becomes a read of this SSA value.
    ReadSsa(Ref<SSA>),
    /// The property write is overwritten before being read: it goes.
    Remove,
}

/// The properties (by name index) a scope invalidates in its parent.
pub enum InvalidV {
    All,
    Props(Set<u64>),
}

/// For each property (by the index of its name), for each object, the index of the
/// statement that last operated on it and the operation; and what is invalidated in the parent.
pub struct PropOpsV {
    pub last: Map<u64, Map<u64, (u64, ObjOp)>>,
    pub inv: InvalidV,
}

/// Abstract state of the analysis.
pub struct OLSState {
    /// The decisions so far, by statement index.
    pub ops: Map<u64, ObjWhat>,
    /// The index of the statement being visited.
    pub cur: u64,
    /// The property names met so far, each once, in order of first appearance.
    pub names: Seq<Seq<char>>,
    /// For each ref known to hold a string, the index of that string in `names`.
    pub strings: Map<u64, u64>,
    /// The last operations a read may be forwarded from.
    pub reads: PropOpsV,
    /// The last operations a write may make dead.
    pub writes: PropOpsV,
}

pub struct OLSSavedState {
    pub reads: PropOpsV,
    pub writes: PropOpsV,
}

/// The names with `v` added if new, and the index of `v` among them.
pub open spec fn intern(names: Seq<Seq<char>>, v: Seq<char>) -> (Seq<Seq<char>>, u64) {
    match names.index_of_first(v) {
        Some(i) => (names, i as u64),
        None => (names.push(v), names.len() as u64),
    }
}

pub open spec fn no_ops() -> PropOpsV {
    PropOpsV { last: Map::empty(), inv: InvalidV::Props(Set::empty()) }
}

pub open spec fn all_invalid() -> PropOpsV {
    PropOpsV { last: Map::empty(), inv: InvalidV::All }
}

pub open spec fn insert_prop(inv: InvalidV, p: u64) -> InvalidV {
    match inv {
        InvalidV::All => InvalidV::All,
        InvalidV::Props(s) => InvalidV::Props(s.insert(p)),
    }
}

/// What a nested scope's invalidations do to the enclosing one.
pub open spec fn invalidate_from(this: PropOpsV, child: InvalidV) -> PropOpsV {
    match child {
        InvalidV::All => all_invalid(),
        InvalidV::Props(ps) => PropOpsV {
            last: this.last.remove_keys(ps),
            inv: match this.inv {
                InvalidV::All => InvalidV::All,
                InvalidV::Props(s) => InvalidV::Props(s.union(ps)),
            },
        },
    }
}

/// A declaration or write makes `op` the only operation known on the property.
pub open spec fn set_last_write_op(st: OLSState, obj: u64, prop: u64, op: (u64, ObjOp)) -> OLSState {
    let one = Map::<u64, (u64, ObjOp)>::empty().insert(obj, op);
    OLSState {
        reads: PropOpsV { last: st.reads.last.insert(prop, one), inv: insert_prop(st.reads.inv, prop) },
        writes: PropOpsV { last: st.writes.last.insert(prop, one), inv: insert_prop(st.writes.inv, prop) },
        ..st
    }
}

/// A read is recorded for later reads, and no earlier write may be made dead past it.
pub open spec fn set_last_read_op(st: OLSState, obj: u64, prop: u64, op: (u64, ObjOp)) -> OLSState {
    let objs = if st.reads.last.contains_key(prop) {
        st.reads.last[prop]
    } else {
        Map::empty()
    };
    OLSState {
        reads: PropOpsV { last: st.reads.last.insert(prop, objs.insert(obj, op)), ..st.reads },
        writes: PropOpsV { last: st.writes.last.remove(prop), inv: insert_prop(st.writes.inv, prop) },
        ..st
    }
}

pub open spec fn last_op(o: PropOpsV, obj: u64, prop: u64) -> Option<(u64, ObjOp)> {
    if o.last.contains_key(prop) && o.last[prop].contains_key(obj) {
        Some(o.last[prop][obj])
    } else {
        None
    }
}

/// A write makes an earlier write to the same property dead (not a declaration).
pub open spec fn write_prop(st: OLSState, obj: u64, prop: u64, val: Ref<SSA>) -> OLSState {
    let st1 = match last_op(st.writes, obj, prop) {
        Some((wi, ObjOp::Write(_))) => OLSState { ops: st.ops.insert(wi, ObjWhat::Remove), ..st },
        _ => st,
    };
    set_last_write_op(st1, obj, prop, (st.cur, ObjOp::Write(val)))
}

/// A read is forwarded from the last known operation, if any; the forwarded read is then
/// not recorded itself.
pub open spec fn read_prop(st: OLSState, target: Ref<SSA>, obj: u64, prop: u64) -> OLSState {
    match last_op(st.reads, obj, prop) {
        Some((_, ObjOp::Declare(v))) => OLSState { ops: st.ops.insert(st.cur, ObjWhat::ReadSsa(v)), ..st },
        Some((_, ObjOp::Write(v))) => OLSState { ops: st.ops.insert(st.cur, ObjWhat::ReadSsa(v)), ..st },
        Some((_, ObjOp::Read(v))) => OLSState { ops: st.ops.insert(st.cur, ObjWhat::ReadSsa(v)), ..st },
        None => set_last_read_op(st, obj, prop, (st.cur, ObjOp::Read(target))),
    }
}

pub open spec fn invalidate_everything(st: OLSState) -> OLSState {
    OLSState { reads: all_invalid(), writes: all_invalid(), ..st }
}

/// The properties of an object literal, in order: each with a known name is declared; any
/// other (unknown name, getter or setter) invalidates everything.
pub open spec fn declare_props(st: OLSState, target: u64, props: Seq<(PropKind, Ref<SSA>, Ref<SSA>)>) -> OLSState
    decreases props.len(),
{
    if props.len() == 0 {
        st
    } else {
        let st1 = declare_props(st, target, props.drop_last());
        let p = props.last();
        if p.0 == PropKind::Simple && st1.strings.contains_key(p.1.id) {
            set_last_write_op(st1, target, st1.strings[p.1.id], (st1.cur, ObjOp::Declare(p.2)))
        } else {
            invalidate_everything(st1)
        }
    }
}

/// One step of the analysis: the statement gets the next index.
pub open spec fn olso_visit(st0: OLSState, s: Stmt) -> OLSState {
    let st = OLSState { cur: sat_inc(st0.cur), ..st0 };
    match s {
        Stmt::Expr { target, expr } => match expr {
            Expr::String { value } => {
                let (names, i) = intern(st.names, value@);
                OLSState { names, strings: st.strings.insert(target.id, i), ..st }
            },
            Expr::ReadMember { obj, prop } => if st.strings.contains_key(prop.id) {
                read_prop(st, target, obj.id, st.strings[prop.id])
            } else {
                OLSState { writes: all_invalid(), ..st }
            },
            Expr::Object { props } => declare_props(st, target.id, props@),
            Expr::Yield { .. } | Expr::Await { .. } | Expr::Call { .. } => invalidate_everything(st),
            _ => st,
        },
        Stmt::WriteMember { obj, prop, val } => if st.strings.contains_key(prop.id) {
            write_prop(st, obj.id, st.strings[prop.id], val)
        } else {
            invalidate_everything(st)
        },
        Stmt::Return { .. } | Stmt::Throw { .. } | Stmt::Break { .. } | Stmt::Continue { .. } => OLSState {
            writes: all_invalid(),
            ..st
        },
        Stmt::SwitchCase { .. } => OLSState {
            reads: PropOpsV { last: Map::empty(), ..st.reads },
            writes: PropOpsV { last: Map::empty(), ..st.writes },
            ..st
        },
        _ => st,
    }
}

// ---------------------------------------------------------------------------
// The analysis.
// ---------------------------------------------------------------------------

pub enum InvalidProps {
    All,
    Props(HashSet<u64>),
}

/// Last operations per property and object, and what is invalidated in the parent.
pub struct PropOps {
    pub last_op_for_prop: HashMap<u64, HashMap<u64, (u64, ObjOp)>>,
    pub invalid_in_parent: InvalidProps,
}

pub open spec fn invalid_view(i: InvalidProps) -> InvalidV {
    match i {
        InvalidProps::All => InvalidV::All,
        InvalidProps::Props(s) => InvalidV::Props(s@),
    }
}

pub open spec fn last_view(m: HashMap<u64, HashMap<u64, (u64, ObjOp)>>) -> Map<u64, Map<u64, (u64, ObjOp)>> {
    m@.map_values(|inner: HashMap<u64, (u64, ObjOp)>| inner@)
}

pub open spec fn prop_ops_view(o: PropOps) -> PropOpsV {
    PropOpsV { last: last_view(o.last_op_for_prop), inv: invalid_view(o.invalid_in_parent) }
}

fn dup_op(op: &(u64, ObjOp)) -> (r: (u64, ObjOp))
    ensures
        r == *op,
{
    match &op.1 {
        ObjOp::Declare(v) => (op.0, ObjOp::Declare(v.duplicate())),
        ObjOp::Write(v) => (op.0, ObjOp::Write(v.duplicate())),
        ObjOp::Read(v) => (op.0, ObjOp::Read(v.duplicate())),
    }
}

/// A copy of the last operations on one property.
fn copy_objs(m: &HashMap<u64, (u64, ObjOp)>) -> (r: HashMap<u64, (u64, ObjOp)>)
    ensures
        r@ == m@,
{
    broadcast use vstd::std_specs::hash::group_hash_axioms;
    let mut r: HashMap<u64, (u64, ObjOp)> = HashMap::new();
    let ghost items = vstd::std_specs::hash::spec_hash_map_iter(m).remaining();
    proof {
        vstd::std_specs::hash::axiom_spec_hash_map_iter(m);
    }
    for kv in it: m.iter()
        invariant
            it.seq() == items,
            items == vstd::std_specs::hash::spec_hash_map_iter(m).remaining(),
            items.no_duplicates(),
            forall|i: int| 0 <= i < items.len() ==> m@.contains_key(*items[i].0) && m@[*items[i].0] == *items[i].1,
            forall|k: u64| #[trigger] r@.contains_key(k) <==> exists|i: int| 0 <= i < it.index() && *items[i].0 == k,
            forall|k: u64| #[trigger] r@.contains_key(k) ==> r@[k] == m@[k],
    {
        let (k, v) = kv;
        let ghost i = it.index() as int;
        assert(items[i] == kv);
        r.insert(*k, dup_op(v));
        assert forall|x: u64| #[trigger] r@.contains_key(x) <==> exists|j: int| 0 <= j < i + 1 && *items[j].0 == x by {
            if x == *k {
                assert(*items[i].0 == x);
            }
        }
    }
    assert forall|k: u64| #[trigger] m@.contains_key(k) implies r@.contains_key(k) by {
        assert(items.contains((&k, &m@[k])));
        let j = choose|j: int| 0 <= j < items.len() && items[j] == (&k, &m@[k]);
        assert(*items[j].0 == k);
    }
    assert(r@ =~= m@);
    r
}

/// A copy of the last operations on all properties.
fn copy_last(m: &HashMap<u64, HashMap<u64, (u64, ObjOp)>>) -> (r: HashMap<u64, HashMap<u64, (u64, ObjOp)>>)
    ensures
        last_view(r) == last_view(*m),
{
    broadcast use vstd::std_specs::hash::group_hash_axioms;
    let mut r: HashMap<u64, HashMap<u64, (u64, ObjOp)>> = HashMap::new();
    let ghost items = vstd::std_specs::hash::spec_hash_map_iter(m).remaining();
    proof {
        vstd::std_specs::hash::axiom_spec_hash_map_iter(m);
    }
    for kv in it: m.iter()
        invariant
            it.seq() == items,
            items == vstd::std_specs::hash::spec_hash_map_iter(m).remaining(),
            items.no_duplicates(),
            forall|i: int| 0 <= i < items.len() ==> m@.contains_key(*items[i].0) && m@[*items[i].0] == *items[i].1,
            forall|k: u64| #[trigger] r@.contains_key(k) <==> exists|i: int| 0 <= i < it.index() && *items[i].0 == k,
            forall|k: u64| #[trigger] r@.contains_key(k) ==> r@[k]@ == m@[k]@,
    {
        let (k, v) = kv;
        let ghost i = it.index() as int;
        assert(items[i] == kv);
        r.insert(*k, copy_objs(v));
        assert forall|x: u64| #[trigger] r@.contains_key(x) <==> exists|j: int| 0 <= j < i + 1 && *items[j].0 == x by {
            if x == *k {
                assert(*items[i].0 == x);
            }
        }
    }
    assert forall|k: u64| #[trigger] m@.contains_key(k) implies r@.contains_key(k) by {
        assert(items.contains((&k, &m@[k])));
        let j = choose|j: int| 0 <= j < items.len() && items[j] == (&k, &m@[k]);
        assert(*items[j].0 == k);
    }
    assert(last_view(r) =~= last_view(*m));
    r
}

impl PropOps {
    fn new() -> (r: Self)
        ensures
            prop_ops_view(r) == no_ops(),
    {
        let r = PropOps { last_op_for_prop: HashMap::new(), invalid_in_parent: InvalidProps::Props(HashSet::new()) };
        assert(prop_ops_view(r).last =~= no_ops().last);
        assert(invalid_view(r.invalid_in_parent) == no_ops().inv);
        r
    }

    fn invalidate_all(&mut self)
        ensures
            prop_ops_view(*final(self)) == all_invalid(),
    {
        self.last_op_for_prop.clear();
        self.invalid_in_parent = InvalidProps::All;
        assert(prop_ops_view(*self).last =~= all_invalid().last);
    }

    fn clear_last(&mut self)
        ensures
            prop_ops_view(*final(self)) == (PropOpsV { last: Map::empty(), ..prop_ops_view(*old(self)) }),
    {
        self.last_op_for_prop.clear();
        assert(prop_ops_view(*self).last =~= Map::empty());
    }

    fn insert_prop(&mut self, p: u64)
        ensures
            final(self).last_op_for_prop == old(self).last_op_for_prop,
            invalid_view(final(self).invalid_in_parent) == insert_prop(invalid_view(old(self).invalid_in_parent), p),
    {
        broadcast use vstd::std_specs::hash::group_hash_axioms;
        match &mut self.invalid_in_parent {
            InvalidProps::All => {},
            InvalidProps::Props(ps) => {
                ps.insert(p);
            },
        }
    }

    /// Makes `op` on `obj` the only operation known on `prop`.
    fn set_only(&mut self, prop: u64, obj: u64, op: (u64, ObjOp))
        ensures
            prop_ops_view(*final(self)) == (PropOpsV {
                last: prop_ops_view(*old(self)).last.insert(prop, Map::empty().insert(obj, op)),
                inv: insert_prop(prop_ops_view(*old(self)).inv, prop),
            }),
    {
        broadcast use vstd::std_specs::hash::group_hash_axioms;
        let mut one: HashMap<u64, (u64, ObjOp)> = HashMap::new();
        one.insert(obj, op);
        let ghost one_v = one@;
        assert(one_v =~= Map::empty().insert(obj, op));
        self.last_op_for_prop.insert(prop, one);
        self.insert_prop(prop);
        assert(prop_ops_view(*self).last =~= prop_ops_view(*old(self)).last.insert(prop, Map::empty().insert(obj, op)));
    }

    /// Adds `op` on `obj` to the operations known on `prop`.
    fn add_op(&mut self, prop: u64, obj: u64, op: (u64, ObjOp))
        ensures
            prop_ops_view(*final(self)) == (PropOpsV {
                last: prop_ops_view(*old(self)).last.insert(
                    prop,
                    (if prop_ops_view(*old(self)).last.contains_key(prop) {
                        prop_ops_view(*old(self)).last[prop]
                    } else {
                        Map::empty()
                    }).insert(obj, op),
                ),
                ..prop_ops_view(*old(self))
            }),
    {
        broadcast use vstd::std_specs::hash::group_hash_axioms;
        let mut objs = match self.last_op_for_prop.remove(&prop) {
            Some(m) => m,
            None => {
                let m: HashMap<u64, (u64, ObjOp)> = HashMap::new();
                assert(m@ =~= Map::empty());
                m
            },
        };
        objs.insert(obj, op);
        self.last_op_for_prop.insert(prop, objs);
        assert(prop_ops_view(*self).last =~= prop_ops_view(*old(self)).last.insert(
            prop,
            (if prop_ops_view(*old(self)).last.contains_key(prop) {
                prop_ops_view(*old(self)).last[prop]
            } else {
                Map::empty()
            }).insert(obj, op),
        ));
    }

    /// Forgets the operations known on `prop`, which the parent then cannot rely on either.
    fn forget_prop(&mut self, prop: u64)
        ensures
            prop_ops_view(*final(self)) == (PropOpsV {
                last: prop_ops_view(*old(self)).last.remove(prop),
                inv: insert_prop(prop_ops_view(*old(self)).inv, prop),
            }),
    {
        broadcast use vstd::std_specs::hash::group_hash_axioms;
        self.last_op_for_prop.remove(&prop);
        self.insert_prop(prop);
        assert(prop_ops_view(*self).last =~= prop_ops_view(*old(self)).last.remove(prop));
    }

    fn get(&self, obj: u64, prop: u64) -> (r: Option<(u64, ObjOp)>)
        ensures
            r == last_op(prop_ops_view(*self), obj, prop),
    {
        broadcast use vstd::std_specs::hash::group_hash_axioms;
        match self.last_op_for_prop.get(&prop) {
            Some(objs) => match objs.get(&obj) {
                Some(op) => Some(dup_op(op)),
                None => None,
            },
            None => None,
        }
    }

    /// Applies the invalidations of a nested scope.
    fn invalidate_from(&mut self, child: InvalidProps)
        ensures
            prop_ops_view(*final(self)) == invalidate_from(prop_ops_view(*old(self)), invalid_view(child)),
    {
        broadcast use vstd::std_specs::hash::group_hash_axioms;
        match child {
            InvalidProps::All => self.invalidate_all(),
            InvalidProps::Props(ps) => {
                let ghost last0 = prop_ops_view(*self).last;
                let ghost inv0 = prop_ops_view(*self).inv;
                let ghost items = vstd::std_specs::hash::spec_hash_keys_iter(&ps).remaining();
                proof {
                    let none = items.take(0).map_values(|x: &u64| *x).to_set();
                    assert(none =~= Set::empty()) by {
                        assert(items.take(0).map_values(|x: &u64| *x) =~= Seq::empty());
                    }
                    assert(last0.remove_keys(none) =~= last0);
                    match inv0 {
                        InvalidV::All => {},
                        InvalidV::Props(s) => {
                            assert(s.union(none) =~= s);
                        },
                    }
                }
                for p in it: ps.iter()
                    invariant
                        it.seq() == items,
                        items == vstd::std_specs::hash::spec_hash_keys_iter(&ps).remaining(),
                        ({
                            let done = items.take(it.index() as int).map_values(|x: &u64| *x).to_set();
                            &&& prop_ops_view(*self).last == last0.remove_keys(done)
                            &&& prop_ops_view(*self).inv == match inv0 {
                                InvalidV::All => InvalidV::All,
                                InvalidV::Props(s) => InvalidV::Props(s.union(done)),
                            }
                        }),
                {
                    let ghost i = it.index() as int;
                    let ghost done = items.take(i).map_values(|x: &u64| *x).to_set();
                    assert(items.take(i + 1).map_values(|x: &u64| *x) =~= items.take(i).map_values(|x: &u64| *x).push(*p));
                    proof {
                        items.take(i).map_values(|x: &u64| *x).lemma_push_to_set_commute(*p);
                    }
                    self.forget_prop(*p);
                    assert(prop_ops_view(*self).last =~= last0.remove_keys(done.insert(*p)));
                    proof {
                        match inv0 {
                            InvalidV::All => {},
                            InvalidV::Props(s) => {
                                assert(s.union(done).insert(*p) =~= s.union(done.insert(*p)));
                            },
                        }
                    }
                }
                assert(items.take(items.len() as int) == items);
                assert(items.map_values(|x: &u64| *x).to_set() =~= ps@) by {
                    assert(items.unref().to_set() == ps@);
                    assert(items.map_values(|x: &u64| *x) =~= items.unref());
                }
            },
        }
    }
}

/// Finds, for each read of a property with a known name, the SSA value last written to or
/// read from it (if known), and each write overwritten before it is read.
pub struct CollectLoadStoreInfo {
    pub obj_ops_to_replace: HashMap<u64, ObjWhat>,
    pub cur_index: u64,
    pub names: Vec<String>,
    pub known_strings: HashMap<u64, u64>,
    pub for_reads: PropOps,
    pub for_writes: PropOps,
}

pub struct OLSSaved {
    pub for_reads: PropOps,
    pub for_writes: PropOps,
}

pub open spec fn names_view(names: Seq<String>) -> Seq<Seq<char>> {
    names.map_values(|n: String| n@)
}

/// The index of `v` among the names, added if new.
pub fn intern_name(names: &mut Vec<String>, v: &String) -> (i: u64)
    ensures
        (names_view(final(names)@), i) == intern(names_view(old(names)@), v@),
{
    let ghost nv = names_view(names@);
    let mut k: usize = 0;
    while k < names.len()
        invariant
            k <= names@.len(),
            nv == names_view(names@),
            *names == *old(names),
            forall|j: int| 0 <= j < k ==> nv[j] != v@,
        decreases names@.len() - k,
    {
        if names[k] == *v {
            proof {
                nv.index_of_first_ensures(v@);
                assert(nv[k as int] == v@);
                assert(nv.contains(v@));
            }
            return k as u64;
        }
        k += 1;
    }
    proof {
        nv.index_of_first_ensures(v@);
    }
    let i = names.len() as u64;
    names.push(v.clone());
    assert(names_view(names@) =~= nv.push(v@));
    i
}

impl CollectLoadStoreInfo {
    fn set_last_write_op(&mut self, obj: u64, prop: u64, op: (u64, ObjOp))
        ensures
            final(self).state() == set_last_write_op(old(self).state(), obj, prop, op),
    {
        let op2 = dup_op(&op);
        self.for_reads.set_only(prop, obj, op);
        self.for_writes.set_only(prop, obj, op2);
    }

    fn write_prop(&mut self, obj: u64, prop: u64, val: &Ref<SSA>)
        ensures
            final(self).state() == write_prop(old(self).state(), obj, prop, *val),
    {
        broadcast use vstd::std_specs::hash::group_hash_axioms;
        let cur = self.cur_index;
        match self.for_writes.get(obj, prop) {
            Some((wi, ObjOp::Write(_))) => {
                self.obj_ops_to_replace.insert(wi, ObjWhat::Remove);
            },
            _ => {},
        }
        self.set_last_write_op(obj, prop, (cur, ObjOp::Write(val.duplicate())));
    }

    fn read_prop(&mut self, target: &Ref<SSA>, obj: u64, prop: u64)
        ensures
            final(self).state() == read_prop(old(self).state(), *target, obj, prop),
    {
        broadcast use vstd::std_specs::hash::group_hash_axioms;
        let cur = self.cur_index;
        match self.for_reads.get(obj, prop) {
            Some((_, ObjOp::Declare(v))) => {
                self.obj_ops_to_replace.insert(cur, ObjWhat::ReadSsa(v));
            },
            Some((_, ObjOp::Write(v))) => {
                self.obj_ops_to_replace.insert(cur, ObjWhat::ReadSsa(v));
            },
            Some((_, ObjOp::Read(v))) => {
                self.obj_ops_to_replace.insert(cur, ObjWhat::ReadSsa(v));
            },
            None => {
                self.for_reads.add_op(prop, obj, (cur, ObjOp::Read(target.duplicate())));
                self.for_writes.forget_prop(prop);
            },
        }
    }

    fn invalidate_everything(&mut self)
        ensures
            final(self).state() == invalidate_everything(old(self).state()),
    {
        self.for_reads.invalidate_all();
        self.for_writes.invalidate_all();
    }

    fn declare_props(&mut self, target: u64, props: &Vec<(PropKind, Ref<SSA>, Ref<SSA>)>)
        ensures
            final(self).state() == declare_props(old(self).state(), target, props@),
    {
        broadcast use vstd::std_specs::hash::group_hash_axioms;
        let ghost st0 = self.state();
        let mut i: usize = 0;
        while i < props.len()
            invariant
                i <= props@.len(),
                self.state() == declare_props(st0, target, props@.take(i as int)),
            decreases props@.len() - i,
        {
            assert(props@.take(i + 1).drop_last() =~= props@.take(i as int));
            let cur = self.cur_index;
            match props[i].0 {
                PropKind::Simple => match self.known_strings.get(&props[i].1.id) {
                    Some(p) => {
                        let p = *p;
                        self.set_last_write_op(target, p, (cur, ObjOp::Declare(props[i].2.duplicate())));
                    },
                    None => self.invalidate_everything(),
                },
                _ => self.invalidate_everything(),
            }
            i += 1;
        }
        assert(props@.take(props@.len() as int) =~= props@);
    }
}

impl Visitor for CollectLoadStoreInfo {
    type St = OLSState;

    type Saved = OLSSaved;

    type Sv = OLSSavedState;

    open spec fn state(&self) -> OLSState {
        OLSState {
            ops: self.obj_ops_to_replace@,
            cur: self.cur_index,
            names: names_view(self.names@),
            strings: self.known_strings@,
            reads: prop_ops_view(self.for_reads),
            writes: prop_ops_view(self.for_writes),
        }
    }

    open spec fn saved_state(saved: &OLSSaved) -> OLSSavedState {
        OLSSavedState { reads: prop_ops_view(saved.for_reads), writes: prop_ops_view(saved.for_writes) }
    }

    open spec fn spec_visit(st: OLSState, s: Stmt) -> OLSState {
        olso_visit(st, s)
    }

    open spec fn spec_visit_ref_use(st: OLSState, id: u64) -> OLSState {
        st
    }

    /// A function body is analysed on its own; reads may be forwarded into a normal scope
    /// (not writes, which might not run); nothing is forwarded into a nonlinear scope.
    open spec fn spec_enter(st: OLSState, ty: ScopeTy, b: Block) -> (OLSState, OLSSavedState) {
        let saved = OLSSavedState { reads: st.reads, writes: st.writes };
        match ty {
            ScopeTy::Normal | ScopeTy::Toplevel => (
                OLSState {
                    reads: PropOpsV { last: st.reads.last, inv: InvalidV::Props(Set::empty()) },
                    writes: no_ops(),
                    ..st
                },
                saved,
            ),
            _ => (OLSState { reads: no_ops(), writes: no_ops(), ..st }, saved),
        }
    }

    /// Leaving a scope other than a function body, what it touched is invalidated.
    open spec fn spec_exit(st: OLSState, ty: ScopeTy, saved: OLSSavedState) -> OLSState {
        match ty {
            ScopeTy::Function => OLSState { reads: saved.reads, writes: saved.writes, ..st },
            _ => OLSState {
                reads: invalidate_from(saved.reads, st.reads.inv),
                writes: invalidate_from(saved.writes, st.writes.inv),
                ..st
            },
        }
    }

    fn visit(&mut self, s: &Stmt) {
        broadcast use vstd::std_specs::hash::group_hash_axioms;
        self.cur_index = self.cur_index.saturating_add(1);
        match s {
            Stmt::Expr { target, expr } => match expr {
                Expr::String { value } => {
                    let i = intern_name(&mut self.names, value);
                    self.known_strings.insert(target.id, i);
                },
                Expr::ReadMember { obj, prop } => match self.known_strings.get(&prop.id) {
                    Some(p) => {
                        let p = *p;
                        self.read_prop(target, obj.id, p);
                    },
                    None => self.for_writes.invalidate_all(),
                },
                Expr::Object { props } => self.declare_props(target.id, props),
                Expr::Yield { .. } | Expr::Await { .. } | Expr::Call { .. } => self.invalidate_everything(),
                _ => {},
            },
            Stmt::WriteMember { obj, prop, val } => match self.known_strings.get(&prop.id) {
                Some(p) => {
                    let p = *p;
                    self.write_prop(obj.id, p, val);
                },
                None => self.invalidate_everything(),
            },
            Stmt::Return { .. } | Stmt::Throw { .. } | Stmt::Break { .. } | Stmt::Continue { .. } => {
                self.for_writes.invalidate_all();
            },
            Stmt::SwitchCase { .. } => {
                self.for_reads.clear_last();
                self.for_writes.clear_last();
            },
            _ => {},
        }
    }

    fn visit_ref_use(&mut self, id: u64) {
    }

    fn enter_scope(&mut self, ty: ScopeTy, b: &Block) -> (saved: OLSSaved) {
        let mut reads = PropOps::new();
        let mut writes = PropOps::new();
        match ty {
            ScopeTy::Normal | ScopeTy::Toplevel => {
                reads.last_op_for_prop = copy_last(&self.for_reads.last_op_for_prop);
            },
            _ => {},
        }
        std::mem::swap(&mut reads, &mut self.for_reads);
        std::mem::swap(&mut writes, &mut self.for_writes);
        OLSSaved { for_reads: reads, for_writes: writes }
    }

    fn exit_scope(&mut self, ty: ScopeTy, saved: OLSSaved) {
        let OLSSaved { for_reads, for_writes } = saved;
        let mut reads = for_reads;
        let mut writes = for_writes;
        std::mem::swap(&mut reads, &mut self.for_reads);
        std::mem::swap(&mut writes, &mut self.for_writes);
        match ty {
            ScopeTy::Function => {},
            _ => {
                self.for_reads.invalidate_from(reads.invalid_in_parent);
                self.for_writes.invalidate_from(writes.invalid_in_parent);
            },
        }
    }
}

// ---------------------------------------------------------------------------
// The rewrite.
// ---------------------------------------------------------------------------

/// State of the rewrite: the decisions not yet applied, and the index of the last statement.
pub struct LSOFold {
    pub ops: Map<u64, ObjWhat>,
    pub cur: u64,
}

/// The statement `s` is replaced by (before the blocks it holds are rewritten), if any.
pub open spec fn lso_out(s: Stmt, st: LSOFold) -> Option<Stmt> {
    let c = sat_inc(st.cur);
    let d = if st.ops.contains_key(c) {
        Some(st.ops[c])
    } else {
        None
    };
    match s {
        Stmt::Expr { target, expr: Expr::ReadMember { .. } } => match d {
            Some(ObjWhat::ReadSsa(r)) => Some(Stmt::Expr { target, expr: Expr::Read { source: r } }),
            _ => Some(s),
        },
        Stmt::WriteMember { .. } => match d {
            Some(ObjWhat::Remove) => None,
            _ => Some(s),
        },
        _ => Some(s),
    }
}

pub open spec fn lso_fold_state(s: Stmt, st: LSOFold) -> LSOFold {
    let c = sat_inc(st.cur);
    match s {
        Stmt::Expr { expr: Expr::ReadMember { .. }, .. } | Stmt::WriteMember { .. } => LSOFold {
            ops: st.ops.remove(c),
            cur: c,
        },
        _ => LSOFold { cur: c, ..st },
    }
}

pub open spec fn lso_block_state(b: Block, st: LSOFold) -> LSOFold
    decreases b, 1nat,
{
    lso_seq_state(b.0@, st)
}

pub open spec fn lso_seq_state(ss: Seq<Stmt>, st: LSOFold) -> LSOFold
    decreases ss, 0nat,
{
    if ss.len() == 0 {
        st
    } else {
        lso_stmt_state(ss.last(), lso_seq_state(ss.drop_last(), st))
    }
}

pub open spec fn lso_stmt_state(s: Stmt, st: LSOFold) -> LSOFold
    decreases s, 4nat,
{
    let st1 = lso_fold_state(s, st);
    if lso_out(s, st) is Some {
        lso_nested_state(s, stmt_blocks(s).len(), st1)
    } else {
        st1
    }
}

pub open spec fn lso_nested_state(s: Stmt, k: nat, st: LSOFold) -> LSOFold
    decreases s, k,
{
    if k == 0 || k > stmt_blocks(s).len() {
        st
    } else {
        lso_block_state(stmt_blocks(s)[k - 1].1, lso_nested_state(s, (k - 1) as nat, st))
    }
}

/// `b` is `a` rewritten from the state `st`.
pub open spec fn lso_block_rel(a: Block, b: Block, st: LSOFold) -> bool
    decreases a, 1nat,
{
    lso_seq_rel(a.0@, b.0@, st)
}

pub open spec fn lso_seq_rel(ins: Seq<Stmt>, outs: Seq<Stmt>, st: LSOFold) -> bool
    decreases ins, 0nat,
{
    if ins.len() == 0 {
        outs.len() == 0
    } else {
        let sl = lso_seq_state(ins.drop_last(), st);
        if lso_out(ins.last(), sl) is Some {
            &&& outs.len() > 0
            &&& lso_seq_rel(ins.drop_last(), outs.drop_last(), st)
            &&& lso_stmt_rel(ins.last(), outs.last(), sl)
        } else {
            lso_seq_rel(ins.drop_last(), outs, st)
        }
    }
}

pub open spec fn lso_stmt_rel(s: Stmt, t: Stmt, st: LSOFold) -> bool
    decreases s, 4nat,
{
    &&& same_frame(lso_out(s, st)->0, t)
    &&& lso_nested_rel(s, t, stmt_blocks(s).len(), lso_fold_state(s, st))
}

pub open spec fn lso_nested_rel(s: Stmt, t: Stmt, k: nat, st: LSOFold) -> bool
    decreases s, k,
{
    if k == 0 || k > stmt_blocks(s).len() {
        stmt_blocks(t).len() == stmt_blocks(s).len()
    } else {
        &&& lso_nested_rel(s, t, (k - 1) as nat, st)
        &&& lso_block_rel(stmt_blocks(s)[k - 1].1, stmt_blocks(t)[k - 1].1, lso_nested_state(s, (k - 1) as nat, st))
    }
}

pub proof fn lemma_lso_nested_rel_from_blocks(s: Stmt, t: Stmt, k: nat, st: LSOFold)
    requires
        k <= stmt_blocks(s).len(),
        stmt_blocks(t).len() == stmt_blocks(s).len(),
        forall|j: int|
            0 <= j < k ==> lso_block_rel(#[trigger] stmt_blocks(s)[j].1, stmt_blocks(t)[j].1, lso_nested_state(s, j as nat, st)),
    ensures
        lso_nested_rel(s, t, k, st),
    decreases k,
{
    if k > 0 {
        lemma_lso_nested_rel_from_blocks(s, t, (k - 1) as nat, st);
        assert(lso_block_rel(stmt_blocks(s)[k - 1].1, stmt_blocks(t)[k - 1].1, lso_nested_state(s, (k - 1) as nat, st)));
    }
}

/// Remove or forward redundant loads and stores of object properties.
///
/// May profit from multiple passes.
/// Does not profit from DCE running first; may create opportunities for DCE.
/// May create opportunities for read forwarding.
pub struct LoadStore {
    pub obj_ops_to_replace: HashMap<u64, ObjWhat>,
    pub cur_index: u64,
}

impl LoadStore {
    pub open spec fn state(&self) -> LSOFold {
        LSOFold { ops: self.obj_ops_to_replace@, cur: self.cur_index }
    }

    /// Rewrites one statement by the decision taken for its index.
    pub fn fold(&mut self, stmt: Stmt) -> (r: Option<Stmt>)
        ensures
            r == lso_out(stmt, old(self).state()),
            final(self).state() == lso_fold_state(stmt, old(self).state()),
    {
        broadcast use vstd::std_specs::hash::group_hash_axioms;
        self.cur_index = self.cur_index.saturating_add(1);
        let c = self.cur_index;
        match stmt {
            Stmt::Expr { target, expr: Expr::ReadMember { obj, prop } } => match self.obj_ops_to_replace.remove(&c) {
                Some(ObjWhat::ReadSsa(r)) => Some(Stmt::Expr { target, expr: Expr::Read { source: r } }),
                _ => Some(Stmt::Expr { target, expr: Expr::ReadMember { obj, prop } }),
            },
            Stmt::WriteMember { obj, prop, val } => match self.obj_ops_to_replace.remove(&c) {
                Some(ObjWhat::Remove) => None,
                _ => Some(Stmt::WriteMember { obj, prop, val }),
            },
            other => Some(other),
        }
    }

    fn fold_nested(&mut self, t0: Stmt, Ghost(s0): Ghost<Stmt>, Ghost(orig): Ghost<Block>) -> (t: Stmt)
        requires
            stmt_blocks(t0) == stmt_blocks(s0),
            forall|j: int| 0 <= j < stmt_blocks(s0).len() ==> decreases_to!(orig => #[trigger] stmt_blocks(s0)[j].1),
        ensures
            same_frame(t0, t),
            lso_nested_rel(s0, t, stmt_blocks(s0).len(), old(self).state()),
            final(self).state() == lso_nested_state(s0, stmt_blocks(s0).len(), old(self).state()),
        decreases orig, 0nat,
    {
        let ghost st_in = self.state();
        let ghost bs0 = stmt_blocks(s0);
        let (frame, bs) = take_blocks(t0);
        let mut done: Vec<Block> = Vec::new();
        for pair in jt: bs.into_iter()
            invariant
                jt.seq() == bs0,
                bs0 == stmt_blocks(s0),
                forall|j: int| 0 <= j < bs0.len() ==> decreases_to!(orig => #[trigger] bs0[j].1),
                done@.len() == jt.index(),
                self.state() == lso_nested_state(s0, jt.index() as nat, st_in),
                forall|j: int|
                    0 <= j < jt.index() ==> lso_block_rel(#[trigger] bs0[j].1, done@[j], lso_nested_state(s0, j as nat, st_in)),
        {
            let ghost j = jt.index() as int;
            assert(pair == bs0[j]);
            let (_, b) = pair;
            assert(decreases_to!(orig => b));
            let nb = self.fold_block(b);
            done.push(nb);
        }
        let t = put_blocks(frame, done);
        proof {
            crate::traverse::lemma_same_frame_trans(t0, frame, t);
            lemma_lso_nested_rel_from_blocks(s0, t, stmt_blocks(s0).len(), st_in);
        }
        t
    }

    /// Rewrites a block and, recursively, the blocks it holds.
    #[verifier::loop_isolation(false)]
    fn fold_block(&mut self, block: Block) -> (r: Block)
        ensures
            lso_block_rel(block, r, old(self).state()),
            final(self).state() == lso_block_state(block, old(self).state()),
        decreases block, 1nat,
    {
        let ghost orig = block;
        let ghost st_start = self.state();
        let Block(children) = block;
        let ghost items = children@;
        let mut out: Vec<Stmt> = Vec::new();
        for stmt in it: children.into_iter()
            invariant
                it.seq() == items,
                items == orig.0@,
                self.state() == lso_seq_state(items.take(it.index() as int), st_start),
                lso_seq_rel(items.take(it.index() as int), out@, st_start),
        {
            let ghost i = it.index() as int;
            let ghost st0 = self.state();
            assert(items.take(i + 1).drop_last() =~= items.take(i));
            assert(stmt == items[i]);
            let ghost s0 = stmt;
            match self.fold(stmt) {
                Some(t0) => {
                    proof {
                        assert forall|j: int| 0 <= j < stmt_blocks(s0).len() implies decreases_to!(
                            orig => #[trigger] stmt_blocks(s0)[j].1) by {
                            lemma_nested_block_decreases(orig, i, j);
                        }
                    }
                    let t = self.fold_nested(t0, Ghost(s0), Ghost(orig));
                    let ghost out0 = out@;
                    out.push(t);
                    assert(out@.drop_last() =~= out0);
                    assert(lso_stmt_rel(s0, t, st0));
                },
                None => {},
            }
            assert(lso_seq_state(items.take(i + 1), st_start) == lso_stmt_state(s0, st0));
        }
        assert(items.take(items.len() as int) =~= items);
        Block(out)
    }
}

/// The state the analysis starts from.
pub open spec fn olso_initial() -> OLSState {
    OLSState {
        ops: Map::empty(),
        cur: 0,
        names: Seq::empty(),
        strings: Map::empty(),
        reads: no_ops(),
        writes: no_ops(),
    }
}

/// The decisions the analysis takes for a whole program.
pub open spec fn obj_decisions(prog: Block) -> Map<u64, ObjWhat> {
    run_block::<CollectLoadStoreInfo>(olso_initial(), ScopeTy::Toplevel, prog).ops
}

impl LoadStore {
    /// Runs the pass over a whole program: statements are numbered in traversal order, each
    /// property read and write is rewritten by the decision taken for its number.
    pub fn run(block: Block) -> (r: Block)
        ensures
            lso_block_rel(block, r, LSOFold { ops: obj_decisions(block), cur: 0 }),
    {
        let mut collector = CollectLoadStoreInfo {
            obj_ops_to_replace: HashMap::new(),
            cur_index: 0,
            names: Vec::new(),
            known_strings: HashMap::new(),
            for_reads: PropOps::new(),
            for_writes: PropOps::new(),
        };
        assert(collector.state().ops =~= Map::<u64, ObjWhat>::empty());
        assert(collector.state().names =~= Seq::<Seq<char>>::empty());
        assert(collector.state().strings =~= Map::<u64, u64>::empty());
        run_visitor(&mut collector, &block);
        let mut folder = LoadStore { obj_ops_to_replace: collector.obj_ops_to_replace, cur_index: 0 };
        folder.fold_block(block)
    }
}

} // verus!
