//! Unrolling of `for ... in` loops over objects known to have at most one key.

use vstd::prelude::*;

use std::collections::{HashMap, HashSet};

use crate::collections::ZeroOneMany;
use crate::ir::{lemma_nested_block_decreases, stmt_blocks, stmt_uses, stmt_uses_exec, Block, Expr, ForKind, Ref, ScopeTy, Stmt, SSA};
use crate::traverse::{put_blocks, same_frame, take_blocks};

use vstd::std_specs::iter::IteratorSpec;

verus! {

// ---------------------------------------------------------------------------
// The state, as the contracts see it.
// ---------------------------------------------------------------------------

/// Objects with at most one key (and that key, if any), and the objects invalidated so far
/// (`None`: all of them).
pub struct ObjsV {
    pub small: Map<u64, Option<Ref<SSA>>>,
    pub invalid: Option<Set<u64>>,
}

/// Objects used in only one function scope, and the others.
pub struct LoopsV {
    pub local: ObjsV,
    pub nonlocal: ObjsV,
}

pub open spec fn empty_objs() -> ObjsV {
    ObjsV { small: Map::empty(), invalid: Some(Set::empty()) }
}

pub open spec fn empty_loops() -> LoopsV {
    LoopsV { local: empty_objs(), nonlocal: empty_objs() }
}

pub open spec fn insert_obj(inv: Option<Set<u64>>, id: u64) -> Option<Set<u64>> {
    match inv {
        None => None,
        Some(s) => Some(s.insert(id)),
    }
}

pub open spec fn invalidate_in(o: ObjsV, id: u64) -> ObjsV {
    ObjsV { small: o.small.remove(id), invalid: insert_obj(o.invalid, id) }
}

/// A use of `id`: the object may escape, so it is no longer known.
pub open spec fn invalidate_ref(st: LoopsV, id: u64, one: Set<u64>) -> LoopsV {
    if one.contains(id) {
        LoopsV { local: invalidate_in(st.local, id), ..st }
    } else {
        LoopsV { nonlocal: invalidate_in(st.nonlocal, id), ..st }
    }
}

pub open spec fn uses_state(st: LoopsV, ids: Seq<u64>, one: Set<u64>) -> LoopsV
    decreases ids.len(),
{
    if ids.len() == 0 {
        st
    } else {
        invalidate_ref(uses_state(st, ids.drop_last(), one), ids.last(), one)
    }
}

pub open spec fn declare_small(st: LoopsV, id: u64, key: Option<Ref<SSA>>, one: Set<u64>) -> LoopsV {
    if one.contains(id) {
        LoopsV { local: ObjsV { small: st.local.small.insert(id, key), ..st.local }, ..st }
    } else {
        LoopsV { nonlocal: ObjsV { small: st.nonlocal.small.insert(id, key), ..st.nonlocal }, ..st }
    }
}

pub open spec fn get_small(st: LoopsV, id: u64) -> Option<Option<Ref<SSA>>> {
    if st.local.small.contains_key(id) {
        Some(st.local.small[id])
    } else if st.nonlocal.small.contains_key(id) {
        Some(st.nonlocal.small[id])
    } else {
        None
    }
}

/// What a nested scope's invalidations do to the enclosing one.
pub open spec fn invalidate_objs(this: ObjsV, child: ObjsV) -> ObjsV {
    match child.invalid {
        None => ObjsV { small: Map::empty(), invalid: None },
        Some(objs) => ObjsV {
            small: this.small.remove_keys(objs),
            invalid: match this.invalid {
                None => None,
                Some(s) => Some(s.union(objs)),
            },
        },
    }
}

pub open spec fn invalidate_from_child(st: LoopsV, child: LoopsV) -> LoopsV {
    LoopsV { local: invalidate_objs(st.local, child.local), nonlocal: invalidate_objs(st.nonlocal, child.nonlocal) }
}

/// The state after `s` itself has been folded.
pub open spec fn fold_state(s: Stmt, st: LoopsV, one: Set<u64>) -> LoopsV {
    match s {
        Stmt::Expr { target, expr: Expr::Object { props } } => if props@.len() <= 1 {
            declare_small(st, target.id, if props@.len() == 1 { Some(props@[0].1) } else { None }, one)
        } else {
            st
        },
        Stmt::Expr { expr: Expr::Yield { .. }, .. } | Stmt::Expr { expr: Expr::Await { .. }, .. }
        | Stmt::Expr { expr: Expr::Call { .. }, .. } => LoopsV {
            nonlocal: ObjsV { small: Map::empty(), invalid: None },
            ..st
        },
        _ => st,
    }
}

/// What becomes of a statement: kept, dropped (a loop over an object with no key), or
/// replaced by the body of a loop over an object with one key.
pub enum Unroll {
    Keep,
    Drop,
    Splice(Ref<SSA>),
}

pub open spec fn unroll_of(s: Stmt, st: LoopsV) -> Unroll {
    match s {
        Stmt::ForEach { kind: ForKind::In, init, .. } => match get_small(st, init.id) {
            Some(Some(key)) => Unroll::Splice(key),
            Some(None) => Unroll::Drop,
            None => Unroll::Keep,
        },
        _ => Unroll::Keep,
    }
}

pub open spec fn loop_body(s: Stmt) -> Seq<Stmt> {
    match s {
        Stmt::ForEach { body, .. } => body.0@,
        _ => Seq::empty(),
    }
}

/// A statement of the body of a loop run once with the given key: the loop variable reads
/// the key.
pub open spec fn subst_arg(u: Stmt, key: Ref<SSA>) -> Stmt {
    match u {
        Stmt::Expr { target, expr: Expr::Argument { index } } => if index == 0 {
            Stmt::Expr { target, expr: Expr::Read { source: key } }
        } else {
            u
        },
        _ => u,
    }
}

// ---------------------------------------------------------------------------
// How the state evolves along the traversal.
// ---------------------------------------------------------------------------

pub open spec fn lp_block_state(b: Block, ty: ScopeTy, st: LoopsV, one: Set<u64>) -> LoopsV
    decreases b, 3nat,
{
    match ty {
        ScopeTy::Function => st,
        ScopeTy::Nonlinear => invalidate_from_child(st, lp_seq_state(b.0@, empty_loops(), one)),
        _ => lp_seq_state(b.0@, st, one),
    }
}

pub open spec fn lp_seq_state(ss: Seq<Stmt>, st: LoopsV, one: Set<u64>) -> LoopsV
    decreases ss, 0nat,
{
    if ss.len() == 0 {
        st
    } else {
        lp_stmt_state(ss.last(), lp_seq_state(ss.drop_last(), st, one), one)
    }
}

pub open spec fn lp_stmt_state(s: Stmt, st: LoopsV, one: Set<u64>) -> LoopsV
    decreases s, 5nat,
{
    let st1 = fold_state(s, st, one);
    match unroll_of(s, st1) {
        Unroll::Splice(key) => match s {
            Stmt::ForEach { body, .. } => lp_spliced_state(body, key, st1, one),
            _ => st1,
        },
        Unroll::Drop => st1,
        Unroll::Keep => lp_nested_state(s, stmt_blocks(s).len(), uses_state(st1, stmt_uses(s), one), one),
    }
}

/// The state after the first `k` blocks of `s` have been traversed.
pub open spec fn lp_nested_state(s: Stmt, k: nat, st: LoopsV, one: Set<u64>) -> LoopsV
    decreases s, k,
{
    if k == 0 || k > stmt_blocks(s).len() {
        st
    } else {
        lp_block_state(stmt_blocks(s)[k - 1].1, stmt_blocks(s)[k - 1].0, lp_nested_state(s, (k - 1) as nat, st, one), one)
    }
}

pub open spec fn lp_spliced_state(body: Block, key: Ref<SSA>, st: LoopsV, one: Set<u64>) -> LoopsV
    decreases body, 1nat,
{
    lp_spliced_seq_state(body.0@, key, st, one)
}

pub open spec fn lp_spliced_seq_state(ss: Seq<Stmt>, key: Ref<SSA>, st: LoopsV, one: Set<u64>) -> LoopsV
    decreases ss, 0nat,
{
    if ss.len() == 0 {
        st
    } else {
        let u = ss.last();
        let st1 = lp_spliced_seq_state(ss.drop_last(), key, st, one);
        lp_nested_state(u, stmt_blocks(u).len(), uses_state(st1, stmt_uses(subst_arg(u, key)), one), one)
    }
}

// ---------------------------------------------------------------------------
// The rewrite.
// ---------------------------------------------------------------------------

pub open spec fn out_count(s: Stmt, st1: LoopsV) -> nat {
    match unroll_of(s, st1) {
        Unroll::Splice(_) => loop_body(s).len(),
        Unroll::Drop => 0,
        Unroll::Keep => 1,
    }
}

/// The state a block of scope type `ty` starts with.
pub open spec fn scope_start(ty: ScopeTy, st: LoopsV) -> LoopsV {
    match ty {
        ScopeTy::Function | ScopeTy::Nonlinear => empty_loops(),
        _ => st,
    }
}

/// `b` is `a` with loops unrolled, `a` being a scope of type `ty` entered with state `st`.
pub open spec fn lp_block_rel(a: Block, b: Block, ty: ScopeTy, st: LoopsV, one: Set<u64>) -> bool
    decreases a, 3nat,
{
    lp_seq_rel(a.0@, b.0@, scope_start(ty, st), one)
}

pub open spec fn lp_seq_rel(ins: Seq<Stmt>, outs: Seq<Stmt>, st: LoopsV, one: Set<u64>) -> bool
    decreases ins, 0nat,
{
    if ins.len() == 0 {
        outs.len() == 0
    } else {
        let sl = lp_seq_state(ins.drop_last(), st, one);
        let n = out_count(ins.last(), fold_state(ins.last(), sl, one));
        &&& outs.len() >= n
        &&& lp_seq_rel(ins.drop_last(), outs.take(outs.len() - n), st, one)
        &&& lp_stmt_rel(ins.last(), outs.skip(outs.len() - n), sl, one)
    }
}

pub open spec fn lp_stmt_rel(s: Stmt, outs: Seq<Stmt>, st: LoopsV, one: Set<u64>) -> bool
    decreases s, 5nat,
{
    let st1 = fold_state(s, st, one);
    match unroll_of(s, st1) {
        Unroll::Splice(key) => match s {
            Stmt::ForEach { body, .. } => lp_spliced_rel(body, key, outs, st1, one),
            _ => false,
        },
        Unroll::Drop => outs.len() == 0,
        Unroll::Keep => {
            &&& outs.len() == 1
            &&& same_frame(s, outs[0])
            &&& lp_nested_rel(s, outs[0], stmt_blocks(s).len(), uses_state(st1, stmt_uses(s), one), one)
        },
    }
}

/// The first `k` blocks of `t` are those of `s` with loops unrolled.
pub open spec fn lp_nested_rel(s: Stmt, t: Stmt, k: nat, st: LoopsV, one: Set<u64>) -> bool
    decreases s, k,
{
    if k == 0 || k > stmt_blocks(s).len() {
        stmt_blocks(t).len() == stmt_blocks(s).len()
    } else {
        &&& lp_nested_rel(s, t, (k - 1) as nat, st, one)
        &&& lp_block_rel(
            stmt_blocks(s)[k - 1].1,
            stmt_blocks(t)[k - 1].1,
            stmt_blocks(s)[k - 1].0,
            lp_nested_state(s, (k - 1) as nat, st, one),
            one,
        )
    }
}

pub open spec fn lp_spliced_rel(body: Block, key: Ref<SSA>, outs: Seq<Stmt>, st: LoopsV, one: Set<u64>) -> bool
    decreases body, 1nat,
{
    lp_spliced_seq_rel(body.0@, key, outs, st, one)
}

/// The statements of a loop body run once, with the loop variable reading the key.
pub open spec fn lp_spliced_seq_rel(ss: Seq<Stmt>, key: Ref<SSA>, outs: Seq<Stmt>, st: LoopsV, one: Set<u64>) -> bool
    decreases ss, 0nat,
{
    &&& outs.len() == ss.len()
    &&& ss.len() > 0 ==> {
        let u = ss.last();
        let st1 = lp_spliced_seq_state(ss.drop_last(), key, st, one);
        &&& lp_spliced_seq_rel(ss.drop_last(), key, outs.drop_last(), st, one)
        &&& same_frame(subst_arg(u, key), outs.last())
        &&& lp_nested_rel(u, outs.last(), stmt_blocks(u).len(), uses_state(st1, stmt_uses(subst_arg(u, key)), one), one)
    }
}

// ---------------------------------------------------------------------------
// The pass.
// ---------------------------------------------------------------------------

pub enum Invalid {
    All,
    Objects(HashSet<u64>),
}

pub struct Objects {
    pub small_objects: HashMap<u64, Option<Ref<SSA>>>,
    pub invalid_in_parent: Invalid,
}

pub open spec fn invalid_view(i: Invalid) -> Option<Set<u64>> {
    match i {
        Invalid::All => None,
        Invalid::Objects(s) => Some(s@),
    }
}

pub open spec fn objs_view(o: Objects) -> ObjsV {
    ObjsV { small: o.small_objects@, invalid: invalid_view(o.invalid_in_parent) }
}

impl Objects {
    pub fn new() -> (r: Self)
        ensures
            objs_view(r) == empty_objs(),
    {
        let r = Objects { small_objects: HashMap::new(), invalid_in_parent: Invalid::Objects(HashSet::new()) };
        assert(objs_view(r).small =~= empty_objs().small);
        r
    }

    fn invalidate(&mut self, id: u64)
        ensures
            objs_view(*final(self)) == invalidate_in(objs_view(*old(self)), id),
    {
        broadcast use vstd::std_specs::hash::group_hash_axioms;
        self.small_objects.remove(&id);
        match &mut self.invalid_in_parent {
            Invalid::All => {},
            Invalid::Objects(objs) => {
                objs.insert(id);
            },
        }
    }

    fn invalidate_all(&mut self)
        ensures
            objs_view(*final(self)) == (ObjsV { small: Map::empty(), invalid: None }),
    {
        self.small_objects.clear();
        self.invalid_in_parent = Invalid::All;
    }

    /// Applies the invalidations of a nested scope.
    fn invalidate_from(&mut self, child: Objects)
        ensures
            objs_view(*final(self)) == invalidate_objs(objs_view(*old(self)), objs_view(child)),
    {
        broadcast use vstd::std_specs::hash::group_hash_axioms;
        match child.invalid_in_parent {
            Invalid::All => {
                self.invalidate_all();
            },
            Invalid::Objects(objs) => {
                let ghost v0 = objs_view(*self);
                let ghost items = vstd::std_specs::hash::spec_hash_keys_iter(&objs).remaining();
                for o in it: objs.iter()
                    invariant
                        it.seq() == items,
                        items == vstd::std_specs::hash::spec_hash_keys_iter(&objs).remaining(),
                        ({
                            let done = items.take(it.index() as int).map_values(|p: &u64| *p).to_set();
                            &&& self.small_objects@ == v0.small.remove_keys(done)
                            &&& invalid_view(self.invalid_in_parent) == match v0.invalid {
                                None => None,
                                Some(s) => Some(s.union(done)),
                            }
                        }),
                {
                    let ghost i = it.index() as int;
                    assert(items.take(i + 1).map_values(|p: &u64| *p) =~= items.take(i).map_values(|p: &u64| *p).push(*o));
                    proof {
                        items.take(i).map_values(|p: &u64| *p).lemma_push_to_set_commute(*o);
                    }
                    let ghost done = items.take(i).map_values(|p: &u64| *p).to_set();
                    self.invalidate(*o);
                    assert(self.small_objects@ =~= v0.small.remove_keys(done.insert(*o)));
                    proof {
                        match v0.invalid {
                            None => {},
                            Some(s) => {
                                assert(s.union(done).insert(*o) =~= s.union(done.insert(*o)));
                            },
                        }
                    }
                }
                assert(items.take(items.len() as int) == items);
                assert(items.map_values(|p: &u64| *p).to_set() =~= objs@) by {
                    assert(items.unref().to_set() == objs@);
                    assert(items.map_values(|p: &u64| *p) =~= items.unref());
                }
            },
        }
    }
}

/// Loop unrolling for 0/1 iteration loops.
///
/// May profit from DCE running first; may create opportunities for DCE.
/// May create opportunities for read forwarding.
/// May create opportunities for SROA.
pub struct Loops {
    pub refs_used_in_only_one_fn_scope: HashSet<u64>,
    pub local: Objects,
    pub nonlocal: Objects,
}

impl Loops {
    pub open spec fn state(&self) -> LoopsV {
        LoopsV { local: objs_view(self.local), nonlocal: objs_view(self.nonlocal) }
    }

    pub open spec fn one(&self) -> Set<u64> {
        self.refs_used_in_only_one_fn_scope@
    }

    fn invalidate_ref(&mut self, id: u64)
        ensures
            final(self).state() == invalidate_ref(old(self).state(), id, old(self).one()),
            final(self).one() == old(self).one(),
    {
        broadcast use vstd::std_specs::hash::group_hash_axioms;
        if self.refs_used_in_only_one_fn_scope.contains(&id) {
            self.local.invalidate(id);
        } else {
            self.nonlocal.invalidate(id);
        }
    }

    fn invalidate_uses(&mut self, ids: &Vec<u64>)
        ensures
            final(self).state() == uses_state(old(self).state(), ids@, old(self).one()),
            final(self).one() == old(self).one(),
    {
        let mut i: usize = 0;
        while i < ids.len()
            invariant
                i <= ids@.len(),
                self.one() == old(self).one(),
                self.state() == uses_state(old(self).state(), ids@.take(i as int), old(self).one()),
            decreases ids@.len() - i,
        {
            assert(ids@.take(i + 1).drop_last() =~= ids@.take(i as int));
            self.invalidate_ref(ids[i]);
            i += 1;
        }
        assert(ids@.take(ids@.len() as int) =~= ids@);
    }

    fn declare_small_object(&mut self, id: u64, key: Option<Ref<SSA>>)
        ensures
            final(self).state() == declare_small(old(self).state(), id, key, old(self).one()),
            final(self).one() == old(self).one(),
    {
        broadcast use vstd::std_specs::hash::group_hash_axioms;
        if self.refs_used_in_only_one_fn_scope.contains(&id) {
            self.local.small_objects.insert(id, key);
        } else {
            self.nonlocal.small_objects.insert(id, key);
        }
    }

    fn get_small_object(&self, id: u64) -> (r: Option<Option<Ref<SSA>>>)
        ensures
            r == get_small(self.state(), id),
    {
        broadcast use vstd::std_specs::hash::group_hash_axioms;
        match self.local.small_objects.get(&id) {
            Some(k) => Some(clone_opt_ref(k)),
            None => match self.nonlocal.small_objects.get(&id) {
                Some(k) => Some(clone_opt_ref(k)),
                None => None,
            },
        }
    }

    /// Folds one statement: records objects with at most one key, forgets objects that may
    /// escape through a call, and replaces a `for ... in` over a known object by its body run
    /// once (or by nothing, for an object without keys).
    pub fn fold(&mut self, stmt: Stmt) -> (r: ZeroOneMany<Stmt>)
        ensures
            final(self).state() == fold_state(stmt, old(self).state(), old(self).one()),
            final(self).one() == old(self).one(),
            ({
                let st1 = final(self).state();
                match unroll_of(stmt, st1) {
                    Unroll::Splice(key) => r is Many && r.items().len() == loop_body(stmt).len() && forall|k: int|
                        0 <= k < r.items().len() ==> #[trigger] r.items()[k] == subst_arg(loop_body(stmt)[k], key),
                    Unroll::Drop => r is Zero,
                    Unroll::Keep => r is One && r.items() == seq![stmt],
                }
            }),
    {
        match stmt {
            Stmt::Expr { target, expr } => {
                match &expr {
                    Expr::Object { props } => {
                        if props.len() <= 1 {
                            let key = if props.len() == 1 {
                                Some(props[0].1.duplicate())
                            } else {
                                None
                            };
                            self.declare_small_object(target.id, key);
                        }
                    },
                    Expr::Yield { .. } | Expr::Await { .. } | Expr::Call { .. } => {
                        self.nonlocal.invalidate_all();
                    },
                    _ => {},
                }
                ZeroOneMany::One(Stmt::Expr { target, expr })
            },
            Stmt::ForEach { kind: ForKind::In, init, body } => {
                match self.get_small_object(init.id) {
                    Some(Some(key)) => {
                        let Block(children) = body;
                        let ghost items = children@;
                        let mut out: Vec<Stmt> = Vec::new();
                        for u in it: children.into_iter()
                            invariant
                                it.seq() == items,
                                out@.len() == it.index(),
                                forall|k: int| 0 <= k < it.index() ==> #[trigger] out@[k] == subst_arg(items[k], key),
                        {
                            let t = match u {
                                Stmt::Expr { target, expr: Expr::Argument { index } } => {
                                    if index == 0 {
                                        Stmt::Expr { target, expr: Expr::Read { source: key.duplicate() } }
                                    } else {
                                        Stmt::Expr { target, expr: Expr::Argument { index } }
                                    }
                                },
                                other => other,
                            };
                            out.push(t);
                        }
                        ZeroOneMany::Many(out)
                    },
                    Some(None) => ZeroOneMany::Zero,
                    None => ZeroOneMany::One(Stmt::ForEach { kind: ForKind::In, init, body }),
                }
            },
            other => ZeroOneMany::One(other),
        }
    }
}

fn clone_opt_ref(k: &Option<Ref<SSA>>) -> (r: Option<Ref<SSA>>)
    ensures
        r == *k,
{
    match k {
        Some(x) => Some(x.duplicate()),
        None => None,
    }
}

pub proof fn lemma_lp_nested_same_blocks(s: Stmt, s2: Stmt, t: Stmt, k: nat, st: LoopsV, one: Set<u64>)
    requires
        stmt_blocks(s) == stmt_blocks(s2),
    ensures
        lp_nested_rel(s, t, k, st, one) == lp_nested_rel(s2, t, k, st, one),
        lp_nested_state(s, k, st, one) == lp_nested_state(s2, k, st, one),
    decreases k,
{
    if k > 0 {
        lemma_lp_nested_same_blocks(s, s2, t, (k - 1) as nat, st, one);
    }
}

pub proof fn lemma_lp_nested_rel_from_blocks(s: Stmt, t: Stmt, k: nat, st: LoopsV, one: Set<u64>)
    requires
        k <= stmt_blocks(s).len(),
        stmt_blocks(t).len() == stmt_blocks(s).len(),
        forall|j: int|
            0 <= j < k ==> lp_block_rel(
                #[trigger] stmt_blocks(s)[j].1,
                stmt_blocks(t)[j].1,
                stmt_blocks(s)[j].0,
                lp_nested_state(s, j as nat, st, one),
                one,
            ),
    ensures
        lp_nested_rel(s, t, k, st, one),
    decreases k,
{
    if k > 0 {
        lemma_lp_nested_rel_from_blocks(s, t, (k - 1) as nat, st, one);
        assert(lp_block_rel(stmt_blocks(s)[k - 1].1, stmt_blocks(t)[k - 1].1, stmt_blocks(s)[k - 1].0, lp_nested_state(s, (k - 1) as nat, st, one), one));
    }
}

/// Each block held by a statement of the body of the `i`-th statement of `b`, a loop, is
/// smaller than `b`.
pub proof fn lemma_body_block_decreases(b: Block, i: int, k: int, j: int)
    requires
        0 <= i < b.0@.len(),
        b.0@[i] is ForEach,
        0 <= k < loop_body(b.0@[i]).len(),
        0 <= j < stmt_blocks(loop_body(b.0@[i])[k]).len(),
    ensures
        decreases_to!(b => stmt_blocks(loop_body(b.0@[i])[k])[j].1),
{
    let s = b.0@[i];
    assert(decreases_to!(b => b.0));
    assert(decreases_to!(b.0 => b.0@));
    assert(decreases_to!(b.0@ => s));
    match s {
        Stmt::ForEach { kind, init, body } => {
            assert(decreases_to!(s => body));
            lemma_nested_block_decreases(body, k, j);
        },
        _ => {},
    }
}

impl Loops {
    fn empty_with(refs: HashSet<u64>) -> (r: Loops)
        ensures
            r.state() == empty_loops(),
            r.one() == refs@,
    {
        Loops { refs_used_in_only_one_fn_scope: refs, local: Objects::new(), nonlocal: Objects::new() }
    }

    /// Unrolls loops in the blocks a statement holds, in order.
    fn fold_nested(&mut self, t0: Stmt, Ghost(orig): Ghost<Block>) -> (t: Stmt)
        requires
            forall|j: int| 0 <= j < stmt_blocks(t0).len() ==> decreases_to!(orig => #[trigger] stmt_blocks(t0)[j].1),
        ensures
            same_frame(t0, t),
            lp_nested_rel(t0, t, stmt_blocks(t0).len(), old(self).state(), old(self).one()),
            final(self).state() == lp_nested_state(t0, stmt_blocks(t0).len(), old(self).state(), old(self).one()),
            final(self).one() == old(self).one(),
        decreases orig, 0nat,
    {
        let ghost st_in = self.state();
        let ghost one = self.one();
        let ghost bs0 = stmt_blocks(t0);
        let (frame, bs) = take_blocks(t0);
        let mut done: Vec<Block> = Vec::new();
        for pair in jt: bs.into_iter()
            invariant
                jt.seq() == bs0,
                bs0 == stmt_blocks(t0),
                one == self.one(),
                forall|j: int| 0 <= j < bs0.len() ==> decreases_to!(orig => #[trigger] bs0[j].1),
                done@.len() == jt.index(),
                self.state() == lp_nested_state(t0, jt.index() as nat, st_in, one),
                forall|j: int|
                    0 <= j < jt.index() ==> lp_block_rel(
                        #[trigger] bs0[j].1,
                        done@[j],
                        bs0[j].0,
                        lp_nested_state(t0, j as nat, st_in, one),
                        one,
                    ),
        {
            let ghost j = jt.index() as int;
            assert(pair == bs0[j]);
            let (ty, b) = pair;
            assert(decreases_to!(orig => b));
            let nb = self.fold_block(b, ty);
            done.push(nb);
        }
        let t = put_blocks(frame, done);
        proof {
            crate::traverse::lemma_same_frame_trans(t0, frame, t);
            lemma_lp_nested_rel_from_blocks(t0, t, stmt_blocks(t0).len(), st_in, one);
        }
        t
    }

    /// Unrolls loops in a block, a scope of type `ty`.
    fn fold_block(&mut self, block: Block, ty: ScopeTy) -> (r: Block)
        ensures
            lp_block_rel(block, r, ty, old(self).state(), old(self).one()),
            final(self).state() == lp_block_state(block, ty, old(self).state(), old(self).one()),
            final(self).one() == old(self).one(),
        decreases block, 3nat,
    {
        match ty {
            ScopeTy::Function | ScopeTy::Nonlinear => {
                let mut refs: HashSet<u64> = HashSet::new();
                std::mem::swap(&mut refs, &mut self.refs_used_in_only_one_fn_scope);
                let mut inner = Loops::empty_with(refs);
                let r = inner.fold_seq(block);
                std::mem::swap(&mut inner.refs_used_in_only_one_fn_scope, &mut self.refs_used_in_only_one_fn_scope);
                match ty {
                    ScopeTy::Nonlinear => {
                        let Loops { refs_used_in_only_one_fn_scope: _, local, nonlocal } = inner;
                        self.local.invalidate_from(local);
                        self.nonlocal.invalidate_from(nonlocal);
                    },
                    _ => {},
                }
                r
            },
            _ => self.fold_seq(block),
        }
    }

    /// Unrolls one statement of a block and the blocks it holds: the `i`-th statement of `orig`.
    fn fold_one(&mut self, stmt: Stmt, Ghost(orig): Ghost<Block>, Ghost(i): Ghost<int>) -> (done: Vec<Stmt>)
        requires
            0 <= i < orig.0@.len(),
            stmt == orig.0@[i],
        ensures
            lp_stmt_rel(stmt, done@, old(self).state(), old(self).one()),
            final(self).state() == lp_stmt_state(stmt, old(self).state(), old(self).one()),
            final(self).one() == old(self).one(),
        decreases orig, 1nat,
    {
        let ghost s0 = stmt;
        let ghost st0 = self.state();
        let ghost one = self.one();
        let ghost items = orig.0@;
        let folded = self.fold(stmt);
        let ghost st1 = self.state();
        let ghost fi = folded.items();
        let mut done: Vec<Stmt> = Vec::new();
        match folded {
            ZeroOneMany::Zero => {},
            ZeroOneMany::One(t0) => {
                assert(unroll_of(s0, st1) is Keep);
                assert(fi == seq![t0]);
                assert(fi == seq![s0]);
                assert(fi[0] == t0 && fi[0] == s0);
                proof {
                    assert forall|j: int| 0 <= j < stmt_blocks(t0).len() implies decreases_to!(
                        orig => #[trigger] stmt_blocks(t0)[j].1) by {
                        lemma_nested_block_decreases(orig, i, j);
                    }
                }
                let uses = stmt_uses_exec(&t0);
                self.invalidate_uses(&uses);
                let t = self.fold_nested(t0, Ghost(orig));
                done.push(t);
            },
            ZeroOneMany::Many(srcs_v) => {
                let ghost key = unroll_of(s0, st1)->Splice_0;
                let ghost body = loop_body(s0);
                let ghost srcs = srcs_v@;
                for t0 in jt: srcs_v.into_iter()
                    invariant
                        jt.seq() == srcs,
                        srcs.len() == body.len(),
                        forall|k: int| 0 <= k < srcs.len() ==> #[trigger] srcs[k] == subst_arg(body[k], key),
                        body == loop_body(s0),
                        s0 == items[i],
                        0 <= i < items.len(),
                        items == orig.0@,
                        s0 is ForEach,
                        one == self.one(),
                        self.state() == lp_spliced_seq_state(body.take(jt.index() as int), key, st1, one),
                        lp_spliced_seq_rel(body.take(jt.index() as int), key, done@, st1, one),
                {
                    let ghost k = jt.index() as int;
                    let ghost u = body[k];
                    assert(t0 == subst_arg(u, key));
                    assert(body.take(k + 1).drop_last() =~= body.take(k));
                    assert(stmt_blocks(t0) == stmt_blocks(u));
                    proof {
                        assert forall|j: int| 0 <= j < stmt_blocks(t0).len() implies decreases_to!(
                            orig => #[trigger] stmt_blocks(t0)[j].1) by {
                            lemma_body_block_decreases(orig, i, k, j);
                        }
                    }
                    let uses = stmt_uses_exec(&t0);
                    self.invalidate_uses(&uses);
                    let ghost st_u = self.state();
                    let ghost d0 = done@;
                    let t = self.fold_nested(t0, Ghost(orig));
                    proof {
                        lemma_lp_nested_same_blocks(t0, u, t, stmt_blocks(u).len(), st_u, one);
                    }
                    done.push(t);
                    assert(done@.drop_last() =~= d0);
                }
                assert(body.take(body.len() as int) =~= body);
            },
        }
        proof {
            assert(lp_stmt_rel(s0, done@, st0, one));
        }
        done
    }

    /// Unrolls loops in the statements of a block, with the current state.
    #[verifier::loop_isolation(false)]
    fn fold_seq(&mut self, block: Block) -> (r: Block)
        ensures
            lp_seq_rel(block.0@, r.0@, old(self).state(), old(self).one()),
            final(self).state() == lp_seq_state(block.0@, old(self).state(), old(self).one()),
            final(self).one() == old(self).one(),
        decreases block, 2nat,
    {
        let ghost orig = block;
        let ghost st_start = self.state();
        let ghost one = self.one();
        let Block(children) = block;
        let ghost items = children@;
        let mut out: Vec<Stmt> = Vec::new();
        for stmt in it: children.into_iter()
            invariant
                it.seq() == items,
                items == orig.0@,
                one == self.one(),
                self.state() == lp_seq_state(items.take(it.index() as int), st_start, one),
                lp_seq_rel(items.take(it.index() as int), out@, st_start, one),
        {
            let ghost i = it.index() as int;
            let ghost st0 = self.state();
            assert(items.take(i + 1).drop_last() =~= items.take(i));
            assert(stmt == items[i]);
            let ghost s0 = stmt;
            let mut done = self.fold_one(stmt, Ghost(orig), Ghost(i));
            proof {
                assert(lp_seq_state(items.take(i + 1), st_start, one) == lp_stmt_state(s0, st0, one));
            }
            let ghost out0 = out@;
            let ghost dn = done@;
            out.append(&mut done);
            proof {
                let ins = items.take(i + 1);
                assert(ins.drop_last() =~= items.take(i));
                assert(out@.take(out@.len() - dn.len()) =~= out0);
                assert(out@.skip(out@.len() - dn.len()) =~= dn);
            }
        }
        assert(items.take(items.len() as int) =~= items);
        Block(out)
    }

    /// Runs loop unrolling over a whole program.
    pub fn run(block: Block) -> (r: Block)
        ensures
            lp_block_rel(
                block,
                r,
                ScopeTy::Toplevel,
                empty_loops(),
                crate::anal::refs::valid_ids(
                    crate::visit::run_block::<crate::anal::refs::UsedInOnlyOneFnScope<SSA>>(
                        (Map::empty(), 0),
                        ScopeTy::Toplevel,
                        block,
                    ).0,
                ),
            ),
    {
        let refs = crate::anal::refs::used_in_only_one_fn_scope(&block);
        let mut loops = Loops::empty_with(refs);
        loops.fold_block(block, ScopeTy::Toplevel)
    }
}

} // verus!
