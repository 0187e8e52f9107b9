//! Non-mutating traversal of the IR.
//!
//! A traversal visits, for each statement of a block in order: the statement itself, then
//! every SSA ref the statement reads (in evaluation order), then every block the statement
//! holds, each bracketed by entering and leaving its scope.

use vstd::prelude::*;

use crate::ir::{
    lemma_nested_block_decreases, nested_blocks, stmt_blocks, stmt_uses, stmt_uses_exec, Block,
    ScopeTy, Stmt,
};

verus! {

/// An analysis that walks the IR, described step by step by its spec functions over an
/// abstract state `St` (the view of the visitor) and an abstract saved state `Sv`.
pub trait Visitor: Sized {
    type St;

    /// What a scope entry saves of the state, to be restored when the scope is left.
    type Saved;

    type Sv;

    spec fn state(&self) -> Self::St;

    spec fn saved_state(saved: &Self::Saved) -> Self::Sv;

    spec fn spec_visit(st: Self::St, s: Stmt) -> Self::St;

    spec fn spec_visit_ref_use(st: Self::St, id: u64) -> Self::St;

    spec fn spec_enter(st: Self::St, ty: ScopeTy, b: Block) -> (Self::St, Self::Sv);

    spec fn spec_exit(st: Self::St, ty: ScopeTy, saved: Self::Sv) -> Self::St;

    fn visit(&mut self, s: &Stmt)
        ensures
            final(self).state() == Self::spec_visit(old(self).state(), *s),
    ;

    fn visit_ref_use(&mut self, id: u64)
        ensures
            final(self).state() == Self::spec_visit_ref_use(old(self).state(), id),
    ;

    fn enter_scope(&mut self, ty: ScopeTy, b: &Block) -> (saved: Self::Saved)
        ensures
            (final(self).state(), Self::saved_state(&saved)) == Self::spec_enter(
                old(self).state(),
                ty,
                *b,
            ),
    ;

    fn exit_scope(&mut self, ty: ScopeTy, saved: Self::Saved)
        ensures
            final(self).state() == Self::spec_exit(old(self).state(), ty, Self::saved_state(&saved)),
    ;
}

/// The state of a visitor of type `T` after traversing block `b`, a scope of type `ty`.
pub open spec fn run_block<T: Visitor>(v: T::St, ty: ScopeTy, b: Block) -> T::St
    decreases b, 0nat,
{
    let (v1, saved) = T::spec_enter(v, ty, b);
    let v2 = run_stmts::<T>(v1, b.0@);
    T::spec_exit(v2, ty, saved)
}

pub open spec fn run_stmts<T: Visitor>(v: T::St, ss: Seq<Stmt>) -> T::St
    decreases ss, 0nat,
{
    if ss.len() == 0 {
        v
    } else {
        run_stmt::<T>(run_stmts::<T>(v, ss.drop_last()), ss.last())
    }
}

pub open spec fn run_stmt<T: Visitor>(v: T::St, s: Stmt) -> T::St
    decreases s, stmt_blocks(s).len() + 1,
{
    let v1 = T::spec_visit(v, s);
    let v2 = run_uses::<T>(v1, stmt_uses(s));
    run_nested::<T>(v2, s, stmt_blocks(s).len())
}

pub open spec fn run_uses<T: Visitor>(v: T::St, ids: Seq<u64>) -> T::St
    decreases ids.len(),
{
    if ids.len() == 0 {
        v
    } else {
        T::spec_visit_ref_use(run_uses::<T>(v, ids.drop_last()), ids.last())
    }
}

/// The state after traversing the first `k` blocks held by `s`.
pub open spec fn run_nested<T: Visitor>(v: T::St, s: Stmt, k: nat) -> T::St
    decreases s, k,
{
    if k == 0 || k > stmt_blocks(s).len() {
        v
    } else {
        let prev = run_nested::<T>(v, s, (k - 1) as nat);
        run_block::<T>(prev, stmt_blocks(s)[k - 1].0, stmt_blocks(s)[k - 1].1)
    }
}

/// Runs a visitor over a block, a scope of type `ty`.
#[verifier::loop_isolation(false)]
pub fn visit_block<V: Visitor>(v: &mut V, b: &Block, ty: ScopeTy)
    ensures
        final(v).state() == run_block::<V>(old(v).state(), ty, *b),
    decreases *b,
{
    let saved = v.enter_scope(ty, b);
    let ghost v1 = v.state();
    let mut i: usize = 0;
    while i < b.0.len()
        invariant
            i <= b.0@.len(),
            v.state() == run_stmts::<V>(v1, b.0@.take(i as int)),
        decreases b.0@.len() - i,
    {
        let s = &b.0[i];
        assert(b.0@.take(i + 1).drop_last() == b.0@.take(i as int));
        let ghost prev = v.state();
        v.visit(s);
        let uses = stmt_uses_exec(s);
        let ghost v2 = v.state();
        let mut k: usize = 0;
        while k < uses.len()
            invariant
                k <= uses@.len(),
                uses@ == stmt_uses(*s),
                v.state() == run_uses::<V>(v2, uses@.take(k as int)),
            decreases uses@.len() - k,
        {
            assert(uses@.take(k + 1).drop_last() == uses@.take(k as int));
            v.visit_ref_use(uses[k]);
            k += 1;
        }
        assert(uses@.take(uses@.len() as int) == uses@);
        let nested = nested_blocks(s);
        let ghost v3 = v.state();
        let mut j: usize = 0;
        while j < nested.len()
            invariant
                j <= nested@.len(),
                nested@.len() == stmt_blocks(*s).len(),
                forall|m: int| 0 <= m < nested@.len() ==> *nested@[m] == #[trigger] stmt_blocks(*s)[m].1,
                v.state() == run_nested::<V>(v3, *s, j as nat),
            decreases nested@.len() - j,
        {
            proof {
                lemma_nested_block_decreases(*b, i as int, j as int);
            }
            let ty_j = scope_ty_of(s, j);
            visit_block(v, nested[j], ty_j);
            j += 1;
        }
        assert(v.state() == run_stmt::<V>(prev, *s));
        assert(run_stmts::<V>(v1, b.0@.take(i + 1)) == run_stmt::<V>(run_stmts::<V>(v1, b.0@.take(i as int)), *s));
        i += 1;
    }
    assert(b.0@.take(b.0@.len() as int) == b.0@);
    v.exit_scope(ty, saved);
}

/// The kind of scope opened by the `j`-th block held by `s`.
pub fn scope_ty_of(s: &Stmt, j: usize) -> (t: ScopeTy)
    requires
        j < stmt_blocks(*s).len(),
    ensures
        t == stmt_blocks(*s)[j as int].0,
{
    match s {
        Stmt::Expr { .. } => ScopeTy::Function,
        Stmt::Loop { .. } | Stmt::ForEach { .. } => ScopeTy::Nonlinear,
        _ => ScopeTy::Normal,
    }
}

/// Runs a visitor over a whole program.
///
/// There is no variant that takes a per-statement closure in place of a `Visitor`: Verus
/// closures cannot mutate what they capture, so an analysis keeps its state in a type that
/// implements `Visitor`, whose steps its spec functions describe.
pub fn run_visitor<V: Visitor>(v: &mut V, b: &Block)
    ensures
        final(v).state() == run_block::<V>(old(v).state(), ScopeTy::Toplevel, *b),
{
    visit_block(v, b, ScopeTy::Toplevel)
}

} // verus!
