//! Which function values never use `this`.

use vstd::prelude::*;

use std::collections::HashSet;

use crate::ir::{Block, Expr, FnKind, ScopeTy, Stmt};
use crate::visit::{run_block, run_visitor, Visitor};

verus! {

/// Collects the function values whose bodies use `this` neither directly nor through
/// arrow functions nested in them.
pub struct WithoutThis {
    pub fns_without_this: HashSet<u64>,
    pub about_to_enter_arrow_fn: bool,
    pub about_to_enter_fn: Option<u64>,
    pub current_fn: Option<u64>,
    pub used_this: bool,
}

/// What entering a function scope saves of the enclosing state.
pub struct WithoutThisSaved {
    pub is_arrow_fn: bool,
    pub about_to_enter_arrow_fn: bool,
    pub about_to_enter_fn: Option<u64>,
    pub current_fn: Option<u64>,
    pub used_this: bool,
}

/// Abstract state: (functions without `this`, about to enter an arrow function,
/// function about to be entered, function being analysed, `this` was used).
pub type WithoutThisState = (Set<u64>, bool, Option<u64>, Option<u64>, bool);

/// Abstract saved state: (entering an arrow function, then the enclosing state's other fields).
pub type WithoutThisSavedState = (bool, bool, Option<u64>, Option<u64>, bool);

pub open spec fn opt_set(o: Option<u64>) -> Set<u64> {
    match o {
        Some(x) => set![x],
        None => Set::empty(),
    }
}

impl WithoutThis {
    pub fn new() -> (r: Self)
        ensures
            r.state() == (Set::<u64>::empty(), false, None::<u64>, None::<u64>, false),
    {
        WithoutThis {
            fns_without_this: HashSet::new(),
            about_to_enter_arrow_fn: false,
            about_to_enter_fn: None,
            current_fn: None,
            used_this: false,
        }
    }
}

impl Visitor for WithoutThis {
    type St = WithoutThisState;

    type Saved = WithoutThisSaved;

    type Sv = WithoutThisSavedState;

    open spec fn state(&self) -> WithoutThisState {
        (
            self.fns_without_this@,
            self.about_to_enter_arrow_fn,
            self.about_to_enter_fn,
            self.current_fn,
            self.used_this,
        )
    }

    open spec fn saved_state(saved: &WithoutThisSaved) -> WithoutThisSavedState {
        (
            saved.is_arrow_fn,
            saved.about_to_enter_arrow_fn,
            saved.about_to_enter_fn,
            saved.current_fn,
            saved.used_this,
        )
    }

    open spec fn spec_visit(st: WithoutThisState, s: Stmt) -> WithoutThisState {
        match s {
            Stmt::Expr { target, expr: Expr::Function { kind, .. } } => (
                st.0,
                if kind is Arrow { true } else { st.1 },
                Some(target.id),
                st.3,
                st.4,
            ),
            Stmt::Expr { expr: Expr::This, .. } => (st.0, st.1, st.2, None, true),
            _ => st,
        }
    }

    open spec fn spec_visit_ref_use(st: WithoutThisState, id: u64) -> WithoutThisState {
        st
    }

    open spec fn spec_enter(st: WithoutThisState, ty: ScopeTy, b: Block) -> (
        WithoutThisState,
        WithoutThisSavedState,
    ) {
        if ty is Function {
            ((st.0, false, None, st.2, false), (st.1, false, None, st.3, st.4))
        } else {
            (st, (false, false, None, None, false))
        }
    }

    open spec fn spec_exit(
        st: WithoutThisState,
        ty: ScopeTy,
        saved: WithoutThisSavedState,
    ) -> WithoutThisState {
        if ty is Function {
            let fns = st.0.union(opt_set(st.3));
            if saved.0 && st.4 {
                (fns, saved.1, saved.2, None, true)
            } else {
                (fns, saved.1, saved.2, saved.3, saved.4)
            }
        } else {
            st
        }
    }

    fn visit(&mut self, s: &Stmt) {
        match s {
            Stmt::Expr { target, expr: Expr::Function { kind, .. } } => {
                match kind {
                    FnKind::Arrow { .. } => {
                        self.about_to_enter_arrow_fn = true;
                    },
                    FnKind::Func { .. } => {},
                }
                self.about_to_enter_fn = Some(target.id);
            },
            Stmt::Expr { expr: Expr::This, .. } => {
                self.current_fn = None;
                self.used_this = true;
            },
            _ => {},
        }
    }

    fn visit_ref_use(&mut self, id: u64) {
    }

    fn enter_scope(&mut self, ty: ScopeTy, b: &Block) -> (saved: WithoutThisSaved) {
        match ty {
            ScopeTy::Function => {
                let saved = WithoutThisSaved {
                    is_arrow_fn: self.about_to_enter_arrow_fn,
                    about_to_enter_arrow_fn: false,
                    about_to_enter_fn: None,
                    current_fn: self.current_fn,
                    used_this: self.used_this,
                };
                self.current_fn = self.about_to_enter_fn;
                self.about_to_enter_arrow_fn = false;
                self.about_to_enter_fn = None;
                self.used_this = false;
                saved
            },
            _ => WithoutThisSaved {
                is_arrow_fn: false,
                about_to_enter_arrow_fn: false,
                about_to_enter_fn: None,
                current_fn: None,
                used_this: false,
            },
        }
    }

    fn exit_scope(&mut self, ty: ScopeTy, saved: WithoutThisSaved) {
        broadcast use vstd::std_specs::hash::group_hash_axioms;
        match ty {
            ScopeTy::Function => {
                let ghost fns0 = self.fns_without_this@;
                if let Some(f) = self.current_fn {
                    self.fns_without_this.insert(f);
                }
                assert(self.fns_without_this@ =~= fns0.union(opt_set(old(self).current_fn)));
                let inner_used_this = self.used_this;
                self.about_to_enter_arrow_fn = saved.about_to_enter_arrow_fn;
                self.about_to_enter_fn = saved.about_to_enter_fn;
                if saved.is_arrow_fn && inner_used_this {
                    self.current_fn = None;
                    self.used_this = true;
                } else {
                    self.current_fn = saved.current_fn;
                    self.used_this = saved.used_this;
                }
            },
            _ => {},
        }
    }
}

/// The function values (by id) whose bodies never use `this`.
pub fn without_this(ir: &Block) -> (r: HashSet<u64>)
    ensures
        r@ == run_block::<WithoutThis>(
            (Set::empty(), false, None, None, false),
            ScopeTy::Toplevel,
            *ir,
        ).0,
{
    let mut collector = WithoutThis::new();
    run_visitor(&mut collector, ir);
    collector.fns_without_this
}

} // verus!
