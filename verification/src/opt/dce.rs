//! Dead code elimination.

use vstd::prelude::*;

use crate::ir::{
    block_size, count_uses, lemma_nested_block_decreases, nested_blocks, nested_size, occ_block, sat,
    seq_size, stmt_blocks, used_of, Block, Expr, ScopeTy, Stmt, UseCounts,
};
use crate::traverse::{put_blocks, same_frame, take_blocks};

verus! {

/// Dead code elimination.
///
/// Removes unused pure expressions, unused mutable declarations, empty `if`s and `try`s,
/// and everything after a jump up to the end of the block or the next `case`.
/// May profit from multiple passes.
pub struct Dce {
    pub dropping_after_jump: bool,
}

/// Whether an expression can be dropped when its value is never used.
pub open spec fn expr_is_droppable(e: Expr) -> bool {
    match e {
        Expr::ReadMember { .. } | Expr::Delete { .. } | Expr::Yield { .. } | Expr::Await { .. }
        | Expr::Call { .. } => false,
        _ => true,
    }
}

/// Whether a statement survives when code is not being dropped after a jump.
pub open spec fn dce_keeps(s: Stmt, prog: Block) -> bool {
    match s {
        Stmt::Expr { target, expr } => !(used_of(sat(occ_block(prog, target.id))) is Never
            && expr_is_droppable(expr)),
        Stmt::DeclareMutable { target, .. } => !(used_of(sat(occ_block(prog, target.id))) is Never),
        Stmt::IfElse { cons, alt, .. } => !(cons.0@.len() == 0 && alt.0@.len() == 0),
        Stmt::Try { body, finally, .. } => !(body.0@.len() == 0 && finally.0@.len() == 0),
        _ => true,
    }
}

pub open spec fn is_jump(s: Stmt) -> bool {
    s is Return || s is Throw || s is Break || s is Continue
}

/// Whether code is being dropped before statement `s`, given the state after its predecessors.
pub open spec fn dropping_at(before: bool, s: Stmt) -> bool {
    if s is SwitchCase {
        false
    } else {
        before
    }
}

/// Whether code is being dropped after the statements `ins` of a block.
pub open spec fn dropping_after(ins: Seq<Stmt>, prog: Block) -> bool
    decreases ins.len(),
{
    if ins.len() == 0 {
        false
    } else {
        let d = dropping_at(dropping_after(ins.drop_last(), prog), ins.last());
        if d {
            true
        } else if !dce_keeps(ins.last(), prog) {
            false
        } else {
            is_jump(ins.last())
        }
    }
}

/// `b` is the result of eliminating dead code from `a`.
pub open spec fn dce_block_rel(a: Block, b: Block, prog: Block) -> bool
    decreases a,
{
    dce_seq_rel(a.0@, b.0@, prog)
}

pub open spec fn dce_seq_rel(ins: Seq<Stmt>, outs: Seq<Stmt>, prog: Block) -> bool
    decreases ins,
{
    if ins.len() == 0 {
        outs.len() == 0
    } else {
        let d = dropping_at(dropping_after(ins.drop_last(), prog), ins.last());
        if !d && dce_keeps(ins.last(), prog) {
            &&& outs.len() > 0
            &&& dce_seq_rel(ins.drop_last(), outs.drop_last(), prog)
            &&& dce_stmt_rel(ins.last(), outs.last(), prog)
        } else {
            dce_seq_rel(ins.drop_last(), outs, prog)
        }
    }
}

pub open spec fn dce_stmt_rel(s: Stmt, t: Stmt, prog: Block) -> bool
    decreases s,
{
    &&& same_frame(s, t)
    &&& stmt_blocks(t).len() == stmt_blocks(s).len()
    &&& forall|j: int|
        0 <= j < stmt_blocks(s).len() ==> dce_block_rel(
            #[trigger] stmt_blocks(s)[j].1,
            stmt_blocks(t)[j].1,
            prog,
        )
}

impl Dce {
    pub fn new() -> (r: Self)
        ensures
            !r.dropping_after_jump,
    {
        Dce { dropping_after_jump: false }
    }

    /// Decides the fate of one statement of the block being traversed.
    pub fn fold(&mut self, stmt: Stmt, counts: &UseCounts, Ghost(prog): Ghost<Block>) -> (r: Option<Stmt>)
        requires
            counts.describes(prog),
        ensures
            ({
                let d = dropping_at(old(self).dropping_after_jump, stmt);
                if !d && dce_keeps(stmt, prog) {
                    r == Some(stmt) && final(self).dropping_after_jump == is_jump(stmt)
                } else {
                    r is None && final(self).dropping_after_jump == d
                }
            }),
    {
        if let Stmt::SwitchCase { .. } = &stmt {
            self.dropping_after_jump = false;
        }
        if self.dropping_after_jump {
            return None;
        }
        let keep = match &stmt {
            Stmt::Expr { target, expr } => {
                if target.used(counts).is_never() {
                    match expr {
                        Expr::ReadMember { .. } | Expr::Delete { .. } | Expr::Yield { .. }
                        | Expr::Await { .. } | Expr::Call { .. } => true,
                        _ => false,
                    }
                } else {
                    true
                }
            },
            Stmt::DeclareMutable { target, .. } => !target.used(counts).is_never(),
            Stmt::Return { .. } | Stmt::Throw { .. } | Stmt::Break { .. } | Stmt::Continue {
                ..
            } => {
                self.dropping_after_jump = true;
                true
            },
            Stmt::IfElse { cons, alt, .. } => !(cons.0.len() == 0 && alt.0.len() == 0),
            Stmt::Try { body, finally, .. } => !(body.0.len() == 0 && finally.0.len() == 0),
            _ => true,
        };
        if keep {
            Some(stmt)
        } else {
            None
        }
    }

    /// Eliminates dead code in a block and, recursively, in the blocks it holds.
    #[verifier::loop_isolation(false)]
    pub fn fold_block(&mut self, block: Block, ty: ScopeTy, counts: &UseCounts, Ghost(prog): Ghost<Block>) -> (r: Block)
        requires
            counts.describes(prog),
            !old(self).dropping_after_jump,
        ensures
            dce_block_rel(block, r, prog),
            !final(self).dropping_after_jump,
        decreases block,
    {
        let ghost orig = block;
        let Block(children) = block;
        let ghost items = children@;
        let mut out: Vec<Stmt> = Vec::new();
        for stmt in it: children.into_iter()
            invariant
                it.seq() == items,
                items == orig.0@,
                counts.describes(prog),
                self.dropping_after_jump == dropping_after(items.take(it.index() as int), prog),
                dce_seq_rel(items.take(it.index() as int), out@, prog),
        {
            let ghost i = it.index() as int;
            let ghost s0 = stmt;
            assert(items.take(i + 1).drop_last() == items.take(i));
            assert(s0 == items[i]);
            match self.fold(stmt, counts, Ghost(prog)) {
                Some(s) => {
                    let (frame, bs) = take_blocks(s);
                    let mut done: Vec<crate::ir::Block> = Vec::new();
                    for pair in jt: bs.into_iter()
                        invariant
                            jt.seq() == stmt_blocks(s0),
                            0 <= i < items.len(),
                            s0 == items[i],
                            items == orig.0@,
                            self.dropping_after_jump == is_jump(s0),
                            counts.describes(prog),
                            same_frame(s0, frame),
                            done@.len() == jt.index(),
                            forall|j: int|
                                0 <= j < jt.index() ==> dce_block_rel(
                                    #[trigger] stmt_blocks(s0)[j].1,
                                    done@[j],
                                    prog,
                                ),
                    {
                        let ghost j = jt.index() as int;
                        proof {
                            crate::ir::lemma_nested_block_decreases(orig, i, j);
                        }
                        assert(pair == stmt_blocks(s0)[j]);
                        let (t, b) = pair;
                        assert(decreases_to!(orig => b));
                        let nb = self.fold_block(b, t, counts, Ghost(prog));
                        done.push(nb);
                    }
                    let t = put_blocks(frame, done);
                    proof {
                        crate::traverse::lemma_same_frame_trans(s0, frame, t);
                    }
                    assert(dce_stmt_rel(s0, t, prog));
                    let ghost out0 = out@;
                    out.push(t);
                    assert(out@.drop_last() =~= out0);
                },
                None => {},
            }
        }
        assert(items.take(items.len() as int) == items);
        self.dropping_after_jump = false;
        Block(out)
    }

    /// Runs one pass of dead code elimination over a whole program.
    pub fn run(block: Block) -> (r: Block)
        ensures
            dce_block_rel(block, r, block),
    {
        let counts = count_uses(&block);
        let mut dce = Dce::new();
        dce.fold_block(block, ScopeTy::Toplevel, &counts, Ghost(block))
    }
}

/// Whether eliminating dead code from the statements `ins` of a block drops anything,
/// at any depth.
pub open spec fn dce_drops_seq(ins: Seq<Stmt>, prog: Block) -> bool
    decreases ins, 0nat,
{
    if ins.len() == 0 {
        false
    } else {
        let d = dropping_at(dropping_after(ins.drop_last(), prog), ins.last());
        dce_drops_seq(ins.drop_last(), prog) || if !d && dce_keeps(ins.last(), prog) {
            dce_drops_nested(ins.last(), stmt_blocks(ins.last()).len(), prog)
        } else {
            true
        }
    }
}

pub open spec fn dce_drops_nested(s: Stmt, k: nat, prog: Block) -> bool
    decreases s, k,
{
    if k == 0 || k > stmt_blocks(s).len() {
        false
    } else {
        dce_drops_nested(s, (k - 1) as nat, prog) || dce_drops_block(stmt_blocks(s)[k - 1].1, prog)
    }
}

pub open spec fn dce_drops_block(b: Block, prog: Block) -> bool
    decreases b, 1nat,
{
    dce_drops_seq(b.0@, prog)
}

/// Dead code elimination never adds statements: it shrinks a block exactly when it drops
/// something, at any depth, and otherwise leaves its size alone.
pub proof fn law_dce_never_grows(a: Block, b: Block, prog: Block)
    requires
        dce_block_rel(a, b, prog),
    ensures
        block_size(b) <= block_size(a),
        dce_drops_block(a, prog) ==> block_size(b) < block_size(a),
        !dce_drops_block(a, prog) ==> block_size(b) == block_size(a),
    decreases a, 1nat,
{
    lemma_dce_size_seq(a.0@, b.0@, prog);
}

pub proof fn lemma_dce_size_seq(ins: Seq<Stmt>, outs: Seq<Stmt>, prog: Block)
    requires
        dce_seq_rel(ins, outs, prog),
    ensures
        seq_size(outs) <= seq_size(ins),
        dce_drops_seq(ins, prog) ==> seq_size(outs) < seq_size(ins),
        !dce_drops_seq(ins, prog) ==> seq_size(outs) == seq_size(ins),
    decreases ins, 0nat,
{
    if ins.len() > 0 {
        assert(seq_size(ins) == seq_size(ins.drop_last()) + crate::ir::stmt_size(ins.last()));
        let d = dropping_at(dropping_after(ins.drop_last(), prog), ins.last());
        if !d && dce_keeps(ins.last(), prog) {
            lemma_dce_size_seq(ins.drop_last(), outs.drop_last(), prog);
            lemma_dce_size_stmt(ins.last(), outs.last(), prog, stmt_blocks(ins.last()).len());
            assert(dce_stmt_rel(ins.last(), outs.last(), prog));
            assert(stmt_blocks(outs.last()).len() == stmt_blocks(ins.last()).len());
            assert(crate::ir::stmt_size(outs.last()) == 1 + nested_size(outs.last(), stmt_blocks(ins.last()).len()));
            assert(seq_size(outs) == seq_size(outs.drop_last()) + crate::ir::stmt_size(outs.last()));
        } else {
            lemma_dce_size_seq(ins.drop_last(), outs, prog);
            assert(crate::ir::stmt_size(ins.last()) >= 1);
        }
    }
}

pub proof fn lemma_dce_size_stmt(s: Stmt, t: Stmt, prog: Block, k: nat)
    requires
        dce_stmt_rel(s, t, prog),
        k <= stmt_blocks(s).len(),
    ensures
        nested_size(t, k) <= nested_size(s, k),
        dce_drops_nested(s, k, prog) ==> nested_size(t, k) < nested_size(s, k),
        !dce_drops_nested(s, k, prog) ==> nested_size(t, k) == nested_size(s, k),
    decreases s, k,
{
    if k > 0 {
        lemma_dce_size_stmt(s, t, prog, (k - 1) as nat);
        law_dce_never_grows(stmt_blocks(s)[k - 1].1, stmt_blocks(t)[k - 1].1, prog);
    }
}

impl Dce {
    /// Whether one pass over `block` would drop anything, at any depth.
    fn drops_in(block: &Block, counts: &UseCounts, Ghost(prog): Ghost<Block>) -> (r: bool)
        requires
            counts.describes(prog),
        ensures
            r == dce_drops_block(*block, prog),
        decreases *block,
    {
        let ghost items = block.0@;
        let mut dce = Dce::new();
        let mut i: usize = 0;
        let mut found = false;
        while i < block.0.len()
            invariant
                items == block.0@,
                i <= items.len(),
                counts.describes(prog),
                dce.dropping_after_jump == dropping_after(items.take(i as int), prog),
                found == dce_drops_seq(items.take(i as int), prog),
            decreases items.len() - i,
        {
            let s = &block.0[i];
            assert(items.take(i + 1).drop_last() =~= items.take(i as int));
            let ghost before = dce.dropping_after_jump;
            let kept = dce.keeps(s, counts, Ghost(prog));
            if !kept {
                found = true;
            } else {
                let nested = nested_blocks(s);
                let mut j: usize = 0;
                let mut inner = false;
                while j < nested.len()
                    invariant
                        i < items.len(),
                        *s == items[i as int],
                        items == block.0@,
                        counts.describes(prog),
                        j <= nested@.len(),
                        nested@.len() == stmt_blocks(*s).len(),
                        forall|k: int| 0 <= k < nested@.len() ==> *nested@[k] == #[trigger] stmt_blocks(*s)[k].1,
                        inner == dce_drops_nested(*s, j as nat, prog),
                    decreases nested@.len() - j,
                {
                    proof {
                        lemma_nested_block_decreases(*block, i as int, j as int);
                    }
                    if Dce::drops_in(nested[j], counts, Ghost(prog)) {
                        inner = true;
                    }
                    j += 1;
                }
                if inner {
                    found = true;
                }
            }
            i += 1;
        }
        assert(items.take(items.len() as int) =~= items);
        found
    }

    /// Decides whether one statement survives, updating the jump state as `fold` does.
    fn keeps(&mut self, stmt: &Stmt, counts: &UseCounts, Ghost(prog): Ghost<Block>) -> (r: bool)
        requires
            counts.describes(prog),
        ensures
            ({
                let d = dropping_at(old(self).dropping_after_jump, *stmt);
                &&& r == (!d && dce_keeps(*stmt, prog))
                &&& final(self).dropping_after_jump == if r { is_jump(*stmt) } else { d }
            }),
    {
        if let Stmt::SwitchCase { .. } = stmt {
            self.dropping_after_jump = false;
        }
        if self.dropping_after_jump {
            return false;
        }
        match stmt {
            Stmt::Expr { target, expr } => {
                if target.used(counts).is_never() {
                    match expr {
                        Expr::ReadMember { .. } | Expr::Delete { .. } | Expr::Yield { .. }
                        | Expr::Await { .. } | Expr::Call { .. } => true,
                        _ => false,
                    }
                } else {
                    true
                }
            },
            Stmt::DeclareMutable { target, .. } => !target.used(counts).is_never(),
            Stmt::Return { .. } | Stmt::Throw { .. } | Stmt::Break { .. } | Stmt::Continue {
                ..
            } => {
                self.dropping_after_jump = true;
                true
            },
            Stmt::IfElse { cons, alt, .. } => !(cons.0.len() == 0 && alt.0.len() == 0),
            Stmt::Try { body, finally, .. } => !(body.0.len() == 0 && finally.0.len() == 0),
            _ => true,
        }
    }
}

/// `r` is reached from `a` by passes of dead code elimination that each drop something.
pub open spec fn dce_reaches(a: Block, r: Block) -> bool
    decreases block_size(a),
{
    a == r || exists|c: Block|
        #![trigger dce_block_rel(a, c, a)]
        dce_block_rel(a, c, a) && block_size(c) < block_size(a) && dce_reaches(c, r)
}

impl Dce {
    /// Eliminates dead code until a pass would drop nothing.
    #[verifier::loop_isolation(false)]
    pub fn converge(block: Block) -> (r: Block)
        ensures
            dce_reaches(block, r),
            !dce_drops_block(r, r),
    {
        let ghost orig = block;
        let mut b = block;
        loop
            invariant
                forall|x: Block| dce_reaches(b, x) ==> dce_reaches(orig, x),
            decreases block_size(b),
        {
            let counts = count_uses(&b);
            if !Dce::drops_in(&b, &counts, Ghost(b)) {
                assert(dce_reaches(b, b));
                assert(dce_reaches(orig, b));
                return b;
            }
            let ghost prev = b;
            b = Dce::run(b);
            proof {
                law_dce_never_grows(prev, b, prev);
                assert forall|x: Block| dce_reaches(b, x) implies dce_reaches(orig, x) by {
                    assert(dce_reaches(prev, x));
                }
            }
        }
    }
}


/// An expression statement that may have an effect (a call, `delete`, `yield`, `await`, or a
/// property read, which may run a getter) is kept however its value is used.
pub proof fn law_dce_keeps_effects(target: crate::ir::Ref<crate::ir::SSA>, expr: Expr, prog: Block)
    requires
        expr is Call || expr is Delete || expr is Yield || expr is Await || expr is ReadMember,
    ensures
        dce_keeps((Stmt::Expr { target, expr }), prog),
{
}

/// Such a statement, when code is not being dropped after a jump, is in the result.
pub proof fn law_dce_effect_stmt_survives(ins: Seq<Stmt>, outs: Seq<Stmt>, prog: Block, target: crate::ir::Ref<crate::ir::SSA>, expr: Expr)
    requires
        dce_seq_rel(ins, outs, prog),
        ins.len() > 0,
        ins.last() == (Stmt::Expr { target, expr }),
        expr is Call || expr is Delete || expr is Yield || expr is Await || expr is ReadMember,
        !dropping_after(ins.drop_last(), prog),
    ensures
        outs.len() > 0,
        dce_stmt_rel(ins.last(), outs.last(), prog),
{
}

} // verus!
