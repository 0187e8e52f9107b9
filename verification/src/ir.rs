//! The intermediate representation: SSA values, mutable bindings and labels,
//! organised as nested blocks of statements.

use vstd::prelude::*;

verus! {

/// Marker for the kinds of reference the IR distinguishes.
pub trait RefType {}

/// Marker: a value that is assigned exactly once.
pub struct SSA;

/// Marker: a mutable binding.
pub struct Mutable;

/// Marker: a statement label.
pub struct Lbl;

impl RefType for SSA {}

impl RefType for Mutable {}

impl RefType for Lbl {}

/// A reference to an SSA value, mutable binding or label.
/// References are identified by `id` alone; `name_hint` only guides naming on output.
pub struct Ref<T: RefType> {
    pub id: u64,
    pub name_hint: String,
    pub marker: core::marker::PhantomData<T>,
}

/// A reference that does not keep its referent alive; identified by `id`.
pub struct WeakRef<T: RefType> {
    pub id: u64,
    pub marker: core::marker::PhantomData<T>,
}

impl<T: RefType> Ref<T> {
    /// Creates a reference with the given (caller-chosen, unique) id and name hint.
    pub fn new(id: u64, name_hint: String) -> (r: Self)
        ensures
            r.id == id,
            r.name_hint == name_hint,
    {
        Ref { id, name_hint, marker: core::marker::PhantomData }
    }

    /// Creates a reference whose name hint is `_`.
    pub fn dead(id: u64) -> (r: Self)
        ensures
            r.id == id,
            r.name_hint@ == seq!['_'],
    {
        let mut s = String::new();
        push_char(&mut s, '_');
        Ref { id, name_hint: s, marker: core::marker::PhantomData }
    }

    pub fn name_hint(&self) -> (r: &String)
        ensures
            *r == self.name_hint,
    {
        &self.name_hint
    }

    /// A second handle to the same reference.
    pub fn duplicate(&self) -> (r: Self)
        ensures
            r == *self,
    {
        Ref { id: self.id, name_hint: self.name_hint.clone(), marker: core::marker::PhantomData }
    }

    pub fn weak(&self) -> (r: WeakRef<T>)
        ensures
            r.id == self.id,
    {
        WeakRef { id: self.id, marker: core::marker::PhantomData }
    }

    /// How often this reference occurs in a program whose use counts are `counts`.
    pub fn used(&self, counts: &UseCounts) -> (u: Used)
        ensures
            u == used_of(counts.count_of(self.id)),
    {
        counts.used(self.id)
    }
}

/// Appends one character to a string.
#[verifier::external_body]
pub(crate) fn push_char(s: &mut String, c: char)
    ensures
        final(s)@ == old(s)@.push(c),
{
    s.push(c);
}

/// How often a reference occurs: only where it is declared, at one more place, or at several.
pub enum Used {
    Never,
    Once,
    Mult,
}

impl Used {
    pub fn is_never(&self) -> (r: bool)
        ensures
            r == (*self is Never),
    {
        match self {
            Used::Never => true,
            _ => false,
        }
    }

    pub fn is_once(&self) -> (r: bool)
        ensures
            r == (*self is Once),
    {
        match self {
            Used::Once => true,
            _ => false,
        }
    }
}

/// Classification of a (saturated) number of occurrences of a reference.
pub open spec fn used_of(count: nat) -> Used {
    if count <= 1 {
        Used::Never
    } else if count == 2 {
        Used::Once
    } else {
        Used::Mult
    }
}

pub struct Block(pub Vec<Stmt>);

#[allow(inconsistent_fields)]
pub enum Stmt {
    Expr { target: Ref<SSA>, expr: Expr },
    DeclareMutable { target: Ref<Mutable>, val: Ref<SSA> },
    WriteMutable { target: Ref<Mutable>, val: Ref<SSA> },
    WriteGlobal { target: String, val: Ref<SSA> },
    WriteMember { obj: Ref<SSA>, prop: Ref<SSA>, val: Ref<SSA> },
    Return { val: Ref<SSA> },
    Throw { val: Ref<SSA> },
    Break { label: Option<Ref<Lbl>> },
    Continue { label: Option<Ref<Lbl>> },
    Debugger,
    Label { label: Ref<Lbl>, body: Block },
    Loop { body: Block },
    ForEach { kind: ForKind, init: Ref<SSA>, body: Block },
    IfElse { cond: Ref<SSA>, cons: Block, alt: Block },
    Switch { discr: Ref<SSA>, body: Block },
    SwitchCase { val: Option<Ref<SSA>> },
    Try { body: Block, catch: Block, finally: Box<Block> },
}

#[allow(inconsistent_fields)]
pub enum Expr {
    Bool { value: bool },
    /// A number, held as the bit pattern of an IEEE-754 binary64 value.
    Number { value: u64 },
    String { value: String },
    Null,
    Undefined,
    This,
    Read { source: Ref<SSA> },
    ReadMutable { source: Ref<Mutable> },
    ReadGlobal { source: String },
    ReadMember { obj: Ref<SSA>, prop: Ref<SSA> },
    Array { elems: Vec<Option<(EleKind, Ref<SSA>)>> },
    Object { props: Vec<(PropKind, Ref<SSA>, Ref<SSA>)> },
    RegExp { regex: String, flags: String },
    Unary { op: UnaryOp, val: Ref<SSA> },
    Binary { op: BinaryOp, left: Ref<SSA>, right: Ref<SSA> },
    Delete { obj: Ref<SSA>, prop: Ref<SSA> },
    Yield { kind: YieldKind, val: Ref<SSA> },
    Await { val: Ref<SSA> },
    Call { kind: CallKind, base: Ref<SSA>, prop: Option<Ref<SSA>>, args: Vec<(EleKind, Ref<SSA>)> },
    Function { kind: FnKind, body: Block },
    CurrentFunction,
    Argument { index: usize },
}

#[derive(PartialEq, Eq, Structural, Clone, Copy, Debug)]
pub enum UnaryOp {
    Plus,
    Minus,
    Not,
    Tilde,
    Typeof,
    Void,
}

#[derive(PartialEq, Eq, Structural, Clone, Copy, Debug)]
pub enum BinaryOp {
    EqEq,
    NotEq,
    StrictEq,
    NotStrictEq,
    Lt,
    LtEq,
    Gt,
    GtEq,
    ShiftLeft,
    ShiftRight,
    ShiftRightZero,
    Add,
    Sub,
    Mul,
    Div,
    Mod,
    BitOr,
    BitXor,
    BitAnd,
    Exp,
    In,
    Instanceof,
}

#[derive(PartialEq, Eq, Structural, Clone, Copy)]
pub enum ForKind {
    In,
    Of,
}

#[derive(PartialEq, Eq, Structural, Clone, Copy)]
pub enum EleKind {
    Single,
    Spread,
}

#[derive(PartialEq, Eq, Structural, Clone, Copy)]
pub enum PropKind {
    Simple,
    Getter,
    Setter,
}

#[derive(PartialEq, Eq, Structural, Clone, Copy)]
pub enum CallKind {
    Call,
    New,
}

#[derive(PartialEq, Eq, Structural, Clone, Copy)]
pub enum FnKind {
    Func { is_async: bool, is_generator: bool },
    Arrow { is_async: bool },
}

#[derive(PartialEq, Eq, Structural, Clone, Copy)]
pub enum YieldKind {
    Single,
    Delegate,
}

/// Type of scope about to be entered by a traversal.
#[derive(PartialEq, Eq, Structural, Clone, Copy)]
pub enum ScopeTy {
    Normal,
    Toplevel,
    Nonlinear,
    Function,
}

// ---------------------------------------------------------------------------
// Structure of statements: the refs they mention and the blocks they hold.
// ---------------------------------------------------------------------------

/// Ids of the SSA refs an expression reads, in evaluation order.
pub open spec fn expr_uses(e: Expr) -> Seq<u64> {
    match e {
        Expr::Read { source } => seq![source.id],
        Expr::ReadMember { obj, prop } => seq![obj.id, prop.id],
        Expr::Array { elems } => elems_uses(elems@),
        Expr::Object { props } => props_uses(props@),
        Expr::Unary { val, .. } => seq![val.id],
        Expr::Binary { left, right, .. } => seq![left.id, right.id],
        Expr::Delete { obj, prop } => seq![obj.id, prop.id],
        Expr::Yield { val, .. } => seq![val.id],
        Expr::Await { val } => seq![val.id],
        Expr::Call { base, prop, args, .. } => seq![base.id] + opt_uses(prop) + args_uses(args@),
        _ => Seq::empty(),
    }
}

pub open spec fn opt_uses(r: Option<Ref<SSA>>) -> Seq<u64> {
    match r {
        Some(r) => seq![r.id],
        None => Seq::empty(),
    }
}

pub open spec fn elems_uses(elems: Seq<Option<(EleKind, Ref<SSA>)>>) -> Seq<u64>
    decreases elems.len(),
{
    if elems.len() == 0 {
        Seq::empty()
    } else {
        elems_uses(elems.drop_last()) + match elems.last() {
            Some((_, r)) => seq![r.id],
            None => Seq::empty(),
        }
    }
}

pub open spec fn props_uses(props: Seq<(PropKind, Ref<SSA>, Ref<SSA>)>) -> Seq<u64>
    decreases props.len(),
{
    if props.len() == 0 {
        Seq::empty()
    } else {
        props_uses(props.drop_last()) + seq![props.last().1.id, props.last().2.id]
    }
}

pub open spec fn args_uses(args: Seq<(EleKind, Ref<SSA>)>) -> Seq<u64>
    decreases args.len(),
{
    if args.len() == 0 {
        Seq::empty()
    } else {
        args_uses(args.drop_last()) + seq![args.last().1.id]
    }
}

/// Ids of the SSA refs a statement reads directly (not inside nested blocks), in order.
pub open spec fn stmt_uses(s: Stmt) -> Seq<u64> {
    match s {
        Stmt::Expr { expr, .. } => expr_uses(expr),
        Stmt::DeclareMutable { val, .. } => seq![val.id],
        Stmt::WriteMutable { val, .. } => seq![val.id],
        Stmt::WriteGlobal { val, .. } => seq![val.id],
        Stmt::WriteMember { obj, prop, val } => seq![obj.id, prop.id, val.id],
        Stmt::Return { val } => seq![val.id],
        Stmt::Throw { val } => seq![val.id],
        Stmt::ForEach { init, .. } => seq![init.id],
        Stmt::IfElse { cond, .. } => seq![cond.id],
        Stmt::Switch { discr, .. } => seq![discr.id],
        Stmt::SwitchCase { val } => opt_uses(val),
        _ => Seq::empty(),
    }
}

/// Every ref id a statement mentions directly: its uses, plus declared targets,
/// mutable bindings and labels.
pub open spec fn stmt_ids(s: Stmt) -> Seq<u64> {
    match s {
        Stmt::Expr { target, expr } => seq![target.id] + match expr {
            Expr::ReadMutable { source } => seq![source.id],
            _ => expr_uses(expr),
        },
        Stmt::DeclareMutable { target, val } => seq![target.id, val.id],
        Stmt::WriteMutable { target, val } => seq![target.id, val.id],
        Stmt::Break { label } => lbl_ids(label),
        Stmt::Continue { label } => lbl_ids(label),
        Stmt::Label { label, .. } => seq![label.id],
        _ => stmt_uses(s),
    }
}

pub open spec fn lbl_ids(l: Option<Ref<Lbl>>) -> Seq<u64> {
    match l {
        Some(l) => seq![l.id],
        None => Seq::empty(),
    }
}

/// The blocks a statement holds directly, in traversal order, with the kind of scope each opens.
pub open spec fn stmt_blocks(s: Stmt) -> Seq<(ScopeTy, Block)> {
    match s {
        Stmt::Expr { expr: Expr::Function { body, .. }, .. } => seq![(ScopeTy::Function, body)],
        Stmt::Label { body, .. } => seq![(ScopeTy::Normal, body)],
        Stmt::Loop { body } => seq![(ScopeTy::Nonlinear, body)],
        Stmt::ForEach { body, .. } => seq![(ScopeTy::Nonlinear, body)],
        Stmt::IfElse { cons, alt, .. } => seq![(ScopeTy::Normal, cons), (ScopeTy::Normal, alt)],
        Stmt::Switch { body, .. } => seq![(ScopeTy::Normal, body)],
        Stmt::Try { body, catch, finally } => seq![
            (ScopeTy::Normal, body),
            (ScopeTy::Normal, catch),
            (ScopeTy::Normal, *finally),
        ],
        _ => Seq::empty(),
    }
}

// ---------------------------------------------------------------------------
// Use counts.
// ---------------------------------------------------------------------------

/// Number of times `id` occurs in `ids`.
pub open spec fn count_in(ids: Seq<u64>, id: u64) -> nat
    decreases ids.len(),
{
    if ids.len() == 0 {
        0
    } else {
        count_in(ids.drop_last(), id) + if ids.last() == id { 1nat } else { 0nat }
    }
}

/// Number of occurrences of `id` anywhere in a block, nested blocks included.
pub open spec fn occ_block(b: Block, id: u64) -> nat
    decreases b,
{
    occ_stmts(b.0@, id)
}

pub open spec fn occ_stmts(s: Seq<Stmt>, id: u64) -> nat
    decreases s,
{
    if s.len() == 0 {
        0
    } else {
        occ_stmts(s.drop_last(), id) + occ_stmt(s.last(), id)
    }
}

pub open spec fn occ_stmt(s: Stmt, id: u64) -> nat
    decreases s,
{
    count_in(stmt_ids(s), id) + match s {
        Stmt::Expr { expr: Expr::Function { body, .. }, .. } => occ_block(body, id),
        Stmt::Label { body, .. } => occ_block(body, id),
        Stmt::Loop { body } => occ_block(body, id),
        Stmt::ForEach { body, .. } => occ_block(body, id),
        Stmt::IfElse { cons, alt, .. } => occ_block(cons, id) + occ_block(alt, id),
        Stmt::Switch { body, .. } => occ_block(body, id),
        Stmt::Try { body, catch, finally } => occ_block(body, id) + occ_block(catch, id)
            + occ_block(*finally, id),
        _ => 0,
    }
}

/// Saturates a count at 3: enough to tell "never", "once" and "several" apart.
pub open spec fn sat(n: nat) -> nat {
    if n >= 3 { 3 } else { n }
}

/// Occurrence counts of every ref in a program, saturated at 3.
pub struct UseCounts {
    pub counts: std::collections::HashMap<u64, u64>,
}

impl UseCounts {
    pub open spec fn count_of(&self, id: u64) -> nat {
        if self.counts@.contains_key(id) {
            self.counts@[id] as nat
        } else {
            0
        }
    }

    /// The counts describe `b`: each is the saturated number of occurrences in `b`.
    pub open spec fn describes(&self, b: Block) -> bool {
        forall|id: u64| #[trigger] self.count_of(id) == sat(occ_block(b, id))
    }

    pub fn used(&self, id: u64) -> (u: Used)
        ensures
            u == used_of(self.count_of(id)),
    {
        broadcast use vstd::std_specs::hash::group_hash_axioms;
        match self.counts.get(&id) {
            None => Used::Never,
            Some(c) => {
                if *c <= 1 {
                    Used::Never
                } else if *c == 2 {
                    Used::Once
                } else {
                    Used::Mult
                }
            },
        }
    }
}

} // verus!

verus! {

/// Each block a statement holds is structurally smaller than the block holding the statement.
pub proof fn lemma_nested_block_decreases(b: Block, k: int, j: int)
    requires
        0 <= k < b.0@.len(),
        0 <= j < stmt_blocks(b.0@[k]).len(),
    ensures
        decreases_to!(b => stmt_blocks(b.0@[k])[j].1),
{
    let s = b.0@[k];
    assert(decreases_to!(b => b.0));
    assert(decreases_to!(b.0 => b.0@));
    assert(decreases_to!(b.0@ => b.0@[k]));
    match s {
        Stmt::Expr { target, expr } => {
            match expr {
                Expr::Function { kind, body } => {
                    assert(decreases_to!(s => expr));
                    assert(decreases_to!(expr => body));
                },
                _ => {},
            }
        },
        Stmt::Try { body, catch, finally } => {
            assert(decreases_to!(s => body));
            assert(decreases_to!(s => catch));
            assert(decreases_to!(s => finally));
        },
        _ => {},
    }
}

/// The nested blocks of a statement, borrowed, in traversal order.
pub fn nested_blocks(s: &Stmt) -> (r: Vec<&Block>)
    ensures
        r@.len() == stmt_blocks(*s).len(),
        forall|j: int| 0 <= j < r@.len() ==> *r@[j] == #[trigger] stmt_blocks(*s)[j].1,
{
    let mut r: Vec<&Block> = Vec::new();
    match s {
        Stmt::Expr { expr: Expr::Function { body, .. }, .. } => r.push(body),
        Stmt::Label { body, .. } => r.push(body),
        Stmt::Loop { body } => r.push(body),
        Stmt::ForEach { body, .. } => r.push(body),
        Stmt::IfElse { cons, alt, .. } => {
            r.push(cons);
            r.push(alt);
        },
        Stmt::Switch { body, .. } => r.push(body),
        Stmt::Try { body, catch, finally } => {
            r.push(body);
            r.push(catch);
            r.push(&**finally);
        },
        _ => {},
    }
    r
}

pub fn elems_uses_exec(elems: &Vec<Option<(EleKind, Ref<SSA>)>>, out: &mut Vec<u64>)
    ensures
        final(out)@ == old(out)@ + elems_uses(elems@),
{
    let mut i: usize = 0;
    while i < elems.len()
        invariant
            i <= elems@.len(),
            out@ == old(out)@ + elems_uses(elems@.take(i as int)),
        decreases elems@.len() - i,
    {
        assert(elems@.take(i + 1).drop_last() == elems@.take(i as int));
        match &elems[i] {
            Some((_, r)) => out.push(r.id),
            None => {},
        }
        i += 1;
    }
    assert(elems@.take(elems@.len() as int) == elems@);
}

pub fn props_uses_exec(props: &Vec<(PropKind, Ref<SSA>, Ref<SSA>)>, out: &mut Vec<u64>)
    ensures
        final(out)@ == old(out)@ + props_uses(props@),
{
    let mut i: usize = 0;
    while i < props.len()
        invariant
            i <= props@.len(),
            out@ == old(out)@ + props_uses(props@.take(i as int)),
        decreases props@.len() - i,
    {
        assert(props@.take(i + 1).drop_last() == props@.take(i as int));
        out.push(props[i].1.id);
        out.push(props[i].2.id);
        i += 1;
    }
    assert(props@.take(props@.len() as int) == props@);
}

pub fn args_uses_exec(args: &Vec<(EleKind, Ref<SSA>)>, out: &mut Vec<u64>)
    ensures
        final(out)@ == old(out)@ + args_uses(args@),
{
    let mut i: usize = 0;
    while i < args.len()
        invariant
            i <= args@.len(),
            out@ == old(out)@ + args_uses(args@.take(i as int)),
        decreases args@.len() - i,
    {
        assert(args@.take(i + 1).drop_last() == args@.take(i as int));
        out.push(args[i].1.id);
        i += 1;
    }
    assert(args@.take(args@.len() as int) == args@);
}

/// The SSA refs an expression reads, in evaluation order.
pub fn expr_uses_exec(e: &Expr) -> (r: Vec<u64>)
    ensures
        r@ == expr_uses(*e),
{
    let mut r: Vec<u64> = Vec::new();
    match e {
        Expr::Read { source } => r.push(source.id),
        Expr::ReadMember { obj, prop } => {
            r.push(obj.id);
            r.push(prop.id);
        },
        Expr::Array { elems } => elems_uses_exec(elems, &mut r),
        Expr::Object { props } => props_uses_exec(props, &mut r),
        Expr::Unary { val, .. } => r.push(val.id),
        Expr::Binary { left, right, .. } => {
            r.push(left.id);
            r.push(right.id);
        },
        Expr::Delete { obj, prop } => {
            r.push(obj.id);
            r.push(prop.id);
        },
        Expr::Yield { val, .. } => r.push(val.id),
        Expr::Await { val } => r.push(val.id),
        Expr::Call { base, prop, args, .. } => {
            r.push(base.id);
            match prop {
                Some(p) => r.push(p.id),
                None => {},
            }
            args_uses_exec(args, &mut r);
        },
        _ => {},
    }
    assert(r@ =~= expr_uses(*e));
    r
}

/// The SSA refs a statement reads directly, in order.
pub fn stmt_uses_exec(s: &Stmt) -> (r: Vec<u64>)
    ensures
        r@ == stmt_uses(*s),
{
    let mut r: Vec<u64> = Vec::new();
    match s {
        Stmt::Expr { expr, .. } => {
            return expr_uses_exec(expr);
        },
        Stmt::DeclareMutable { val, .. } => r.push(val.id),
        Stmt::WriteMutable { val, .. } => r.push(val.id),
        Stmt::WriteGlobal { val, .. } => r.push(val.id),
        Stmt::WriteMember { obj, prop, val } => {
            r.push(obj.id);
            r.push(prop.id);
            r.push(val.id);
        },
        Stmt::Return { val } => r.push(val.id),
        Stmt::Throw { val } => r.push(val.id),
        Stmt::ForEach { init, .. } => r.push(init.id),
        Stmt::IfElse { cond, .. } => r.push(cond.id),
        Stmt::Switch { discr, .. } => r.push(discr.id),
        Stmt::SwitchCase { val } => match val {
            Some(v) => r.push(v.id),
            None => {},
        },
        _ => {},
    }
    assert(r@ =~= stmt_uses(*s));
    r
}

/// Every ref id a statement mentions directly.
pub fn stmt_ids_exec(s: &Stmt) -> (r: Vec<u64>)
    ensures
        r@ == stmt_ids(*s),
{
    let mut r: Vec<u64> = Vec::new();
    match s {
        Stmt::Expr { target, expr } => {
            r.push(target.id);
            match expr {
                Expr::ReadMutable { source } => r.push(source.id),
                _ => {
                    let u = expr_uses_exec(expr);
                    let mut u = u;
                    r.append(&mut u);
                },
            }
        },
        Stmt::DeclareMutable { target, val } => {
            r.push(target.id);
            r.push(val.id);
        },
        Stmt::WriteMutable { target, val } => {
            r.push(target.id);
            r.push(val.id);
        },
        Stmt::Break { label } => match label {
            Some(l) => r.push(l.id),
            None => {},
        },
        Stmt::Continue { label } => match label {
            Some(l) => r.push(l.id),
            None => {},
        },
        Stmt::Label { label, .. } => r.push(label.id),
        _ => {
            return stmt_uses_exec(s);
        },
    }
    assert(r@ =~= stmt_ids(*s));
    r
}

pub open spec fn cnt(m: Map<u64, u64>, id: u64) -> nat {
    if m.contains_key(id) { m[id] as nat } else { 0 }
}

pub open spec fn bounded(m: Map<u64, u64>) -> bool {
    forall|id: u64| #[trigger] cnt(m, id) <= 3
}

fn bump(counts: &mut std::collections::HashMap<u64, u64>, id: u64)
    requires
        bounded(old(counts)@),
    ensures
        bounded(final(counts)@),
        forall|x: u64| #[trigger] cnt(final(counts)@, x) == if x == id {
            sat(cnt(old(counts)@, x) + 1)
        } else {
            cnt(old(counts)@, x)
        },
{
    broadcast use vstd::std_specs::hash::group_hash_axioms;
    let c: u64 = match counts.get(&id) {
        Some(c) => *c,
        None => 0,
    };
    assert(c == cnt(old(counts)@, id));
    assert(cnt(old(counts)@, id) <= 3);
    let n: u64 = if c >= 3 { 3 } else { c + 1 };
    counts.insert(id, n);
    assert forall|x: u64| #[trigger] cnt(counts@, x) <= 3 by {
        if x != id {
            assert(cnt(old(counts)@, x) <= 3);
        }
    }
}

fn add_ids(counts: &mut std::collections::HashMap<u64, u64>, ids: &Vec<u64>)
    requires
        bounded(old(counts)@),
    ensures
        bounded(final(counts)@),
        forall|x: u64| #[trigger] cnt(final(counts)@, x) == sat(cnt(old(counts)@, x) + count_in(ids@, x)),
{
    let mut i: usize = 0;
    while i < ids.len()
        invariant
            i <= ids@.len(),
            bounded(counts@),
            forall|x: u64| #[trigger] cnt(counts@, x) == sat(cnt(old(counts)@, x) + count_in(ids@.take(i as int), x)),
        decreases ids@.len() - i,
    {
        assert(ids@.take(i + 1).drop_last() == ids@.take(i as int));
        let ghost before = counts@;
        bump(counts, ids[i]);
        assert forall|x: u64| #[trigger] cnt(counts@, x) == sat(cnt(old(counts)@, x) + count_in(ids@.take(i + 1), x)) by {
            assert(cnt(before, x) == sat(cnt(old(counts)@, x) + count_in(ids@.take(i as int), x)));
        }
        i += 1;
    }
    assert(ids@.take(ids@.len() as int) == ids@);
}

fn count_block(b: &Block, counts: &mut std::collections::HashMap<u64, u64>)
    requires
        bounded(old(counts)@),
    ensures
        bounded(final(counts)@),
        forall|x: u64| #[trigger] cnt(final(counts)@, x) == sat(cnt(old(counts)@, x) + occ_block(*b, x)),
    decreases *b,
{
    let mut i: usize = 0;
    while i < b.0.len()
        invariant
            i <= b.0@.len(),
            bounded(counts@),
            forall|x: u64| #[trigger] cnt(counts@, x) == sat(cnt(old(counts)@, x) + occ_stmts(b.0@.take(i as int), x)),
        decreases b.0@.len() - i,
    {
        let s = &b.0[i];
        assert(b.0@.take(i + 1).drop_last() == b.0@.take(i as int));
        let ghost before = counts@;
        let ids = stmt_ids_exec(s);
        add_ids(counts, &ids);
        let nested = nested_blocks(s);
        let ghost mid = counts@;
        let mut j: usize = 0;
        while j < nested.len()
            invariant
                i < b.0@.len(),
                *s == b.0@[i as int],
                j <= nested@.len(),
                nested@.len() == stmt_blocks(*s).len(),
                forall|k: int| 0 <= k < nested@.len() ==> *nested@[k] == #[trigger] stmt_blocks(*s)[k].1,
                bounded(counts@),
                forall|x: u64| #[trigger] cnt(counts@, x) == sat(cnt(mid, x) + blocks_occ(stmt_blocks(*s).take(j as int), x)),
            decreases nested@.len() - j,
        {
            proof {
                lemma_nested_block_decreases(*b, i as int, j as int);
            }
            assert(stmt_blocks(*s).take(j + 1).drop_last() == stmt_blocks(*s).take(j as int));
            let ghost before_j = counts@;
            count_block(nested[j], counts);
            assert forall|x: u64| #[trigger] cnt(counts@, x) == sat(cnt(mid, x) + blocks_occ(stmt_blocks(*s).take(j + 1), x)) by {
                assert(cnt(before_j, x) == sat(cnt(mid, x) + blocks_occ(stmt_blocks(*s).take(j as int), x)));
            }
            j += 1;
        }
        assert(stmt_blocks(*s).take(nested@.len() as int) == stmt_blocks(*s));
        assert forall|x: u64| #[trigger] cnt(counts@, x) == sat(cnt(old(counts)@, x) + occ_stmts(b.0@.take(i + 1), x)) by {
            lemma_occ_stmt_split(*s, x);
            assert(cnt(before, x) == sat(cnt(old(counts)@, x) + occ_stmts(b.0@.take(i as int), x)));
        }
        i += 1;
    }
    assert(b.0@.take(b.0@.len() as int) == b.0@);
}

/// Occurrences of `id` across a sequence of blocks.
pub open spec fn blocks_occ(bs: Seq<(ScopeTy, Block)>, id: u64) -> nat
    decreases bs.len(),
{
    if bs.len() == 0 {
        0
    } else {
        blocks_occ(bs.drop_last(), id) + occ_block(bs.last().1, id)
    }
}

pub proof fn lemma_occ_stmt_split(s: Stmt, id: u64)
    ensures
        occ_stmt(s, id) == count_in(stmt_ids(s), id) + blocks_occ(stmt_blocks(s), id),
{
    reveal_with_fuel(blocks_occ, 4);
    let bs = stmt_blocks(s);
    if bs.len() == 1 {
        assert(bs.drop_last().len() == 0);
    } else if bs.len() == 2 {
        assert(bs.drop_last().drop_last().len() == 0);
    } else if bs.len() == 3 {
        assert(bs.drop_last().drop_last().drop_last().len() == 0);
    }
}

/// Counts how often every ref occurs in `b`, saturating at 3.
pub fn count_uses(b: &Block) -> (r: UseCounts)
    ensures
        r.describes(*b),
{
    let mut counts: std::collections::HashMap<u64, u64> = std::collections::HashMap::new();
    count_block(b, &mut counts);
    let r = UseCounts { counts };
    assert forall|id: u64| #[trigger] r.count_of(id) == sat(occ_block(*b, id)) by {
        assert(cnt(counts@, id) == r.count_of(id));
    }
    r
}

/// An id in a prefix of the uses is among the uses.
pub proof fn lemma_contains_concat(a: Seq<u64>, b: Seq<u64>, x: u64)
    requires
        a.contains(x),
    ensures
        (a + b).contains(x),
{
    let j = choose|j: int| 0 <= j < a.len() && a[j] == x;
    assert((a + b)[j] == x);
}

pub proof fn lemma_elems_uses_mem(elems: Seq<Option<(EleKind, Ref<SSA>)>>, i: int)
    requires
        0 <= i < elems.len(),
    ensures
        elems[i] matches Some((_, v)) ==> elems_uses(elems).contains(v.id),
    decreases elems.len(),
{
    if let Some((_, v)) = elems[i] {
        if i == elems.len() - 1 {
            assert(elems_uses(elems)[elems_uses(elems.drop_last()).len() as int] == v.id);
        } else {
            assert(elems.drop_last()[i] == elems[i]);
            lemma_elems_uses_mem(elems.drop_last(), i);
            lemma_contains_concat(elems_uses(elems.drop_last()), match elems.last() {
                Some((_, r)) => seq![r.id],
                None => Seq::empty(),
            }, v.id);
        }
    }
}

pub proof fn lemma_props_uses_mem(props: Seq<(PropKind, Ref<SSA>, Ref<SSA>)>, i: int)
    requires
        0 <= i < props.len(),
    ensures
        props_uses(props).contains(props[i].1.id),
        props_uses(props).contains(props[i].2.id),
    decreases props.len(),
{
    let pre = props_uses(props.drop_last());
    if i == props.len() - 1 {
        assert(props_uses(props)[pre.len() as int] == props[i].1.id);
        assert(props_uses(props)[pre.len() + 1int] == props[i].2.id);
    } else {
        assert(props.drop_last()[i] == props[i]);
        lemma_props_uses_mem(props.drop_last(), i);
        lemma_contains_concat(pre, seq![props.last().1.id, props.last().2.id], props[i].1.id);
        lemma_contains_concat(pre, seq![props.last().1.id, props.last().2.id], props[i].2.id);
    }
}

pub proof fn lemma_args_uses_mem(args: Seq<(EleKind, Ref<SSA>)>, i: int)
    requires
        0 <= i < args.len(),
    ensures
        args_uses(args).contains(args[i].1.id),
    decreases args.len(),
{
    let pre = args_uses(args.drop_last());
    if i == args.len() - 1 {
        assert(args_uses(args)[pre.len() as int] == args[i].1.id);
    } else {
        assert(args.drop_last()[i] == args[i]);
        lemma_args_uses_mem(args.drop_last(), i);
        lemma_contains_concat(pre, seq![args.last().1.id], args[i].1.id);
    }
}

/// Number of statements in a block, nested blocks included.
pub open spec fn block_size(b: Block) -> nat
    decreases b, 1nat,
{
    seq_size(b.0@)
}

pub open spec fn seq_size(ss: Seq<Stmt>) -> nat
    decreases ss, 0nat,
{
    if ss.len() == 0 {
        0
    } else {
        seq_size(ss.drop_last()) + stmt_size(ss.last())
    }
}

pub open spec fn stmt_size(s: Stmt) -> nat
    decreases s, 4nat,
{
    1 + nested_size(s, stmt_blocks(s).len())
}

/// Number of statements in the first `k` blocks a statement holds.
pub open spec fn nested_size(s: Stmt, k: nat) -> nat
    decreases s, k,
{
    if k == 0 || k > stmt_blocks(s).len() {
        0
    } else {
        nested_size(s, (k - 1) as nat) + block_size(stmt_blocks(s)[k - 1].1)
    }
}

} // verus!
