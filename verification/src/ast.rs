//! A JavaScript syntax tree, as the statement-level passes and hoisting read it: names are
//! strings, numbers IEEE-754 bit patterns, and no source positions are kept.

use vstd::prelude::*;

use crate::ir::{Lbl, Mutable, Ref};

verus! {

#[derive(PartialEq, Eq, Structural, Clone, Copy, Debug)]
pub enum VarKind {
    Var,
    Let,
    Const,
}

/// A variable declaration: its kind and, for each declarator, the name bound and the
/// initializer if any.
#[derive(PartialEq, Debug)]
pub struct VarDecl {
    pub kind: VarKind,
    pub decls: Vec<(String, Option<JsExpr>)>,
}

/// A function: its parameter names and body.
#[derive(PartialEq, Debug)]
pub struct JsFunction {
    pub params: Vec<String>,
    pub body: Vec<JsStmt>,
    pub is_async: bool,
    pub is_generator: bool,
}

/// The head of a `for` loop: a declaration or an expression.
#[derive(PartialEq, Debug)]
pub enum ForInit {
    Var(VarDecl),
    Expr(JsExpr),
}

/// The left side of a `for ... in` / `for ... of` loop.
#[derive(PartialEq, Debug)]
pub enum ForHead {
    Var(VarDecl),
    Name(String),
}

#[derive(PartialEq, Debug)]
#[allow(inconsistent_fields)]
pub enum JsStmt {
    Block(Vec<JsStmt>),
    Empty,
    Debugger,
    With { obj: JsExpr, body: Box<JsStmt> },
    Return(Option<JsExpr>),
    Labeled { label: String, body: Box<JsStmt> },
    Break(Option<String>),
    Continue(Option<String>),
    If { test: JsExpr, cons: Box<JsStmt>, alt: Option<Box<JsStmt>> },
    /// The discriminant and the cases, each with its test (none for `default`) and body.
    Switch { discriminant: JsExpr, cases: Vec<(Option<JsExpr>, Vec<JsStmt>)> },
    Throw(JsExpr),
    /// The block, the handler (its parameter and body), and the finalizer.
    Try { block: Vec<JsStmt>, handler: Option<(Option<String>, Vec<JsStmt>)>, finalizer: Option<Vec<JsStmt>> },
    While { test: JsExpr, body: Box<JsStmt> },
    DoWhile { body: Box<JsStmt>, test: JsExpr },
    For { init: Option<ForInit>, test: Option<JsExpr>, update: Option<JsExpr>, body: Box<JsStmt> },
    ForIn { left: ForHead, right: JsExpr, body: Box<JsStmt> },
    ForOf { left: ForHead, right: JsExpr, body: Box<JsStmt> },
    FnDecl { name: String, function: JsFunction },
    Var(VarDecl),
    Expr(JsExpr),
}

#[derive(PartialEq, Eq, Structural, Clone, Copy, Debug)]
pub enum AssignOp {
    Assign,
    /// A compound assignment (`+=` and the like), by its binary operator.
    Compound(crate::ir::BinaryOp),
}

/// What an assignment assigns to.
#[derive(PartialEq, Debug)]
pub enum AssignTarget {
    Name(String),
    Member { obj: Box<JsExpr>, prop: Box<JsExpr> },
}

#[derive(PartialEq, Debug)]
#[allow(inconsistent_fields)]
pub enum JsExpr {
    Ident(String),
    Number(u64),
    Str(String),
    Bool(bool),
    Null,
    This,
    Array(Vec<Option<JsExpr>>),
    /// An object literal: each property's key and value.
    Object(Vec<(JsExpr, JsExpr)>),
    Function { name: Option<String>, function: JsFunction },
    Arrow { params: Vec<String>, body: Vec<JsStmt>, is_async: bool },
    Unary { op: crate::ir::UnaryOp, arg: Box<JsExpr> },
    Binary { op: crate::ir::BinaryOp, left: Box<JsExpr>, right: Box<JsExpr> },
    Assign { op: AssignOp, left: AssignTarget, right: Box<JsExpr> },
    Member { obj: Box<JsExpr>, prop: Box<JsExpr> },
    Cond { test: Box<JsExpr>, cons: Box<JsExpr>, alt: Box<JsExpr> },
    Call { callee: Box<JsExpr>, args: Vec<JsExpr> },
    New { callee: Box<JsExpr>, args: Vec<JsExpr> },
    Sequence(Vec<JsExpr>),
}

// ---------------------------------------------------------------------------
// The scope of names while lowering a syntax tree.
// ---------------------------------------------------------------------------

/// The entries of an association list, later ones shadowing earlier ones.
pub open spec fn assoc<T>(v: Seq<(String, T)>) -> Map<Seq<char>, T>
    decreases v.len(),
{
    if v.len() == 0 {
        Map::empty()
    } else {
        assoc(v.drop_last()).insert(v.last().0@, v.last().1)
    }
}

/// The last entry for `k` is the one the list maps `k` to.
pub proof fn lemma_assoc_last<T>(v: Seq<(String, T)>, j: int, k: Seq<char>)
    requires
        0 <= j < v.len(),
        v[j].0@ == k,
        forall|i: int| j < i < v.len() ==> v[i].0@ != k,
    ensures
        assoc(v).contains_key(k),
        assoc(v)[k] == v[j].1,
    decreases v.len(),
{
    if j < v.len() - 1 {
        lemma_assoc_last(v.drop_last(), j, k);
    }
}

/// A list without an entry for `k` does not map `k`.
pub proof fn lemma_assoc_absent<T>(v: Seq<(String, T)>, k: Seq<char>)
    requires
        forall|i: int| 0 <= i < v.len() ==> v[i].0@ != k,
    ensures
        !assoc(v).contains_key(k),
    decreases v.len(),
{
    if v.len() > 0 {
        lemma_assoc_absent(v.drop_last(), k);
    }
}

/// The last entry for `name` in a list, if any.
fn find_last<'b, T>(v: &'b Vec<(String, T)>, name: &String) -> (r: Option<&'b T>)
    ensures
        match r {
            Some(x) => assoc(v@).contains_key(name@) && assoc(v@)[name@] == *x,
            None => !assoc(v@).contains_key(name@),
        },
{
    let mut i: usize = v.len();
    while i > 0
        invariant
            i <= v@.len(),
            forall|j: int| i <= j < v@.len() ==> v@[j].0@ != name@,
        decreases i,
    {
        i -= 1;
        if v[i].0 == *name {
            proof {
                lemma_assoc_last(v@, i as int, name@);
            }
            return Some(&v[i].1);
        }
    }
    proof {
        lemma_assoc_absent(v@, name@);
    }
    None
}

/// The names in scope while lowering a syntax tree: the mutable bindings and labels declared
/// in this scope, and those of the scopes it is nested in.
pub struct AstScope<'a> {
    pub parent: Option<&'a AstScope<'a>>,
    pub mutables: Vec<(String, Ref<Mutable>)>,
    pub labels: Vec<(String, Ref<Lbl>)>,
}

impl<'a> AstScope<'a> {
    /// The mutable bindings declared in this scope itself.
    pub open spec fn own_mutables(&self) -> Map<Seq<char>, Ref<Mutable>> {
        assoc(self.mutables@)
    }

    pub open spec fn own_labels(&self) -> Map<Seq<char>, Ref<Lbl>> {
        assoc(self.labels@)
    }

    /// All mutable bindings visible: this scope's own shadow those of the enclosing ones.
    pub open spec fn all_mutables(&self) -> Map<Seq<char>, Ref<Mutable>>
        decreases self,
    {
        match self.parent {
            None => self.own_mutables(),
            Some(p) => p.all_mutables().union_prefer_right(self.own_mutables()),
        }
    }

    pub open spec fn all_labels(&self) -> Map<Seq<char>, Ref<Lbl>>
        decreases self,
    {
        match self.parent {
            None => self.own_labels(),
            Some(p) => p.all_labels().union_prefer_right(self.own_labels()),
        }
    }

    pub fn new() -> (r: Self)
        ensures
            r.parent is None,
            r.own_mutables() == Map::<Seq<char>, Ref<Mutable>>::empty(),
            r.own_labels() == Map::<Seq<char>, Ref<Lbl>>::empty(),
    {
        AstScope { parent: None, mutables: Vec::new(), labels: Vec::new() }
    }

    /// A new, empty scope nested in this one.
    pub fn nested(&'a self) -> (r: AstScope<'a>)
        ensures
            r.parent == Some(self),
            r.own_mutables() == Map::<Seq<char>, Ref<Mutable>>::empty(),
            r.own_labels() == Map::<Seq<char>, Ref<Lbl>>::empty(),
            r.all_mutables() == self.all_mutables(),
            r.all_labels() == self.all_labels(),
    {
        let r = AstScope { parent: Some(self), mutables: Vec::new(), labels: Vec::new() };
        assert(r.all_mutables() =~= self.all_mutables());
        assert(r.all_labels() =~= self.all_labels());
        r
    }

    /// The mutable binding a name refers to, looking through the enclosing scopes.
    pub fn get_mutable(&self, name: &String) -> (r: Option<&Ref<Mutable>>)
        ensures
            match r {
                Some(x) => self.all_mutables().contains_key(name@) && self.all_mutables()[name@] == *x,
                None => !self.all_mutables().contains_key(name@),
            },
        decreases self,
    {
        match find_last(&self.mutables, name) {
            Some(x) => Some(x),
            None => match self.parent {
                Some(p) => p.get_mutable(name),
                None => None,
            },
        }
    }

    /// The mutable binding a name refers to in this scope itself.
    pub fn get_mutable_in_current(&self, name: &String) -> (r: Option<&Ref<Mutable>>)
        ensures
            match r {
                Some(x) => self.own_mutables().contains_key(name@) && self.own_mutables()[name@] == *x,
                None => !self.own_mutables().contains_key(name@),
            },
    {
        find_last(&self.mutables, name)
    }

    /// Declares a mutable binding in this scope, with the id `*ids`, which moves on by one.
    pub fn declare_mutable(&mut self, name: String, ids: &mut u64) -> (r: Ref<Mutable>)
        requires
            !old(self).own_mutables().contains_key(name@),
        ensures
            r.id == *old(ids),
            r.name_hint == name,
            *final(ids) == old(ids).wrapping_add(1),
            final(self).parent == old(self).parent,
            final(self).labels == old(self).labels,
            final(self).own_mutables() == old(self).own_mutables().insert(name@, r),
    {
        let r = Ref::new(*ids, name.clone());
        *ids = ids.wrapping_add(1);
        self.mutables.push((name, r.duplicate()));
        assert(self.mutables@.drop_last() == old(self).mutables@);
        r
    }

    /// The label a name refers to, looking through the enclosing scopes.
    pub fn get_label(&self, name: &String) -> (r: Option<&Ref<Lbl>>)
        ensures
            match r {
                Some(x) => self.all_labels().contains_key(name@) && self.all_labels()[name@] == *x,
                None => !self.all_labels().contains_key(name@),
            },
        decreases self,
    {
        match find_last(&self.labels, name) {
            Some(x) => Some(x),
            None => match self.parent {
                Some(p) => p.get_label(name),
                None => None,
            },
        }
    }

    /// Declares a label in this scope, with the id `*ids`, which moves on by one.
    pub fn declare_label(&mut self, name: String, ids: &mut u64) -> (r: Ref<Lbl>)
        requires
            !old(self).own_labels().contains_key(name@),
        ensures
            r.id == *old(ids),
            r.name_hint == name,
            *final(ids) == old(ids).wrapping_add(1),
            final(self).parent == old(self).parent,
            final(self).mutables == old(self).mutables,
            final(self).own_labels() == old(self).own_labels().insert(name@, r),
    {
        let r = Ref::new(*ids, name.clone());
        *ids = ids.wrapping_add(1);
        self.labels.push((name, r.duplicate()));
        assert(self.labels@.drop_last() == old(self).labels@);
        r
    }
}

} // verus!
