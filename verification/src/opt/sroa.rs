//! Scalar replacement of aggregates (objects).

use vstd::prelude::*;

use std::collections::{HashMap, HashSet};

use crate::anal::fns::WithoutThis;
use crate::collections::ZeroOneMany;
use crate::ir::{
    lemma_nested_block_decreases, occ_block, stmt_blocks, Block, EleKind, Expr, Mutable, PropKind, Ref,
    ScopeTy, Stmt, SSA,
};
use crate::opt::redundant_obj::{intern, intern_name, names_view};
use crate::traverse::{put_blocks, same_frame, take_blocks};
use crate::visit::{run_block, run_visitor, Visitor};

use vstd::std_specs::iter::IteratorSpec;
use vstd::string::StringExecFns;

verus! {

/// What the analysis knows of one property of an object.
#[derive(Clone, Copy)]
pub struct PropInfo {
    /// Every function stored in the property leaves `this` alone.
    pub safe_for_call: bool,
    /// The property is called as a method.
    pub saw_call: bool,
}

/// Whether a property name is not one of those every object inherits.
pub open spec fn safe_prop(p: Seq<char>) -> bool {
    &&& p != "constructor"@
    &&& p != "hasOwnProperty"@
    &&& p != "isPrototypeOf"@
    &&& p != "propertyIsEnumerable"@
    &&& p != "toLocaleString"@
    &&& p != "toString"@
    &&& p != "valueOf"@
    &&& p != "__defineGetter__"@
    &&& p != "__defineSetter__"@
    &&& p != "__lookupGetter__"@
    &&& p != "__lookupSetter__"@
    &&& p != "__proto__"@
}

/// Whether a property name is not one of those every object inherits.
pub fn is_safe_prop(p: &String) -> (r: bool)
    ensures
        r == safe_prop(p@),
{
    !(*p == String::from_str("constructor") || *p == String::from_str("hasOwnProperty")
        || *p == String::from_str("isPrototypeOf") || *p == String::from_str("propertyIsEnumerable")
        || *p == String::from_str("toLocaleString") || *p == String::from_str("toString")
        || *p == String::from_str("valueOf") || *p == String::from_str("__defineGetter__")
        || *p == String::from_str("__defineSetter__") || *p == String::from_str("__lookupGetter__")
        || *p == String::from_str("__lookupSetter__") || *p == String::from_str("__proto__"))
}

/// The ref `prop` holds a known string that is a safe property name.
pub open spec fn known_safe(names: Seq<Seq<char>>, strings: Map<u64, u64>, prop: u64) -> bool {
    &&& strings.contains_key(prop)
    &&& strings[prop] < names.len()
    &&& safe_prop(names[strings[prop] as int])
}

// ---------------------------------------------------------------------------
// First analysis: the object literals whose properties all have known safe names.
// ---------------------------------------------------------------------------

/// Abstract state of the first analysis: the functions without `this`, the names met so
/// far, the index of the string each known-string ref holds, and the candidate objects,
/// each with what is known of its properties (by name index).
pub struct DeclState {
    pub fns: Set<u64>,
    pub names: Seq<Seq<char>>,
    pub strings: Map<u64, u64>,
    pub objs: Map<u64, Map<u64, PropInfo>>,
}

/// The properties of an object literal, if all are plain with known safe names.
pub open spec fn decl_props(st: DeclState, props: Seq<(PropKind, Ref<SSA>, Ref<SSA>)>) -> Option<Map<u64, PropInfo>>
    decreases props.len(),
{
    if props.len() == 0 {
        Some(Map::empty())
    } else {
        match decl_props(st, props.drop_last()) {
            Some(m) => {
                let p = props.last();
                if p.0 == PropKind::Simple && known_safe(st.names, st.strings, p.1.id) {
                    Some(m.insert(st.strings[p.1.id], PropInfo { safe_for_call: st.fns.contains(p.2.id), saw_call: false }))
                } else {
                    None
                }
            },
            None => None,
        }
    }
}

pub open spec fn decl_visit(st: DeclState, s: Stmt) -> DeclState {
    match s {
        Stmt::Expr { target, expr: Expr::String { value } } => {
            let (names, i) = intern(st.names, value@);
            DeclState { names, strings: st.strings.insert(target.id, i), ..st }
        },
        Stmt::Expr { target, expr: Expr::Object { props } } => match decl_props(st, props@) {
            Some(m) => DeclState { objs: st.objs.insert(target.id, m), ..st },
            None => st,
        },
        _ => st,
    }
}

pub open spec fn objs_view(m: HashMap<u64, HashMap<u64, PropInfo>>) -> Map<u64, Map<u64, PropInfo>> {
    m@.map_values(|inner: HashMap<u64, PropInfo>| inner@)
}

pub struct CollectObjDeclInfo {
    pub fns_without_this: HashSet<u64>,
    pub names: Vec<String>,
    pub known_strings: HashMap<u64, u64>,
    pub known_objs: HashMap<u64, HashMap<u64, PropInfo>>,
}

/// Whether `prop` holds a known string that is a safe property name; its name index if so.
fn known_safe_exec(names: &Vec<String>, strings: &HashMap<u64, u64>, prop: u64) -> (r: Option<u64>)
    ensures
        match r {
            Some(i) => known_safe(names_view(names@), strings@, prop) && i == strings@[prop],
            None => !known_safe(names_view(names@), strings@, prop),
        },
{
    broadcast use vstd::std_specs::hash::group_hash_axioms;
    match strings.get(&prop) {
        Some(i) => {
            let i = *i;
            if i < names.len() as u64 && is_safe_prop(&names[i as usize]) {
                Some(i)
            } else {
                None
            }
        },
        None => None,
    }
}

impl CollectObjDeclInfo {
    fn decl_props(&self, props: &Vec<(PropKind, Ref<SSA>, Ref<SSA>)>) -> (r: Option<HashMap<u64, PropInfo>>)
        ensures
            match r {
                Some(m) => decl_props(self.state(), props@) == Some(m@),
                None => decl_props(self.state(), props@) is None,
            },
    {
        broadcast use vstd::std_specs::hash::group_hash_axioms;
        let mut m: HashMap<u64, PropInfo> = HashMap::new();
        assert(m@ =~= Map::empty());
        let mut i: usize = 0;
        while i < props.len()
            invariant
                i <= props@.len(),
                decl_props(self.state(), props@.take(i as int)) == Some(m@),
            decreases props@.len() - i,
        {
            assert(props@.take(i + 1).drop_last() =~= props@.take(i as int));
            match props[i].0 {
                PropKind::Simple => {},
                _ => {
                    proof {
                        lemma_decl_props_none(self.state(), props@, i + 1);
                    }
                    return None;
                },
            }
            match known_safe_exec(&self.names, &self.known_strings, props[i].1.id) {
                Some(k) => {
                    let info = PropInfo { safe_for_call: self.fns_without_this.contains(&props[i].2.id), saw_call: false };
                    m.insert(k, info);
                },
                None => {
                    proof {
                        lemma_decl_props_none(self.state(), props@, i + 1);
                    }
                    return None;
                },
            }
            i += 1;
        }
        assert(props@.take(props@.len() as int) =~= props@);
        Some(m)
    }
}

/// Once some property is refused, so is the literal.
pub proof fn lemma_decl_props_none(st: DeclState, props: Seq<(PropKind, Ref<SSA>, Ref<SSA>)>, k: int)
    requires
        0 < k <= props.len(),
        decl_props(st, props.take(k)) is None,
    ensures
        decl_props(st, props) is None,
    decreases props.len() - k,
{
    if k < props.len() {
        assert(props.take(k + 1).drop_last() =~= props.take(k));
        lemma_decl_props_none(st, props, k + 1);
    } else {
        assert(props.take(k) =~= props);
    }
}

impl Visitor for CollectObjDeclInfo {
    type St = DeclState;

    type Saved = ();

    type Sv = ();

    open spec fn state(&self) -> DeclState {
        DeclState {
            fns: self.fns_without_this@,
            names: names_view(self.names@),
            strings: self.known_strings@,
            objs: objs_view(self.known_objs),
        }
    }

    open spec fn saved_state(saved: &()) -> () {
        ()
    }

    open spec fn spec_visit(st: DeclState, s: Stmt) -> DeclState {
        decl_visit(st, s)
    }

    open spec fn spec_visit_ref_use(st: DeclState, id: u64) -> DeclState {
        st
    }

    open spec fn spec_enter(st: DeclState, ty: ScopeTy, b: Block) -> (DeclState, ()) {
        (st, ())
    }

    open spec fn spec_exit(st: DeclState, ty: ScopeTy, saved: ()) -> DeclState {
        st
    }

    fn visit(&mut self, s: &Stmt) {
        broadcast use vstd::std_specs::hash::group_hash_axioms;
        match s {
            Stmt::Expr { target, expr: Expr::String { value } } => {
                let i = intern_name(&mut self.names, value);
                self.known_strings.insert(target.id, i);
            },
            Stmt::Expr { target, expr: Expr::Object { props } } => match self.decl_props(props) {
                Some(m) => {
                    let ghost mv = m@;
                    self.known_objs.insert(target.id, m);
                    assert(objs_view(self.known_objs) =~= objs_view(old(self).known_objs).insert(target.id, mv));
                },
                None => {},
            },
            _ => {},
        }
    }

    fn visit_ref_use(&mut self, id: u64) {
    }

    fn enter_scope(&mut self, ty: ScopeTy, b: &Block) -> (saved: ()) {
    }

    fn exit_scope(&mut self, ty: ScopeTy, saved: ()) {
    }
}

// ---------------------------------------------------------------------------
// Second analysis: how the candidate objects are used.
// ---------------------------------------------------------------------------

/// Abstract state of the second analysis; `safe` tells whether the refs the current statement
/// reads are read as an object whose property is accessed (or as a property name).
pub struct AccessState {
    pub fns: Set<u64>,
    pub names: Seq<Seq<char>>,
    pub strings: Map<u64, u64>,
    pub objs: Map<u64, Map<u64, PropInfo>>,
    pub safe: bool,
}

/// What the analysis records of a property it has not met yet.
pub open spec fn fresh_info() -> PropInfo {
    PropInfo { safe_for_call: true, saw_call: false }
}

pub open spec fn info_of(props: Map<u64, PropInfo>, i: u64) -> PropInfo {
    if props.contains_key(i) {
        props[i]
    } else {
        fresh_info()
    }
}

/// A read or call of a property of `obj`: a property with an unknown or unsafe name rules
/// the object out.
pub open spec fn access_prop(st: AccessState, call: bool, obj: u64, prop: u64) -> AccessState {
    if st.objs.contains_key(obj) {
        if known_safe(st.names, st.strings, prop) {
            let i = st.strings[prop];
            let e = info_of(st.objs[obj], i);
            let e2 = if call {
                PropInfo { saw_call: true, ..e }
            } else {
                e
            };
            AccessState { objs: st.objs.insert(obj, st.objs[obj].insert(i, e2)), ..st }
        } else {
            AccessState { objs: st.objs.remove(obj), ..st }
        }
    } else {
        st
    }
}

/// A write of a property of `obj`.
pub open spec fn access_write(st: AccessState, obj: u64, prop: u64, val: u64) -> AccessState {
    if st.objs.contains_key(obj) {
        if known_safe(st.names, st.strings, prop) {
            let i = st.strings[prop];
            let e = info_of(st.objs[obj], i);
            let e2 = PropInfo { safe_for_call: e.safe_for_call && st.fns.contains(val), ..e };
            AccessState { objs: st.objs.insert(obj, st.objs[obj].insert(i, e2)), ..st }
        } else {
            AccessState { objs: st.objs.remove(obj), ..st }
        }
    } else {
        st
    }
}

/// The candidates without those passed as arguments.
pub open spec fn remove_args(objs: Map<u64, Map<u64, PropInfo>>, args: Seq<(EleKind, Ref<SSA>)>) -> Map<u64, Map<u64, PropInfo>>
    decreases args.len(),
{
    if args.len() == 0 {
        objs
    } else {
        remove_args(objs, args.drop_last()).remove(args.last().1.id)
    }
}

pub open spec fn access_visit(st0: AccessState, s: Stmt) -> AccessState {
    let st = AccessState { safe: false, ..st0 };
    match s {
        Stmt::Expr { expr: Expr::ReadMember { obj, prop }, .. } => {
            let st1 = access_prop(AccessState { safe: true, ..st }, false, obj.id, prop.id);
            AccessState { objs: st1.objs.remove(prop.id), ..st1 }
        },
        Stmt::Expr { expr: Expr::Call { base, prop: Some(prop), args, .. }, .. } => {
            let st1 = access_prop(AccessState { safe: true, ..st }, true, base.id, prop.id);
            AccessState { objs: remove_args(st1.objs.remove(prop.id), args@), ..st1 }
        },
        Stmt::WriteMember { obj, prop, val } => {
            let st1 = access_write(AccessState { safe: true, ..st }, obj.id, prop.id, val.id);
            AccessState { objs: st1.objs.remove(prop.id).remove(val.id), ..st1 }
        },
        _ => st,
    }
}

pub struct CollectObjAccessInfo {
    pub fns_without_this: HashSet<u64>,
    pub names: Vec<String>,
    pub known_strings: HashMap<u64, u64>,
    pub known_objs: HashMap<u64, HashMap<u64, PropInfo>>,
    pub last_use_was_safe: bool,
}

impl CollectObjAccessInfo {
    fn forget(&mut self, id: u64)
        ensures
            final(self).state() == (AccessState { objs: old(self).state().objs.remove(id), ..old(self).state() }),
    {
        broadcast use vstd::std_specs::hash::group_hash_axioms;
        self.known_objs.remove(&id);
        assert(objs_view(self.known_objs) =~= objs_view(old(self).known_objs).remove(id));
    }

    /// Updates what is known of property `i` of the candidate `obj`: a write of `val` keeps
    /// it safe to call only if `val` is a function without `this`; a call records the call.
    fn set_info(&mut self, obj: u64, i: u64, write: Option<u64>, call: bool)
        requires
            old(self).state().objs.contains_key(obj),
        ensures
            final(self).state() == (AccessState {
                objs: old(self).state().objs.insert(
                    obj,
                    old(self).state().objs[obj].insert(
                        i,
                        ({
                            let e = info_of(old(self).state().objs[obj], i);
                            match write {
                                Some(val) => PropInfo { safe_for_call: e.safe_for_call && old(self).state().fns.contains(val), ..e },
                                None => if call {
                                    PropInfo { saw_call: true, ..e }
                                } else {
                                    e
                                },
                            }
                        }),
                    ),
                ),
                ..old(self).state()
            }),
    {
        broadcast use vstd::std_specs::hash::group_hash_axioms;
        let mut props = match self.known_objs.remove(&obj) {
            Some(m) => m,
            None => HashMap::new(),
        };
        let ghost pv = props@;
        let e = match props.get(&i) {
            Some(e) => *e,
            None => PropInfo { safe_for_call: true, saw_call: false },
        };
        let e2 = match write {
            Some(val) => PropInfo { safe_for_call: e.safe_for_call && self.fns_without_this.contains(&val), saw_call: e.saw_call },
            None => if call {
                PropInfo { safe_for_call: e.safe_for_call, saw_call: true }
            } else {
                e
            },
        };
        props.insert(i, e2);
        let ghost nv = props@;
        self.known_objs.insert(obj, props);
        assert(objs_view(self.known_objs) =~= objs_view(old(self).known_objs).insert(obj, nv));
    }

    fn access_prop(&mut self, call: bool, obj: u64, prop: u64)
        ensures
            final(self).state() == access_prop(old(self).state(), call, obj, prop),
    {
        broadcast use vstd::std_specs::hash::group_hash_axioms;
        if self.known_objs.contains_key(&obj) {
            match known_safe_exec(&self.names, &self.known_strings, prop) {
                Some(i) => self.set_info(obj, i, None, call),
                None => self.forget(obj),
            }
        }
    }

    fn access_write(&mut self, obj: u64, prop: u64, val: u64)
        ensures
            final(self).state() == access_write(old(self).state(), obj, prop, val),
    {
        broadcast use vstd::std_specs::hash::group_hash_axioms;
        if self.known_objs.contains_key(&obj) {
            match known_safe_exec(&self.names, &self.known_strings, prop) {
                Some(i) => self.set_info(obj, i, Some(val), false),
                None => self.forget(obj),
            }
        }
    }
}

impl Visitor for CollectObjAccessInfo {
    type St = AccessState;

    type Saved = ();

    type Sv = ();

    open spec fn state(&self) -> AccessState {
        AccessState {
            fns: self.fns_without_this@,
            names: names_view(self.names@),
            strings: self.known_strings@,
            objs: objs_view(self.known_objs),
            safe: self.last_use_was_safe,
        }
    }

    open spec fn saved_state(saved: &()) -> () {
        ()
    }

    open spec fn spec_visit(st: AccessState, s: Stmt) -> AccessState {
        access_visit(st, s)
    }

    /// A ref read other than as an accessed object or property name rules out the object.
    open spec fn spec_visit_ref_use(st: AccessState, id: u64) -> AccessState {
        if st.safe {
            st
        } else {
            AccessState { objs: st.objs.remove(id), ..st }
        }
    }

    open spec fn spec_enter(st: AccessState, ty: ScopeTy, b: Block) -> (AccessState, ()) {
        (st, ())
    }

    open spec fn spec_exit(st: AccessState, ty: ScopeTy, saved: ()) -> AccessState {
        st
    }

    fn visit(&mut self, s: &Stmt) {
        self.last_use_was_safe = false;
        match s {
            Stmt::Expr { expr: Expr::ReadMember { obj, prop }, .. } => {
                self.last_use_was_safe = true;
                self.access_prop(false, obj.id, prop.id);
                self.forget(prop.id);
            },
            Stmt::Expr { expr: Expr::Call { base, prop: Some(prop), args, .. }, .. } => {
                self.last_use_was_safe = true;
                self.access_prop(true, base.id, prop.id);
                self.forget(prop.id);
                let ghost st1 = self.state();
                let mut k: usize = 0;
                while k < args.len()
                    invariant
                        k <= args@.len(),
                        self.state() == (AccessState { objs: remove_args(st1.objs, args@.take(k as int)), ..st1 }),
                    decreases args@.len() - k,
                {
                    assert(args@.take(k + 1).drop_last() =~= args@.take(k as int));
                    self.forget(args[k].1.id);
                    k += 1;
                }
                assert(args@.take(args@.len() as int) =~= args@);
            },
            Stmt::WriteMember { obj, prop, val } => {
                self.last_use_was_safe = true;
                self.access_write(obj.id, prop.id, val.id);
                self.forget(prop.id);
                self.forget(val.id);
            },
            _ => {},
        }
    }

    fn visit_ref_use(&mut self, id: u64) {
        if !self.last_use_was_safe {
            self.forget(id);
        }
    }

    fn enter_scope(&mut self, ty: ScopeTy, b: &Block) -> (saved: ()) {
    }

    fn exit_scope(&mut self, ty: ScopeTy, saved: ()) {
    }
}

// ---------------------------------------------------------------------------
// The plan: which objects to replace, by which properties.
// ---------------------------------------------------------------------------

/// No property stored in the object is called as a method unless it is safe to.
pub open spec fn replaceable(props: Map<u64, PropInfo>) -> bool {
    forall|i: u64| props.contains_key(i) ==> props[i].safe_for_call || !props[i].saw_call
}

/// The objects to replace, each with the (name indices of the) properties it gets a
/// variable for.
pub open spec fn plan_of(objs: Map<u64, Map<u64, PropInfo>>) -> Map<u64, Set<u64>> {
    Map::new(|o: u64| objs.contains_key(o) && replaceable(objs[o]), |o: u64| objs[o].dom())
}

pub open spec fn plan_view(m: HashMap<u64, HashSet<u64>>) -> Map<u64, Set<u64>> {
    m@.map_values(|s: HashSet<u64>| s@)
}

/// The property names of an object, if it may be replaced.
fn prop_names(props: &HashMap<u64, PropInfo>) -> (r: Option<HashSet<u64>>)
    ensures
        r is Some <==> replaceable(props@),
        r matches Some(s) ==> s@ == props@.dom(),
{
    broadcast use vstd::std_specs::hash::group_hash_axioms;
    let mut names: HashSet<u64> = HashSet::new();
    let ghost items = vstd::std_specs::hash::spec_hash_map_iter(props).remaining();
    proof {
        vstd::std_specs::hash::axiom_spec_hash_map_iter(props);
    }
    for kv in it: props.iter()
        invariant
            it.seq() == items,
            items == vstd::std_specs::hash::spec_hash_map_iter(props).remaining(),
            forall|i: int| 0 <= i < items.len() ==> props@.contains_key(*items[i].0) && props@[*items[i].0] == *items[i].1,
            forall|k: u64| #[trigger] names@.contains(k) <==> exists|i: int| 0 <= i < it.index() && *items[i].0 == k,
            forall|i: int| 0 <= i < it.index() ==> (*items[i].1).safe_for_call || !(*items[i].1).saw_call,
    {
        let (k, info) = kv;
        let ghost i = it.index() as int;
        assert(items[i] == kv);
        if !info.safe_for_call && info.saw_call {
            return None;
        }
        names.insert(*k);
        assert forall|x: u64| #[trigger] names@.contains(x) <==> exists|j: int| 0 <= j < i + 1 && *items[j].0 == x by {
            if x == *k {
                assert(*items[i].0 == x);
            }
        }
    }
    assert forall|k: u64| #[trigger] props@.contains_key(k) implies names@.contains(k) && (props@[k].safe_for_call || !props@[k].saw_call) by {
        assert(items.contains((&k, &props@[k])));
        let j = choose|j: int| 0 <= j < items.len() && items[j] == (&k, &props@[k]);
        assert(*items[j].0 == k);
    }
    assert(names@ =~= props@.dom());
    Some(names)
}

/// The objects to replace.
fn make_plan(objs: &HashMap<u64, HashMap<u64, PropInfo>>) -> (r: HashMap<u64, HashSet<u64>>)
    ensures
        plan_view(r) == plan_of(objs_view(*objs)),
{
    broadcast use vstd::std_specs::hash::group_hash_axioms;
    let mut plan: HashMap<u64, HashSet<u64>> = HashMap::new();
    let ghost items = vstd::std_specs::hash::spec_hash_map_iter(objs).remaining();
    let ghost target = plan_of(objs_view(*objs));
    proof {
        vstd::std_specs::hash::axiom_spec_hash_map_iter(objs);
    }
    for kv in it: objs.iter()
        invariant
            it.seq() == items,
            items == vstd::std_specs::hash::spec_hash_map_iter(objs).remaining(),
            items.no_duplicates(),
            target == plan_of(objs_view(*objs)),
            forall|i: int| 0 <= i < items.len() ==> objs@.contains_key(*items[i].0) && objs@[*items[i].0] == *items[i].1,
            forall|k: u64|
                #[trigger] plan@.contains_key(k) <==> exists|i: int|
                    0 <= i < it.index() && *items[i].0 == k && replaceable((*items[i].1)@),
            forall|k: u64| #[trigger] plan@.contains_key(k) ==> plan@[k]@ == objs@[k]@.dom(),
    {
        let (k, props) = kv;
        let ghost i = it.index() as int;
        assert(items[i] == kv);
        match prop_names(props) {
            Some(names) => {
                plan.insert(*k, names);
            },
            None => {},
        }
        assert forall|x: u64| #[trigger] plan@.contains_key(x) <==> exists|j: int|
            0 <= j < i + 1 && *items[j].0 == x && replaceable((*items[j].1)@) by {
            if x == *k && replaceable((*items[i].1)@) {
                assert(*items[i].0 == x);
            }
            if plan@.contains_key(x) && x != *k {
                let j = choose|j: int| 0 <= j < i && *items[j].0 == x && replaceable((*items[j].1)@);
                assert(0 <= j < i + 1 && *items[j].0 == x && replaceable((*items[j].1)@));
            }
            if x == *k && !replaceable((*items[i].1)@) {
                if exists|j: int| 0 <= j < i + 1 && *items[j].0 == x && replaceable((*items[j].1)@) {
                    let j = choose|j: int| 0 <= j < i + 1 && *items[j].0 == x && replaceable((*items[j].1)@);
                    assert(items[j] == items[i]);
                }
            }
        }
    }
    assert forall|o: u64| #[trigger] plan_view(plan).contains_key(o) <==> target.contains_key(o) by {
        if objs@.contains_key(o) {
            assert(items.contains((&o, &objs@[o])));
            let j = choose|j: int| 0 <= j < items.len() && items[j] == (&o, &objs@[o]);
            assert(*items[j].0 == o);
        }
        if plan@.contains_key(o) {
            let j = choose|j: int| 0 <= j < items.len() && *items[j].0 == o && replaceable((*items[j].1)@);
            assert(objs@[o] == *items[j].1);
        }
    }
    assert(plan_view(plan) =~= target);
    plan
}

// ---------------------------------------------------------------------------
// The largest id of a program.
// ---------------------------------------------------------------------------

/// `m` is the largest id occurring in `b` (0 if none does).
pub open spec fn is_max_id(b: Block, m: u64) -> bool {
    &&& forall|id: u64| occ_block(b, id) > 0 ==> id <= m
    &&& (occ_block(b, m) > 0 || (m == 0 && forall|id: u64| occ_block(b, id) == 0))
}

/// The largest id occurring in `b` (0 if none does).
pub open spec fn max_id(b: Block) -> u64 {
    choose|m: u64| is_max_id(b, m)
}

pub proof fn lemma_max_id(b: Block, m: u64)
    requires
        is_max_id(b, m),
    ensures
        max_id(b) == m,
{
    let m2 = max_id(b);
    assert(is_max_id(b, m2));
    if occ_block(b, m2) > 0 {
        assert(m2 <= m);
    }
    if occ_block(b, m) > 0 {
        assert(m <= m2);
    }
}

pub open spec fn umax(a: u64, b: u64) -> u64 {
    if a >= b {
        a
    } else {
        b
    }
}

/// `m` bounds the ids counted by `f`, and is one of them unless there are none.
pub open spec fn is_max_of(f: spec_fn(u64) -> nat, m: u64) -> bool {
    &&& forall|id: u64| #[trigger] f(id) > 0 ==> id <= m
    &&& (f(m) > 0 || (m == 0 && forall|id: u64| #[trigger] f(id) == 0))
}

proof fn lemma_max_combine(fa: spec_fn(u64) -> nat, fb: spec_fn(u64) -> nat, a: u64, b: u64)
    requires
        is_max_of(fa, a),
        is_max_of(fb, b),
    ensures
        is_max_of(|id: u64| fa(id) + fb(id), umax(a, b)),
{
    let f = |id: u64| fa(id) + fb(id);
    let m = umax(a, b);
    assert forall|id: u64| #[trigger] f(id) > 0 implies id <= m by {
        if fa(id) > 0 {
        } else {
            assert(fb(id) > 0);
        }
    }
    if !(f(m) > 0) {
        assert(fa(m) == 0 && fb(m) == 0);
        if m == a {
            assert(a == 0);
            assert(b == 0);
        } else {
            assert(b == 0);
        }
        assert forall|id: u64| #[trigger] f(id) == 0 by {
            assert(fa(id) == 0);
            assert(fb(id) == 0);
        }
    }
}

/// The largest of a sequence of ids (0 if empty).
pub open spec fn ids_max(ids: Seq<u64>) -> u64
    decreases ids.len(),
{
    if ids.len() == 0 {
        0
    } else {
        umax(ids_max(ids.drop_last()), ids.last())
    }
}

proof fn lemma_ids_max(ids: Seq<u64>)
    ensures
        is_max_of(|id: u64| crate::ir::count_in(ids, id), ids_max(ids)),
    decreases ids.len(),
{
    if ids.len() > 0 {
        let prev = ids.drop_last();
        lemma_ids_max(prev);
        let fa = |id: u64| crate::ir::count_in(prev, id);
        let fb = |id: u64| if ids.last() == id { 1nat } else { 0nat };
        assert(is_max_of(fb, ids.last()));
        lemma_max_combine(fa, fb, ids_max(prev), ids.last());
        assert((|id: u64| crate::ir::count_in(ids, id)) =~= (|id: u64| fa(id) + fb(id)));
    }
}

pub open spec fn max_block(b: Block) -> u64
    decreases b, 0nat,
{
    max_stmts(b.0@)
}

pub open spec fn max_stmts(ss: Seq<Stmt>) -> u64
    decreases ss, 0nat,
{
    if ss.len() == 0 {
        0
    } else {
        umax(max_stmts(ss.drop_last()), max_stmt(ss.last()))
    }
}

pub open spec fn max_stmt(s: Stmt) -> u64
    decreases s, stmt_blocks(s).len() + 1,
{
    umax(ids_max(crate::ir::stmt_ids(s)), max_nested(s, stmt_blocks(s).len()))
}

pub open spec fn max_nested(s: Stmt, k: nat) -> u64
    decreases s, k,
{
    if k == 0 || k > stmt_blocks(s).len() {
        0
    } else {
        umax(max_nested(s, (k - 1) as nat), max_block(stmt_blocks(s)[k - 1].1))
    }
}

proof fn lemma_max_block(b: Block)
    ensures
        is_max_of(|id: u64| occ_block(b, id), max_block(b)),
    decreases b, 0nat,
{
    lemma_max_stmts(b.0@);
    assert((|id: u64| occ_block(b, id)) =~= (|id: u64| crate::ir::occ_stmts(b.0@, id)));
}

proof fn lemma_max_stmts(ss: Seq<Stmt>)
    ensures
        is_max_of(|id: u64| crate::ir::occ_stmts(ss, id), max_stmts(ss)),
    decreases ss, 0nat,
{
    if ss.len() > 0 {
        let prev = ss.drop_last();
        lemma_max_stmts(prev);
        lemma_max_stmt(ss.last());
        let fa = |id: u64| crate::ir::occ_stmts(prev, id);
        let fb = |id: u64| crate::ir::occ_stmt(ss.last(), id);
        lemma_max_combine(fa, fb, max_stmts(prev), max_stmt(ss.last()));
        assert((|id: u64| crate::ir::occ_stmts(ss, id)) =~= (|id: u64| fa(id) + fb(id)));
    }
}

proof fn lemma_max_stmt(s: Stmt)
    ensures
        is_max_of(|id: u64| crate::ir::occ_stmt(s, id), max_stmt(s)),
    decreases s, stmt_blocks(s).len() + 1,
{
    let bs = stmt_blocks(s);
    lemma_ids_max(crate::ir::stmt_ids(s));
    lemma_max_nested(s, bs.len());
    assert(bs.take(bs.len() as int) =~= bs);
    let fa = |id: u64| crate::ir::count_in(crate::ir::stmt_ids(s), id);
    let fb = |id: u64| crate::ir::blocks_occ(bs.take(bs.len() as int), id);
    lemma_max_combine(fa, fb, ids_max(crate::ir::stmt_ids(s)), max_nested(s, bs.len()));
    assert forall|id: u64| crate::ir::occ_stmt(s, id) == fa(id) + fb(id) by {
        crate::ir::lemma_occ_stmt_split(s, id);
    }
    assert((|id: u64| crate::ir::occ_stmt(s, id)) =~= (|id: u64| fa(id) + fb(id)));
}

proof fn lemma_max_nested(s: Stmt, k: nat)
    requires
        k <= stmt_blocks(s).len(),
    ensures
        is_max_of(|id: u64| crate::ir::blocks_occ(stmt_blocks(s).take(k as int), id), max_nested(s, k)),
    decreases s, k,
{
    let bs = stmt_blocks(s);
    if k == 0 {
        assert(bs.take(0).len() == 0);
    } else {
        lemma_max_nested(s, (k - 1) as nat);
        lemma_max_block(bs[k - 1].1);
        assert(bs.take(k as int).drop_last() =~= bs.take(k - 1));
        let fa = |id: u64| crate::ir::blocks_occ(bs.take(k - 1), id);
        let fb = |id: u64| occ_block(bs[k - 1].1, id);
        lemma_max_combine(fa, fb, max_nested(s, (k - 1) as nat), max_block(bs[k - 1].1));
        assert((|id: u64| crate::ir::blocks_occ(bs.take(k as int), id)) =~= (|id: u64| fa(id) + fb(id)));
    }
}

/// Every program has a largest id.
pub proof fn lemma_max_id_exists(b: Block)
    ensures
        is_max_id(b, max_id(b)),
{
    lemma_max_block(b);
    let m = max_block(b);
    let f = |id: u64| occ_block(b, id);
    assert(is_max_of(f, m));
    assert forall|id: u64| occ_block(b, id) > 0 implies id <= m by {
        assert(f(id) > 0);
    }
    if !(occ_block(b, m) > 0) {
        assert(!(f(m) > 0));
        assert forall|id: u64| occ_block(b, id) == 0 by {
            assert(f(id) == 0);
        }
    }
    assert(is_max_id(b, m));
}

/// The ids the rewrite hands out start above every id of the program, unless the program
/// already holds the largest id there is.
pub proof fn law_sroa_ids_start_fresh(prog: Block, id: u64)
    requires
        occ_block(prog, id) > 0,
        max_id(prog) < u64::MAX,
    ensures
        id < sroa_initial(prog).next,
{
    lemma_max_id_exists(prog);
}

/// The largest id occurring in `b` (0 if none does).
pub fn max_id_exec(b: &Block) -> (m: u64)
    ensures
        m == max_id(*b),
{
    broadcast use vstd::std_specs::hash::group_hash_axioms;
    let counts = crate::ir::count_uses(b);
    let mut m: u64 = 0;
    let mut seen = false;
    let ghost items = vstd::std_specs::hash::spec_hash_map_iter(&counts.counts).remaining();
    proof {
        vstd::std_specs::hash::axiom_spec_hash_map_iter(&counts.counts);
    }
    for kv in it: counts.counts.iter()
        invariant
            it.seq() == items,
            items == vstd::std_specs::hash::spec_hash_map_iter(&counts.counts).remaining(),
            counts.describes(*b),
            forall|i: int|
                0 <= i < items.len() ==> counts.counts@.contains_key(*items[i].0) && counts.counts@[*items[i].0] == *items[i].1,
            forall|i: int| 0 <= i < it.index() && *items[i].1 > 0 ==> *items[i].0 <= m,
            seen ==> counts.count_of(m) > 0,
            !seen ==> m == 0 && forall|i: int| 0 <= i < it.index() ==> *items[i].1 == 0,
    {
        let (k, c) = kv;
        let ghost i = it.index() as int;
        assert(items[i] == kv);
        if *c > 0 && (!seen || *k > m) {
            m = *k;
            seen = true;
        }
    }
    proof {
        assert forall|id: u64| occ_block(*b, id) > 0 implies id <= m by {
            assert(counts.count_of(id) == crate::ir::sat(occ_block(*b, id)));
            assert(counts.counts@.contains_key(id));
            assert(items.contains((&id, &counts.counts@[id])));
            let j = choose|j: int| 0 <= j < items.len() && items[j] == (&id, &counts.counts@[id]);
            assert(*items[j].0 == id);
        }
        if seen {
            assert(counts.count_of(m) == crate::ir::sat(occ_block(*b, m)));
        } else {
            assert forall|id: u64| occ_block(*b, id) == 0 by {
                assert(counts.count_of(id) == crate::ir::sat(occ_block(*b, id)));
                if occ_block(*b, id) > 0 {
                    assert(counts.counts@.contains_key(id));
                    assert(items.contains((&id, &counts.counts@[id])));
                    let j = choose|j: int| 0 <= j < items.len() && items[j] == (&id, &counts.counts@[id]);
                    assert(*items[j].0 == id);
                }
            }
        }
        lemma_max_id(*b, m);
    }
    m
}

// ---------------------------------------------------------------------------
// The rewrite.
// ---------------------------------------------------------------------------

/// State of the rewrite: the property names, the known strings and the plan (fixed), and
/// the ids handed out so far.
pub struct SFold {
    pub names: Seq<Seq<char>>,
    pub strings: Map<u64, u64>,
    pub plan: Map<u64, Set<u64>>,
    /// For each replaced object met so far, the first id of the block of ids its property
    /// variables take (one per name, by name index).
    pub bases: Map<u64, u64>,
    /// The next id to hand out.
    pub next: u64,
}

/// The first statement that involves object `o` hands it a block of ids.
pub open spec fn alloc_obj(st: SFold, o: u64) -> SFold {
    if st.bases.contains_key(o) {
        st
    } else {
        SFold { bases: st.bases.insert(o, st.next), next: st.next.wrapping_add(st.names.len() as u64), ..st }
    }
}

/// `r` is the variable for property `i` of object `o`: named after the property.
pub open spec fn is_var(r: Ref<Mutable>, st: SFold, o: u64, i: u64) -> bool {
    &&& r.id == st.bases[o].wrapping_add(i)
    &&& r.name_hint@ == st.names[i as int]
}

/// The ref `prop` names a property of `o` that gets a variable.
pub open spec fn planned_prop(st: SFold, o: u64, prop: u64) -> bool {
    &&& st.plan.contains_key(o)
    &&& st.strings.contains_key(prop)
    &&& st.strings[prop] < st.names.len()
    &&& st.plan[o].contains(st.strings[prop])
}

/// What becomes of a statement.
pub enum SKind {
    /// The literal of a replaced object: its properties become variables.
    Object,
    /// A read of a property of a replaced object.
    Read,
    /// A method call on a replaced object.
    Call,
    /// A write of a property of a replaced object.
    Write,
    Keep,
}

pub open spec fn s_kind(s: Stmt, st: SFold) -> SKind {
    match s {
        Stmt::Expr { target, expr: Expr::Object { .. } } => if st.plan.contains_key(target.id) {
            SKind::Object
        } else {
            SKind::Keep
        },
        Stmt::Expr { expr: Expr::ReadMember { obj, prop }, .. } => if planned_prop(st, obj.id, prop.id) {
            SKind::Read
        } else {
            SKind::Keep
        },
        Stmt::Expr { expr: Expr::Call { base, prop: Some(prop), .. }, .. } => if planned_prop(st, base.id, prop.id) {
            SKind::Call
        } else {
            SKind::Keep
        },
        Stmt::WriteMember { obj, prop, .. } => if planned_prop(st, obj.id, prop.id) {
            SKind::Write
        } else {
            SKind::Keep
        },
        _ => SKind::Keep,
    }
}

/// The object a statement involves.
pub open spec fn s_obj(s: Stmt) -> u64 {
    match s {
        Stmt::Expr { target, expr: Expr::Object { .. } } => target.id,
        Stmt::Expr { expr: Expr::ReadMember { obj, .. }, .. } => obj.id,
        Stmt::Expr { expr: Expr::Call { base, .. }, .. } => base.id,
        Stmt::WriteMember { obj, .. } => obj.id,
        _ => 0,
    }
}

/// The ref naming the property a statement accesses.
pub open spec fn s_prop(s: Stmt) -> u64 {
    match s {
        Stmt::Expr { expr: Expr::ReadMember { prop, .. }, .. } => prop.id,
        Stmt::Expr { expr: Expr::Call { prop: Some(prop), .. }, .. } => prop.id,
        Stmt::WriteMember { prop, .. } => prop.id,
        _ => 0,
    }
}

/// The state after `s` itself has been rewritten (a method call also takes one id).
pub open spec fn s_fold_state(s: Stmt, st: SFold) -> SFold {
    match s_kind(s, st) {
        SKind::Keep => st,
        SKind::Call => {
            let st1 = alloc_obj(st, s_obj(s));
            SFold { next: st1.next.wrapping_add(1), ..st1 }
        },
        _ => alloc_obj(st, s_obj(s)),
    }
}

/// The names (indices) given by the first properties of a literal of `o`.
pub open spec fn lit_names(props: Seq<(PropKind, Ref<SSA>, Ref<SSA>)>, st: SFold, o: u64) -> Set<u64>
    decreases props.len(),
{
    if props.len() == 0 {
        Set::empty()
    } else {
        let rest = lit_names(props.drop_last(), st, o);
        if planned_prop(st, o, props.last().1.id) {
            rest.insert(st.strings[props.last().1.id])
        } else {
            rest
        }
    }
}

pub open spec fn planned_count(props: Seq<(PropKind, Ref<SSA>, Ref<SSA>)>, st: SFold, o: u64) -> nat
    decreases props.len(),
{
    if props.len() == 0 {
        0
    } else {
        planned_count(props.drop_last(), st, o) + if planned_prop(st, o, props.last().1.id) {
            1nat
        } else {
            0nat
        }
    }
}

/// Each property of the literal becomes its variable: declared the first time the name
/// occurs, written again at a repetition.
pub open spec fn props_rel(outs: Seq<Stmt>, props: Seq<(PropKind, Ref<SSA>, Ref<SSA>)>, st: SFold, o: u64) -> bool
    decreases props.len(),
{
    if props.len() == 0 {
        outs.len() == 0
    } else {
        let p = props.last();
        let prev = props.drop_last();
        if planned_prop(st, o, p.1.id) {
            let i = st.strings[p.1.id];
            &&& outs.len() > 0
            &&& props_rel(outs.drop_last(), prev, st, o)
            &&& if lit_names(prev, st, o).contains(i) {
                outs.last() matches Stmt::WriteMutable { target, val } && is_var(target, st, o, i) && val == p.2
            } else {
                outs.last() matches Stmt::DeclareMutable { target, val } && is_var(target, st, o, i) && val == p.2
            }
        } else {
            props_rel(outs, prev, st, o)
        }
    }
}

/// The names below `n` the plan gives a variable that the literal does not set, in order.
pub open spec fn rest_names(n: nat, planned: Set<u64>, lit: Set<u64>) -> Seq<u64>
    decreases n,
{
    if n == 0 {
        Seq::empty()
    } else {
        let i = (n - 1) as u64;
        rest_names((n - 1) as nat, planned, lit) + if planned.contains(i) && !lit.contains(i) {
            seq![i]
        } else {
            Seq::empty()
        }
    }
}

/// The names of an object's literal that get no value from it.
pub open spec fn unset_names(s: Stmt, st: SFold) -> Seq<u64> {
    let o = s->Expr_target.id;
    rest_names(st.names.len(), st.plan[o], lit_names(s->Expr_expr->Object_props@, st, o))
}

/// How many statements a statement is rewritten into.
pub open spec fn s_out_count(s: Stmt, st: SFold) -> nat {
    match s_kind(s, st) {
        SKind::Object => {
            let st1 = alloc_obj(st, s_obj(s));
            1 + planned_count(s->Expr_expr->Object_props@, st1, s_obj(s)) + unset_names(s, st1).len()
        },
        SKind::Call => 2,
        _ => 1,
    }
}

pub open spec fn sroa_block_state(b: Block, st: SFold) -> SFold
    decreases b, 1nat,
{
    sroa_seq_state(b.0@, st)
}

pub open spec fn sroa_seq_state(ss: Seq<Stmt>, st: SFold) -> SFold
    decreases ss, 0nat,
{
    if ss.len() == 0 {
        st
    } else {
        sroa_stmt_state(ss.last(), sroa_seq_state(ss.drop_last(), st))
    }
}

pub open spec fn sroa_stmt_state(s: Stmt, st: SFold) -> SFold
    decreases s, 4nat,
{
    if s_kind(s, st) is Keep {
        sroa_nested_state(s, stmt_blocks(s).len(), st)
    } else {
        s_fold_state(s, st)
    }
}

pub open spec fn sroa_nested_state(s: Stmt, k: nat, st: SFold) -> SFold
    decreases s, k,
{
    if k == 0 || k > stmt_blocks(s).len() {
        st
    } else {
        sroa_block_state(stmt_blocks(s)[k - 1].1, sroa_nested_state(s, (k - 1) as nat, st))
    }
}

/// `b` is `a` rewritten from the state `st`.
pub open spec fn sroa_block_rel(a: Block, b: Block, st: SFold) -> bool
    decreases a, 1nat,
{
    sroa_seq_rel(a.0@, b.0@, st)
}

pub open spec fn sroa_seq_rel(ins: Seq<Stmt>, outs: Seq<Stmt>, st: SFold) -> bool
    decreases ins, 0nat,
{
    if ins.len() == 0 {
        outs.len() == 0
    } else {
        let sl = sroa_seq_state(ins.drop_last(), st);
        let n = s_out_count(ins.last(), sl);
        &&& outs.len() >= n
        &&& sroa_seq_rel(ins.drop_last(), outs.take(outs.len() - n), st)
        &&& sroa_stmt_rel(ins.last(), outs.skip(outs.len() - n), sl)
    }
}

/// What one statement is rewritten into, from the state `st`.
pub open spec fn sroa_stmt_rel(s: Stmt, outs: Seq<Stmt>, st: SFold) -> bool
    decreases s, 4nat,
{
    let st1 = s_fold_state(s, st);
    let o = s_obj(s);
    let i = st.strings[s_prop(s)];
    match s_kind(s, st) {
        SKind::Keep => {
            &&& outs.len() == 1
            &&& same_frame(s, outs[0])
            &&& sroa_nested_rel(s, outs[0], stmt_blocks(s).len(), st)
        },
        SKind::Object => {
            let props = s->Expr_expr->Object_props@;
            let n = planned_count(props, st1, o);
            &&& outs.len() == 1 + n + unset_names(s, st1).len()
            &&& outs[0] matches Stmt::Expr { target: mis, expr: Expr::Undefined }
            &&& outs[0]->Expr_target.id == o
            &&& outs[0]->Expr_target.name_hint@ == "_mis"@
            &&& props_rel(outs.subrange(1, 1 + n as int), props, st1, o)
            &&& forall|k: int|
                0 <= k < unset_names(s, st1).len() ==> (#[trigger] outs[1 + n + k] matches Stmt::DeclareMutable { target, val }
                    && is_var(target, st1, o, unset_names(s, st1)[k]) && val == outs[0]->Expr_target)
        },
        SKind::Read => {
            &&& outs.len() == 1
            &&& outs[0] matches Stmt::Expr { target, expr: Expr::ReadMutable { source } }
            &&& outs[0]->Expr_target == s->Expr_target
            &&& is_var(outs[0]->Expr_expr->ReadMutable_source, st1, o, i)
        },
        SKind::Write => {
            &&& outs.len() == 1
            &&& outs[0] matches Stmt::WriteMutable { target, val }
            &&& is_var(outs[0]->WriteMutable_target, st1, o, i)
            &&& outs[0]->WriteMutable_val == s->WriteMember_val
        },
        SKind::Call => {
            let sa = alloc_obj(st, o);
            &&& outs.len() == 2
            &&& outs[0] matches Stmt::Expr { target, expr: Expr::ReadMutable { source } }
            &&& outs[0]->Expr_target.id == sa.next
            &&& outs[0]->Expr_target.name_hint@ == st.names[i as int]
            &&& is_var(outs[0]->Expr_expr->ReadMutable_source, sa, o, i)
            &&& outs[1] == Stmt::Expr {
                target: s->Expr_target,
                expr: Expr::Call {
                    kind: s->Expr_expr->Call_kind,
                    base: outs[0]->Expr_target,
                    prop: None,
                    args: s->Expr_expr->Call_args,
                },
            }
        },
    }
}

pub open spec fn sroa_nested_rel(s: Stmt, t: Stmt, k: nat, st: SFold) -> bool
    decreases s, k,
{
    if k == 0 || k > stmt_blocks(s).len() {
        stmt_blocks(t).len() == stmt_blocks(s).len()
    } else {
        &&& sroa_nested_rel(s, t, (k - 1) as nat, st)
        &&& sroa_block_rel(stmt_blocks(s)[k - 1].1, stmt_blocks(t)[k - 1].1, sroa_nested_state(s, (k - 1) as nat, st))
    }
}

pub proof fn lemma_sroa_nested_rel_from_blocks(s: Stmt, t: Stmt, k: nat, st: SFold)
    requires
        k <= stmt_blocks(s).len(),
        stmt_blocks(t).len() == stmt_blocks(s).len(),
        forall|j: int|
            0 <= j < k ==> sroa_block_rel(#[trigger] stmt_blocks(s)[j].1, stmt_blocks(t)[j].1, sroa_nested_state(s, j as nat, st)),
    ensures
        sroa_nested_rel(s, t, k, st),
    decreases k,
{
    if k > 0 {
        lemma_sroa_nested_rel_from_blocks(s, t, (k - 1) as nat, st);
        assert(sroa_block_rel(stmt_blocks(s)[k - 1].1, stmt_blocks(t)[k - 1].1, sroa_nested_state(s, (k - 1) as nat, st)));
    }
}

/// Scalar replacement of aggregates (objects): an object whose properties all have known
/// names, and which is only ever used by accessing them, becomes one mutable variable per
/// property.
///
/// May profit from multiple passes.
/// Does not profit from DCE running first; may create opportunities for DCE.
/// May create opportunities for mut-to-ssa downleveling.
/// May create opportunities for read forwarding.
pub struct Replace {
    pub names: Vec<String>,
    pub known_strings: HashMap<u64, u64>,
    pub objects_to_replace: HashMap<u64, HashSet<u64>>,
    pub bases: HashMap<u64, u64>,
    pub next: u64,
}

impl Replace {
    pub open spec fn state(&self) -> SFold {
        SFold {
            names: names_view(self.names@),
            strings: self.known_strings@,
            plan: plan_view(self.objects_to_replace),
            bases: self.bases@,
            next: self.next,
        }
    }

    fn alloc_obj(&mut self, o: u64)
        ensures
            final(self).state() == alloc_obj(old(self).state(), o),
            final(self).names == old(self).names,
            final(self).known_strings == old(self).known_strings,
            final(self).objects_to_replace == old(self).objects_to_replace,
    {
        broadcast use vstd::std_specs::hash::group_hash_axioms;
        if !self.bases.contains_key(&o) {
            self.bases.insert(o, self.next);
            self.next = self.next.wrapping_add(self.names.len() as u64);
        }
    }

    /// The name index of the property `prop` names, if it is one of `o` that gets a variable.
    fn planned_index(&self, o: u64, prop: u64) -> (r: Option<u64>)
        ensures
            r is Some <==> planned_prop(self.state(), o, prop),
            r matches Some(i) ==> i == self.state().strings[prop],
    {
        broadcast use vstd::std_specs::hash::group_hash_axioms;
        match self.objects_to_replace.get(&o) {
            Some(planned) => match self.known_strings.get(&prop) {
                Some(i) => {
                    if *i < self.names.len() as u64 && planned.contains(i) {
                        Some(*i)
                    } else {
                        None
                    }
                },
                None => None,
            },
            None => None,
        }
    }

    /// The variable for property `i` of `o`.
    fn var(&self, o: u64, i: u64) -> (r: Ref<Mutable>)
        requires
            self.state().bases.contains_key(o),
            i < self.state().names.len(),
        ensures
            is_var(r, self.state(), o, i),
    {
        broadcast use vstd::std_specs::hash::group_hash_axioms;
        let base = *self.bases.get(&o).unwrap();
        assert(names_view(self.names@).len() == self.names@.len());
        let n: usize = self.names.len();
        let k: usize = i as usize;
        assert(k as int == i as int);
        let name = self.names[k].clone();
        assert(name@ == names_view(self.names@)[i as int]);
        Ref::new(base.wrapping_add(i), name)
    }
}

impl Replace {
    /// Rewrites one statement (not the blocks it holds): a literal of an object to replace
    /// becomes `undefined` and one variable per property, and each access to a property of
    /// such an object becomes an access to its variable.
    pub fn fold(&mut self, stmt: Stmt) -> (r: ZeroOneMany<Stmt>)
        ensures
            final(self).state() == s_fold_state(stmt, old(self).state()),
            s_kind(stmt, old(self).state()) is Keep ==> r.items() == seq![stmt],
            !(s_kind(stmt, old(self).state()) is Keep) ==> sroa_stmt_rel(stmt, r.items(), old(self).state()),
    {
        broadcast use vstd::std_specs::hash::group_hash_axioms;
        let ghost st0 = self.state();
        let ghost s0 = stmt;
        match stmt {
            Stmt::Expr { target, expr: Expr::Object { props } } => {
                if !self.objects_to_replace.contains_key(&target.id) {
                    return ZeroOneMany::One(Stmt::Expr { target, expr: Expr::Object { props } });
                }
                let o = target.id;
                self.alloc_obj(o);
                let ghost st1 = self.state();
                let mis = Ref::new(o, String::from_str("_mis"));
                let mut out: Vec<Stmt> = Vec::new();
                out.push(Stmt::Expr { target: mis.duplicate(), expr: Expr::Undefined });
                let ghost first = out@[0];
                let mut lit: HashSet<u64> = HashSet::new();
                assert(lit@ =~= lit_names(props@.take(0), st1, o));
                assert(out@.skip(1) =~= Seq::<Stmt>::empty());
                let mut j: usize = 0;
                while j < props.len()
                    invariant
                        j <= props@.len(),
                        self.state() == st1,
                        st1.bases.contains_key(o),
                        st1.plan == st0.plan,
                        st1.strings == st0.strings,
                        st1.names == st0.names,
                        lit@ == lit_names(props@.take(j as int), st1, o),
                        out@.len() == 1 + planned_count(props@.take(j as int), st1, o),
                        out@[0] == first,
                        props_rel(out@.skip(1), props@.take(j as int), st1, o),
                    decreases props@.len() - j,
                {
                    assert(props@.take(j + 1).drop_last() =~= props@.take(j as int));
                    assert(props@.take(j + 1).last() == props@[j as int]);
                    let ghost o0 = out@;
                    match self.planned_index(o, props[j].1.id) {
                        Some(i) => {
                            let v = self.var(o, i);
                            let val = props[j].2.duplicate();
                            if lit.contains(&i) {
                                out.push(Stmt::WriteMutable { target: v, val });
                            } else {
                                lit.insert(i);
                                out.push(Stmt::DeclareMutable { target: v, val });
                            }
                            assert(out@.skip(1).drop_last() =~= o0.skip(1));
                            assert(lit@ =~= lit_names(props@.take(j + 1), st1, o));
                        },
                        None => {},
                    }
                    j += 1;
                }
                assert(props@.take(props@.len() as int) =~= props@);
                let ghost n = planned_count(props@, st1, o);
                let ghost o_props = out@;
                let planned = self.objects_to_replace.get(&o).unwrap();
                assert(planned@ == st1.plan[o]);
                let ghost lit_all = lit@;
                let mut k: usize = 0;
                let count = self.names.len();
                assert(names_view(self.names@).len() == self.names@.len());
                while k < count
                    invariant
                        k <= count,
                        count == st1.names.len(),
                        self.state() == st1,
                        st1.bases.contains_key(o),
                        planned@ == st1.plan[o],
                        lit@ == lit_all,
                        out@.len() == 1 + n + rest_names(k as nat, st1.plan[o], lit_all).len(),
                        out@.subrange(0, 1 + n as int) == o_props,
                        forall|m: int|
                            0 <= m < rest_names(k as nat, st1.plan[o], lit_all).len() ==> (#[trigger] out@[1 + n + m] matches Stmt::DeclareMutable { target, val }
                                && is_var(target, st1, o, rest_names(k as nat, st1.plan[o], lit_all)[m]) && val == mis),
                    decreases count - k,
                {
                    let ki = k as u64;
                    let ghost r0 = rest_names(k as nat, st1.plan[o], lit_all);
                    assert(ki as nat == k as nat);
                    if planned.contains(&ki) && !lit.contains(&ki) {
                        let v = self.var(o, ki);
                        out.push(Stmt::DeclareMutable { target: v, val: mis.duplicate() });
                        assert(rest_names((k + 1) as nat, st1.plan[o], lit_all) =~= r0.push(ki));
                    } else {
                        assert(rest_names((k + 1) as nat, st1.plan[o], lit_all) =~= r0);
                    }
                    k += 1;
                }
                assert(out@.subrange(1, 1 + n as int) =~= o_props.skip(1));
                ZeroOneMany::Many(out)
            },
            Stmt::Expr { target, expr: Expr::ReadMember { obj, prop } } => match self.planned_index(obj.id, prop.id) {
                Some(i) => {
                    self.alloc_obj(obj.id);
                    let v = self.var(obj.id, i);
                    ZeroOneMany::Many(vec![Stmt::Expr { target, expr: Expr::ReadMutable { source: v } }])
                },
                None => ZeroOneMany::One(Stmt::Expr { target, expr: Expr::ReadMember { obj, prop } }),
            },
            Stmt::Expr { target, expr: Expr::Call { kind, base, prop: Some(prop), args } } => match self.planned_index(base.id, prop.id) {
                Some(i) => {
                    self.alloc_obj(base.id);
                    let v = self.var(base.id, i);
                    let pid = self.next;
                    self.next = self.next.wrapping_add(1);
                    let pr = Ref::new(pid, v.name_hint.clone());
                    ZeroOneMany::Many(vec![
                        Stmt::Expr { target: pr.duplicate(), expr: Expr::ReadMutable { source: v } },
                        Stmt::Expr { target, expr: Expr::Call { kind, base: pr, prop: None, args } },
                    ])
                },
                None => ZeroOneMany::One(Stmt::Expr { target, expr: Expr::Call { kind, base, prop: Some(prop), args } }),
            },
            Stmt::WriteMember { obj, prop, val } => match self.planned_index(obj.id, prop.id) {
                Some(i) => {
                    self.alloc_obj(obj.id);
                    let v = self.var(obj.id, i);
                    ZeroOneMany::Many(vec![Stmt::WriteMutable { target: v, val }])
                },
                None => ZeroOneMany::One(Stmt::WriteMember { obj, prop, val }),
            },
            other => ZeroOneMany::One(other),
        }
    }
}

pub proof fn lemma_sroa_stmt_rel_len(s: Stmt, outs: Seq<Stmt>, st: SFold)
    requires
        sroa_stmt_rel(s, outs, st),
    ensures
        outs.len() == s_out_count(s, st),
{
}

impl Replace {
    #[verifier::spinoff_prover]
    #[verifier::rlimit(40)]
    fn fold_nested(&mut self, t0: Stmt, Ghost(s0): Ghost<Stmt>, Ghost(orig): Ghost<Block>) -> (t: Stmt)
        requires
            stmt_blocks(t0) == stmt_blocks(s0),
            forall|j: int| 0 <= j < stmt_blocks(s0).len() ==> decreases_to!(orig => #[trigger] stmt_blocks(s0)[j].1),
        ensures
            same_frame(t0, t),
            sroa_nested_rel(s0, t, stmt_blocks(s0).len(), old(self).state()),
            final(self).state() == sroa_nested_state(s0, stmt_blocks(s0).len(), old(self).state()),
        decreases orig, 1nat,
    {
        let ghost st_in = self.state();
        let ghost bs0 = stmt_blocks(s0);
        let (frame, bs) = take_blocks(t0);
        let mut done: Vec<Block> = Vec::new();
        for pair in jt: bs.into_iter()
            invariant
                jt.seq() == bs0,
                bs0 == stmt_blocks(s0),
                forall|j: int| 0 <= j < bs0.len() ==> decreases_to!(orig => #[trigger] bs0[j].1),
                done@.len() == jt.index(),
                self.state() == sroa_nested_state(s0, jt.index() as nat, st_in),
                forall|j: int|
                    0 <= j < jt.index() ==> sroa_block_rel(#[trigger] bs0[j].1, done@[j], sroa_nested_state(s0, j as nat, st_in)),
        {
            let ghost j = jt.index() as int;
            assert(pair == bs0[j]);
            let (_, b) = pair;
            assert(decreases_to!(orig => b));
            let nb = self.fold_block(b);
            done.push(nb);
        }
        let t = put_blocks(frame, done);
        proof {
            crate::traverse::lemma_same_frame_trans(t0, frame, t);
            lemma_sroa_nested_rel_from_blocks(s0, t, stmt_blocks(s0).len(), st_in);
        }
        t
    }

    /// Rewrites the `i`-th statement of `orig` and the blocks it holds.
    fn fold_one(&mut self, stmt: Stmt, Ghost(orig): Ghost<Block>, Ghost(i): Ghost<int>) -> (done: Vec<Stmt>)
        requires
            0 <= i < orig.0@.len(),
            stmt == orig.0@[i],
        ensures
            sroa_stmt_rel(stmt, done@, old(self).state()),
            final(self).state() == sroa_stmt_state(stmt, old(self).state()),
        decreases orig, 2nat,
    {
        let ghost s0 = stmt;
        let ghost st0 = self.state();
        let keep = match s_kind_exec(self, &stmt) {
            SKind::Keep => true,
            _ => false,
        };
        let r = self.fold(stmt);
        let mut v = r.into_vec();
        if keep {
            proof {
                assert forall|j: int| 0 <= j < stmt_blocks(s0).len() implies decreases_to!(
                    orig => #[trigger] stmt_blocks(s0)[j].1) by {
                    lemma_nested_block_decreases(orig, i, j);
                }
            }
            let t0 = v.pop().unwrap();
            let t = self.fold_nested(t0, Ghost(s0), Ghost(orig));
            let mut done: Vec<Stmt> = Vec::new();
            done.push(t);
            done
        } else {
            v
        }
    }

    /// Rewrites a block and, recursively, the blocks it holds.
    #[verifier::loop_isolation(false)]
    fn fold_block(&mut self, block: Block) -> (r: Block)
        ensures
            sroa_block_rel(block, r, old(self).state()),
            final(self).state() == sroa_block_state(block, old(self).state()),
        decreases block, 3nat,
    {
        let ghost orig = block;
        let ghost st_start = self.state();
        let Block(children) = block;
        let ghost items = children@;
        let mut out: Vec<Stmt> = Vec::new();
        for stmt in it: children.into_iter()
            invariant
                it.seq() == items,
                items == orig.0@,
                self.state() == sroa_seq_state(items.take(it.index() as int), st_start),
                sroa_seq_rel(items.take(it.index() as int), out@, st_start),
        {
            let ghost i = it.index() as int;
            let ghost st0 = self.state();
            assert(items.take(i + 1).drop_last() =~= items.take(i));
            assert(stmt == items[i]);
            let ghost s0 = stmt;
            let mut done = self.fold_one(stmt, Ghost(orig), Ghost(i));
            let ghost out0 = out@;
            let ghost dn = done@;
            out.append(&mut done);
            proof {
                let ins = items.take(i + 1);
                lemma_sroa_stmt_rel_len(s0, dn, st0);
                assert(ins.drop_last() =~= items.take(i));
                assert(ins.last() == s0);
                assert(out@.take(out@.len() - dn.len()) =~= out0);
                assert(out@.skip(out@.len() - dn.len()) =~= dn);
            }
            assert(sroa_seq_state(items.take(i + 1), st_start) == sroa_stmt_state(s0, st0));
        }
        assert(items.take(items.len() as int) =~= items);
        Block(out)
    }
}

/// What becomes of a statement.
fn s_kind_exec(r: &Replace, s: &Stmt) -> (k: SKind)
    ensures
        k == s_kind(*s, r.state()),
{
    broadcast use vstd::std_specs::hash::group_hash_axioms;
    match s {
        Stmt::Expr { target, expr: Expr::Object { .. } } => if r.objects_to_replace.contains_key(&target.id) {
            SKind::Object
        } else {
            SKind::Keep
        },
        Stmt::Expr { expr: Expr::ReadMember { obj, prop }, .. } => match r.planned_index(obj.id, prop.id) {
            Some(_) => SKind::Read,
            None => SKind::Keep,
        },
        Stmt::Expr { expr: Expr::Call { base, prop: Some(prop), .. }, .. } => match r.planned_index(base.id, prop.id) {
            Some(_) => SKind::Call,
            None => SKind::Keep,
        },
        Stmt::WriteMember { obj, prop, .. } => match r.planned_index(obj.id, prop.id) {
            Some(_) => SKind::Write,
            None => SKind::Keep,
        },
        _ => SKind::Keep,
    }
}

/// The functions of a program whose bodies never use `this`.
pub open spec fn fns_without_this_of(prog: Block) -> Set<u64> {
    run_block::<WithoutThis>((Set::empty(), false, None, None, false), ScopeTy::Toplevel, prog).0
}

/// What the two analyses know at the end of a program.
pub open spec fn sroa_analysis(prog: Block) -> AccessState {
    let d = run_block::<CollectObjDeclInfo>(
        DeclState { fns: fns_without_this_of(prog), names: Seq::empty(), strings: Map::empty(), objs: Map::empty() },
        ScopeTy::Toplevel,
        prog,
    );
    run_block::<CollectObjAccessInfo>(
        AccessState { fns: d.fns, names: d.names, strings: d.strings, objs: d.objs, safe: false },
        ScopeTy::Toplevel,
        prog,
    )
}

/// The state the rewrite of a program starts from: fresh ids come after the largest one.
pub open spec fn sroa_initial(prog: Block) -> SFold {
    let a = sroa_analysis(prog);
    SFold {
        names: a.names,
        strings: a.strings,
        plan: plan_of(a.objs),
        bases: Map::empty(),
        next: max_id(prog).wrapping_add(1),
    }
}

impl Replace {
    /// Runs the pass over a whole program.
    pub fn run(block: Block) -> (r: Block)
        ensures
            sroa_block_rel(block, r, sroa_initial(block)),
    {
        let fns = crate::anal::fns::without_this(&block);
        let mut decl = CollectObjDeclInfo {
            fns_without_this: fns,
            names: Vec::new(),
            known_strings: HashMap::new(),
            known_objs: HashMap::new(),
        };
        assert(decl.state().names =~= Seq::<Seq<char>>::empty());
        assert(decl.state().strings =~= Map::<u64, u64>::empty());
        assert(decl.state().objs =~= Map::<u64, Map<u64, PropInfo>>::empty());
        run_visitor(&mut decl, &block);
        let mut access = CollectObjAccessInfo {
            fns_without_this: decl.fns_without_this,
            names: decl.names,
            known_strings: decl.known_strings,
            known_objs: decl.known_objs,
            last_use_was_safe: false,
        };
        run_visitor(&mut access, &block);
        let plan = make_plan(&access.known_objs);
        let next = max_id_exec(&block).wrapping_add(1);
        let mut folder = Replace {
            names: access.names,
            known_strings: access.known_strings,
            objects_to_replace: plan,
            bases: HashMap::new(),
            next,
        };
        assert(folder.state().bases =~= Map::<u64, u64>::empty());
        folder.fold_block(block)
    }
}

} // verus!
