//! Naming of refs on output: unique names per scope, optionally minified.

use vstd::prelude::*;

use vstd::string::StringExecFns;

use crate::collections::StackedMap;
use crate::ir::{push_char, Lbl, Mutable, Ref, SSA};

verus! {

// ---------------------------------------------------------------------------
// Minified names.
// ---------------------------------------------------------------------------

/// Characters that may start a name: a-z, A-Z, `_`, `$`.
pub open spec fn first_char(k: nat) -> char {
    if k < 26 {
        (97 + k) as char
    } else if k < 52 {
        (65 + (k - 26)) as char
    } else if k == 52 {
        '_'
    } else {
        '$'
    }
}

/// Characters that may continue a name: a-z, A-Z, 0-9, `_`, `$`.
pub open spec fn other_char(k: nat) -> char {
    if k < 26 {
        (97 + k) as char
    } else if k < 52 {
        (65 + (k - 26)) as char
    } else if k < 62 {
        (48 + (k - 52)) as char
    } else if k == 62 {
        '_'
    } else {
        '$'
    }
}

/// The trailing characters of the minified name for what remains of the index.
pub open spec fn minified_tail(j: nat) -> Seq<char>
    decreases j,
{
    if j > 64 {
        seq![other_char(j % 64)] + minified_tail(j / 64)
    } else if j > 0 {
        seq![other_char((j - 1) as nat)]
    } else {
        Seq::empty()
    }
}

/// The minified name of the `index`-th name.
pub open spec fn minified_name_spec(index: nat) -> Seq<char> {
    seq![first_char(index % 54)] + minified_tail(index / 54)
}

fn first_char_exec(k: usize) -> (c: char)
    requires
        k < 54,
    ensures
        c == first_char(k as nat),
{
    if k < 26 {
        ((97 + k) as u8) as char
    } else if k < 52 {
        ((65 + (k - 26)) as u8) as char
    } else if k == 52 {
        '_'
    } else {
        '$'
    }
}

fn other_char_exec(k: usize) -> (c: char)
    requires
        k < 64,
    ensures
        c == other_char(k as nat),
{
    if k < 26 {
        ((97 + k) as u8) as char
    } else if k < 52 {
        ((65 + (k - 26)) as u8) as char
    } else if k < 62 {
        ((48 + (k - 52)) as u8) as char
    } else if k == 62 {
        '_'
    } else {
        '$'
    }
}

/// The short name for the `index`-th name: one leading character, then base-64 digits.
pub fn minified_name(index: usize) -> (name: String)
    ensures
        name@ == minified_name_spec(index as nat),
{
    let mut index = index;
    let ghost i0 = index as nat;
    let mut name = String::new();
    push_char(&mut name, first_char_exec(index % 54));
    index = index / 54;
    while index > 64
        invariant
            name@ + minified_tail(index as nat) == minified_name_spec(i0),
        decreases index,
    {
        let ghost n0 = name@;
        push_char(&mut name, other_char_exec(index % 64));
        assert(name@ + minified_tail((index / 64) as nat) =~= n0 + minified_tail(index as nat));
        index = index / 64;
    }
    if index > 0 {
        let ghost n0 = name@;
        push_char(&mut name, other_char_exec(index - 1));
        assert(name@ =~= n0 + minified_tail(index as nat));
    } else {
        assert(name@ =~= name@ + minified_tail(index as nat));
    }
    name
}

// ---------------------------------------------------------------------------
// Counts of names already used, per scope.
// ---------------------------------------------------------------------------

/// How often each name has been handed out, in this scope and (through `parent`) its ancestors.
pub struct NameCounts<'a> {
    pub parent: Option<&'a NameCounts<'a>>,
    pub entries: Vec<(String, u64)>,
}

/// The counts held directly in an entry list; later entries for a name take precedence.
pub open spec fn entries_map(entries: Seq<(String, u64)>) -> Map<Seq<char>, u64>
    decreases entries.len(),
{
    if entries.len() == 0 {
        Map::empty()
    } else {
        entries_map(entries.drop_last()).insert(entries.last().0@, entries.last().1)
    }
}

impl<'a> NameCounts<'a> {
    /// All counts visible from this scope: its own shadow those of its ancestors.
    pub open spec fn view_all(&self) -> Map<Seq<char>, u64>
        decreases self,
    {
        match self.parent {
            None => entries_map(self.entries@),
            Some(p) => p.view_all().union_prefer_right(entries_map(self.entries@)),
        }
    }

    pub open spec fn count_of(&self, name: Seq<char>) -> u64 {
        if self.view_all().contains_key(name) {
            self.view_all()[name]
        } else {
            0
        }
    }

    pub fn new() -> (r: Self)
        ensures
            r.view_all() == Map::<Seq<char>, u64>::empty(),
            r.parent is None,
            r.entries@.len() == 0,
    {
        NameCounts { parent: None, entries: Vec::new() }
    }

    pub fn child(&self) -> (r: NameCounts<'_>)
        ensures
            r.view_all() == self.view_all(),
            seen_entries_len(&r) == seen_entries_len(self),
    {
        let r = NameCounts { parent: Some(self), entries: Vec::new() };
        assert(r.view_all() =~= self.view_all());
        r
    }

    fn get_entries(entries: &Vec<(String, u64)>, name: &String) -> (r: Option<u64>)
        ensures
            match r {
                Some(c) => entries_map(entries@).contains_key(name@) && c == entries_map(
                    entries@,
                )[name@],
                None => !entries_map(entries@).contains_key(name@),
            },
    {
        let mut i = entries.len();
        while i > 0
            invariant
                i <= entries@.len(),
                forall|k: int| i <= k < entries@.len() ==> #[trigger] entries@[k].0@ != name@,
            decreases i,
        {
            i -= 1;
            if entries[i].0 == *name {
                proof {
                    lemma_entries_map_last_wins(entries@, i as int);
                }
                return Some(entries[i].1);
            }
        }
        proof {
            lemma_entries_map_absent(entries@, name@);
        }
        None
    }

    /// The count of a name as seen from this scope.
    pub fn get(&self, name: &String) -> (r: u64)
        ensures
            r == self.count_of(name@),
        decreases self,
    {
        match Self::get_entries(&self.entries, name) {
            Some(c) => c,
            None => match self.parent {
                Some(p) => p.get(name),
                None => 0,
            },
        }
    }

    /// Sets the count of a name in this scope.
    pub fn set(&mut self, name: String, count: u64)
        ensures
            final(self).view_all() == old(self).view_all().insert(name@, count),
            final(self).parent == old(self).parent,
            seen_entries_len(&*final(self)) == seen_entries_len(&*old(self)) + 1,
    {
        let ghost n = name@;
        self.entries.push((name, count));
        assert(self.entries@.drop_last() =~= old(self).entries@);
        assert(entries_map(self.entries@) =~= entries_map(old(self).entries@).insert(n, count));
        assert(self.view_all() =~= old(self).view_all().insert(name@, count));
    }
}

pub proof fn lemma_entries_map_last_wins(entries: Seq<(String, u64)>, i: int)
    requires
        0 <= i < entries.len(),
        forall|k: int| i < k < entries.len() ==> #[trigger] entries[k].0@ != entries[i].0@,
    ensures
        entries_map(entries).contains_key(entries[i].0@),
        entries_map(entries)[entries[i].0@] == entries[i].1,
    decreases entries.len(),
{
    if i < entries.len() - 1 {
        assert forall|k: int| i < k < entries.drop_last().len() implies #[trigger] entries.drop_last()[k].0@ != entries.drop_last()[i].0@ by {
            assert(entries.drop_last()[k] == entries[k]);
        }
        lemma_entries_map_last_wins(entries.drop_last(), i);
    }
}

pub proof fn lemma_entries_map_absent(entries: Seq<(String, u64)>, name: Seq<char>)
    requires
        forall|k: int| 0 <= k < entries.len() ==> #[trigger] entries[k].0@ != name,
    ensures
        !entries_map(entries).contains_key(name),
    decreases entries.len(),
{
    if entries.len() > 0 {
        assert forall|k: int| 0 <= k < entries.drop_last().len() implies #[trigger] entries.drop_last()[k].0@ != name by {
            assert(entries.drop_last()[k] == entries[k]);
        }
        lemma_entries_map_absent(entries.drop_last(), name);
    }
}

// ---------------------------------------------------------------------------
// Decimal digits.
// ---------------------------------------------------------------------------

pub open spec fn digit_char(d: nat) -> char {
    (48 + d) as char
}

/// The decimal representation of `n`.
pub open spec fn decimal(n: nat) -> Seq<char>
    decreases n,
{
    if n < 10 {
        seq![digit_char(n)]
    } else {
        decimal(n / 10) + seq![digit_char(n % 10)]
    }
}

/// Appends the decimal representation of `n` to `s`.
pub fn push_decimal(s: &mut String, n: u64)
    ensures
        final(s)@ == old(s)@ + decimal(n as nat),
    decreases n,
{
    if n >= 10 {
        push_decimal(s, n / 10);
    }
    let d = n % 10;
    push_char(s, ((48 + d) as u8) as char);
    assert(final(s)@ =~= old(s)@ + decimal(n as nat));
}

// ---------------------------------------------------------------------------
// Scope of names used when printing or emitting IR.
// ---------------------------------------------------------------------------

pub struct Opt {
    pub minify: bool,
}

/// Names of refs in the current scope, and the names already in use.
pub struct Ir<'a> {
    pub minified_name_counter: Option<usize>,
    pub seen: NameCounts<'a>,
    pub mutable_names: StackedMap<'a, u64, String>,
    pub label_names: StackedMap<'a, u64, String>,
    pub ssa_names: StackedMap<'a, u64, String>,
}

/// The first index at or after `start` whose minified name has not been seen,
/// or `usize::MAX` if there is none before it.
pub open spec fn first_free(seen: Map<Seq<char>, u64>, start: int) -> int
    decreases usize::MAX - start,
{
    if start >= usize::MAX || !seen.contains_key(minified_name_spec(start as nat)) || seen[minified_name_spec(start as nat)] == 0 {
        start
    } else {
        first_free(seen, start + 1)
    }
}

pub open spec fn count_in_map(seen: Map<Seq<char>, u64>, name: Seq<char>) -> u64 {
    if seen.contains_key(name) { seen[name] } else { 0 }
}

pub open spec fn sat_inc(n: u64) -> u64 {
    if n == u64::MAX { n } else { (n + 1) as u64 }
}

/// A fresh name derived from `prefix` and the counts of names seen so far, with the counts
/// afterwards. An empty prefix becomes `_`; a prefix seen `k > 0` times becomes `prefix$k`,
/// itself made unique in turn. `fuel` bounds the number of such steps.
pub open spec fn unique_from(seen: Map<Seq<char>, u64>, prefix: Seq<char>, fuel: nat) -> (Seq<char>, Map<Seq<char>, u64>)
    decreases fuel,
{
    let p = if prefix.len() == 0 { seq!['_'] } else { prefix };
    let c = count_in_map(seen, p);
    let seen2 = seen.insert(p, sat_inc(c));
    if c == 0 || fuel == 0 {
        (p, seen2)
    } else {
        unique_from(seen2, p + seq!['$'] + decimal(c as nat), (fuel - 1) as nat)
    }
}

/// Number of counts `unique_from` records on its way to a fresh name.
pub open spec fn unique_steps(seen: Map<Seq<char>, u64>, prefix: Seq<char>, fuel: nat) -> nat
    decreases fuel,
{
    let p = if prefix.len() == 0 { seq!['_'] } else { prefix };
    let c = count_in_map(seen, p);
    let seen2 = seen.insert(p, sat_inc(c));
    if c == 0 || fuel == 0 {
        1
    } else {
        1 + unique_steps(seen2, p + seq!['$'] + decimal(c as nat), (fuel - 1) as nat)
    }
}

/// Number of counts recorded when a name is handed out for `prefix`.
pub open spec fn name_steps(pre: Ir, prefix: Seq<char>) -> nat {
    match pre.minified_name_counter {
        Some(_) => 0,
        None => unique_steps(pre.seen.view_all(), prefix, pre.seen_len()),
    }
}

/// What handing out a unique name for `prefix` does: `name` is the name, `post` the scope after.
pub open spec fn unique_name_post(pre: Ir, prefix: Seq<char>, name: Seq<char>, post: Ir) -> bool {
    match pre.minified_name_counter {
        Some(c) => {
            let i = first_free(pre.seen.view_all(), c as int);
            &&& name == minified_name_spec(i as nat)
            &&& post.minified_name_counter == Some(
                if i >= usize::MAX { i as usize } else { (i + 1) as usize },
            )
            &&& post.seen.view_all() == pre.seen.view_all()
        },
        None => {
            let (n, m) = unique_from(pre.seen.view_all(), prefix, pre.seen_len());
            &&& name == n
            &&& post.seen.view_all() == m
            &&& post.minified_name_counter is None
        },
    }
}

impl<'a> Ir<'a> {
    /// Number of entries held across this scope and its ancestors.
    pub open spec fn seen_len(&self) -> nat {
        if seen_entries_len(&self.seen) >= u64::MAX { u64::MAX as nat } else { seen_entries_len(&self.seen) }
    }

    pub fn no_globals() -> (r: Ir<'a>)
        ensures
            r.minified_name_counter is None,
            r.seen.view_all() == Map::<Seq<char>, u64>::empty(),
            r.ssa_names.view_all() == Map::<u64, String>::empty(),
            r.mutable_names.view_all() == Map::<u64, String>::empty(),
            r.label_names.view_all() == Map::<u64, String>::empty(),
            r.ssa_names.map@ == Map::<u64, String>::empty(),
            r.mutable_names.map@ == Map::<u64, String>::empty(),
            r.label_names.map@ == Map::<u64, String>::empty(),
            seen_entries_len(&r.seen) == 0,
    {
        Ir {
            minified_name_counter: None,
            seen: NameCounts::new(),
            mutable_names: StackedMap::new(),
            label_names: StackedMap::new(),
            ssa_names: StackedMap::new(),
        }
    }

    /// A scope in which the given global names count as already used.
    pub fn with_globals(globals: Vec<String>, options: Opt) -> (r: Ir<'a>)
        ensures
            r.minified_name_counter == (if options.minify { Some(0usize) } else { None }),
            forall|g: Seq<char>| #[trigger] r.seen.view_all().contains_key(g) <==> exists|i: int| 0 <= i < globals@.len() && globals@[i]@ == g,
            forall|g: Seq<char>| #[trigger] r.seen.view_all().contains_key(g) ==> r.seen.view_all()[g] == 1,
            r.ssa_names.view_all() == Map::<u64, String>::empty(),
            r.mutable_names.view_all() == Map::<u64, String>::empty(),
            r.label_names.view_all() == Map::<u64, String>::empty(),
    {
        let mut seen = NameCounts::new();
        let ghost gs = globals@;
        for g in it: globals.into_iter()
            invariant
                it.seq() == gs,
                seen.parent is None,
                forall|x: Seq<char>| #[trigger] seen.view_all().contains_key(x) <==> exists|i: int| 0 <= i < it.index() && gs[i]@ == x,
                forall|x: Seq<char>| #[trigger] seen.view_all().contains_key(x) ==> seen.view_all()[x] == 1,
        {
            let ghost k = it.index() as int;
            let ghost gv = g@;
            assert(gs[k] == g);
            seen.set(g, 1);
            assert forall|x: Seq<char>| #[trigger] seen.view_all().contains_key(x) <==> exists|i: int| 0 <= i < k + 1 && gs[i]@ == x by {
                if x == gv {
                    assert(gs[k]@ == x);
                }
            }
        }
        Ir {
            minified_name_counter: if options.minify { Some(0) } else { None },
            seen,
            mutable_names: StackedMap::new(),
            label_names: StackedMap::new(),
            ssa_names: StackedMap::new(),
        }
    }

    /// A scope nested in this one: names declared here shadow the enclosing ones and
    /// go away when it ends.
    pub fn nested(&'a self) -> (r: Ir<'a>)
        ensures
            r.minified_name_counter == self.minified_name_counter,
            r.seen.view_all() == self.seen.view_all(),
            r.ssa_names.view_all() == self.ssa_names.view_all(),
            r.mutable_names.view_all() == self.mutable_names.view_all(),
            r.label_names.view_all() == self.label_names.view_all(),
            r.ssa_names.map@ == Map::<u64, String>::empty(),
            r.mutable_names.map@ == Map::<u64, String>::empty(),
            r.label_names.map@ == Map::<u64, String>::empty(),
            seen_entries_len(&r.seen) == seen_entries_len(&self.seen),
    {
        Ir {
            minified_name_counter: self.minified_name_counter,
            seen: self.seen.child(),
            mutable_names: self.mutable_names.child(),
            label_names: self.label_names.child(),
            ssa_names: self.ssa_names.child(),
        }
    }

    /// A name not in use yet, derived from `prefix` (or, when minifying, the next short name
    /// that does not clash with a global).
    pub fn unique_name(&mut self, prefix: &String) -> (name: String)
        ensures
            unique_name_post(*old(self), prefix@, name@, *final(self)),
            final(self).ssa_names == old(self).ssa_names,
            final(self).mutable_names == old(self).mutable_names,
            final(self).label_names == old(self).label_names,
            final(self).seen.parent == old(self).seen.parent,
            seen_entries_len(&final(self).seen) == seen_entries_len(&old(self).seen) + name_steps(*old(self), prefix@),
    {
        match self.minified_name_counter {
            Some(c0) => {
                let mut counter = c0;
                while self.seen.get(&minified_name(counter)) != 0 && counter < usize::MAX
                    invariant
                        c0 <= counter,
                        first_free(self.seen.view_all(), counter as int) == first_free(self.seen.view_all(), c0 as int),
                    decreases usize::MAX - counter,
                {
                    counter += 1;
                }
                let name = minified_name(counter);
                self.minified_name_counter = Some(counter.saturating_add(1));
                name
            },
            None => {
                let fuel = self.seen.total_len();
                self.unique_name_from(prefix, fuel)
            },
        }
    }

    fn unique_name_from(&mut self, prefix: &String, fuel: u64) -> (name: String)
        requires
            old(self).minified_name_counter is None,
        ensures
            ({
                let (n, m) = unique_from(old(self).seen.view_all(), prefix@, fuel as nat);
                &&& name@ == n
                &&& final(self).seen.view_all() == m
            }),
            seen_entries_len(&final(self).seen) == seen_entries_len(&old(self).seen) + unique_steps(
                old(self).seen.view_all(),
                prefix@,
                fuel as nat,
            ),
            final(self).minified_name_counter is None,
            final(self).seen.parent == old(self).seen.parent,
            final(self).ssa_names == old(self).ssa_names,
            final(self).mutable_names == old(self).mutable_names,
            final(self).label_names == old(self).label_names,
        decreases fuel,
    {
        let mut p = String::new();
        if prefix.as_str().is_empty() {
            push_char(&mut p, '_');
        } else {
            p = prefix.clone();
        }
        let c = self.seen.get(&p);
        self.seen.set(p.clone(), c.saturating_add(1));
        if c == 0 || fuel == 0 {
            p
        } else {
            let mut next = p;
            push_char(&mut next, '$');
            push_decimal(&mut next, c);
            assert(next@ =~= (if prefix@.len() == 0 { seq!['_'] } else { prefix@ }) + seq!['$'] + decimal(c as nat));
            self.unique_name_from(&next, fuel - 1)
        }
    }
}

impl<'a> Ir<'a> {
    pub fn get_ssa(&self, r: &Ref<SSA>) -> (n: Option<String>)
        ensures
            match n {
                Some(x) => self.ssa_names.view_all().contains_key(r.id) && x == self.ssa_names.view_all()[r.id],
                None => !self.ssa_names.view_all().contains_key(r.id),
            },
    {
        broadcast use vstd::std_specs::hash::group_hash_axioms;
        match self.ssa_names.get_all(&r.id) {
            Some(x) => Some(x.clone()),
            None => None,
        }
    }

    pub fn get_mutable(&self, r: &Ref<Mutable>) -> (n: Option<String>)
        ensures
            match n {
                Some(x) => self.mutable_names.view_all().contains_key(r.id) && x == self.mutable_names.view_all()[r.id],
                None => !self.mutable_names.view_all().contains_key(r.id),
            },
    {
        broadcast use vstd::std_specs::hash::group_hash_axioms;
        match self.mutable_names.get_all(&r.id) {
            Some(x) => Some(x.clone()),
            None => None,
        }
    }

    pub fn get_label(&self, r: &Ref<Lbl>) -> (n: Option<String>)
        ensures
            match n {
                Some(x) => self.label_names.view_all().contains_key(r.id) && x == self.label_names.view_all()[r.id],
                None => !self.label_names.view_all().contains_key(r.id),
            },
    {
        broadcast use vstd::std_specs::hash::group_hash_axioms;
        match self.label_names.get_all(&r.id) {
            Some(x) => Some(x.clone()),
            None => None,
        }
    }

    /// Names an SSA ref, declared in this scope (where it must not be declared yet).
    pub fn declare_ssa(&mut self, r: &Ref<SSA>) -> (name: String)
        requires
            !old(self).ssa_names.map@.contains_key(r.id),
        ensures
            unique_name_post(*old(self), r.name_hint@, name@, *final(self)),
            final(self).ssa_names.map@ == old(self).ssa_names.map@.insert(r.id, name),
            final(self).ssa_names.parent == old(self).ssa_names.parent,
            final(self).mutable_names == old(self).mutable_names,
            final(self).label_names == old(self).label_names,
            final(self).seen.parent == old(self).seen.parent,
            seen_entries_len(&final(self).seen) == seen_entries_len(&old(self).seen) + name_steps(*old(self), r.name_hint@),
    {
        broadcast use vstd::std_specs::hash::group_hash_axioms;
        let name = self.unique_name(r.name_hint());
        self.ssa_names.insert_self(r.id, name.clone());
        name
    }

    /// Names a mutable binding, declared in this scope (where it must not be declared yet).
    pub fn declare_mutable(&mut self, r: &Ref<Mutable>) -> (name: String)
        requires
            !old(self).mutable_names.map@.contains_key(r.id),
        ensures
            unique_name_post(*old(self), r.name_hint@, name@, *final(self)),
            final(self).mutable_names.map@ == old(self).mutable_names.map@.insert(r.id, name),
            final(self).mutable_names.parent == old(self).mutable_names.parent,
            final(self).ssa_names == old(self).ssa_names,
            final(self).label_names == old(self).label_names,
            final(self).seen.parent == old(self).seen.parent,
            seen_entries_len(&final(self).seen) == seen_entries_len(&old(self).seen) + name_steps(*old(self), r.name_hint@),
    {
        broadcast use vstd::std_specs::hash::group_hash_axioms;
        let name = self.unique_name(r.name_hint());
        self.mutable_names.insert_self(r.id, name.clone());
        name
    }

    /// Names a label, declared in this scope (where it must not be declared yet).
    pub fn declare_label(&mut self, r: &Ref<Lbl>) -> (name: String)
        requires
            !old(self).label_names.map@.contains_key(r.id),
        ensures
            unique_name_post(*old(self), r.name_hint@, name@, *final(self)),
            final(self).label_names.map@ == old(self).label_names.map@.insert(r.id, name),
            final(self).label_names.parent == old(self).label_names.parent,
            final(self).ssa_names == old(self).ssa_names,
            final(self).mutable_names == old(self).mutable_names,
            final(self).seen.parent == old(self).seen.parent,
            seen_entries_len(&final(self).seen) == seen_entries_len(&old(self).seen) + name_steps(*old(self), r.name_hint@),
    {
        broadcast use vstd::std_specs::hash::group_hash_axioms;
        let name = self.unique_name(r.name_hint());
        self.label_names.insert_self(r.id, name.clone());
        name
    }
}

pub open spec fn seen_entries_len(n: &NameCounts) -> nat
    decreases n,
{
    n.entries@.len() + match n.parent {
        Some(p) => seen_entries_len(p),
        None => 0,
    }
}

impl<'a> NameCounts<'a> {
    /// Number of entries held across this scope and its ancestors, saturating.
    pub fn total_len(&self) -> (r: u64)
        ensures
            r as nat == (if seen_entries_len(self) >= u64::MAX { u64::MAX as nat } else { seen_entries_len(self) }),
        decreases self,
    {
        let own = self.entries.len() as u64;
        let up = match self.parent {
            Some(p) => p.total_len(),
            None => 0,
        };
        own.saturating_add(up)
    }
}

// ---------------------------------------------------------------------------
// Names handed out are fresh.
// ---------------------------------------------------------------------------

/// The names handed out at least once.
pub open spec fn handed_out(seen: Map<Seq<char>, u64>) -> Set<Seq<char>> {
    Set::new(|n: Seq<char>| seen.contains_key(n) && seen[n] > 0)
}

pub open spec fn normalized(prefix: Seq<char>) -> Seq<char> {
    if prefix.len() == 0 { seq!['_'] } else { prefix }
}

proof fn lemma_unique_from_fresh(seen: Map<Seq<char>, u64>, prefix: Seq<char>, fuel: nat, used: Set<Seq<char>>)
    requires
        seen.dom().finite(),
        used.finite(),
        used.subset_of(handed_out(seen)),
        forall|u: Seq<char>| #[trigger] used.contains(u) ==> u.len() < normalized(prefix).len(),
        fuel + used.len() >= handed_out(seen).len(),
    ensures
        count_in_map(seen, unique_from(seen, prefix, fuel).0) == 0,
        unique_from(seen, prefix, fuel).1.contains_key(unique_from(seen, prefix, fuel).0),
        unique_from(seen, prefix, fuel).1[unique_from(seen, prefix, fuel).0] > 0,
    decreases fuel,
{
    let p = normalized(prefix);
    let c = count_in_map(seen, p);
    let seen2 = seen.insert(p, sat_inc(c));
    assert(handed_out(seen).subset_of(seen.dom()));
    vstd::set_lib::lemma_len_subset(handed_out(seen), seen.dom());
    if c == 0 {
        return;
    }
    assert(handed_out(seen).contains(p));
    assert(!used.contains(p));
    if fuel == 0 {
        assert(used.insert(p).subset_of(handed_out(seen)));
        vstd::set_lib::lemma_len_subset(used.insert(p), handed_out(seen));
        assert(false);
    } else {
        let p2 = p + seq!['$'] + decimal(c as nat);
        assert(handed_out(seen2) =~= handed_out(seen));
        assert(normalized(p2) == p2);
        assert forall|u: Seq<char>| #[trigger] used.insert(p).contains(u) implies u.len() < normalized(p2).len() by {
        }
        lemma_unique_from_fresh(seen2, p2, (fuel - 1) as nat, used.insert(p));
        let r = unique_from(seen2, p2, (fuel - 1) as nat).0;
        assert(r != p);
    }
}

proof fn lemma_entries_map_len(entries: Seq<(String, u64)>)
    ensures
        entries_map(entries).dom().finite(),
        entries_map(entries).dom().len() <= entries.len(),
    decreases entries.len(),
{
    if entries.len() > 0 {
        lemma_entries_map_len(entries.drop_last());
        assert(entries_map(entries).dom() =~= entries_map(entries.drop_last()).dom().insert(entries.last().0@));
    }
}

proof fn lemma_view_all_len(n: &NameCounts)
    ensures
        n.view_all().dom().finite(),
        n.view_all().dom().len() <= seen_entries_len(n),
    decreases n,
{
    lemma_entries_map_len(n.entries@);
    match n.parent {
        None => {},
        Some(p) => {
            lemma_view_all_len(p);
            assert(n.view_all().dom() =~= p.view_all().dom().union(entries_map(n.entries@).dom()));
            vstd::set_lib::lemma_len_union(p.view_all().dom(), entries_map(n.entries@).dom());
        },
    }
}

/// A scope that does not minify hands out a name that it, and the scopes it is nested in,
/// have not handed out before; afterwards the name counts as handed out.
pub proof fn law_unique_name_fresh(pre: Ir, prefix: Seq<char>, name: Seq<char>, post: Ir)
    requires
        pre.minified_name_counter is None,
        seen_entries_len(&pre.seen) < u64::MAX,
        unique_name_post(pre, prefix, name, post),
    ensures
        count_in_map(pre.seen.view_all(), name) == 0,
        count_in_map(post.seen.view_all(), name) > 0,
{
    lemma_view_all_len(&pre.seen);
    let seen = pre.seen.view_all();
    assert(handed_out(seen).subset_of(seen.dom()));
    vstd::set_lib::lemma_len_subset(handed_out(seen), seen.dom());
    lemma_unique_from_fresh(seen, prefix, pre.seen_len(), Set::empty());
}

proof fn lemma_first_char_injective(a: nat, b: nat)
    requires
        a < 54,
        b < 54,
        first_char(a) == first_char(b),
    ensures
        a == b,
{
    assert(first_char(a) as int == first_char(b) as int);
}

proof fn lemma_other_char_injective(a: nat, b: nat)
    requires
        a < 64,
        b < 64,
        other_char(a) == other_char(b),
    ensures
        a == b,
{
    assert(other_char(a) as int == other_char(b) as int);
}

proof fn lemma_minified_tail_injective(a: nat, b: nat)
    requires
        minified_tail(a) == minified_tail(b),
    ensures
        a == b,
    decreases a + b,
{
    if a > 64 && b > 64 {
        assert(minified_tail(a)[0] == other_char(a % 64));
        assert(minified_tail(b)[0] == other_char(b % 64));
        lemma_other_char_injective(a % 64, b % 64);
        assert(minified_tail(a).drop_first() =~= minified_tail(a / 64));
        assert(minified_tail(b).drop_first() =~= minified_tail(b / 64));
        lemma_minified_tail_injective(a / 64, b / 64);
    } else if a > 64 {
        assert(minified_tail(a / 64).len() > 0);
        assert(minified_tail(a).len() >= 2);
    } else if b > 64 {
        assert(minified_tail(b / 64).len() > 0);
        assert(minified_tail(b).len() >= 2);
    } else if a > 0 && b > 0 {
        assert(minified_tail(a) == seq![other_char((a - 1) as nat)]);
        assert(minified_tail(b) == seq![other_char((b - 1) as nat)]);
        assert(minified_tail(a)[0] == minified_tail(b)[0]);
        assert(minified_tail(a)[0] == other_char((a - 1) as nat));
        assert(minified_tail(b)[0] == other_char((b - 1) as nat));
        lemma_other_char_injective((a - 1) as nat, (b - 1) as nat);
    } else if a > 0 {
        assert(minified_tail(a).len() == 1);
    } else if b > 0 {
        assert(minified_tail(b).len() == 1);
    }
}

/// Distinct indices have distinct minified names.
pub proof fn law_minified_name_injective(i: nat, j: nat)
    requires
        i != j,
    ensures
        minified_name_spec(i) != minified_name_spec(j),
{
    if minified_name_spec(i) == minified_name_spec(j) {
        assert(minified_name_spec(i)[0] == minified_name_spec(j)[0]);
        lemma_first_char_injective(i % 54, j % 54);
        assert(minified_name_spec(i).drop_first() =~= minified_tail(i / 54));
        assert(minified_name_spec(j).drop_first() =~= minified_tail(j / 54));
        lemma_minified_tail_injective(i / 54, j / 54);
        assert(i == 54 * (i / 54) + i % 54);
        assert(j == 54 * (j / 54) + j % 54);
    }
}

proof fn lemma_first_free_at_least(seen: Map<Seq<char>, u64>, start: int)
    ensures
        first_free(seen, start) >= start,
    decreases usize::MAX - start,
{
    if !(start >= usize::MAX || !seen.contains_key(minified_name_spec(start as nat)) || seen[minified_name_spec(start as nat)] == 0) {
        lemma_first_free_at_least(seen, start + 1);
    }
}

proof fn lemma_first_free_free(seen: Map<Seq<char>, u64>, start: int)
    ensures
        first_free(seen, start) >= usize::MAX || count_in_map(seen, minified_name_spec(first_free(seen, start) as nat)) == 0,
    decreases usize::MAX - start,
{
    if !(start >= usize::MAX || !seen.contains_key(minified_name_spec(start as nat)) || seen[minified_name_spec(start as nat)] == 0) {
        lemma_first_free_free(seen, start + 1);
    }
}

/// A minifying scope hands out names not in use (globals included) and never the same name
/// twice, as long as its counter does not run out.
pub proof fn law_minified_names_fresh(pre: Ir, n1: Seq<char>, mid: Ir, p2: Seq<char>, n2: Seq<char>, post: Ir, p1: Seq<char>)
    requires
        pre.minified_name_counter is Some,
        unique_name_post(pre, p1, n1, mid),
        unique_name_post(mid, p2, n2, post),
        first_free(pre.seen.view_all(), pre.minified_name_counter->0 as int) < usize::MAX,
        first_free(mid.seen.view_all(), mid.minified_name_counter->0 as int) < usize::MAX,
    ensures
        count_in_map(pre.seen.view_all(), n1) == 0,
        count_in_map(mid.seen.view_all(), n2) == 0,
        n1 != n2,
{
    let c = pre.minified_name_counter->0;
    let i1 = first_free(pre.seen.view_all(), c as int);
    lemma_first_free_at_least(pre.seen.view_all(), c as int);
    lemma_first_free_free(pre.seen.view_all(), c as int);
    assert(mid.minified_name_counter == Some((i1 + 1) as usize));
    let c2 = mid.minified_name_counter->0;
    let i2 = first_free(mid.seen.view_all(), c2 as int);
    lemma_first_free_at_least(mid.seen.view_all(), c2 as int);
    lemma_first_free_free(mid.seen.view_all(), c2 as int);
    law_minified_name_injective(i1 as nat, i2 as nat);
}

} // verus!
