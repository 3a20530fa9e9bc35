//! The module registry and the decisions of its lifecycle API: what Apply
//! stores and under which key, what Delete, Get and List find, and the
//! replies they give. The registry holds for each module a handle `C` on the
//! controller that supervises its process.

use vstd::prelude::*;
use vstd::string::StringExecFns;

use crate::event::{generate_topic, label_topics, module_labels, topic_name, APP_LABEL};
use crate::module::{as_map, has_key, set_label, LabelSelector, Labels, Module, ModuleCore, ModuleStatus};
use crate::utility::{core_key, module_core_key};

verus! {

/// A registry entry: key, module, controller handle.
pub type Entry<C> = (Seq<char>, Module, C);

/// Which modules a List request asks for.
pub enum Filter {
    /// The module stored under this identity's name.
    Core(ModuleCore),
    /// Every module whose labels include all of the selector's.
    Label(LabelSelector),
}

/// Why Apply refused a module.
#[derive(PartialEq, Eq, Structural, Clone, Copy, Debug)]
pub enum ApplyError {
    /// The module has no core, so it has no key.
    InvalidModule,
    /// The module has no metadata to carry its labels.
    MissingMetadata,
}

/// The message of an Apply error.
pub open spec fn apply_error_message(e: ApplyError) -> Seq<char> {
    match e {
        ApplyError::InvalidModule => "invalid module: failed to create a key"@,
        ApplyError::MissingMetadata => "invalid module - metadata cannot be empty"@,
    }
}

impl ApplyError {
    /// What went wrong, in words.
    pub fn message(&self) -> (r: String)
        ensures
            r@ == apply_error_message(*self),
    {
        match self {
            ApplyError::InvalidModule => String::from_str("invalid module: failed to create a key"),
            ApplyError::MissingMetadata => String::from_str(
                "invalid module - metadata cannot be empty",
            ),
        }
    }
}

/// Keys that appear at most once in the registry.
pub open spec fn unique_entry_keys<C>(s: Seq<Entry<C>>) -> bool {
    forall|i: int, j: int|
        0 <= i < s.len() && 0 <= j < s.len() && i != j ==> #[trigger] s[i].0 != #[trigger] s[j].0
}

/// The registry has an entry under `k`.
pub open spec fn has_entry<C>(s: Seq<Entry<C>>, k: Seq<char>) -> bool {
    exists|i: int| 0 <= i < s.len() && #[trigger] s[i].0 == k
}

/// Position of the entry under `k`, in a registry that has one.
pub open spec fn entry_index<C>(s: Seq<Entry<C>>, k: Seq<char>) -> int {
    choose|i: int| 0 <= i < s.len() && #[trigger] s[i].0 == k
}

/// The entry's module has an identity with this name.
pub open spec fn names<C>(e: Entry<C>, name: Seq<char>) -> bool {
    e.1.core is Some && e.1.core->0.name@ == name
}

/// Some module of the registry has an identity with this name.
pub open spec fn has_named<C>(s: Seq<Entry<C>>, name: Seq<char>) -> bool {
    exists|i: int| 0 <= i < s.len() && names(#[trigger] s[i], name)
}

/// Position of the first module whose identity has this name.
pub open spec fn first_named<C>(s: Seq<Entry<C>>, name: Seq<char>) -> int {
    choose|i: int|
        0 <= i < s.len() && names(#[trigger] s[i], name) && forall|j: int|
            0 <= j < i ==> !names(#[trigger] s[j], name)
}

/// The entry that a request naming `name` refers to: the one stored under
/// `name` as a key, else the first whose module's identity has that name.
pub open spec fn lookup<C>(s: Seq<Entry<C>>, name: Seq<char>) -> Option<int> {
    if has_entry(s, name) {
        Some(entry_index(s, name))
    } else if has_named(s, name) {
        Some(first_named(s, name))
    } else {
        None
    }
}

/// The registry after Apply stores `md` with controller `c` under `k`: an
/// entry already under `k` is dropped and the new one goes at the end.
pub open spec fn installed<C>(s: Seq<Entry<C>>, k: Seq<char>, md: Module, c: C) -> Seq<Entry<C>> {
    if has_entry(s, k) {
        s.remove(entry_index(s, k)).push((k, md, c))
    } else {
        s.push((k, md, c))
    }
}

/// The registry without the entry stored under key `k`.
pub open spec fn removed<C>(s: Seq<Entry<C>>, k: Seq<char>) -> Seq<Entry<C>> {
    if has_entry(s, k) {
        s.remove(entry_index(s, k))
    } else {
        s
    }
}

/// The registry after Delete of `name`.
pub open spec fn deleted<C>(s: Seq<Entry<C>>, name: Seq<char>) -> Seq<Entry<C>> {
    match lookup(s, name) {
        Some(i) => s.remove(i),
        None => s,
    }
}

/// The labels of a module as a mapping; none without metadata.
pub open spec fn labels_map(md: Module) -> Map<Seq<char>, Seq<char>> {
    match md.metadata {
        Some(m) => m.labels.map(),
        None => Map::empty(),
    }
}

/// Every pair of the selector is among the labels.
pub open spec fn selects(labels: Map<Seq<char>, Seq<char>>, selector: Map<Seq<char>, Seq<char>>) -> bool {
    forall|k: Seq<char>|
        #[trigger] selector.contains_key(k) ==> labels.contains_key(k) && labels[k] == selector[k]
}

/// The modules of the registry that a label selector selects, in registry
/// order.
pub open spec fn selected<C>(s: Seq<Entry<C>>, selector: Map<Seq<char>, Seq<char>>) -> Seq<Module>
    decreases s.len(),
{
    if s.len() == 0 {
        Seq::empty()
    } else if selects(labels_map(s.last().1), selector) {
        selected(s.drop_last(), selector).push(s.last().1)
    } else {
        selected(s.drop_last(), selector)
    }
}

/// The modules that a List with this filter streams.
pub open spec fn listed<C>(s: Seq<Entry<C>>, f: Filter) -> Seq<Module> {
    match f {
        Filter::Core(c) => match lookup(s, c.name@) {
            Some(i) => seq![s[i].1],
            None => Seq::empty(),
        },
        Filter::Label(sel) => selected(s, sel.selector.map()),
    }
}

/// `md` after Apply's annotation with its key.
pub open spec fn annotated(md: Module, key: Seq<char>, r: Module) -> bool {
    &&& r.core == md.core
    &&& r.spec == md.spec
    &&& r.status == md.status
    &&& md.metadata is Some && r.metadata is Some
    &&& r.metadata->0.release == md.metadata->0.release
    &&& r.metadata->0.labels@ == set_label(md.metadata->0.labels@, APP_LABEL@, key)
}

/// The label `core.hyperion.io/app` with the module's key as value.
pub fn get_module_name_label(md: &Module) -> (r: (String, String))
    requires
        md.core is Some,
    ensures
        r.0@ == APP_LABEL@,
        r.1@ == core_key(md.core->0),
{
    let key = match module_core_key(md) {
        Ok(k) => k,
        Err(_) => String::new(),
    };
    (String::from_str(APP_LABEL), key)
}

/// Adds the label `core.hyperion.io/app = key` to the module; a module
/// without metadata is refused and left as it was.
pub fn setup_defaults(md: &mut Module, key: String) -> (r: Result<(), ApplyError>)
    ensures
        old(md).metadata is None <==> r is Err,
        r is Err ==> r->Err_0 == ApplyError::MissingMetadata && *final(md) == *old(md),
        r is Ok ==> annotated(*old(md), key@, *final(md)),
{
    match &mut md.metadata {
        Some(m) => {
            m.labels.insert(String::from_str(APP_LABEL), key);
            Ok(())
        },
        None => Err(ApplyError::MissingMetadata),
    }
}

/// What Apply stores: the module's key, and the module annotated with it.
/// A module without core or without metadata is refused.
pub fn prepare(md: Module) -> (r: Result<(String, Module), ApplyError>)
    ensures
        md.core is None ==> r == Err::<(String, Module), ApplyError>(ApplyError::InvalidModule),
        md.core is Some && md.metadata is None ==> r == Err::<(String, Module), ApplyError>(
            ApplyError::MissingMetadata,
        ),
        md.core is Some && md.metadata is Some ==> r is Ok && r->Ok_0.0@ == core_key(md.core->0)
            && annotated(md, r->Ok_0.0@, r->Ok_0.1),
{
    let key = match module_core_key(&md) {
        Ok(k) => k,
        Err(_) => {
            return Err(ApplyError::InvalidModule);
        },
    };
    let mut md = md;
    match setup_defaults(&mut md, key.clone()) {
        Ok(()) => Ok((key, md)),
        Err(e) => Err(e),
    }
}

/// Reply of a successful Apply: `"applied {key}"`.
pub fn apply_reply(key: &str) -> (r: String)
    ensures
        r@ == "applied "@ + key@,
{
    let mut s = String::from_str("applied ");
    s.append(key);
    s
}

/// Reply of Delete: `"deleted {name}"`, or the error `"{name} not found"`.
pub fn delete_reply(name: &str, found: bool) -> (r: Result<String, String>)
    ensures
        found ==> r is Ok && r->Ok_0@ == "deleted "@ + name@,
        !found ==> r is Err && r->Err_0@ == name@ + " not found"@,
{
    if found {
        let mut s = String::from_str("deleted ");
        s.append(name);
        Ok(s)
    } else {
        let mut s = String::from_str(name);
        s.append(" not found");
        Err(s)
    }
}

/// Error of Get for a name with no module: `module with key "{name}" not found`.
pub fn get_not_found(name: &str) -> (r: String)
    ensures
        r@ == "module with key \""@ + name@ + "\" not found"@,
{
    let mut s = String::from_str("module with key \"");
    s.append(name);
    s.append("\" not found");
    s
}

/// The implicit topic of kind `kind` of the module stored under `key`.
pub fn module_topic(key: &str, kind: &str) -> (r: String)
    ensures
        r@ == topic_name(kind@, APP_LABEL@, key@),
{
    generate_topic(kind, APP_LABEL, key)
}

/// The module with its status set to `msg`.
pub fn with_status(md: Module, msg: String) -> (r: Module)
    ensures
        r.core == md.core,
        r.metadata == md.metadata,
        r.spec == md.spec,
        r.status == Some(ModuleStatus { msg }),
{
    Module { core: md.core, metadata: md.metadata, spec: md.spec, status: Some(ModuleStatus { msg }) }
}

/// Every pair of `selector` is among `labels`.
pub fn matches_selector(labels: &Labels, selector: &Labels) -> (r: bool)
    ensures
        r == selects(labels.map(), selector.map()),
{
    let mut i: usize = 0;
    while i < selector.len()
        invariant
            i <= selector@.len(),
            forall|j: int|
                0 <= j < i ==> labels.map().contains_key(#[trigger] selector@[j].0) && labels.map()[selector@[j].0]
                    == selector@[j].1,
        decreases selector@.len() - i,
    {
        let key = selector.key_at(i);
        match labels.get(key) {
            Some(v) => {
                if *v != *selector.value_at(i) {
                    proof {
                        use_type_invariant(selector);
                        lemma_map_at(selector@, i as int);
                    }
                    return false;
                }
            },
            None => {
                assert(selector.map().contains_key(key@));
                return false;
            },
        }
        i = i + 1;
    }
    proof {
        assert forall|k: Seq<char>| #[trigger] selector.map().contains_key(k) implies labels.map().contains_key(k)
            && labels.map()[k] == selector.map()[k] by {
            let j = crate::module::key_index(selector@, k);
            assert(selector@[j].0 == k);
        }
    }
    true
}

proof fn lemma_map_at(s: Seq<(Seq<char>, Seq<char>)>, i: int)
    requires
        crate::module::unique_keys(s),
        0 <= i < s.len(),
    ensures
        as_map(s).contains_key(s[i].0),
        as_map(s)[s[i].0] == s[i].1,
{
    assert(has_key(s, s[i].0));
    let c = crate::module::key_index(s, s[i].0);
    if c != i {
        assert(s[c].0 == s[i].0);
    }
}

/// The registry: for each key, the module stored under it and the handle on
/// its controller.
pub struct Manager<C> {
    modules: Vec<(String, Module, C)>,
}

impl<C> Manager<C> {
    /// The entries as mathematical values, in the order they were stored.
    pub closed spec fn entries(&self) -> Seq<Entry<C>> {
        self.modules@.map_values(|e: (String, Module, C)| (e.0@, e.1, e.2))
    }

    #[verifier::type_invariant]
    spec fn one_entry_per_key(self) -> bool {
        unique_entry_keys(self.entries())
    }

    /// An empty registry.
    pub fn new() -> (r: Manager<C>)
        ensures
            r.entries() == Seq::<Entry<C>>::empty(),
    {
        let r = Manager { modules: Vec::new() };
        assert(r.entries() =~= Seq::<Entry<C>>::empty());
        r
    }

    /// Number of modules stored.
    pub fn len(&self) -> (r: usize)
        ensures
            r == self.entries().len(),
    {
        self.modules.len()
    }

    fn position(&self, key: &String) -> (r: Option<usize>)
        ensures
            r is None <==> !has_entry(self.entries(), key@),
            r is Some ==> r->0 == entry_index(self.entries(), key@) && r->0 < self.entries().len(),
    {
        proof {
            use_type_invariant(self);
        }
        let ghost s = self.entries();
        let mut i: usize = 0;
        while i < self.modules.len()
            invariant
                i <= self.modules@.len(),
                s == self.entries(),
                s.len() == self.modules@.len(),
                unique_entry_keys(s),
                forall|j: int| 0 <= j < i ==> #[trigger] s[j].0 != key@,
            decreases self.modules@.len() - i,
        {
            if self.modules[i].0 == *key {
                assert(self.entries()[i as int].0 == key@);
                let ghost c = entry_index(s, key@);
                assert(s[c].0 == s[i as int].0);
                return Some(i);
            }
            assert(self.entries()[i as int].0 != key@);
            i = i + 1;
        }
        None
    }

    fn find_named(&self, name: &String) -> (r: Option<usize>)
        ensures
            r is None <==> !has_named(self.entries(), name@),
            r is Some ==> r->0 == first_named(self.entries(), name@) && r->0 < self.entries().len(),
    {
        let ghost s = self.entries();
        let mut i: usize = 0;
        while i < self.modules.len()
            invariant
                i <= self.modules@.len(),
                s == self.entries(),
                s.len() == self.modules@.len(),
                forall|j: int| 0 <= j < i ==> !names(#[trigger] s[j], name@),
            decreases self.modules@.len() - i,
        {
            let hit = match &self.modules[i].1.core {
                Some(c) => c.name == *name,
                None => false,
            };
            assert(s[i as int].1 == self.modules@[i as int].1);
            if hit {
                proof {
                    let f = first_named(s, name@);
                    assert(names(s[i as int], name@));
                    assert(0 <= f < s.len() && names(s[f], name@));
                    if f < i {
                        assert(!names(s[f], name@));
                    }
                    if f > i {
                        assert(!names(s[i as int], name@));
                    }
                }
                return Some(i);
            }
            i = i + 1;
        }
        None
    }

    fn resolve(&self, name: &String) -> (r: Option<usize>)
        ensures
            match lookup(self.entries(), name@) {
                Some(i) => r is Some && r->0 as int == i && i < self.entries().len(),
                None => r is None,
            },
    {
        match self.position(name) {
            Some(i) => Some(i),
            None => self.find_named(name),
        }
    }

    /// Stores `md` with controller `controller` under `key`, replacing the
    /// entry already there, which is handed back so that its controller can
    /// be stopped.
    pub fn install(&mut self, key: String, md: Module, controller: C) -> (r: Option<(Module, C)>)
        ensures
            final(self).entries() == installed(old(self).entries(), key@, md, controller),
            has_entry(old(self).entries(), key@) ==> r is Some && r->0 == (
                old(self).entries()[entry_index(old(self).entries(), key@)].1,
                old(self).entries()[entry_index(old(self).entries(), key@)].2,
            ),
            !has_entry(old(self).entries(), key@) ==> r is None,
    {
        proof {
            use_type_invariant(&*self);
        }
        let ghost before = self.entries();
        let ghost k = key@;
        let ghost m = md;
        let ghost c = controller;
        let found = self.position(&key);
        let mut taken = Manager { modules: Vec::new() };
        assert(taken.entries() =~= Seq::<Entry<C>>::empty());
        std::mem::swap(self, &mut taken);
        let Manager { mut modules } = taken;
        let previous = match found {
            Some(i) => {
                let (_, old_md, old_c) = modules.remove(i);
                Some((old_md, old_c))
            },
            None => None,
        };
        modules.push((key, md, controller));
        proof {
            let after = (Manager { modules }).entries();
            let mid = if found is Some {
                before.remove(found->0 as int)
            } else {
                before
            };
            assert(after =~= mid.push((k, m, c)));
            assert forall|i: int| 0 <= i < mid.len() implies #[trigger] mid[i].0 != k by {
                if found is Some {
                    let f = found->0 as int;
                    let i1 = if i < f {
                        i
                    } else {
                        i + 1
                    };
                    assert(mid[i] == before[i1]);
                    assert(before[i1].0 != before[f].0);
                } else {
                    assert(!(before[i].0 == k));
                }
            }
            assert forall|i: int, j: int|
                0 <= i < after.len() && 0 <= j < after.len() && i != j implies #[trigger] after[i].0
                != #[trigger] after[j].0 by {
                if i < mid.len() && j < mid.len() {
                    if found is Some {
                        let f = found->0 as int;
                        let i1 = if i < f {
                            i
                        } else {
                            i + 1
                        };
                        let j1 = if j < f {
                            j
                        } else {
                            j + 1
                        };
                        assert(mid[i] == before[i1]);
                        assert(mid[j] == before[j1]);
                    }
                } else if i < mid.len() {
                    assert(mid[i].0 != k);
                } else {
                    assert(mid[j].0 != k);
                }
            }
        }
        *self = Manager { modules };
        previous
    }

    /// Takes out the module that `name` refers to, if any: the one stored
    /// under `name` as a key, else the first whose identity has that name.
    pub fn remove(&mut self, name: &String) -> (r: Option<(Module, C)>)
        ensures
            final(self).entries() == deleted(old(self).entries(), name@),
            match lookup(old(self).entries(), name@) {
                Some(i) => r is Some && r->0 == (old(self).entries()[i].1, old(self).entries()[i].2),
                None => r is None,
            },
    {
        proof {
            use_type_invariant(&*self);
        }
        let ghost before = self.entries();
        match self.resolve(name) {
            Some(i) => {
                let mut taken = Manager { modules: Vec::new() };
                assert(taken.entries() =~= Seq::<Entry<C>>::empty());
                std::mem::swap(self, &mut taken);
                let Manager { mut modules } = taken;
                let (_, md, c) = modules.remove(i);
                proof {
                    let after = (Manager { modules }).entries();
                    assert(after =~= before.remove(i as int));
                    assert forall|a: int, b: int|
                        0 <= a < after.len() && 0 <= b < after.len() && a != b implies #[trigger] after[a].0
                        != #[trigger] after[b].0 by {
                        let a1 = if a < i {
                            a
                        } else {
                            a + 1
                        };
                        let b1 = if b < i {
                            b
                        } else {
                            b + 1
                        };
                        assert(after[a] == before[a1]);
                        assert(after[b] == before[b1]);
                    }
                }
                *self = Manager { modules };
                Some((md, c))
            },
            None => None,
        }
    }

    /// The module that `name` refers to, with its controller, if any: the
    /// one stored under `name` as a key, else the first whose identity has
    /// that name.
    pub fn get(&self, name: &String) -> (r: Option<(&Module, &C)>)
        ensures
            match lookup(self.entries(), name@) {
                Some(i) => match r {
                    Some((md, c)) => *md == self.entries()[i].1 && *c == self.entries()[i].2,
                    None => false,
                },
                None => r is None,
            },
    {
        match self.resolve(name) {
            Some(i) => Some((&self.modules[i].1, &self.modules[i].2)),
            None => None,
        }
    }

    /// The topic that WatchData (`kind` "data") or WatchLog (`kind` "log")
    /// follows for the module that `core.name` refers to: the implicit topic
    /// of its key; where no module is found, that of the name itself.
    pub fn watch_topic(&self, core: &ModuleCore, kind: &str) -> (r: String)
        ensures
            match lookup(self.entries(), core.name@) {
                Some(i) => r@ == topic_name(kind@, APP_LABEL@, self.entries()[i].0),
                None => r@ == topic_name(kind@, APP_LABEL@, core.name@),
            },
    {
        match self.resolve(&core.name) {
            Some(i) => module_topic(self.modules[i].0.as_str(), kind),
            None => module_topic(core.name.as_str(), kind),
        }
    }

    /// The modules that a List request with `filter` streams: the one stored
    /// under the identity's name, or each one whose labels include the
    /// selector's, in registry order. A module without metadata has no
    /// labels.
    pub fn list(&self, filter: &Filter) -> (r: Vec<&Module>)
        ensures
            r@.len() == listed(self.entries(), *filter).len(),
            forall|i: int| 0 <= i < r@.len() ==> *(#[trigger] r@[i]) == listed(self.entries(), *filter)[i],
    {
        let mut r: Vec<&Module> = Vec::new();
        match filter {
            Filter::Core(c) => {
                match self.get(&c.name) {
                    Some((md, _)) => {
                        r.push(md);
                    },
                    None => {},
                }
            },
            Filter::Label(label_selector) => {
                let sel = &label_selector.selector;
                let ghost s = self.entries();
                let mut i: usize = 0;
                while i < self.modules.len()
                    invariant
                        i <= self.modules@.len(),
                        s == self.entries(),
                        s.len() == self.modules@.len(),
                        *filter == Filter::Label(*label_selector),
                        *sel == label_selector.selector,
                        r@.len() == selected(s.subrange(0, i as int), sel.map()).len(),
                        forall|j: int|
                            0 <= j < r@.len() ==> *(#[trigger] r@[j]) == selected(
                                s.subrange(0, i as int),
                                sel.map(),
                            )[j],
                    decreases self.modules@.len() - i,
                {
                    let md = &self.modules[i].1;
                    assert(s.subrange(0, i + 1).drop_last() =~= s.subrange(0, i as int));
                    assert(s.subrange(0, i + 1).last().1 == *md);
                    let take = match &md.metadata {
                        Some(m) => matches_selector(&m.labels, sel),
                        None => {
                            let empty = Labels::new();
                            proof {
                                assert(empty.map() =~= Map::<Seq<char>, Seq<char>>::empty());
                            }
                            matches_selector(&empty, sel)
                        },
                    };
                    if take {
                        r.push(md);
                    }
                    i = i + 1;
                }
                assert(s.subrange(0, i as int) =~= s);
            },
        }
        r
    }
}

/// Once Apply has annotated a module with its key, the module's data and log
/// topics include its implicit topics `core.hyperion.io/app={key}.data` and
/// `...log`, besides the topic of every other label it had.
pub proof fn lemma_annotated_topics(md: Module, key: Seq<char>, r: Module, kind: Seq<char>)
    requires
        annotated(md, key, r),
        crate::module::unique_keys(md.metadata->0.labels@),
    ensures
        label_topics(module_labels(r), kind).contains(topic_name(kind, APP_LABEL@, key)),
        forall|j: int|
            0 <= j < module_labels(md).len() && (#[trigger] module_labels(md)[j]).0 != APP_LABEL@
                ==> label_topics(module_labels(r), kind).contains(
                topic_name(kind, module_labels(md)[j].0, module_labels(md)[j].1),
            ),
{
    let before = md.metadata->0.labels@;
    let after = r.metadata->0.labels@;
    let topics = label_topics(after, kind);
    let i = if has_key(before, APP_LABEL@) {
        crate::module::key_index(before, APP_LABEL@)
    } else {
        before.len() as int
    };
    assert(after[i] == (APP_LABEL@, key));
    assert(topics[i] == topic_name(kind, APP_LABEL@, key));
    assert forall|j: int|
        0 <= j < module_labels(md).len() && (#[trigger] module_labels(md)[j]).0 != APP_LABEL@
            implies topics.contains(topic_name(kind, module_labels(md)[j].0, module_labels(md)[j].1)) by {
        assert(after[j] == before[j]);
        assert(topics[j] == topic_name(kind, before[j].0, before[j].1));
    }
}

/// Applying a module twice under one key leaves one entry for that key, the
/// one applied last, and no other entry changes.
pub proof fn lemma_apply_twice_one_entry<C>(
    s: Seq<Entry<C>>,
    k: Seq<char>,
    m1: Module,
    c1: C,
    m2: Module,
    c2: C,
)
    requires
        unique_entry_keys(s),
    ensures
        ({
            let t = installed(installed(s, k, m1, c1), k, m2, c2);
            &&& unique_entry_keys(t)
            &&& forall|i: int| 0 <= i < t.len() && #[trigger] t[i].0 == k ==> i == t.len() - 1
            &&& t.last() == (k, m2, c2)
            &&& removed(t, k) == removed(s, k)
        }),
{
    lemma_installed(s, k, m1, c1);
    let s1 = installed(s, k, m1, c1);
    lemma_installed(s1, k, m2, c2);
    let t = installed(s1, k, m2, c2);
    assert(t[t.len() - 1].0 == k);
    assert(has_entry(t, k));
    let e = entry_index(t, k);
    assert(e == t.len() - 1) by {
        if e != t.len() - 1 {
            assert(t[e].0 == t[t.len() - 1].0);
        }
    }
    assert(t.remove(e) =~= removed(s1, k));
    assert(s1[s1.len() - 1].0 == k);
    assert(has_entry(s1, k));
    let e1 = entry_index(s1, k);
    assert(e1 == s1.len() - 1) by {
        if e1 != s1.len() - 1 {
            assert(s1[e1].0 == s1[s1.len() - 1].0);
        }
    }
    assert(s1.remove(e1) =~= removed(s, k));
}

/// Storing under a key keeps keys unique; the registry minus that key is the
/// one from before minus that key.
proof fn lemma_installed<C>(s: Seq<Entry<C>>, k: Seq<char>, md: Module, c: C)
    requires
        unique_entry_keys(s),
    ensures
        unique_entry_keys(installed(s, k, md, c)),
        installed(s, k, md, c).last() == (k, md, c),
        forall|i: int|
            0 <= i < installed(s, k, md, c).len() - 1 ==> #[trigger] installed(s, k, md, c)[i].0 != k,
        installed(s, k, md, c).drop_last() == removed(s, k),
{
    let t = installed(s, k, md, c);
    let mid = removed(s, k);
    assert(t =~= mid.push((k, md, c)));
    assert(t.drop_last() =~= mid);
    assert forall|i: int| 0 <= i < mid.len() implies #[trigger] mid[i].0 != k by {
        if has_entry(s, k) {
            let f = entry_index(s, k);
            let i1 = if i < f {
                i
            } else {
                i + 1
            };
            assert(mid[i] == s[i1]);
            assert(s[i1].0 != s[f].0);
        }
    }
    assert forall|i: int, j: int|
        0 <= i < t.len() && 0 <= j < t.len() && i != j implies #[trigger] t[i].0 != #[trigger] t[j].0 by {
        if i < mid.len() && j < mid.len() {
            if has_entry(s, k) {
                let f = entry_index(s, k);
                let i1 = if i < f {
                    i
                } else {
                    i + 1
                };
                let j1 = if j < f {
                    j
                } else {
                    j + 1
                };
                assert(mid[i] == s[i1]);
                assert(mid[j] == s[j1]);
            }
        } else if i < mid.len() {
            assert(mid[i].0 != k);
        } else {
            assert(mid[j].0 != k);
        }
    }
    assert forall|i: int| 0 <= i < t.len() - 1 implies #[trigger] t[i].0 != k by {
        assert(t[i] == mid[i]);
    }
}

} // verus!
