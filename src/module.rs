//! The declarative description of a module: identity, labels and release
//! artifacts, the spec of its inputs, and its reported status.

use vstd::prelude::*;

verus! {

/// Keys that appear at most once in a list of label pairs.
pub open spec fn unique_keys(s: Seq<(Seq<char>, Seq<char>)>) -> bool {
    forall|i: int, j: int|
        0 <= i < s.len() && 0 <= j < s.len() && i != j ==> #[trigger] s[i].0 != #[trigger] s[j].0
}

/// The pair list has an entry under `k`.
pub open spec fn has_key(s: Seq<(Seq<char>, Seq<char>)>, k: Seq<char>) -> bool {
    exists|i: int| 0 <= i < s.len() && #[trigger] s[i].0 == k
}

/// Position of the entry under `k`, in a list that has one.
pub open spec fn key_index(s: Seq<(Seq<char>, Seq<char>)>, k: Seq<char>) -> int
    recommends
        has_key(s, k),
{
    choose|i: int| 0 <= i < s.len() && #[trigger] s[i].0 == k
}

/// The pair list as a mapping from key to value.
pub open spec fn as_map(s: Seq<(Seq<char>, Seq<char>)>) -> Map<Seq<char>, Seq<char>> {
    Map::new(|k: Seq<char>| has_key(s, k), |k: Seq<char>| s[key_index(s, k)].1)
}

/// The pair list after setting `k` to `v`: the value is replaced in place
/// where the key is present, else the pair is added at the end.
pub open spec fn set_label(s: Seq<(Seq<char>, Seq<char>)>, k: Seq<char>, v: Seq<char>) -> Seq<
    (Seq<char>, Seq<char>),
> {
    if has_key(s, k) {
        s.update(key_index(s, k), (k, v))
    } else {
        s.push((k, v))
    }
}

/// Labels of a module, or a label selector: string pairs with unique keys,
/// in the order in which their keys were first set.
#[derive(Debug)]
pub struct Labels {
    entries: Vec<(String, String)>,
}

impl View for Labels {
    type V = Seq<(Seq<char>, Seq<char>)>;

    closed spec fn view(&self) -> Seq<(Seq<char>, Seq<char>)> {
        self.entries@.map_values(|e: (String, String)| (e.0@, e.1@))
    }
}

impl Labels {
    /// No key appears twice.
    #[verifier::type_invariant]
    pub open spec fn keys_are_unique(self) -> bool {
        unique_keys(self@)
    }

    /// No labels.
    pub fn new() -> (r: Labels)
        ensures
            r@ == Seq::<(Seq<char>, Seq<char>)>::empty(),
    {
        let r = Labels { entries: Vec::new() };
        assert(r@ =~= Seq::<(Seq<char>, Seq<char>)>::empty());
        r
    }

    /// The labels seen as a mapping.
    pub open spec fn map(&self) -> Map<Seq<char>, Seq<char>> {
        as_map(self@)
    }

    /// Number of labels.
    pub fn len(&self) -> (r: usize)
        ensures
            r == self@.len(),
    {
        self.entries.len()
    }

    /// Key of the `i`-th label.
    pub fn key_at(&self, i: usize) -> (r: &String)
        requires
            i < self@.len(),
        ensures
            r@ == self@[i as int].0,
    {
        &self.entries[i].0
    }

    /// Value of the `i`-th label.
    pub fn value_at(&self, i: usize) -> (r: &String)
        requires
            i < self@.len(),
        ensures
            r@ == self@[i as int].1,
    {
        &self.entries[i].1
    }

    /// Position of the label under `key`, if any.
    pub fn find(&self, key: &String) -> (r: Option<usize>)
        ensures
            r is None <==> !has_key(self@, key@),
            r is Some ==> r->0 < self@.len() && self@[r->0 as int].0 == key@ && r->0 == key_index(
                self@,
                key@,
            ),
    {
        proof {
            use_type_invariant(self);
            assert(unique_keys(self@));
        }
        let mut i: usize = 0;
        while i < self.entries.len()
            invariant
                i <= self@.len(),
                self@.len() == self.entries@.len(),
                forall|j: int| 0 <= j < i ==> #[trigger] self@[j].0 != key@,
                unique_keys(self@),
            decreases self@.len() - i,
        {
            if self.entries[i].0 == *key {
                assert(self@[i as int].0 == key@);
                let ghost c = key_index(self@, key@);
                assert(0 <= c < self@.len() && self@[c].0 == key@);
                assert(self@[c].0 == self@[i as int].0);
                assert(c == i as int);
                return Some(i);
            }
            i = i + 1;
        }
        None
    }

    /// Value under `key`, if any.
    pub fn get(&self, key: &String) -> (r: Option<&String>)
        ensures
            r is None <==> !self.map().contains_key(key@),
            r is Some ==> r->0@ == self.map()[key@],
    {
        match self.find(key) {
            Some(i) => Some(&self.entries[i].1),
            None => None,
        }
    }

    /// Sets `key` to `value`, in place where the key is present.
    pub fn insert(&mut self, key: String, value: String)
        ensures
            final(self)@ == set_label(old(self)@, key@, value@),
    {
        proof {
            use_type_invariant(&*self);
        }
        let ghost k = key@;
        let ghost v = value@;
        let ghost before = self@;
        let found = self.find(&key);
        let mut taken = Labels { entries: Vec::new() };
        assert(taken@ =~= Seq::<(Seq<char>, Seq<char>)>::empty());
        std::mem::swap(self, &mut taken);
        let Labels { mut entries } = taken;
        match found {
            Some(i) => {
                entries.set(i, (key, value));
                assert(entries@.map_values(|e: (String, String)| (e.0@, e.1@)) =~= before.update(
                    i as int,
                    (k, v),
                ));
            },
            None => {
                entries.push((key, value));
                assert(entries@.map_values(|e: (String, String)| (e.0@, e.1@)) =~= before.push(
                    (k, v),
                ));
            },
        }
        proof {
            let after = (Labels { entries })@;
            assert forall|x: int, y: int|
                0 <= x < after.len() && 0 <= y < after.len() && x != y implies #[trigger] after[x].0
                != #[trigger] after[y].0 by {
                if found is None {
                    assert(!has_key(before, k));
                    if x < before.len() && y < before.len() {
                        assert(before[x].0 != before[y].0);
                    } else if x < before.len() {
                        assert(before[x].0 != k);
                    } else {
                        assert(before[y].0 != k);
                    }
                } else {
                    let i = found->0 as int;
                    if x != i && y != i {
                        assert(before[x].0 != before[y].0);
                    } else if x == i {
                        assert(before[y].0 != before[i].0);
                    } else {
                        assert(before[x].0 != before[i].0);
                    }
                }
            }
        }
        *self = Labels { entries };
    }

    /// Labels from pairs, a later pair replacing the value of an earlier one
    /// with the same key.
    pub fn from_pairs(pairs: Vec<(String, String)>) -> (r: Labels)
        ensures
            r@ == set_all(Seq::empty(), pairs@.map_values(|e: (String, String)| (e.0@, e.1@))),
    {
        let mut r = Labels::new();
        let ghost ps = pairs@.map_values(|e: (String, String)| (e.0@, e.1@));
        let n = pairs.len();
        let mut i: usize = 0;
        while i < n
            invariant
                n == pairs@.len(),
                n == ps.len(),
                i <= n,
                ps == pairs@.map_values(|e: (String, String)| (e.0@, e.1@)),
                r@ == set_all(Seq::empty(), ps.subrange(0, i as int)),
            decreases n - i,
        {
            let k = pairs[i].0.clone();
            let v = pairs[i].1.clone();
            proof {
                lemma_set_all_push(Seq::empty(), ps.subrange(0, i as int), (k@, v@));
                assert(ps.subrange(0, i as int).push((k@, v@)) =~= ps.subrange(0, i + 1));
            }
            r.insert(k, v);
            i = i + 1;
        }
        assert(ps.subrange(0, n as int) =~= ps);
        r
    }
}

impl Clone for Labels {
    fn clone(&self) -> (r: Labels)
        ensures
            r@ == self@,
    {
        proof {
            use_type_invariant(self);
        }
        let mut entries: Vec<(String, String)> = Vec::new();
        let mut i: usize = 0;
        while i < self.entries.len()
            invariant
                i <= self.entries@.len(),
                entries@.len() == i,
                forall|j: int| 0 <= j < i ==> (#[trigger] entries@[j]).0@ == self.entries@[j].0@
                    && entries@[j].1@ == self.entries@[j].1@,
            decreases self.entries@.len() - i,
        {
            entries.push((self.entries[i].0.clone(), self.entries[i].1.clone()));
            i = i + 1;
        }
        let ghost copy = (Labels { entries })@;
        assert(copy =~= self@);
        Labels { entries }
    }
}

/// Pairs set one after the other.
pub open spec fn set_all(s: Seq<(Seq<char>, Seq<char>)>, pairs: Seq<(Seq<char>, Seq<char>)>) -> Seq<
    (Seq<char>, Seq<char>),
>
    decreases pairs.len(),
{
    if pairs.len() == 0 {
        s
    } else {
        set_label(set_all(s, pairs.drop_last()), pairs.last().0, pairs.last().1)
    }
}

proof fn lemma_set_all_push(
    s: Seq<(Seq<char>, Seq<char>)>,
    pairs: Seq<(Seq<char>, Seq<char>)>,
    p: (Seq<char>, Seq<char>),
)
    ensures
        set_all(s, pairs.push(p)) == set_label(set_all(s, pairs), p.0, p.1),
{
    assert(pairs.push(p).drop_last() =~= pairs);
}

/// Identity of a module.
#[derive(Clone, Debug)]
pub struct ModuleCore {
    pub namespace: String,
    pub name: String,
    pub version: String,
}

/// Where the executable of a module for one platform is, and its SHA-256
/// digest in hexadecimal.
#[derive(Clone, Debug)]
pub struct ModuleRelease {
    pub location: String,
    pub sha256: String,
}

/// The release of a module, for the platform it was built for.
#[derive(Clone, Debug)]
pub enum Release {
    LinuxAmd64(ModuleRelease),
    LinuxArm64(ModuleRelease),
}

/// Labels and release of a module.
#[derive(Clone, Debug)]
pub struct ModuleMetadata {
    pub labels: Labels,
    pub release: Option<Release>,
}

/// Selects the modules whose labels include all of these.
#[derive(Clone, Debug)]
pub struct LabelSelector {
    pub selector: Labels,
}

/// Where a module takes its input from.
#[derive(Clone, Debug)]
pub enum DataSource {
    Label(LabelSelector),
}

/// Runtime spec of a module.
#[derive(Clone, Debug)]
pub struct ModuleSpec {
    pub data_source: Option<DataSource>,
}

/// Status of a module as reported on read.
#[derive(Clone, Debug)]
pub struct ModuleStatus {
    pub msg: String,
}

/// A module as applied by a client.
#[derive(Clone, Debug)]
pub struct Module {
    pub core: Option<ModuleCore>,
    pub metadata: Option<ModuleMetadata>,
    pub spec: Option<ModuleSpec>,
    pub status: Option<ModuleStatus>,
}

} // verus!
