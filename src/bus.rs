//! The topic bus: which subscribers each topic has, and to whom a mail
//! published on a topic goes.

use vstd::prelude::*;

use crate::mail::Mail;

verus! {

/// A subscription: topic, subscriber id, and the sender that reaches it.
pub type Entry<S> = (Seq<char>, u128, S);

/// The list has a subscription of `id` to `t`.
pub open spec fn sub_present<S>(s: Seq<Entry<S>>, t: Seq<char>, id: u128) -> bool {
    exists|i: int| 0 <= i < s.len() && #[trigger] s[i].0 == t && s[i].1 == id
}

/// Position of the subscription of `id` to `t`, in a list that has one.
pub open spec fn sub_index<S>(s: Seq<Entry<S>>, t: Seq<char>, id: u128) -> int {
    choose|i: int| 0 <= i < s.len() && #[trigger] s[i].0 == t && s[i].1 == id
}

/// The list has some subscription to `t`.
pub open spec fn topic_present<S>(s: Seq<Entry<S>>, t: Seq<char>) -> bool {
    exists|i: int| 0 <= i < s.len() && #[trigger] s[i].0 == t
}

/// No subscriber is subscribed twice to one topic.
pub open spec fn unique_subs<S>(s: Seq<Entry<S>>) -> bool {
    forall|i: int, j: int|
        0 <= i < s.len() && 0 <= j < s.len() && i != j && #[trigger] s[i].0 == #[trigger] s[j].0
            ==> s[i].1 != s[j].1
}

/// The subscribers of `t`, by id.
pub open spec fn topic_view<S>(s: Seq<Entry<S>>, t: Seq<char>) -> Map<u128, S> {
    Map::new(|id: u128| sub_present(s, t, id), |id: u128| s[sub_index(s, t, id)].2)
}

/// Each topic that has subscribers, with its subscribers by id.
pub open spec fn bus_view<S>(s: Seq<Entry<S>>) -> Map<Seq<char>, Map<u128, S>> {
    Map::new(|t: Seq<char>| topic_present(s, t), |t: Seq<char>| topic_view(s, t))
}

/// The bus after `id` subscribes to `t` with sender `x`; an earlier
/// subscription of `id` to `t` is replaced.
pub open spec fn subscribed<S>(m: Map<Seq<char>, Map<u128, S>>, t: Seq<char>, id: u128, x: S) -> Map<
    Seq<char>,
    Map<u128, S>,
> {
    let subs = if m.contains_key(t) {
        m[t]
    } else {
        Map::empty()
    };
    m.insert(t, subs.insert(id, x))
}

/// The bus after `id` leaves `t`; a topic left without subscribers is
/// dropped.
pub open spec fn unsubscribed<S>(m: Map<Seq<char>, Map<u128, S>>, t: Seq<char>, id: u128) -> Map<
    Seq<char>,
    Map<u128, S>,
> {
    if m.contains_key(t) {
        if m[t].remove(id).dom() =~= Set::empty() {
            m.remove(t)
        } else {
            m.insert(t, m[t].remove(id))
        }
    } else {
        m
    }
}

/// Topics, each with its subscribers: subscriber id to the sender that
/// reaches it. A topic is held only while it has a subscriber.
pub struct Bus<S> {
    subs: Vec<(String, u128, S)>,
}

impl<S> Bus<S> {
    /// The subscriptions as mathematical values.
    pub closed spec fn entries(&self) -> Seq<Entry<S>> {
        self.subs@.map_values(|e: (String, u128, S)| (e.0@, e.1, e.2))
    }

    #[verifier::type_invariant]
    spec fn no_double_subscription(self) -> bool {
        unique_subs(self.entries())
    }

    /// Each topic that has subscribers, with its subscribers by id.
    pub open spec fn view(&self) -> Map<Seq<char>, Map<u128, S>> {
        bus_view(self.entries())
    }

    /// An empty bus.
    pub fn new() -> (r: Bus<S>)
        ensures
            r.view() == Map::<Seq<char>, Map<u128, S>>::empty(),
    {
        let r = Bus { subs: Vec::new() };
        assert(r.entries() =~= Seq::<Entry<S>>::empty());
        assert(r.view() =~= Map::<Seq<char>, Map<u128, S>>::empty());
        r
    }

    /// Every topic the bus holds has at least one subscriber.
    pub proof fn lemma_no_empty_topic(&self, t: Seq<char>)
        requires
            self.view().contains_key(t),
        ensures
            self.view()[t].dom() != Set::<u128>::empty(),
    {
        let s = self.entries();
        let i = choose|i: int| 0 <= i < s.len() && #[trigger] s[i].0 == t;
        assert(sub_present(s, t, s[i].1));
        assert(self.view()[t].dom().contains(s[i].1));
    }

    fn position(&self, topic: &String, id: u128) -> (r: Option<usize>)
        ensures
            r is None <==> !sub_present(self.entries(), topic@, id),
            r is Some ==> r->0 < self.entries().len() && self.entries()[r->0 as int].0 == topic@
                && self.entries()[r->0 as int].1 == id,
    {
        let mut i: usize = 0;
        while i < self.subs.len()
            invariant
                i <= self.subs@.len(),
                self.entries().len() == self.subs@.len(),
                forall|j: int|
                    0 <= j < i ==> !(#[trigger] self.entries()[j].0 == topic@
                        && self.entries()[j].1 == id),
            decreases self.subs@.len() - i,
        {
            if self.subs[i].1 == id && self.subs[i].0 == *topic {
                assert(self.entries()[i as int].0 == topic@ && self.entries()[i as int].1 == id);
                return Some(i);
            }
            i = i + 1;
        }
        None
    }

    /// Subscribes `id` to `topic` with `sender`.
    pub fn subscribe_with_id(&mut self, topic: String, id: u128, sender: S)
        ensures
            final(self).view() == subscribed(old(self).view(), topic@, id, sender),
    {
        proof {
            use_type_invariant(&*self);
        }
        let ghost before = self.entries();
        let ghost t = topic@;
        let ghost x = sender;
        let found = self.position(&topic, id);
        let mut taken = Bus { subs: Vec::new() };
        assert(taken.entries() =~= Seq::<Entry<S>>::empty());
        std::mem::swap(self, &mut taken);
        let Bus { mut subs } = taken;
        match found {
            Some(i) => {
                subs.set(i, (topic, id, sender));
                proof {
                    let after = (Bus { subs }).entries();
                    assert(after =~= before.update(i as int, (t, id, x)));
                    lemma_update_view(before, i as int, x);
                }
            },
            None => {
                subs.push((topic, id, sender));
                proof {
                    let after = (Bus { subs }).entries();
                    assert(after =~= before.push((t, id, x)));
                    lemma_push_view(before, t, id, x);
                }
            },
        }
        *self = Bus { subs };
    }

    /// Subscribes a new subscriber to `topic` with `sender`; its id is drawn
    /// at random and returned.
    pub fn subscribe(&mut self, topic: String, sender: S) -> (id: u128)
        ensures
            final(self).view() == subscribed(old(self).view(), topic@, id, sender),
    {
        let id = new_subscriber_id();
        self.subscribe_with_id(topic, id, sender);
        id
    }

    /// Removes the subscription of `id` to `topic`; the topic goes when its
    /// last subscriber does.
    pub fn unsubscribe(&mut self, topic: &String, id: u128)
        ensures
            final(self).view() == unsubscribed(old(self).view(), topic@, id),
    {
        proof {
            use_type_invariant(&*self);
        }
        let ghost before = self.entries();
        match self.position(topic, id) {
            Some(i) => {
                let mut taken = Bus { subs: Vec::new() };
                assert(taken.entries() =~= Seq::<Entry<S>>::empty());
                std::mem::swap(self, &mut taken);
                let Bus { mut subs } = taken;
                subs.remove(i);
                proof {
                    let after = (Bus { subs }).entries();
                    assert(after =~= before.remove(i as int));
                    lemma_remove_view(before, i as int);
                }
                *self = Bus { subs };
            },
            None => {
                proof {
                    lemma_absent_unsubscribe(before, topic@, id);
                }
            },
        }
    }

    /// The bus holds `topic`.
    pub fn has_topic(&self, topic: &String) -> (r: bool)
        ensures
            r == self.view().contains_key(topic@),
    {
        let mut i: usize = 0;
        while i < self.subs.len()
            invariant
                i <= self.subs@.len(),
                self.entries().len() == self.subs@.len(),
                forall|j: int| 0 <= j < i ==> #[trigger] self.entries()[j].0 != topic@,
            decreases self.subs@.len() - i,
        {
            if self.subs[i].0 == *topic {
                assert(self.entries()[i as int].0 == topic@);
                return true;
            }
            i = i + 1;
        }
        false
    }

    /// Number of subscribers of `topic`.
    pub fn subscriber_count(&self, topic: &String) -> (r: usize)
        ensures
            self.view().contains_key(topic@) ==> r == self.view()[topic@].dom().len(),
            !self.view().contains_key(topic@) ==> r == 0,
    {
        let deliveries = self.recipients(topic);
        proof {
            let t = topic@;
            let ids = deliveries@.map_values(|d: (u128, &S)| d.0);
            assert forall|i: int| 0 <= i < ids.len() implies self.view()[t].contains_key(
                #[trigger] ids[i],
            ) by {
                assert(ids[i] == deliveries@[i].0);
            }
            assert forall|id: u128|
                self.view().contains_key(t) && #[trigger] self.view()[t].contains_key(id) implies exists|
                i: int,
            | 0 <= i < ids.len() && #[trigger] ids[i] == id by {
                let i = choose|i: int| 0 <= i < deliveries@.len() && (#[trigger] deliveries@[i]).0 == id;
                assert(ids[i] == id);
            }
            assert forall|i: int, j: int|
                0 <= i < ids.len() && 0 <= j < ids.len() && i != j implies #[trigger] ids[i]
                != #[trigger] ids[j] by {
                assert(deliveries@[i].0 != deliveries@[j].0);
            }
            self.lemma_recipient_ids(t, ids);
        }
        deliveries.len()
    }

    /// The subscribers of `topic`, each with its sender, in the order in
    /// which they subscribed.
    pub fn recipients<'a>(&'a self, topic: &String) -> (r: Vec<(u128, &'a S)>)
        ensures
            r@.len() > 0 ==> self.view().contains_key(topic@),
            forall|i: int|
                0 <= i < r@.len() ==> self.view()[topic@].contains_key((#[trigger] r@[i]).0)
                    && r@[i].1 == self.view()[topic@][r@[i].0],
            forall|i: int, j: int|
                0 <= i < r@.len() && 0 <= j < r@.len() && i != j ==> (#[trigger] r@[i]).0 != (
                #[trigger] r@[j]).0,
            forall|id: u128|
                self.view().contains_key(topic@) && #[trigger] self.view()[topic@].contains_key(id)
                    ==> exists|i: int| 0 <= i < r@.len() && (#[trigger] r@[i]).0 == id,
    {
        proof {
            use_type_invariant(self);
        }
        let ghost s = self.entries();
        let ghost t = topic@;
        let mut r: Vec<(u128, &'a S)> = Vec::new();
        let ghost mut from: Seq<int> = Seq::empty();
        let mut i: usize = 0;
        while i < self.subs.len()
            invariant
                i <= self.subs@.len(),
                s == self.entries(),
                t == topic@,
                s.len() == self.subs@.len(),
                unique_subs(s),
                from.len() == r@.len(),
                forall|k: int|
                    0 <= k < r@.len() ==> 0 <= #[trigger] from[k] < i && s[from[k]].0 == t
                        && s[from[k]].1 == r@[k].0 && s[from[k]].2 == r@[k].1,
                forall|k: int, l: int| 0 <= k < l < r@.len() ==> #[trigger] from[k] < #[trigger] from[l],
                forall|j: int|
                    0 <= j < i && #[trigger] s[j].0 == t ==> exists|k: int|
                        0 <= k < r@.len() && #[trigger] from[k] == j,
            decreases self.subs@.len() - i,
        {
            if self.subs[i].0 == *topic {
                assert(self.entries()[i as int].0 == topic@);
                assert(s[i as int].0 == t);
                let ghost k = r@.len() as int;
                let ghost before = from;
                r.push((self.subs[i].1, &self.subs[i].2));
                proof {
                    from = from.push(i as int);
                    assert(from[k] == i as int);
                    assert forall|kk: int| 0 <= kk < before.len() implies #[trigger] from[kk]
                        == before[kk] by {}
                    assert forall|j: int|
                        0 <= j < i + 1 && #[trigger] s[j].0 == t implies exists|kk: int|
                        0 <= kk < r@.len() && #[trigger] from[kk] == j by {
                        if j < i {
                            let kk = choose|kk: int| 0 <= kk < before.len() && #[trigger] before[kk]
                                == j;
                            assert(from[kk] == j);
                        } else {
                            assert(from[k] == j);
                        }
                    }
                }
            } else {
                assert(self.entries()[i as int].0 != topic@);
                assert(s[i as int].0 != t);
            }
            i = i + 1;
        }
        proof {
            if r@.len() > 0 {
                assert(s[from[0]].0 == t);
                assert(topic_present(s, t));
            }
            assert forall|k: int|
                0 <= k < r@.len() implies self.view()[t].contains_key((#[trigger] r@[k]).0)
                && r@[k].1 == self.view()[t][r@[k].0] by {
                let j = from[k];
                assert(topic_present(s, t));
                assert(sub_present(s, t, r@[k].0));
                let c = sub_index(s, t, r@[k].0);
                if c != j {
                    assert(s[c].0 == s[j].0);
                }
            }
            assert forall|k: int, l: int|
                0 <= k < r@.len() && 0 <= l < r@.len() && k != l implies (#[trigger] r@[k]).0 != (
                #[trigger] r@[l]).0 by {
                let a = from[k];
                let b = from[l];
                if k < l {
                    assert(from[k] < from[l]);
                } else {
                    assert(from[l] < from[k]);
                }
                assert(s[a].0 == s[b].0);
            }
            assert forall|id: u128|
                self.view().contains_key(t) && #[trigger] self.view()[t].contains_key(id) implies exists|
                k: int,
            | 0 <= k < r@.len() && (#[trigger] r@[k]).0 == id by {
                assert(sub_present(s, t, id));
                let j = sub_index(s, t, id);
                assert(s[j].0 == t);
                let k = choose|k: int| 0 <= k < r@.len() && #[trigger] from[k] == j;
                assert(r@[k].0 == id);
            }
        }
        r
    }

    /// The ids that `recipients` hands out are exactly the subscribers of the
    /// topic, each once.
    proof fn lemma_recipient_ids(&self, t: Seq<char>, ids: Seq<u128>)
        requires
            ids.len() > 0 ==> self.view().contains_key(t),
            forall|i: int| 0 <= i < ids.len() ==> self.view()[t].contains_key(#[trigger] ids[i]),
            forall|i: int, j: int|
                0 <= i < ids.len() && 0 <= j < ids.len() && i != j ==> #[trigger] ids[i]
                    != #[trigger] ids[j],
            forall|id: u128|
                self.view().contains_key(t) && #[trigger] self.view()[t].contains_key(id)
                    ==> exists|i: int| 0 <= i < ids.len() && #[trigger] ids[i] == id,
        ensures
            self.view().contains_key(t) ==> ids.len() == self.view()[t].dom().len(),
            !self.view().contains_key(t) ==> ids.len() == 0,
    {
        if self.view().contains_key(t) {
            ids.unique_seq_to_set();
            assert(ids.to_set() =~= self.view()[t].dom());
        }
    }

    /// Who a mail published on `topic` goes to: every subscriber of the
    /// topic once, each with its own copy of the mail.
    pub fn publish<'a>(&'a self, topic: &String, mail: &Mail) -> (r: Vec<(u128, &'a S, Mail)>)
        ensures
            r@.len() > 0 ==> self.view().contains_key(topic@),
            forall|i: int|
                0 <= i < r@.len() ==> self.view()[topic@].contains_key((#[trigger] r@[i]).0)
                    && r@[i].1 == self.view()[topic@][r@[i].0] && r@[i].2@ == mail@,
            forall|i: int, j: int|
                0 <= i < r@.len() && 0 <= j < r@.len() && i != j ==> (#[trigger] r@[i]).0 != (
                #[trigger] r@[j]).0,
            forall|id: u128|
                self.view().contains_key(topic@) && #[trigger] self.view()[topic@].contains_key(id)
                    ==> exists|i: int| 0 <= i < r@.len() && (#[trigger] r@[i]).0 == id,
    {
        let to = self.recipients(topic);
        let mut r: Vec<(u128, &'a S, Mail)> = Vec::new();
        let mut i: usize = 0;
        while i < to.len()
            invariant
                i <= to@.len(),
                r@.len() == i,
                forall|k: int|
                    0 <= k < i ==> (#[trigger] r@[k]).0 == to@[k].0 && r@[k].1 == to@[k].1
                        && r@[k].2@ == mail@,
            decreases to@.len() - i,
        {
            r.push((to[i].0, to[i].1, mail.duplicate()));
            i = i + 1;
        }
        proof {
            assert forall|k: int|
                0 <= k < r@.len() implies self.view()[topic@].contains_key((#[trigger] r@[k]).0)
                && r@[k].1 == self.view()[topic@][r@[k].0] && r@[k].2@ == mail@ by {
                assert(to@[k].0 == r@[k].0);
            }
            assert forall|id: u128|
                self.view().contains_key(topic@) && #[trigger] self.view()[topic@].contains_key(id)
                    implies exists|k: int| 0 <= k < r@.len() && (#[trigger] r@[k]).0 == id by {
                let k = choose|k: int| 0 <= k < to@.len() && (#[trigger] to@[k]).0 == id;
                assert(r@[k].0 == id);
            }
            assert forall|k: int, l: int|
                0 <= k < r@.len() && 0 <= l < r@.len() && k != l implies (#[trigger] r@[k]).0 != (
                #[trigger] r@[l]).0 by {
                assert(to@[k].0 != to@[l].0);
            }
        }
        r
    }
}

/// When the last subscriber of a topic leaves, the bus no longer holds the
/// topic.
pub proof fn lemma_topic_gc<S>(m: Map<Seq<char>, Map<u128, S>>, t: Seq<char>, id: u128)
    requires
        m.contains_key(t),
        m[t].dom() == set![id],
    ensures
        !unsubscribed(m, t, id).contains_key(t),
{
    assert(m[t].remove(id).dom() =~= Set::empty());
}

/// Relies on `uuid::Uuid::new_v4` (a random version-4 UUID, with the version
/// and variant bits set) read as a number by `Uuid::as_u128`.
#[verifier::external_body]
fn new_subscriber_id() -> (r: u128)
    ensures
        (r >> 76u128) & 0xfu128 == 4,
        (r >> 62u128) & 3u128 == 2,
{
    uuid::Uuid::new_v4().as_u128()
}

proof fn lemma_push_view<S>(s: Seq<Entry<S>>, t: Seq<char>, id: u128, x: S)
    requires
        unique_subs(s),
        !sub_present(s, t, id),
    ensures
        unique_subs(s.push((t, id, x))),
        bus_view(s.push((t, id, x))) == subscribed(bus_view(s), t, id, x),
{
    let s2 = s.push((t, id, x));
    let n = s.len() as int;
    assert forall|i: int, j: int|
        0 <= i < s2.len() && 0 <= j < s2.len() && i != j && #[trigger] s2[i].0 == #[trigger] s2[j].0
            implies s2[i].1 != s2[j].1 by {
        if i < n && j < n {
            assert(s[i].0 == s[j].0);
        } else if i < n {
            assert(s[i].0 == t);
        } else {
            assert(s[j].0 == t);
        }
    }
    let m = bus_view(s);
    let m2 = bus_view(s2);
    let expect = subscribed(m, t, id, x);
    assert forall|u: Seq<char>| #[trigger] m2.contains_key(u) <==> expect.contains_key(u) by {
        if topic_present(s, u) {
            let i = choose|i: int| 0 <= i < s.len() && #[trigger] s[i].0 == u;
            assert(s2[i].0 == u);
        }
        if u == t {
            assert(s2[n].0 == t);
        }
        if topic_present(s2, u) && u != t {
            let i = choose|i: int| 0 <= i < s2.len() && #[trigger] s2[i].0 == u;
            assert(s[i].0 == u);
        }
    }
    assert forall|u: Seq<char>| #[trigger] m2.contains_key(u) implies m2[u] =~= expect[u] by {
        let old_subs = if m.contains_key(u) {
            m[u]
        } else {
            Map::empty()
        };
        assert forall|v: u128| #[trigger] m2[u].contains_key(v) <==> expect[u].contains_key(v) by {
            if sub_present(s, u, v) {
                let i = choose|i: int| 0 <= i < s.len() && #[trigger] s[i].0 == u && s[i].1 == v;
                assert(s2[i].0 == u && s2[i].1 == v);
                assert(topic_present(s, u));
            }
            if u == t && v == id {
                assert(s2[n].0 == u && s2[n].1 == v);
            }
            if sub_present(s2, u, v) && !(u == t && v == id) {
                let i = choose|i: int| 0 <= i < s2.len() && #[trigger] s2[i].0 == u && s2[i].1 == v;
                assert(i < n);
                assert(s[i].0 == u && s[i].1 == v);
                assert(topic_present(s, u));
            }
        }
        assert forall|v: u128| #[trigger] m2[u].contains_key(v) implies m2[u][v] == expect[u][v] by {
            let c2 = sub_index(s2, u, v);
            if u == t && v == id {
                if c2 != n {
                    assert(s2[c2].0 == s2[n].0);
                }
            } else {
                assert(c2 < n);
                assert(s[c2].0 == u && s[c2].1 == v);
                assert(topic_present(s, u));
                let c = sub_index(s, u, v);
                if c != c2 {
                    assert(s[c].0 == s[c2].0);
                }
            }
        }
    }
    assert(m2 =~= expect);
}

proof fn lemma_update_view<S>(s: Seq<Entry<S>>, i: int, x: S)
    requires
        unique_subs(s),
        0 <= i < s.len(),
    ensures
        unique_subs(s.update(i, (s[i].0, s[i].1, x))),
        bus_view(s.update(i, (s[i].0, s[i].1, x))) == subscribed(bus_view(s), s[i].0, s[i].1, x),
{
    let t = s[i].0;
    let id = s[i].1;
    let s2 = s.update(i, (t, id, x));
    assert forall|a: int, b: int|
        0 <= a < s2.len() && 0 <= b < s2.len() && a != b && #[trigger] s2[a].0 == #[trigger] s2[b].0
            implies s2[a].1 != s2[b].1 by {
        assert(s[a].0 == s[b].0);
    }
    let m = bus_view(s);
    let m2 = bus_view(s2);
    let expect = subscribed(m, t, id, x);
    assert(topic_present(s, t));
    assert(sub_present(s, t, id));
    assert forall|u: Seq<char>| #[trigger] m2.contains_key(u) <==> expect.contains_key(u) by {
        if topic_present(s, u) {
            let j = choose|j: int| 0 <= j < s.len() && #[trigger] s[j].0 == u;
            assert(s2[j].0 == u);
        }
        if topic_present(s2, u) {
            let j = choose|j: int| 0 <= j < s2.len() && #[trigger] s2[j].0 == u;
            assert(s[j].0 == u);
        }
    }
    assert forall|u: Seq<char>| #[trigger] m2.contains_key(u) implies m2[u] =~= expect[u] by {
        assert forall|v: u128| #[trigger] m2[u].contains_key(v) <==> expect[u].contains_key(v) by {
            if sub_present(s, u, v) {
                let j = choose|j: int| 0 <= j < s.len() && #[trigger] s[j].0 == u && s[j].1 == v;
                assert(s2[j].0 == u && s2[j].1 == v);
            }
            if sub_present(s2, u, v) {
                let j = choose|j: int| 0 <= j < s2.len() && #[trigger] s2[j].0 == u && s2[j].1 == v;
                assert(s[j].0 == u && s[j].1 == v);
            }
        }
        assert forall|v: u128| #[trigger] m2[u].contains_key(v) implies m2[u][v] == expect[u][v] by {
            let c2 = sub_index(s2, u, v);
            assert(s[c2].0 == u && s[c2].1 == v);
            if u == t && v == id {
                if c2 != i {
                    assert(s[c2].0 == s[i].0);
                }
            } else {
                let c = sub_index(s, u, v);
                if c != c2 {
                    assert(s[c].0 == s[c2].0);
                }
            }
        }
    }
    assert(m2 =~= expect);
}

proof fn lemma_remove_view<S>(s: Seq<Entry<S>>, i: int)
    requires
        unique_subs(s),
        0 <= i < s.len(),
    ensures
        unique_subs(s.remove(i)),
        bus_view(s.remove(i)) == unsubscribed(bus_view(s), s[i].0, s[i].1),
{
    let t = s[i].0;
    let id = s[i].1;
    let s2 = s.remove(i);
    // index in s of the entry at `a` in s2
    assert forall|a: int| 0 <= a < s2.len() implies #[trigger] s2[a] == s[if a < i {
        a
    } else {
        a + 1
    }] by {}
    assert forall|a: int, b: int|
        0 <= a < s2.len() && 0 <= b < s2.len() && a != b && #[trigger] s2[a].0 == #[trigger] s2[b].0
            implies s2[a].1 != s2[b].1 by {
        let a1 = if a < i {
            a
        } else {
            a + 1
        };
        let b1 = if b < i {
            b
        } else {
            b + 1
        };
        assert(s[a1].0 == s[b1].0);
    }
    let m = bus_view(s);
    let m2 = bus_view(s2);
    let expect = unsubscribed(m, t, id);
    assert(topic_present(s, t));
    assert(sub_present(s, t, id));
    // the entries of s2 are those of s but the one at i
    assert forall|u: Seq<char>, v: u128| #[trigger] sub_present(s2, u, v) <==> (sub_present(s, u, v)
        && !(u == t && v == id)) by {
        if sub_present(s2, u, v) {
            let a = choose|a: int| 0 <= a < s2.len() && #[trigger] s2[a].0 == u && s2[a].1 == v;
            let a1 = if a < i {
                a
            } else {
                a + 1
            };
            assert(s[a1].0 == u && s[a1].1 == v);
            if u == t && v == id {
                assert(s[a1].0 == s[i].0);
            }
        }
        if sub_present(s, u, v) && !(u == t && v == id) {
            let a = choose|a: int| 0 <= a < s.len() && #[trigger] s[a].0 == u && s[a].1 == v;
            assert(a != i);
            let a2 = if a < i {
                a
            } else {
                a - 1
            };
            assert(s2[a2].0 == u && s2[a2].1 == v);
        }
    }
    assert forall|u: Seq<char>| #[trigger] topic_present(s2, u) <==> exists|v: u128|
        #[trigger] sub_present(s2, u, v) by {
        if topic_present(s2, u) {
            let a = choose|a: int| 0 <= a < s2.len() && #[trigger] s2[a].0 == u;
            assert(sub_present(s2, u, s2[a].1));
        }
        if exists|v: u128| #[trigger] sub_present(s2, u, v) {
            let v = choose|v: u128| #[trigger] sub_present(s2, u, v);
            let a = choose|a: int| 0 <= a < s2.len() && #[trigger] s2[a].0 == u && s2[a].1 == v;
            assert(s2[a].0 == u);
        }
    }
    assert forall|u: Seq<char>| #[trigger] m2.contains_key(u) <==> expect.contains_key(u) by {
        if u == t {
            if m2.contains_key(u) {
                let v = choose|v: u128| #[trigger] sub_present(s2, u, v);
                assert(m[t].remove(id).dom().contains(v));
            }
            if expect.contains_key(u) {
                assert(!(m[t].remove(id).dom() =~= Set::empty()));
                let v = choose|v: u128| !(#[trigger] m[t].remove(id).dom().contains(v) == Set::<
                    u128,
                >::empty().contains(v));
                assert(sub_present(s2, u, v));
            }
        } else {
            if m2.contains_key(u) {
                let v = choose|v: u128| #[trigger] sub_present(s2, u, v);
                let a = choose|a: int| 0 <= a < s.len() && #[trigger] s[a].0 == u && s[a].1 == v;
                assert(topic_present(s, u));
            }
            if expect.contains_key(u) {
                let a = choose|a: int| 0 <= a < s.len() && #[trigger] s[a].0 == u;
                assert(sub_present(s, u, s[a].1));
                assert(sub_present(s2, u, s[a].1));
            }
        }
    }
    assert forall|u: Seq<char>| #[trigger] m2.contains_key(u) implies m2[u] =~= expect[u] by {
        assert forall|v: u128| #[trigger] m2[u].contains_key(v) <==> expect[u].contains_key(v) by {
            if sub_present(s, u, v) {
                assert(topic_present(s, u));
            }
        }
        assert forall|v: u128| #[trigger] m2[u].contains_key(v) implies m2[u][v] == expect[u][v] by {
            let c2 = sub_index(s2, u, v);
            let c1 = if c2 < i {
                c2
            } else {
                c2 + 1
            };
            assert(s[c1].0 == u && s[c1].1 == v);
            assert(topic_present(s, u));
            let c = sub_index(s, u, v);
            if c != c1 {
                assert(s[c].0 == s[c1].0);
            }
        }
    }
    assert(m2 =~= expect);
}

proof fn lemma_absent_unsubscribe<S>(s: Seq<Entry<S>>, t: Seq<char>, id: u128)
    requires
        !sub_present(s, t, id),
    ensures
        unsubscribed(bus_view(s), t, id) == bus_view(s),
{
    let m = bus_view(s);
    if m.contains_key(t) {
        assert(m[t].remove(id) =~= m[t]);
        let i = choose|i: int| 0 <= i < s.len() && #[trigger] s[i].0 == t;
        assert(sub_present(s, t, s[i].1));
        assert(m[t].dom().contains(s[i].1));
        assert(!(m[t].remove(id).dom() =~= Set::empty()));
        assert(m.insert(t, m[t]) =~= m);
    }
}

} // verus!
