//! Topics of a module and the per-module view of the bus: which topics its
//! log and data streams are published on, which topics feed its input, and
//! the subscriptions it holds.

use vstd::prelude::*;
use vstd::string::StringExecFns;

use crate::bus::{subscribed, unsubscribed, Bus};
use crate::module::{DataSource, Labels, Module};

verus! {

/// The label that each applied module carries, with its key as value.
pub const APP_LABEL: &'static str = "core.hyperion.io/app";

/// Kind of the topics a module's data goes to.
pub const DATA_KIND: &'static str = "data";

/// Kind of the topics a module's logs go to.
pub const LOG_KIND: &'static str = "log";

/// `"{k}={v}.{kind}"`.
pub open spec fn topic_name(kind: Seq<char>, k: Seq<char>, v: Seq<char>) -> Seq<char> {
    k + "="@ + v + "."@ + kind
}

/// One topic of the given kind per label pair, in order.
pub open spec fn label_topics(labels: Seq<(Seq<char>, Seq<char>)>, kind: Seq<char>) -> Seq<
    Seq<char>,
> {
    Seq::new(labels.len(), |i: int| topic_name(kind, labels[i].0, labels[i].1))
}

/// The labels of a module; none without metadata.
pub open spec fn module_labels(md: Module) -> Seq<(Seq<char>, Seq<char>)> {
    match md.metadata {
        Some(m) => m.labels@,
        None => Seq::empty(),
    }
}

/// The label selector of a module's data source; none without one.
pub open spec fn module_selector(md: Module) -> Seq<(Seq<char>, Seq<char>)> {
    match md.spec {
        Some(sp) => match sp.data_source {
            Some(DataSource::Label(sel)) => sel.selector@,
            None => Seq::empty(),
        },
        None => Seq::empty(),
    }
}

/// Strings as mathematical values.
pub open spec fn strings_view(v: Seq<String>) -> Seq<Seq<char>> {
    v.map_values(|s: String| s@)
}

/// The topic of kind `kind` for the label `label_key = label_value`.
pub fn generate_topic(kind: &str, label_key: &str, label_value: &str) -> (r: String)
    ensures
        r@ == topic_name(kind@, label_key@, label_value@),
{
    let mut s = String::from_str(label_key);
    s.append("=");
    s.append(label_value);
    s.append(".");
    s.append(kind);
    s
}

/// One topic of kind `kind` per label, in order.
fn topics_for(labels: &Labels, kind: &str) -> (r: Vec<String>)
    ensures
        strings_view(r@) == label_topics(labels@, kind@),
{
    let mut r: Vec<String> = Vec::new();
    let mut i: usize = 0;
    while i < labels.len()
        invariant
            i <= labels@.len(),
            strings_view(r@) =~= label_topics(labels@, kind@).subrange(0, i as int),
        decreases labels@.len() - i,
    {
        let t = generate_topic(kind, labels.key_at(i).as_str(), labels.value_at(i).as_str());
        let ghost prev = r@;
        r.push(t);
        proof {
            assert(r@ =~= prev.push(t));
            assert(strings_view(r@) =~= strings_view(prev).push(t@));
            assert(label_topics(labels@, kind@).subrange(0, i + 1) =~= label_topics(
                labels@,
                kind@,
            ).subrange(0, i as int).push(t@));
        }
        i = i + 1;
    }
    assert(label_topics(labels@, kind@).subrange(0, i as int) =~= label_topics(labels@, kind@));
    r
}

/// The bus shared by all modules, and what derives a module's topics.
pub struct Manager<S> {
    pub bus: Bus<S>,
}

impl<S> Manager<S> {
    /// A manager over an empty bus.
    pub fn new() -> (r: Manager<S>)
        ensures
            r.bus.view() == Map::<Seq<char>, Map<u128, S>>::empty(),
    {
        Manager { bus: Bus::new() }
    }

    /// The topics of a module, ready to be wired to its process.
    pub fn register_module(&self, md: &Module) -> (r: ModuleEventBus)
        ensures
            r.log_topics() == Some(label_topics(module_labels(*md), LOG_KIND@)),
            r.data_topics() == Some(label_topics(module_labels(*md), DATA_KIND@)),
            r.input_topics() == Some(label_topics(module_selector(*md), DATA_KIND@)),
            r.subscriptions() == Seq::<(u128, Seq<char>)>::empty(),
    {
        ModuleEventBus::new(
            Self::create_log_topics(md),
            Self::create_data_topics(md),
            Self::create_input_topics(md),
        )
    }

    /// `{K}={V}.log` for each label `K = V` of the module.
    pub fn create_log_topics(md: &Module) -> (r: Vec<String>)
        ensures
            strings_view(r@) == label_topics(module_labels(*md), LOG_KIND@),
    {
        match &md.metadata {
            Some(m) => topics_for(&m.labels, LOG_KIND),
            None => {
                let r: Vec<String> = Vec::new();
                assert(strings_view(r@) =~= label_topics(module_labels(*md), LOG_KIND@));
                r
            },
        }
    }

    /// `{K}={V}.data` for each label `K = V` of the module.
    pub fn create_data_topics(md: &Module) -> (r: Vec<String>)
        ensures
            strings_view(r@) == label_topics(module_labels(*md), DATA_KIND@),
    {
        match &md.metadata {
            Some(m) => topics_for(&m.labels, DATA_KIND),
            None => {
                let r: Vec<String> = Vec::new();
                assert(strings_view(r@) =~= label_topics(module_labels(*md), DATA_KIND@));
                r
            },
        }
    }

    /// `{K}={V}.data` for each entry `K = V` of the module's label selector.
    pub fn create_input_topics(md: &Module) -> (r: Vec<String>)
        ensures
            strings_view(r@) == label_topics(module_selector(*md), DATA_KIND@),
    {
        let none: Vec<String> = Vec::new();
        assert(strings_view(none@) =~= Seq::<Seq<char>>::empty());
        match &md.spec {
            Some(sp) => match &sp.data_source {
                Some(DataSource::Label(sel)) => topics_for(&sel.selector, DATA_KIND),
                None => {
                    assert(label_topics(module_selector(*md), DATA_KIND@) =~= Seq::empty());
                    none
                },
            },
            None => {
                assert(label_topics(module_selector(*md), DATA_KIND@) =~= Seq::empty());
                none
            },
        }
    }
}

/// The bus after `id_i` subscribes to `topics_i` with `senders_i`, for each
/// `i` in order.
pub open spec fn subscribe_all<S>(
    m: Map<Seq<char>, Map<u128, S>>,
    topics: Seq<Seq<char>>,
    ids: Seq<u128>,
    senders: Seq<S>,
) -> Map<Seq<char>, Map<u128, S>>
    decreases topics.len(),
{
    if topics.len() == 0 {
        m
    } else {
        let n = topics.len() - 1;
        subscribed(
            subscribe_all(m, topics.drop_last(), ids.subrange(0, n), senders.subrange(0, n)),
            topics[n],
            ids[n],
            senders[n],
        )
    }
}

/// The bus after each recorded subscription is removed, in order.
pub open spec fn unsubscribe_all<S>(
    m: Map<Seq<char>, Map<u128, S>>,
    subs: Seq<(u128, Seq<char>)>,
) -> Map<Seq<char>, Map<u128, S>>
    decreases subs.len(),
{
    if subs.len() == 0 {
        m
    } else {
        unsubscribed(unsubscribe_all(m, subs.drop_last()), subs.last().1, subs.last().0)
    }
}

/// `id` is subscribed to `t`.
pub open spec fn holds<S>(m: Map<Seq<char>, Map<u128, S>>, t: Seq<char>, id: u128) -> bool {
    m.contains_key(t) && m[t].contains_key(id)
}

/// The topics of one module, each list handed out once, and the input
/// subscriptions it has made on the bus.
pub struct ModuleEventBus {
    log_topics: Option<Vec<String>>,
    data_topics: Option<Vec<String>>,
    input_topics: Option<Vec<String>>,
    sids: Vec<(u128, String)>,
}

/// Optional list of strings as mathematical values.
pub open spec fn opt_strings_view(v: Option<Vec<String>>) -> Option<Seq<Seq<char>>> {
    match v {
        Some(v) => Some(strings_view(v@)),
        None => None,
    }
}

impl ModuleEventBus {
    /// Log topics not yet handed out.
    pub closed spec fn log_topics(&self) -> Option<Seq<Seq<char>>> {
        opt_strings_view(self.log_topics)
    }

    /// Data topics not yet handed out.
    pub closed spec fn data_topics(&self) -> Option<Seq<Seq<char>>> {
        opt_strings_view(self.data_topics)
    }

    /// Input topics not yet subscribed to.
    pub closed spec fn input_topics(&self) -> Option<Seq<Seq<char>>> {
        opt_strings_view(self.input_topics)
    }

    /// The input subscriptions made: subscriber id and topic.
    pub closed spec fn subscriptions(&self) -> Seq<(u128, Seq<char>)> {
        self.sids@.map_values(|p: (u128, String)| (p.0, p.1@))
    }

    /// Topics of each kind; no subscription yet.
    pub fn new(log_topics: Vec<String>, data_topics: Vec<String>, input_topics: Vec<String>) -> (r:
        ModuleEventBus)
        ensures
            r.log_topics() == Some(strings_view(log_topics@)),
            r.data_topics() == Some(strings_view(data_topics@)),
            r.input_topics() == Some(strings_view(input_topics@)),
            r.subscriptions() == Seq::<(u128, Seq<char>)>::empty(),
    {
        let r = ModuleEventBus {
            log_topics: Some(log_topics),
            data_topics: Some(data_topics),
            input_topics: Some(input_topics),
            sids: Vec::new(),
        };
        assert(r.subscriptions() =~= Seq::<(u128, Seq<char>)>::empty());
        r
    }

    /// Hands out, on the first call only, the topics that the module's log
    /// stream is published on.
    pub fn stream_logs(&mut self) -> (r: Option<Vec<String>>)
        ensures
            opt_strings_view(r) == old(self).log_topics(),
            final(self).log_topics() is None,
            final(self).data_topics() == old(self).data_topics(),
            final(self).input_topics() == old(self).input_topics(),
            final(self).subscriptions() == old(self).subscriptions(),
    {
        self.log_topics.take()
    }

    /// Hands out, on the first call only, the topics that the module's data
    /// stream is published on.
    pub fn stream_data(&mut self) -> (r: Option<Vec<String>>)
        ensures
            opt_strings_view(r) == old(self).data_topics(),
            final(self).data_topics() is None,
            final(self).log_topics() == old(self).log_topics(),
            final(self).input_topics() == old(self).input_topics(),
            final(self).subscriptions() == old(self).subscriptions(),
    {
        self.data_topics.take()
    }

    /// Number of input topics still to subscribe to.
    pub fn pending_inputs(&self) -> (r: usize)
        ensures
            match self.input_topics() {
                Some(ts) => r == ts.len(),
                None => r == 0,
            },
    {
        match &self.input_topics {
            Some(ts) => ts.len(),
            None => 0,
        }
    }

    /// Subscribes, on the first call only, to each input topic, the `i`-th
    /// with the `i`-th sender, and records the subscriptions; returns their
    /// ids in the order of the topics.
    pub fn recv_data<S>(&mut self, bus: &mut Bus<S>, senders: Vec<S>) -> (ids: Vec<u128>)
        requires
            match old(self).input_topics() {
                Some(ts) => senders@.len() == ts.len(),
                None => senders@.len() == 0,
            },
        ensures
            final(self).input_topics() is None,
            final(self).log_topics() == old(self).log_topics(),
            final(self).data_topics() == old(self).data_topics(),
            match old(self).input_topics() {
                Some(ts) => {
                    &&& ids@.len() == ts.len()
                    &&& final(self).subscriptions() == old(self).subscriptions() + Seq::new(
                        ts.len(),
                        |i: int| (ids@[i], ts[i]),
                    )
                    &&& final(bus).view() == subscribe_all(old(bus).view(), ts, ids@, senders@)
                },
                None => {
                    &&& ids@.len() == 0
                    &&& final(self).subscriptions() == old(self).subscriptions()
                    &&& final(bus).view() == old(bus).view()
                },
            },
    {
        let mut ids: Vec<u128> = Vec::new();
        match self.input_topics.take() {
            Some(topics) => {
                let ghost ts = strings_view(topics@);
                let ghost start = self.sids@.map_values(|p: (u128, String)| (p.0, p.1@));
                let ghost bus0 = bus.view();
                let ghost all = senders@;
                let n = topics.len();
                let mut rest = senders;
                let mut i: usize = 0;
                while i < n
                    invariant
                        n == topics@.len(),
                        n == all.len(),
                        ts == strings_view(topics@),
                        i <= n,
                        rest@ == all.subrange(i as int, n as int),
                        ids@.len() == i,
                        self.input_topics() is None,
                        self.log_topics() == old(self).log_topics(),
                        self.data_topics() == old(self).data_topics(),
                        start == old(self).subscriptions(),
                        bus0 == old(bus).view(),
                        self.subscriptions() =~= start + Seq::new(
                            i as nat,
                            |k: int| (ids@[k], ts[k]),
                        ),
                        bus.view() == subscribe_all(
                            bus0,
                            ts.subrange(0, i as int),
                            ids@,
                            all.subrange(0, i as int),
                        ),
                    decreases n - i,
                {
                    let x = rest.remove(0);
                    let topic = topics[i].clone();
                    let ghost before = bus.view();
                    let id = bus.subscribe(topic, x);
                    let ghost pushed = ids@.push(id);
                    proof {
                        assert(ts.subrange(0, i + 1).drop_last() =~= ts.subrange(0, i as int));
                        assert(pushed.subrange(0, i as int) =~= ids@);
                        assert(all.subrange(0, i + 1).subrange(0, i as int) =~= all.subrange(
                            0,
                            i as int,
                        ));
                        assert(x == all[i as int]);
                        assert(ts[i as int] == topics@[i as int]@);
                    }
                    ids.push(id);
                    let name = topics[i].clone();
                    let ghost prev = self.sids@;
                    self.sids.push((id, name));
                    proof {
                        assert(self.sids@ =~= prev.push((id, name)));
                        assert(self.subscriptions() =~= prev.map_values(
                            |p: (u128, String)| (p.0, p.1@),
                        ).push((id, ts[i as int])));
                    }
                    i = i + 1;
                }
                proof {
                    assert(ts.subrange(0, n as int) =~= ts);
                    assert(all.subrange(0, n as int) =~= all);
                }
            },
            None => {},
        }
        ids
    }

    /// Removes every recorded input subscription from the bus, and forgets
    /// them.
    pub fn cleanup<S>(&mut self, bus: &mut Bus<S>)
        ensures
            final(self).subscriptions() == Seq::<(u128, Seq<char>)>::empty(),
            final(self).log_topics() == old(self).log_topics(),
            final(self).data_topics() == old(self).data_topics(),
            final(self).input_topics() == old(self).input_topics(),
            final(bus).view() == unsubscribe_all(old(bus).view(), old(self).subscriptions()),
            forall|i: int|
                0 <= i < old(self).subscriptions().len() ==> !holds(
                    final(bus).view(),
                    (#[trigger] old(self).subscriptions()[i]).1,
                    old(self).subscriptions()[i].0,
                ),
    {
        let ghost subs = self.subscriptions();
        let ghost bus0 = bus.view();
        let mut i: usize = 0;
        while i < self.sids.len()
            invariant
                i <= self.sids@.len(),
                subs == self.subscriptions(),
                subs.len() == self.sids@.len(),
                bus0 == old(bus).view(),
                bus.view() == unsubscribe_all(bus0, subs.subrange(0, i as int)),
            decreases self.sids@.len() - i,
        {
            bus.unsubscribe(&self.sids[i].1, self.sids[i].0);
            proof {
                assert(subs.subrange(0, i + 1).drop_last() =~= subs.subrange(0, i as int));
            }
            i = i + 1;
        }
        proof {
            assert(subs.subrange(0, i as int) =~= subs);
            lemma_unsubscribe_all_removes(bus0, subs);
        }
        self.sids.clear();
        assert(self.subscriptions() =~= Seq::<(u128, Seq<char>)>::empty());
    }
}

/// Removing a subscription never adds one.
pub proof fn lemma_unsubscribe_keeps_absent<S>(
    m: Map<Seq<char>, Map<u128, S>>,
    t: Seq<char>,
    id: u128,
    u: Seq<char>,
    v: u128,
)
    requires
        !holds(m, u, v),
    ensures
        !holds(unsubscribed(m, t, id), u, v),
{
}

/// The subscription removed is gone.
pub proof fn lemma_unsubscribe_removes<S>(m: Map<Seq<char>, Map<u128, S>>, t: Seq<char>, id: u128)
    ensures
        !holds(unsubscribed(m, t, id), t, id),
{
}

/// After each recorded subscription is removed, none of them is held.
pub proof fn lemma_unsubscribe_all_removes<S>(
    m: Map<Seq<char>, Map<u128, S>>,
    subs: Seq<(u128, Seq<char>)>,
)
    ensures
        forall|i: int|
            0 <= i < subs.len() ==> !holds(
                unsubscribe_all(m, subs),
                (#[trigger] subs[i]).1,
                subs[i].0,
            ),
    decreases subs.len(),
{
    if subs.len() > 0 {
        let init = subs.drop_last();
        lemma_unsubscribe_all_removes(m, init);
        let prev = unsubscribe_all(m, init);
        assert forall|i: int| 0 <= i < subs.len() implies !holds(
            unsubscribe_all(m, subs),
            (#[trigger] subs[i]).1,
            subs[i].0,
        ) by {
            if i < subs.len() - 1 {
                assert(subs[i] == init[i]);
                lemma_unsubscribe_keeps_absent(prev, subs.last().1, subs.last().0, subs[i].1, subs[i].0);
            } else {
                lemma_unsubscribe_removes(prev, subs.last().1, subs.last().0);
            }
        }
    }
}

} // verus!
