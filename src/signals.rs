//! The accumulated signals: the interaction graph, the content affinity
//! index and the trending aggregator.
use vstd::prelude::*;
use crate::assoc::{lemma_unique_index, to_map, unique_keys, lemma_to_map_dom, lemma_to_map_index, lemma_to_map_update, lemma_push_unique};
use crate::user::UserId;
use crate::ranking::{is_ranking, rank, ranked_order, take_len};

verus! {

/// `a + b`, held at `u64::MAX` where the sum would not fit.
pub open spec fn sat(a: int, b: int) -> u64 {
    if a + b <= u64::MAX { (a + b) as u64 } else { u64::MAX }
}

/// The value at `k`, or zero where `m` has none.
pub open spec fn get_or_zero<K>(m: Map<K, u64>, k: K) -> u64 {
    if m.contains_key(k) { m[k] } else { 0 }
}

/// One weighted edge of the interaction graph.
pub struct Edge {
    pub from: UserId,
    pub to: UserId,
    pub weight: u64,
}

pub open spec fn edge_key(e: Edge) -> (Seq<u8>, Seq<u8>) {
    (e.from@, e.to@)
}

pub open spec fn edge_weight(e: Edge) -> u64 {
    e.weight
}

/// Weighted directed graph from acting user to affected user.
pub struct InteractionGraph {
    edges: Vec<Edge>,
}

impl InteractionGraph {
    /// The edges in the order they were created.
    pub closed spec fn edges(&self) -> Seq<Edge> {
        self.edges@
    }

    pub open spec fn view(&self) -> Map<(Seq<u8>, Seq<u8>), u64> {
        to_map(self.edges(), |e: Edge| edge_key(e), |e: Edge| edge_weight(e))
    }

    /// No two edges join the same ordered pair.
    pub open spec fn wf(&self) -> bool {
        unique_keys(self.edges(), |e: Edge| edge_key(e))
    }

    /// The accumulated strength from `a` to `b`: zero where nothing was recorded.
    pub open spec fn strength(&self, a: Seq<u8>, b: Seq<u8>) -> u64 {
        if self.view().contains_key((a, b)) { self.view()[(a, b)] } else { 0 }
    }

    pub fn new() -> (r: InteractionGraph)
        ensures
            r.wf(),
            r.view() == Map::<(Seq<u8>, Seq<u8>), u64>::empty(),
            r.edges().len() == 0,
    {
        InteractionGraph { edges: Vec::new() }
    }

    fn find(&self, from: &UserId, to: &UserId) -> (r: Option<usize>)
        ensures
            match r {
                Some(i) => i < self.edges@.len() && edge_key(self.edges@[i as int]) == (from@, to@),
                None => forall|i: int| 0 <= i < self.edges@.len() ==> edge_key(#[trigger] self.edges@[i]) != (from@, to@),
            },
    {
        let mut i: usize = 0;
        while i < self.edges.len()
            invariant
                i <= self.edges@.len(),
                forall|j: int| 0 <= j < i ==> edge_key(#[trigger] self.edges@[j]) != (from@, to@),
            decreases self.edges@.len() - i,
        {
            let e = &self.edges[i];
            if e.from.same(from) && e.to.same(to) {
                return Some(i);
            }
            i = i + 1;
        }
        None
    }

    /// The strength from `from` to `to`; zero where nothing was recorded.
    pub fn get_strength(&self, from: &UserId, to: &UserId) -> (r: u64)
        requires
            self.wf(),
        ensures
            r == self.strength(from@, to@),
    {
        match self.find(from, to) {
            Some(i) => {
                proof {
                    lemma_to_map_index(self.edges@, |e: Edge| edge_key(e), |e: Edge| edge_weight(e), i as int);
                }
                self.edges[i].weight
            },
            None => {
                proof {
                    lemma_to_map_dom(self.edges@, |e: Edge| edge_key(e), |e: Edge| edge_weight(e), (from@, to@));
                }
                0
            },
        }
    }

    /// Adds `weight` to the strength from `from` to `to`, creating the edge
    /// where it is absent; the sum is held at `u64::MAX`.
    pub fn record_interaction(&mut self, from: &UserId, to: &UserId, weight: u64)
        requires
            old(self).wf(),
        ensures
            final(self).wf(),
            final(self).view() == old(self).view().insert(
                (from@, to@),
                sat(old(self).strength(from@, to@) as int, weight as int),
            ),
    {
        let ghost key = |e: Edge| edge_key(e);
        let ghost val = |e: Edge| edge_weight(e);
        match self.find(from, to) {
            Some(i) => {
                proof {
                    lemma_to_map_index(self.edges@, key, val, i as int);
                }
                let w = self.edges[i].weight.saturating_add(weight);
                let e = Edge { from: from.copy(), to: to.copy(), weight: w };
                proof {
                    lemma_to_map_update(self.edges@, key, val, i as int, e);
                }
                self.edges.set(i, e);
            },
            None => {
                proof {
                    lemma_to_map_dom(self.edges@, key, val, (from@, to@));
                }
                let e = Edge { from: from.copy(), to: to.copy(), weight };
                proof {
                    lemma_push_unique(self.edges@, key, e);
                }
                self.edges.push(e);
                proof {
                    assert(self.edges@.drop_last() =~= old(self).edges@);
                }
            },
        }
    }
}

/// One user's accumulated interest in one hashtag.
pub struct AffinityEntry {
    pub user: UserId,
    pub hashtag: String,
    pub weight: u64,
}

pub open spec fn affinity_key(e: AffinityEntry) -> (Seq<u8>, Seq<char>) {
    (e.user@, e.hashtag@)
}

pub open spec fn affinity_weight(e: AffinityEntry) -> u64 {
    e.weight
}

/// The affinity map after `weight` is added for `user` to each hashtag of
/// `tags` in turn, a repeated hashtag once for each time it occurs.
pub open spec fn affinity_after(
    m: Map<(Seq<u8>, Seq<char>), u64>,
    user: Seq<u8>,
    tags: Seq<Seq<char>>,
    weight: u64,
) -> Map<(Seq<u8>, Seq<char>), u64>
    decreases tags.len(),
{
    if tags.len() == 0 {
        m
    } else {
        let p = affinity_after(m, user, tags.drop_last(), weight);
        p.insert((user, tags.last()), sat(get_or_zero(p, (user, tags.last())) as int, weight as int))
    }
}

/// An affinity entry as (user, hashtag, weight).
pub type EntryView = (Seq<u8>, Seq<char>, u64);

pub open spec fn entry_view(e: AffinityEntry) -> EntryView {
    (e.user@, e.hashtag@, e.weight)
}

/// The entries `s` after `w` is added for `user` and `tag`: in place where
/// an entry for the pair exists (held at `u64::MAX`), else as a new last entry.
pub open spec fn bumped(s: Seq<EntryView>, user: Seq<u8>, tag: Seq<char>, w: u64) -> Seq<EntryView> {
    if exists|i: int| 0 <= i < s.len() && s[i].0 == user && s[i].1 == tag {
        let i = choose|i: int| 0 <= i < s.len() && s[i].0 == user && s[i].1 == tag;
        s.update(i, (user, tag, sat(s[i].2 as int, w as int)))
    } else {
        s.push((user, tag, w))
    }
}

/// The entries `s` after `w` is added for `user` to each hashtag of `tags` in turn.
pub open spec fn entries_after(s: Seq<EntryView>, user: Seq<u8>, tags: Seq<Seq<char>>, w: u64) -> Seq<EntryView>
    decreases tags.len(),
{
    if tags.len() == 0 {
        s
    } else {
        bumped(entries_after(s, user, tags.drop_last(), w), user, tags.last(), w)
    }
}

/// The interest that users `a` and `b` share, over the entries of `a` in
/// `entries`: for each hashtag that both have an interest in, the smaller of
/// the two, summed (held at `u64::MAX`).
pub open spec fn shared_in(
    entries: Seq<EntryView>,
    m: Map<(Seq<u8>, Seq<char>), u64>,
    a: Seq<u8>,
    b: Seq<u8>,
) -> u64
    decreases entries.len(),
{
    if entries.len() == 0 {
        0
    } else {
        let p = shared_in(entries.drop_last(), m, a, b);
        let e = entries.last();
        if e.0 == a && m.contains_key((b, e.1)) {
            let o = m[(b, e.1)];
            sat(p as int, if e.2 < o { e.2 as int } else { o as int })
        } else {
            p
        }
    }
}

/// Per-user weighted interest in hashtags.
pub struct ContentAffinity {
    entries: Vec<AffinityEntry>,
}

impl ContentAffinity {
    pub open spec fn view(&self) -> Map<(Seq<u8>, Seq<char>), u64> {
        to_map(self.entries(), |e: AffinityEntry| affinity_key(e), |e: AffinityEntry| affinity_weight(e))
    }

    /// No two entries are for the same user and hashtag.
    pub open spec fn wf(&self) -> bool {
        unique_keys(self.entries(), |e: AffinityEntry| affinity_key(e))
    }

    /// The entries in the order they were created.
    pub closed spec fn entries(&self) -> Seq<AffinityEntry> {
        self.entries@
    }

    /// The interest of `user` in `tag`: zero where nothing was recorded.
    pub open spec fn affinity(&self, user: Seq<u8>, tag: Seq<char>) -> u64 {
        get_or_zero(self.view(), (user, tag))
    }

    pub fn new() -> (r: ContentAffinity)
        ensures
            r.wf(),
            r.view() == Map::<(Seq<u8>, Seq<char>), u64>::empty(),
            r.entries().len() == 0,
            r.entry_views() == Seq::<EntryView>::empty(),
    {
        ContentAffinity { entries: Vec::new() }
    }

    fn find(&self, user: &UserId, tag: &String) -> (r: Option<usize>)
        ensures
            match r {
                Some(i) => i < self.entries@.len() && affinity_key(self.entries@[i as int]) == (user@, tag@),
                None => forall|i: int|
                    0 <= i < self.entries@.len() ==> affinity_key(#[trigger] self.entries@[i]) != (user@, tag@),
            },
    {
        let mut i: usize = 0;
        while i < self.entries.len()
            invariant
                i <= self.entries@.len(),
                forall|j: int| 0 <= j < i ==> affinity_key(#[trigger] self.entries@[j]) != (user@, tag@),
            decreases self.entries@.len() - i,
        {
            let e = &self.entries[i];
            if e.user.same(user) && e.hashtag == *tag {
                return Some(i);
            }
            i = i + 1;
        }
        None
    }

    /// The interest of `user` in `tag`; zero where nothing was recorded.
    pub fn get_affinity(&self, user: &UserId, tag: &String) -> (r: u64)
        requires
            self.wf(),
        ensures
            r == self.affinity(user@, tag@),
    {
        match self.find(user, tag) {
            Some(i) => {
                proof {
                    lemma_to_map_index(
                        self.entries@,
                        |e: AffinityEntry| affinity_key(e),
                        |e: AffinityEntry| affinity_weight(e),
                        i as int,
                    );
                }
                self.entries[i].weight
            },
            None => {
                proof {
                    lemma_to_map_dom(
                        self.entries@,
                        |e: AffinityEntry| affinity_key(e),
                        |e: AffinityEntry| affinity_weight(e),
                        (user@, tag@),
                    );
                }
                0
            },
        }
    }

    /// The interest that `a` and `b` share: for each hashtag that both have
    /// an interest in, the smaller of the two, summed.
    pub open spec fn shared_interest(&self, a: Seq<u8>, b: Seq<u8>) -> u64 {
        shared_in(self.entry_views(), self.view(), a, b)
    }

    /// The entries as (user, hashtag, weight), in the order they were created.
    pub open spec fn entry_views(&self) -> Seq<EntryView> {
        self.entries().map_values(|e: AffinityEntry| entry_view(e))
    }

    /// The interest that `a` and `b` share.
    pub fn get_shared_interest(&self, a: &UserId, b: &UserId) -> (r: u64)
        requires
            self.wf(),
        ensures
            r == self.shared_interest(a@, b@),
    {
        let mut total: u64 = 0;
        let mut i: usize = 0;
        while i < self.entries.len()
            invariant
                self.wf(),
                i <= self.entries@.len(),
                total == shared_in(self.entry_views().take(i as int), self.view(), a@, b@),
            decreases self.entries@.len() - i,
        {
            let e = &self.entries[i];
            proof {
                let v = self.entry_views();
                assert(v.take(i + 1).drop_last() =~= v.take(i as int));
                assert(v.take(i + 1).last() == entry_view(self.entries@[i as int]));
                lemma_to_map_dom(
                    self.entries@,
                    |e: AffinityEntry| affinity_key(e),
                    |e: AffinityEntry| affinity_weight(e),
                    (b@, e.hashtag@),
                );
            }
            if e.user.same(a) {
                match self.find(b, &e.hashtag) {
                    Some(j) => {
                        proof {
                            lemma_to_map_index(
                                self.entries@,
                                |e: AffinityEntry| affinity_key(e),
                                |e: AffinityEntry| affinity_weight(e),
                                j as int,
                            );
                        }
                        let o = self.entries[j].weight;
                        let least = if e.weight < o { e.weight } else { o };
                        total = total.saturating_add(least);
                    },
                    None => {},
                }
            }
            i = i + 1;
        }
        assert(self.entry_views().take(i as int) =~= self.entry_views());
        total
    }

    fn add_one(&mut self, user: &UserId, tag: &String, weight: u64)
        requires
            old(self).wf(),
        ensures
            final(self).wf(),
            final(self).view() == old(self).view().insert(
                (user@, tag@),
                sat(old(self).affinity(user@, tag@) as int, weight as int),
            ),
            final(self).entry_views() == bumped(old(self).entry_views(), user@, tag@, weight),
    {
        let ghost key = |e: AffinityEntry| affinity_key(e);
        let ghost val = |e: AffinityEntry| affinity_weight(e);
        match self.find(user, tag) {
            Some(i) => {
                proof {
                    lemma_to_map_index(self.entries@, key, val, i as int);
                }
                let w = self.entries[i].weight.saturating_add(weight);
                let e = AffinityEntry { user: user.copy(), hashtag: tag.clone(), weight: w };
                proof {
                    lemma_to_map_update(self.entries@, key, val, i as int, e);
                    let v = old(self).entry_views();
                    assert(v[i as int].0 == user@ && v[i as int].1 == tag@);
                    assert(exists|c: int| 0 <= c < v.len() && v[c].0 == user@ && v[c].1 == tag@);
                    let c = choose|c: int| 0 <= c < v.len() && v[c].0 == user@ && v[c].1 == tag@;
                    assert(v[c] == entry_view(self.entries@[c]));
                    assert(key(self.entries@[c]) == key(self.entries@[i as int]));
                    lemma_unique_index(self.entries@, key, c, i as int);
                }
                self.entries.set(i, e);
                assert(self.entry_views() =~= old(self).entry_views().update(i as int, (user@, tag@, w)));
            },
            None => {
                proof {
                    lemma_to_map_dom(self.entries@, key, val, (user@, tag@));
                }
                let e = AffinityEntry { user: user.copy(), hashtag: tag.clone(), weight };
                proof {
                    lemma_push_unique(self.entries@, key, e);
                }
                self.entries.push(e);
                proof {
                    assert(self.entries@.drop_last() =~= old(self).entries@);
                    let v = old(self).entry_views();
                    assert forall|j: int| 0 <= j < v.len() implies !(v[j].0 == user@ && v[j].1 == tag@) by {
                        assert(affinity_key(old(self).entries@[j]) != (user@, tag@));
                    }
                    assert(self.entry_views() =~= v.push((user@, tag@, weight)));
                }
            },
        }
    }

    /// Adds `weight` to the interest of `user` in each hashtag of `tags`; a
    /// hashtag that occurs twice is counted twice.
    pub fn record_affinity(&mut self, user: &UserId, tags: &Vec<String>, weight: u64)
        requires
            old(self).wf(),
        ensures
            final(self).wf(),
            final(self).view() == affinity_after(old(self).view(), user@, tags.deep_view(), weight),
            final(self).entry_views() == entries_after(old(self).entry_views(), user@, tags.deep_view(), weight),
    {
        let mut i: usize = 0;
        while i < tags.len()
            invariant
                self.wf(),
                i <= tags@.len(),
                self.view() == affinity_after(old(self).view(), user@, tags.deep_view().take(i as int), weight),
                self.entry_views() == entries_after(old(self).entry_views(), user@, tags.deep_view().take(i as int), weight),
            decreases tags@.len() - i,
        {
            self.add_one(user, &tags[i], weight);
            proof {
                let t = tags.deep_view();
                assert(t.take(i + 1).drop_last() =~= t.take(i as int));
            }
            i = i + 1;
        }
        proof {
            assert(tags.deep_view().take(i as int) =~= tags.deep_view());
        }
    }
}

/// Usage of one hashtag across all posts.
#[derive(Clone, Debug)]
pub struct TrendingTopic {
    pub hashtag: String,
    pub count: u64,
    pub last_used: u64,
}

impl TrendingTopic {
    pub open spec fn same(&self, o: TrendingTopic) -> bool {
        self.hashtag@ == o.hashtag@ && self.count == o.count && self.last_used == o.last_used
    }

    pub fn copy(&self) -> (r: TrendingTopic)
        ensures
            r.same(*self),
    {
        TrendingTopic { hashtag: self.hashtag.clone(), count: self.count, last_used: self.last_used }
    }
}

pub open spec fn topic_key(t: TrendingTopic) -> Seq<char> {
    t.hashtag@
}

pub open spec fn topic_value(t: TrendingTopic) -> (u64, u64) {
    (t.count, t.last_used)
}

/// A topic as (hashtag, count, last use).
pub type TopicView = (Seq<char>, u64, u64);

pub open spec fn topic_view(t: TrendingTopic) -> TopicView {
    (t.hashtag@, t.count, t.last_used)
}

/// The topics `s` after `tag` is seen at `now`: counted in place where it
/// has a topic (held at `u64::MAX`), else as a new last topic.
pub open spec fn topic_bumped(s: Seq<TopicView>, tag: Seq<char>, now: u64) -> Seq<TopicView> {
    if exists|i: int| 0 <= i < s.len() && s[i].0 == tag {
        let i = choose|i: int| 0 <= i < s.len() && s[i].0 == tag;
        s.update(i, (tag, sat(s[i].1 as int, 1), now))
    } else {
        s.push((tag, 1u64, now))
    }
}

/// The topics `s` after each hashtag of `tags` is seen at `now`, in turn.
pub open spec fn topics_after(s: Seq<TopicView>, tags: Seq<Seq<char>>, now: u64) -> Seq<TopicView>
    decreases tags.len(),
{
    if tags.len() == 0 {
        s
    } else {
        topic_bumped(topics_after(s, tags.drop_last(), now), tags.last(), now)
    }
}

/// The usage map after each hashtag of `tags` is seen at time `now`, a
/// repeated hashtag once for each time it occurs.
pub open spec fn usage_after(m: Map<Seq<char>, (u64, u64)>, tags: Seq<Seq<char>>, now: u64) -> Map<Seq<char>, (u64, u64)>
    decreases tags.len(),
{
    if tags.len() == 0 {
        m
    } else {
        let p = usage_after(m, tags.drop_last(), now);
        let c: u64 = if p.contains_key(tags.last()) { p[tags.last()].0 } else { 0 };
        p.insert(tags.last(), (sat(c as int, 1), now))
    }
}

/// Global per-hashtag usage counters, in the order the hashtags first appeared.
pub struct Trending {
    topics: Vec<TrendingTopic>,
}

impl Trending {
    pub open spec fn view(&self) -> Map<Seq<char>, (u64, u64)> {
        to_map(self.topics(), |t: TrendingTopic| topic_key(t), |t: TrendingTopic| topic_value(t))
    }

    /// No two topics are for the same hashtag.
    pub open spec fn wf(&self) -> bool {
        unique_keys(self.topics(), |t: TrendingTopic| topic_key(t))
    }

    /// The topics in the order they first appeared.
    pub closed spec fn topics(&self) -> Seq<TrendingTopic> {
        self.topics@
    }

    /// The topics as (hashtag, count, last use), in the order they first appeared.
    pub open spec fn topic_views(&self) -> Seq<TopicView> {
        self.topics().map_values(|t: TrendingTopic| topic_view(t))
    }

    /// How often `tag` has been used: zero where never.
    pub open spec fn count(&self, tag: Seq<char>) -> u64 {
        if self.view().contains_key(tag) { self.view()[tag].0 } else { 0 }
    }

    pub fn new() -> (r: Trending)
        ensures
            r.wf(),
            r.view() == Map::<Seq<char>, (u64, u64)>::empty(),
            r.topics().len() == 0,
            r.topic_views() == Seq::<TopicView>::empty(),
    {
        Trending { topics: Vec::new() }
    }

    fn find(&self, tag: &String) -> (r: Option<usize>)
        ensures
            match r {
                Some(i) => i < self.topics@.len() && topic_key(self.topics@[i as int]) == tag@,
                None => forall|i: int| 0 <= i < self.topics@.len() ==> topic_key(#[trigger] self.topics@[i]) != tag@,
            },
    {
        let mut i: usize = 0;
        while i < self.topics.len()
            invariant
                i <= self.topics@.len(),
                forall|j: int| 0 <= j < i ==> topic_key(#[trigger] self.topics@[j]) != tag@,
            decreases self.topics@.len() - i,
        {
            if self.topics[i].hashtag == *tag {
                return Some(i);
            }
            i = i + 1;
        }
        None
    }

    fn use_one(&mut self, tag: &String, now: u64)
        requires
            old(self).wf(),
        ensures
            final(self).wf(),
            final(self).view() == old(self).view().insert(tag@, (sat(old(self).count(tag@) as int, 1), now)),
            final(self).topic_views() == topic_bumped(old(self).topic_views(), tag@, now),
            final(self).topics().len() >= old(self).topics().len(),
            forall|i: int| 0 <= i < old(self).topics().len() ==>
                topic_key(#[trigger] final(self).topics()[i]) == topic_key(old(self).topics()[i]),
    {
        let ghost key = |t: TrendingTopic| topic_key(t);
        let ghost val = |t: TrendingTopic| topic_value(t);
        match self.find(tag) {
            Some(i) => {
                proof {
                    lemma_to_map_index(self.topics@, key, val, i as int);
                }
                let c = self.topics[i].count.saturating_add(1);
                let t = TrendingTopic { hashtag: tag.clone(), count: c, last_used: now };
                proof {
                    lemma_to_map_update(self.topics@, key, val, i as int, t);
                    let v = old(self).topic_views();
                    assert(v[i as int].0 == tag@);
                    assert(exists|c: int| 0 <= c < v.len() && v[c].0 == tag@);
                    let c = choose|c: int| 0 <= c < v.len() && v[c].0 == tag@;
                    assert(v[c] == topic_view(self.topics@[c]));
                    assert(key(self.topics@[c]) == key(self.topics@[i as int]));
                    lemma_unique_index(self.topics@, key, c, i as int);
                }
                self.topics.set(i, t);
                assert(self.topic_views() =~= old(self).topic_views().update(i as int, (tag@, c, now)));
            },
            None => {
                proof {
                    lemma_to_map_dom(self.topics@, key, val, tag@);
                }
                let t = TrendingTopic { hashtag: tag.clone(), count: 1, last_used: now };
                proof {
                    lemma_push_unique(self.topics@, key, t);
                }
                self.topics.push(t);
                proof {
                    assert(self.topics@.drop_last() =~= old(self).topics@);
                    let v = old(self).topic_views();
                    assert forall|j: int| 0 <= j < v.len() implies !(v[j].0 == tag@) by {
                        assert(topic_key(old(self).topics@[j]) != tag@);
                    }
                    assert(self.topic_views() =~= v.push((tag@, 1u64, now)));
                }
            },
        }
    }

    /// Counts one use of each hashtag of `tags` at time `now`; a hashtag that
    /// occurs twice is counted twice.
    pub fn record_usage(&mut self, tags: &Vec<String>, now: u64)
        requires
            old(self).wf(),
        ensures
            final(self).wf(),
            final(self).view() == usage_after(old(self).view(), tags.deep_view(), now),
            final(self).topic_views() == topics_after(old(self).topic_views(), tags.deep_view(), now),
            final(self).topics().len() >= old(self).topics().len(),
            forall|i: int| 0 <= i < old(self).topics().len() ==>
                topic_key(#[trigger] final(self).topics()[i]) == topic_key(old(self).topics()[i]),
    {
        let mut i: usize = 0;
        while i < tags.len()
            invariant
                self.wf(),
                i <= tags@.len(),
                self.view() == usage_after(old(self).view(), tags.deep_view().take(i as int), now),
                self.topic_views() == topics_after(old(self).topic_views(), tags.deep_view().take(i as int), now),
                self.topics().len() >= old(self).topics().len(),
                forall|j: int| 0 <= j < old(self).topics().len() ==>
                    topic_key(#[trigger] self.topics()[j]) == topic_key(old(self).topics()[j]),
            decreases tags@.len() - i,
        {
            self.use_one(&tags[i], now);
            proof {
                let t = tags.deep_view();
                assert(t.take(i + 1).drop_last() =~= t.take(i as int));
            }
            i = i + 1;
        }
        proof {
            assert(tags.deep_view().take(i as int) =~= tags.deep_view());
        }
    }

    /// The keys that order topics: the count, highest first; equal counts in
    /// the order the hashtags first appeared.
    pub open spec fn top_keys(&self) -> Seq<(u64, u64)> {
        Seq::new(self.topics().len(), |i: int| (self.topics()[i].count, 0u64))
    }

    /// The `limit` most used hashtags, most used first; equal counts in the
    /// order the hashtags first appeared.
    pub fn top_n(&self, limit: u64) -> (r: Vec<TrendingTopic>)
        ensures
            is_ranking(self.top_keys(), ranked_order(self.top_keys())),
            r@.len() == take_len(limit, self.topics().len() as int),
            forall|a: int| 0 <= a < r@.len() ==>
                #[trigger] r@[a].same(self.topics()[ranked_order(self.top_keys())[a] as int]),
    {
        let mut keys: Vec<(u64, u64)> = Vec::new();
        let mut i: usize = 0;
        while i < self.topics.len()
            invariant
                i <= self.topics@.len(),
                keys@ =~= self.top_keys().take(i as int),
            decreases self.topics@.len() - i,
        {
            keys.push((self.topics[i].count, 0));
            i = i + 1;
        }
        assert(keys@ =~= self.top_keys());
        let order = rank(&keys);
        let n: usize = if (limit as u128) < (order.len() as u128) { limit as usize } else { order.len() };
        let mut r: Vec<TrendingTopic> = Vec::new();
        let mut a: usize = 0;
        while a < n
            invariant
                n == take_len(limit, self.topics@.len() as int),
                order@ == ranked_order(self.top_keys()),
                crate::ranking::is_ranking(self.top_keys(), order@),
                a <= n,
                r@.len() == a,
                forall|b: int| 0 <= b < a ==> #[trigger] r@[b].same(self.topics@[order@[b] as int]),
            decreases n - a,
        {
            r.push(self.topics[order[a]].copy());
            a = a + 1;
        }
        r
    }
}

} // verus!
