//! Properties that relate several operations, or hold of every state.
use vstd::prelude::*;
use crate::backend::{lemma_mutual_of, tags_affinity, Backend};
use crate::ranking::{ranked_order, take_len};
use crate::signals::{get_or_zero, sat, usage_after, ContentAffinity, Trending};
use crate::types::{Post, UserProfile};
use crate::signals::TrendingTopic;

verus! {

/// The sum of `ws`.
pub open spec fn sum_of(ws: Seq<u64>) -> int
    decreases ws.len(),
{
    if ws.len() == 0 { 0 } else { sum_of(ws.drop_last()) + ws.last() }
}

/// The interaction map after the weights `ws` are recorded in turn from `a`
/// to `b`, each step as `InteractionGraph::record_interaction` states it.
pub open spec fn interactions_after(
    m: Map<(Seq<u8>, Seq<u8>), u64>,
    a: Seq<u8>,
    b: Seq<u8>,
    ws: Seq<u64>,
) -> Map<(Seq<u8>, Seq<u8>), u64>
    decreases ws.len(),
{
    if ws.len() == 0 {
        m
    } else {
        let p = interactions_after(m, a, b, ws.drop_last());
        p.insert((a, b), sat(get_or_zero(p, (a, b)) as int, ws.last() as int))
    }
}

/// Recording weights one after another for one pair adds up to their sum,
/// as long as that fits in a `u64`.
pub proof fn lemma_strength_accumulates(m: Map<(Seq<u8>, Seq<u8>), u64>, a: Seq<u8>, b: Seq<u8>, ws: Seq<u64>)
    requires
        get_or_zero(m, (a, b)) + sum_of(ws) <= u64::MAX,
    ensures
        get_or_zero(interactions_after(m, a, b, ws), (a, b)) == get_or_zero(m, (a, b)) + sum_of(ws),
    decreases ws.len(),
{
    if ws.len() > 0 {
        lemma_strength_accumulates(m, a, b, ws.drop_last());
    }
}

/// How often `t` occurs in `tags`.
pub open spec fn occurrences(tags: Seq<Seq<char>>, t: Seq<char>) -> nat
    decreases tags.len(),
{
    if tags.len() == 0 {
        0
    } else {
        occurrences(tags.drop_last(), t) + if tags.last() == t { 1nat } else { 0nat }
    }
}

/// The use count of `t` in a usage map: zero where absent.
pub open spec fn count_in(m: Map<Seq<char>, (u64, u64)>, t: Seq<char>) -> int {
    if m.contains_key(t) { m[t].0 as int } else { 0 }
}

/// Recording a list of hashtags counts each hashtag once for each time it
/// occurs in the list, not once per distinct hashtag (while counts fit in a
/// `u64`).
pub proof fn lemma_usage_counts_occurrences(m: Map<Seq<char>, (u64, u64)>, tags: Seq<Seq<char>>, now: u64, t: Seq<char>)
    requires
        count_in(m, t) + tags.len() <= u64::MAX,
    ensures
        count_in(usage_after(m, tags, now), t) == count_in(m, t) + occurrences(tags, t),
    decreases tags.len(),
{
    if tags.len() > 0 {
        lemma_usage_counts_occurrences(m, tags.drop_last(), now, t);
        assert(occurrences(tags.drop_last(), t) <= tags.len() - 1) by {
            lemma_occurrences_bounded(tags.drop_last(), t);
        }
    }
}

proof fn lemma_occurrences_bounded(tags: Seq<Seq<char>>, t: Seq<char>)
    ensures
        occurrences(tags, t) <= tags.len(),
    decreases tags.len(),
{
    if tags.len() > 0 {
        lemma_occurrences_bounded(tags.drop_last(), t);
    }
}

proof fn lemma_no_interest(aff: ContentAffinity, viewer: Seq<u8>, tags: Seq<Seq<char>>)
    requires
        forall|t: Seq<char>| aff.affinity(viewer, t) == 0,
    ensures
        tags_affinity(aff, viewer, tags) == 0,
    decreases tags.len(),
{
    if tags.len() > 0 {
        lemma_no_interest(aff, viewer, tags.drop_last());
    }
}

/// A viewer with no recorded signals (who follows no one, has no interest
/// in any hashtag and no interaction with anyone) gets the global feed:
/// every post scores zero, so the personalized order is the order by
/// creation time, newest first.
pub proof fn lemma_no_signals_feed_is_chronological(b: Backend, viewer: Seq<u8>)
    requires
        b.following_of(viewer).len() == 0,
        forall|t: Seq<char>| b.affinity().affinity(viewer, t) == 0,
        forall|u: Seq<u8>| b.interactions().strength(viewer, u) == 0,
    ensures
        b.feed_keys(viewer) == b.chrono_keys(),
        ranked_order(b.feed_keys(viewer)) == ranked_order(b.chrono_keys()),
{
    assert forall|i: int| 0 <= i < b.posts().len() implies b.post_score(viewer, #[trigger] b.posts()[i]) == 0 by {
        let p = b.posts()[i];
        lemma_no_interest(b.affinity(), viewer, p.hashtags.deep_view());
        assert(!b.following_of(viewer).contains(p.author@));
    }
    assert(b.feed_keys(viewer) =~= b.chrono_keys());
}

/// Asking twice for a feed of one state gives the same posts in the same
/// order.
pub proof fn lemma_feed_repeatable(b: Backend, viewer: Seq<u8>, limit: u64, r1: Seq<Post>, r2: Seq<Post>)
    requires
        r1.len() == take_len(limit, b.posts().len() as int),
        r2.len() == take_len(limit, b.posts().len() as int),
        forall|a: int| 0 <= a < r1.len() ==> #[trigger] r1[a].same(b.posts()[ranked_order(b.feed_keys(viewer))[a] as int]),
        forall|a: int| 0 <= a < r2.len() ==> #[trigger] r2[a].same(b.posts()[ranked_order(b.feed_keys(viewer))[a] as int]),
    ensures
        r1.len() == r2.len(),
        forall|a: int| 0 <= a < r1.len() ==> #[trigger] r1[a].same(r2[a]),
{
    assert forall|a: int| 0 <= a < r1.len() implies #[trigger] r1[a].same(r2[a]) by {
        let x = b.posts()[ranked_order(b.feed_keys(viewer))[a] as int];
        assert(r1[a].same(x));
        assert(r2[a].same(x));
        assert(r1[a].post_type.same(r2[a].post_type)) by {
            match x.post_type {
                crate::types::PostType::Original => {},
                crate::types::PostType::Reshare { .. } => {},
            }
        }
    }
}

/// Asking twice for suggestions on one state gives the same profiles in the
/// same order.
pub proof fn lemma_suggestions_repeatable(
    b: Backend,
    caller: Seq<u8>,
    limit: u64,
    r1: Seq<UserProfile>,
    r2: Seq<UserProfile>,
)
    requires
        r1.len() == take_len(limit, b.candidates(caller).len() as int),
        r2.len() == take_len(limit, b.candidates(caller).len() as int),
        forall|a: int| 0 <= a < r1.len() ==> #[trigger] r1[a].same(
            b.profiles()[b.candidates(caller)[ranked_order(b.suggest_keys(caller))[a] as int] as int],
        ),
        forall|a: int| 0 <= a < r2.len() ==> #[trigger] r2[a].same(
            b.profiles()[b.candidates(caller)[ranked_order(b.suggest_keys(caller))[a] as int] as int],
        ),
    ensures
        r1.len() == r2.len(),
        forall|a: int| 0 <= a < r1.len() ==> #[trigger] r1[a].same(r2[a]),
{
    assert forall|a: int| 0 <= a < r1.len() implies #[trigger] r1[a].same(r2[a]) by {
        let x = b.profiles()[b.candidates(caller)[ranked_order(b.suggest_keys(caller))[a] as int] as int];
        assert(r1[a].same(x));
        assert(r2[a].same(x));
    }
}

/// Asking twice for the top hashtags of one state gives the same topics in
/// the same order.
pub proof fn lemma_top_n_repeatable(t: Trending, limit: u64, r1: Seq<TrendingTopic>, r2: Seq<TrendingTopic>)
    requires
        r1.len() == take_len(limit, t.topics().len() as int),
        r2.len() == take_len(limit, t.topics().len() as int),
        forall|a: int| 0 <= a < r1.len() ==> #[trigger] r1[a].same(t.topics()[ranked_order(t.top_keys())[a] as int]),
        forall|a: int| 0 <= a < r2.len() ==> #[trigger] r2[a].same(t.topics()[ranked_order(t.top_keys())[a] as int]),
    ensures
        r1.len() == r2.len(),
        forall|a: int| 0 <= a < r1.len() ==> #[trigger] r1[a].same(r2[a]),
{
    assert forall|a: int| 0 <= a < r1.len() implies #[trigger] r1[a].same(r2[a]) by {
        let x = t.topics()[ranked_order(t.top_keys())[a] as int];
        assert(r1[a].same(x));
        assert(r2[a].same(x));
    }
}

/// The interaction map after the recorded steps `steps` (actor, target,
/// weight), each as `InteractionGraph::record_interaction` states it.
pub open spec fn graph_after(
    m: Map<(Seq<u8>, Seq<u8>), u64>,
    steps: Seq<(Seq<u8>, Seq<u8>, u64)>,
) -> Map<(Seq<u8>, Seq<u8>), u64>
    decreases steps.len(),
{
    if steps.len() == 0 {
        m
    } else {
        let p = graph_after(m, steps.drop_last());
        let (a, b, w) = steps.last();
        p.insert((a, b), sat(get_or_zero(p, (a, b)) as int, w as int))
    }
}

/// The sum of the weights of the steps from `a` to `b`.
pub open spec fn pair_sum(steps: Seq<(Seq<u8>, Seq<u8>, u64)>, a: Seq<u8>, b: Seq<u8>) -> int
    decreases steps.len(),
{
    if steps.len() == 0 {
        0
    } else {
        let (x, y, w) = steps.last();
        pair_sum(steps.drop_last(), a, b) + if x == a && y == b { w as int } else { 0 }
    }
}

/// Whatever other pairs are recorded in between, the strength from `a` to
/// `b` grows by exactly the sum of the weights recorded for that pair, as
/// long as it fits in a `u64`.
pub proof fn lemma_strength_accumulates_interleaved(
    m: Map<(Seq<u8>, Seq<u8>), u64>,
    steps: Seq<(Seq<u8>, Seq<u8>, u64)>,
    a: Seq<u8>,
    b: Seq<u8>,
)
    requires
        get_or_zero(m, (a, b)) + pair_sum(steps, a, b) <= u64::MAX,
    ensures
        get_or_zero(graph_after(m, steps), (a, b)) == get_or_zero(m, (a, b)) + pair_sum(steps, a, b),
    decreases steps.len(),
{
    if steps.len() > 0 {
        lemma_pair_sum_grows(steps.drop_last(), a, b);
        lemma_strength_accumulates_interleaved(m, steps.drop_last(), a, b);
    }
}

proof fn lemma_pair_sum_grows(steps: Seq<(Seq<u8>, Seq<u8>, u64)>, a: Seq<u8>, b: Seq<u8>)
    ensures
        pair_sum(steps, a, b) >= 0,
    decreases steps.len(),
{
    if steps.len() > 0 {
        lemma_pair_sum_grows(steps.drop_last(), a, b);
    }
}

/// The number of accounts two users both follow, which scores suggestions,
/// is the size of the intersection of the sets they follow.
pub proof fn lemma_mutuals_are_intersection(st: Backend, x: Seq<u8>, y: Seq<u8>)
    requires
        st.wf(),
    ensures
        st.mutuals(x, y).no_duplicates(),
        st.mutuals(x, y).to_set() == st.following_of(x).to_set().intersect(st.following_of(y).to_set()),
        st.mutuals(x, y).len() == st.following_of(x).to_set().intersect(st.following_of(y).to_set()).len(),
{
    st.lemma_following_no_duplicates(x);
    lemma_mutual_of(st.following_of(x), st.following_of(y));
    assert(st.mutuals(x, y).to_set() =~= st.following_of(x).to_set().intersect(st.following_of(y).to_set()));
    st.mutuals(x, y).unique_seq_to_set();
}

/// Once `a` follows `b`, neither `a` nor `b` is among the users that can be
/// suggested to `a`: a successful follow leaves `b` in `a`'s follow list,
/// and the candidates are those the caller does not follow.
pub proof fn lemma_followed_never_suggested(before: Backend, after: Backend, a: Seq<u8>, b: Seq<u8>)
    requires
        after.follows() == before.follows().insert(a, before.following_of(a).push(b)),
        after.profiles().len() <= usize::MAX,
    ensures
        after.is_following(a, b),
        forall|k: int| 0 <= k < after.candidates(a).len() ==> {
            let id = after.profiles()[#[trigger] after.candidates(a)[k] as int].id@;
            id != a && id != b
        },
{
    assert(after.following_of(a) == before.following_of(a).push(b));
    assert(after.following_of(a)[before.following_of(a).len() as int] == b);
    after.lemma_candidates_excluded(a);
}

/// A follow and then a like from `a` to `b` leave the strength from `a` to
/// `b` six higher (while it fits in a `u64`).
pub proof fn lemma_follow_then_like(s0: Backend, s1: Backend, s2: Backend, a: Seq<u8>, b: Seq<u8>)
    requires
        s1.interactions().view() == s0.interactions().view().insert(
            (a, b),
            sat(s0.interactions().strength(a, b) as int, 5),
        ),
        s2.interactions().view() == s1.interactions().view().insert(
            (a, b),
            sat(s1.interactions().strength(a, b) as int, 1),
        ),
        s0.interactions().strength(a, b) + 6 <= u64::MAX,
    ensures
        s2.interactions().strength(a, b) == s0.interactions().strength(a, b) + 6,
{
}

} // verus!
