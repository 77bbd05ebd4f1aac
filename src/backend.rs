//! The service's state and the actions that change it.
use vstd::prelude::*;
use crate::assoc::{to_map, unique_keys, lemma_to_map_dom, lemma_to_map_index, lemma_to_map_update, lemma_push_unique};
use crate::ranking::{rank, ranked_order, take_len, is_ranking};
use crate::signals::{
    sat, ContentAffinity, EntryView, InteractionGraph, TopicView, Trending, TrendingTopic, affinity_after, entries_after,
    topics_after, usage_after,
};
use crate::text::{extract_hashtags, hashtags_in, lower_lines, lower_of, matches_query, profile_matches, words_of};
use crate::types::{
    copy_ids, ids_view, ChatThread, Comment, Message, Notification, NotificationType, Post, PostType, Todo,
    UserProfile,
};
use crate::user::{id_precedes, principal_text, UserId};

verus! {

/// Weight of a follow in the interaction graph.
pub const FOLLOW_WEIGHT: u64 = 5;

/// Weight of a comment in the interaction graph.
pub const COMMENT_WEIGHT: u64 = 2;

/// Weight of a like in the interaction graph.
pub const LIKE_WEIGHT: u64 = 1;

/// Score a post gains when its viewer follows its author.
pub const FOLLOW_BONUS: u64 = 10;

/// Score a suggested user gains for each account both users follow.
pub const MUTUAL_BONUS: u64 = 10;

/// The accounts one user follows, in the order they were followed.
pub struct Following {
    pub user: UserId,
    pub following: Vec<UserId>,
}

pub open spec fn following_key(f: Following) -> Seq<u8> {
    f.user@
}

pub open spec fn following_val(f: Following) -> Seq<Seq<u8>> {
    ids_view(f.following@)
}

/// The sum of the interests of `viewer` in each hashtag of `tags`, held at
/// `u64::MAX`.
pub open spec fn tags_affinity(aff: ContentAffinity, viewer: Seq<u8>, tags: Seq<Seq<char>>) -> u64
    decreases tags.len(),
{
    if tags.len() == 0 {
        0
    } else {
        sat(tags_affinity(aff, viewer, tags.drop_last()) as int, aff.affinity(viewer, tags.last()) as int)
    }
}

/// The accounts that `mutual_of` keeps are those in both lists, and a list
/// without repeats gives a result without repeats.
pub proof fn lemma_mutual_of(fa: Seq<Seq<u8>>, fb: Seq<Seq<u8>>)
    ensures
        forall|x: Seq<u8>| #[trigger] mutual_of(fa, fb).contains(x) <==> fa.contains(x) && fb.contains(x),
        fa.no_duplicates() ==> mutual_of(fa, fb).no_duplicates(),
    decreases fa.len(),
{
    if fa.len() > 0 {
        let d = fa.drop_last();
        lemma_mutual_of(d, fb);
        let m = mutual_of(fa, fb);
        let md = mutual_of(d, fb);
        assert forall|x: Seq<u8>| #[trigger] m.contains(x) <==> fa.contains(x) && fb.contains(x) by {
            if fa.contains(x) {
                let k = choose|k: int| 0 <= k < fa.len() && fa[k] == x;
                if k < fa.len() - 1 {
                    assert(d[k] == x);
                }
            }
            if d.contains(x) {
                let k = choose|k: int| 0 <= k < d.len() && d[k] == x;
                assert(fa[k] == x);
            }
            if fb.contains(fa.last()) {
                assert(m == md.push(fa.last()));
                if md.contains(x) {
                    let k = choose|k: int| 0 <= k < md.len() && md[k] == x;
                    assert(m[k] == x);
                }
                if m.contains(x) && x != fa.last() {
                    let k = choose|k: int| 0 <= k < m.len() && m[k] == x;
                    assert(md[k] == x);
                }
                assert(m[md.len() as int] == fa.last());
            }
            assert(fa[fa.len() - 1] == fa.last());
        }
        if fa.no_duplicates() {
            assert(d.no_duplicates()) by {
                assert forall|i: int, j: int| 0 <= i < d.len() && 0 <= j < d.len() && i != j implies d[i] != d[j] by {
                    assert(d[i] == fa[i] && d[j] == fa[j]);
                }
            }
            if fb.contains(fa.last()) {
                assert(!d.contains(fa.last())) by {
                    if d.contains(fa.last()) {
                        let k = choose|k: int| 0 <= k < d.len() && d[k] == fa.last();
                        assert(fa[k] == fa[fa.len() - 1]);
                    }
                }
                assert(!md.contains(fa.last()));
                assert(m == md.push(fa.last()));
                assert forall|i: int, j: int| 0 <= i < m.len() && 0 <= j < m.len() && i != j implies m[i] != m[j] by {
                    if i < md.len() && j < md.len() {
                        assert(m[i] == md[i] && m[j] == md[j]);
                    } else if i < md.len() {
                        assert(m[i] == md[i]);
                        assert(md.contains(md[i]));
                    } else if j < md.len() {
                        assert(m[j] == md[j]);
                        assert(md.contains(md[j]));
                    }
                }
            }
        }
    }
}

/// The accounts of `fa` that also stand in `fb`, in the order of `fa`.
pub open spec fn mutual_of(fa: Seq<Seq<u8>>, fb: Seq<Seq<u8>>) -> Seq<Seq<u8>>
    decreases fa.len(),
{
    if fa.len() == 0 {
        Seq::empty()
    } else if fb.contains(fa.last()) {
        mutual_of(fa.drop_last(), fb).push(fa.last())
    } else {
        mutual_of(fa.drop_last(), fb)
    }
}

/// The whole state of the service.
pub struct Backend {
    todos: Vec<Todo>,
    posts: Vec<Post>,
    comments: Vec<Comment>,
    profiles: Vec<UserProfile>,
    follows: Vec<Following>,
    notifications: Vec<Notification>,
    messages: Vec<Message>,
    threads: Vec<ChatThread>,
    trending: Trending,
    interactions: InteractionGraph,
    affinity: ContentAffinity,
    counter: u64,
    post_counter: u64,
    comment_counter: u64,
    notification_counter: u64,
    message_counter: u64,
}

impl Backend {
    pub closed spec fn wf(&self) -> bool {
        &&& self.trending.wf()
        &&& self.interactions.wf()
        &&& self.affinity.wf()
        &&& unique_keys(self.follows@, |f: Following| following_key(f))
        &&& forall|i: int| 0 <= i < self.follows@.len() ==> (#[trigger] following_val(self.follows@[i])).no_duplicates()
        &&& forall|i: int| 0 <= i < self.posts@.len() ==> #[trigger] self.posts@[i].id <= self.post_counter
        &&& forall|i: int| 0 <= i < self.comments@.len() ==> #[trigger] self.comments@[i].id <= self.comment_counter
        &&& forall|i: int| 0 <= i < self.notifications@.len() ==> #[trigger] self.notifications@[i].id <= self.notification_counter
        &&& forall|i: int, j: int| 0 <= i < j < self.notifications@.len() ==> #[trigger] self.notifications@[i].id < #[trigger] self.notifications@[j].id
        &&& forall|i: int, j: int| 0 <= i < self.profiles@.len() && 0 <= j < self.profiles@.len() && i != j ==> #[trigger] self.profiles@[i].id@ != #[trigger] self.profiles@[j].id@
        &&& forall|i: int, j: int| 0 <= i < j < self.comments@.len() ==> #[trigger] self.comments@[i].id < #[trigger] self.comments@[j].id
        &&& forall|i: int, j: int| 0 <= i < j < self.posts@.len() ==> #[trigger] self.posts@[i].id < #[trigger] self.posts@[j].id
    }

    pub closed spec fn posts(&self) -> Seq<Post> {
        self.posts@
    }

    pub closed spec fn comments(&self) -> Seq<Comment> {
        self.comments@
    }

    pub closed spec fn profiles(&self) -> Seq<UserProfile> {
        self.profiles@
    }

    pub closed spec fn notifications(&self) -> Seq<Notification> {
        self.notifications@
    }

    pub closed spec fn messages(&self) -> Seq<Message> {
        self.messages@
    }

    pub closed spec fn todos(&self) -> Seq<Todo> {
        self.todos@
    }

    pub closed spec fn trending(&self) -> Trending {
        self.trending
    }

    pub closed spec fn interactions(&self) -> InteractionGraph {
        self.interactions
    }

    pub closed spec fn affinity(&self) -> ContentAffinity {
        self.affinity
    }

    pub closed spec fn counter(&self) -> u64 {
        self.counter
    }

    /// The last identifiers handed out, for posts, comments, notifications
    /// and messages.
    pub closed spec fn last_ids(&self) -> (u64, u64, u64, u64) {
        (self.post_counter, self.comment_counter, self.notification_counter, self.message_counter)
    }


    /// Who follows whom.
    pub closed spec fn follows(&self) -> Map<Seq<u8>, Seq<Seq<u8>>> {
        to_map(self.follows@, |f: Following| following_key(f), |f: Following| following_val(f))
    }

    /// The accounts `u` follows, in the order followed.
    pub open spec fn following_of(&self, u: Seq<u8>) -> Seq<Seq<u8>> {
        if self.follows().contains_key(u) { self.follows()[u] } else { Seq::empty() }
    }

    pub open spec fn is_following(&self, a: Seq<u8>, b: Seq<u8>) -> bool {
        self.following_of(a).contains(b)
    }

    /// The score of post `p` for `viewer`: the follow bonus where `viewer`
    /// follows its author, plus the viewer's interest in each of its
    /// hashtags, plus the strength from the viewer to its author.
    pub open spec fn post_score(&self, viewer: Seq<u8>, p: Post) -> u64 {
        let follow: u64 = if self.is_following(viewer, p.author@) { FOLLOW_BONUS } else { 0 };
        sat(
            sat(follow as int, tags_affinity(self.affinity(), viewer, p.hashtags.deep_view()) as int) as int,
            self.interactions().strength(viewer, p.author@) as int,
        )
    }

    /// The keys that order the feed of `viewer`: score, then creation time.
    pub open spec fn feed_keys(&self, viewer: Seq<u8>) -> Seq<(u64, u64)> {
        Seq::new(self.posts().len(), |i: int| (self.post_score(viewer, self.posts()[i]), self.posts()[i].created_at))
    }

    /// The keys that order the global feed: creation time alone.
    pub open spec fn chrono_keys(&self) -> Seq<(u64, u64)> {
        Seq::new(self.posts().len(), |i: int| (0u64, self.posts()[i].created_at))
    }

    pub fn new() -> (r: Backend)
        ensures
            r.wf(),
            r.posts().len() == 0,
            r.profiles().len() == 0,
            r.follows() == Map::<Seq<u8>, Seq<Seq<u8>>>::empty(),
            r.interactions().view() == Map::<(Seq<u8>, Seq<u8>), u64>::empty(),
            r.affinity().view() == Map::<(Seq<u8>, Seq<char>), u64>::empty(),
            r.trending().view() == Map::<Seq<char>, (u64, u64)>::empty(),
            r.trending().topic_views() == Seq::<TopicView>::empty(),
            r.affinity().entry_views() == Seq::<EntryView>::empty(),
            r.interactions().edges().len() == 0,
            r.comments().len() == 0,
            r.notifications().len() == 0,
            r.messages().len() == 0,
            r.threads().len() == 0,
            r.todos().len() == 0,
            r.counter() == 0,
            r.last_ids() == (0u64, 0u64, 0u64, 0u64),
    {
        Backend {
            todos: Vec::new(),
            posts: Vec::new(),
            comments: Vec::new(),
            profiles: Vec::new(),
            follows: Vec::new(),
            notifications: Vec::new(),
            messages: Vec::new(),
            threads: Vec::new(),
            trending: Trending::new(),
            interactions: InteractionGraph::new(),
            affinity: ContentAffinity::new(),
            counter: 0,
            post_counter: 0,
            comment_counter: 0,
            notification_counter: 0,
            message_counter: 0,
        }
    }

    /// What a well-formed state promises its users: each signal store is
    /// well formed; posts, comments and notifications carry increasing
    /// identifiers no larger than the last one handed out; no two profiles
    /// belong to one user.
    pub proof fn lemma_wf(&self)
        requires
            self.wf(),
        ensures
            self.trending().wf(),
            self.interactions().wf(),
            self.affinity().wf(),
            forall|i: int| 0 <= i < self.posts().len() ==> #[trigger] self.posts()[i].id <= self.last_ids().0,
            forall|i: int, j: int| 0 <= i < j < self.posts().len() ==> #[trigger] self.posts()[i].id < #[trigger] self.posts()[j].id,
            forall|i: int| 0 <= i < self.comments().len() ==> #[trigger] self.comments()[i].id <= self.last_ids().1,
            forall|i: int, j: int| 0 <= i < j < self.comments().len() ==> #[trigger] self.comments()[i].id < #[trigger] self.comments()[j].id,
            forall|i: int| 0 <= i < self.notifications().len() ==> #[trigger] self.notifications()[i].id <= self.last_ids().2,
            forall|i: int, j: int| 0 <= i < j < self.notifications().len() ==> #[trigger] self.notifications()[i].id < #[trigger] self.notifications()[j].id,
            forall|i: int, j: int| 0 <= i < self.profiles().len() && 0 <= j < self.profiles().len() && i != j ==> #[trigger] self.profiles()[i].id@ != #[trigger] self.profiles()[j].id@,
    {
    }

    /// No one follows an account twice.
    pub proof fn lemma_following_no_duplicates(&self, u: Seq<u8>)
        requires
            self.wf(),
        ensures
            self.following_of(u).no_duplicates(),
    {
        lemma_to_map_dom(self.follows@, |f: Following| following_key(f), |f: Following| following_val(f), u);
        if self.follows().contains_key(u) {
            let i = choose|i: int| 0 <= i < self.follows@.len() && following_key(self.follows@[i]) == u;
            lemma_to_map_index(self.follows@, |f: Following| following_key(f), |f: Following| following_val(f), i);
            assert(following_val(self.follows@[i]).no_duplicates());
        }
    }

    /// The last identifiers handed out, for posts, comments, notifications
    /// and messages.
    pub fn get_last_ids(&self) -> (r: (u64, u64, u64, u64))
        ensures
            r == self.last_ids(),
    {
        (self.post_counter, self.comment_counter, self.notification_counter, self.message_counter)
    }

    fn find_following(&self, user: &UserId) -> (r: Option<usize>)
        requires
            self.wf(),
        ensures
            match r {
                Some(i) => i < self.follows@.len() && following_key(self.follows@[i as int]) == user@
                    && self.follows().contains_key(user@)
                    && self.follows()[user@] == following_val(self.follows@[i as int]),
                None => !self.follows().contains_key(user@) && forall|i: int|
                    0 <= i < self.follows@.len() ==> following_key(#[trigger] self.follows@[i]) != user@,
            },
    {
        let mut i: usize = 0;
        while i < self.follows.len()
            invariant
                self.wf(),
                i <= self.follows@.len(),
                forall|j: int| 0 <= j < i ==> following_key(#[trigger] self.follows@[j]) != user@,
            decreases self.follows@.len() - i,
        {
            if self.follows[i].user.same(user) {
                proof {
                    lemma_to_map_index(
                        self.follows@,
                        |f: Following| following_key(f),
                        |f: Following| following_val(f),
                        i as int,
                    );
                }
                return Some(i);
            }
            i = i + 1;
        }
        proof {
            lemma_to_map_dom(self.follows@, |f: Following| following_key(f), |f: Following| following_val(f), user@);
        }
        None
    }

    /// The accounts `user` follows, in the order followed.
    pub fn get_following(&self, user: &UserId) -> (r: Vec<UserId>)
        requires
            self.wf(),
        ensures
            ids_view(r@) == self.following_of(user@),
    {
        match self.find_following(user) {
            Some(i) => copy_ids(&self.follows[i].following),
            None => {
                let r: Vec<UserId> = Vec::new();
                assert(ids_view(r@) =~= Seq::<Seq<u8>>::empty());
                r
            },
        }
    }
}

/// Whether `v` holds the identity `u`.
pub fn ids_contain(v: &Vec<UserId>, u: &UserId) -> (r: bool)
    ensures
        r == ids_view(v@).contains(u@),
{
    let mut i: usize = 0;
    while i < v.len()
        invariant
            i <= v@.len(),
            forall|j: int| 0 <= j < i ==> v@[j]@ != u@,
        decreases v@.len() - i,
    {
        if v[i].same(u) {
            assert(ids_view(v@)[i as int] == u@);
            return true;
        }
        i = i + 1;
    }
    proof {
        if ids_view(v@).contains(u@) {
            let j = choose|j: int| 0 <= j < ids_view(v@).len() && ids_view(v@)[j] == u@;
            assert(v@[j]@ == u@);
        }
    }
    false
}

/// `p` is the post numbered `id` that `author` wrote at `now` with text
/// `content`: no likes or comments yet, and the hashtags of its text.
pub open spec fn is_new_post(p: Post, id: u64, author: Seq<u8>, content: Seq<char>, now: u64, kind: PostType) -> bool {
    &&& p.id == id
    &&& p.author@ == author
    &&& p.content@ == content
    &&& p.created_at == now
    &&& p.likes@.len() == 0
    &&& p.comments@.len() == 0
    &&& p.hashtags.deep_view() == hashtags_in(words_of(content))
    &&& p.post_type.same(kind)
    &&& p.reshare_count == 0
}

impl Backend {
    /// The interaction graph, the affinity index and the trending topics are as in `o`.
    pub open spec fn signals_kept(&self, o: Backend) -> bool {
        &&& self.interactions() == o.interactions()
        &&& self.affinity() == o.affinity()
        &&& self.trending() == o.trending()
    }

    /// The profiles and the follow relation are as in `o`.
    pub open spec fn people_kept(&self, o: Backend) -> bool {
        self.profiles() == o.profiles() && self.follows() == o.follows()
    }

    /// The posts and the comments are as in `o`.
    pub open spec fn content_kept(&self, o: Backend) -> bool {
        self.posts() == o.posts() && self.comments() == o.comments()
    }

    /// The messages, the conversations and the notifications are as in `o`.
    pub open spec fn mail_kept(&self, o: Backend) -> bool {
        &&& self.messages() == o.messages()
        &&& self.threads() == o.threads()
        &&& self.notifications() == o.notifications()
    }

    /// The to-do list and the counter are as in `o`.
    pub open spec fn todos_kept(&self, o: Backend) -> bool {
        self.todos() == o.todos() && self.counter() == o.counter()
    }

    /// The state besides the posts, the trending topics, the affinity index
    /// and the identifiers is as in `o`.
    pub open spec fn social_unchanged(&self, o: Backend) -> bool {
        &&& self.profiles() == o.profiles()
        &&& self.follows() == o.follows()
        &&& self.interactions().view() == o.interactions().view()
        &&& self.comments() == o.comments()
        &&& self.messages() == o.messages()
        &&& self.todos() == o.todos()
        &&& self.counter() == o.counter()
    }

    fn create_post_internal(&mut self, author: &UserId, content: String, post_type: PostType, now: u64) -> (r: Post)
        requires
            old(self).wf(),
            old(self).last_ids().0 < u64::MAX,
        ensures
            final(self).wf(),
            is_new_post(r, (old(self).last_ids().0 + 1) as u64, author@, content@, now, post_type),
            final(self).posts().len() == old(self).posts().len() + 1,
            final(self).posts().drop_last() == old(self).posts(),
            final(self).posts().last().same(r),
            final(self).trending().view() == usage_after(
                old(self).trending().view(),
                hashtags_in(words_of(content@)),
                now,
            ),
            final(self).affinity().view() == affinity_after(
                old(self).affinity().view(),
                author@,
                hashtags_in(words_of(content@)),
                1,
            ),
            final(self).trending().topic_views() == topics_after(
                old(self).trending().topic_views(),
                hashtags_in(words_of(content@)),
                now,
            ),
            final(self).affinity().entry_views() == entries_after(
                old(self).affinity().entry_views(),
                author@,
                hashtags_in(words_of(content@)),
                1,
            ),
            final(self).last_ids() == ((old(self).last_ids().0 + 1) as u64, old(self).last_ids().1,
                old(self).last_ids().2, old(self).last_ids().3),
            final(self).social_unchanged(*old(self)),
            final(self).notifications() == old(self).notifications(),
            final(self).threads() == old(self).threads(),
            final(self).interactions() == old(self).interactions(),
    {
        self.post_counter = self.post_counter + 1;
        let hashtags = extract_hashtags(&content);
        let post = Post {
            id: self.post_counter,
            author: author.copy(),
            content,
            created_at: now,
            likes: Vec::new(),
            comments: Vec::new(),
            hashtags,
            post_type,
            reshare_count: 0,
        };
        self.posts.push(post.copy());
        self.trending.record_usage(&post.hashtags, now);
        self.affinity.record_affinity(author, &post.hashtags, 1);
        post
    }

    /// Publishes a post by `author` at `now`; its hashtags count towards the
    /// trending topics and the author's own interests.
    pub fn create_post(&mut self, author: &UserId, content: String, now: u64) -> (r: Result<Post, String>)
        requires
            old(self).wf(),
            old(self).last_ids().0 < u64::MAX,
        ensures
            final(self).wf(),
            r is Ok,
            r matches Ok(p) ==> is_new_post(
                p,
                (old(self).last_ids().0 + 1) as u64,
                author@,
                content@,
                now,
                PostType::Original,
            ) && final(self).posts().last().same(p),
            final(self).posts().drop_last() == old(self).posts(),
            final(self).posts().len() == old(self).posts().len() + 1,
            final(self).trending().view() == usage_after(
                old(self).trending().view(),
                hashtags_in(words_of(content@)),
                now,
            ),
            final(self).affinity().view() == affinity_after(
                old(self).affinity().view(),
                author@,
                hashtags_in(words_of(content@)),
                1,
            ),
            final(self).trending().topic_views() == topics_after(
                old(self).trending().topic_views(),
                hashtags_in(words_of(content@)),
                now,
            ),
            final(self).affinity().entry_views() == entries_after(
                old(self).affinity().entry_views(),
                author@,
                hashtags_in(words_of(content@)),
                1,
            ),
            final(self).last_ids() == ((old(self).last_ids().0 + 1) as u64, old(self).last_ids().1,
                old(self).last_ids().2, old(self).last_ids().3),
            final(self).social_unchanged(*old(self)),
            final(self).notifications() == old(self).notifications(),
            final(self).interactions() == old(self).interactions(),
            final(self).people_kept(*old(self)),
            final(self).comments() == old(self).comments(),
            final(self).mail_kept(*old(self)),
            final(self).todos_kept(*old(self)),
    {
        Ok(self.create_post_internal(author, content, PostType::Original, now))
    }

    fn posts_in_order(&self, keys: &Vec<(u64, u64)>, limit: u64) -> (r: Vec<Post>)
        requires
            keys@.len() == self.posts@.len(),
        ensures
            is_ranking(keys@, ranked_order(keys@)),
            r@.len() == take_len(limit, self.posts().len() as int),
            forall|a: int| 0 <= a < r@.len() ==>
                #[trigger] r@[a].same(self.posts()[ranked_order(keys@)[a] as int]),
    {
        let order = rank(keys);
        let n: usize = if (limit as u128) < (order.len() as u128) { limit as usize } else { order.len() };
        let mut r: Vec<Post> = Vec::new();
        let mut a: usize = 0;
        while a < n
            invariant
                n == take_len(limit, self.posts@.len() as int),
                order@ == ranked_order(keys@),
                is_ranking(keys@, order@),
                keys@.len() == self.posts@.len(),
                a <= n,
                r@.len() == a,
                forall|b: int| 0 <= b < a ==> #[trigger] r@[b].same(self.posts@[order@[b] as int]),
            decreases n - a,
        {
            r.push(self.posts[order[a]].copy());
            a = a + 1;
        }
        r
    }

    /// The `limit` newest posts, newest first; posts made at one time in the
    /// order they were made.
    pub fn get_feed(&self, limit: u64) -> (r: Vec<Post>)
        ensures
            is_ranking(self.chrono_keys(), ranked_order(self.chrono_keys())),
            r@.len() == take_len(limit, self.posts().len() as int),
            forall|a: int| 0 <= a < r@.len() ==>
                #[trigger] r@[a].same(self.posts()[ranked_order(self.chrono_keys())[a] as int]),
    {
        let mut keys: Vec<(u64, u64)> = Vec::new();
        let mut i: usize = 0;
        while i < self.posts.len()
            invariant
                i <= self.posts@.len(),
                keys@ =~= self.chrono_keys().take(i as int),
            decreases self.posts@.len() - i,
        {
            keys.push((0, self.posts[i].created_at));
            i = i + 1;
        }
        assert(keys@ =~= self.chrono_keys());
        self.posts_in_order(&keys, limit)
    }

    fn tags_score(&self, viewer: &UserId, tags: &Vec<String>) -> (r: u64)
        requires
            self.wf(),
        ensures
            r == tags_affinity(self.affinity(), viewer@, tags.deep_view()),
    {
        let mut total: u64 = 0;
        let mut i: usize = 0;
        while i < tags.len()
            invariant
                self.wf(),
                i <= tags@.len(),
                total == tags_affinity(self.affinity(), viewer@, tags.deep_view().take(i as int)),
            decreases tags@.len() - i,
        {
            let w = self.affinity.get_affinity(viewer, &tags[i]);
            proof {
                let t = tags.deep_view();
                assert(t.take(i + 1).drop_last() =~= t.take(i as int));
            }
            total = total.saturating_add(w);
            i = i + 1;
        }
        assert(tags.deep_view().take(i as int) =~= tags.deep_view());
        total
    }

    fn score_post(&self, viewer: &UserId, following: &Vec<UserId>, p: &Post) -> (r: u64)
        requires
            self.wf(),
            ids_view(following@) == self.following_of(viewer@),
        ensures
            r == self.post_score(viewer@, *p),
    {
        let follow: u64 = if ids_contain(following, &p.author) { FOLLOW_BONUS } else { 0 };
        let tags = self.tags_score(viewer, &p.hashtags);
        let strength = self.interactions.get_strength(viewer, &p.author);
        follow.saturating_add(tags).saturating_add(strength)
    }

    /// The `limit` posts that rank highest for `viewer`, best first: a post
    /// scores the follow bonus where `viewer` follows its author, the
    /// viewer's interest in each of its hashtags, and the strength from the
    /// viewer to its author. Equal scores go newest first, then in the order
    /// the posts were made.
    pub fn get_personalized_feed(&self, viewer: &UserId, limit: u64) -> (r: Vec<Post>)
        requires
            self.wf(),
        ensures
            is_ranking(self.feed_keys(viewer@), ranked_order(self.feed_keys(viewer@))),
            r@.len() == take_len(limit, self.posts().len() as int),
            forall|a: int| 0 <= a < r@.len() ==>
                #[trigger] r@[a].same(self.posts()[ranked_order(self.feed_keys(viewer@))[a] as int]),
    {
        let following = self.get_following(viewer);
        let mut keys: Vec<(u64, u64)> = Vec::new();
        let mut i: usize = 0;
        while i < self.posts.len()
            invariant
                self.wf(),
                ids_view(following@) == self.following_of(viewer@),
                i <= self.posts@.len(),
                keys@ =~= self.feed_keys(viewer@).take(i as int),
            decreases self.posts@.len() - i,
        {
            let s = self.score_post(viewer, &following, &self.posts[i]);
            keys.push((s, self.posts[i].created_at));
            i = i + 1;
        }
        assert(keys@ =~= self.feed_keys(viewer@));
        self.posts_in_order(&keys, limit)
    }
}

/// A message of refusal.
fn refusal(s: &str) -> (r: String)
    ensures
        r@ == s@,
{
    String::from_str(s)
}

/// `n` is the unread notification numbered `id` for `recipient`, made at `now`.
pub open spec fn is_new_notification(n: Notification, id: u64, recipient: Seq<u8>, kind: NotificationType, now: u64) -> bool {
    &&& n.id == id
    &&& n.recipient@ == recipient
    &&& n.notification_type.same(kind)
    &&& n.created_at == now
    &&& !n.read
}

/// `new` is `old` with `u` added to its likes.
pub open spec fn with_like(new: Post, old: Post, u: Seq<u8>) -> bool {
    &&& ids_view(new.likes@) == ids_view(old.likes@).push(u)
    &&& new.id == old.id && new.author@ == old.author@ && new.content@ == old.content@
    &&& new.created_at == old.created_at && new.comments@ == old.comments@
    &&& new.hashtags.deep_view() == old.hashtags.deep_view() && new.post_type.same(old.post_type)
    &&& new.reshare_count == old.reshare_count
}

/// `new` is `old` with its likes replaced by `likes`, its comments by
/// `comments` and its reshare count by `reshares`.
pub open spec fn post_changed(new: Post, old: Post, likes: Seq<Seq<u8>>, comments: Seq<u64>, reshares: u64) -> bool {
    &&& ids_view(new.likes@) == likes
    &&& new.comments@ == comments
    &&& new.reshare_count == reshares
    &&& new.id == old.id && new.author@ == old.author@ && new.content@ == old.content@
    &&& new.created_at == old.created_at
    &&& new.hashtags.deep_view() == old.hashtags.deep_view() && new.post_type.same(old.post_type)
}

impl Backend {
    /// Some post carries the identifier `id`.
    pub open spec fn has_post(&self, id: u64) -> bool {
        exists|i: int| 0 <= i < self.posts().len() && self.posts()[i].id == id
    }

    /// The position of the post with identifier `id`.
    pub open spec fn post_index(&self, id: u64) -> int {
        choose|i: int| 0 <= i < self.posts().len() && self.posts()[i].id == id
    }

    fn find_post(&self, id: u64) -> (r: Option<usize>)
        requires
            self.wf(),
        ensures
            match r {
                Some(i) => self.has_post(id) && i == self.post_index(id) && i < self.posts().len(),
                None => !self.has_post(id),
            },
    {
        let mut i: usize = 0;
        while i < self.posts.len()
            invariant
                self.wf(),
                i <= self.posts@.len(),
                forall|j: int| 0 <= j < i ==> self.posts@[j].id != id,
            decreases self.posts@.len() - i,
        {
            if self.posts[i].id == id {
                proof {
                    let k = self.post_index(id);
                    assert(self.posts@[i as int].id == id);
                    if k != i {
                        if k < i {
                            assert(self.posts@[k].id < self.posts@[i as int].id);
                        } else {
                            assert(self.posts@[i as int].id < self.posts@[k].id);
                        }
                    }
                }
                return Some(i);
            }
            i = i + 1;
        }
        None
    }

    fn notify(&mut self, recipient: &UserId, kind: NotificationType, now: u64)
        requires
            old(self).wf(),
            old(self).last_ids().2 < u64::MAX,
        ensures
            final(self).wf(),
            final(self).notifications().len() == old(self).notifications().len() + 1,
            final(self).notifications().drop_last() == old(self).notifications(),
            is_new_notification(
                final(self).notifications().last(),
                (old(self).last_ids().2 + 1) as u64,
                recipient@,
                kind,
                now,
            ),
            final(self).last_ids() == (old(self).last_ids().0, old(self).last_ids().1,
                (old(self).last_ids().2 + 1) as u64, old(self).last_ids().3),
            final(self).posts() == old(self).posts(),
            final(self).social_unchanged(*old(self)),
            final(self).trending() == old(self).trending(),
            final(self).affinity() == old(self).affinity(),
            final(self).threads@ == old(self).threads@,
            final(self).interactions() == old(self).interactions(),
            final(self).comments() == old(self).comments(),
    {
        self.notification_counter = self.notification_counter + 1;
        let n = Notification {
            id: self.notification_counter,
            recipient: recipient.copy(),
            notification_type: kind,
            created_at: now,
            read: false,
        };
        self.notifications.push(n);
        assert(self.notifications@.drop_last() =~= old(self).notifications@);
    }

    /// `user` likes the post `post_id`: the author is notified and the
    /// strength from `user` to the author grows by the like weight.
    pub fn like_post(&mut self, user: &UserId, post_id: u64, now: u64) -> (r: Result<Post, String>)
        requires
            old(self).wf(),
            old(self).last_ids().2 < u64::MAX,
        ensures
            final(self).wf(),
            !old(self).has_post(post_id) ==> (r matches Err(e) && e@ == "Post not found"@ && *final(self)
                == *old(self)),
            old(self).has_post(post_id) && ids_view(old(self).posts()[old(self).post_index(post_id)].likes@).contains(
                user@,
            ) ==> (r matches Err(e) && e@ == "Post already liked"@ && *final(self) == *old(self)),
            old(self).has_post(post_id) && !ids_view(
                old(self).posts()[old(self).post_index(post_id)].likes@,
            ).contains(user@) ==> r is Ok,
            r is Ok ==> {
                let i = old(self).post_index(post_id);
                let author = old(self).posts()[i].author@;
                &&& old(self).has_post(post_id)
                &&& !ids_view(old(self).posts()[i].likes@).contains(user@)
                &&& final(self).posts().len() == old(self).posts().len()
                &&& forall|j: int| 0 <= j < old(self).posts().len() && j != i ==> final(self).posts()[j]
                    == old(self).posts()[j]
                &&& with_like(final(self).posts()[i], old(self).posts()[i], user@)
                &&& (r matches Ok(p) && p.same(final(self).posts()[i]))
                &&& final(self).notifications().drop_last() == old(self).notifications()
                &&& is_new_notification(
                    final(self).notifications().last(),
                    (old(self).last_ids().2 + 1) as u64,
                    author,
                    NotificationType::Like { post_id, user_id: *user },
                    now,
                )
                &&& final(self).interactions().view() == old(self).interactions().view().insert(
                    (user@, author),
                    sat(old(self).interactions().strength(user@, author) as int, LIKE_WEIGHT as int),
                )
                &&& final(self).last_ids() == (old(self).last_ids().0, old(self).last_ids().1,
                    (old(self).last_ids().2 + 1) as u64, old(self).last_ids().3)
            },
            final(self).affinity() == old(self).affinity(),
            final(self).trending() == old(self).trending(),
            final(self).people_kept(*old(self)),
            final(self).comments() == old(self).comments(),
            final(self).messages() == old(self).messages(),
            final(self).threads() == old(self).threads(),
            final(self).todos_kept(*old(self)),
    {
        let i = match self.find_post(post_id) {
            Some(i) => i,
            None => return Err(refusal("Post not found")),
        };
        if ids_contain(&self.posts[i].likes, user) {
            return Err(refusal("Post already liked"));
        }
        let old_post = self.posts[i].copy();
        let mut likes = copy_ids(&old_post.likes);
        likes.push(user.copy());
        assert(ids_view(likes@) =~= ids_view(old_post.likes@).push(user@));
        let comments = old_post.comments.clone();
        assert(comments@ =~= old_post.comments@);
        let post = Post {
            id: old_post.id,
            author: old_post.author.copy(),
            content: old_post.content.clone(),
            created_at: old_post.created_at,
            likes,
            comments,
            hashtags: crate::types::copy_strings(&old_post.hashtags),
            post_type: old_post.post_type.copy(),
            reshare_count: old_post.reshare_count,
        };
        let result = post.copy();
        self.posts.set(i, post);
        self.notify(&old_post.author, NotificationType::Like { post_id, user_id: user.copy() }, now);
        self.interactions.record_interaction(user, &old_post.author, LIKE_WEIGHT);
        Ok(result)
    }
}

/// A follow count after one follow (`up`) or one unfollow: it never drops
/// below zero nor wraps past `u64::MAX`.
pub open spec fn stepped(c: u64, up: bool) -> u64 {
    if up { sat(c as int, 1) } else if c > 0 { (c - 1) as u64 } else { 0 }
}

/// `new` is `old` with its counts moved for one follow (`up`) or unfollow
/// of `target` by `follower`.
pub open spec fn counts_moved(new: UserProfile, old: UserProfile, follower: Seq<u8>, target: Seq<u8>, up: bool) -> bool {
    &&& new.following_count == if old.id@ == follower { stepped(old.following_count, up) } else { old.following_count }
    &&& new.followers_count == if old.id@ == target { stepped(old.followers_count, up) } else { old.followers_count }
    &&& new.id@ == old.id@ && new.username@ == old.username@ && new.created_at == old.created_at
    &&& new.bio.deep_view() == old.bio.deep_view() && new.avatar_url.deep_view() == old.avatar_url.deep_view()
}

fn step_count(c: u64, up: bool) -> (r: u64)
    ensures
        r == stepped(c, up),
{
    if up { c.saturating_add(1) } else { c.saturating_sub(1) }
}

impl Backend {
    fn move_counts(&mut self, follower: &UserId, target: &UserId, up: bool)
        requires
            old(self).wf(),
        ensures
            final(self).wf(),
            final(self).profiles().len() == old(self).profiles().len(),
            forall|i: int| 0 <= i < old(self).profiles().len() ==> counts_moved(
                #[trigger] final(self).profiles()[i],
                old(self).profiles()[i],
                follower@,
                target@,
                up,
            ),
            final(self).posts() == old(self).posts(),
            final(self).follows() == old(self).follows(),
            final(self).interactions() == old(self).interactions(),
            final(self).affinity() == old(self).affinity(),
            final(self).trending() == old(self).trending(),
            final(self).notifications() == old(self).notifications(),
            final(self).comments() == old(self).comments(),
            final(self).messages() == old(self).messages(),
            final(self).todos() == old(self).todos(),
            final(self).counter() == old(self).counter(),
            final(self).last_ids() == old(self).last_ids(),
            final(self).threads() == old(self).threads(),
    {
        let mut i: usize = 0;
        while i < self.profiles.len()
            invariant
                self.wf(),
                i <= self.profiles@.len(),
                self.profiles@.len() == old(self).profiles@.len(),
                forall|j: int| 0 <= j < i ==> counts_moved(
                    #[trigger] self.profiles@[j],
                    old(self).profiles@[j],
                    follower@,
                    target@,
                    up,
                ),
                forall|j: int| i <= j < self.profiles@.len() ==> #[trigger] self.profiles@[j] == old(self).profiles@[j],
                self.posts@ == old(self).posts@,
                self.follows@ == old(self).follows@,
                self.interactions == old(self).interactions,
                self.affinity == old(self).affinity,
                self.trending == old(self).trending,
                self.notifications@ == old(self).notifications@,
                self.comments@ == old(self).comments@,
                self.messages@ == old(self).messages@,
                self.threads@ == old(self).threads@,
                self.todos@ == old(self).todos@,
                self.counter == old(self).counter,
                self.last_ids() == old(self).last_ids(),
            decreases self.profiles@.len() - i,
        {
            let mut p = self.profiles[i].copy();
            if p.id.same(follower) {
                p.following_count = step_count(p.following_count, up);
            }
            if p.id.same(target) {
                p.followers_count = step_count(p.followers_count, up);
            }
            self.profiles.set(i, p);
            assert forall|a: int, b: int|
                0 <= a < self.profiles@.len() && 0 <= b < self.profiles@.len() && a != b implies #[trigger] self.profiles@[a].id@
                != #[trigger] self.profiles@[b].id@ by {
                assert(self.profiles@[a].id@ == old(self).profiles@[a].id@);
                assert(self.profiles@[b].id@ == old(self).profiles@[b].id@);
            }
            i = i + 1;
        }
    }

    /// `follower` starts to follow `target`: both profiles' counts move, the
    /// target is notified and the strength from follower to target grows by
    /// the follow weight.
    pub fn follow_user(&mut self, follower: &UserId, target: &UserId, now: u64) -> (r: Result<(), String>)
        requires
            old(self).wf(),
            old(self).last_ids().2 < u64::MAX,
        ensures
            final(self).wf(),
            follower@ == target@ ==> (r matches Err(e) && e@ == "Cannot follow yourself"@ && *final(self)
                == *old(self)),
            follower@ != target@ && old(self).is_following(follower@, target@) ==> (r matches Err(e) && e@
                == "Already following"@ && *final(self) == *old(self)),
            follower@ != target@ && !old(self).is_following(follower@, target@) ==> r is Ok,
            r is Ok ==> {
                &&& follower@ != target@
                &&& !old(self).is_following(follower@, target@)
                &&& final(self).follows() == old(self).follows().insert(
                    follower@,
                    old(self).following_of(follower@).push(target@),
                )
                &&& final(self).profiles().len() == old(self).profiles().len()
                &&& forall|i: int| 0 <= i < old(self).profiles().len() ==> counts_moved(
                    #[trigger] final(self).profiles()[i],
                    old(self).profiles()[i],
                    follower@,
                    target@,
                    true,
                )
                &&& final(self).notifications().drop_last() == old(self).notifications()
                &&& is_new_notification(
                    final(self).notifications().last(),
                    (old(self).last_ids().2 + 1) as u64,
                    target@,
                    NotificationType::Follow { user_id: *follower },
                    now,
                )
                &&& final(self).interactions().view() == old(self).interactions().view().insert(
                    (follower@, target@),
                    sat(old(self).interactions().strength(follower@, target@) as int, FOLLOW_WEIGHT as int),
                )
                &&& final(self).posts() == old(self).posts()
                &&& final(self).affinity() == old(self).affinity()
                &&& final(self).last_ids() == (old(self).last_ids().0, old(self).last_ids().1,
                    (old(self).last_ids().2 + 1) as u64, old(self).last_ids().3)
            },
            final(self).content_kept(*old(self)),
            final(self).affinity() == old(self).affinity(),
            final(self).trending() == old(self).trending(),
            final(self).messages() == old(self).messages(),
            final(self).threads() == old(self).threads(),
            final(self).todos_kept(*old(self)),
    {
        if follower.same(target) {
            return Err(refusal("Cannot follow yourself"));
        }
        let ghost key = |f: Following| following_key(f);
        let ghost val = |f: Following| following_val(f);
        match self.find_following(follower) {
            Some(i) => {
                if ids_contain(&self.follows[i].following, target) {
                    return Err(refusal("Already following"));
                }
                let mut list = copy_ids(&self.follows[i].following);
                list.push(target.copy());
                let f = Following { user: follower.copy(), following: list };
                proof {
                    assert(following_val(f) =~= old(self).following_of(follower@).push(target@));
                    lemma_to_map_update(self.follows@, key, val, i as int, f);
                }
                self.follows.set(i, f);
            },
            None => {
                let mut list: Vec<UserId> = Vec::new();
                list.push(target.copy());
                let f = Following { user: follower.copy(), following: list };
                proof {
                    assert(following_val(f) =~= old(self).following_of(follower@).push(target@));
                    lemma_push_unique(self.follows@, key, f);
                }
                self.follows.push(f);
                assert(self.follows@.drop_last() =~= old(self).follows@);
            },
        }
        self.move_counts(follower, target, true);
        self.notify(target, NotificationType::Follow { user_id: follower.copy() }, now);
        self.interactions.record_interaction(follower, target, FOLLOW_WEIGHT);
        Ok(())
    }

    /// `follower` stops following `target`; both profiles' counts move back.
    /// The interaction graph keeps what the follow added.
    pub fn unfollow_user(&mut self, follower: &UserId, target: &UserId) -> (r: Result<(), String>)
        requires
            old(self).wf(),
        ensures
            final(self).wf(),
            !old(self).is_following(follower@, target@) ==> (r matches Err(e) && e@ == "Not following"@
                && *final(self) == *old(self)),
            old(self).is_following(follower@, target@) ==> r is Ok,
            r is Ok ==> {
                &&& old(self).is_following(follower@, target@)
                &&& final(self).follows() == old(self).follows().insert(
                    follower@,
                    old(self).following_of(follower@).remove_value(target@),
                )
                &&& final(self).profiles().len() == old(self).profiles().len()
                &&& forall|i: int| 0 <= i < old(self).profiles().len() ==> counts_moved(
                    #[trigger] final(self).profiles()[i],
                    old(self).profiles()[i],
                    follower@,
                    target@,
                    false,
                )
                &&& final(self).notifications() == old(self).notifications()
                &&& final(self).interactions() == old(self).interactions()
                &&& final(self).posts() == old(self).posts()
                &&& final(self).last_ids() == old(self).last_ids()
            },
            final(self).content_kept(*old(self)),
            final(self).signals_kept(*old(self)),
            final(self).mail_kept(*old(self)),
            final(self).todos_kept(*old(self)),
            final(self).last_ids() == old(self).last_ids(),
    {
        let ghost key = |f: Following| following_key(f);
        let ghost val = |f: Following| following_val(f);
        let i = match self.find_following(follower) {
            Some(i) => i,
            None => return Err(refusal("Not following")),
        };
        let old_list = &self.follows[i].following;
        let mut pos: usize = 0;
        while pos < old_list.len() && !old_list[pos].same(target)
            invariant
                pos <= old_list@.len(),
                forall|j: int| 0 <= j < pos ==> old_list@[j]@ != target@,
            decreases old_list@.len() - pos,
        {
            pos = pos + 1;
        }
        if pos == old_list.len() {
            proof {
                if ids_view(old_list@).contains(target@) {
                    let j = choose|j: int| 0 <= j < ids_view(old_list@).len() && ids_view(old_list@)[j] == target@;
                    assert(old_list@[j]@ == target@);
                }
            }
            return Err(refusal("Not following"));
        }
        let mut list = copy_ids(old_list);
        assert(list@.len() == ids_view(list@).len() && old_list@.len() == ids_view(old_list@).len());
        list.remove(pos);
        let f = Following { user: follower.copy(), following: list };
        proof {
            let s = old(self).following_of(follower@);
            s.index_of_first_ensures(target@);
            assert(s[pos as int] == target@);
            assert(s.contains(target@));
            let k = s.index_of_first(target@).unwrap();
            assert(k == pos) by {
                if k < pos {
                    assert(old_list@[k]@ == target@);
                }
            }
            assert(following_val(f) =~= s.remove_value(target@));
            lemma_to_map_update(self.follows@, key, val, i as int, f);
        }
        self.follows.set(i, f);
        self.move_counts(follower, target, false);
        Ok(())
    }
}

/// The mutual bonus for `c` accounts followed in common, held at `u64::MAX`.
pub open spec fn mutual_score(c: nat) -> u64 {
    if c * MUTUAL_BONUS <= u64::MAX { (c * MUTUAL_BONUS) as u64 } else { u64::MAX }
}

fn mutual_bonus(c: usize) -> (r: u64)
    ensures
        r == mutual_score(c as nat),
{
    if (c as u128) * (MUTUAL_BONUS as u128) <= (u64::MAX as u128) {
        (c as u64) * MUTUAL_BONUS
    } else {
        u64::MAX
    }
}

impl Backend {
    /// The accounts that both `a` and `b` follow, in the order `a` followed them.
    pub open spec fn mutuals(&self, a: Seq<u8>, b: Seq<u8>) -> Seq<Seq<u8>> {
        mutual_of(self.following_of(a), self.following_of(b))
    }

    /// The accounts that both `caller` and `user` follow, in the order
    /// `caller` followed them.
    pub fn get_mutual_connections(&self, caller: &UserId, user: &UserId) -> (r: Vec<UserId>)
        requires
            self.wf(),
        ensures
            ids_view(r@) == self.mutuals(caller@, user@),
            ids_view(r@).no_duplicates(),
            forall|u: Seq<u8>| #[trigger] ids_view(r@).contains(u) <==> self.is_following(caller@, u)
                && self.is_following(user@, u),
    {
        let mine = self.get_following(caller);
        let theirs = self.get_following(user);
        let mut r: Vec<UserId> = Vec::new();
        let mut i: usize = 0;
        while i < mine.len()
            invariant
                i <= mine@.len(),
                ids_view(mine@) == self.following_of(caller@),
                ids_view(theirs@) == self.following_of(user@),
                ids_view(r@) == mutual_of(ids_view(mine@).take(i as int), ids_view(theirs@)),
            decreases mine@.len() - i,
        {
            proof {
                let m = ids_view(mine@);
                assert(m.take(i + 1).drop_last() =~= m.take(i as int));
                assert(m.take(i + 1).last() == mine@[i as int]@);
            }
            if ids_contain(&theirs, &mine[i]) {
                let ghost before = r@;
                r.push(mine[i].copy());
                assert(ids_view(r@) =~= ids_view(before).push(mine@[i as int]@));
            }
            i = i + 1;
        }
        assert(ids_view(mine@).take(i as int) =~= ids_view(mine@));
        proof {
            self.lemma_following_no_duplicates(caller@);
            lemma_mutual_of(self.following_of(caller@), self.following_of(user@));
        }
        r
    }

    /// The score of `b` as a suggestion for `a`: the mutual bonus for each
    /// account both follow (follow lists hold no repeats, so this counts the
    /// intersection of the two sets), plus the interest they share.
    pub open spec fn suggestion_score(&self, a: Seq<u8>, b: Seq<u8>) -> u64 {
        sat(mutual_score(self.mutuals(a, b).len()) as int, self.affinity().shared_interest(a, b) as int)
    }

    /// The positions, among the first `n` profiles, of those `caller` may be
    /// suggested: not the caller, nor anyone the caller follows.
    pub open spec fn candidate_indices(&self, caller: Seq<u8>, n: nat) -> Seq<usize>
        decreases n,
    {
        if n == 0 {
            Seq::empty()
        } else {
            let p = self.candidate_indices(caller, (n - 1) as nat);
            let x = self.profiles()[n - 1];
            if x.id@ != caller && !self.is_following(caller, x.id@) {
                p.push((n - 1) as usize)
            } else {
                p
            }
        }
    }

    /// The positions of the profiles `caller` may be suggested.
    pub open spec fn candidates(&self, caller: Seq<u8>) -> Seq<usize> {
        self.candidate_indices(caller, self.profiles().len())
    }

    /// The keys that order suggestions for `caller`: the score alone.
    pub open spec fn suggest_keys(&self, caller: Seq<u8>) -> Seq<(u64, u64)> {
        let c = self.candidates(caller);
        Seq::new(c.len(), |k: int| (self.suggestion_score(caller, self.profiles()[c[k] as int].id@), 0u64))
    }

    proof fn lemma_candidates(&self, caller: Seq<u8>, n: nat)
        requires
            n <= self.profiles().len(),
            n <= usize::MAX,
        ensures
            forall|k: int| 0 <= k < self.candidate_indices(caller, n).len() ==> {
                let j = #[trigger] self.candidate_indices(caller, n)[k];
                &&& j < n
                &&& self.profiles()[j as int].id@ != caller
                &&& !self.is_following(caller, self.profiles()[j as int].id@)
            },
        decreases n,
    {
        if n > 0 {
            let m = (n - 1) as nat;
            self.lemma_candidates(caller, m);
            let p = self.candidate_indices(caller, m);
            let c = self.candidate_indices(caller, n);
            assert forall|k: int| 0 <= k < c.len() implies {
                let j = #[trigger] c[k];
                &&& j < n
                &&& self.profiles()[j as int].id@ != caller
                &&& !self.is_following(caller, self.profiles()[j as int].id@)
            } by {
                if k < p.len() {
                    assert(c[k] == p[k]);
                }
            }
        }
    }

    /// Every candidate is neither `caller` nor someone `caller` follows.
    /// (A stored list never holds more than `usize::MAX` profiles.)
    pub proof fn lemma_candidates_excluded(&self, caller: Seq<u8>)
        requires
            self.profiles().len() <= usize::MAX,
        ensures
            forall|k: int| 0 <= k < self.candidates(caller).len() ==> {
                let p = self.profiles()[#[trigger] self.candidates(caller)[k] as int];
                p.id@ != caller && !self.is_following(caller, p.id@)
            },
    {
        self.lemma_candidates(caller, self.profiles().len() as nat);
    }

    /// Up to `limit` users for `caller` to follow, best first; equal scores
    /// in the order the profiles were made. A user scores the mutual bonus
    /// for each account both follow, plus the interest both share; the
    /// caller and those the caller follows are never suggested.
    pub fn suggest_connections(&self, caller: &UserId, limit: u64) -> (r: Vec<UserProfile>)
        requires
            self.wf(),
        ensures
            is_ranking(self.suggest_keys(caller@), ranked_order(self.suggest_keys(caller@))),
            r@.len() == take_len(limit, self.candidates(caller@).len() as int),
            forall|a: int| 0 <= a < r@.len() ==> #[trigger] r@[a].same(
                self.profiles()[self.candidates(caller@)[ranked_order(self.suggest_keys(caller@))[a] as int] as int],
            ),
            forall|a: int| 0 <= a < r@.len() ==> (#[trigger] r@[a]).id@ != caller@ && !self.is_following(
                caller@,
                r@[a].id@,
            ),
    {
        let following = self.get_following(caller);
        let mut cands: Vec<usize> = Vec::new();
        let mut keys: Vec<(u64, u64)> = Vec::new();
        let mut i: usize = 0;
        while i < self.profiles.len()
            invariant
                self.wf(),
                ids_view(following@) == self.following_of(caller@),
                i <= self.profiles@.len(),
                cands@ == self.candidate_indices(caller@, i as nat),
                keys@.len() == cands@.len(),
                forall|k: int| 0 <= k < keys@.len() ==> #[trigger] keys@[k] == (
                    self.suggestion_score(caller@, self.profiles@[cands@[k] as int].id@),
                    0u64,
                ),
            decreases self.profiles@.len() - i,
        {
            let p = &self.profiles[i];
            if !p.id.same(caller) && !ids_contain(&following, &p.id) {
                let mutual = self.get_mutual_connections(caller, &p.id);
                let shared = self.affinity.get_shared_interest(caller, &p.id);
                assert(mutual@.len() == ids_view(mutual@).len());
                let score = mutual_bonus(mutual.len()).saturating_add(shared);
                cands.push(i);
                keys.push((score, 0));
            }
            i = i + 1;
        }
        assert(keys@ =~= self.suggest_keys(caller@));
        proof {
            self.lemma_candidates(caller@, self.profiles@.len() as nat);
        }
        let order = rank(&keys);
        let n: usize = if (limit as u128) < (order.len() as u128) { limit as usize } else { order.len() };
        let mut r: Vec<UserProfile> = Vec::new();
        let mut a: usize = 0;
        while a < n
            invariant
                n == take_len(limit, cands@.len() as int),
                cands@ == self.candidates(caller@),
                order@ == ranked_order(keys@),
                keys@ == self.suggest_keys(caller@),
                is_ranking(keys@, order@),
                forall|k: int| 0 <= k < cands@.len() ==> #[trigger] cands@[k] < self.profiles@.len(),
                a <= n,
                r@.len() == a,
                forall|b: int| 0 <= b < a ==> #[trigger] r@[b].same(self.profiles@[cands@[order@[b] as int] as int]),
                forall|b: int| 0 <= b < a ==> (#[trigger] r@[b]).id@ != caller@ && !self.is_following(caller@, r@[b].id@),
                forall|k: int| 0 <= k < cands@.len() ==> {
                    let j = #[trigger] cands@[k];
                    &&& self.profiles@[j as int].id@ != caller@
                    &&& !self.is_following(caller@, self.profiles@[j as int].id@)
                },
            decreases n - a,
        {
            r.push(self.profiles[cands[order[a]]].copy());
            a = a + 1;
        }
        r
    }

    /// The interest of `user` in `tag`.
    pub fn get_affinity(&self, user: &UserId, tag: &String) -> (r: u64)
        requires
            self.wf(),
        ensures
            r == self.affinity().affinity(user@, tag@),
    {
        self.affinity.get_affinity(user, tag)
    }

    /// The strength from `caller` to `user` in the interaction graph.
    pub fn get_connection_strength(&self, caller: &UserId, user: &UserId) -> (r: u64)
        requires
            self.wf(),
        ensures
            r == self.interactions().strength(caller@, user@),
    {
        self.interactions.get_strength(caller, user)
    }

    /// The `limit` most used hashtags, most used first; equal counts in the
    /// order the hashtags first appeared.
    pub fn get_trending_topics(&self, limit: u64) -> (r: Vec<TrendingTopic>)
        ensures
            is_ranking(self.trending().top_keys(), ranked_order(self.trending().top_keys())),
            r@.len() == take_len(limit, self.trending().topics().len() as int),
            forall|a: int| 0 <= a < r@.len() ==> #[trigger] r@[a].same(
                self.trending().topics()[ranked_order(self.trending().top_keys())[a] as int],
            ),
    {
        self.trending.top_n(limit)
    }
}

impl Backend {
    fn replace_post(&mut self, i: usize, likes: Vec<UserId>, comments: Vec<u64>, reshares: u64) -> (r: Post)
        requires
            old(self).wf(),
            i < old(self).posts().len(),
        ensures
            final(self).wf(),
            final(self).posts().len() == old(self).posts().len(),
            forall|j: int| 0 <= j < old(self).posts().len() && j != i ==> final(self).posts()[j] == old(self).posts()[j],
            post_changed(final(self).posts()[i as int], old(self).posts()[i as int], ids_view(likes@), comments@, reshares),
            r.same(final(self).posts()[i as int]),
            final(self).social_unchanged(*old(self)),
            final(self).notifications() == old(self).notifications(),
            final(self).trending() == old(self).trending(),
            final(self).affinity() == old(self).affinity(),
            final(self).last_ids() == old(self).last_ids(),
            final(self).threads() == old(self).threads(),
            final(self).interactions() == old(self).interactions(),
    {
        let old_post = &self.posts[i];
        let post = Post {
            id: old_post.id,
            author: old_post.author.copy(),
            content: old_post.content.clone(),
            created_at: old_post.created_at,
            likes,
            comments,
            hashtags: crate::types::copy_strings(&old_post.hashtags),
            post_type: old_post.post_type.copy(),
            reshare_count: reshares,
        };
        let r = post.copy();
        self.posts.set(i, post);
        r
    }

    /// `user` withdraws a like from the post `post_id`. The interaction
    /// graph keeps what the like added.
    pub fn unlike_post(&mut self, user: &UserId, post_id: u64) -> (r: Result<Post, String>)
        requires
            old(self).wf(),
        ensures
            final(self).wf(),
            !old(self).has_post(post_id) ==> (r matches Err(e) && e@ == "Post not found"@ && *final(self)
                == *old(self)),
            old(self).has_post(post_id) && !ids_view(old(self).posts()[old(self).post_index(post_id)].likes@).contains(
                user@,
            ) ==> (r matches Err(e) && e@ == "Post not liked"@ && *final(self) == *old(self)),
            old(self).has_post(post_id) && ids_view(old(self).posts()[old(self).post_index(post_id)].likes@).contains(
                user@,
            ) ==> r is Ok,
            r is Ok ==> {
                let i = old(self).post_index(post_id);
                let p = old(self).posts()[i];
                &&& old(self).has_post(post_id)
                &&& final(self).posts().len() == old(self).posts().len()
                &&& forall|j: int| 0 <= j < old(self).posts().len() && j != i ==> final(self).posts()[j]
                    == old(self).posts()[j]
                &&& post_changed(
                    final(self).posts()[i],
                    p,
                    ids_view(p.likes@).remove_value(user@),
                    p.comments@,
                    p.reshare_count,
                )
                &&& (r matches Ok(q) && q.same(final(self).posts()[i]))
                &&& final(self).notifications() == old(self).notifications()
                &&& final(self).social_unchanged(*old(self))
                &&& final(self).last_ids() == old(self).last_ids()
            },
            final(self).signals_kept(*old(self)),
            final(self).people_kept(*old(self)),
            final(self).comments() == old(self).comments(),
            final(self).mail_kept(*old(self)),
            final(self).todos_kept(*old(self)),
            final(self).last_ids() == old(self).last_ids(),
    {
        let i = match self.find_post(post_id) {
            Some(i) => i,
            None => return Err(refusal("Post not found")),
        };
        let old_likes = &self.posts[i].likes;
        let mut pos: usize = 0;
        while pos < old_likes.len() && !old_likes[pos].same(user)
            invariant
                pos <= old_likes@.len(),
                forall|j: int| 0 <= j < pos ==> old_likes@[j]@ != user@,
            decreases old_likes@.len() - pos,
        {
            pos = pos + 1;
        }
        if pos == old_likes.len() {
            proof {
                if ids_view(old_likes@).contains(user@) {
                    let j = choose|j: int| 0 <= j < ids_view(old_likes@).len() && ids_view(old_likes@)[j] == user@;
                    assert(old_likes@[j]@ == user@);
                }
            }
            return Err(refusal("Post not liked"));
        }
        let mut likes = copy_ids(old_likes);
        assert(likes@.len() == ids_view(likes@).len() && old_likes@.len() == ids_view(old_likes@).len());
        likes.remove(pos);
        proof {
            let s = ids_view(old_likes@);
            s.index_of_first_ensures(user@);
            assert(s[pos as int] == user@);
            assert(s.contains(user@));
            let k = s.index_of_first(user@).unwrap();
            assert(k == pos) by {
                if k < pos {
                    assert(old_likes@[k]@ == user@);
                }
            }
            assert(ids_view(likes@) =~= s.remove_value(user@));
        }
        let comments = self.posts[i].comments.clone();
        assert(comments@ =~= self.posts@[i as int].comments@);
        let reshares = self.posts[i].reshare_count;
        Ok(self.replace_post(i, likes, comments, reshares))
    }

    /// `author` reshares the post `post_id`: a new post whose text is the
    /// original's behind `Reshared: `, counted like any new post. The
    /// original's reshare count grows and its author is notified.
    pub fn reshare_post(&mut self, author: &UserId, post_id: u64, now: u64) -> (r: Result<Post, String>)
        requires
            old(self).wf(),
            old(self).last_ids().0 < u64::MAX,
            old(self).last_ids().2 < u64::MAX,
        ensures
            final(self).wf(),
            !old(self).has_post(post_id) ==> (r matches Err(e) && e@ == "Original post not found"@
                && *final(self) == *old(self)),
            old(self).has_post(post_id) ==> r is Ok,
            r is Ok ==> {
                let i = old(self).post_index(post_id);
                let orig = old(self).posts()[i];
                let text = "Reshared: "@ + orig.content@;
                let kind = PostType::Reshare { original_post_id: post_id, original_author: orig.author };
                &&& old(self).has_post(post_id)
                &&& (r matches Ok(p) && is_new_post(p, (old(self).last_ids().0 + 1) as u64, author@, text, now, kind)
                    && final(self).posts().last().same(p))
                &&& final(self).posts().len() == old(self).posts().len() + 1
                &&& forall|j: int| 0 <= j < old(self).posts().len() && j != i ==> final(self).posts()[j]
                    == old(self).posts()[j]
                &&& post_changed(
                    final(self).posts()[i],
                    orig,
                    ids_view(orig.likes@),
                    orig.comments@,
                    sat(orig.reshare_count as int, 1),
                )
                &&& final(self).trending().view() == usage_after(
                    old(self).trending().view(),
                    hashtags_in(words_of(text)),
                    now,
                )
                &&& final(self).affinity().view() == affinity_after(
                    old(self).affinity().view(),
                    author@,
                    hashtags_in(words_of(text)),
                    1,
                )
                &&& final(self).trending().topic_views() == topics_after(
                    old(self).trending().topic_views(),
                    hashtags_in(words_of(text)),
                    now,
                )
                &&& final(self).affinity().entry_views() == entries_after(
                    old(self).affinity().entry_views(),
                    author@,
                    hashtags_in(words_of(text)),
                    1,
                )
                &&& final(self).notifications().drop_last() == old(self).notifications()
                &&& is_new_notification(
                    final(self).notifications().last(),
                    (old(self).last_ids().2 + 1) as u64,
                    orig.author@,
                    NotificationType::Reshare { post_id, user_id: *author },
                    now,
                )
                &&& final(self).social_unchanged(*old(self))
                &&& final(self).last_ids() == ((old(self).last_ids().0 + 1) as u64, old(self).last_ids().1,
                    (old(self).last_ids().2 + 1) as u64, old(self).last_ids().3)
            },
            final(self).interactions() == old(self).interactions(),
            final(self).people_kept(*old(self)),
            final(self).comments() == old(self).comments(),
            final(self).messages() == old(self).messages(),
            final(self).threads() == old(self).threads(),
            final(self).todos_kept(*old(self)),
    {
        let i = match self.find_post(post_id) {
            Some(i) => i,
            None => return Err(refusal("Original post not found")),
        };
        let original = self.posts[i].copy();
        let mut text = String::from_str("Reshared: ");
        text.append(original.content.as_str());
        let kind = PostType::Reshare { original_post_id: post_id, original_author: original.author.copy() };
        let post = self.create_post_internal(author, text, kind, now);
        assert(self.posts@[i as int] == old(self).posts@[i as int]);
        let likes = copy_ids(&original.likes);
        let comments = original.comments.clone();
        assert(comments@ =~= original.comments@);
        self.replace_post(i, likes, comments, original.reshare_count.saturating_add(1));
        self.notify(&original.author, NotificationType::Reshare { post_id, user_id: author.copy() }, now);
        Ok(post)
    }
}

/// The identifiers among `ids` that name some comment of `store`, in order.
pub open spec fn stored_ids(ids: Seq<u64>, store: Seq<Comment>) -> Seq<u64>
    decreases ids.len(),
{
    if ids.len() == 0 {
        Seq::empty()
    } else if exists|k: int| 0 <= k < store.len() && store[k].id == ids.last() {
        stored_ids(ids.drop_last(), store).push(ids.last())
    } else {
        stored_ids(ids.drop_last(), store)
    }
}

/// `c` holds what some comment of `store` holds.
pub open spec fn is_copy_of_one(c: Comment, store: Seq<Comment>) -> bool {
    exists|k: int| 0 <= k < store.len() && c.same(store[k])
}

impl Backend {
    /// `author` comments on the post `post_id`: the comment is stored and
    /// added to the post, the post's author is notified, and the strength
    /// from the commenter to the post's author grows by the comment weight.
    /// Nothing changes where there is no such post.
    pub fn add_comment(&mut self, author: &UserId, post_id: u64, content: String, now: u64) -> (r: Result<Comment, String>)
        requires
            old(self).wf(),
            old(self).last_ids().1 < u64::MAX,
            old(self).last_ids().2 < u64::MAX,
        ensures
            final(self).wf(),
            !old(self).has_post(post_id) ==> (r matches Err(e) && e@ == "Post not found"@ && *final(self)
                == *old(self)),
            old(self).has_post(post_id) ==> {
                let i = old(self).post_index(post_id);
                let p = old(self).posts()[i];
                let id = (old(self).last_ids().1 + 1) as u64;
                &&& r matches Ok(c) && {
                    &&& c.id == id && c.post_id == post_id && c.author@ == author@
                    &&& c.content@ == content@ && c.created_at == now
                    &&& final(self).comments().last().same(c)
                }
                &&& final(self).comments().drop_last() == old(self).comments()
                &&& final(self).comments().len() == old(self).comments().len() + 1
                &&& final(self).last_ids() == (old(self).last_ids().0, id, (old(self).last_ids().2 + 1) as u64,
                    old(self).last_ids().3)
                &&& final(self).posts().len() == old(self).posts().len()
                &&& forall|j: int| 0 <= j < old(self).posts().len() && j != i ==> final(self).posts()[j]
                    == old(self).posts()[j]
                &&& post_changed(final(self).posts()[i], p, ids_view(p.likes@), p.comments@.push(id), p.reshare_count)
                &&& final(self).notifications().drop_last() == old(self).notifications()
                &&& is_new_notification(
                    final(self).notifications().last(),
                    (old(self).last_ids().2 + 1) as u64,
                    p.author@,
                    NotificationType::Comment { post_id, user_id: *author, comment_id: id },
                    now,
                )
                &&& final(self).interactions().view() == old(self).interactions().view().insert(
                    (author@, p.author@),
                    sat(old(self).interactions().strength(author@, p.author@) as int, COMMENT_WEIGHT as int),
                )
            },
            final(self).people_kept(*old(self)),
            final(self).affinity() == old(self).affinity(),
            final(self).trending() == old(self).trending(),
            final(self).messages() == old(self).messages(),
            final(self).threads() == old(self).threads(),
            final(self).todos_kept(*old(self)),
    {
        let i = match self.find_post(post_id) {
            Some(i) => i,
            None => return Err(refusal("Post not found")),
        };
        self.comment_counter = self.comment_counter + 1;
        let comment_id = self.comment_counter;
        let comment = Comment { id: comment_id, post_id, author: author.copy(), content, created_at: now };
        self.comments.push(comment.copy());
        assert(self.comments@.drop_last() =~= old(self).comments@);
        let likes = copy_ids(&self.posts[i].likes);
        let mut comments = self.posts[i].comments.clone();
        assert(comments@ =~= self.posts@[i as int].comments@);
        comments.push(comment_id);
        let reshares = self.posts[i].reshare_count;
        let post_author = self.posts[i].author.copy();
        self.replace_post(i, likes, comments, reshares);
        self.notify(&post_author, NotificationType::Comment { post_id, user_id: author.copy(), comment_id }, now);
        self.interactions.record_interaction(author, &post_author, COMMENT_WEIGHT);
        Ok(comment)
    }

    fn find_comment(&self, id: u64) -> (r: Option<usize>)
        requires
            self.wf(),
        ensures
            match r {
                Some(i) => i < self.comments@.len() && self.comments@[i as int].id == id,
                None => forall|k: int| 0 <= k < self.comments@.len() ==> self.comments@[k].id != id,
            },
    {
        let mut i: usize = 0;
        while i < self.comments.len()
            invariant
                i <= self.comments@.len(),
                forall|j: int| 0 <= j < i ==> self.comments@[j].id != id,
            decreases self.comments@.len() - i,
        {
            if self.comments[i].id == id {
                return Some(i);
            }
            i = i + 1;
        }
        None
    }

    /// The comments on the post `post_id`, in the order they were made;
    /// none where there is no such post.
    pub fn get_comments(&self, post_id: u64) -> (r: Vec<Comment>)
        requires
            self.wf(),
        ensures
            !self.has_post(post_id) ==> r@.len() == 0,
            self.has_post(post_id) ==> {
                let ids = stored_ids(self.posts()[self.post_index(post_id)].comments@, self.comments());
                &&& r@.len() == ids.len()
                &&& forall|a: int| 0 <= a < r@.len() ==> (#[trigger] r@[a]).id == ids[a] && is_copy_of_one(
                    r@[a],
                    self.comments(),
                )
            },
    {
        let i = match self.find_post(post_id) {
            Some(i) => i,
            None => return Vec::new(),
        };
        let ids = &self.posts[i].comments;
        let mut r: Vec<Comment> = Vec::new();
        let mut a: usize = 0;
        while a < ids.len()
            invariant
                self.wf(),
                a <= ids@.len(),
                i < self.posts@.len(),
                ids@ == self.posts@[i as int].comments@,
                r@.len() == stored_ids(ids@.take(a as int), self.comments@).len(),
                forall|b: int| 0 <= b < r@.len() ==> (#[trigger] r@[b]).id == stored_ids(
                    ids@.take(a as int),
                    self.comments@,
                )[b] && is_copy_of_one(r@[b], self.comments@),
            decreases ids@.len() - a,
        {
            proof {
                assert(ids@.take(a + 1).drop_last() =~= ids@.take(a as int));
                assert(ids@.take(a + 1).last() == ids@[a as int]);
            }
            let ghost prev = stored_ids(ids@.take(a as int), self.comments@);
            let ghost next = stored_ids(ids@.take(a + 1), self.comments@);
            match self.find_comment(ids[a]) {
                Some(k) => {
                    assert(self.comments@[k as int].id == ids@[a as int]);
                    assert(next == prev.push(ids@[a as int]));
                    let c = self.comments[k].copy();
                    assert(is_copy_of_one(c, self.comments@));
                    r.push(c);
                    assert(r@[r@.len() - 1] == c);
                },
                None => {
                    assert(!(exists|k: int| 0 <= k < self.comments@.len() && self.comments@[k].id == ids@[a as int]));
                    assert(next == prev);
                },
            }
            a = a + 1;
        }
        assert(ids@.take(a as int) =~= ids@);
        assert(self.posts@[i as int].comments@ == self.posts()[self.post_index(post_id)].comments@);
        r
    }

    /// The post with identifier `post_id`.
    pub fn get_original_post(&self, post_id: u64) -> (r: Result<Post, String>)
        requires
            self.wf(),
        ensures
            !self.has_post(post_id) ==> (r matches Err(e) && e@ == "Post not found"@),
            self.has_post(post_id) ==> (r matches Ok(p) && p.same(self.posts()[self.post_index(post_id)])),
    {
        match self.find_post(post_id) {
            Some(i) => Ok(self.posts[i].copy()),
            None => Err(refusal("Post not found")),
        }
    }

    /// The posts tagged `tag`, in the order they were made.
    pub fn search_posts_by_hashtag(&self, tag: &String) -> (r: Vec<Post>)
        ensures
            r@.len() == self.posts_tagged(tag@, self.posts().len() as nat).len(),
            forall|a: int| 0 <= a < r@.len() ==> #[trigger] r@[a].same(
                self.posts()[self.posts_tagged(tag@, self.posts().len() as nat)[a] as int],
            ),
    {
        let mut r: Vec<Post> = Vec::new();
        let ghost sel: Seq<usize> = Seq::empty();
        let mut i: usize = 0;
        while i < self.posts.len()
            invariant
                i <= self.posts@.len(),
                sel == self.posts_tagged(tag@, i as nat),
                r@.len() == sel.len(),
                forall|a: int| 0 <= a < sel.len() ==> #[trigger] sel[a] < i,
                forall|a: int| 0 <= a < r@.len() ==> #[trigger] r@[a].same(self.posts@[sel[a] as int]),
            decreases self.posts@.len() - i,
        {
            let tags = &self.posts[i].hashtags;
            let mut found = false;
            let mut k: usize = 0;
            while k < tags.len()
                invariant
                    k <= tags@.len(),
                    found == tags.deep_view().take(k as int).contains(tag@),
                decreases tags@.len() - k,
            {
                proof {
                    let t = tags.deep_view();
                    let s0 = t.take(k as int);
                    let s1 = t.take(k + 1);
                    assert(s1 =~= s0.push(t[k as int]));
                    if s0.contains(tag@) {
                        let x = choose|x: int| 0 <= x < s0.len() && s0[x] == tag@;
                        assert(s1[x] == tag@);
                    }
                    if s1.contains(tag@) && !s0.contains(tag@) {
                        let x = choose|x: int| 0 <= x < s1.len() && s1[x] == tag@;
                        if x < k {
                            assert(s0[x] == tag@);
                        }
                    }
                    if t[k as int] == tag@ {
                        assert(s1[k as int] == tag@);
                    }
                }
                if tags[k] == *tag {
                    found = true;
                }
                k = k + 1;
            }
            assert(tags.deep_view().take(k as int) =~= tags.deep_view());
            if found {
                r.push(self.posts[i].copy());
                proof {
                    sel = sel.push(i);
                }
            }
            i = i + 1;
        }
        r
    }

    /// The positions, among the first `n` posts, of those tagged `tag`.
    pub open spec fn posts_tagged(&self, tag: Seq<char>, n: nat) -> Seq<usize>
        decreases n,
    {
        if n == 0 {
            Seq::empty()
        } else if self.posts()[n - 1].hashtags.deep_view().contains(tag) {
            self.posts_tagged(tag, (n - 1) as nat).push((n - 1) as usize)
        } else {
            self.posts_tagged(tag, (n - 1) as nat)
        }
    }

    /// The users who follow `user`, in the order they first followed anyone.
    pub closed spec fn followers_of(&self, user: Seq<u8>) -> Seq<Seq<u8>> {
        followers_in(self.follows@, user)
    }

    /// The users who follow `user`, in the order they first followed anyone.
    pub fn get_followers(&self, user: &UserId) -> (r: Vec<UserId>)
        requires
            self.wf(),
        ensures
            ids_view(r@) == self.followers_of(user@),
            forall|u: Seq<u8>| ids_view(r@).contains(u) ==> self.is_following(u, user@),
    {
        let mut r: Vec<UserId> = Vec::new();
        let mut i: usize = 0;
        while i < self.follows.len()
            invariant
                self.wf(),
                i <= self.follows@.len(),
                ids_view(r@) == followers_in(self.follows@.take(i as int), user@),
                forall|k: int| 0 <= k < r@.len() ==> #[trigger] self.is_following(r@[k]@, user@),
            decreases self.follows@.len() - i,
        {
            proof {
                assert(self.follows@.take(i + 1).drop_last() =~= self.follows@.take(i as int));
                assert(self.follows@.take(i + 1).last() == self.follows@[i as int]);
            }
            if ids_contain(&self.follows[i].following, user) {
                let ghost before = r@;
                proof {
                    lemma_to_map_index(self.follows@, |f: Following| following_key(f), |f: Following| following_val(f), i as int);
                }
                r.push(self.follows[i].user.copy());
                assert(ids_view(r@) =~= ids_view(before).push(self.follows@[i as int].user@));
                assert(self.is_following(r@[r@.len() - 1]@, user@));
            }
            i = i + 1;
        }
        assert(self.follows@.take(i as int) =~= self.follows@);
        proof {
            assert forall|u: Seq<u8>| ids_view(r@).contains(u) implies self.is_following(u, user@) by {
                let k = choose|k: int| 0 <= k < ids_view(r@).len() && ids_view(r@)[k] == u;
                assert(self.is_following(r@[k]@, user@));
            }
        }
        r
    }
}

impl Backend {
    /// The positions, among the first `n` notifications, of those for `u`.
    pub open spec fn notifications_for(&self, u: Seq<u8>, n: nat) -> Seq<usize>
        decreases n,
    {
        if n == 0 {
            Seq::empty()
        } else if self.notifications()[n - 1].recipient@ == u {
            self.notifications_for(u, (n - 1) as nat).push((n - 1) as usize)
        } else {
            self.notifications_for(u, (n - 1) as nat)
        }
    }

    /// The notifications for `caller`, oldest first.
    pub fn get_notifications(&self, caller: &UserId) -> (r: Vec<Notification>)
        ensures
            r@.len() == self.notifications_for(caller@, self.notifications().len() as nat).len(),
            forall|a: int| 0 <= a < r@.len() ==> #[trigger] r@[a].same(
                self.notifications()[self.notifications_for(caller@, self.notifications().len() as nat)[a] as int],
            ),
    {
        let mut r: Vec<Notification> = Vec::new();
        let ghost sel: Seq<usize> = Seq::empty();
        let mut i: usize = 0;
        while i < self.notifications.len()
            invariant
                i <= self.notifications@.len(),
                sel == self.notifications_for(caller@, i as nat),
                r@.len() == sel.len(),
                forall|a: int| 0 <= a < sel.len() ==> #[trigger] sel[a] < i,
                forall|a: int| 0 <= a < r@.len() ==> #[trigger] r@[a].same(self.notifications@[sel[a] as int]),
            decreases self.notifications@.len() - i,
        {
            if self.notifications[i].recipient.same(caller) {
                r.push(self.notifications[i].copy());
                proof {
                    sel = sel.push(i);
                }
            }
            i = i + 1;
        }
        r
    }

    /// Some notification carries the identifier `id`.
    pub open spec fn has_notification(&self, id: u64) -> bool {
        exists|i: int| 0 <= i < self.notifications().len() && self.notifications()[i].id == id
    }

    /// The position of the notification with identifier `id`.
    pub open spec fn notification_index(&self, id: u64) -> int {
        choose|i: int| 0 <= i < self.notifications().len() && self.notifications()[i].id == id
    }

    fn set_read(&mut self, i: usize)
        requires
            old(self).wf(),
            i < old(self).notifications().len(),
        ensures
            final(self).wf(),
            final(self).notifications().len() == old(self).notifications().len(),
            forall|j: int| 0 <= j < old(self).notifications().len() && j != i ==> final(self).notifications()[j]
                == old(self).notifications()[j],
            ({
                let (n, o) = (final(self).notifications()[i as int], old(self).notifications()[i as int]);
                n.id == o.id && n.recipient@ == o.recipient@ && n.notification_type.same(o.notification_type)
                    && n.created_at == o.created_at && n.read
            }),
            final(self).posts() == old(self).posts(),
            final(self).social_unchanged(*old(self)),
            final(self).last_ids() == old(self).last_ids(),
            final(self).threads() == old(self).threads(),
            final(self).signals_kept(*old(self)),
    {
        let mut n = self.notifications[i].copy();
        n.read = true;
        self.notifications.set(i, n);
    }

    /// `caller` marks the notification `id` as read; only its recipient may.
    pub fn mark_notification_as_read(&mut self, caller: &UserId, id: u64) -> (r: Result<(), String>)
        requires
            old(self).wf(),
        ensures
            final(self).wf(),
            !old(self).has_notification(id) ==> (r matches Err(e) && e@ == "Notification not found"@
                && *final(self) == *old(self)),
            old(self).has_notification(id) && old(self).notifications()[old(self).notification_index(id)].recipient@
                != caller@ ==> (r matches Err(e) && e@ == "Not authorized"@ && *final(self) == *old(self)),
            old(self).has_notification(id) && old(self).notifications()[old(self).notification_index(id)].recipient@
                == caller@ ==> r is Ok,
            r is Ok ==> {
                let i = old(self).notification_index(id);
                &&& old(self).has_notification(id)
                &&& old(self).notifications()[i].recipient@ == caller@
                &&& final(self).notifications().len() == old(self).notifications().len()
                &&& forall|j: int| 0 <= j < old(self).notifications().len() && j != i ==> final(self).notifications()[j]
                    == old(self).notifications()[j]
                &&& final(self).notifications()[i].read
                &&& final(self).notifications()[i].id == id
            },
            final(self).content_kept(*old(self)),
            final(self).people_kept(*old(self)),
            final(self).signals_kept(*old(self)),
            final(self).messages() == old(self).messages(),
            final(self).threads() == old(self).threads(),
            final(self).todos_kept(*old(self)),
            final(self).last_ids() == old(self).last_ids(),
    {
        let mut i: usize = 0;
        while i < self.notifications.len()
            invariant
                self.wf(),
                *self == *old(self),
                i <= self.notifications@.len(),
                forall|j: int| 0 <= j < i ==> self.notifications@[j].id != id,
            decreases self.notifications@.len() - i,
        {
            if self.notifications[i].id == id {
                proof {
                    let k = self.notification_index(id);
                    if k != i {
                        if k < i {
                            assert(self.notifications@[k].id < self.notifications@[i as int].id);
                        } else {
                            assert(self.notifications@[i as int].id < self.notifications@[k].id);
                        }
                    }
                }
                if !self.notifications[i].recipient.same(caller) {
                    return Err(refusal("Not authorized"));
                }
                self.set_read(i);
                return Ok(());
            }
            i = i + 1;
        }
        Err(refusal("Notification not found"))
    }

    /// `caller` marks every notification addressed to them as read.
    pub fn mark_all_notifications_as_read(&mut self, caller: &UserId) -> (r: Result<(), String>)
        requires
            old(self).wf(),
        ensures
            final(self).wf(),
            r is Ok,
            final(self).notifications().len() == old(self).notifications().len(),
            forall|j: int| 0 <= j < old(self).notifications().len() ==> {
                let (n, o) = (#[trigger] final(self).notifications()[j], old(self).notifications()[j]);
                &&& n.id == o.id && n.recipient@ == o.recipient@ && n.notification_type.same(o.notification_type)
                &&& n.created_at == o.created_at
                &&& n.read == (o.read || o.recipient@ == caller@)
            },
            final(self).posts() == old(self).posts(),
            final(self).social_unchanged(*old(self)),
            final(self).content_kept(*old(self)),
            final(self).people_kept(*old(self)),
            final(self).signals_kept(*old(self)),
            final(self).messages() == old(self).messages(),
            final(self).threads() == old(self).threads(),
            final(self).todos_kept(*old(self)),
            final(self).last_ids() == old(self).last_ids(),
    {
        let mut i: usize = 0;
        while i < self.notifications.len()
            invariant
                self.wf(),
                i <= self.notifications@.len(),
                self.notifications@.len() == old(self).notifications@.len(),
                forall|j: int| 0 <= j < i ==> {
                    let (n, o) = (#[trigger] self.notifications@[j], old(self).notifications@[j]);
                    &&& n.id == o.id && n.recipient@ == o.recipient@ && n.notification_type.same(o.notification_type)
                    &&& n.created_at == o.created_at
                    &&& n.read == (o.read || o.recipient@ == caller@)
                },
                forall|j: int| i <= j < self.notifications@.len() ==> #[trigger] self.notifications@[j]
                    == old(self).notifications@[j],
                self.posts@ == old(self).posts@,
                self.social_unchanged(*old(self)),
                self.signals_kept(*old(self)),
                self.threads() == old(self).threads(),
                self.last_ids() == old(self).last_ids(),
            decreases self.notifications@.len() - i,
        {
            if self.notifications[i].recipient.same(caller) {
                self.set_read(i);
            }
            i = i + 1;
        }
        Ok(())
    }

    /// A profile exists for `u`.
    pub open spec fn has_profile(&self, u: Seq<u8>) -> bool {
        exists|i: int| 0 <= i < self.profiles().len() && self.profiles()[i].id@ == u
    }

    /// The position of the profile of `u`.
    pub open spec fn profile_index(&self, u: Seq<u8>) -> int {
        choose|i: int| 0 <= i < self.profiles().len() && self.profiles()[i].id@ == u
    }

    fn find_profile(&self, u: &UserId) -> (r: Option<usize>)
        requires
            self.wf(),
        ensures
            match r {
                Some(i) => self.has_profile(u@) && i == self.profile_index(u@) && i < self.profiles().len(),
                None => !self.has_profile(u@),
            },
    {
        let mut i: usize = 0;
        while i < self.profiles.len()
            invariant
                self.wf(),
                i <= self.profiles@.len(),
                forall|j: int| 0 <= j < i ==> self.profiles@[j].id@ != u@,
            decreases self.profiles@.len() - i,
        {
            if self.profiles[i].id.same(u) {
                proof {
                    let k = self.profile_index(u@);
                    if k != i {
                        assert(self.profiles@[k].id@ != self.profiles@[i as int].id@);
                    }
                }
                return Some(i);
            }
            i = i + 1;
        }
        None
    }

    /// `caller` opens a profile; each user has at most one.
    pub fn create_profile(
        &mut self,
        caller: &UserId,
        username: String,
        bio: Vec<String>,
        avatar_url: Vec<String>,
        now: u64,
    ) -> (r: Result<UserProfile, String>)
        requires
            old(self).wf(),
        ensures
            final(self).wf(),
            old(self).has_profile(caller@) ==> (r matches Err(e) && e@ == "Profile already exists"@ && *final(self)
                == *old(self)),
            !old(self).has_profile(caller@) ==> {
                &&& r matches Ok(p)
                &&& final(self).profiles().drop_last() == old(self).profiles()
                &&& final(self).profiles().len() == old(self).profiles().len() + 1
                &&& final(self).profiles().last().same(p)
                &&& p.id@ == caller@ && p.username@ == username@ && p.bio.deep_view() == bio.deep_view()
                &&& p.avatar_url.deep_view() == avatar_url.deep_view()
                &&& p.followers_count == 0 && p.following_count == 0 && p.created_at == now
            },
            final(self).posts() == old(self).posts(),
            final(self).follows() == old(self).follows(),
            final(self).content_kept(*old(self)),
            final(self).signals_kept(*old(self)),
            final(self).mail_kept(*old(self)),
            final(self).todos_kept(*old(self)),
            final(self).last_ids() == old(self).last_ids(),
    {
        if let Some(_) = self.find_profile(caller) {
            return Err(refusal("Profile already exists"));
        }
        let profile = UserProfile {
            id: caller.copy(),
            username,
            bio,
            avatar_url,
            followers_count: 0,
            following_count: 0,
            created_at: now,
        };
        self.profiles.push(profile.copy());
        assert(self.profiles@.drop_last() =~= old(self).profiles@);
        assert(self.profiles@[old(self).profiles@.len() as int].id@ == caller@);
        let ghost n = old(self).profiles@.len() as int;
        assert forall|i: int, j: int|
            0 <= i < self.profiles@.len() && 0 <= j < self.profiles@.len() && i != j implies #[trigger] self.profiles@[i].id@
            != #[trigger] self.profiles@[j].id@ by {
            if i < n {
                assert(self.profiles@[i] == old(self).profiles@[i]);
            }
            if j < n {
                assert(self.profiles@[j] == old(self).profiles@[j]);
            }
            if i == n {
                assert(!(old(self).profiles()[j].id@ == caller@));
            }
            if j == n {
                assert(!(old(self).profiles()[i].id@ == caller@));
            }
        }
        Ok(profile)
    }

    /// `caller` replaces the bio and the avatar of their profile, each where given.
    pub fn update_profile(
        &mut self,
        caller: &UserId,
        bio: Option<Vec<String>>,
        avatar_url: Option<Vec<String>>,
    ) -> (r: Result<UserProfile, String>)
        requires
            old(self).wf(),
        ensures
            final(self).wf(),
            !old(self).has_profile(caller@) ==> (r matches Err(e) && e@ == "Profile not found"@ && *final(self)
                == *old(self)),
            old(self).has_profile(caller@) ==> {
                let i = old(self).profile_index(caller@);
                let o = old(self).profiles()[i];
                let n = final(self).profiles()[i];
                &&& r matches Ok(p) && p.same(n)
                &&& final(self).profiles().len() == old(self).profiles().len()
                &&& forall|j: int| 0 <= j < old(self).profiles().len() && j != i ==> final(self).profiles()[j]
                    == old(self).profiles()[j]
                &&& n.id@ == o.id@ && n.username@ == o.username@ && n.created_at == o.created_at
                &&& n.followers_count == o.followers_count && n.following_count == o.following_count
                &&& n.bio.deep_view() == match bio {
                    Some(b) => b.deep_view(),
                    None => o.bio.deep_view(),
                }
                &&& n.avatar_url.deep_view() == match avatar_url {
                    Some(a) => a.deep_view(),
                    None => o.avatar_url.deep_view(),
                }
            },
            final(self).posts() == old(self).posts(),
            final(self).follows() == old(self).follows(),
            final(self).content_kept(*old(self)),
            final(self).signals_kept(*old(self)),
            final(self).mail_kept(*old(self)),
            final(self).todos_kept(*old(self)),
            final(self).last_ids() == old(self).last_ids(),
    {
        let i = match self.find_profile(caller) {
            Some(i) => i,
            None => return Err(refusal("Profile not found")),
        };
        let mut p = self.profiles[i].copy();
        if let Some(b) = bio {
            p.bio = b;
        }
        if let Some(a) = avatar_url {
            p.avatar_url = a;
        }
        let r = p.copy();
        self.profiles.set(i, p);
        assert forall|a: int, b: int|
            0 <= a < self.profiles@.len() && 0 <= b < self.profiles@.len() && a != b implies #[trigger] self.profiles@[a].id@
            != #[trigger] self.profiles@[b].id@ by {
            assert(self.profiles@[a].id@ == old(self).profiles@[a].id@);
            assert(self.profiles@[b].id@ == old(self).profiles@[b].id@);
        }
        Ok(r)
    }

    /// The profile of `user`.
    pub fn get_user_profile(&self, user: &UserId) -> (r: Result<UserProfile, String>)
        requires
            self.wf(),
        ensures
            !self.has_profile(user@) ==> (r matches Err(e) && e@ == "Profile not found"@),
            self.has_profile(user@) ==> (r matches Ok(p) && p.same(self.profiles()[self.profile_index(user@)])),
    {
        match self.find_profile(user) {
            Some(i) => Ok(self.profiles[i].copy()),
            None => Err(refusal("Profile not found")),
        }
    }

    /// The profile of `caller`.
    pub fn get_profile(&self, caller: &UserId) -> (r: Result<UserProfile, String>)
        requires
            self.wf(),
        ensures
            !self.has_profile(caller@) ==> (r matches Err(e) && e@ == "Profile not found"@),
            self.has_profile(caller@) ==> (r matches Ok(p) && p.same(self.profiles()[self.profile_index(caller@)])),
    {
        self.get_user_profile(caller)
    }
}

/// The identifier of the conversation between `a` and `b`: the textual
/// forms of both, the one that comes first in the order of principals
/// first, joined by `_`.
pub open spec fn thread_key(a: Seq<u8>, b: Seq<u8>) -> Seq<char> {
    if id_precedes(a, b) {
        principal_text(a) + "_"@ + principal_text(b)
    } else {
        principal_text(b) + "_"@ + principal_text(a)
    }
}

/// The identifier of a conversation, from the textual forms of its two
/// participants in order.
pub fn join_thread_key(first: &str, second: &str) -> (r: String)
    ensures
        r@ == first@ + "_"@ + second@,
{
    let mut key = String::from_str(first);
    key.append("_");
    key.append(second);
    key
}

fn make_thread_key(a: &UserId, b: &UserId) -> (r: String)
    requires
        a.wf(),
        b.wf(),
    ensures
        r@ == thread_key(a@, b@),
{
    let (first, second) = if a.precedes(b) { (a, b) } else { (b, a) };
    let head = first.to_text();
    let tail = second.to_text();
    join_thread_key(head.as_str(), tail.as_str())
}

impl Backend {
    pub closed spec fn threads(&self) -> Seq<ChatThread> {
        self.threads@
    }

    /// `from` sends `content` to `to` at `now`: the message is stored, the
    /// conversation between the two is created where needed and brought up
    /// to date, and `to` is notified.
    pub fn send_message(&mut self, from: &UserId, to: &UserId, content: String, now: u64) -> (r: Result<Message, String>)
        requires
            old(self).wf(),
            old(self).last_ids().2 < u64::MAX,
            old(self).last_ids().3 < u64::MAX,
            from.wf(),
            to.wf(),
        ensures
            final(self).wf(),
            from@ == to@ ==> (r matches Err(e) && e@ == "Cannot send message to yourself"@ && *final(self)
                == *old(self)),
            from@ != to@ ==> r is Ok,
            r matches Ok(m) ==> {
                let key = thread_key(from@, to@);
                &&& m.id == old(self).last_ids().3 + 1 && m.from@ == from@ && m.to@ == to@
                &&& m.content@ == content@ && m.created_at == now && !m.read
                &&& final(self).messages().drop_last() == old(self).messages()
                &&& final(self).messages().last().same(m)
                &&& exists|k: int| {
                    &&& 0 <= k < final(self).threads().len()
                    &&& final(self).threads()[k].id@ == key
                    &&& final(self).threads()[k].updated_at == now
                    &&& final(self).threads()[k].last_message matches Some(x) && x.same(m)
                    &&& forall|j: int| 0 <= j < k ==> old(self).threads()[j].id@ != key
                    &&& if k < old(self).threads().len() {
                        &&& final(self).threads().len() == old(self).threads().len()
                        &&& ids_view(final(self).threads()[k].participants@) == ids_view(
                            old(self).threads()[k].participants@,
                        )
                        &&& old(self).threads()[k].id@ == key
                    } else {
                        &&& final(self).threads().len() == old(self).threads().len() + 1
                        &&& ids_view(final(self).threads()[k].participants@) == seq![from@, to@]
                    }
                }
                &&& forall|j: int| 0 <= j < old(self).threads().len() && old(self).threads()[j].id@ != key
                    ==> final(self).threads()[j] == old(self).threads()[j]
                &&& final(self).notifications().drop_last() == old(self).notifications()
                &&& is_new_notification(
                    final(self).notifications().last(),
                    (old(self).last_ids().2 + 1) as u64,
                    to@,
                    NotificationType::Message { user_id: *from, message_id: m.id },
                    now,
                )
                &&& final(self).posts() == old(self).posts()
                &&& final(self).profiles() == old(self).profiles()
                &&& final(self).follows() == old(self).follows()
                &&& final(self).interactions() == old(self).interactions()
                &&& final(self).last_ids() == (old(self).last_ids().0, old(self).last_ids().1,
                    (old(self).last_ids().2 + 1) as u64, (old(self).last_ids().3 + 1) as u64)
            },
            final(self).content_kept(*old(self)),
            final(self).people_kept(*old(self)),
            final(self).signals_kept(*old(self)),
            final(self).todos_kept(*old(self)),
    {
        if from.same(to) {
            return Err(refusal("Cannot send message to yourself"));
        }
        self.message_counter = self.message_counter + 1;
        let message_id = self.message_counter;
        let message = Message {
            id: message_id,
            from: from.copy(),
            to: to.copy(),
            content,
            created_at: now,
            read: false,
        };
        self.messages.push(message.copy());
        assert(self.messages@.drop_last() =~= old(self).messages@);
        let key = make_thread_key(from, to);
        let ghost snapshot = *self;
        let mut k: usize = 0;
        while k < self.threads.len() && self.threads[k].id != key
            invariant
                *self == snapshot,
                k <= self.threads@.len(),
                forall|j: int| 0 <= j < k ==> self.threads@[j].id@ != key@,
            decreases self.threads@.len() - k,
        {
            k = k + 1;
        }
        let participants = if k < self.threads.len() {
            copy_ids(&self.threads[k].participants)
        } else {
            let mut v: Vec<UserId> = Vec::new();
            v.push(from.copy());
            v.push(to.copy());
            assert(ids_view(v@) =~= seq![from@, to@]);
            v
        };
        let thread = ChatThread {
            id: key,
            participants,
            last_message: Some(message.copy()),
            updated_at: now,
        };
        if k < self.threads.len() {
            self.threads.set(k, thread);
        } else {
            self.threads.push(thread);
        }
        assert(self.threads@[k as int].last_message matches Some(x) && x.same(message));
        self.notify(to, NotificationType::Message { user_id: from.copy(), message_id }, now);
        assert(self.threads@[k as int].id@ == thread_key(from@, to@));
        assert(self.threads()[k as int].last_message matches Some(x) && x.same(message));
        assert(is_new_notification(
            self.notifications().last(),
            (old(self).last_ids().2 + 1) as u64,
            to@,
            NotificationType::Message { user_id: *from, message_id: message.id },
            now,
        ));
        Ok(message)
    }

    /// The positions, among the first `n` messages, of those between `a` and `b`.
    pub open spec fn messages_between(&self, a: Seq<u8>, b: Seq<u8>, n: nat) -> Seq<usize>
        decreases n,
    {
        if n == 0 {
            Seq::empty()
        } else if {
            let m = self.messages()[n - 1];
            (m.from@ == a && m.to@ == b) || (m.from@ == b && m.to@ == a)
        } {
            self.messages_between(a, b, (n - 1) as nat).push((n - 1) as usize)
        } else {
            self.messages_between(a, b, (n - 1) as nat)
        }
    }

    /// The messages between `caller` and `other`, in either direction,
    /// oldest first.
    pub fn get_messages(&self, caller: &UserId, other: &UserId) -> (r: Vec<Message>)
        ensures
            r@.len() == self.messages_between(caller@, other@, self.messages().len() as nat).len(),
            forall|a: int| 0 <= a < r@.len() ==> #[trigger] r@[a].same(
                self.messages()[self.messages_between(caller@, other@, self.messages().len() as nat)[a] as int],
            ),
    {
        let mut r: Vec<Message> = Vec::new();
        let ghost sel: Seq<usize> = Seq::empty();
        let mut i: usize = 0;
        while i < self.messages.len()
            invariant
                i <= self.messages@.len(),
                sel == self.messages_between(caller@, other@, i as nat),
                r@.len() == sel.len(),
                forall|a: int| 0 <= a < sel.len() ==> #[trigger] sel[a] < i,
                forall|a: int| 0 <= a < r@.len() ==> #[trigger] r@[a].same(self.messages@[sel[a] as int]),
            decreases self.messages@.len() - i,
        {
            let m = &self.messages[i];
            if (m.from.same(caller) && m.to.same(other)) || (m.from.same(other) && m.to.same(caller)) {
                r.push(m.copy());
                proof {
                    sel = sel.push(i);
                }
            }
            i = i + 1;
        }
        r
    }

    /// The positions, among the first `n` conversations, of those `u` takes part in.
    pub open spec fn threads_of(&self, u: Seq<u8>, n: nat) -> Seq<usize>
        decreases n,
    {
        if n == 0 {
            Seq::empty()
        } else if ids_view(self.threads()[n - 1].participants@).contains(u) {
            self.threads_of(u, (n - 1) as nat).push((n - 1) as usize)
        } else {
            self.threads_of(u, (n - 1) as nat)
        }
    }

    /// The conversations `caller` takes part in, in the order they began.
    pub fn get_chat_threads(&self, caller: &UserId) -> (r: Vec<ChatThread>)
        ensures
            r@.len() == self.threads_of(caller@, self.threads().len() as nat).len(),
            forall|a: int| 0 <= a < r@.len() ==> #[trigger] r@[a].same(
                self.threads()[self.threads_of(caller@, self.threads().len() as nat)[a] as int],
            ),
    {
        let mut r: Vec<ChatThread> = Vec::new();
        let ghost sel: Seq<usize> = Seq::empty();
        let mut i: usize = 0;
        while i < self.threads.len()
            invariant
                i <= self.threads@.len(),
                sel == self.threads_of(caller@, i as nat),
                r@.len() == sel.len(),
                forall|a: int| 0 <= a < sel.len() ==> #[trigger] sel[a] < i,
                forall|a: int| 0 <= a < r@.len() ==> #[trigger] r@[a].same(self.threads@[sel[a] as int]),
            decreases self.threads@.len() - i,
        {
            if ids_contain(&self.threads[i].participants, caller) {
                r.push(self.threads[i].copy());
                proof {
                    sel = sel.push(i);
                }
            }
            i = i + 1;
        }
        r
    }

    /// `caller` reads every unread message `sender` sent them; the result
    /// is how many there were.
    pub fn mark_messages_as_read(&mut self, caller: &UserId, sender: &UserId) -> (r: u64)
        requires
            old(self).wf(),
        ensures
            final(self).wf(),
            final(self).messages().len() == old(self).messages().len(),
            forall|j: int| 0 <= j < old(self).messages().len() ==> {
                let (n, o) = (#[trigger] final(self).messages()[j], old(self).messages()[j]);
                &&& n.id == o.id && n.from@ == o.from@ && n.to@ == o.to@ && n.content@ == o.content@
                &&& n.created_at == o.created_at
                &&& n.read == (o.read || (o.from@ == sender@ && o.to@ == caller@))
            },
            r == unread_from(old(self).messages(), sender@, caller@),
            final(self).posts() == old(self).posts(),
            final(self).notifications() == old(self).notifications(),
            final(self).content_kept(*old(self)),
            final(self).people_kept(*old(self)),
            final(self).signals_kept(*old(self)),
            final(self).threads() == old(self).threads(),
            final(self).notifications() == old(self).notifications(),
            final(self).todos_kept(*old(self)),
            final(self).last_ids() == old(self).last_ids(),
    {
        let mut count: u64 = 0;
        let mut i: usize = 0;
        while i < self.messages.len()
            invariant
                self.wf(),
                i <= self.messages@.len(),
                self.messages@.len() == old(self).messages@.len(),
                forall|j: int| 0 <= j < i ==> {
                    let (n, o) = (#[trigger] self.messages@[j], old(self).messages@[j]);
                    &&& n.id == o.id && n.from@ == o.from@ && n.to@ == o.to@ && n.content@ == o.content@
                    &&& n.created_at == o.created_at
                    &&& n.read == (o.read || (o.from@ == sender@ && o.to@ == caller@))
                },
                forall|j: int| i <= j < self.messages@.len() ==> #[trigger] self.messages@[j] == old(self).messages@[j],
                count == unread_from(old(self).messages@.take(i as int), sender@, caller@),
                count <= i,
                self.posts@ == old(self).posts@,
                self.notifications@ == old(self).notifications@,
                self.content_kept(*old(self)),
                self.people_kept(*old(self)),
                self.signals_kept(*old(self)),
                self.threads() == old(self).threads(),
                self.todos_kept(*old(self)),
                self.last_ids() == old(self).last_ids(),
            decreases self.messages@.len() - i,
        {
            proof {
                let s = old(self).messages@;
                assert(s.take(i + 1).drop_last() =~= s.take(i as int));
                assert(s.take(i + 1).last() == s[i as int]);
            }
            let m = &self.messages[i];
            if m.from.same(sender) && m.to.same(caller) && !m.read {
                let mut n = m.copy();
                n.read = true;
                self.messages.set(i, n);
                count = count + 1;
            }
            i = i + 1;
        }
        assert(old(self).messages@.take(i as int) =~= old(self).messages@);
        count
    }
}

/// How many messages of `s` are unread ones from `sender` to `reader`.
pub open spec fn unread_from(s: Seq<Message>, sender: Seq<u8>, reader: Seq<u8>) -> nat
    decreases s.len(),
{
    if s.len() == 0 {
        0
    } else {
        let m = s.last();
        unread_from(s.drop_last(), sender, reader) + if m.from@ == sender && m.to@ == reader && !m.read {
            1nat
        } else {
            0nat
        }
    }
}

/// The users of `follows` whose lists hold `user`, in order.
pub open spec fn followers_in(follows: Seq<Following>, user: Seq<u8>) -> Seq<Seq<u8>>
    decreases follows.len(),
{
    if follows.len() == 0 {
        Seq::empty()
    } else if following_val(follows.last()).contains(user) {
        followers_in(follows.drop_last(), user).push(follows.last().user@)
    } else {
        followers_in(follows.drop_last(), user)
    }
}

/// `s` without the entries whose identifier is `id`.
pub open spec fn todos_without(s: Seq<Todo>, id: u64) -> Seq<Todo>
    decreases s.len(),
{
    if s.len() == 0 {
        s
    } else if s.last().id == id {
        todos_without(s.drop_last(), id)
    } else {
        todos_without(s.drop_last(), id).push(s.last())
    }
}

impl Backend {
    /// Adds a to-do with the next number of the counter.
    pub fn add_todo(&mut self, text: String) -> (r: Todo)
        requires
            old(self).wf(),
            old(self).counter() < u64::MAX,
        ensures
            final(self).wf(),
            r.id == old(self).counter() + 1 && r.content@ == text@ && !r.completed,
            final(self).counter() == old(self).counter() + 1,
            final(self).todos().drop_last() == old(self).todos(),
            final(self).todos().len() == old(self).todos().len() + 1,
            final(self).todos().last().same(r),
            final(self).posts() == old(self).posts(),
            final(self).content_kept(*old(self)),
            final(self).people_kept(*old(self)),
            final(self).signals_kept(*old(self)),
            final(self).mail_kept(*old(self)),
            final(self).last_ids() == old(self).last_ids(),
    {
        self.counter = self.counter + 1;
        let todo = Todo { id: self.counter, content: text, completed: false };
        self.todos.push(todo.copy());
        assert(self.todos@.drop_last() =~= old(self).todos@);
        todo
    }

    /// The to-do list.
    pub fn get_todos(&self) -> (r: Vec<Todo>)
        ensures
            r@.len() == self.todos().len(),
            forall|a: int| 0 <= a < r@.len() ==> #[trigger] r@[a].same(self.todos()[a]),
    {
        let mut r: Vec<Todo> = Vec::new();
        let mut i: usize = 0;
        while i < self.todos.len()
            invariant
                i <= self.todos@.len(),
                r@.len() == i,
                forall|a: int| 0 <= a < i ==> #[trigger] r@[a].same(self.todos@[a]),
            decreases self.todos@.len() - i,
        {
            r.push(self.todos[i].copy());
            i = i + 1;
        }
        r
    }

    /// Flips whether the first to-do numbered `id` is done.
    pub fn toggle_todo(&mut self, id: u64) -> (r: Option<Todo>)
        requires
            old(self).wf(),
        ensures
            final(self).wf(),
            r is None <==> forall|j: int| 0 <= j < old(self).todos().len() ==> old(self).todos()[j].id != id,
            r is None ==> *final(self) == *old(self),
            r matches Some(t) ==> exists|i: int| {
                &&& 0 <= i < old(self).todos().len()
                &&& old(self).todos()[i].id == id
                &&& forall|j: int| 0 <= j < i ==> old(self).todos()[j].id != id
                &&& final(self).todos() == old(self).todos().update(i, final(self).todos()[i])
                &&& final(self).todos()[i].id == id
                &&& final(self).todos()[i].content@ == old(self).todos()[i].content@
                &&& final(self).todos()[i].completed == !old(self).todos()[i].completed
                &&& t.same(final(self).todos()[i])
            },
            final(self).posts() == old(self).posts(),
            final(self).counter() == old(self).counter(),
            final(self).content_kept(*old(self)),
            final(self).people_kept(*old(self)),
            final(self).signals_kept(*old(self)),
            final(self).mail_kept(*old(self)),
            final(self).last_ids() == old(self).last_ids(),
    {
        let mut i: usize = 0;
        while i < self.todos.len()
            invariant
                *self == *old(self),
                self.wf(),
                i <= self.todos@.len(),
                forall|j: int| 0 <= j < i ==> self.todos@[j].id != id,
            decreases self.todos@.len() - i,
        {
            if self.todos[i].id == id {
                let mut t = self.todos[i].copy();
                t.completed = !t.completed;
                let r = t.copy();
                self.todos.set(i, t);
                assert(self.todos@ =~= old(self).todos@.update(i as int, self.todos@[i as int]));
                assert(old(self).todos()[i as int].id == id);
                return Some(r);
            }
            i = i + 1;
        }
        None
    }

    /// Removes every to-do numbered `id`; the result tells whether any was.
    pub fn delete_todo(&mut self, id: u64) -> (r: bool)
        requires
            old(self).wf(),
        ensures
            final(self).wf(),
            final(self).todos() == todos_without(old(self).todos(), id),
            r == (final(self).todos().len() < old(self).todos().len()),
            final(self).posts() == old(self).posts(),
            final(self).counter() == old(self).counter(),
            final(self).content_kept(*old(self)),
            final(self).people_kept(*old(self)),
            final(self).signals_kept(*old(self)),
            final(self).mail_kept(*old(self)),
            final(self).last_ids() == old(self).last_ids(),
    {
        let ghost start = self.todos@;
        let initial_len = self.todos.len();
        let ghost mut j: int = 0;
        let mut i: usize = 0;
        while i < self.todos.len()
            invariant
                self.wf(),
                self.posts@ == old(self).posts@,
                self.counter() == old(self).counter(),
                self.content_kept(*old(self)),
                self.people_kept(*old(self)),
                self.signals_kept(*old(self)),
                self.mail_kept(*old(self)),
                self.last_ids() == old(self).last_ids(),
                start == old(self).todos@,
                0 <= i <= j <= start.len(),
                self.todos@.len() == i + (start.len() - j),
                self.todos@.take(i as int) == todos_without(start.take(j), id),
                self.todos@.skip(i as int) == start.skip(j),
            decreases self.todos@.len() - i,
        {
            proof {
                assert(start.take(j + 1).drop_last() =~= start.take(j));
                assert(start.take(j + 1).last() == start[j]);
                assert(self.todos@[i as int] == start[j]) by {
                    assert(self.todos@.skip(i as int)[0] == start.skip(j)[0]);
                }
            }
            if self.todos[i].id == id {
                let ghost before = self.todos@;
                self.todos.remove(i);
                proof {
                    assert(self.todos@.take(i as int) =~= before.take(i as int));
                    assert(self.todos@.skip(i as int) =~= before.skip(i + 1));
                    assert(before.skip(i + 1) =~= before.skip(i as int).skip(1));
                    assert(start.skip(j + 1) =~= start.skip(j).skip(1));
                }
            } else {
                let ghost before = self.todos@;
                i = i + 1;
                proof {
                    assert(before.take(i as int) =~= before.take(i - 1).push(before[i - 1]));
                    assert(before.skip(i as int) =~= before.skip(i - 1).skip(1));
                    assert(start.skip(j + 1) =~= start.skip(j).skip(1));
                }
            }
            proof {
                j = j + 1;
            }
        }
        proof {
            assert(self.todos@ =~= self.todos@.take(i as int));
            assert(start.take(j) =~= start);
            lemma_without_len(start, id);
        }
        self.todos.len() < initial_len
    }
}

proof fn lemma_without_len(s: Seq<Todo>, id: u64)
    ensures
        todos_without(s, id).len() <= s.len(),
        todos_without(s, id).len() == s.len() <==> forall|j: int| 0 <= j < s.len() ==> s[j].id != id,
    decreases s.len(),
{
    if s.len() > 0 {
        lemma_without_len(s.drop_last(), id);
        assert forall|j: int| 0 <= j < s.len() - 1 implies s.drop_last()[j] == s[j] by {}
    }
}

impl Backend {
    /// The last number the counter gave.
    pub fn get_counter(&self) -> (r: u64)
        ensures
            r == self.counter(),
    {
        self.counter
    }

    /// Moves the counter one on and returns its new value.
    pub fn increment_counter(&mut self) -> (r: u64)
        requires
            old(self).wf(),
            old(self).counter() < u64::MAX,
        ensures
            final(self).wf(),
            r == old(self).counter() + 1,
            final(self).counter() == r,
            final(self).todos() == old(self).todos(),
            final(self).content_kept(*old(self)),
            final(self).people_kept(*old(self)),
            final(self).signals_kept(*old(self)),
            final(self).mail_kept(*old(self)),
            final(self).last_ids() == old(self).last_ids(),
    {
        self.counter = self.counter + 1;
        self.counter
    }

    /// Sets the counter to `value` and returns it.
    pub fn set_counter(&mut self, value: u64) -> (r: u64)
        requires
            old(self).wf(),
        ensures
            final(self).wf(),
            r == value,
            final(self).counter() == value,
            final(self).todos() == old(self).todos(),
            final(self).content_kept(*old(self)),
            final(self).people_kept(*old(self)),
            final(self).signals_kept(*old(self)),
            final(self).mail_kept(*old(self)),
            final(self).last_ids() == old(self).last_ids(),
    {
        self.counter = value;
        value
    }

    /// The positions, among the first `n` profiles, of those that match
    /// `query` in lower case.
    pub open spec fn profiles_matching(&self, query: Seq<char>, n: nat) -> Seq<usize>
        decreases n,
    {
        if n == 0 {
            Seq::empty()
        } else if {
            let p = self.profiles()[n - 1];
            profile_matches(lower_of(query), lower_of(p.username@), lower_lines(p.bio.deep_view()))
        } {
            self.profiles_matching(query, (n - 1) as nat).push((n - 1) as usize)
        } else {
            self.profiles_matching(query, (n - 1) as nat)
        }
    }

    /// The profiles whose user name or some bio line holds `query`, compared
    /// in lower case, in the order the profiles were made.
    pub fn search_users(&self, query: &String) -> (r: Vec<UserProfile>)
        ensures
            r@.len() == self.profiles_matching(query@, self.profiles().len() as nat).len(),
            forall|a: int| 0 <= a < r@.len() ==> #[trigger] r@[a].same(
                self.profiles()[self.profiles_matching(query@, self.profiles().len() as nat)[a] as int],
            ),
    {
        let mut r: Vec<UserProfile> = Vec::new();
        let ghost sel: Seq<usize> = Seq::empty();
        let mut i: usize = 0;
        while i < self.profiles.len()
            invariant
                i <= self.profiles@.len(),
                sel == self.profiles_matching(query@, i as nat),
                r@.len() == sel.len(),
                forall|a: int| 0 <= a < sel.len() ==> #[trigger] sel[a] < i,
                forall|a: int| 0 <= a < r@.len() ==> #[trigger] r@[a].same(self.profiles@[sel[a] as int]),
            decreases self.profiles@.len() - i,
        {
            let p = &self.profiles[i];
            if matches_query(query.as_str(), p.username.as_str(), &p.bio) {
                r.push(p.copy());
                proof {
                    sel = sel.push(i);
                }
            }
            i = i + 1;
        }
        r
    }
}

} // verus!
