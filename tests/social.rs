use tokntalk::text::matches_lowered;
use tokntalk::{extract_hashtags, greet, llm_prompt, Backend, InteractionGraph, NotificationType, PostType, Trending, UserId};

fn user(n: u8) -> UserId {
    UserId::from_bytes(vec![n])
}

fn s(t: &str) -> String {
    t.to_string()
}

fn post_ids(posts: &[tokntalk::Post]) -> Vec<u64> {
    posts.iter().map(|p| p.id).collect()
}

#[test]
fn strength_accumulates_over_repeated_records() {
    let mut g = InteractionGraph::new();
    let (a, b) = (user(1), user(2));
    assert_eq!(g.get_strength(&a, &b), 0);
    g.record_interaction(&a, &b, 1);
    g.record_interaction(&a, &b, 2);
    g.record_interaction(&a, &b, 5);
    assert_eq!(g.get_strength(&a, &b), 8);
    assert_eq!(g.get_strength(&b, &a), 0);
}

#[test]
fn strength_saturates_at_the_largest_weight() {
    let mut g = InteractionGraph::new();
    let (a, b) = (user(1), user(2));
    g.record_interaction(&a, &b, u64::MAX - 1);
    g.record_interaction(&a, &b, 5);
    assert_eq!(g.get_strength(&a, &b), u64::MAX);
}

#[test]
fn feed_without_signals_is_chronological() {
    let mut be = Backend::new();
    let viewer = user(9);
    be.create_post(&user(1), s("first #x"), 1).unwrap();
    be.create_post(&user(2), s("third"), 3).unwrap();
    be.create_post(&user(3), s("second #y"), 2).unwrap();
    let personal = be.get_personalized_feed(&viewer, 10);
    let global = be.get_feed(10);
    assert_eq!(post_ids(&personal), post_ids(&global));
    let times: Vec<u64> = global.iter().map(|p| p.created_at).collect();
    assert_eq!(times, vec![3, 2, 1]);
}

#[test]
fn usage_counts_every_occurrence() {
    let mut t = Trending::new();
    t.record_usage(&vec![s("#a"), s("#a"), s("#b")], 7);
    let top = t.top_n(10);
    assert_eq!(top.len(), 2);
    assert_eq!(top[0].hashtag, "#a");
    assert_eq!(top[0].count, 2);
    assert_eq!(top[0].last_used, 7);
    assert_eq!(top[1].hashtag, "#b");
    assert_eq!(top[1].count, 1);
}

#[test]
fn suggestions_leave_out_caller_and_followed() {
    let mut be = Backend::new();
    for n in 1..=4 {
        be.create_profile(&user(n), format!("u{}", n), vec![], vec![], 0).unwrap();
    }
    be.follow_user(&user(1), &user(2), 1).unwrap();
    let suggested: Vec<UserId> = be.suggest_connections(&user(1), 10).into_iter().map(|p| p.id).collect();
    assert_eq!(suggested, vec![user(3), user(4)]);
}

#[test]
fn suggestions_rank_mutual_follows_and_shared_interest() {
    let mut be = Backend::new();
    for n in 1..=5 {
        be.create_profile(&user(n), format!("u{}", n), vec![], vec![], 0).unwrap();
    }
    be.follow_user(&user(1), &user(5), 1).unwrap();
    be.follow_user(&user(3), &user(5), 2).unwrap();
    be.create_post(&user(1), s("#go #go"), 3).unwrap();
    be.create_post(&user(4), s("#go"), 4).unwrap();
    let suggested: Vec<UserId> = be.suggest_connections(&user(1), 10).into_iter().map(|p| p.id).collect();
    assert_eq!(suggested, vec![user(3), user(4), user(2)]);
    let top: Vec<UserId> = be.suggest_connections(&user(1), 1).into_iter().map(|p| p.id).collect();
    assert_eq!(top, vec![user(3)]);
}

#[test]
fn repeated_queries_give_identical_answers() {
    let mut be = Backend::new();
    be.create_profile(&user(1), s("a"), vec![], vec![], 0).unwrap();
    be.create_profile(&user(2), s("b"), vec![], vec![], 0).unwrap();
    be.create_post(&user(2), s("hello #rust"), 1).unwrap();
    be.create_post(&user(2), s("again #rust"), 2).unwrap();
    be.like_post(&user(1), 1, 3).unwrap();
    let f1 = post_ids(&be.get_personalized_feed(&user(1), 5));
    let f2 = post_ids(&be.get_personalized_feed(&user(1), 5));
    assert_eq!(f1, f2);
    let s1: Vec<UserId> = be.suggest_connections(&user(1), 5).into_iter().map(|p| p.id).collect();
    let s2: Vec<UserId> = be.suggest_connections(&user(1), 5).into_iter().map(|p| p.id).collect();
    assert_eq!(s1, s2);
    let t1: Vec<String> = be.get_trending_topics(5).into_iter().map(|t| t.hashtag).collect();
    let t2: Vec<String> = be.get_trending_topics(5).into_iter().map(|t| t.hashtag).collect();
    assert_eq!(t1, t2);
}

#[test]
fn follow_then_like_gives_strength_six() {
    let mut be = Backend::new();
    let (a, b) = (user(1), user(2));
    be.follow_user(&a, &b, 1).unwrap();
    let p = be.create_post(&b, s("learning #rust"), 2).unwrap();
    be.like_post(&a, p.id, 3).unwrap();
    assert_eq!(be.get_connection_strength(&a, &b), 6);
    assert_eq!(be.get_connection_strength(&b, &a), 0);
    assert_eq!(be.get_affinity(&b, &s("#rust")), 1);
    assert_eq!(be.get_affinity(&a, &s("#rust")), 0);
}

#[test]
fn global_feed_keeps_the_newest() {
    let mut be = Backend::new();
    for t in 1..=3 {
        be.create_post(&user(1), format!("post {}", t), t).unwrap();
    }
    let times: Vec<u64> = be.get_feed(2).iter().map(|p| p.created_at).collect();
    assert_eq!(times, vec![3, 2]);
}

#[test]
fn most_used_hashtag_leads() {
    let mut be = Backend::new();
    be.create_post(&user(1), s("#ai one"), 1).unwrap();
    be.create_post(&user(2), s("#ml #ai two"), 2).unwrap();
    be.create_post(&user(3), s("three #ai"), 3).unwrap();
    let top = be.get_trending_topics(1);
    assert_eq!(top.len(), 1);
    assert_eq!(top[0].hashtag, "#ai");
    assert_eq!(top[0].count, 3);
}

#[test]
fn personalized_feed_scores_follows_interest_and_strength() {
    let mut be = Backend::new();
    let viewer = user(1);
    be.create_post(&user(2), s("plain"), 1).unwrap();
    be.create_post(&user(3), s("#cats"), 2).unwrap();
    be.create_post(&user(4), s("news"), 3).unwrap();
    be.create_post(&viewer, s("I like #cats #cats"), 4).unwrap();
    be.follow_user(&viewer, &user(2), 5).unwrap();
    let ids = post_ids(&be.get_personalized_feed(&viewer, 10));
    // user 2: follow bonus 10 + strength 5; user 3: interest 2; own post: interest 4.
    assert_eq!(ids, vec![1, 4, 2, 3]);
    assert_eq!(post_ids(&be.get_personalized_feed(&viewer, 2)), vec![1, 4]);
}

#[test]
fn hashtags_are_words_starting_with_hash() {
    let tags = extract_hashtags(&s("  #one two\t#two # x#y #one\n"));
    assert_eq!(tags, vec![s("#one"), s("#two"), s("#"), s("#one")]);
    assert!(extract_hashtags(&s("")).is_empty());
}

#[test]
fn liking_twice_or_a_missing_post_is_refused() {
    let mut be = Backend::new();
    let p = be.create_post(&user(2), s("hi"), 1).unwrap();
    assert_eq!(be.like_post(&user(1), 99, 2).unwrap_err(), "Post not found");
    let liked = be.like_post(&user(1), p.id, 2).unwrap();
    assert_eq!(liked.likes, vec![user(1)]);
    assert_eq!(be.like_post(&user(1), p.id, 3).unwrap_err(), "Post already liked");
    let notes = be.get_notifications(&user(2));
    assert_eq!(notes.len(), 1);
    assert!(matches!(notes[0].notification_type, NotificationType::Like { post_id: 1, .. }));
}

#[test]
fn unliking_removes_the_like_but_keeps_strength() {
    let mut be = Backend::new();
    let p = be.create_post(&user(2), s("hi"), 1).unwrap();
    assert_eq!(be.unlike_post(&user(1), p.id).unwrap_err(), "Post not liked");
    be.like_post(&user(1), p.id, 2).unwrap();
    let after = be.unlike_post(&user(1), p.id).unwrap();
    assert!(after.likes.is_empty());
    assert_eq!(be.unlike_post(&user(1), 42).unwrap_err(), "Post not found");
    assert_eq!(be.get_connection_strength(&user(1), &user(2)), 1);
}

#[test]
fn following_rules() {
    let mut be = Backend::new();
    be.create_profile(&user(1), s("a"), vec![], vec![], 0).unwrap();
    be.create_profile(&user(2), s("b"), vec![], vec![], 0).unwrap();
    assert_eq!(be.follow_user(&user(1), &user(1), 1).unwrap_err(), "Cannot follow yourself");
    be.follow_user(&user(1), &user(2), 1).unwrap();
    assert_eq!(be.follow_user(&user(1), &user(2), 2).unwrap_err(), "Already following");
    assert_eq!(be.get_following(&user(1)), vec![user(2)]);
    assert_eq!(be.get_followers(&user(2)), vec![user(1)]);
    assert_eq!(be.get_user_profile(&user(1)).unwrap().following_count, 1);
    assert_eq!(be.get_user_profile(&user(2)).unwrap().followers_count, 1);
    assert_eq!(be.get_connection_strength(&user(1), &user(2)), 5);
    be.unfollow_user(&user(1), &user(2)).unwrap();
    assert_eq!(be.unfollow_user(&user(1), &user(2)).unwrap_err(), "Not following");
    assert!(be.get_following(&user(1)).is_empty());
    assert_eq!(be.get_user_profile(&user(2)).unwrap().followers_count, 0);
    assert_eq!(be.get_connection_strength(&user(1), &user(2)), 5);
}

#[test]
fn mutual_connections_in_callers_order() {
    let mut be = Backend::new();
    be.follow_user(&user(1), &user(5), 1).unwrap();
    be.follow_user(&user(1), &user(4), 1).unwrap();
    be.follow_user(&user(1), &user(3), 1).unwrap();
    be.follow_user(&user(2), &user(3), 1).unwrap();
    be.follow_user(&user(2), &user(5), 1).unwrap();
    assert_eq!(be.get_mutual_connections(&user(1), &user(2)), vec![user(5), user(3)]);
}

#[test]
fn comments_strengthen_and_notify() {
    let mut be = Backend::new();
    let p = be.create_post(&user(2), s("post"), 1).unwrap();
    let c = be.add_comment(&user(1), p.id, s("nice"), 2).unwrap();
    assert_eq!(c.id, 1);
    assert_eq!(be.get_connection_strength(&user(1), &user(2)), 2);
    assert_eq!(be.add_comment(&user(1), 77, s("lost"), 3).unwrap_err(), "Post not found");
    let second = be.add_comment(&user(3), p.id, s("more"), 4).unwrap();
    assert_eq!(second.id, 2);
    let comments = be.get_comments(p.id);
    assert_eq!(comments.len(), 2);
    assert_eq!(comments[0].content, "nice");
    assert!(be.get_comments(77).is_empty());
    assert_eq!(be.get_original_post(p.id).unwrap().comments, vec![1, 2]);
}

#[test]
fn resharing_creates_a_post_and_counts() {
    let mut be = Backend::new();
    let p = be.create_post(&user(2), s("hello #rust"), 1).unwrap();
    assert_eq!(be.reshare_post(&user(1), 9, 2).unwrap_err(), "Original post not found");
    let r = be.reshare_post(&user(1), p.id, 2).unwrap();
    assert_eq!(r.content, "Reshared: hello #rust");
    assert_eq!(r.hashtags, vec![s("#rust")]);
    assert!(matches!(r.post_type, PostType::Reshare { original_post_id: 1, .. }));
    assert_eq!(be.get_original_post(p.id).unwrap().reshare_count, 1);
    assert_eq!(be.get_affinity(&user(1), &s("#rust")), 1);
    assert_eq!(be.get_trending_topics(1)[0].count, 2);
    assert_eq!(be.get_notifications(&user(2)).len(), 1);
}

#[test]
fn messages_and_threads() {
    let mut be = Backend::new();
    assert_eq!(
        be.send_message(&user(1), &user(1), s("me"), 1).unwrap_err(),
        "Cannot send message to yourself"
    );
    be.send_message(&user(1), &user(2), s("hi"), 1).unwrap();
    be.send_message(&user(2), &user(1), s("hey"), 2).unwrap();
    be.send_message(&user(1), &user(3), s("yo"), 3).unwrap();
    assert_eq!(be.get_messages(&user(2), &user(1)).len(), 2);
    let threads = be.get_chat_threads(&user(1));
    assert_eq!(threads.len(), 2);
    let a = candid::Principal::from_slice(&[1]).to_text();
    let b = candid::Principal::from_slice(&[2]).to_text();
    assert_eq!(threads[0].id, format!("{}_{}", a, b));
    assert_eq!(threads[0].last_message.as_ref().unwrap().content, "hey");
    assert_eq!(be.mark_messages_as_read(&user(1), &user(2)), 1);
    assert_eq!(be.mark_messages_as_read(&user(1), &user(2)), 0);
}

#[test]
fn thread_key_orders_shorter_principal_first() {
    let mut be = Backend::new();
    let long = UserId::from_bytes(vec![0, 0]);
    be.send_message(&long, &user(7), s("x"), 1).unwrap();
    let a = candid::Principal::from_slice(&[7]).to_text();
    let b = candid::Principal::from_slice(&[0, 0]).to_text();
    assert_eq!(be.get_chat_threads(&long)[0].id, format!("{}_{}", a, b));
}

#[test]
fn notifications_read_rules() {
    let mut be = Backend::new();
    be.follow_user(&user(1), &user(2), 1).unwrap();
    be.follow_user(&user(3), &user(2), 2).unwrap();
    assert_eq!(be.mark_notification_as_read(&user(2), 9).unwrap_err(), "Notification not found");
    assert_eq!(be.mark_notification_as_read(&user(1), 1).unwrap_err(), "Not authorized");
    be.mark_notification_as_read(&user(2), 1).unwrap();
    let notes = be.get_notifications(&user(2));
    assert!(notes[0].read && !notes[1].read);
    be.mark_all_notifications_as_read(&user(2)).unwrap();
    assert!(be.get_notifications(&user(2)).iter().all(|n| n.read));
}

#[test]
fn profiles_are_created_once_and_updated() {
    let mut be = Backend::new();
    assert_eq!(be.get_profile(&user(1)).unwrap_err(), "Profile not found");
    assert_eq!(be.update_profile(&user(1), None, None).unwrap_err(), "Profile not found");
    be.create_profile(&user(1), s("Ann"), vec![s("Rustacean")], vec![], 4).unwrap();
    assert_eq!(
        be.create_profile(&user(1), s("Ann"), vec![], vec![], 5).unwrap_err(),
        "Profile already exists"
    );
    let p = be.update_profile(&user(1), None, Some(vec![s("pic")])).unwrap();
    assert_eq!(p.bio, vec![s("Rustacean")]);
    assert_eq!(p.avatar_url, vec![s("pic")]);
    assert_eq!(be.get_profile(&user(1)).unwrap().created_at, 4);
}

#[test]
fn user_search_ignores_case() {
    let mut be = Backend::new();
    be.create_profile(&user(1), s("Alice"), vec![], vec![], 0).unwrap();
    be.create_profile(&user(2), s("bob"), vec![s("Friend of ALICE")], vec![], 0).unwrap();
    be.create_profile(&user(3), s("carol"), vec![], vec![], 0).unwrap();
    let found: Vec<UserId> = be.search_users(&s("aLiCe")).into_iter().map(|p| p.id).collect();
    assert_eq!(found, vec![user(1), user(2)]);
    assert_eq!(be.search_users(&s("")).len(), 3);
}

#[test]
fn posts_found_by_hashtag() {
    let mut be = Backend::new();
    be.create_post(&user(1), s("#a #b"), 1).unwrap();
    be.create_post(&user(1), s("#b"), 2).unwrap();
    be.create_post(&user(1), s("#c"), 3).unwrap();
    assert_eq!(post_ids(&be.search_posts_by_hashtag(&s("#b"))), vec![1, 2]);
    assert!(be.search_posts_by_hashtag(&s("b")).is_empty());
}

#[test]
fn todos_and_counter() {
    let mut be = Backend::new();
    let t = be.add_todo(s("write"));
    assert_eq!(t.id, 1);
    assert_eq!(be.get_counter(), 1);
    be.add_todo(s("test"));
    assert!(be.toggle_todo(1).unwrap().completed);
    assert!(be.toggle_todo(5).is_none());
    assert!(be.delete_todo(1));
    assert!(!be.delete_todo(1));
    assert_eq!(be.get_todos().len(), 1);
    assert_eq!(be.increment_counter(), 3);
    assert_eq!(be.set_counter(10), 10);
    assert_eq!(be.add_todo(s("next")).id, 11);
}

#[test]
fn greetings() {
    assert_eq!(greet("Ann"), "Hello, Ann! Welcome to ToknTalk!");
    assert_eq!(llm_prompt("why"), "AI Response to: why");
}

#[test]
fn hashtags_from_given_words() {
    let words = vec![s("#a"), s("b"), s(""), s("#"), s("c#")];
    assert_eq!(tokntalk::text::hashtags_from_words(&words), vec![s("#a"), s("#")]);
}

#[test]
fn lowered_profile_matching() {
    assert!(matches_lowered("ann", "joanne", &vec![]));
    assert!(matches_lowered("rust", "bob", &vec![s("i like go"), s("and rust")]));
    assert!(!matches_lowered("Rust", "bob", &vec![s("rust")]));
    assert!(tokntalk::text::matches_query("Rust", "bob", &vec![s("RUST fan")]));
}

#[test]
fn thread_key_joins_with_underscore() {
    assert_eq!(tokntalk::backend::join_thread_key("aaaaa-aa", "bbb"), "aaaaa-aa_bbb");
}

#[test]
fn ranking_orders_by_score_then_second_key_then_position() {
    let keys = vec![(1, 5), (3, 0), (1, 9), (3, 0), (0, 0)];
    assert_eq!(tokntalk::ranking::rank(&keys), vec![1, 3, 2, 0, 4]);
    assert!(tokntalk::ranking::rank(&vec![]).is_empty());
}

#[test]
fn affinity_counts_repeated_hashtags() {
    let mut a = tokntalk::ContentAffinity::new();
    let u = user(1);
    a.record_affinity(&u, &vec![s("#x"), s("#x"), s("#y")], 3);
    assert_eq!(a.get_affinity(&u, &s("#x")), 6);
    assert_eq!(a.get_affinity(&u, &s("#y")), 3);
    assert_eq!(a.get_affinity(&user(2), &s("#x")), 0);
    let v = user(2);
    a.record_affinity(&v, &vec![s("#x")], 10);
    assert_eq!(a.get_shared_interest(&u, &v), 6);
    assert_eq!(a.get_shared_interest(&v, &u), 6);
}

#[test]
fn principal_order_is_length_then_bytes() {
    assert!(user(1).precedes(&user(2)));
    assert!(!user(2).precedes(&user(1)));
    assert!(user(9).precedes(&UserId::from_bytes(vec![0, 0])));
    assert!(!user(3).precedes(&user(3)));
}

#[test]
fn strength_accumulates_across_other_pairs() {
    let mut g = InteractionGraph::new();
    let (a, b, c) = (user(1), user(2), user(3));
    g.record_interaction(&a, &b, 2);
    g.record_interaction(&a, &c, 7);
    g.record_interaction(&b, &a, 4);
    g.record_interaction(&a, &b, 3);
    assert_eq!(g.get_strength(&a, &b), 5);
    assert_eq!(g.get_strength(&a, &c), 7);
    assert_eq!(g.get_strength(&b, &a), 4);
}
