//! Hashtags in post text, and the fixed texts the service answers with.
use vstd::prelude::*;

verus! {

/// The whitespace-separated words of a text, in order.
pub uninterp spec fn words_of(s: Seq<char>) -> Seq<Seq<char>>;

/// Relies on `str::split_whitespace`: the words of `s`, each taken whole,
/// in the order they stand.
#[verifier::external_body]
fn split_words(s: &str) -> (r: Vec<String>)
    ensures
        r.deep_view() == words_of(s@),
{
    s.split_whitespace().map(|w| w.to_string()).collect()
}

/// A hashtag is a word that begins with `#`.
pub open spec fn is_hashtag(w: Seq<char>) -> bool {
    w.len() > 0 && w[0] == '#'
}

/// The hashtags among `words`, in order, repeats kept.
pub open spec fn hashtags_in(words: Seq<Seq<char>>) -> Seq<Seq<char>>
    decreases words.len(),
{
    if words.len() == 0 {
        Seq::empty()
    } else if is_hashtag(words.last()) {
        hashtags_in(words.drop_last()).push(words.last())
    } else {
        hashtags_in(words.drop_last())
    }
}

/// The hashtags among `words`, in order, repeats kept.
pub fn hashtags_from_words(words: &Vec<String>) -> (r: Vec<String>)
    ensures
        r.deep_view() == hashtags_in(words.deep_view()),
{
    let mut r: Vec<String> = Vec::new();
    let mut i: usize = 0;
    while i < words.len()
        invariant
            i <= words@.len(),
            r.deep_view() == hashtags_in(words.deep_view().take(i as int)),
        decreases words@.len() - i,
    {
        let w = words[i].as_str();
        let ghost before = r.deep_view();
        if w.unicode_len() > 0 && w.get_char(0) == '#' {
            r.push(words[i].clone());
            assert(r.deep_view() =~= before.push(words.deep_view()[i as int]));
        }
        proof {
            let t = words.deep_view();
            assert(t.take(i + 1).drop_last() =~= t.take(i as int));
            assert(t.take(i + 1).last() == t[i as int]);
        }
        i = i + 1;
    }
    assert(words.deep_view().take(i as int) =~= words.deep_view());
    r
}

/// The hashtags of a post's text: its words that begin with `#`, in order.
pub fn extract_hashtags(content: &String) -> (r: Vec<String>)
    ensures
        r.deep_view() == hashtags_in(words_of(content@)),
{
    let words = split_words(content.as_str());
    hashtags_from_words(&words)
}

/// The greeting for `name`.
pub fn greet(name: &str) -> (r: String)
    ensures
        r@ == "Hello, "@ + name@ + "! Welcome to ToknTalk!"@,
{
    let mut r = String::from_str("Hello, ");
    r.append(name);
    r.append("! Welcome to ToknTalk!");
    r
}

/// The answer to a prompt for the assistant, which only echoes it.
pub fn llm_prompt(prompt: &str) -> (r: String)
    ensures
        r@ == "AI Response to: "@ + prompt@,
{
    let mut r = String::from_str("AI Response to: ");
    r.append(prompt);
    r
}

/// The lower-case form of a text.
pub uninterp spec fn lower_of(s: Seq<char>) -> Seq<char>;

/// Relies on `str::to_lowercase`: the result depends on the characters of
/// `s` alone.
#[verifier::external_body]
pub(crate) fn lowercase(s: &str) -> (r: String)
    ensures
        r@ == lower_of(s@),
{
    s.to_lowercase()
}

/// `needle` stands somewhere in `hay` as a run of consecutive characters.
pub open spec fn occurs_in(needle: Seq<char>, hay: Seq<char>) -> bool {
    exists|i: int| 0 <= i && i + needle.len() <= hay.len() && #[trigger] hay.subrange(i, i + needle.len()) == needle
}

/// Relies on `str::contains` with a `&str` pattern: whether `needle`
/// occurs in `hay`; the empty text occurs everywhere.
#[verifier::external_body]
fn text_contains(hay: &str, needle: &str) -> (r: bool)
    ensures
        r == occurs_in(needle@, hay@),
{
    hay.contains(needle)
}

/// A profile with the lower-cased user name `name` and lower-cased bio
/// lines `bio` matches the lower-cased query `query` where the query occurs
/// in the name or in some line of the bio.
pub open spec fn profile_matches(query: Seq<char>, name: Seq<char>, bio: Seq<Seq<char>>) -> bool {
    occurs_in(query, name) || exists|k: int| 0 <= k < bio.len() && occurs_in(query, bio[k])
}

/// Whether a profile matches a query, all three already in lower case.
pub fn matches_lowered(query: &str, name: &str, bio: &Vec<String>) -> (r: bool)
    ensures
        r == profile_matches(query@, name@, bio.deep_view()),
{
    if text_contains(name, query) {
        return true;
    }
    let mut k: usize = 0;
    while k < bio.len()
        invariant
            k <= bio@.len(),
            forall|j: int| 0 <= j < k ==> !occurs_in(query@, #[trigger] bio.deep_view()[j]),
        decreases bio@.len() - k,
    {
        if text_contains(bio[k].as_str(), query) {
            assert(occurs_in(query@, bio.deep_view()[k as int]));
            return true;
        }
        k = k + 1;
    }
    false
}

/// The lower-cased lines of `bio`.
pub open spec fn lower_lines(bio: Seq<Seq<char>>) -> Seq<Seq<char>> {
    bio.map_values(|l: Seq<char>| lower_of(l))
}

/// Whether the profile with user name `name` and bio `bio` matches
/// `query`, compared in lower case.
pub fn matches_query(query: &str, name: &str, bio: &Vec<String>) -> (r: bool)
    ensures
        r == profile_matches(lower_of(query@), lower_of(name@), lower_lines(bio.deep_view())),
{
    let q = lowercase(query);
    let n = lowercase(name);
    let mut lines: Vec<String> = Vec::new();
    let mut k: usize = 0;
    while k < bio.len()
        invariant
            k <= bio@.len(),
            lines.deep_view() =~= lower_lines(bio.deep_view()).take(k as int),
        decreases bio@.len() - k,
    {
        let ghost before = lines.deep_view();
        let l = lowercase(bio[k].as_str());
        lines.push(l);
        assert(lines.deep_view() =~= before.push(lower_of(bio.deep_view()[k as int])));
        k = k + 1;
    }
    assert(lines.deep_view() =~= lower_lines(bio.deep_view()));
    matches_lowered(q.as_str(), n.as_str(), &lines)
}

} // verus!
