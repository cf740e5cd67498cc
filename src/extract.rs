//! Text and link cleanup for extracted notice-board entries.
use vstd::prelude::*;
use crate::snapshot::{Link, link_text, opt_text};

verus! {

/// `s` without its longest prefix made of characters of `set`.
pub open spec fn strip_start(s: Seq<char>, set: Seq<char>) -> Seq<char>
    decreases s.len(),
{
    if s.len() > 0 && set.contains(s[0]) {
        strip_start(s.drop_first(), set)
    } else {
        s
    }
}

/// `s` without its longest suffix made of characters of `set`.
pub open spec fn strip_end(s: Seq<char>, set: Seq<char>) -> Seq<char>
    decreases s.len(),
{
    if s.len() > 0 && set.contains(s.last()) {
        strip_end(s.drop_last(), set)
    } else {
        s
    }
}

/// `s` without its leading copies of `p`.
pub open spec fn strip_repeated(s: Seq<char>, p: Seq<char>) -> Seq<char>
    decreases s.len(),
{
    if p.len() > 0 && p.len() <= s.len() && s.subrange(0, p.len() as int) == p {
        strip_repeated(s.subrange(p.len() as int, s.len() as int), p)
    } else {
        s
    }
}

/// The characters with Unicode's White_Space property, those that
/// `char::is_whitespace` accepts.
pub open spec fn white_space() -> Seq<char> {
    seq![
        '\u{9}', '\u{a}', '\u{b}', '\u{c}', '\u{d}', '\u{20}', '\u{85}', '\u{a0}', '\u{1680}',
        '\u{2000}', '\u{2001}', '\u{2002}', '\u{2003}', '\u{2004}', '\u{2005}', '\u{2006}',
        '\u{2007}', '\u{2008}', '\u{2009}', '\u{200a}', '\u{2028}', '\u{2029}', '\u{202f}',
        '\u{205f}', '\u{3000}',
    ]
}

/// `s` without leading and trailing white space.
pub open spec fn trimmed(s: Seq<char>) -> Seq<char> {
    strip_end(strip_start(s, white_space()), white_space())
}

/// A non-empty text that neither starts nor ends with white space.
pub open spec fn presentable(t: Seq<char>) -> bool {
    &&& t.len() > 0
    &&& !white_space().contains(t[0])
    &&& !white_space().contains(t.last())
}

proof fn lemma_strip_start(s: Seq<char>, set: Seq<char>)
    ensures
        strip_start(s, set).len() == 0 || !set.contains(strip_start(s, set)[0]),
    decreases s.len(),
{
    if s.len() > 0 && set.contains(s[0]) {
        lemma_strip_start(s.drop_first(), set);
    }
}

proof fn lemma_strip_end(s: Seq<char>, set: Seq<char>)
    ensures
        strip_end(s, set).len() <= s.len(),
        forall|i: int| 0 <= i < strip_end(s, set).len() ==> #[trigger] strip_end(s, set)[i] == s[i],
        strip_end(s, set).len() == 0 || !set.contains(strip_end(s, set).last()),
    decreases s.len(),
{
    if s.len() > 0 && set.contains(s.last()) {
        lemma_strip_end(s.drop_last(), set);
    }
}

/// What remains of a text after trimming is empty or presentable.
pub proof fn lemma_trimmed_presentable(s: Seq<char>)
    ensures
        trimmed(s).len() > 0 ==> presentable(trimmed(s)),
{
    let a = strip_start(s, white_space());
    lemma_strip_start(s, white_space());
    lemma_strip_end(a, white_space());
}

/// The absolute URL that `href` denotes relative to `base`, if both parse.
pub uninterp spec fn joined_url(base: Seq<char>, href: Seq<char>) -> Option<Seq<char>>;

/// Relies on `str::trim`: it drops the longest prefix and the longest suffix
/// made of White_Space characters.
#[verifier::external_body]
fn trim_whitespace(s: &str) -> (r: &str)
    ensures
        r@ == trimmed(s@),
{
    s.trim()
}

/// Relies on `str::trim_matches` with a set of characters: it drops the
/// longest prefix and the longest suffix made of those characters.
#[verifier::external_body]
fn trim_set<'a>(s: &'a str, set: &[char]) -> (r: &'a str)
    ensures
        r@ == strip_end(strip_start(s@, set@), set@),
{
    s.trim_matches(set)
}

/// Relies on `str::trim_start_matches` with a set of characters: it drops the
/// longest prefix made of those characters.
#[verifier::external_body]
fn trim_set_start<'a>(s: &'a str, set: &[char]) -> (r: &'a str)
    ensures
        r@ == strip_start(s@, set@),
{
    s.trim_start_matches(set)
}

/// Relies on `str::trim_start_matches` with a string: it drops the leading
/// copies of `p`.
#[verifier::external_body]
fn trim_word_start<'a>(s: &'a str, p: &str) -> (r: &'a str)
    ensures
        r@ == strip_repeated(s@, p@),
{
    s.trim_start_matches(p)
}

/// Relies on `url::Url::parse` for `base` and on `url::ParseOptions::parse`
/// with `base` as base URL for `href`, serialized by `Url`'s `to_string`.
#[verifier::external_body]
fn join_url(base: &str, href: &str) -> (r: Option<String>)
    ensures
        opt_text(r) == joined_url(base@, href@),
{
    let b = url::Url::parse(base).ok()?;
    url::Url::options().base_url(Some(&b)).parse(href).ok().map(|u| u.to_string())
}

/// The site that relative links are resolved against.
pub const BASE_URL: &'static str = "https://dtu.ac.in";

/// Characters cut from both ends of a title.
pub open spec fn title_junk() -> Seq<char> {
    seq!['\t', '\n', '\u{a0}', '|', ' ']
}

/// Characters cut from the start of a date.
pub open spec fn date_junk() -> Seq<char> {
    seq![':', ' ']
}

/// A title as cleaned from the text of its element: trimmed, cut of junk at
/// either end, and trimmed again.
pub open spec fn cleaned(s: Seq<char>) -> Seq<char> {
    trimmed(strip_end(strip_start(trimmed(s), title_junk()), title_junk()))
}

/// A date as cleaned from the text next to its notice.
pub open spec fn date_of(s: Seq<char>) -> Seq<char> {
    strip_start(
        strip_repeated(strip_repeated(trimmed(s), seq!['D', 'a', 't', 'e']), seq!['d', 'a', 't', 'e']),
        date_junk(),
    )
}

/// A title as written on the page: trimmed, then without tabs, newlines,
/// non-breaking spaces, bars and spaces at either end, then trimmed again.
/// It is empty or presentable.
pub fn clean_text(text: &str) -> (r: String)
    ensures
        r@ == cleaned(text@),
        r@.len() > 0 ==> presentable(r@),
{
    let set: Vec<char> = vec!['\t', '\n', '\u{a0}', '|', ' '];
    assert(set@ == title_junk());
    let t = trim_whitespace(text);
    let t = trim_set(t, set.as_slice());
    proof {
        lemma_trimmed_presentable(t@);
    }
    trim_whitespace(t).to_string()
}

/// The date of a notice from the text next to it: trimmed, without a leading
/// "Date" or "date" label, then without leading colons and spaces.
pub fn date_text(text: &str) -> (r: String)
    ensures
        r@ == date_of(text@),
{
    proof {
        reveal_strlit("Date");
        reveal_strlit("date");
        assert("Date"@ =~= seq!['D', 'a', 't', 'e']);
        assert("date"@ =~= seq!['d', 'a', 't', 'e']);
    }
    let set: Vec<char> = vec![':', ' '];
    assert(set@ == date_junk());
    let t = trim_whitespace(text);
    let t = trim_word_start(t, "Date");
    let t = trim_word_start(t, "date");
    trim_set_start(t, set.as_slice()).to_string()
}

/// The link that `href` denotes on the site, if it is a valid URL reference.
pub fn make_link(href: &str) -> (r: Option<Link>)
    ensures
        link_text(r) == joined_url(BASE_URL@, href@),
{
    match join_url(BASE_URL, href) {
        Some(s) => Some(Link(s)),
        None => None,
    }
}

} // verus!
