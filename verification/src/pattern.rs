//! Compiled text patterns.
//!
//! Script lines are matched with the `regex` crate and locale-file lines with
//! `onig`. What a pattern finds in a text is a function of the pattern's source
//! and the text; it is named here, not defined: the library's contracts speak of
//! these names, and the functions at the end of this file, whose contracts are
//! taken on trust, are the only code that runs a pattern.

use vstd::prelude::*;

verus! {

#[verifier::external_type_specification]
#[verifier::external_body]
pub struct ExScriptRegex(regex::Regex);

#[verifier::external_type_specification]
#[verifier::external_body]
pub struct ExLocaleRegex(onig::Regex);

/// The source text that a `regex::Regex` was compiled from.
pub uninterp spec fn regex_source(re: regex::Regex) -> Seq<char>;

/// The capture groups of the leftmost match of the `regex` pattern `pattern`
/// in `text`, group 0 first; a group that took no part in the match is `None`.
/// `None` when the pattern matches nowhere.
pub uninterp spec fn regex_captures(pattern: Seq<char>, text: Seq<char>) -> Option<
    Seq<Option<Seq<char>>>,
>;

/// The source text that an `onig::Regex` was compiled from.
pub uninterp spec fn onig_source(re: onig::Regex) -> Seq<char>;

/// What a search for the `onig` pattern `pattern` finds in `text`: the text in
/// front of the first match, the capture groups of that match (group 0 first, a
/// group that took no part is `None`), and the text behind the match. `None`
/// when the pattern matches nowhere or the search gives up.
pub uninterp spec fn onig_search(pattern: Seq<char>, text: Seq<char>) -> Option<
    (Seq<char>, Seq<Option<Seq<char>>>, Seq<char>),
>;

/// The capture groups of a match as owned strings.
pub open spec fn groups_view(groups: Seq<Option<String>>) -> Seq<Option<Seq<char>>> {
    groups.map_values(
        |g: Option<String>|
            match g {
                Some(s) => Some(s@),
                None => None,
            },
    )
}

/// A match of an `onig` pattern: the text around it and its capture groups.
#[derive(Clone, Debug, PartialEq, Eq)]
pub struct Found {
    pub before: String,
    pub groups: Vec<Option<String>>,
    pub after: String,
}

impl Found {
    pub open spec fn view(&self) -> (Seq<char>, Seq<Option<Seq<char>>>, Seq<char>) {
        (self.before@, groups_view(self.groups@), self.after@)
    }
}

/// The view of an optional match.
pub open spec fn found_view(found: Option<Found>) -> Option<
    (Seq<char>, Seq<Option<Seq<char>>>, Seq<char>),
> {
    match found {
        Some(f) => Some(f.view()),
        None => None,
    }
}

/// The view of optional capture groups.
pub open spec fn captures_view(groups: Option<Vec<Option<String>>>) -> Option<
    Seq<Option<Seq<char>>>,
> {
    match groups {
        Some(g) => Some(groups_view(g@)),
        None => None,
    }
}

/// `regex::Regex::new`: compiles `source`. The compiled pattern remembers its
/// source; nothing is promised about which sources compile.
#[verifier::external_body]
pub(crate) fn compile_regex(source: &str) -> (re: Option<regex::Regex>)
    ensures
        re is Some ==> regex_source(re.unwrap()) == source@,
{
    regex::Regex::new(source).ok()
}

/// `regex::Regex::captures`: the capture groups of the leftmost match in
/// `text`, each as the text it matched.
#[verifier::external_body]
pub(crate) fn regex_groups(re: &regex::Regex, text: &str) -> (groups: Option<Vec<Option<String>>>)
    ensures
        captures_view(groups) == regex_captures(regex_source(*re), text@),
{
    re.captures(text).map(|caps| caps.iter().map(|m| m.map(|m| m.as_str().to_string())).collect())
}

/// `onig::Regex::new`: compiles `source`. The compiled pattern remembers its
/// source; nothing is promised about which sources compile.
#[verifier::external_body]
pub(crate) fn compile_onig(source: &str) -> (re: Option<onig::Regex>)
    ensures
        re is Some ==> onig_source(re.unwrap()) == source@,
{
    onig::Regex::new(source).ok()
}

/// `onig::Regex::search_with_param` over the whole of `text`, with the default
/// options: the first match, as the text in front of it, its capture groups
/// and the text behind it. A search that fails counts as no match.
#[verifier::external_body]
pub(crate) fn onig_find(re: &onig::Regex, text: &str) -> (found: Option<Found>)
    ensures
        found_view(found) == onig_search(onig_source(*re), text@),
{
    let mut region = onig::Region::new();
    let options = onig::SearchOptions::SEARCH_OPTION_NONE;
    let limits = onig::MatchParam::default();
    match re.search_with_param(text, 0, text.len(), options, Some(&mut region), limits) {
        Ok(Some(_)) => {
            let (start, end) = region.pos(0)?;
            let part = |i: usize| region.pos(i).and_then(|(b, e)| text.get(b..e)).map(String::from);
            Some(Found {
                before: text.get(..start)?.to_string(),
                groups: (0..region.len()).map(part).collect(),
                after: text.get(end..)?.to_string(),
            })
        },
        _ => None,
    }
}

} // verus!
