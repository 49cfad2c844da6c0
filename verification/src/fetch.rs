//! Turning the page of the reference site for one identifier into a
//! translation.

use crate::number::{push_signed, signed_text};
use crate::pattern::{compile_onig, found_view, onig_find, onig_search, onig_source, Found};
use crate::text::{push_str, to_chars, to_text};
use vstd::prelude::*;
use vstd::slice::slice_subrange;

verus! {

/// Class of the element that holds the name on a page of the reference site.
pub const HEADING_CLASS: &'static str = "heading-size-1";

/// Tag of the element that frames the heading on the search page.
pub const SEARCH_FORM_TAG: &'static str = "form";

/// Class of the notice that a page shows for an unknown identifier.
pub const NOT_FOUND_CLASS: &'static str = "database-detail-page-not-found-message";

/// Source of the pattern of a bracketed subtitle at the end of a name.
pub const TITLE_PATTERN: &'static str = r#"\s+<.+?>$"#;

/// Seconds after which a request is given up.
pub const REQUEST_TIMEOUT_SECS: u64 = 30;

/// Number of redirects that a request follows.
pub const REDIRECT_LIMIT: u32 = 5;

/// The user agent of a request, unless another one is asked for.
pub const DEFAULT_USER_AGENT: &'static str =
    "Mozilla/5.0 (Windows NT 10.0; Win64; x64) AppleWebKit/537.36 (KHTML, like Gecko) Chrome/122.0.0.0 Safari/537.3";

/// The headers that every request carries, the user agent last.
pub open spec fn request_header_texts(user_agent: Seq<char>) -> Seq<(Seq<char>, Seq<char>)> {
    seq![
        ("accept"@, "text/html,application/xhtml+xml,application/xml;q=0.9"@),
        ("accept-encoding"@, "gzip, deflate"@),
        ("accept-language"@, "en-US,en;q=0.9"@),
        ("sec-fetch-dest"@, "document"@),
        ("sec-fetch-mode"@, "navigate"@),
        ("sec-fetch-site"@, "same-site"@),
        ("sec-fetch-user"@, "?1"@),
        ("upgrade-insecure-requests"@, "1"@),
        ("user-agent"@, user_agent),
    ]
}

pub open spec fn headers_view(list: Seq<(String, String)>) -> Seq<(Seq<char>, Seq<char>)> {
    list.map_values(|p: (String, String)| (p.0@, p.1@))
}

fn header(name: &str, value: &str) -> (pair: (String, String))
    ensures
        pair.0@ == name@,
        pair.1@ == value@,
{
    (String::from_str(name), String::from_str(value))
}

/// The headers that every request carries, with the given user agent.
pub fn request_headers(user_agent: &str) -> (list: Vec<(String, String)>)
    ensures
        headers_view(list@) == request_header_texts(user_agent@),
{
    let mut list: Vec<(String, String)> = Vec::new();
    list.push(header("accept", "text/html,application/xhtml+xml,application/xml;q=0.9"));
    list.push(header("accept-encoding", "gzip, deflate"));
    list.push(header("accept-language", "en-US,en;q=0.9"));
    list.push(header("sec-fetch-dest", "document"));
    list.push(header("sec-fetch-mode", "navigate"));
    list.push(header("sec-fetch-site", "same-site"));
    list.push(header("sec-fetch-user", "?1"));
    list.push(header("upgrade-insecure-requests", "1"));
    list.push(header("user-agent", user_agent));
    assert(headers_view(list@) == request_header_texts(user_agent@));
    list
}

/// The address of the page for `id` in the language served under `subdomain`.
pub open spec fn lookup_url_text(subdomain: Seq<char>, id: i64) -> Seq<char> {
    "https://"@ + subdomain + ".wowhead.com/npc="@ + signed_text(id as int)
}

/// The address of the page for `id` in the language served under `subdomain`.
pub fn lookup_url(subdomain: &str, id: i64) -> (url: String)
    ensures
        url@ == lookup_url_text(subdomain@, id),
{
    let mut out: Vec<char> = Vec::new();
    push_str(&mut out, "https://");
    push_str(&mut out, subdomain);
    push_str(&mut out, ".wowhead.com/npc=");
    push_signed(&mut out, id);
    assert(out@ == lookup_url_text(subdomain@, id));
    to_text(out.as_slice())
}

/// The element two levels above a heading.
#[derive(Clone, Debug, PartialEq, Eq)]
pub struct Frame {
    /// Whether the element is a search form.
    pub is_form: bool,
    /// For each child of the element, whether it is a not-found notice.
    pub notices: Vec<bool>,
}

/// The first heading of a page.
#[derive(Clone, Debug, PartialEq, Eq)]
pub struct Heading {
    /// The text of the heading and of everything inside it.
    pub text: String,
    /// The element two levels above the heading, if there is one.
    pub frame: Option<Frame>,
}

impl Frame {
    pub open spec fn view(&self) -> (bool, Seq<bool>) {
        (self.is_form, self.notices@)
    }
}

impl Heading {
    pub open spec fn view(&self) -> (Seq<char>, Option<(bool, Seq<bool>)>) {
        (
            self.text@,
            match self.frame {
                Some(f) => Some(f@),
                None => None,
            },
        )
    }
}

pub open spec fn heading_view(h: Option<Heading>) -> Option<(Seq<char>, Option<(bool, Seq<bool>)>)> {
    match h {
        Some(h) => Some(h@),
        None => None,
    }
}

/// Why a page gives no name.
#[derive(Clone, Copy, Debug, PartialEq, Eq, Structural)]
pub enum DataProblem {
    /// The page has no heading.
    NoHeading,
    /// The page is the search page or says that the identifier is unknown.
    NotAnNpc,
}

impl DataProblem {
    pub open spec fn message_text(self) -> Seq<char> {
        match self {
            DataProblem::NoHeading => "Couldn't find an element .heading-size-1"@,
            DataProblem::NotAnNpc => "Not a valid NPC ID"@,
        }
    }

    /// The problem in words.
    pub fn message(self) -> (text: String)
        ensures
            text@ == self.message_text(),
    {
        let chars = match self {
            DataProblem::NoHeading => to_chars("Couldn't find an element .heading-size-1"),
            DataProblem::NotAnNpc => to_chars("Not a valid NPC ID"),
        };
        to_text(chars.as_slice())
    }
}

/// The name that a page gives: the text of its first heading, unless the
/// heading stands in a search form or beside a not-found notice.
pub open spec fn name_of_heading(h: Option<(Seq<char>, Option<(bool, Seq<bool>)>)>) -> Result<
    Seq<char>,
    DataProblem,
> {
    match h {
        None => Err(DataProblem::NoHeading),
        Some((text, frame)) => match frame {
            Some((is_form, notices)) => if is_form || notices.contains(true) {
                Err(DataProblem::NotAnNpc)
            } else {
                Ok(text)
            },
            None => Ok(text),
        },
    }
}

pub open spec fn name_view(r: Result<String, DataProblem>) -> Result<Seq<char>, DataProblem> {
    match r {
        Ok(s) => Ok(s@),
        Err(e) => Err(e),
    }
}

fn any_notice(notices: &Vec<bool>) -> (r: bool)
    ensures
        r == notices@.contains(true),
{
    let mut i: usize = 0;
    while i < notices.len()
        invariant
            i <= notices@.len(),
            forall|k: int| 0 <= k < i ==> !notices@[k],
        decreases notices.len() - i,
    {
        if notices[i] {
            proof {
                assert(notices@[i as int] == true);
            }
            return true;
        }
        i += 1;
    }
    false
}

/// The name that a page with the first heading `heading` gives.
pub fn heading_name(heading: Option<Heading>) -> (name: Result<String, DataProblem>)
    ensures
        name_view(name) == name_of_heading(heading_view(heading)),
{
    match heading {
        None => Err(DataProblem::NoHeading),
        Some(h) => {
            let rejected = match &h.frame {
                Some(frame) => frame.is_form || any_notice(&frame.notices),
                None => false,
            };
            if rejected {
                Err(DataProblem::NotAnNpc)
            } else {
                Ok(h.text)
            }
        },
    }
}

/// The first element of class `class` in the page `html`: its text, and of the
/// element two levels above it whether its tag is `tag` and which of its
/// children are of class `notice`.
pub uninterp spec fn first_heading(
    html: Seq<char>,
    class: Seq<char>,
    tag: Seq<char>,
    notice: Seq<char>,
) -> Option<(Seq<char>, Option<(bool, Seq<bool>)>)>;

/// `select::document::Document::from` and, on the parsed page, `find` with a
/// class, `Node::parent`, `Node::is`, `Node::children` and `Node::text`: what
/// the page holds is a function of its text.
#[verifier::external_body]
pub(crate) fn probe_heading(html: &str, class: &str, tag: &str, notice: &str) -> (heading: Option<
    Heading,
>)
    ensures
        heading_view(heading) == first_heading(html@, class@, tag@, notice@),
{
    let document = select::document::Document::from(html);
    let node = document.find(select::predicate::Class(class)).next()?;
    let frame = node.parent().and_then(|n| n.parent()).map(
        |p| Frame {
            is_form: p.is(select::predicate::Name(tag)),
            notices: p.children().map(|c| c.is(select::predicate::Class(notice))).collect(),
        },
    );
    Some(Heading { text: node.text(), frame })
}

/// The name that the page `html` of the reference site gives.
pub fn page_name(html: &str) -> (name: Result<String, DataProblem>)
    ensures
        name_view(name) == name_of_heading(
            first_heading(html@, HEADING_CLASS@, SEARCH_FORM_TAG@, NOT_FOUND_CLASS@),
        ),
{
    heading_name(probe_heading(html, HEADING_CLASS, SEARCH_FORM_TAG, NOT_FOUND_CLASS))
}

/// `source` with the first match of a pattern replaced: the text in front of
/// the match, `replacement`, and the text behind the match. `source` itself
/// when nothing was found.
pub open spec fn replaced_first(
    found: Option<(Seq<char>, Seq<Option<Seq<char>>>, Seq<char>)>,
    source: Seq<char>,
    replacement: Seq<char>,
) -> Seq<char> {
    match found {
        Some((before, _, after)) => before + replacement + after,
        None => source,
    }
}

/// Puts `replacement` in the place of what was found in `source`.
pub fn replace_found(source: String, found: Option<Found>, replacement: &str) -> (text: String)
    ensures
        text@ == replaced_first(found_view(found), source@, replacement@),
{
    match found {
        Some(f) => {
            let mut out: Vec<char> = Vec::new();
            push_str(&mut out, f.before.as_str());
            push_str(&mut out, replacement);
            push_str(&mut out, f.after.as_str());
            assert(out@ == f.before@ + replacement@ + f.after@);
            to_text(out.as_slice())
        },
        None => source,
    }
}

/// Replaces the first match of `regex` in `source` with `replacement`.
pub fn replace_owning(source: String, regex: &onig::Regex, replacement: &str) -> (text: String)
    ensures
        text@ == replaced_first(
            onig_search(onig_source(*regex), source@),
            source@,
            replacement@,
        ),
{
    let found = onig_find(regex, source.as_str());
    replace_found(source, found, replacement)
}

/// `s` with a backslash in front of each double quote.
pub open spec fn escaped_quotes(s: Seq<char>) -> Seq<char>
    decreases s.len(),
{
    if s.len() == 0 {
        Seq::empty()
    } else if s[0] == '"' {
        seq!['\\', '"'] + escaped_quotes(s.drop_first())
    } else {
        seq![s[0]] + escaped_quotes(s.drop_first())
    }
}

/// Puts a backslash in front of each double quote.
pub fn escape_quotes(s: &[char]) -> (out: Vec<char>)
    ensures
        out@ == escaped_quotes(s@),
{
    let mut out: Vec<char> = Vec::new();
    let mut i: usize = 0;
    proof {
        assert(s@.skip(0) == s@);
        assert(out@ + escaped_quotes(s@) == escaped_quotes(s@));
    }
    while i < s.len()
        invariant
            i <= s@.len(),
            out@ + escaped_quotes(s@.skip(i as int)) == escaped_quotes(s@),
        decreases s.len() - i,
    {
        let ghost rest = s@.skip(i as int);
        let ghost grown = out@;
        proof {
            assert(rest[0] == s@[i as int]);
            assert(rest.drop_first() == s@.skip(i + 1));
        }
        if s[i] == '"' {
            out.push('\\');
            out.push('"');
            proof {
                assert(out@ == grown + seq!['\\', '"']);
                assert(out@ + escaped_quotes(s@.skip(i + 1)) == grown + escaped_quotes(rest));
            }
        } else {
            out.push(s[i]);
            proof {
                assert(out@ == grown + seq![s@[i as int]]);
                assert(out@ + escaped_quotes(s@.skip(i + 1)) == grown + escaped_quotes(rest));
            }
        }
        i += 1;
    }
    proof {
        assert(s@.skip(s@.len() as int).len() == 0);
        assert(out@ + Seq::<char>::empty() == out@);
    }
    out
}

/// Whether a name is a placeholder of the reference site: a text in square
/// brackets.
pub open spec fn is_placeholder(s: Seq<char>) -> bool {
    s.len() >= 2 && s[0] == '[' && s.last() == ']'
}

/// The text to store for a name, and whether it is a real translation: a
/// placeholder loses its brackets and is no real translation.
pub open spec fn classified(s: Seq<char>) -> (Seq<char>, bool) {
    if is_placeholder(s) {
        (s.subrange(1, s.len() - 1), false)
    } else {
        (s, true)
    }
}

/// Tells a placeholder from a real translation.
pub fn classify(s: &[char]) -> (r: (String, bool))
    ensures
        (r.0@, r.1) == classified(s@),
{
    let n: usize = s.len();
    if n >= 2 && s[0] == '[' && s[n - 1] == ']' {
        (to_text(slice_subrange(s, 1, n - 1)), false)
    } else {
        (to_text(s), true)
    }
}

/// The translation that the heading text `found` applied to `title` gives:
/// the subtitle that the pattern found is cut off, quotes are escaped, and a
/// placeholder is told from a real translation.
pub open spec fn translation_of(
    found: Option<(Seq<char>, Seq<Option<Seq<char>>>, Seq<char>)>,
    title: Seq<char>,
) -> (Seq<char>, bool) {
    classified(escaped_quotes(replaced_first(found, title, Seq::empty())))
}

/// The compiled pattern of a subtitle.
pub struct TitlePattern {
    subtitle: onig::Regex,
}

impl TitlePattern {
    #[verifier::type_invariant]
    spec fn compiled_from_source(self) -> bool {
        onig_source(self.subtitle) == TITLE_PATTERN@
    }

    /// The source that the pattern was compiled from.
    pub closed spec fn source(&self) -> Seq<char> {
        onig_source(self.subtitle)
    }

    /// Compiles [`TITLE_PATTERN`]; `None` when `onig` refuses it.
    pub fn new() -> (pattern: Option<Self>)
        ensures
            pattern is Some ==> pattern.unwrap().source() == TITLE_PATTERN@,
    {
        Self::from_compiled(compile_onig(TITLE_PATTERN))
    }

    /// Takes the subtitle pattern as it came out of compilation: there is a
    /// pattern exactly when it compiled.
    pub fn from_compiled(subtitle: Option<onig::Regex>) -> (pattern: Option<Self>)
        requires
            subtitle is Some ==> onig_source(subtitle.unwrap()) == TITLE_PATTERN@,
        ensures
            pattern is Some <==> subtitle is Some,
            pattern is Some ==> pattern.unwrap().source() == TITLE_PATTERN@,
    {
        match subtitle {
            Some(subtitle) => Some(TitlePattern { subtitle }),
            None => None,
        }
    }

    /// Turns the heading text `title` of a page into the text to store and
    /// whether it is a real translation.
    pub fn translate(&self, title: String) -> (r: (String, bool))
        ensures
            (r.0@, r.1) == translation_of(onig_search(TITLE_PATTERN@, title@), title@),
    {
        proof {
            use_type_invariant(self);
        }
        let cut = replace_owning(title, &self.subtitle, "");
        proof {
            reveal_strlit("");
            assert(""@ == Seq::<char>::empty());
        }
        let chars = to_chars(cut.as_str());
        let escaped = escape_quotes(chars.as_slice());
        classify(escaped.as_slice())
    }
}

} // verus!
