use localize_npc_names::fetch::{
    classify, escape_quotes, heading_name, lookup_url, page_name, replace_found, replace_owning,
    request_headers,
    DataProblem, Frame, Heading, TitlePattern, DEFAULT_USER_AGENT, REDIRECT_LIMIT,
    REQUEST_TIMEOUT_SECS,
};
use localize_npc_names::pattern::Found;

fn chars(s: &str) -> Vec<char> {
    s.chars().collect()
}

fn text(v: Vec<char>) -> String {
    v.into_iter().collect()
}

#[test]
fn a_bracketed_name_is_a_placeholder() {
    let pattern = TitlePattern::new().unwrap();
    assert_eq!(pattern.translate("[Unnamed]".to_string()), ("Unnamed".to_string(), false));
}

#[test]
fn a_plain_name_is_a_real_translation() {
    let pattern = TitlePattern::new().unwrap();
    assert_eq!(pattern.translate("Bob".to_string()), ("Bob".to_string(), true));
    assert_eq!(pattern.translate(String::new()), (String::new(), true));
}

#[test]
fn a_subtitle_is_cut_off() {
    let pattern = TitlePattern::new().unwrap();
    assert_eq!(pattern.translate("Bob <The Builder>".to_string()), ("Bob".to_string(), true));
    assert_eq!(pattern.translate("Bob<The Builder>".to_string()), ("Bob<The Builder>".to_string(), true));
    assert_eq!(pattern.translate("[Bob] \t<x>".to_string()), ("Bob".to_string(), false));
}

#[test]
fn quotes_are_escaped_before_brackets_are_looked_at() {
    let pattern = TitlePattern::new().unwrap();
    assert_eq!(
        pattern.translate("Bob \"the\" Builder <Boss>".to_string()),
        ("Bob \\\"the\\\" Builder".to_string(), true)
    );
    assert_eq!(pattern.translate("[\"]".to_string()), ("\\\"".to_string(), false));
}

#[test]
fn escaping_puts_a_backslash_in_front_of_each_quote() {
    assert_eq!(text(escape_quotes(&chars("a\"b\"\""))), "a\\\"b\\\"\\\"");
    assert_eq!(text(escape_quotes(&chars("plain"))), "plain");
    assert_eq!(text(escape_quotes(&[])), "");
}

#[test]
fn brackets_make_a_placeholder_only_at_both_ends() {
    assert_eq!(classify(&chars("[x]")), ("x".to_string(), false));
    assert_eq!(classify(&chars("[]")), (String::new(), false));
    assert_eq!(classify(&chars("[")), ("[".to_string(), true));
    assert_eq!(classify(&chars("]")), ("]".to_string(), true));
    assert_eq!(classify(&chars("[x")), ("[x".to_string(), true));
    assert_eq!(classify(&chars("x]")), ("x]".to_string(), true));
    assert_eq!(classify(&chars("")), (String::new(), true));
    assert_eq!(classify(&chars("[a][b]")), ("a][b".to_string(), false));
}

#[test]
fn the_first_match_is_replaced() {
    let re = onig::Regex::new("b+").unwrap();
    assert_eq!(replace_owning("aabbbcbb".to_string(), &re, "-"), "aa-cbb");
    assert_eq!(replace_owning("aaa".to_string(), &re, "-"), "aaa");
    assert_eq!(replace_owning("\u{e9}b\u{e9}".to_string(), &re, ""), "\u{e9}\u{e9}");
}

#[test]
fn what_was_found_is_replaced() {
    let found = Found {
        before: "ab".to_string(),
        groups: vec![Some("cd".to_string())],
        after: "ef".to_string(),
    };
    assert_eq!(replace_found("abcdef".to_string(), Some(found), "-"), "ab-ef");
    assert_eq!(replace_found("abcdef".to_string(), None, "-"), "abcdef");
}

#[test]
fn the_address_of_a_page() {
    assert_eq!(lookup_url("de", 12345), "https://de.wowhead.com/npc=12345");
    assert_eq!(lookup_url("cn", 0), "https://cn.wowhead.com/npc=0");
    assert_eq!(lookup_url("ko", -7), "https://ko.wowhead.com/npc=-7");
    assert_eq!(
        lookup_url("fr", i64::MIN),
        "https://fr.wowhead.com/npc=-9223372036854775808"
    );
}

#[test]
fn a_page_with_a_heading_gives_its_text() {
    let html = "<html><body><div id=\"main\"><div><h1 class=\"heading-size-1\">Bob <b>the</b> Builder</h1></div></div></body></html>";
    assert_eq!(page_name(html), Ok("Bob the Builder".to_string()));
}

#[test]
fn the_first_heading_counts() {
    let html = "<div><div><h1 class=\"heading-size-1 big\">First</h1></div></div><div><div><h1 class=\"heading-size-1\">Second</h1></div></div>";
    assert_eq!(page_name(html), Ok("First".to_string()));
}

#[test]
fn a_page_without_a_heading_is_a_problem() {
    assert_eq!(page_name("<html><body><h1>Bob</h1></body></html>"), Err(DataProblem::NoHeading));
    assert_eq!(page_name(""), Err(DataProblem::NoHeading));
}

#[test]
fn the_search_page_is_no_npc() {
    let html = "<html><body><form action=\"/search\"><div><h1 class=\"heading-size-1\">Search</h1></div></form></body></html>";
    assert_eq!(page_name(html), Err(DataProblem::NotAnNpc));
}

#[test]
fn a_page_with_a_not_found_notice_is_no_npc() {
    let html = "<html><body><div><div class=\"database-detail-page-not-found-message\">gone</div><div><h1 class=\"heading-size-1\">NPCs</h1></div></div></body></html>";
    assert_eq!(page_name(html), Err(DataProblem::NotAnNpc));
}

#[test]
fn a_notice_elsewhere_on_the_page_does_not_count() {
    let html = "<html><body><div class=\"database-detail-page-not-found-message\">gone</div><div><div><h1 class=\"heading-size-1\">Bob</h1></div></div></body></html>";
    assert_eq!(page_name(html), Ok("Bob".to_string()));
}

#[test]
fn the_name_of_a_heading() {
    let heading = |frame| Some(Heading { text: "Bob".to_string(), frame });
    assert_eq!(heading_name(None), Err(DataProblem::NoHeading));
    assert_eq!(heading_name(heading(None)), Ok("Bob".to_string()));
    assert_eq!(
        heading_name(heading(Some(Frame { is_form: false, notices: vec![] }))),
        Ok("Bob".to_string())
    );
    assert_eq!(
        heading_name(heading(Some(Frame { is_form: false, notices: vec![false, false] }))),
        Ok("Bob".to_string())
    );
    assert_eq!(
        heading_name(heading(Some(Frame { is_form: true, notices: vec![] }))),
        Err(DataProblem::NotAnNpc)
    );
    assert_eq!(
        heading_name(heading(Some(Frame { is_form: false, notices: vec![false, true, false] }))),
        Err(DataProblem::NotAnNpc)
    );
}

#[test]
fn the_problems_in_words() {
    assert_eq!(DataProblem::NoHeading.message(), "Couldn't find an element .heading-size-1");
    assert_eq!(DataProblem::NotAnNpc.message(), "Not a valid NPC ID");
}

#[test]
fn the_limits_of_a_request() {
    assert_eq!(REQUEST_TIMEOUT_SECS, 30);
    assert_eq!(REDIRECT_LIMIT, 5);
    assert!(DEFAULT_USER_AGENT.starts_with("Mozilla/5.0"));
}

#[test]
fn the_headers_of_a_request() {
    let headers = request_headers("agent/1.0");
    let pair = |n: &str, v: &str| (n.to_string(), v.to_string());
    assert_eq!(
        headers,
        vec![
            pair("accept", "text/html,application/xhtml+xml,application/xml;q=0.9"),
            pair("accept-encoding", "gzip, deflate"),
            pair("accept-language", "en-US,en;q=0.9"),
            pair("sec-fetch-dest", "document"),
            pair("sec-fetch-mode", "navigate"),
            pair("sec-fetch-site", "same-site"),
            pair("sec-fetch-user", "?1"),
            pair("upgrade-insecure-requests", "1"),
            pair("user-agent", "agent/1.0"),
        ]
    );
}

#[test]
fn the_title_pattern_is_there_when_it_compiled() {
    assert!(TitlePattern::from_compiled(None).is_none());
    assert!(TitlePattern::new().is_some());
    let compiled = onig::Regex::new(localize_npc_names::fetch::TITLE_PATTERN).ok();
    let pattern = TitlePattern::from_compiled(compiled).unwrap();
    assert_eq!(pattern.translate("Bob <x>".to_string()), ("Bob".to_string(), true));
}
