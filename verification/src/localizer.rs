//! Planning the work of a run: which languages there are, which names each
//! of them still needs, and what becomes of each lookup.

use crate::fetch::{
    first_heading, name_of_heading, page_name, translation_of, TitlePattern, HEADING_CLASS,
    NOT_FOUND_CLASS, SEARCH_FORM_TAG, TITLE_PATTERN,
};
use crate::merge::{discard_existing, untranslated, LocalePatterns};
use crate::pattern::onig_search;
use crate::progress::{Event, EventView};
use crate::extract::{entries_view, CorrelatedEntry};
use crate::table::{
    copy_id_table, id_count, id_entries, insert_id, insert_translation, new_id_table,
    new_translation_table, translation_entries, with_entry,
};
use crate::text::{push_str, to_text};
use indexmap::IndexMap;
use vstd::prelude::*;

verus! {

/// A language of the reference site.
#[derive(Clone, Debug, PartialEq, Eq)]
pub struct Language {
    /// The part of the site's address that serves the language.
    pub subdomain: String,
    /// The locale code, which names the language's file.
    pub code: String,
    /// The expression that marks the language's block in its file.
    pub header: String,
}

pub ghost struct LanguageView {
    pub subdomain: Seq<char>,
    pub code: Seq<char>,
    pub header: Seq<char>,
}

impl Language {
    pub open spec fn view(&self) -> LanguageView {
        LanguageView { subdomain: self.subdomain@, code: self.code@, header: self.header@ }
    }
}

/// The header of a language with one locale code.
pub open spec fn plain_header(module_name: Seq<char>, code: Seq<char>) -> Seq<char> {
    "L = BigWigs:NewBossLocale(\""@ + module_name + "\", \""@ + code + "\")"@
}

/// The header of Spanish, which serves two locale codes.
pub open spec fn spanish_header(module_name: Seq<char>) -> Seq<char> {
    "L = BigWigs:NewBossLocale(\""@ + module_name + "\", \"esES\") or BigWigs:NewBossLocale(\""@
        + module_name + "\", \"esMX\")"@
}

/// A language with one locale code.
pub open spec fn plain_language(subdomain: Seq<char>, code: Seq<char>, module_name: Seq<char>) -> LanguageView {
    LanguageView { subdomain, code, header: plain_header(module_name, code) }
}

/// The eight languages, with their headers for the module `module_name`.
pub open spec fn languages(module_name: Seq<char>) -> Seq<LanguageView> {
    seq![
        plain_language("de"@, "deDE"@, module_name),
        LanguageView { subdomain: "es"@, code: "esES"@, header: spanish_header(module_name) },
        plain_language("fr"@, "frFR"@, module_name),
        plain_language("it"@, "itIT"@, module_name),
        plain_language("pt"@, "ptBR"@, module_name),
        plain_language("ru"@, "ruRU"@, module_name),
        plain_language("ko"@, "koKR"@, module_name),
        plain_language("cn"@, "zhCN"@, module_name),
    ]
}

pub open spec fn languages_view(list: Seq<Language>) -> Seq<LanguageView> {
    list.map_values(|l: Language| l@)
}

fn plain(subdomain: &str, code: &str, module_name: &str) -> (language: Language)
    ensures
        language@ == plain_language(subdomain@, code@, module_name@),
{
    let mut header: Vec<char> = Vec::new();
    push_str(&mut header, "L = BigWigs:NewBossLocale(\"");
    push_str(&mut header, module_name);
    push_str(&mut header, "\", \"");
    push_str(&mut header, code);
    push_str(&mut header, "\")");
    assert(header@ == plain_header(module_name@, code@));
    Language {
        subdomain: String::from_str(subdomain),
        code: String::from_str(code),
        header: to_text(header.as_slice()),
    }
}

/// The eight languages, with their headers for the module `module_name`.
pub fn language_table(module_name: &str) -> (table: Vec<Language>)
    ensures
        languages_view(table@) == languages(module_name@),
{
    let mut spanish: Vec<char> = Vec::new();
    push_str(&mut spanish, "L = BigWigs:NewBossLocale(\"");
    push_str(&mut spanish, module_name);
    push_str(&mut spanish, "\", \"esES\") or BigWigs:NewBossLocale(\"");
    push_str(&mut spanish, module_name);
    push_str(&mut spanish, "\", \"esMX\")");
    assert(spanish@ == spanish_header(module_name@));
    let mut table: Vec<Language> = Vec::new();
    table.push(plain("de", "deDE", module_name));
    table.push(
        Language {
            subdomain: String::from_str("es"),
            code: String::from_str("esES"),
            header: to_text(spanish.as_slice()),
        },
    );
    table.push(plain("fr", "frFR", module_name));
    table.push(plain("it", "itIT", module_name));
    table.push(plain("pt", "ptBR", module_name));
    table.push(plain("ru", "ruRU", module_name));
    table.push(plain("ko", "koKR", module_name));
    table.push(plain("cn", "zhCN", module_name));
    assert(languages_view(table@) == languages(module_name@));
    table
}

/// The table of names that `entries` make up: each name with its identifier,
/// in the order of the entries; a name that comes again keeps its place and
/// takes the later identifier.
pub open spec fn table_of(entries: Seq<(Seq<char>, i64)>) -> Seq<(Seq<char>, i64)>
    decreases entries.len(),
{
    if entries.len() == 0 {
        Seq::empty()
    } else {
        with_entry(table_of(entries.drop_last()), entries.last().0, entries.last().1)
    }
}

/// Makes the table of names that a run works on out of the entries of an
/// extraction.
pub fn name_table(entries: &Vec<CorrelatedEntry>) -> (table: IndexMap<String, i64>)
    ensures
        id_entries(table) == table_of(entries_view(entries@)),
{
    let ghost all = entries_view(entries@);
    let mut table = new_id_table();
    let mut i: usize = 0;
    proof {
        assert(all.take(0).len() == 0);
    }
    while i < entries.len()
        invariant
            i <= entries@.len(),
            all == entries_view(entries@),
            id_entries(table) == table_of(all.take(i as int)),
        decreases entries.len() - i,
    {
        proof {
            assert(all.take(i + 1).drop_last() == all.take(i as int));
            assert(all.take(i + 1).last() == entries@[i as int]@);
        }
        let _ = insert_id(&mut table, entries[i].variable_name.clone(), entries[i].id);
        i += 1;
    }
    proof {
        assert(all.take(entries@.len() as int) == all);
    }
    table
}

/// A language with the names that are to be looked up for it.
#[derive(Debug)]
pub struct LanguageData {
    pub subdomain: String,
    pub code: String,
    pub header: String,
    /// The names to look up, each with its identifier.
    pub ids_map: IndexMap<String, i64>,
}

pub ghost struct LanguageDataView {
    pub language: LanguageView,
    pub ids: Seq<(Seq<char>, i64)>,
}

impl LanguageData {
    pub open spec fn view(&self) -> LanguageDataView {
        LanguageDataView {
            language: LanguageView {
                subdomain: self.subdomain@,
                code: self.code@,
                header: self.header@,
            },
            ids: id_entries(self.ids_map),
        }
    }
}

pub open spec fn data_view(list: Seq<LanguageData>) -> Seq<LanguageDataView> {
    list.map_values(|d: LanguageData| d@)
}

/// The names that are to be looked up for a language: all of `ids`, without
/// those that the language's file, where its text is at hand, translates
/// already.
pub open spec fn work_set(
    ids: Seq<(Seq<char>, i64)>,
    header: Seq<char>,
    existing: Option<Seq<char>>,
) -> Seq<(Seq<char>, i64)> {
    match existing {
        Some(text) => untranslated(text, header, ids),
        None => ids,
    }
}

pub open spec fn existing_view(text: Option<String>) -> Option<Seq<char>> {
    match text {
        Some(t) => Some(t@),
        None => None,
    }
}

pub open spec fn sources_view(list: Seq<(Language, Option<String>)>) -> Seq<
    (LanguageView, Option<Seq<char>>),
> {
    list.map_values(|p: (Language, Option<String>)| (p.0@, existing_view(p.1)))
}

/// The work of a run: each language with its work set, in order; a language
/// whose work set is empty is left out.
pub open spec fn planned(
    sources: Seq<(LanguageView, Option<Seq<char>>)>,
    ids: Seq<(Seq<char>, i64)>,
) -> Seq<LanguageDataView>
    decreases sources.len(),
{
    if sources.len() == 0 {
        Seq::empty()
    } else {
        let language = sources.last().0;
        let work = work_set(ids, language.header, sources.last().1);
        if work.len() == 0 {
            planned(sources.drop_last(), ids)
        } else {
            planned(sources.drop_last(), ids).push(LanguageDataView { language, ids: work })
        }
    }
}

/// The number of names in all work sets together.
pub open spec fn total_names(data: Seq<LanguageDataView>) -> nat
    decreases data.len(),
{
    if data.len() == 0 {
        0
    } else {
        total_names(data.drop_last()) + data.last().ids.len()
    }
}

/// The work of a run.
#[derive(Debug)]
pub struct Localizer {
    pub data: Vec<LanguageData>,
    pub output_dir: String,
}

impl Localizer {
    /// Plans a run. `sources` holds each language with the text of its file;
    /// the text is `None` where the file cannot be read or everything is to
    /// be looked up again.
    pub fn plan(
        sources: Vec<(Language, Option<String>)>,
        ids_map: &IndexMap<String, i64>,
        output_dir: String,
        patterns: &LocalePatterns,
    ) -> (localizer: Self)
        ensures
            data_view(localizer.data@) == planned(sources_view(sources@), id_entries(*ids_map)),
            localizer.output_dir@ == output_dir@,
    {
        let ghost all = sources_view(sources@);
        let ghost ids = id_entries(*ids_map);
        let mut data: Vec<LanguageData> = Vec::new();
        let mut i: usize = 0;
        proof {
            assert(all.take(0).len() == 0);
            assert(data_view(data@) == Seq::<LanguageDataView>::empty());
        }
        while i < sources.len()
            invariant
                i <= sources@.len(),
                all == sources_view(sources@),
                ids == id_entries(*ids_map),
                data_view(data@) == planned(all.take(i as int), ids),
            decreases sources.len() - i,
        {
            let language = &sources[i].0;
            let mut work = copy_id_table(ids_map);
            match &sources[i].1 {
                Some(text) => {
                    discard_existing(text.as_str(), language.header.as_str(), &mut work, patterns);
                },
                None => {},
            }
            proof {
                assert(all.take(i + 1).drop_last() == all.take(i as int));
                assert(all.take(i + 1).last() == all[i as int]);
                assert(all[i as int] == (sources@[i as int].0@, existing_view(sources@[i as int].1)));
            }
            if id_count(&work) > 0 {
                let ghost before = data_view(data@);
                let entry = LanguageData {
                    subdomain: language.subdomain.clone(),
                    code: language.code.clone(),
                    header: language.header.clone(),
                    ids_map: work,
                };
                let ghost added = entry@;
                data.push(entry);
                assert(data_view(data@) == before.push(added));
            }
            i += 1;
        }
        proof {
            assert(all.take(sources@.len() as int) == all);
        }
        Localizer { data, output_dir }
    }

    /// The number of names in all work sets together; `None` when it is more
    /// than a `usize` holds.
    pub fn total(&self) -> (n: Option<usize>)
        ensures
            match n {
                Some(n) => n == total_names(data_view(self.data@)),
                None => total_names(data_view(self.data@)) > usize::MAX,
            },
    {
        let ghost all = data_view(self.data@);
        let mut sum: usize = 0;
        let mut i: usize = 0;
        proof {
            assert(all.take(0).len() == 0);
        }
        while i < self.data.len()
            invariant
                i <= self.data@.len(),
                all == data_view(self.data@),
                sum == total_names(all.take(i as int)),
            decreases self.data.len() - i,
        {
            let count = id_count(&self.data[i].ids_map);
            proof {
                assert(all.take(i + 1).drop_last() == all.take(i as int));
                assert(all.take(i + 1).last() == self.data@[i as int]@);
            }
            if count > usize::MAX - sum {
                proof {
                    lemma_total_names_prefix(all, i + 1);
                }
                return None;
            }
            sum = sum + count;
            i += 1;
        }
        proof {
            assert(all.take(self.data@.len() as int) == all);
        }
        Some(sum)
    }
}

/// All work sets together hold at least as many names as the first ones.
pub proof fn lemma_total_names_prefix(data: Seq<LanguageDataView>, i: int)
    requires
        0 <= i <= data.len(),
    ensures
        total_names(data.take(i)) <= total_names(data),
    decreases data.len() - i,
{
    if i < data.len() {
        lemma_total_names_prefix(data, i + 1);
        assert(data.take(i + 1).drop_last() == data.take(i));
    } else {
        assert(data.take(i) == data);
    }
}

/// What becomes of the lookup of one name: the event to report, and the
/// translation to store, if there is one. `page` is the text of the page that
/// was fetched, or the reason why none was.
pub open spec fn lookup_outcome(
    code: Seq<char>,
    name: Seq<char>,
    page: Result<Seq<char>, Seq<char>>,
) -> (EventView, Option<(Seq<char>, (Seq<char>, bool))>) {
    match page {
        Err(reason) => (EventView::DataError { language: code, name, reason }, None),
        Ok(html) => match name_of_heading(
            first_heading(html, HEADING_CLASS@, SEARCH_FORM_TAG@, NOT_FOUND_CLASS@),
        ) {
            Err(problem) => (
                EventView::DataError { language: code, name, reason: problem.message_text() },
                None,
            ),
            Ok(title) => (
                EventView::Fetched,
                Some((name, translation_of(onig_search(TITLE_PATTERN@, title), title))),
            ),
        },
    }
}

pub open spec fn page_view(page: Result<String, String>) -> Result<Seq<char>, Seq<char>> {
    match page {
        Ok(html) => Ok(html@),
        Err(reason) => Err(reason@),
    }
}

pub open spec fn entry_view(entry: Option<(String, (String, bool))>) -> Option<
    (Seq<char>, (Seq<char>, bool)),
> {
    match entry {
        Some(e) => Some((e.0@, (e.1.0@, e.1.1))),
        None => None,
    }
}

/// Turns the page that was fetched for `name`, or the reason why none was,
/// into the event to report and the translation to store.
pub fn settle_lookup(
    code: &str,
    name: String,
    page: Result<String, String>,
    pattern: &TitlePattern,
) -> (outcome: (Event, Option<(String, (String, bool))>))
    ensures
        (outcome.0@, entry_view(outcome.1)) == lookup_outcome(code@, name@, page_view(page)),
{
    match page {
        Err(reason) => (
            Event::DataError { language: String::from_str(code), name, reason },
            None,
        ),
        Ok(html) => match page_name(html.as_str()) {
            Err(problem) => (
                Event::DataError {
                    language: String::from_str(code),
                    name,
                    reason: problem.message(),
                },
                None,
            ),
            Ok(title) => {
                let translation = pattern.translate(title);
                (Event::Fetched, Some((name, translation)))
            },
        },
    }
}

/// The table of the translations among `outcomes`, in order.
pub open spec fn gathered(outcomes: Seq<Option<(Seq<char>, (Seq<char>, bool))>>) -> Seq<
    (Seq<char>, (Seq<char>, bool)),
>
    decreases outcomes.len(),
{
    if outcomes.len() == 0 {
        Seq::empty()
    } else {
        match outcomes.last() {
            Some(e) => with_entry(gathered(outcomes.drop_last()), e.0, e.1),
            None => gathered(outcomes.drop_last()),
        }
    }
}

pub open spec fn outcomes_view(list: Seq<Option<(String, (String, bool))>>) -> Seq<
    Option<(Seq<char>, (Seq<char>, bool))>,
> {
    list.map_values(|e: Option<(String, (String, bool))>| entry_view(e))
}

/// Gathers the translations of a language into a table; a lookup that gave
/// none leaves no trace.
pub fn gather(outcomes: &Vec<Option<(String, (String, bool))>>) -> (table: IndexMap<
    String,
    (String, bool),
>)
    ensures
        translation_entries(table) == gathered(outcomes_view(outcomes@)),
{
    let ghost all = outcomes_view(outcomes@);
    let mut table = new_translation_table();
    let mut i: usize = 0;
    proof {
        assert(all.take(0).len() == 0);
    }
    while i < outcomes.len()
        invariant
            i <= outcomes@.len(),
            all == outcomes_view(outcomes@),
            translation_entries(table) == gathered(all.take(i as int)),
        decreases outcomes.len() - i,
    {
        proof {
            assert(all.take(i + 1).drop_last() == all.take(i as int));
            assert(all.take(i + 1).last() == entry_view(outcomes@[i as int]));
        }
        match &outcomes[i] {
            Some(entry) => {
                let _ = insert_translation(
                    &mut table,
                    entry.0.clone(),
                    entry.1.0.clone(),
                    entry.1.1,
                );
            },
            None => {},
        }
        i += 1;
    }
    proof {
        assert(all.take(outcomes@.len() as int) == all);
    }
    table
}

} // verus!
