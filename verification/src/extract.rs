//! Reading the identifier table and the variable table out of a script, and
//! joining the two.
//!
//! A script holds a block that lists numeric identifiers with a comment each,
//!
//! ```text
//! mod:RegisterEnableMob(
//!     12345, -- Bob
//! )
//! ```
//!
//! and a block that gives variables a text each,
//!
//! ```text
//! if L then
//!     L.bob = "Bob"
//! end
//! ```
//!
//! A variable and an identifier belong together when the text of the one is
//! the comment of the other.

use crate::merge::closes_block;
use crate::merge::is_block_end;
use crate::number::{parse_id, parsed_id};
use crate::pattern::{captures_view, compile_regex, regex_captures, regex_groups, regex_source};
use crate::table::{
    id_entries, id_list, id_pairs, insert_id, key_index, new_id_table, remove_id, with_entry,
};
use crate::text::{
    contains_char, has_prefix, lemma_lines_from_step, line_at, line_view, lines_from, lines_of,
    same_text, starts_with, to_chars, to_text, trim, trimmed, LineView,
};
use indexmap::IndexMap;
use vstd::prelude::*;
use vstd::slice::slice_subrange;

verus! {

/// What a line begins with that opens the identifier block.
pub const IDS_START: &'static str = "mod:RegisterEnableMob(";

/// The line that opens the variable block.
pub const VARS_START: &'static str = "if L then";

/// Pattern of an identifier line read with its terminator: the number, the comment.
pub const ID_PATTERN: &'static str = r#"^\s*(\d+),?\s*--\s*(.+?)\n?$"#;

/// Pattern of a variable line: the name, the quoted text.
pub const VARIABLE_PATTERN: &'static str = r#"^\s*L\.(\w+)\s*=\s*"(.+)""#;

/// Pattern of the line that declares the module: the module's name.
pub const MODULE_PATTERN: &'static str =
    r#"^\s*local\s*mod(?:,\s*CL)?\s*=\s*BigWigs:NewBoss\("(.*?)""#;

/// Pattern of an identifier line read without its terminator.
pub const BATCH_ID_PATTERN: &'static str = r#"^\s*(\d+),?\s*--\s*(.+)$"#;

/// Pattern of a variable line whose text ends at the first closing quote.
pub const BATCH_VARIABLE_PATTERN: &'static str = r#"^\s*L\.(\w+)\s*=\s*"(.+?)""#;

/// Pattern of the line that declares a module whose name ends in ` Trash`: the
/// name in front of that ending.
pub const BATCH_MODULE_PATTERN: &'static str =
    r#"^\s*local\s*mod(?:,\s*CL)?\s*=\s*BigWigs:NewBoss\("(.*?)(?: Trash)""#;

/// The sources of the three patterns that read a script.
pub ghost struct PatternSources {
    pub id: Seq<char>,
    pub variable: Seq<char>,
    pub module: Seq<char>,
}

/// The compiled patterns that read a script.
pub struct ScriptPatterns {
    id: regex::Regex,
    variable: regex::Regex,
    module: regex::Regex,
}

impl ScriptPatterns {
    /// The sources that the patterns were compiled from.
    pub closed spec fn sources(&self) -> PatternSources {
        PatternSources {
            id: regex_source(self.id),
            variable: regex_source(self.variable),
            module: regex_source(self.module),
        }
    }

    /// Compiles three patterns; `None` when one of them is refused.
    pub fn compile(id: &str, variable: &str, module: &str) -> (patterns: Option<Self>)
        ensures
            patterns is Some ==> patterns.unwrap().sources() == (PatternSources {
                id: id@,
                variable: variable@,
                module: module@,
            }),
    {
        Self::from_compiled(
            compile_regex(id),
            compile_regex(variable),
            compile_regex(module),
        )
    }

    /// The patterns for a single script, whose lines are read with their
    /// terminators: [`ID_PATTERN`], [`VARIABLE_PATTERN`] and
    /// [`MODULE_PATTERN`].
    pub fn single_file() -> (patterns: Option<Self>)
        ensures
            patterns is Some ==> patterns.unwrap().sources() == (PatternSources {
                id: ID_PATTERN@,
                variable: VARIABLE_PATTERN@,
                module: MODULE_PATTERN@,
            }),
    {
        Self::compile(ID_PATTERN, VARIABLE_PATTERN, MODULE_PATTERN)
    }

    /// The patterns for the scripts of a directory, whose lines are read
    /// without their terminators.
    pub fn batch() -> (patterns: Option<Self>)
        ensures
            patterns is Some ==> patterns.unwrap().sources() == (PatternSources {
                id: BATCH_ID_PATTERN@,
                variable: BATCH_VARIABLE_PATTERN@,
                module: BATCH_MODULE_PATTERN@,
            }),
    {
        Self::compile(BATCH_ID_PATTERN, BATCH_VARIABLE_PATTERN, BATCH_MODULE_PATTERN)
    }

    /// Puts three patterns together as they came out of compilation: there
    /// are patterns to read a script exactly when each of the three compiled.
    pub fn from_compiled(
        id: Option<regex::Regex>,
        variable: Option<regex::Regex>,
        module: Option<regex::Regex>,
    ) -> (patterns: Option<Self>)
        ensures
            patterns is Some <==> id is Some && variable is Some && module is Some,
            patterns is Some ==> patterns.unwrap().sources() == (PatternSources {
                id: regex_source(id.unwrap()),
                variable: regex_source(variable.unwrap()),
                module: regex_source(module.unwrap()),
            }),
    {
        match (id, variable, module) {
            (Some(id), Some(variable), Some(module)) => Some(
                ScriptPatterns { id, variable, module },
            ),
            _ => None,
        }
    }
}

/// How a script is scanned.
#[derive(Clone, Copy, Debug, PartialEq, Eq)]
pub struct ExtractOptions {
    /// The scan stops at the end of a block when this many blocks were counted
    /// before it.
    pub block_limit: usize,
    /// Whether the line that declares the module counts as a block.
    pub module_counts: bool,
    /// Whether the patterns see a line with its terminator.
    pub keep_line_ends: bool,
}

impl ExtractOptions {
    /// For a single script: one identifier block and one variable block.
    pub fn single_file() -> (options: Self)
        ensures
            options == (ExtractOptions {
                block_limit: 1,
                module_counts: false,
                keep_line_ends: true,
            }),
    {
        ExtractOptions { block_limit: 1, module_counts: false, keep_line_ends: true }
    }

    /// For the scripts of a directory: the module line counts as a block.
    pub fn batch() -> (options: Self)
        ensures
            options == (ExtractOptions {
                block_limit: 2,
                module_counts: true,
                keep_line_ends: false,
            }),
    {
        ExtractOptions { block_limit: 2, module_counts: true, keep_line_ends: false }
    }
}

/// Where a scan of a script stands.
#[derive(Clone, Copy, Debug, PartialEq, Eq, Structural)]
pub enum ParseState {
    Neither,
    ParsingIds,
    ParsingVars,
}

/// A line of the identifier block: the comment, and the identifier.
#[derive(Clone, Debug, PartialEq, Eq)]
pub struct RawIdentifier {
    pub comment: String,
    pub id: i64,
}

/// A line of the variable block: the quoted text, and the variable's name.
#[derive(Clone, Debug, PartialEq, Eq)]
pub struct RawVariable {
    pub text: String,
    pub variable_name: String,
}

/// A variable joined with the identifier whose comment is the variable's text.
#[derive(Clone, Debug, PartialEq, Eq)]
pub struct CorrelatedEntry {
    pub variable_name: String,
    pub id: i64,
}

pub ghost struct RawVariableView {
    pub text: Seq<char>,
    pub variable_name: Seq<char>,
}

impl RawVariable {
    pub open spec fn view(&self) -> RawVariableView {
        RawVariableView { text: self.text@, variable_name: self.variable_name@ }
    }
}

impl RawIdentifier {
    pub open spec fn view(&self) -> (Seq<char>, i64) {
        (self.comment@, self.id)
    }
}

impl CorrelatedEntry {
    pub open spec fn view(&self) -> (Seq<char>, i64) {
        (self.variable_name@, self.id)
    }
}

/// What the identifier pattern makes of a line.
#[derive(Clone, Debug, PartialEq, Eq)]
pub enum IdLine {
    /// The pattern does not match.
    NoMatch,
    /// The pattern matches, but the number is no `i64`.
    Malformed,
    /// An identifier with its comment.
    Entry(RawIdentifier),
}

pub ghost enum IdLineView {
    NoMatch,
    Malformed,
    Entry(Seq<char>, i64),
}

impl IdLine {
    pub open spec fn view(&self) -> IdLineView {
        match self {
            IdLine::NoMatch => IdLineView::NoMatch,
            IdLine::Malformed => IdLineView::Malformed,
            IdLine::Entry(e) => IdLineView::Entry(e.comment@, e.id),
        }
    }
}

/// The identifier line that a match of the identifier pattern stands for:
/// group 1 is the number, group 2 the comment, which is trimmed.
pub open spec fn identifier_of(groups: Option<Seq<Option<Seq<char>>>>) -> IdLineView {
    match groups {
        None => IdLineView::NoMatch,
        Some(g) => if g.len() >= 3 && g[1] is Some && g[2] is Some {
            match parsed_id(g[1].unwrap()) {
                Some(id) => IdLineView::Entry(trimmed(g[2].unwrap()), id),
                None => IdLineView::Malformed,
            }
        } else {
            IdLineView::Malformed
        },
    }
}

/// The variable line that a match of the variable pattern stands for: group 1
/// is the name, group 2 the text.
pub open spec fn variable_of(groups: Option<Seq<Option<Seq<char>>>>) -> Option<RawVariableView> {
    match groups {
        None => None,
        Some(g) => if g.len() >= 3 && g[1] is Some && g[2] is Some {
            Some(RawVariableView { text: g[2].unwrap(), variable_name: g[1].unwrap() })
        } else {
            None
        },
    }
}

/// What a line says about the module's name: `None` when the module pattern
/// does not match, else group 1 of the match.
pub open spec fn module_of(groups: Option<Seq<Option<Seq<char>>>>) -> Option<Option<Seq<char>>> {
    match groups {
        None => None,
        Some(g) => if g.len() >= 2 {
            Some(g[1])
        } else {
            Some(None)
        },
    }
}

/// Turns a match of the identifier pattern into an identifier line.
pub fn read_identifier(groups: Option<Vec<Option<String>>>) -> (line: IdLine)
    ensures
        line@ == identifier_of(captures_view(groups)),
{
    match groups {
        None => IdLine::NoMatch,
        Some(g) => {
            if g.len() < 3 {
                return IdLine::Malformed;
            }
            match (&g[1], &g[2]) {
                (Some(number), Some(comment)) => {
                    let digits = to_chars(number.as_str());
                    match parse_id(digits.as_slice()) {
                        Some(id) => {
                            let chars = to_chars(comment.as_str());
                            IdLine::Entry(
                                RawIdentifier { comment: to_text(trim(chars.as_slice())), id },
                            )
                        },
                        None => IdLine::Malformed,
                    }
                },
                _ => IdLine::Malformed,
            }
        },
    }
}

pub open spec fn variable_view(v: Option<RawVariable>) -> Option<RawVariableView> {
    match v {
        Some(v) => Some(v@),
        None => None,
    }
}

/// Turns a match of the variable pattern into a variable line.
pub fn read_variable(groups: Option<Vec<Option<String>>>) -> (line: Option<RawVariable>)
    ensures
        variable_view(line) == variable_of(captures_view(groups)),
{
    match groups {
        None => None,
        Some(g) => {
            if g.len() < 3 {
                return None;
            }
            match (&g[1], &g[2]) {
                (Some(name), Some(text)) => Some(
                    RawVariable { text: text.clone(), variable_name: name.clone() },
                ),
                _ => None,
            }
        },
    }
}

pub open spec fn name_view(name: Option<String>) -> Option<Seq<char>> {
    match name {
        Some(n) => Some(n@),
        None => None,
    }
}

pub open spec fn module_view(m: Option<Option<String>>) -> Option<Option<Seq<char>>> {
    match m {
        Some(n) => Some(name_view(n)),
        None => None,
    }
}

/// Turns a match of the module pattern into what it says about the module's name.
pub fn read_module(groups: Option<Vec<Option<String>>>) -> (module: Option<Option<String>>)
    ensures
        module_view(module) == module_of(captures_view(groups)),
{
    match groups {
        None => None,
        Some(g) => {
            if g.len() < 2 {
                return Some(None);
            }
            match &g[1] {
                Some(name) => Some(Some(name.clone())),
                None => Some(None),
            }
        },
    }
}

/// What a scan has gathered so far.
pub struct Scan {
    pub state: ParseState,
    /// Blocks counted so far.
    pub counted: usize,
    /// Whether the scan is over.
    pub stopped: bool,
    pub module_name: Option<String>,
    /// The identifier table, keyed by comment.
    pub ids: IndexMap<String, i64>,
    /// The variable lines, in the order of the script.
    pub vars: Vec<RawVariable>,
}

pub ghost struct ScanView {
    pub state: ParseState,
    pub counted: nat,
    pub stopped: bool,
    pub module_name: Option<Seq<char>>,
    pub ids: Seq<(Seq<char>, i64)>,
    pub vars: Seq<RawVariableView>,
}

/// The views of a list of variable lines.
pub open spec fn variables_view(vars: Seq<RawVariable>) -> Seq<RawVariableView> {
    vars.map_values(|v: RawVariable| v@)
}

impl Scan {
    pub open spec fn view(&self) -> ScanView {
        ScanView {
            state: self.state,
            counted: self.counted as nat,
            stopped: self.stopped,
            module_name: name_view(self.module_name),
            ids: id_entries(self.ids),
            vars: variables_view(self.vars@),
        }
    }

    /// A scan that has seen nothing.
    pub fn new() -> (scan: Self)
        ensures
            scan@ == scan_start(),
    {
        let scan = Scan {
            state: ParseState::Neither,
            counted: 0,
            stopped: false,
            module_name: None,
            ids: new_id_table(),
            vars: Vec::new(),
        };
        assert(variables_view(scan.vars@) == Seq::<RawVariableView>::empty());
        scan
    }
}

/// The scan in front of the first line.
pub open spec fn scan_start() -> ScanView {
    ScanView {
        state: ParseState::Neither,
        counted: 0,
        stopped: false,
        module_name: None,
        ids: Seq::empty(),
        vars: Seq::empty(),
    }
}

/// The text of a line that the patterns and the block markers are held against.
pub open spec fn pattern_text(line: LineView, options: ExtractOptions) -> Seq<char> {
    if options.keep_line_ends {
        line.raw()
    } else {
        line.content
    }
}

/// The scan after a block ended: it stops when the limit of counted blocks was
/// reached before, else the block is counted.
pub open spec fn block_closed(s: ScanView, options: ExtractOptions) -> ScanView {
    if s.counted == options.block_limit {
        ScanView { state: ParseState::Neither, stopped: true, ..s }
    } else {
        ScanView { state: ParseState::Neither, counted: s.counted + 1, ..s }
    }
}

/// The scan after one more line.
///
/// Outside the blocks, a line that begins with [`IDS_START`] opens the
/// identifier block, the line [`VARS_START`] opens the variable block, and a
/// line that declares the module gives the module's name. In the identifier
/// block an identifier line stores its identifier under its comment, and any
/// other line that holds `)` ends the block. In the variable block a variable
/// line is appended, and any other line that is `end` when trimmed ends the
/// block. All other lines are passed over.
pub open spec fn scan_step(
    s: ScanView,
    line: LineView,
    sources: PatternSources,
    options: ExtractOptions,
) -> ScanView {
    let text = pattern_text(line, options);
    match s.state {
        ParseState::Neither => if has_prefix(text, IDS_START@) {
            ScanView { state: ParseState::ParsingIds, ..s }
        } else if line.content == VARS_START@ {
            ScanView { state: ParseState::ParsingVars, ..s }
        } else {
            match module_of(regex_captures(sources.module, text)) {
                Some(name) => ScanView {
                    module_name: name,
                    counted: if options.module_counts {
                        s.counted + 1
                    } else {
                        s.counted
                    },
                    ..s
                },
                None => s,
            }
        },
        ParseState::ParsingIds => match identifier_of(regex_captures(sources.id, text)) {
            IdLineView::Entry(comment, id) => ScanView { ids: with_entry(s.ids, comment, id), ..s },
            IdLineView::Malformed => s,
            IdLineView::NoMatch => if text.contains(')') {
                block_closed(s, options)
            } else {
                s
            },
        },
        ParseState::ParsingVars => match variable_of(regex_captures(sources.variable, text)) {
            Some(v) => ScanView { vars: s.vars.push(v), ..s },
            None => if closes_block(text) {
                block_closed(s, options)
            } else {
                s
            },
        },
    }
}

/// The scan after `lines`; nothing is read once the scan has stopped.
pub open spec fn scan_lines(
    lines: Seq<LineView>,
    s: ScanView,
    sources: PatternSources,
    options: ExtractOptions,
) -> ScanView
    decreases lines.len(),
{
    if lines.len() == 0 || s.stopped {
        s
    } else {
        scan_lines(lines.drop_first(), scan_step(s, lines[0], sources, options), sources, options)
    }
}

fn close_block(scan: &mut Scan, options: &ExtractOptions)
    requires
        old(scan).counted < usize::MAX,
    ensures
        final(scan)@ == block_closed(old(scan)@, *options),
        final(scan).counted <= old(scan).counted + 1,
{
    scan.state = ParseState::Neither;
    if scan.counted == options.block_limit {
        scan.stopped = true;
    } else {
        scan.counted = scan.counted + 1;
    }
}

/// Feeds one line to the scan. `content` is the line without its terminator,
/// `raw` the line with it.
pub fn scan_line(
    scan: &mut Scan,
    content: &[char],
    raw: &[char],
    patterns: &ScriptPatterns,
    options: &ExtractOptions,
)
    requires
        old(scan).counted < usize::MAX,
        has_prefix(raw@, content@),
    ensures
        final(scan)@ == scan_step(
            old(scan)@,
            LineView { content: content@, ending: raw@.skip(content@.len() as int) },
            patterns.sources(),
            *options,
        ),
        final(scan).counted <= old(scan).counted + 1,
{
    let ghost line = LineView { content: content@, ending: raw@.skip(content@.len() as int) };
    proof {
        assert(line.raw() == raw@);
    }
    let text: &[char] = if options.keep_line_ends {
        raw
    } else {
        content
    };
    match scan.state {
        ParseState::Neither => {
            let ids_start = to_chars(IDS_START);
            let vars_start = to_chars(VARS_START);
            if starts_with(text, ids_start.as_slice()) {
                scan.state = ParseState::ParsingIds;
            } else if same_text(content, vars_start.as_slice()) {
                scan.state = ParseState::ParsingVars;
            } else {
                let as_text = to_text(text);
                match read_module(regex_groups(&patterns.module, as_text.as_str())) {
                    Some(name) => {
                        scan.module_name = name;
                        if options.module_counts {
                            scan.counted = scan.counted + 1;
                        }
                    },
                    None => {},
                }
            }
        },
        ParseState::ParsingIds => {
            let as_text = to_text(text);
            match read_identifier(regex_groups(&patterns.id, as_text.as_str())) {
                IdLine::Entry(entry) => {
                    let _ = insert_id(&mut scan.ids, entry.comment, entry.id);
                },
                IdLine::Malformed => {},
                IdLine::NoMatch => {
                    if contains_char(text, ')') {
                        close_block(scan, options);
                    }
                },
            }
        },
        ParseState::ParsingVars => {
            let as_text = to_text(text);
            match read_variable(regex_groups(&patterns.variable, as_text.as_str())) {
                Some(v) => {
                    let ghost before = variables_view(scan.vars@);
                    let ghost added = v@;
                    scan.vars.push(v);
                    assert(variables_view(scan.vars@) == before.push(added));
                },
                None => {
                    if is_block_end(text) {
                        close_block(scan, options);
                    }
                },
            }
        },
    }
}

/// The join of the variable lines with the identifier table.
pub ghost struct Correlation {
    /// A variable's name with the identifier whose comment is the variable's text.
    pub entries: Seq<(Seq<char>, i64)>,
    /// Name and text of each variable whose text is no identifier's comment.
    pub missing_vars: Seq<(Seq<char>, Seq<char>)>,
    /// Identifier and comment of each identifier that no variable took.
    pub missing_ids: Seq<(i64, Seq<char>)>,
}

/// The pairs of an identifier table, identifier first.
pub open spec fn flipped(ids: Seq<(Seq<char>, i64)>) -> Seq<(i64, Seq<char>)> {
    ids.map_values(|p: (Seq<char>, i64)| (p.1, p.0))
}

/// Joins `vars` with `ids`. Each variable, in order, takes the identifier
/// stored under its text out of the table; a variable that finds none is
/// missing its identifier, and the identifiers left at the end are missing
/// their variable.
pub open spec fn correlation(vars: Seq<RawVariableView>, ids: Seq<(Seq<char>, i64)>) -> Correlation
    decreases vars.len(),
{
    if vars.len() == 0 {
        Correlation { entries: Seq::empty(), missing_vars: Seq::empty(), missing_ids: flipped(ids) }
    } else {
        let v = vars[0];
        match key_index(ids, v.text) {
            Some(i) => {
                let rest = correlation(vars.drop_first(), ids.remove(i));
                Correlation { entries: seq![(v.variable_name, ids[i].1)] + rest.entries, ..rest }
            },
            None => {
                let rest = correlation(vars.drop_first(), ids);
                Correlation {
                    missing_vars: seq![(v.variable_name, v.text)] + rest.missing_vars,
                    ..rest
                }
            },
        }
    }
}

/// For each entry of the join, the index of the variable line that it came from.
pub open spec fn variable_sources(vars: Seq<RawVariableView>, ids: Seq<(Seq<char>, i64)>) -> Seq<
    int,
>
    decreases vars.len(),
{
    if vars.len() == 0 {
        Seq::empty()
    } else {
        match key_index(ids, vars[0].text) {
            Some(i) => seq![0int] + variable_sources(vars.drop_first(), ids.remove(i)).map_values(
                |k: int| k + 1,
            ),
            None => variable_sources(vars.drop_first(), ids).map_values(|k: int| k + 1),
        }
    }
}

/// For each entry of the join, the index in `ids` of the identifier that it took.
pub open spec fn identifier_sources(vars: Seq<RawVariableView>, ids: Seq<(Seq<char>, i64)>) -> Seq<
    int,
>
    decreases vars.len(),
{
    if vars.len() == 0 {
        Seq::empty()
    } else {
        match key_index(ids, vars[0].text) {
            Some(i) => seq![i] + identifier_sources(vars.drop_first(), ids.remove(i)).map_values(
                |k: int|
                    if k < i {
                        k
                    } else {
                        k + 1
                    },
            ),
            None => identifier_sources(vars.drop_first(), ids),
        }
    }
}

/// Every variable line is either joined or missing its identifier, and every
/// identifier is either joined or missing its variable.
pub proof fn lemma_correlation_counts(vars: Seq<RawVariableView>, ids: Seq<(Seq<char>, i64)>)
    ensures
        correlation(vars, ids).entries.len() + correlation(vars, ids).missing_vars.len()
            == vars.len(),
        correlation(vars, ids).entries.len() + correlation(vars, ids).missing_ids.len()
            == ids.len(),
    decreases vars.len(),
{
    if vars.len() > 0 {
        crate::table::lemma_key_index(ids, vars[0].text);
        match key_index(ids, vars[0].text) {
            Some(i) => {
                lemma_correlation_counts(vars.drop_first(), ids.remove(i));
            },
            None => {
                lemma_correlation_counts(vars.drop_first(), ids);
            },
        }
    }
}

/// `entry` joins the variable line at index `v` with the identifier at index
/// `i`: it has the name of the one and the identifier of the other, and the
/// text of the one is the comment of the other.
pub open spec fn joins(
    vars: Seq<RawVariableView>,
    ids: Seq<(Seq<char>, i64)>,
    entry: (Seq<char>, i64),
    v: int,
    i: int,
) -> bool {
    &&& 0 <= v < vars.len()
    &&& 0 <= i < ids.len()
    &&& entry == (vars[v].variable_name, ids[i].1)
    &&& vars[v].text == ids[i].0
}

/// The join is one to one: each entry has the name of one variable line and
/// the identifier of one line of the table, the two share their text, no
/// variable line and no identifier serves two entries, and the entries stand
/// in the order of their variable lines.
pub proof fn lemma_correlation_one_to_one(vars: Seq<RawVariableView>, ids: Seq<(Seq<char>, i64)>)
    ensures
        variable_sources(vars, ids).len() == correlation(vars, ids).entries.len(),
        identifier_sources(vars, ids).len() == correlation(vars, ids).entries.len(),
        forall|k: int|
            0 <= k < correlation(vars, ids).entries.len() ==> joins(
                vars,
                ids,
                #[trigger] correlation(vars, ids).entries[k],
                variable_sources(vars, ids)[k],
                identifier_sources(vars, ids)[k],
            ),
        forall|k: int, l: int|
            0 <= k < l < correlation(vars, ids).entries.len() ==> #[trigger] variable_sources(
                vars,
                ids,
            )[k] < #[trigger] variable_sources(vars, ids)[l],
        forall|k: int, l: int|
            0 <= k < l < correlation(vars, ids).entries.len() ==> #[trigger] identifier_sources(
                vars,
                ids,
            )[k] != #[trigger] identifier_sources(vars, ids)[l],
    decreases vars.len(),
{
    if vars.len() > 0 {
        let rest = vars.drop_first();
        crate::table::lemma_key_index(ids, vars[0].text);
        match key_index(ids, vars[0].text) {
            Some(i) => {
                let left = ids.remove(i);
                lemma_correlation_one_to_one(rest, left);
                let sub = correlation(rest, left);
                let vs = variable_sources(rest, left);
                let is = identifier_sources(rest, left);
                let all = correlation(vars, ids);
                let avs = variable_sources(vars, ids);
                let ais = identifier_sources(vars, ids);
                assert forall|k: int| 0 <= k < all.entries.len() implies joins(
                    vars,
                    ids,
                    #[trigger] all.entries[k],
                    avs[k],
                    ais[k],
                ) by {
                    if k > 0 {
                        let e = sub.entries[k - 1];
                        assert(joins(rest, left, e, vs[k - 1], is[k - 1]));
                        assert(all.entries[k] == e);
                        assert(avs[k] == vs[k - 1] + 1);
                        assert(rest[vs[k - 1]] == vars[vs[k - 1] + 1]);
                        let j0 = is[k - 1];
                        if j0 < i {
                            assert(left[j0] == ids[j0]);
                        } else {
                            assert(left[j0] == ids[j0 + 1]);
                        }
                    }
                }
                assert forall|k: int, l: int| 0 <= k < l < all.entries.len() implies #[trigger] avs[k]
                    < #[trigger] avs[l] by {
                    if k > 0 {
                        assert(sub.entries[k - 1] == all.entries[k]);
                        assert(vs[k - 1] < vs[l - 1]);
                    } else {
                        assert(sub.entries[l - 1] == all.entries[l]);
                    }
                }
                assert forall|k: int, l: int| 0 <= k < l < all.entries.len() implies #[trigger] ais[k]
                    != #[trigger] ais[l] by {
                    if k > 0 {
                        assert(is[k - 1] != is[l - 1]);
                    } else {
                        assert(sub.entries[l - 1] == all.entries[l]);
                    }
                }
            },
            None => {
                lemma_correlation_one_to_one(rest, ids);
                let sub = correlation(rest, ids);
                let vs = variable_sources(rest, ids);
                let all = correlation(vars, ids);
                let avs = variable_sources(vars, ids);
                assert forall|k: int| 0 <= k < all.entries.len() implies joins(
                    vars,
                    ids,
                    #[trigger] all.entries[k],
                    avs[k],
                    identifier_sources(vars, ids)[k],
                ) by {
                    let e = sub.entries[k];
                    assert(joins(rest, ids, e, vs[k], identifier_sources(rest, ids)[k]));
                    assert(rest[vs[k]] == vars[vs[k] + 1]);
                }
                assert forall|k: int, l: int| 0 <= k < l < all.entries.len() implies #[trigger] avs[k]
                    < #[trigger] avs[l] by {
                    assert(vs[k] < vs[l]);
                }
            },
        }
    }
}

/// What was read out of a script.
#[derive(Clone, Debug, PartialEq, Eq)]
pub struct Extraction {
    pub module_name: Option<String>,
    pub entries: Vec<CorrelatedEntry>,
    /// Name and text of each variable without an identifier.
    pub missing_vars: Vec<(String, String)>,
    /// Identifier and comment of each identifier without a variable.
    pub missing_ids: Vec<(i64, String)>,
}

pub ghost struct ExtractionView {
    pub module_name: Option<Seq<char>>,
    pub entries: Seq<(Seq<char>, i64)>,
    pub missing_vars: Seq<(Seq<char>, Seq<char>)>,
    pub missing_ids: Seq<(i64, Seq<char>)>,
}

pub open spec fn entries_view(entries: Seq<CorrelatedEntry>) -> Seq<(Seq<char>, i64)> {
    entries.map_values(|e: CorrelatedEntry| e@)
}

pub open spec fn missing_vars_view(list: Seq<(String, String)>) -> Seq<(Seq<char>, Seq<char>)> {
    list.map_values(|p: (String, String)| (p.0@, p.1@))
}

pub open spec fn missing_ids_view(list: Seq<(i64, String)>) -> Seq<(i64, Seq<char>)> {
    list.map_values(|p: (i64, String)| (p.0, p.1@))
}

impl Extraction {
    pub open spec fn view(&self) -> ExtractionView {
        ExtractionView {
            module_name: name_view(self.module_name),
            entries: entries_view(self.entries@),
            missing_vars: missing_vars_view(self.missing_vars@),
            missing_ids: missing_ids_view(self.missing_ids@),
        }
    }
}

/// What a script holds: the module's name as the scan found it, and the join
/// of the variable lines with the identifier table.
pub open spec fn extraction(text: Seq<char>, sources: PatternSources, options: ExtractOptions) -> ExtractionView {
    let scan = scan_lines(lines_of(text), scan_start(), sources, options);
    let joined = correlation(scan.vars, scan.ids);
    ExtractionView {
        module_name: scan.module_name,
        entries: joined.entries,
        missing_vars: joined.missing_vars,
        missing_ids: joined.missing_ids,
    }
}

/// What is read out of a script depends on the script, the patterns and the
/// options alone: two extractions from the same text are the same.
pub proof fn lemma_extract_repeats(
    first: Extraction,
    second: Extraction,
    text: Seq<char>,
    sources: PatternSources,
    options: ExtractOptions,
)
    requires
        first@ == extraction(text, sources, options),
        second@ == extraction(text, sources, options),
    ensures
        first@ == second@,
        first@.entries == second@.entries,
{
}

/// In what is read out of a script, every variable line that the scan found
/// is joined or missing its identifier, and every identifier of the table is
/// joined or missing its variable.
pub proof fn lemma_extraction_counts(text: Seq<char>, sources: PatternSources, options: ExtractOptions)
    ensures
        extraction(text, sources, options).entries.len() + extraction(
            text,
            sources,
            options,
        ).missing_vars.len() == scan_lines(lines_of(text), scan_start(), sources, options).vars.len(),
        extraction(text, sources, options).entries.len() + extraction(
            text,
            sources,
            options,
        ).missing_ids.len() == scan_lines(lines_of(text), scan_start(), sources, options).ids.len(),
{
    let scan = scan_lines(lines_of(text), scan_start(), sources, options);
    lemma_correlation_counts(scan.vars, scan.ids);
}

/// No line of `lines` opens a block.
pub open spec fn opens_no_block(lines: Seq<LineView>, options: ExtractOptions) -> bool {
    forall|i: int|
        0 <= i < lines.len() ==> !has_prefix(
            pattern_text(#[trigger] lines[i], options),
            IDS_START@,
        ) && lines[i].content != VARS_START@
}

/// A scan outside the blocks that meets no line that opens one stays outside
/// and gathers no identifier and no variable.
pub proof fn lemma_scan_without_blocks(
    lines: Seq<LineView>,
    s: ScanView,
    sources: PatternSources,
    options: ExtractOptions,
)
    requires
        opens_no_block(lines, options),
        s.state is Neither,
    ensures
        scan_lines(lines, s, sources, options).state is Neither,
        scan_lines(lines, s, sources, options).ids == s.ids,
        scan_lines(lines, s, sources, options).vars == s.vars,
    decreases lines.len(),
{
    if lines.len() > 0 && !s.stopped {
        let rest = lines.drop_first();
        assert forall|i: int| 0 <= i < rest.len() implies !has_prefix(
            pattern_text(#[trigger] rest[i], options),
            IDS_START@,
        ) && rest[i].content != VARS_START@ by {
            assert(rest[i] == lines[i + 1]);
        }
        lemma_scan_without_blocks(rest, scan_step(s, lines[0], sources, options), sources, options);
    }
}

/// A script in which no line opens a block gives empty tables: no entry, and
/// nothing that is missing.
pub proof fn lemma_extract_without_blocks(
    text: Seq<char>,
    sources: PatternSources,
    options: ExtractOptions,
)
    requires
        opens_no_block(lines_of(text), options),
    ensures
        extraction(text, sources, options).entries.len() == 0,
        extraction(text, sources, options).missing_vars.len() == 0,
        extraction(text, sources, options).missing_ids.len() == 0,
{
    lemma_scan_without_blocks(lines_of(text), scan_start(), sources, options);
}

/// Joins the variable lines with the identifier table.
pub fn correlate(vars: Vec<RawVariable>, ids: IndexMap<String, i64>) -> (joined: (
    Vec<CorrelatedEntry>,
    Vec<(String, String)>,
    Vec<(i64, String)>,
))
    ensures
        entries_view(joined.0@) == correlation(variables_view(vars@), id_entries(ids)).entries,
        missing_vars_view(joined.1@) == correlation(
            variables_view(vars@),
            id_entries(ids),
        ).missing_vars,
        missing_ids_view(joined.2@) == correlation(
            variables_view(vars@),
            id_entries(ids),
        ).missing_ids,
{
    let ghost all = variables_view(vars@);
    let ghost start = id_entries(ids);
    let mut ids = ids;
    let mut entries: Vec<CorrelatedEntry> = Vec::new();
    let mut missing_vars: Vec<(String, String)> = Vec::new();
    let mut i: usize = 0;
    proof {
        assert(all.skip(0) == all);
        assert(entries_view(entries@) + correlation(all, start).entries == correlation(
            all,
            start,
        ).entries);
        assert(missing_vars_view(missing_vars@) + correlation(all, start).missing_vars
            == correlation(all, start).missing_vars);
    }
    while i < vars.len()
        invariant
            i <= vars@.len(),
            all == variables_view(vars@),
            correlation(all, start).entries == entries_view(entries@) + correlation(
                all.skip(i as int),
                id_entries(ids),
            ).entries,
            correlation(all, start).missing_vars == missing_vars_view(missing_vars@) + correlation(
                all.skip(i as int),
                id_entries(ids),
            ).missing_vars,
            correlation(all, start).missing_ids == correlation(
                all.skip(i as int),
                id_entries(ids),
            ).missing_ids,
        decreases vars.len() - i,
    {
        let ghost rest = all.skip(i as int);
        let ghost table = id_entries(ids);
        let ghost ev = entries_view(entries@);
        let ghost mv = missing_vars_view(missing_vars@);
        proof {
            assert(rest[0] == vars@[i as int]@);
            assert(rest.drop_first() == all.skip(i + 1));
            crate::table::lemma_key_index(table, rest[0].text);
        }
        let var = &vars[i];
        match remove_id(&mut ids, var.text.as_str()) {
            Some(id) => {
                entries.push(CorrelatedEntry { variable_name: var.variable_name.clone(), id });
                proof {
                    let added = (rest[0].variable_name, id);
                    assert(entries_view(entries@) == ev.push(added));
                    let tail = correlation(all.skip(i + 1), id_entries(ids));
                    assert(ev.push(added) + tail.entries == ev + (seq![added] + tail.entries));
                }
            },
            None => {
                missing_vars.push((var.variable_name.clone(), var.text.clone()));
                proof {
                    let added = (rest[0].variable_name, rest[0].text);
                    assert(missing_vars_view(missing_vars@) == mv.push(added));
                    let tail = correlation(all.skip(i + 1), id_entries(ids));
                    assert(mv.push(added) + tail.missing_vars == mv + (seq![added]
                        + tail.missing_vars));
                }
            },
        }
        i += 1;
    }
    let left = id_list(&ids);
    let mut missing_ids: Vec<(i64, String)> = Vec::new();
    let mut k: usize = 0;
    while k < left.len()
        invariant
            k <= left@.len(),
            id_pairs(left@) == id_entries(ids),
            missing_ids_view(missing_ids@) == flipped(id_entries(ids)).take(k as int),
        decreases left.len() - k,
    {
        let ghost before = missing_ids_view(missing_ids@);
        missing_ids.push((left[k].1, left[k].0.clone()));
        proof {
            let added = (left@[k as int].1, left@[k as int].0@);
            assert(missing_ids_view(missing_ids@) == before.push(added));
            assert(id_pairs(left@)[k as int] == (left@[k as int].0@, left@[k as int].1));
            assert(flipped(id_entries(ids)).take(k + 1) == flipped(id_entries(ids)).take(
                k as int,
            ).push(added));
        }
        k += 1;
    }
    proof {
        assert(all.skip(vars@.len() as int).len() == 0);
        let f = flipped(id_entries(ids));
        assert(f.take(f.len() as int) == f);
        assert(entries_view(entries@) + Seq::<(Seq<char>, i64)>::empty() == entries_view(
            entries@,
        ));
        assert(missing_vars_view(missing_vars@) + Seq::<(Seq<char>, Seq<char>)>::empty()
            == missing_vars_view(missing_vars@));
    }
    (entries, missing_vars, missing_ids)
}

/// Reads the identifier table and the variable table out of the script `text`
/// and joins them.
pub fn extract(text: &str, patterns: &ScriptPatterns, options: &ExtractOptions) -> (found:
    Extraction)
    ensures
        found@ == extraction(text@, patterns.sources(), *options),
{
    let chars = to_chars(text);
    let mut scan = Scan::new();
    let mut pos: usize = 0;
    while pos < chars.len() && !scan.stopped
        invariant
            pos <= chars@.len(),
            scan.counted <= pos,
            scan_lines(lines_of(chars@), scan_start(), patterns.sources(), *options) == scan_lines(
                lines_from(chars@, pos as int),
                scan@,
                patterns.sources(),
                *options,
            ),
        decreases chars@.len() - pos,
    {
        let line = line_at(chars.as_slice(), pos);
        proof {
            lemma_lines_from_step(chars@, pos as int);
        }
        let content = slice_subrange(chars.as_slice(), line.start, line.end);
        let raw = slice_subrange(chars.as_slice(), line.start, line.next);
        proof {
            assert(raw@.take(content@.len() as int) == content@);
            assert(raw@.skip(content@.len() as int) == line_view(chars@, pos as int).ending);
        }
        scan_line(&mut scan, content, raw, patterns, options);
        pos = line.next;
    }
    let Scan { module_name, ids, vars, .. } = scan;
    let (entries, missing_vars, missing_ids) = correlate(vars, ids);
    Extraction { module_name, entries, missing_vars, missing_ids }
}

} // verus!
