use localize_npc_names::commit::{
    locale_file_name, temp_file_name, use_system_temp_dir, Action, Commit, Culprit,
};
use localize_npc_names::extract::{CorrelatedEntry, Extraction};
use localize_npc_names::input::{resolve_module_name, InputFormat, ModuleName, Warning};
use localize_npc_names::progress::{Event, Progress};
use localize_npc_names::report::{batch_report, flat_table, missing_report, FileOutcome};

fn entry(name: &str, id: i64) -> CorrelatedEntry {
    CorrelatedEntry { variable_name: name.to_string(), id }
}

fn data_error(language: &str, name: &str, reason: &str) -> Event {
    Event::DataError {
        language: language.to_string(),
        name: name.to_string(),
        reason: reason.to_string(),
    }
}

fn io_error(path: &str, reason: &str) -> Event {
    Event::IoError { path: path.to_string(), reason: reason.to_string() }
}

#[test]
fn the_flat_table_has_one_line_for_each_entry() {
    assert_eq!(flat_table(&vec![entry("bob", 12345), entry("amy", 7)]), "bob: 12345\namy: 7\n");
    assert_eq!(flat_table(&vec![]), "");
}

#[test]
fn what_is_missing_is_listed_under_headings() {
    let found = Extraction {
        module_name: None,
        entries: vec![],
        missing_vars: vec![("carol".to_string(), "Carol".to_string())],
        missing_ids: vec![(67890, "Alice".to_string()), (1, "Al".to_string())],
    };
    assert_eq!(
        missing_report(&found),
        "\nMissing variables:\ncarol (\"Carol\")\n\nMissing IDs:\n67890 (\"Alice\")\n1 (\"Al\")\n"
    );
    let only_ids = Extraction { missing_vars: vec![], ..found.clone() };
    assert_eq!(missing_report(&only_ids), "\nMissing IDs:\n67890 (\"Alice\")\n1 (\"Al\")\n");
    let only_vars = Extraction { missing_ids: vec![], ..found.clone() };
    assert_eq!(missing_report(&only_vars), "\nMissing variables:\ncarol (\"Carol\")\n");
    let nothing = Extraction { missing_ids: vec![], missing_vars: vec![], ..found };
    assert_eq!(missing_report(&nothing), "");
}

fn outcomes() -> Vec<FileOutcome> {
    vec![
        FileOutcome::Parsed { path: "a.lua".to_string(), missing_vars: vec![], missing_ids: vec![] },
        FileOutcome::Parsed {
            path: "b.lua".to_string(),
            missing_vars: vec![("carol".to_string(), "Carol".to_string())],
            missing_ids: vec![],
        },
        FileOutcome::Failed { path: "c.lua".to_string(), error: "Os { code: 2 }".to_string() },
        FileOutcome::Parsed {
            path: "d.lua".to_string(),
            missing_vars: vec![],
            missing_ids: vec![(5, "Eve".to_string())],
        },
    ]
}

#[test]
fn the_batch_report_separates_what_it_reports() {
    assert_eq!(
        batch_report(&outcomes(), true),
        "b.lua\nMissing variables:\ncarol (\"Carol\")\n\n==========\n\nError while working on c.lua: Os { code: 2 }\n\n==========\n\nd.lua\nMissing IDs:\n5 (\"Eve\")\n"
    );
}

#[test]
fn the_batch_report_without_details_lists_failures_only() {
    assert_eq!(batch_report(&outcomes(), false), "Error while working on c.lua: Os { code: 2 }\n");
    let mut twice = outcomes();
    twice.push(FileOutcome::Failed { path: "e.lua".to_string(), error: "boom".to_string() });
    assert_eq!(
        batch_report(&twice, false),
        "Error while working on c.lua: Os { code: 2 }\n\n==========\n\nError while working on e.lua: boom\n"
    );
    assert_eq!(batch_report(&vec![], true), "");
}

#[test]
fn progress_counts_lookups_and_not_file_errors() {
    let mut progress = Progress::new(3);
    assert_eq!(progress.status(), "\rProgress: 0 / 3");
    assert_eq!(progress.record(&Event::Fetched), "\rProgress: 1 / 3");
    assert_eq!(
        progress.record(&data_error("deDE", "bob", "Not a valid NPC ID")),
        "\rFailed to collect data for \"bob\" (deDE), error: Not a valid NPC ID\n\rProgress: 2 / 3"
    );
    assert_eq!(
        progress.record(&io_error("out/deDE.lua", "denied")),
        "\rI/O error: denied (out/deDE.lua)\n\rProgress: 2 / 3"
    );
    assert_eq!(progress.record(&Event::Fetched), "\rProgress: 3 / 3");
    assert_eq!(progress.processed, 3);
    assert_eq!(progress.total, 3);
    assert_eq!(progress.status(), "\rProgress: 3 / 3");
}

#[test]
fn the_summary_groups_the_errors() {
    let mut progress = Progress::new(2);
    assert_eq!(progress.summary(), "");
    progress.record(&data_error("deDE", "bob", "x"));
    progress.record(&io_error("p", "denied"));
    progress.record(&data_error("frFR", "amy", "y"));
    assert_eq!(
        progress.summary(),
        "I/O errors:\n\rI/O error: denied (p)\nData errors:\n\rFailed to collect data for \"bob\" (deDE), error: x\n\rFailed to collect data for \"amy\" (frFR), error: y\n"
    );
    let mut only_io = Progress::new(0);
    only_io.record(&io_error("p", "denied"));
    assert_eq!(only_io.summary(), "I/O errors:\n\rI/O error: denied (p)\n");
    assert_eq!(only_io.processed, 0);
}

#[test]
fn file_names() {
    assert_eq!(locale_file_name("deDE"), "deDE.lua");
    assert_eq!(temp_file_name("deDE", 1700000000), "deDE-1700000000.lua.tmp");
    assert_eq!(temp_file_name("zhCN", 0), "zhCN-0.lua.tmp");
}

#[test]
fn the_system_temp_dir_is_used_only_on_the_same_device() {
    assert!(use_system_temp_dir(Some(7), Some(7)));
    assert!(!use_system_temp_dir(Some(7), Some(8)));
    assert!(!use_system_temp_dir(None, Some(7)));
    assert!(!use_system_temp_dir(Some(7), None));
    assert!(!use_system_temp_dir(None, None));
}

fn run(results: &[bool]) -> (Vec<Action>, Commit) {
    let mut commit = Commit::start();
    let mut actions = Vec::new();
    let mut results = results.iter();
    while let Some(action) = commit.action() {
        actions.push(action);
        commit = commit.advance(*results.next().unwrap());
    }
    (actions, commit)
}

#[test]
fn a_commit_writes_then_renames() {
    assert_eq!(run(&[true, true]), (vec![Action::WriteTemp, Action::Rename], Commit::Done));
}

#[test]
fn a_failed_write_ends_the_commit() {
    assert_eq!(run(&[false]), (vec![Action::WriteTemp], Commit::Failed(Culprit::TempFile)));
}

#[test]
fn a_failed_rename_is_followed_by_copy_and_cleanup() {
    let steps = vec![Action::WriteTemp, Action::Rename, Action::Copy, Action::RemoveTemp];
    assert_eq!(run(&[true, false, true, true]), (steps.clone(), Commit::Done));
    assert_eq!(
        run(&[true, false, false, true]),
        (steps.clone(), Commit::Failed(Culprit::LocaleFile))
    );
    assert_eq!(run(&[true, false, true, false]), (steps.clone(), Commit::Failed(Culprit::TempFile)));
    assert_eq!(run(&[true, false, false, false]), (steps, Commit::Failed(Culprit::TempFile)));
}

#[test]
fn a_commit_that_is_over_stays_over() {
    assert_eq!(Commit::Done.advance(false), Commit::Done);
    assert_eq!(Commit::Failed(Culprit::LocaleFile).advance(true), Commit::Failed(Culprit::LocaleFile));
    assert_eq!(Commit::Done.action(), None);
    assert_eq!(Commit::Cleanup { copied: true }.action(), Some(Action::RemoveTemp));
}

fn named(name: &str, warnings: Vec<Warning>) -> Option<ModuleName> {
    Some(ModuleName { name: name.to_string(), warnings })
}

#[test]
fn the_name_from_the_command_line_goes_first() {
    for format in [InputFormat::Toml, InputFormat::YamlTable, InputFormat::YamlFlat] {
        let resolved = resolve_module_name(format, Some("Given"), Some("File"), "stem").unwrap();
        assert_eq!(resolved.name, "Given");
    }
}

#[test]
fn a_toml_table_needs_a_module_name() {
    assert_eq!(resolve_module_name(InputFormat::Toml, None, Some("File"), "stem"), named("File", vec![]));
    assert_eq!(resolve_module_name(InputFormat::Toml, None, None, "stem"), None);
    assert_eq!(resolve_module_name(InputFormat::Toml, Some("G"), None, "stem"), named("G", vec![]));
}

#[test]
fn yaml_falls_back_to_the_name_of_the_file_and_warns() {
    assert_eq!(
        resolve_module_name(InputFormat::YamlTable, None, None, "Halls"),
        named("Halls Trash", vec![Warning::MissingModuleName, Warning::YamlDeprecated])
    );
    assert_eq!(
        resolve_module_name(InputFormat::YamlTable, None, Some("File"), "Halls"),
        named("File", vec![Warning::YamlDeprecated])
    );
    assert_eq!(
        resolve_module_name(InputFormat::YamlFlat, None, Some("ignored"), "Halls"),
        named("Halls Trash", vec![Warning::YamlDeprecated])
    );
    assert_eq!(
        resolve_module_name(InputFormat::YamlFlat, Some("G"), None, "Halls"),
        named("G", vec![Warning::YamlDeprecated])
    );
}

#[test]
fn the_warnings_in_words() {
    assert_eq!(
        Warning::MissingModuleName.message(),
        "WARNING: module_name is missing, falling back to using the file's name"
    );
    assert_eq!(
        Warning::YamlDeprecated.message(),
        "WARNING: YAML support is being phased out, use TOML instead"
    );
}
