//! Settling the module's name for a table of names that was read from a file.

use crate::text::{push_str, to_text};
use vstd::prelude::*;

verus! {

/// The form in which a table of names was written.
#[derive(Clone, Copy, Debug, PartialEq, Eq, Structural)]
pub enum InputFormat {
    /// A TOML table with an optional module name and the names.
    Toml,
    /// A YAML table with an optional module name and the names.
    YamlTable,
    /// A YAML mapping of the names alone.
    YamlFlat,
}

/// What the user is to be warned of.
#[derive(Clone, Copy, Debug, PartialEq, Eq, Structural)]
pub enum Warning {
    /// No module name was given: the file's name stands in for it.
    MissingModuleName,
    /// YAML is on its way out.
    YamlDeprecated,
}

impl Warning {
    pub open spec fn text(self) -> Seq<char> {
        match self {
            Warning::MissingModuleName =>
                "WARNING: module_name is missing, falling back to using the file's name"@,
            Warning::YamlDeprecated =>
                "WARNING: YAML support is being phased out, use TOML instead"@,
        }
    }

    /// The warning in words.
    pub fn message(self) -> (text: String)
        ensures
            text@ == self.text(),
    {
        match self {
            Warning::MissingModuleName => String::from_str(
                "WARNING: module_name is missing, falling back to using the file's name",
            ),
            Warning::YamlDeprecated => String::from_str(
                "WARNING: YAML support is being phased out, use TOML instead",
            ),
        }
    }
}

/// The module's name, and the warnings that go with it.
#[derive(Clone, Debug, PartialEq, Eq)]
pub struct ModuleName {
    pub name: String,
    pub warnings: Vec<Warning>,
}

/// The name that stands in for a missing module name: the stem of the file's
/// name and ` Trash`.
pub open spec fn fallback_name(file_stem: Seq<char>) -> Seq<char> {
    file_stem + " Trash"@
}

/// The module's name: the one given on the command line, else the one in the
/// file, else, for YAML, the fallback. A TOML table without either has none.
pub open spec fn module_name_of(
    format: InputFormat,
    given: Option<Seq<char>>,
    in_file: Option<Seq<char>>,
    file_stem: Seq<char>,
) -> Option<Seq<char>> {
    match given {
        Some(name) => Some(name),
        None => match format {
            InputFormat::Toml => in_file,
            InputFormat::YamlTable => match in_file {
                Some(name) => Some(name),
                None => Some(fallback_name(file_stem)),
            },
            InputFormat::YamlFlat => Some(fallback_name(file_stem)),
        },
    }
}

/// The warnings: a YAML table without any module name warns of that, and all
/// YAML warns of its deprecation.
pub open spec fn warnings_of(
    format: InputFormat,
    given: Option<Seq<char>>,
    in_file: Option<Seq<char>>,
) -> Seq<Warning> {
    match format {
        InputFormat::Toml => Seq::empty(),
        InputFormat::YamlTable => if given is None && in_file is None {
            seq![Warning::MissingModuleName, Warning::YamlDeprecated]
        } else {
            seq![Warning::YamlDeprecated]
        },
        InputFormat::YamlFlat => seq![Warning::YamlDeprecated],
    }
}

pub open spec fn optional_text(text: Option<&str>) -> Option<Seq<char>> {
    match text {
        Some(t) => Some(t@),
        None => None,
    }
}

fn fallback(file_stem: &str) -> (name: String)
    ensures
        name@ == fallback_name(file_stem@),
{
    let mut out: Vec<char> = Vec::new();
    push_str(&mut out, file_stem);
    push_str(&mut out, " Trash");
    to_text(out.as_slice())
}

/// Settles the module's name for a table that was read in `format`. `given`
/// is the name from the command line, `in_file` the one in the table. `None`
/// when there is no name to be had.
pub fn resolve_module_name(
    format: InputFormat,
    given: Option<&str>,
    in_file: Option<&str>,
    file_stem: &str,
) -> (resolved: Option<ModuleName>)
    ensures
        match resolved {
            Some(m) => module_name_of(
                format,
                optional_text(given),
                optional_text(in_file),
                file_stem@,
            ) == Some(m.name@) && m.warnings@ == warnings_of(
                format,
                optional_text(given),
                optional_text(in_file),
            ),
            None => module_name_of(
                format,
                optional_text(given),
                optional_text(in_file),
                file_stem@,
            ) is None,
        },
{
    let mut warnings: Vec<Warning> = Vec::new();
    match format {
        InputFormat::Toml => {},
        InputFormat::YamlTable => {
            if given.is_none() && in_file.is_none() {
                warnings.push(Warning::MissingModuleName);
            }
            warnings.push(Warning::YamlDeprecated);
        },
        InputFormat::YamlFlat => {
            warnings.push(Warning::YamlDeprecated);
        },
    }
    assert(warnings@ == warnings_of(format, optional_text(given), optional_text(in_file)));
    let name = match given {
        Some(name) => Some(String::from_str(name)),
        None => match format {
            InputFormat::Toml => match in_file {
                Some(name) => Some(String::from_str(name)),
                None => None,
            },
            InputFormat::YamlTable => match in_file {
                Some(name) => Some(String::from_str(name)),
                None => Some(fallback(file_stem)),
            },
            InputFormat::YamlFlat => Some(fallback(file_stem)),
        },
    };
    match name {
        Some(name) => Some(ModuleName { name, warnings }),
        None => None,
    }
}

} // verus!
