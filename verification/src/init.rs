//! The configuration wizard's choices: which kind of config is created, and
//! where it is written.

use vstd::prelude::*;
use vstd::string::StringExecFns;

verus! {

/// The selected config schema to prompt the user with.
#[derive(Clone, Copy, Debug, PartialEq, Eq, Structural)]
pub enum InitOption {
    /// Create a new source config.
    Source,
    /// Create a new index config.
    Index,
    /// Create a new Quickwit config.
    Quickwit,
}

impl InitOption {
    /// The option's name as it is shown and as it appears in file names.
    pub open spec fn label(&self) -> Seq<char> {
        match self {
            InitOption::Source => "source"@,
            InitOption::Index => "index"@,
            InitOption::Quickwit => "quickwit"@,
        }
    }

    /// The option's name.
    pub fn name(&self) -> (name: &'static str)
        ensures
            name@ == self.label(),
    {
        match self {
            InitOption::Source => "source",
            InitOption::Index => "index",
            InitOption::Quickwit => "quickwit",
        }
    }

    /// The option's name, owned.
    pub fn to_string(&self) -> (name: String)
        ensures
            name@ == self.label(),
    {
        String::from_str(self.name())
    }

    /// Whether a schema exists for the option. Only source configs have one.
    pub fn has_schema(&self) -> (known: bool)
        ensures
            known == (self == InitOption::Source),
    {
        match self {
            InitOption::Source => true,
            _ => false,
        }
    }

    /// Where the option's config is written unless the user names a place.
    pub open spec fn default_path(&self) -> Seq<char> {
        "./new-"@ + self.label() + "-config.yaml"@
    }

    /// Where the option's config is written unless the user names a place.
    pub fn config_path(&self) -> (path: String)
        ensures
            path@ == self.default_path(),
    {
        let mut path = String::from_str("./new-");
        path.append(self.name());
        path.append("-config.yaml");
        path
    }
}

/// The question that asks the user where to write the config.
pub open spec fn export_question_text(path: Seq<char>) -> Seq<char> {
    "Where should this config be exported? (Leave blank for "@ + path + ")"@
}

/// The question that asks the user where to write the config.
pub fn export_question(path: &str) -> (question: String)
    ensures
        question@ == export_question_text(path@),
{
    let mut question = String::from_str("Where should this config be exported? (Leave blank for ");
    question.append(path);
    question.append(")");
    question
}

/// Where the config is written: where the user said, or at the default
/// path where the answer was left blank.
pub fn output_path(answer: Option<String>, default_path: String) -> (path: String)
    ensures
        path@ == match answer {
            Some(chosen) => chosen@,
            None => default_path@,
        },
{
    match answer {
        Some(chosen) => chosen,
        None => default_path,
    }
}

} // verus!
