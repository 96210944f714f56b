//! What the program is asked to do.

use vstd::prelude::*;
use vstd::string::StringExecFns;

verus! {

/// What to do in place of serving requests.
pub enum ImitatorSubcommands {
    /// Take in every row of the delimited file at `input`.
    IngestCsv { input: String },
}

/// The database to open, and what to do with it.
pub struct ImitatorOptions {
    pub db: String,
    pub subcommand: Option<ImitatorSubcommands>,
}

impl ImitatorOptions {
    /// The database that is opened where none is named.
    pub fn default_db() -> (db: String)
        ensures
            db@ == "sqlite://messages.db?mode=rwc"@,
    {
        String::from_str("sqlite://messages.db?mode=rwc")
    }

    /// The options with which the program serves requests on the default
    /// database.
    pub fn new() -> (options: ImitatorOptions)
        ensures
            options.db@ == "sqlite://messages.db?mode=rwc"@,
            options.subcommand.is_none(),
    {
        ImitatorOptions { db: ImitatorOptions::default_db(), subcommand: None }
    }

    /// The file to take in, where the program is asked to take one in.
    pub fn csv_input(&self) -> (input: Option<String>)
        ensures
            match self.subcommand {
                Some(ImitatorSubcommands::IngestCsv { input: path }) => input == Some(path),
                None => input.is_none(),
            },
    {
        match &self.subcommand {
            Some(ImitatorSubcommands::IngestCsv { input }) => Some(input.clone()),
            None => None,
        }
    }
}

} // verus!
