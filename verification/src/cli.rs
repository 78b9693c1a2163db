//! The command line: the global options and the subcommands.

use vstd::prelude::*;

verus! {

/// The parsed command line.
#[derive(Debug, Clone)]
pub struct Cli {
    pub command: Option<Commands>,
    /// Host alias or name to connect to.
    pub host_alias: Option<String>,
    /// Override of the SSH config file path.
    pub config: Option<String>,
    /// Print the command instead of copying it to the clipboard.
    pub no_clipboard: bool,
    /// Show what would happen without executing anything.
    pub dry_run: bool,
    /// Debug output.
    pub verbose: bool,
}

/// The subcommands.
#[derive(Debug, Clone)]
pub enum Commands {
    Connect { host_alias: Option<String> },
    Config { action: ConfigAction },
    Version,
}

/// The `config` subcommands.
#[derive(Debug, Clone)]
pub enum ConfigAction {
    Add,
    Edit { host_alias: String },
    Remove { host_alias: String },
    List { group: Option<String> },
    Validate,
    Show { host_alias: String },
    Init,
}

/// Model of a `ConfigAction`.
pub enum ActionModel {
    Add,
    Edit { host_alias: Seq<char> },
    Remove { host_alias: Seq<char> },
    List { group: Option<Seq<char>> },
    Validate,
    Show { host_alias: Seq<char> },
    Init,
}

impl View for ConfigAction {
    type V = ActionModel;

    open spec fn view(&self) -> ActionModel {
        match self {
            ConfigAction::Add => ActionModel::Add,
            ConfigAction::Edit { host_alias } => ActionModel::Edit { host_alias: host_alias@ },
            ConfigAction::Remove { host_alias } => ActionModel::Remove { host_alias: host_alias@ },
            ConfigAction::List { group } => ActionModel::List { group: group.deep_view() },
            ConfigAction::Validate => ActionModel::Validate,
            ConfigAction::Show { host_alias } => ActionModel::Show { host_alias: host_alias@ },
            ConfigAction::Init => ActionModel::Init,
        }
    }
}

impl ConfigAction {
    /// A copy of the action.
    pub fn copy(&self) -> (r: ConfigAction)
        ensures
            r@ == self@,
    {
        match self {
            ConfigAction::Add => ConfigAction::Add,
            ConfigAction::Edit { host_alias } => ConfigAction::Edit { host_alias: host_alias.clone() },
            ConfigAction::Remove { host_alias } => ConfigAction::Remove { host_alias: host_alias.clone() },
            ConfigAction::List { group } => ConfigAction::List { group: crate::model::clone_opt_string(group) },
            ConfigAction::Validate => ConfigAction::Validate,
            ConfigAction::Show { host_alias } => ConfigAction::Show { host_alias: host_alias.clone() },
            ConfigAction::Init => ConfigAction::Init,
        }
    }
}

} // verus!
