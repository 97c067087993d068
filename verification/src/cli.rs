//! The arguments of the command line, and what they set against a
//! configuration.
use crate::config::{
    opt_keys_view, opt_patterns_view, opt_texts_view, patterns_view, Configuration,
    ConfigurationModel, FilePattern, FilePatternModel, IdAction,
};
use crate::extra_keys::{keys_view, ExtraKey, StripKey};
use crate::utils::path_view;
use vstd::prelude::*;

verus! {

#[derive(Debug)]
pub struct Cli {
    pub markdown_help: bool,
    pub command: Commands,
}

/// The arguments that every command on notebooks takes. Each switch comes
/// with its opposite; at most one of the two is set.
#[derive(Debug)]
pub struct CommonArgs {
    pub config: Option<String>,
    pub isolated: bool,
    pub allow_no_notebooks: bool,
    pub extra_keys: Option<Vec<ExtraKey>>,
    pub drop_empty_cells: bool,
    pub keep_empty_cells: bool,
    pub keep_output: bool,
    pub drop_output: bool,
    pub keep_count: bool,
    pub drop_count: bool,
    pub drop_id: bool,
    pub keep_id: bool,
    pub sequential_id: bool,
    pub id_action: Option<IdAction>,
    pub strip_init_cell: bool,
    pub keep_init_cell: bool,
    pub strip_kernel_info: bool,
    pub keep_kernel_info: bool,
    pub drop_tagged_cells: Option<Vec<String>>,
    pub keep_keys: Option<Vec<ExtraKey>>,
    pub exclude: Option<Vec<FilePattern>>,
    pub extend_exclude: Option<Vec<FilePattern>>,
}

#[derive(Debug)]
pub enum Commands {
    Install(InstallCommand),
    CleanAll(CleanAllCommand),
    Check(CheckCommand),
    Clean(CleanCommand),
    Uninstall(UninstallCommand),
    CheckInstall(CheckInstallCommand),
    ShowConfig(ShowConfigCommand),
    Record(RecordCommand),
    Smudge(SmudgeCommand),
    Hook(HookCommands),
}

#[derive(Debug)]
pub enum HookCommands {
    CheckLargeFiles(CheckLargeFilesCommand),
}

#[derive(Debug)]
pub struct CheckLargeFilesCommand {
    pub filenames: Vec<String>,
    pub enforce_all: bool,
    pub maxkb: Option<u64>,
    pub config: Option<String>,
    pub isolated: bool,
}

#[derive(Debug)]
pub struct ShowConfigCommand {
    pub show_all: bool,
    pub no_show_defaults: bool,
    pub common: CommonArgs,
}

#[derive(Debug)]
pub struct CheckCommand {
    pub files: Vec<String>,
    pub output_format: Option<OutputFormat>,
    pub common: CommonArgs,
}

#[derive(Debug)]
pub struct CleanCommand {
    pub file: String,
    pub textconv: bool,
    pub common: CommonArgs,
}

#[derive(Debug)]
pub struct CleanAllCommand {
    pub files: Vec<String>,
    pub dry_run: bool,
    pub yes: bool,
    pub common: CommonArgs,
}

#[derive(Debug, Clone, Copy, PartialEq, Eq, Structural)]
pub enum OutputFormat {
    Text,
    Json,
}

impl Default for OutputFormat {
    fn default() -> (format: OutputFormat)
        ensures
            format == OutputFormat::Text,
    {
        OutputFormat::Text
    }
}

#[derive(Debug)]
pub struct InstallCommand {
    pub config_type: GitConfigType,
    pub git_config_file: Option<String>,
    pub attribute_file: Option<String>,
}

#[derive(Debug)]
pub struct UninstallCommand {
    pub config_type: GitConfigType,
    pub git_config_file: Option<String>,
    pub attribute_file: Option<String>,
}

#[derive(Debug)]
pub struct RecordCommand {
    pub path: Option<String>,
    pub remove: Vec<String>,
    pub clear: bool,
    pub sync: bool,
    pub common: CommonArgs,
}

#[derive(Debug)]
pub struct CheckInstallCommand {
    pub exit_zero: bool,
    pub config_type: Option<GitConfigType>,
}

#[derive(Debug)]
pub struct SmudgeCommand {
    pub path: String,
}

/// Which of git's configuration files is meant.
#[derive(Debug, Clone, Copy, PartialEq, Eq, Structural)]
pub enum GitConfigType {
    System,
    Global,
    Local,
}

/// What the command line sets of a configuration: `None` where it says
/// nothing.
#[derive(Debug)]
pub struct ConfigOverrides {
    pub strip_kernel_info: Option<bool>,
    pub extra_keys: Option<Vec<ExtraKey>>,
    pub drop_empty_cells: Option<bool>,
    pub drop_output: Option<bool>,
    pub drop_count: Option<bool>,
    pub id_action: Option<IdAction>,
    pub strip_init_cell: Option<bool>,
    pub drop_tagged_cells: Option<Vec<String>>,
    pub keep_keys: Option<Vec<ExtraKey>>,
    pub exclude: Option<Vec<FilePattern>>,
    pub extend_exclude: Option<Vec<FilePattern>>,
}

impl Default for ConfigOverrides {
    fn default() -> (overrides: ConfigOverrides)
        ensures
            overrides == (ConfigOverrides {
                strip_kernel_info: None,
                extra_keys: None,
                drop_empty_cells: None,
                drop_output: None,
                drop_count: None,
                id_action: None,
                strip_init_cell: None,
                drop_tagged_cells: None,
                keep_keys: None,
                exclude: None,
                extend_exclude: None,
            }),
    {
        ConfigOverrides {
            strip_kernel_info: None,
            extra_keys: None,
            drop_empty_cells: None,
            drop_output: None,
            drop_count: None,
            id_action: None,
            strip_init_cell: None,
            drop_tagged_cells: None,
            keep_keys: None,
            exclude: None,
            extend_exclude: None,
        }
    }
}

/// The arguments that are no part of a configuration.
#[derive(Debug)]
pub struct Args {
    pub config: Option<String>,
    pub isolated: bool,
    pub allow_no_notebooks: bool,
}

/// What a switch and its opposite say together.
pub open spec fn bool_arg(yes: bool, no: bool) -> Option<bool> {
    if yes {
        Some(true)
    } else if no {
        Some(false)
    } else {
        None
    }
}

/// What a switch and its opposite say together: `None` where neither is
/// set. Both are never set.
pub fn resolve_bool_arg(yes: bool, no: bool) -> (said: Option<bool>)
    requires
        !(yes && no),
    ensures
        said == bool_arg(yes, no),
{
    match (yes, no) {
        (true, false) => Some(true),
        (false, true) => Some(false),
        _ => None,
    }
}

/// What the arguments say of identifiers: the action that is named, or
/// else the one whose switch is set, renumbering before dropping before
/// keeping.
pub open spec fn id_arg(keep_id: bool, drop_id: bool, sequential_id: bool, named: Option<IdAction>) -> Option<
    IdAction,
> {
    if named is Some {
        named
    } else if sequential_id {
        Some(IdAction::Sequential)
    } else if drop_id {
        Some(IdAction::Drop)
    } else if keep_id {
        Some(IdAction::Keep)
    } else {
        None
    }
}

pub fn resolve_id_action(
    keep_id: bool,
    drop_id: bool,
    sequential_id: bool,
    named: Option<IdAction>,
) -> (said: Option<IdAction>)
    ensures
        said == id_arg(keep_id, drop_id, sequential_id, named),
{
    if named.is_some() {
        named
    } else if sequential_id {
        Some(IdAction::Sequential)
    } else if drop_id {
        Some(IdAction::Drop)
    } else if keep_id {
        Some(IdAction::Keep)
    } else {
        None
    }
}

impl CommonArgs {
    /// No switch is set together with its opposite.
    pub open spec fn wf(self) -> bool {
        &&& !(self.drop_empty_cells && self.keep_empty_cells)
        &&& !(self.drop_output && self.keep_output)
        &&& !(self.drop_count && self.keep_count)
        &&& !(self.strip_init_cell && self.keep_init_cell)
        &&& !(self.strip_kernel_info && self.keep_kernel_info)
    }

    /// Parts the arguments into those that are no part of a configuration
    /// and what the others set of one.
    pub fn partition(self) -> (parted: (Args, ConfigOverrides))
        requires
            self.wf(),
        ensures
            parted.0 == (Args {
                config: self.config,
                isolated: self.isolated,
                allow_no_notebooks: self.allow_no_notebooks,
            }),
            parted.1 == (ConfigOverrides {
                strip_kernel_info: bool_arg(self.strip_kernel_info, self.keep_kernel_info),
                extra_keys: self.extra_keys,
                drop_empty_cells: bool_arg(self.drop_empty_cells, self.keep_empty_cells),
                drop_output: bool_arg(self.drop_output, self.keep_output),
                drop_count: bool_arg(self.drop_count, self.keep_count),
                id_action: id_arg(self.keep_id, self.drop_id, self.sequential_id, self.id_action),
                strip_init_cell: bool_arg(self.strip_init_cell, self.keep_init_cell),
                drop_tagged_cells: self.drop_tagged_cells,
                keep_keys: self.keep_keys,
                exclude: self.exclude,
                extend_exclude: self.extend_exclude,
            }),
    {
        (
            Args {
                config: self.config,
                allow_no_notebooks: self.allow_no_notebooks,
                isolated: self.isolated,
            },
            ConfigOverrides {
                extra_keys: self.extra_keys,
                drop_empty_cells: resolve_bool_arg(self.drop_empty_cells, self.keep_empty_cells),
                drop_output: resolve_bool_arg(self.drop_output, self.keep_output),
                drop_count: resolve_bool_arg(self.drop_count, self.keep_count),
                id_action: resolve_id_action(
                    self.keep_id,
                    self.drop_id,
                    self.sequential_id,
                    self.id_action,
                ),
                drop_tagged_cells: self.drop_tagged_cells,
                strip_init_cell: resolve_bool_arg(self.strip_init_cell, self.keep_init_cell),
                keep_keys: self.keep_keys,
                extend_exclude: self.extend_exclude,
                exclude: self.exclude,
                strip_kernel_info: resolve_bool_arg(self.strip_kernel_info, self.keep_kernel_info),
            },
        )
    }
}

fn copy_texts(texts: &Vec<String>) -> (copy: Vec<String>)
    ensures
        path_view(copy@) == path_view(texts@),
{
    let mut copy: Vec<String> = Vec::new();
    let mut i: usize = 0;
    while i < texts.len()
        invariant
            i <= texts.len(),
            copy.len() == i,
            forall|j: int| 0 <= j < i ==> (#[trigger] copy[j])@ == texts[j]@,
        decreases texts.len() - i,
    {
        copy.push(texts[i].clone());
        i += 1;
    }
    proof {
        assert(path_view(copy@) =~= path_view(texts@));
    }
    copy
}

fn copy_key(key: &ExtraKey) -> (copy: ExtraKey)
    ensures
        copy@ == key@,
{
    let parts = copy_texts(key.get_parts());
    match key {
        ExtraKey::CellMeta(_) => ExtraKey::CellMeta(StripKey::from_parts(parts)),
        ExtraKey::Metadata(_) => ExtraKey::Metadata(StripKey::from_parts(parts)),
    }
}

fn copy_keys(keys: &Vec<ExtraKey>) -> (copy: Vec<ExtraKey>)
    ensures
        keys_view(copy@) == keys_view(keys@),
{
    let mut copy: Vec<ExtraKey> = Vec::new();
    let mut i: usize = 0;
    while i < keys.len()
        invariant
            i <= keys.len(),
            copy.len() == i,
            forall|j: int| 0 <= j < i ==> (#[trigger] copy[j])@ == keys[j]@,
        decreases keys.len() - i,
    {
        copy.push(copy_key(&keys[i]));
        i += 1;
    }
    proof {
        assert(keys_view(copy@) =~= keys_view(keys@));
    }
    copy
}

/// Appends a copy of each pattern of `more` to `patterns`.
fn extend_patterns(patterns: &mut Vec<FilePattern>, more: &Vec<FilePattern>)
    ensures
        patterns_view(final(patterns)@) == patterns_view(old(patterns)@) + patterns_view(more@),
{
    let ghost start = patterns_view(patterns@);
    let ghost n = patterns.len();
    let mut i: usize = 0;
    while i < more.len()
        invariant
            i <= more.len(),
            n == start.len(),
            patterns.len() == n + i,
            forall|j: int| 0 <= j < n ==> (#[trigger] patterns[j])@ == start[j],
            forall|j: int| 0 <= j < i ==> (#[trigger] patterns[n + j])@ == more[j]@,
        decreases more.len() - i,
    {
        patterns.push(
            FilePattern { pattern: more[i].pattern.clone(), absolute: more[i].absolute.clone() },
        );
        i += 1;
    }
    proof {
        assert forall|j: int| 0 <= j < patterns.len() implies patterns_view(patterns@)[j] == (start
            + patterns_view(more@))[j] by {
            if j >= n {
                assert(patterns[n + (j - n)]@ == more[j - n]@);
            } else {
                assert(patterns[j]@ == start[j]);
            }
        }
        assert(patterns_view(patterns@) =~= start + patterns_view(more@));
    }
}

pub open spec fn opt_patterns_or_none(o: Option<Vec<FilePattern>>) -> Seq<FilePatternModel> {
    match o {
        Some(p) => patterns_view(p@),
        None => Seq::empty(),
    }
}

/// What is set wins over what was there.
pub open spec fn set_or<T>(set: Option<T>, was: Option<T>) -> Option<T> {
    if set is Some {
        set
    } else {
        was
    }
}

impl ConfigOverrides {
    /// The configuration with everything replaced that the command line
    /// sets; the additional patterns to leave out are added to those that
    /// the configuration has.
    pub open spec fn overridden(self, c: ConfigurationModel) -> ConfigurationModel {
        ConfigurationModel {
            extra_keys: set_or(opt_keys_view(self.extra_keys), c.extra_keys),
            drop_empty_cells: set_or(self.drop_empty_cells, c.drop_empty_cells),
            drop_output: set_or(self.drop_output, c.drop_output),
            drop_count: set_or(self.drop_count, c.drop_count),
            id_action: set_or(self.id_action, c.id_action),
            drop_tagged_cells: set_or(opt_texts_view(self.drop_tagged_cells), c.drop_tagged_cells),
            strip_init_cell: set_or(self.strip_init_cell, c.strip_init_cell),
            strip_kernel_info: set_or(self.strip_kernel_info, c.strip_kernel_info),
            keep_keys: set_or(opt_keys_view(self.keep_keys), c.keep_keys),
            exclude: set_or(opt_patterns_view(self.exclude), c.exclude),
            extend_exclude: c.extend_exclude + opt_patterns_or_none(self.extend_exclude),
        }
    }

    pub fn override_config(&self, config: Configuration) -> (out: Configuration)
        ensures
            out@ == self.overridden(config@),
    {
        let mut config = config;
        let ghost was = config@;
        if let Some(extra_keys) = &self.extra_keys {
            config.extra_keys = Some(copy_keys(extra_keys));
        }
        if let Some(drop_count) = &self.drop_count {
            config.drop_count = Some(*drop_count);
        }
        if let Some(drop_empty_cells) = &self.drop_empty_cells {
            config.drop_empty_cells = Some(*drop_empty_cells);
        }
        if let Some(id_action) = &self.id_action {
            config.id_action = Some(*id_action);
        }
        if let Some(drop_output) = &self.drop_output {
            config.drop_output = Some(*drop_output);
        }
        if let Some(drop_tagged_cells) = &self.drop_tagged_cells {
            config.drop_tagged_cells = Some(copy_texts(drop_tagged_cells));
        }
        if let Some(strip_init_cell) = &self.strip_init_cell {
            config.strip_init_cell = Some(*strip_init_cell);
        }
        if let Some(keep_keys) = &self.keep_keys {
            config.keep_keys = Some(copy_keys(keep_keys));
        }
        if let Some(exclude) = &self.exclude {
            let mut copy: Vec<FilePattern> = Vec::new();
            assert(patterns_view(copy@) =~= Seq::empty());
            extend_patterns(&mut copy, exclude);
            assert(patterns_view(copy@) =~= patterns_view(exclude@));
            config.exclude = Some(copy);
        }
        if let Some(extend_exclude) = &self.extend_exclude {
            extend_patterns(&mut config.extend_exclude, extend_exclude);
        }
        if let Some(strip_kernel_info) = &self.strip_kernel_info {
            config.strip_kernel_info = Some(*strip_kernel_info);
        }
        proof {
            assert(config@.extend_exclude =~= self.overridden(was).extend_exclude);
        }
        config
    }
}

} // verus!
