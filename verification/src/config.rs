//! What a configuration file or the command line may set, and how the
//! settings of a run are made from it.
use crate::extra_keys::{keys_view, ExtraKey, ExtraKeyModel, StripKey};
use crate::files::{is_rooted, normalize_path_to};
use crate::json::text_eq;
use crate::settings::{Settings, SettingsModel};
use crate::utils::path_view;
use vstd::prelude::*;

verus! {

/// What to do with the identifiers of cells.
#[derive(Debug, Clone, Copy, PartialEq, Eq, Structural)]
pub enum IdAction {
    /// Leave every identifier as it is.
    Keep,
    /// Remove every identifier.
    Drop,
    /// Number the cells from zero, in order.
    Sequential,
}

/// A pattern of files to leave out: as it was written, and made absolute.
#[derive(Debug, PartialEq, Eq)]
pub struct FilePattern {
    pub pattern: String,
    pub absolute: String,
}

pub struct FilePatternModel {
    pub pattern: Seq<char>,
    pub absolute: Seq<char>,
}

impl View for FilePattern {
    type V = FilePatternModel;

    open spec fn view(&self) -> FilePatternModel {
        FilePatternModel { pattern: self.pattern@, absolute: self.absolute@ }
    }
}

pub open spec fn patterns_view(patterns: Seq<FilePattern>) -> Seq<FilePatternModel> {
    patterns.map_values(|p: FilePattern| p@)
}

/// The patterns as they were written.
pub open spec fn pattern_texts(patterns: Seq<FilePatternModel>) -> Seq<Seq<char>> {
    patterns.map_values(|p: FilePatternModel| p.pattern)
}

impl FilePattern {
    /// The pattern, made absolute from the directory `path`, which starts
    /// at the root.
    pub fn new_with_path(pattern: &str, path: &str) -> (made: FilePattern)
        requires
            is_rooted(path@),
        ensures
            made@.pattern == pattern@,
    {
        let absolute = normalize_path_to(pattern, path);
        FilePattern { pattern: pattern.to_owned(), absolute }
    }
}

/// The section of a configuration file, as it is read.
#[derive(Debug, PartialEq, Eq)]
pub struct ConfigurationSection {
    pub extra_keys: Option<Vec<ExtraKey>>,
    pub drop_empty_cells: Option<bool>,
    pub drop_output: Option<bool>,
    pub drop_count: Option<bool>,
    pub id_action: Option<IdAction>,
    pub drop_tagged_cells: Option<Vec<String>>,
    pub strip_init_cell: Option<bool>,
    pub strip_kernel_info: Option<bool>,
    pub keep_keys: Option<Vec<ExtraKey>>,
    pub exclude: Option<Vec<String>>,
    pub extend_exclude: Option<Vec<String>>,
}

/// A configuration: a section whose file patterns were made absolute.
#[derive(Debug)]
pub struct Configuration {
    pub extra_keys: Option<Vec<ExtraKey>>,
    pub drop_empty_cells: Option<bool>,
    pub drop_output: Option<bool>,
    pub drop_count: Option<bool>,
    pub id_action: Option<IdAction>,
    pub drop_tagged_cells: Option<Vec<String>>,
    pub strip_init_cell: Option<bool>,
    pub strip_kernel_info: Option<bool>,
    pub keep_keys: Option<Vec<ExtraKey>>,
    pub exclude: Option<Vec<FilePattern>>,
    pub extend_exclude: Vec<FilePattern>,
}

pub struct ConfigurationModel {
    pub extra_keys: Option<Seq<ExtraKeyModel>>,
    pub drop_empty_cells: Option<bool>,
    pub drop_output: Option<bool>,
    pub drop_count: Option<bool>,
    pub id_action: Option<IdAction>,
    pub drop_tagged_cells: Option<Seq<Seq<char>>>,
    pub strip_init_cell: Option<bool>,
    pub strip_kernel_info: Option<bool>,
    pub keep_keys: Option<Seq<ExtraKeyModel>>,
    pub exclude: Option<Seq<FilePatternModel>>,
    pub extend_exclude: Seq<FilePatternModel>,
}

pub open spec fn opt_keys_view(o: Option<Vec<ExtraKey>>) -> Option<Seq<ExtraKeyModel>> {
    match o {
        Some(keys) => Some(keys_view(keys@)),
        None => None,
    }
}

pub open spec fn opt_texts_view(o: Option<Vec<String>>) -> Option<Seq<Seq<char>>> {
    match o {
        Some(texts) => Some(path_view(texts@)),
        None => None,
    }
}

pub open spec fn opt_patterns_view(o: Option<Vec<FilePattern>>) -> Option<Seq<FilePatternModel>> {
    match o {
        Some(patterns) => Some(patterns_view(patterns@)),
        None => None,
    }
}

impl View for Configuration {
    type V = ConfigurationModel;

    open spec fn view(&self) -> ConfigurationModel {
        ConfigurationModel {
            extra_keys: opt_keys_view(self.extra_keys),
            drop_empty_cells: self.drop_empty_cells,
            drop_output: self.drop_output,
            drop_count: self.drop_count,
            id_action: self.id_action,
            drop_tagged_cells: opt_texts_view(self.drop_tagged_cells),
            strip_init_cell: self.strip_init_cell,
            strip_kernel_info: self.strip_kernel_info,
            keep_keys: opt_keys_view(self.keep_keys),
            exclude: opt_patterns_view(self.exclude),
            extend_exclude: patterns_view(self.extend_exclude@),
        }
    }
}

impl Default for ConfigurationSection {
    fn default() -> (section: ConfigurationSection)
        ensures
            section == (ConfigurationSection {
                extra_keys: None,
                drop_empty_cells: None,
                drop_output: None,
                drop_count: None,
                id_action: None,
                drop_tagged_cells: None,
                strip_init_cell: None,
                strip_kernel_info: None,
                keep_keys: None,
                exclude: None,
                extend_exclude: None,
            }),
    {
        ConfigurationSection {
            extra_keys: None,
            drop_empty_cells: None,
            drop_output: None,
            drop_count: None,
            id_action: None,
            drop_tagged_cells: None,
            strip_init_cell: None,
            strip_kernel_info: None,
            keep_keys: None,
            exclude: None,
            extend_exclude: None,
        }
    }
}

impl Default for Configuration {
    fn default() -> (config: Configuration)
        ensures
            config@ == (ConfigurationModel {
                extra_keys: None,
                drop_empty_cells: None,
                drop_output: None,
                drop_count: None,
                id_action: None,
                drop_tagged_cells: None,
                strip_init_cell: None,
                strip_kernel_info: None,
                keep_keys: None,
                exclude: None,
                extend_exclude: Seq::empty(),
            }),
    {
        let config = Configuration {
            extra_keys: None,
            drop_empty_cells: None,
            drop_output: None,
            drop_count: None,
            id_action: None,
            drop_tagged_cells: None,
            strip_init_cell: None,
            strip_kernel_info: None,
            keep_keys: None,
            exclude: None,
            extend_exclude: Vec::new(),
        };
        assert(patterns_view(config.extend_exclude@) =~= Seq::empty());
        config
    }
}

/// Makes each pattern absolute from the directory `parent`.
fn patterns_from(texts: &Vec<String>, parent: &str) -> (patterns: Vec<FilePattern>)
    requires
        is_rooted(parent@),
    ensures
        pattern_texts(patterns_view(patterns@)) == path_view(texts@),
{
    let mut patterns: Vec<FilePattern> = Vec::new();
    let mut i: usize = 0;
    while i < texts.len()
        invariant
            i <= texts.len(),
            is_rooted(parent@),
            patterns.len() == i,
            forall|j: int| 0 <= j < i ==> (#[trigger] patterns[j])@.pattern == texts[j]@,
        decreases texts.len() - i,
    {
        patterns.push(FilePattern::new_with_path(texts[i].as_str(), parent));
        i += 1;
    }
    proof {
        assert(pattern_texts(patterns_view(patterns@)) =~= path_view(texts@));
    }
    patterns
}

impl ConfigurationSection {
    /// The configuration that the section stands for, its file patterns
    /// made absolute from the directory `parent`, which starts at the root.
    pub fn make_configuration(self, parent: &str) -> (config: Configuration)
        requires
            is_rooted(parent@),
        ensures
            config@.extra_keys == opt_keys_view(self.extra_keys),
            config@.drop_empty_cells == self.drop_empty_cells,
            config@.drop_output == self.drop_output,
            config@.drop_count == self.drop_count,
            config@.id_action == self.id_action,
            config@.drop_tagged_cells == opt_texts_view(self.drop_tagged_cells),
            config@.strip_init_cell == self.strip_init_cell,
            config@.strip_kernel_info == self.strip_kernel_info,
            config@.keep_keys == opt_keys_view(self.keep_keys),
            match self.exclude {
                Some(texts) => config@.exclude is Some && pattern_texts(config@.exclude->Some_0)
                    == path_view(texts@),
                None => config@.exclude is None,
            },
            pattern_texts(config@.extend_exclude) == (match self.extend_exclude {
                Some(texts) => path_view(texts@),
                None => Seq::empty(),
            }),
    {
        let exclude = match &self.exclude {
            Some(texts) => Some(patterns_from(texts, parent)),
            None => None,
        };
        let extend_exclude = match &self.extend_exclude {
            Some(texts) => patterns_from(texts, parent),
            None => Vec::new(),
        };
        proof {
            if self.extend_exclude is None {
                assert(pattern_texts(patterns_view(extend_exclude@)) =~= Seq::empty());
            }
        }
        Configuration {
            extra_keys: self.extra_keys,
            drop_empty_cells: self.drop_empty_cells,
            drop_output: self.drop_output,
            drop_count: self.drop_count,
            id_action: self.id_action,
            drop_tagged_cells: self.drop_tagged_cells,
            strip_init_cell: self.strip_init_cell,
            strip_kernel_info: self.strip_kernel_info,
            keep_keys: self.keep_keys,
            exclude,
            extend_exclude,
        }
    }
}

/// The keys that are stripped unless they are kept by name, as they are
/// written.
pub const EXTRA_KEYS: [&'static str; 8] = [
    "metadata.signature",
    "metadata.widgets",
    "cell.metadata.collapsed",
    "cell.metadata.ExecuteTime",
    "cell.metadata.execution",
    "cell.metadata.heading_collapsed",
    "cell.metadata.hidden",
    "cell.metadata.scrolled",
];

/// The keys that are stripped unless they are kept by name.
pub open spec fn default_keys() -> Seq<ExtraKeyModel> {
    seq![
        ExtraKeyModel::Metadata(seq!["signature"@]),
        ExtraKeyModel::Metadata(seq!["widgets"@]),
        ExtraKeyModel::CellMeta(seq!["collapsed"@]),
        ExtraKeyModel::CellMeta(seq!["ExecuteTime"@]),
        ExtraKeyModel::CellMeta(seq!["execution"@]),
        ExtraKeyModel::CellMeta(seq!["heading_collapsed"@]),
        ExtraKeyModel::CellMeta(seq!["hidden"@]),
        ExtraKeyModel::CellMeta(seq!["scrolled"@]),
    ]
}

/// The keys that hold what kernel a notebook was run with.
pub open spec fn kernel_info_keys() -> Seq<ExtraKeyModel> {
    seq![
        ExtraKeyModel::Metadata(seq!["kernelspec"@]),
        ExtraKeyModel::Metadata(seq!["language_info"@, "version"@]),
    ]
}

fn one_part(part: &str) -> (key: StripKey)
    ensures
        key@ == seq![part@],
{
    let mut parts: Vec<String> = Vec::new();
    parts.push(part.to_owned());
    proof {
        assert(path_view(parts@) =~= seq![part@]);
    }
    StripKey::from_parts(parts)
}

fn two_parts(first: &str, second: &str) -> (key: StripKey)
    ensures
        key@ == seq![first@, second@],
{
    let mut parts: Vec<String> = Vec::new();
    parts.push(first.to_owned());
    parts.push(second.to_owned());
    proof {
        assert(path_view(parts@) =~= seq![first@, second@]);
    }
    StripKey::from_parts(parts)
}

/// The keys that are stripped unless they are kept by name.
pub fn default_extra_keys() -> (keys: Vec<ExtraKey>)
    ensures
        keys_view(keys@) == default_keys(),
{
    let mut keys: Vec<ExtraKey> = Vec::new();
    keys.push(ExtraKey::Metadata(one_part("signature")));
    keys.push(ExtraKey::Metadata(one_part("widgets")));
    keys.push(ExtraKey::CellMeta(one_part("collapsed")));
    keys.push(ExtraKey::CellMeta(one_part("ExecuteTime")));
    keys.push(ExtraKey::CellMeta(one_part("execution")));
    keys.push(ExtraKey::CellMeta(one_part("heading_collapsed")));
    keys.push(ExtraKey::CellMeta(one_part("hidden")));
    keys.push(ExtraKey::CellMeta(one_part("scrolled")));
    proof {
        assert(keys_view(keys@) =~= default_keys());
    }
    keys
}

fn kernel_info_extra_keys() -> (keys: Vec<ExtraKey>)
    ensures
        keys_view(keys@) == kernel_info_keys(),
{
    let mut keys: Vec<ExtraKey> = Vec::new();
    keys.push(ExtraKey::Metadata(one_part("kernelspec")));
    keys.push(ExtraKey::Metadata(two_parts("language_info", "version")));
    proof {
        assert(keys_view(keys@) =~= kernel_info_keys());
    }
    keys
}

/// `acc`, then each key of `more` that was not there before, in order.
pub open spec fn merged(acc: Seq<ExtraKeyModel>, more: Seq<ExtraKeyModel>) -> Seq<ExtraKeyModel>
    decreases more.len(),
{
    if more.len() == 0 {
        acc
    } else {
        let front = merged(acc, more.drop_last());
        if front.contains(more.last()) {
            front
        } else {
            front.push(more.last())
        }
    }
}

/// The keys of `keys` that `keep` does not hold, in order.
pub open spec fn without(keys: Seq<ExtraKeyModel>, keep: Seq<ExtraKeyModel>) -> Seq<ExtraKeyModel>
    decreases keys.len(),
{
    if keys.len() == 0 {
        Seq::empty()
    } else {
        let front = without(keys.drop_last(), keep);
        if keep.contains(keys.last()) {
            front
        } else {
            front.push(keys.last())
        }
    }
}

pub open spec fn keys_or_none(o: Option<Seq<ExtraKeyModel>>) -> Seq<ExtraKeyModel> {
    match o {
        Some(keys) => keys,
        None => Seq::empty(),
    }
}

pub open spec fn texts_or_none(o: Option<Seq<Seq<char>>>) -> Seq<Seq<char>> {
    match o {
        Some(t) => t,
        None => Seq::empty(),
    }
}

pub open spec fn flag_or(o: Option<bool>, default: bool) -> bool {
    match o {
        Some(b) => b,
        None => default,
    }
}

/// The keys that a configuration strips: the default keys, then its own,
/// then those of the kernel where it strips them, each once; without the
/// keys that it keeps.
pub open spec fn settings_keys(c: ConfigurationModel) -> Seq<ExtraKeyModel> {
    let own = merged(default_keys(), keys_or_none(c.extra_keys));
    let all = if flag_or(c.strip_kernel_info, false) {
        merged(own, kernel_info_keys())
    } else {
        own
    };
    without(all, keys_or_none(c.keep_keys))
}

/// The settings that a configuration stands for. Outputs and counts are
/// dropped unless it says otherwise; nothing else is, unless it says so.
pub open spec fn settings_of(c: ConfigurationModel) -> SettingsModel {
    SettingsModel {
        extra_keys: settings_keys(c),
        drop_tagged_cells: texts_or_none(c.drop_tagged_cells),
        drop_empty_cells: flag_or(c.drop_empty_cells, false),
        drop_output: flag_or(c.drop_output, true),
        drop_count: flag_or(c.drop_count, true),
        id_action: match c.id_action {
            Some(a) => a,
            None => IdAction::Keep,
        },
        strip_init_cell: flag_or(c.strip_init_cell, false),
        strip_kernel_info: flag_or(c.strip_kernel_info, false),
        exclude: match c.exclude {
            Some(p) => pattern_texts(p),
            None => Seq::empty(),
        },
        extend_exclude: pattern_texts(c.extend_exclude),
    }
}

/// Whether two keys are the same key.
pub fn same_key(a: &ExtraKey, b: &ExtraKey) -> (same: bool)
    ensures
        same == (a@ == b@),
{
    let same_kind = match (a, b) {
        (ExtraKey::CellMeta(_), ExtraKey::CellMeta(_)) => true,
        (ExtraKey::Metadata(_), ExtraKey::Metadata(_)) => true,
        _ => false,
    };
    if !same_kind {
        return false;
    }
    let pa = a.get_parts();
    let pb = b.get_parts();
    if pa.len() != pb.len() {
        proof {
            assert(path_view(pa@).len() != path_view(pb@).len());
        }
        return false;
    }
    let mut i: usize = 0;
    while i < pa.len()
        invariant
            i <= pa.len(),
            pa.len() == pb.len(),
            path_view(pa@) == a@.parts(),
            path_view(pb@) == b@.parts(),
            forall|j: int| 0 <= j < i ==> (#[trigger] pa[j])@ == pb[j]@,
        decreases pa.len() - i,
    {
        if !text_eq(pa[i].as_str(), pb[i].as_str()) {
            proof {
                assert(path_view(pa@)[i as int] != path_view(pb@)[i as int]);
            }
            return false;
        }
        i += 1;
    }
    proof {
        assert(path_view(pa@) =~= path_view(pb@));
    }
    true
}

/// Whether `keys` holds `key`.
pub fn has_key(keys: &Vec<ExtraKey>, key: &ExtraKey) -> (found: bool)
    ensures
        found == keys_view(keys@).contains(key@),
{
    let mut i: usize = 0;
    while i < keys.len()
        invariant
            i <= keys.len(),
            forall|j: int| 0 <= j < i ==> (#[trigger] keys[j])@ != key@,
        decreases keys.len() - i,
    {
        if same_key(&keys[i], key) {
            proof {
                assert(keys_view(keys@)[i as int] == key@);
            }
            return true;
        }
        i += 1;
    }
    proof {
        let all = keys_view(keys@);
        assert forall|j: int| 0 <= j < all.len() implies all[j] != key@ by {
            assert(keys[j]@ != key@);
        }
    }
    false
}

/// Appends each key of `more` that `acc` does not hold yet.
fn merge_keys(acc: &mut Vec<ExtraKey>, more: Vec<ExtraKey>)
    ensures
        keys_view(final(acc)@) == merged(keys_view(old(acc)@), keys_view(more@)),
{
    let ghost start = keys_view(acc@);
    let ghost all = keys_view(more@);
    let mut more = more;
    let mut rest: Vec<ExtraKey> = Vec::new();
    // Turn `more` round, so that its keys can be taken from the end in order.
    while more.len() > 0
        invariant
            more.len() + rest.len() == all.len(),
            forall|j: int| 0 <= j < more.len() ==> (#[trigger] more[j])@ == all[j],
            forall|j: int|
                0 <= j < rest.len() ==> (#[trigger] rest[j])@ == all[all.len() - 1 - j],
        decreases more.len(),
    {
        let key = more.pop().unwrap();
        rest.push(key);
    }
    let ghost n = all.len();
    proof {
        assert(all.take(0) =~= Seq::empty());
    }
    while rest.len() > 0
        invariant
            rest.len() <= n,
            n == all.len(),
            forall|j: int| 0 <= j < rest.len() ==> (#[trigger] rest[j])@ == all[n - 1 - j],
            keys_view(acc@) == merged(start, all.take(n - rest.len())),
        decreases rest.len(),
    {
        let ghost done = n - rest.len();
        let ghost before = acc@;
        let key = rest.pop().unwrap();
        proof {
            assert(key@ == all[done]);
            assert(all.take(done + 1).drop_last() =~= all.take(done));
            assert(all.take(done + 1).last() == all[done]);
        }
        if !has_key(acc, &key) {
            acc.push(key);
            proof {
                assert(keys_view(acc@) =~= keys_view(before).push(key@));
            }
        }
    }
    proof {
        assert(all.take(n as int) =~= all);
    }
}

/// The keys of `keys` that `keep` does not hold, in order.
fn remove_keys(keys: Vec<ExtraKey>, keep: &Vec<ExtraKey>) -> (left: Vec<ExtraKey>)
    ensures
        keys_view(left@) == without(keys_view(keys@), keys_view(keep@)),
{
    let ghost all = keys_view(keys@);
    let ghost kept = keys_view(keep@);
    let mut keys = keys;
    let mut rest: Vec<ExtraKey> = Vec::new();
    while keys.len() > 0
        invariant
            keys.len() + rest.len() == all.len(),
            forall|j: int| 0 <= j < keys.len() ==> (#[trigger] keys[j])@ == all[j],
            forall|j: int|
                0 <= j < rest.len() ==> (#[trigger] rest[j])@ == all[all.len() - 1 - j],
        decreases keys.len(),
    {
        let key = keys.pop().unwrap();
        rest.push(key);
    }
    let ghost n = all.len();
    let mut left: Vec<ExtraKey> = Vec::new();
    proof {
        assert(all.take(0) =~= Seq::empty());
        assert(keys_view(left@) =~= Seq::empty());
    }
    while rest.len() > 0
        invariant
            rest.len() <= n,
            n == all.len(),
            kept == keys_view(keep@),
            forall|j: int| 0 <= j < rest.len() ==> (#[trigger] rest[j])@ == all[n - 1 - j],
            keys_view(left@) == without(all.take(n - rest.len()), kept),
        decreases rest.len(),
    {
        let ghost done = n - rest.len();
        let ghost before = left@;
        let key = rest.pop().unwrap();
        proof {
            assert(key@ == all[done]);
            assert(all.take(done + 1).drop_last() =~= all.take(done));
            assert(all.take(done + 1).last() == all[done]);
        }
        if !has_key(keep, &key) {
            left.push(key);
            proof {
                assert(keys_view(left@) =~= keys_view(before).push(key@));
            }
        }
    }
    proof {
        assert(all.take(n as int) =~= all);
    }
    left
}

/// The patterns as they were written.
fn texts_of(patterns: &Vec<FilePattern>) -> (texts: Vec<String>)
    ensures
        path_view(texts@) == pattern_texts(patterns_view(patterns@)),
{
    let mut texts: Vec<String> = Vec::new();
    let mut i: usize = 0;
    while i < patterns.len()
        invariant
            i <= patterns.len(),
            texts.len() == i,
            forall|j: int| 0 <= j < i ==> (#[trigger] texts[j])@ == patterns[j]@.pattern,
        decreases patterns.len() - i,
    {
        texts.push(patterns[i].pattern.clone());
        i += 1;
    }
    proof {
        assert(path_view(texts@) =~= pattern_texts(patterns_view(patterns@)));
    }
    texts
}

impl Configuration {
    /// The settings that the configuration stands for.
    pub fn into_settings(self) -> (settings: Settings)
        ensures
            settings@ == settings_of(self@),
    {
        let strip_kernel_info = match self.strip_kernel_info {
            Some(b) => b,
            None => false,
        };
        let mut extra_keys = default_extra_keys();
        match self.extra_keys {
            Some(keys) => merge_keys(&mut extra_keys, keys),
            None => {
                merge_keys(&mut extra_keys, Vec::new());
                assert(keys_view(Seq::<ExtraKey>::empty()) =~= Seq::empty());
            },
        }
        if strip_kernel_info {
            merge_keys(&mut extra_keys, kernel_info_extra_keys());
        }
        let extra_keys = match &self.keep_keys {
            Some(keep) => remove_keys(extra_keys, keep),
            None => {
                let none: Vec<ExtraKey> = Vec::new();
                assert(keys_view(none@) =~= Seq::empty());
                remove_keys(extra_keys, &none)
            },
        };
        let exclude = match &self.exclude {
            Some(patterns) => texts_of(patterns),
            None => Vec::new(),
        };
        let extend_exclude = texts_of(&self.extend_exclude);
        let drop_tagged_cells = match self.drop_tagged_cells {
            Some(tags) => tags,
            None => Vec::new(),
        };
        let settings = Settings {
            extra_keys,
            drop_tagged_cells,
            drop_empty_cells: match self.drop_empty_cells {
                Some(b) => b,
                None => false,
            },
            drop_output: match self.drop_output {
                Some(b) => b,
                None => true,
            },
            drop_count: match self.drop_count {
                Some(b) => b,
                None => true,
            },
            id_action: match self.id_action {
                Some(a) => a,
                None => IdAction::Keep,
            },
            strip_init_cell: match self.strip_init_cell {
                Some(b) => b,
                None => false,
            },
            strip_kernel_info,
            exclude,
            extend_exclude,
        };
        proof {
            assert(settings@.drop_tagged_cells =~= settings_of(self@).drop_tagged_cells);
            assert(settings@.exclude =~= settings_of(self@).exclude);
        }
        settings
    }
}

} // verus!
