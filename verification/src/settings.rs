//! The resolved policy of one run.
use crate::config::IdAction;
use crate::extra_keys::{keys_view, ExtraKey, ExtraKeyModel};
use crate::utils::path_view;
use vstd::prelude::*;

verus! {

/// What a run strips. It does not change while the run lasts.
#[derive(Debug)]
pub struct Settings {
    /// The metadata keys to strip, each once, in the order in which they
    /// are popped.
    pub extra_keys: Vec<ExtraKey>,
    /// The tags that drop a cell.
    pub drop_tagged_cells: Vec<String>,
    pub drop_empty_cells: bool,
    pub drop_output: bool,
    pub drop_count: bool,
    pub id_action: IdAction,
    pub strip_init_cell: bool,
    pub strip_kernel_info: bool,
    /// The file patterns to leave out, as they were written.
    pub exclude: Vec<String>,
    pub extend_exclude: Vec<String>,
}

pub struct SettingsModel {
    pub extra_keys: Seq<ExtraKeyModel>,
    pub drop_tagged_cells: Seq<Seq<char>>,
    pub drop_empty_cells: bool,
    pub drop_output: bool,
    pub drop_count: bool,
    pub id_action: IdAction,
    pub strip_init_cell: bool,
    pub strip_kernel_info: bool,
    pub exclude: Seq<Seq<char>>,
    pub extend_exclude: Seq<Seq<char>>,
}

impl View for Settings {
    type V = SettingsModel;

    open spec fn view(&self) -> SettingsModel {
        SettingsModel {
            extra_keys: keys_view(self.extra_keys@),
            drop_tagged_cells: path_view(self.drop_tagged_cells@),
            drop_empty_cells: self.drop_empty_cells,
            drop_output: self.drop_output,
            drop_count: self.drop_count,
            id_action: self.id_action,
            strip_init_cell: self.strip_init_cell,
            strip_kernel_info: self.strip_kernel_info,
            exclude: path_view(self.exclude@),
            extend_exclude: path_view(self.extend_exclude@),
        }
    }
}

impl SettingsModel {
    /// Every key has a path, and no key occurs twice.
    pub open spec fn wf(self) -> bool {
        &&& forall|i: int| 0 <= i < self.extra_keys.len() ==> (#[trigger] self.extra_keys[i]).wf()
        &&& self.extra_keys.no_duplicates()
    }
}

} // verus!
