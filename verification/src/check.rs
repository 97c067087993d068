//! A pass over a notebook that changes nothing and lists what a strip
//! would change.
use crate::cell_impl::{decimal, decimal_text};
use crate::config::IdAction;
use crate::files::{io_error_text, json_error_text, NBReadError};
use crate::extra_keys::{
    cell_keys_of, key_refs_view, meta_keys_of, partition_extra_keys, ExtraKey, ExtraKeyModel,
};
use crate::json::{Json, JsonValue};
use crate::schema::{CellModel, NotebookModel, RawNotebook};
use crate::settings::{Settings, SettingsModel};
use crate::strip::{
    clears_counts, clears_outputs, drop_output_effective, keep_output_path, rewrites_id,
};
use crate::utils::{get_child, get_value_child, path_view};
use vstd::prelude::*;
use vstd::string::StringExecFns;

verus! {

/// One thing that a strip would change, or why the notebook could not be
/// read.
#[derive(Debug, PartialEq, Eq)]
pub enum CheckResult {
    IOError { error: String },
    InvalidNotebook { error: String },
    StripMeta { extra_key: String },
    DropCells { cell_number: usize },
    ClearOutput { cell_number: usize },
    ClearCount { cell_number: usize },
    ClearId { cell_number: usize },
    CellStripMeta { cell_number: usize, extra_key: String },
}

pub enum CheckResultModel {
    IOError { error: Seq<char> },
    InvalidNotebook { error: Seq<char> },
    StripMeta { extra_key: Seq<char> },
    DropCells { cell_number: int },
    ClearOutput { cell_number: int },
    ClearCount { cell_number: int },
    ClearId { cell_number: int },
    CellStripMeta { cell_number: int, extra_key: Seq<char> },
}

impl View for CheckResult {
    type V = CheckResultModel;

    open spec fn view(&self) -> CheckResultModel {
        match self {
            CheckResult::IOError { error } => CheckResultModel::IOError { error: error@ },
            CheckResult::InvalidNotebook { error } => CheckResultModel::InvalidNotebook {
                error: error@,
            },
            CheckResult::StripMeta { extra_key } => CheckResultModel::StripMeta {
                extra_key: extra_key@,
            },
            CheckResult::DropCells { cell_number } => CheckResultModel::DropCells {
                cell_number: *cell_number as int,
            },
            CheckResult::ClearOutput { cell_number } => CheckResultModel::ClearOutput {
                cell_number: *cell_number as int,
            },
            CheckResult::ClearCount { cell_number } => CheckResultModel::ClearCount {
                cell_number: *cell_number as int,
            },
            CheckResult::ClearId { cell_number } => CheckResultModel::ClearId {
                cell_number: *cell_number as int,
            },
            CheckResult::CellStripMeta { cell_number, extra_key } => CheckResultModel::CellStripMeta {
                cell_number: *cell_number as int,
                extra_key: extra_key@,
            },
        }
    }
}

impl CheckResult {
    /// The finding that a notebook could not be read: `IOError` where the
    /// file could not be, `InvalidNotebook` where its content is no
    /// notebook, each with the text of the error.
    pub fn from_read_error(value: NBReadError) -> (finding: CheckResult)
        ensures
            value is IO <==> finding is IOError,
            value is Serde <==> finding is InvalidNotebook,
    {
        match value {
            NBReadError::IO(e) => CheckResult::IOError { error: io_error_text(&e) },
            NBReadError::Serde(e) => CheckResult::InvalidNotebook { error: json_error_text(&e) },
        }
    }
}

impl From<NBReadError> for CheckResult {
    fn from(value: NBReadError) -> (finding: CheckResult) {
        CheckResult::from_read_error(value)
    }
}

impl vstd::std_specs::convert::FromSpecImpl<NBReadError> for CheckResult {
    open spec fn obeys_from_spec() -> bool {
        false
    }

    open spec fn from_spec(value: NBReadError) -> CheckResult {
        arbitrary()
    }
}

/// A finding together with the file it was made in.
#[derive(Debug)]
pub struct PathCheckResult<'a> {
    pub path: &'a str,
    pub result: &'a CheckResult,
}

impl CheckResultModel {
    /// The finding as a line of text.
    pub open spec fn text(self) -> Seq<char> {
        match self {
            CheckResultModel::IOError { error } => "IO Error: "@ + error,
            CheckResultModel::InvalidNotebook { error } => "Invalid notebook: "@ + error,
            CheckResultModel::DropCells { cell_number } => "cell: "@ + decimal(cell_number as nat)
                + ": Found cell to be dropped"@,
            CheckResultModel::StripMeta { extra_key } => "Found notebook metadata: "@ + extra_key,
            CheckResultModel::CellStripMeta { cell_number, extra_key } => "cell "@ + decimal(
                cell_number as nat,
            ) + ": Found cell metadata "@ + extra_key,
            CheckResultModel::ClearCount { cell_number } => "cell "@ + decimal(cell_number as nat)
                + ": Found cell with execution count"@,
            CheckResultModel::ClearId { cell_number } => "cell "@ + decimal(cell_number as nat)
                + ": Found cell with Id"@,
            CheckResultModel::ClearOutput { cell_number } => "cell "@ + decimal(cell_number as nat)
                + ": Found cell with output"@,
        }
    }
}

impl CheckResult {
    /// The finding as a line of text.
    pub fn to_string(&self) -> (text: String)
        ensures
            text@ == self@.text(),
    {
        match self {
            CheckResult::IOError { error } => String::from_str("IO Error: ").concat(error.as_str()),
            CheckResult::InvalidNotebook { error } => String::from_str("Invalid notebook: ").concat(
                error.as_str(),
            ),
            CheckResult::DropCells { cell_number } => String::from_str("cell: ").concat(
                decimal_text(*cell_number).as_str(),
            ).concat(": Found cell to be dropped"),
            CheckResult::StripMeta { extra_key } => String::from_str(
                "Found notebook metadata: ",
            ).concat(extra_key.as_str()),
            CheckResult::CellStripMeta { cell_number, extra_key } => String::from_str(
                "cell ",
            ).concat(decimal_text(*cell_number).as_str()).concat(": Found cell metadata ").concat(
                extra_key.as_str(),
            ),
            CheckResult::ClearCount { cell_number } => String::from_str("cell ").concat(
                decimal_text(*cell_number).as_str(),
            ).concat(": Found cell with execution count"),
            CheckResult::ClearId { cell_number } => String::from_str("cell ").concat(
                decimal_text(*cell_number).as_str(),
            ).concat(": Found cell with Id"),
            CheckResult::ClearOutput { cell_number } => String::from_str("cell ").concat(
                decimal_text(*cell_number).as_str(),
            ).concat(": Found cell with output"),
        }
    }
}

/// For each position below `n` at which `found` holds, in order, the
/// finding that `make` gives for it.
pub open spec fn select(
    n: nat,
    found: spec_fn(int) -> bool,
    make: spec_fn(int) -> CheckResultModel,
) -> Seq<CheckResultModel>
    decreases n,
{
    if n == 0 {
        Seq::empty()
    } else if found(n - 1) {
        select((n - 1) as nat, found, make).push(make(n - 1))
    } else {
        select((n - 1) as nat, found, make)
    }
}

/// Nothing is selected exactly where `found` holds nowhere.
pub proof fn lemma_select_empty(
    n: nat,
    found: spec_fn(int) -> bool,
    make: spec_fn(int) -> CheckResultModel,
)
    ensures
        select(n, found, make).len() == 0 <==> forall|i: int| 0 <= i < n ==> !#[trigger] found(i),
    decreases n,
{
    if n > 0 {
        lemma_select_empty((n - 1) as nat, found, make);
    }
}

/// The key at `k` leads to a value in `v`.
pub open spec fn key_found(v: JsonValue, keys: Seq<ExtraKeyModel>) -> spec_fn(int) -> bool {
    |k: int| get_child(v, keys[k].parts()) is Some
}

pub open spec fn meta_finding(keys: Seq<ExtraKeyModel>) -> spec_fn(int) -> CheckResultModel {
    |k: int| CheckResultModel::StripMeta { extra_key: keys[k].text() }
}

pub open spec fn cell_meta_finding(cell_number: int, keys: Seq<ExtraKeyModel>) -> spec_fn(
    int,
) -> CheckResultModel {
    |k: int| CheckResultModel::CellStripMeta { cell_number, extra_key: keys[k].text() }
}

pub open spec fn drop_found(cells: Seq<CellModel>, s: SettingsModel) -> spec_fn(int) -> bool {
    |i: int| cells[i].should_drop(s.drop_empty_cells, s.drop_tagged_cells)
}

pub open spec fn drop_finding() -> spec_fn(int) -> CheckResultModel {
    |i: int| CheckResultModel::DropCells { cell_number: i }
}

pub open spec fn output_found(cells: Seq<CellModel>, drop_output: bool, s: SettingsModel) -> spec_fn(
    int,
) -> bool {
    |i: int| clears_outputs(cells[i], drop_output, s)
}

pub open spec fn output_finding() -> spec_fn(int) -> CheckResultModel {
    |i: int| CheckResultModel::ClearOutput { cell_number: i }
}

pub open spec fn count_found(cells: Seq<CellModel>, s: SettingsModel) -> spec_fn(int) -> bool {
    |i: int| clears_counts(cells[i], s)
}

pub open spec fn count_finding() -> spec_fn(int) -> CheckResultModel {
    |i: int| CheckResultModel::ClearCount { cell_number: i }
}

pub open spec fn id_found(cells: Seq<CellModel>, s: SettingsModel) -> spec_fn(int) -> bool {
    |i: int| i >= 0 && rewrites_id(cells[i], i as nat, s)
}

pub open spec fn id_finding() -> spec_fn(int) -> CheckResultModel {
    |i: int| CheckResultModel::ClearId { cell_number: i }
}

/// For each of the first `n` cells in order, the cell keys that lead to a
/// value in its metadata.
pub open spec fn cell_meta_findings(cells: Seq<CellModel>, keys: Seq<ExtraKeyModel>, n: nat) -> Seq<
    CheckResultModel,
>
    decreases n,
{
    if n == 0 {
        Seq::empty()
    } else {
        cell_meta_findings(cells, keys, (n - 1) as nat) + select(
            keys.len(),
            key_found(cells[n - 1].metadata(), keys),
            cell_meta_finding(n - 1, keys),
        )
    }
}

/// What a strip of the notebook would change, kind by kind: the notebook
/// keys that are present; the cells to drop; then, each over all cells by
/// their position in the notebook as it is, the outputs to clear, the
/// counts to clear, the identifiers to rewrite; and last, cell by cell,
/// the cell keys that are present.
pub open spec fn check_spec(nb: NotebookModel, s: SettingsModel) -> Seq<CheckResultModel> {
    let cell_keys = cell_keys_of(s.extra_keys);
    let meta_keys = meta_keys_of(s.extra_keys);
    let drop_output = drop_output_effective(nb.metadata, s.drop_output);
    let n = nb.cells.len();
    select(meta_keys.len(), key_found(nb.metadata, meta_keys), meta_finding(meta_keys)) + select(
        n,
        drop_found(nb.cells, s),
        drop_finding(),
    ) + select(n, output_found(nb.cells, drop_output, s), output_finding()) + select(
        n,
        count_found(nb.cells, s),
        count_finding(),
    ) + select(n, id_found(nb.cells, s), id_finding()) + cell_meta_findings(
        nb.cells,
        cell_keys,
        n,
    )
}

pub open spec fn results_view(results: Seq<CheckResult>) -> Seq<CheckResultModel> {
    results.map_values(|r: CheckResult| r@)
}

proof fn lemma_results_push(before: Seq<CheckResult>, r: CheckResult)
    ensures
        results_view(before.push(r)) == results_view(before).push(r@),
{
    assert(results_view(before.push(r)) =~= results_view(before).push(r@));
}

/// Appends, for each key that leads to a value in `metadata`, the finding
/// that `make` gives.
fn check_keys(
    metadata: &Json,
    keys: &Vec<&ExtraKey>,
    cell_number: Option<usize>,
    out: &mut Vec<CheckResult>,
)
    ensures
        results_view(final(out)@) == results_view(old(out)@) + select(
            keys.len() as nat,
            key_found(metadata@, key_refs_view(keys@)),
            match cell_number {
                Some(n) => cell_meta_finding(n as int, key_refs_view(keys@)),
                None => meta_finding(key_refs_view(keys@)),
            },
        ),
{
    let ghost all = key_refs_view(keys@);
    let ghost found = key_found(metadata@, all);
    let ghost make = match cell_number {
        Some(n) => cell_meta_finding(n as int, all),
        None => meta_finding(all),
    };
    let ghost start = results_view(out@);
    let mut k: usize = 0;
    proof {
        assert(start + select(0, found, make) =~= start);
    }
    while k < keys.len()
        invariant
            k <= keys.len(),
            all == key_refs_view(keys@),
            found == key_found(metadata@, all),
            make == (match cell_number {
                Some(n) => cell_meta_finding(n as int, all),
                None => meta_finding(all),
            }),
            results_view(out@) == start + select(k as nat, found, make),
        decreases keys.len() - k,
    {
        let key = keys[k];
        assert(all[k as int] == key@);
        if get_value_child(metadata, key.get_parts().as_slice()).is_some() {
            let extra_key = key.to_string();
            let finding = match cell_number {
                Some(n) => CheckResult::CellStripMeta { cell_number: n, extra_key },
                None => CheckResult::StripMeta { extra_key },
            };
            proof {
                lemma_results_push(out@, finding);
                assert(finding@ == make(k as int));
                assert(start + select((k + 1) as nat, found, make) =~= (start + select(
                    k as nat,
                    found,
                    make,
                )).push(make(k as int)));
            }
            out.push(finding);
        }
        k += 1;
    }
}

/// Which of the kinds that are found cell by cell a pass looks for.
#[derive(Clone, Copy, PartialEq, Eq, Structural)]
enum CellKind {
    Drop,
    Output,
    Count,
    Id,
}

spec fn kind_found(kind: CellKind, cells: Seq<CellModel>, drop_output: bool, s: SettingsModel) -> spec_fn(
    int,
) -> bool {
    match kind {
        CellKind::Drop => drop_found(cells, s),
        CellKind::Output => output_found(cells, drop_output, s),
        CellKind::Count => count_found(cells, s),
        CellKind::Id => id_found(cells, s),
    }
}

spec fn kind_finding(kind: CellKind) -> spec_fn(int) -> CheckResultModel {
    match kind {
        CellKind::Drop => drop_finding(),
        CellKind::Output => output_finding(),
        CellKind::Count => count_finding(),
        CellKind::Id => id_finding(),
    }
}

/// Appends the findings of one kind, over all cells in order.
fn check_cells(
    nb: &RawNotebook,
    settings: &Settings,
    drop_output: bool,
    kind: CellKind,
    out: &mut Vec<CheckResult>,
)
    ensures
        results_view(final(out)@) == results_view(old(out)@) + select(
            nb@.cells.len(),
            kind_found(kind, nb@.cells, drop_output, settings@),
            kind_finding(kind),
        ),
{
    let ghost cells = nb@.cells;
    let ghost s = settings@;
    let ghost found = kind_found(kind, cells, drop_output, s);
    let ghost make = kind_finding(kind);
    let ghost start = results_view(out@);
    let mut i: usize = 0;
    proof {
        assert(start + select(0, found, make) =~= start);
    }
    while i < nb.cells.len()
        invariant
            i <= nb.cells.len(),
            cells == nb@.cells,
            cells.len() == nb.cells.len(),
            s == settings@,
            found == kind_found(kind, cells, drop_output, s),
            make == kind_finding(kind),
            results_view(out@) == start + select(i as nat, found, make),
        decreases nb.cells.len() - i,
    {
        let cell = &nb.cells[i];
        assert(cells[i as int] == cell@);
        let hit = match kind {
            CellKind::Drop => cell.should_drop(
                settings.drop_empty_cells,
                &settings.drop_tagged_cells,
            ),
            CellKind::Output => match cell.as_codecell() {
                Some(c) => !c.is_clear_outputs() && c.should_clear_output(
                    drop_output,
                    settings.strip_init_cell,
                ),
                None => false,
            },
            CellKind::Count => match cell.as_codecell() {
                Some(c) => settings.drop_count && !c.is_clear_exec_count(),
                None => false,
            },
            CellKind::Id => match settings.id_action {
                IdAction::Sequential => !cell.has_sequential_id(i),
                IdAction::Drop => cell.get_id().is_some(),
                IdAction::Keep => false,
            },
        };
        assert(hit == found(i as int));
        if hit {
            let finding = match kind {
                CellKind::Drop => CheckResult::DropCells { cell_number: i },
                CellKind::Output => CheckResult::ClearOutput { cell_number: i },
                CellKind::Count => CheckResult::ClearCount { cell_number: i },
                CellKind::Id => CheckResult::ClearId { cell_number: i },
            };
            proof {
                lemma_results_push(out@, finding);
                assert(finding@ == make(i as int));
                assert(start + select((i + 1) as nat, found, make) =~= (start + select(
                    i as nat,
                    found,
                    make,
                )).push(make(i as int)));
            }
            out.push(finding);
        }
        i += 1;
    }
}

/// Lists what a strip of the notebook would change. The notebook is left
/// as it is.
pub fn check_nb(nb: &RawNotebook, settings: &Settings) -> (out: Vec<CheckResult>)
    ensures
        results_view(out@) == check_spec(nb@, settings@),
{
    let ghost s = settings@;
    let ghost cells = nb@.cells;
    let (cell_keys, meta_keys) = partition_extra_keys(settings.extra_keys.as_slice());
    let mut out: Vec<CheckResult> = Vec::new();
    let mut path: Vec<String> = Vec::new();
    path.push(String::from_str("keep_output"));
    proof {
        assert(path_view(path@) =~= keep_output_path());
        assert(results_view(out@) =~= Seq::empty());
    }
    let nb_keep_output = match get_value_child(&nb.metadata, path.as_slice()) {
        Some(v) => match v.as_bool() {
            Some(b) => b,
            None => false,
        },
        None => false,
    };
    let drop_output = settings.drop_output && !nb_keep_output;
    assert(drop_output == drop_output_effective(nb@.metadata, s.drop_output));

    check_keys(&nb.metadata, &meta_keys, None, &mut out);
    check_cells(nb, settings, drop_output, CellKind::Drop, &mut out);
    check_cells(nb, settings, drop_output, CellKind::Output, &mut out);
    check_cells(nb, settings, drop_output, CellKind::Count, &mut out);
    check_cells(nb, settings, drop_output, CellKind::Id, &mut out);

    let ghost keys = key_refs_view(cell_keys@);
    let ghost start = results_view(out@);
    let mut i: usize = 0;
    proof {
        assert(start + cell_meta_findings(cells, keys, 0) =~= start);
    }
    while i < nb.cells.len()
        invariant
            i <= nb.cells.len(),
            cells == nb@.cells,
            cells.len() == nb.cells.len(),
            keys == key_refs_view(cell_keys@),
            results_view(out@) == start + cell_meta_findings(cells, keys, i as nat),
        decreases nb.cells.len() - i,
    {
        let cell = &nb.cells[i];
        assert(cells[i as int] == cell@);
        let ghost before = results_view(out@);
        check_keys(cell.get_metadata(), &cell_keys, Some(i), &mut out);
        proof {
            assert(keys.len() == cell_keys.len());
            assert(start + cell_meta_findings(cells, keys, (i + 1) as nat) =~= before + select(
                keys.len(),
                key_found(cells[i as int].metadata(), keys),
                cell_meta_finding(i as int, keys),
            ));
        }
        i += 1;
    }
    proof {
        assert(results_view(out@) =~= check_spec(nb@, s));
    }
    out
}

} // verus!
