//! One pass over a notebook that removes what the settings name, and says
//! whether anything was removed.
use crate::cell_impl::decimal;
use crate::cell_impl::decimal_text;
use crate::config::IdAction;
use crate::files::{NBReadError, NBWriteError};
use crate::extra_keys::{
    cell_keys_of, key_refs_view, meta_keys_of, partition_extra_keys, ExtraKey, ExtraKeyModel,
};
use crate::json::{Json, JsonValue};
use crate::schema::{
    cells_view, Cell, CellModel, NotebookModel, RawNotebook, ID_OPTIONAL_MAX_VERSION,
};
use crate::settings::{Settings, SettingsModel};
use crate::utils::{
    get_child, get_value_child, opt_view, path_view, pop_child, pop_value_child,
};
use vstd::prelude::*;
use vstd::string::StringExecFns;

verus! {

/// The tree after each of `keys` was popped from it in turn, and whether
/// any of them took something out.
pub open spec fn pop_all(v: JsonValue, keys: Seq<ExtraKeyModel>) -> (JsonValue, bool)
    decreases keys.len(),
{
    if keys.len() == 0 {
        (v, false)
    } else {
        let before = pop_all(v, keys.drop_last());
        let last = pop_child(before.0, keys.last().parts());
        (last.0, before.1 || last.1 is Some)
    }
}

/// The path of the entry by which a notebook keeps its outputs.
pub open spec fn keep_output_path() -> Seq<Seq<char>> {
    seq!["keep_output"@]
}

/// Whether outputs are dropped in a notebook with this metadata: the
/// setting says so and the notebook's `keep_output` is not `true`.
pub open spec fn drop_output_effective(metadata: JsonValue, drop_output: bool) -> bool {
    drop_output && get_child(metadata, keep_output_path()) != Some(JsonValue::Bool(true))
}

/// The cells that are not dropped, in order.
pub open spec fn retained(cells: Seq<CellModel>, s: SettingsModel) -> Seq<CellModel>
    decreases cells.len(),
{
    if cells.len() == 0 {
        Seq::empty()
    } else if cells[0].should_drop(s.drop_empty_cells, s.drop_tagged_cells) {
        retained(cells.drop_first(), s)
    } else {
        seq![cells[0]] + retained(cells.drop_first(), s)
    }
}

/// The cell is a code cell whose outputs a run clears.
pub open spec fn clears_outputs(cell: CellModel, drop_output: bool, s: SettingsModel) -> bool {
    match cell {
        CellModel::Code(c) => c.should_clear_output(drop_output, s.strip_init_cell)
            && !c.is_clear_outputs(),
        _ => false,
    }
}

/// The cell is a code cell whose execution counts a run clears.
pub open spec fn clears_counts(cell: CellModel, s: SettingsModel) -> bool {
    match cell {
        CellModel::Code(c) => s.drop_count && !c.is_clear_exec_count(),
        _ => false,
    }
}

/// The identifier policy changes the identifier of the cell at `pos`:
/// renumbering does where the identifier is not the position, dropping
/// where there is an identifier.
pub open spec fn rewrites_id(cell: CellModel, pos: nat, s: SettingsModel) -> bool {
    match s.id_action {
        IdAction::Sequential => cell.id() != Some(decimal(pos)),
        IdAction::Drop => cell.id() is Some,
        IdAction::Keep => false,
    }
}

pub open spec fn without_outputs(cell: CellModel) -> CellModel {
    match cell {
        CellModel::Code(c) => CellModel::Code(c.with_cleared_outputs()),
        _ => cell,
    }
}

pub open spec fn without_counts(cell: CellModel) -> CellModel {
    match cell {
        CellModel::Code(c) => CellModel::Code(c.with_cleared_counts()),
        _ => cell,
    }
}

/// The identifier that the policy gives the cell at `pos`.
pub open spec fn policy_id(pos: nat, s: SettingsModel) -> Option<Seq<char>> {
    match s.id_action {
        IdAction::Sequential => Some(decimal(pos)),
        _ => None,
    }
}

/// What a run makes of one cell.
pub struct CellOutcome {
    pub cell: CellModel,
    /// Something in the cell was changed.
    pub changed: bool,
    /// The cell had an identifier and lost it.
    pub dropped_id: bool,
}

/// The cell at `pos` after its outputs, its counts, its identifier and its
/// metadata keys were dealt with, in this order.
pub open spec fn strip_cell(
    cell: CellModel,
    pos: nat,
    drop_output: bool,
    s: SettingsModel,
    cell_keys: Seq<ExtraKeyModel>,
) -> CellOutcome {
    let c1 = if clears_outputs(cell, drop_output, s) {
        without_outputs(cell)
    } else {
        cell
    };
    let c2 = if clears_counts(c1, s) {
        without_counts(c1)
    } else {
        c1
    };
    let c3 = if rewrites_id(c2, pos, s) {
        c2.with_id(policy_id(pos, s))
    } else {
        c2
    };
    let popped = pop_all(c3.metadata(), cell_keys);
    CellOutcome {
        cell: c3.with_metadata(popped.0),
        changed: clears_outputs(cell, drop_output, s) || clears_counts(c1, s) || rewrites_id(
            c2,
            pos,
            s,
        ) || popped.1,
        dropped_id: s.id_action == IdAction::Drop && rewrites_id(c2, pos, s),
    }
}

/// The notebook after one run, and whether the run changed anything.
///
/// The notebook keys are popped from its metadata; the cells to drop are
/// taken out; every cell left is stripped at its new position; and where an
/// identifier was dropped, the minor format version goes down to the
/// largest one that asks for none. Whether outputs are dropped is read
/// from the metadata as it was before any key was popped.
pub open spec fn strip_spec(nb: NotebookModel, s: SettingsModel) -> (NotebookModel, bool) {
    let cell_keys = cell_keys_of(s.extra_keys);
    let drop_output = drop_output_effective(nb.metadata, s.drop_output);
    let meta = pop_all(nb.metadata, meta_keys_of(s.extra_keys));
    let kept = retained(nb.cells, s);
    let cells = Seq::new(
        kept.len(),
        |i: int| strip_cell(kept[i], i as nat, drop_output, s, cell_keys).cell,
    );
    let cells_changed = exists|i: int|
        0 <= i < kept.len() && (#[trigger] strip_cell(
            kept[i],
            i as nat,
            drop_output,
            s,
            cell_keys,
        )).changed;
    let dropped_id = exists|i: int|
        0 <= i < kept.len() && (#[trigger] strip_cell(
            kept[i],
            i as nat,
            drop_output,
            s,
            cell_keys,
        )).dropped_id;
    let downgrade = dropped_id && nb.nbformat_minor > ID_OPTIONAL_MAX_VERSION;
    (
        NotebookModel {
            cells,
            metadata: meta.0,
            nbformat: nb.nbformat,
            nbformat_minor: if downgrade {
                ID_OPTIONAL_MAX_VERSION
            } else {
                nb.nbformat_minor
            },
        },
        meta.1 || kept.len() != nb.cells.len() || cells_changed || downgrade,
    )
}

/// What popping one key from a cell does: nothing, unless the key names a
/// field of cell metadata.
pub open spec fn pop_cell_key_spec(cell: CellModel, key: ExtraKeyModel) -> (
    CellModel,
    Option<JsonValue>,
) {
    match key {
        ExtraKeyModel::CellMeta(path) => {
            let popped = pop_child(cell.metadata(), path);
            (cell.with_metadata(popped.0), popped.1)
        },
        _ => (cell, None),
    }
}

/// What popping one key from a notebook does: nothing, unless the key
/// names a field of notebook metadata.
pub open spec fn pop_meta_key_spec(nb: NotebookModel, key: ExtraKeyModel) -> (
    NotebookModel,
    Option<JsonValue>,
) {
    match key {
        ExtraKeyModel::Metadata(path) => {
            let popped = pop_child(nb.metadata, path);
            (NotebookModel { metadata: popped.0, ..nb }, popped.1)
        },
        _ => (nb, None),
    }
}

/// Pops the key from the cell's metadata, where it names a field of cell
/// metadata.
pub fn pop_cell_key(cell: &mut Cell, extra_key: &ExtraKey) -> (removed: Option<Json>)
    ensures
        (final(cell)@, opt_view(removed)) == pop_cell_key_spec(old(cell)@, extra_key@),
{
    match extra_key {
        ExtraKey::CellMeta(_) => {
            let parts = extra_key.get_parts();
            match cell {
                Cell::Code(c) => pop_value_child(&mut c.metadata, parts.as_slice()),
                Cell::Markdown(c) => pop_value_child(&mut c.metadata, parts.as_slice()),
                Cell::Raw(c) => pop_value_child(&mut c.metadata, parts.as_slice()),
            }
        },
        _ => None,
    }
}

/// Pops the key from the notebook's metadata, where it names a field of
/// notebook metadata.
pub fn pop_meta_key(nb: &mut RawNotebook, extra_key: &ExtraKey) -> (removed: Option<Json>)
    ensures
        (final(nb)@, opt_view(removed)) == pop_meta_key_spec(old(nb)@, extra_key@),
{
    match extra_key {
        ExtraKey::Metadata(_) => {
            let parts = extra_key.get_parts();
            pop_value_child(&mut nb.metadata, parts.as_slice())
        },
        _ => None,
    }
}

/// Every key that `cell_keys_of` keeps names a field of cell metadata.
pub proof fn lemma_cell_keys_kind(keys: Seq<ExtraKeyModel>)
    ensures
        forall|i: int|
            0 <= i < cell_keys_of(keys).len() ==> (#[trigger] cell_keys_of(keys)[i]) is CellMeta,
    decreases keys.len(),
{
    if keys.len() > 0 {
        lemma_cell_keys_kind(keys.drop_last());
    }
}

/// Every key that `meta_keys_of` keeps names a field of notebook metadata.
pub proof fn lemma_meta_keys_kind(keys: Seq<ExtraKeyModel>)
    ensures
        forall|i: int|
            0 <= i < meta_keys_of(keys).len() ==> (#[trigger] meta_keys_of(keys)[i]) is Metadata,
    decreases keys.len(),
{
    if keys.len() > 0 {
        lemma_meta_keys_kind(keys.drop_last());
    }
}

/// Pops each key from the notebook's metadata and says whether any took
/// something out.
fn pop_meta_keys(nb: &mut RawNotebook, keys: &Vec<&ExtraKey>) -> (changed: bool)
    requires
        forall|i: int| 0 <= i < keys.len() ==> (#[trigger] key_refs_view(keys@)[i]) is Metadata,
    ensures
        final(nb)@ == (NotebookModel {
            metadata: pop_all(old(nb)@.metadata, key_refs_view(keys@)).0,
            ..old(nb)@
        }),
        changed == pop_all(old(nb)@.metadata, key_refs_view(keys@)).1,
{
    let ghost all = key_refs_view(keys@);
    let ghost start = nb@;
    let mut changed = false;
    let mut k: usize = 0;
    assert(all.take(0) =~= Seq::empty());
    while k < keys.len()
        invariant
            k <= keys.len(),
            all == key_refs_view(keys@),
            forall|i: int| 0 <= i < keys.len() ==> (#[trigger] all[i]) is Metadata,
            nb@ == (NotebookModel {
                metadata: pop_all(start.metadata, all.take(k as int)).0,
                ..start
            }),
            changed == pop_all(start.metadata, all.take(k as int)).1,
        decreases keys.len() - k,
    {
        proof {
            assert(all.take(k + 1).drop_last() =~= all.take(k as int));
            assert(all.take(k + 1).last() == keys[k as int]@);
            assert(all[k as int] is Metadata);
        }
        let removed = pop_meta_key(nb, keys[k]);
        changed = changed || removed.is_some();
        k += 1;
    }
    proof {
        assert(all.take(k as int) =~= all);
    }
    changed
}

/// Takes the cells to drop out of the notebook and says whether there was
/// one.
fn drop_cells(nb: &mut RawNotebook, settings: &Settings) -> (changed: bool)
    ensures
        final(nb)@ == (NotebookModel { cells: retained(old(nb)@.cells, settings@), ..old(nb)@ }),
        changed == (retained(old(nb)@.cells, settings@).len() != old(nb)@.cells.len()),
{
    let ghost start = nb@;
    let ghost s = settings@;
    let mut changed = false;
    let mut i: usize = nb.cells.len();
    proof {
        assert(start.cells.skip(i as int) =~= Seq::empty());
        assert(start.cells.take(i as int) =~= start.cells);
    }
    while i > 0
        invariant
            i <= start.cells.len(),
            s == settings@,
            nb@.metadata == start.metadata,
            nb@.nbformat == start.nbformat,
            nb@.nbformat_minor == start.nbformat_minor,
            nb@.cells == start.cells.take(i as int) + retained(start.cells.skip(i as int), s),
            changed == (retained(start.cells.skip(i as int), s).len() != start.cells.len() - i),
            retained(start.cells.skip(i as int), s).len() <= start.cells.len() - i,
            nb.cells.len() == i + retained(start.cells.skip(i as int), s).len(),
        decreases i,
    {
        i -= 1;
        let ghost tail = start.cells.skip(i as int);
        let ghost before = nb.cells@;
        proof {
            assert(tail.drop_first() =~= start.cells.skip(i + 1));
            assert(tail[0] == start.cells[i as int]);
            assert(nb@.cells[i as int] == start.cells[i as int]);
        }
        if nb.cells[i].should_drop(settings.drop_empty_cells, &settings.drop_tagged_cells) {
            nb.cells.remove(i);
            changed = true;
            proof {
                assert(cells_view(nb.cells@) =~= cells_view(before).remove(i as int));
                assert(nb@.cells =~= start.cells.take(i as int) + retained(tail, s));
            }
        } else {
            proof {
                assert(nb@.cells =~= start.cells.take(i as int) + retained(tail, s));
            }
        }
    }
    proof {
        assert(start.cells.skip(0) =~= start.cells);
        assert(nb@.cells =~= retained(start.cells, s));
    }
    changed
}

/// Strips the cell at position `i` and says whether that changed it and
/// whether it lost an identifier.
fn strip_one(
    cell: &mut Cell,
    i: usize,
    drop_output: bool,
    settings: &Settings,
    cell_keys: &Vec<&ExtraKey>,
) -> (flags: (bool, bool))
    requires
        forall|k: int|
            0 <= k < cell_keys.len() ==> (#[trigger] key_refs_view(cell_keys@)[k]) is CellMeta,
    ensures
        (CellOutcome { cell: final(cell)@, changed: flags.0, dropped_id: flags.1 }) == strip_cell(
            old(cell)@,
            i as nat,
            drop_output,
            settings@,
            key_refs_view(cell_keys@),
        ),
{
    let ghost s = settings@;
    let ghost c0 = cell@;
    let mut changed = false;
    let mut dropped_id = false;
    match cell {
        Cell::Code(codecell) => {
            if codecell.should_clear_output(drop_output, settings.strip_init_cell)
                && !codecell.is_clear_outputs() {
                changed = true;
                codecell.clear_outputs();
            }
            if settings.drop_count && !codecell.is_clear_exec_count() {
                changed = true;
                codecell.clear_counts();
            }
        },
        _ => {},
    }
    let ghost c1 = if clears_outputs(c0, drop_output, s) {
        without_outputs(c0)
    } else {
        c0
    };
    let ghost c2 = cell@;
    assert(c2 == if clears_counts(c1, s) {
        without_counts(c1)
    } else {
        c1
    });
    match settings.id_action {
        IdAction::Sequential => {
            if !cell.has_sequential_id(i) {
                changed = true;
                cell.set_id(Some(decimal_text(i)));
            }
        },
        IdAction::Drop => {
            if cell.get_id().is_some() {
                changed = true;
                dropped_id = true;
                cell.set_id(None);
            }
        },
        IdAction::Keep => {},
    }
    let ghost c3 = cell@;
    let ghost keys = key_refs_view(cell_keys@);
    let ghost before_keys = changed;
    let mut popped = false;
    let mut k: usize = 0;
    proof {
        assert(keys.take(0) =~= Seq::empty());
        assert(c3.with_metadata(c3.metadata()) == c3);
    }
    while k < cell_keys.len()
        invariant
            k <= cell_keys.len(),
            keys == key_refs_view(cell_keys@),
            forall|j: int| 0 <= j < cell_keys.len() ==> (#[trigger] keys[j]) is CellMeta,
            cell@ == c3.with_metadata(pop_all(c3.metadata(), keys.take(k as int)).0),
            popped == pop_all(c3.metadata(), keys.take(k as int)).1,
        decreases cell_keys.len() - k,
    {
        proof {
            assert(keys.take(k + 1).drop_last() =~= keys.take(k as int));
            assert(keys.take(k + 1).last() == cell_keys[k as int]@);
            assert(keys[k as int] is CellMeta);
        }
        let removed = pop_cell_key(cell, cell_keys[k]);
        popped = popped || removed.is_some();
        k += 1;
    }
    proof {
        assert(keys.take(k as int) =~= keys);
    }
    (changed || popped, dropped_id)
}

/// Strips the notebook as the settings say. Returns it with whether
/// anything was changed.
pub fn strip_nb(nb: RawNotebook, settings: &Settings) -> (out: (RawNotebook, bool))
    ensures
        (out.0@, out.1) == strip_spec(nb@, settings@),
{
    let mut nb = nb;
    let ghost start = nb@;
    let ghost s = settings@;
    let (cell_keys, meta_keys) = partition_extra_keys(settings.extra_keys.as_slice());
    proof {
        lemma_cell_keys_kind(s.extra_keys);
        lemma_meta_keys_kind(s.extra_keys);
    }
    let mut path: Vec<String> = Vec::new();
    path.push(String::from_str("keep_output"));
    proof {
        assert(path_view(path@) =~= keep_output_path());
    }
    let nb_keep_output = match get_value_child(&nb.metadata, path.as_slice()) {
        Some(v) => match v.as_bool() {
            Some(b) => b,
            None => false,
        },
        None => false,
    };
    let drop_output = settings.drop_output && !nb_keep_output;
    assert(drop_output == drop_output_effective(start.metadata, s.drop_output));

    let mut stripped = pop_meta_keys(&mut nb, &meta_keys);
    let dropped = drop_cells(&mut nb, settings);
    stripped = stripped || dropped;

    let ghost kept = nb@.cells;
    let ghost keys = key_refs_view(cell_keys@);
    let mut cells_changed = false;
    let mut downgrade_nbversion_minor = false;
    let mut i: usize = 0;
    while i < nb.cells.len()
        invariant
            i <= nb.cells.len(),
            nb.cells.len() == kept.len(),
            s == settings@,
            keys == key_refs_view(cell_keys@),
            forall|k: int| 0 <= k < cell_keys.len() ==> (#[trigger] keys[k]) is CellMeta,
            nb@.metadata == pop_all(start.metadata, meta_keys_of(s.extra_keys)).0,
            nb@.nbformat == start.nbformat,
            nb@.nbformat_minor == start.nbformat_minor,
            forall|j: int|
                0 <= j < i ==> (#[trigger] nb@.cells[j]) == strip_cell(
                    kept[j],
                    j as nat,
                    drop_output,
                    s,
                    keys,
                ).cell,
            forall|j: int| i <= j < kept.len() ==> (#[trigger] nb@.cells[j]) == kept[j],
            cells_changed == exists|j: int|
                0 <= j < i && (#[trigger] strip_cell(kept[j], j as nat, drop_output, s, keys)).changed,
            downgrade_nbversion_minor == exists|j: int|
                0 <= j < i && (#[trigger] strip_cell(
                    kept[j],
                    j as nat,
                    drop_output,
                    s,
                    keys,
                )).dropped_id,
        decreases nb.cells.len() - i,
    {
        let ghost before = nb.cells@;
        let ghost cells_before = nb@.cells;
        assert(cells_before[i as int] == kept[i as int]);
        assert(cells_before == cells_view(before));
        let flags = strip_one(&mut nb.cells[i], i, drop_output, settings, &cell_keys);
        proof {
            let outcome = strip_cell(kept[i as int], i as nat, drop_output, s, keys);
            assert(outcome.changed == flags.0);
            assert(outcome.dropped_id == flags.1);
            assert forall|j: int| 0 <= j < i + 1 implies (#[trigger] nb@.cells[j]) == strip_cell(
                kept[j],
                j as nat,
                drop_output,
                s,
                keys,
            ).cell by {
                if j < i {
                    assert(nb.cells@[j] == before[j]);
                    assert(cells_before[j] == strip_cell(
                        kept[j],
                        j as nat,
                        drop_output,
                        s,
                        keys,
                    ).cell);
                }
            }
            assert forall|j: int| i + 1 <= j < kept.len() implies (#[trigger] nb@.cells[j])
                == kept[j] by {
                assert(nb.cells@[j] == before[j]);
                assert(cells_before[j] == kept[j]);
            }
        }
        cells_changed = cells_changed || flags.0;
        downgrade_nbversion_minor = downgrade_nbversion_minor || flags.1;
        i += 1;
    }
    stripped = stripped || cells_changed;
    if downgrade_nbversion_minor && nb.nbformat_minor > ID_OPTIONAL_MAX_VERSION {
        nb.nbformat_minor = ID_OPTIONAL_MAX_VERSION;
        stripped = true;
    }
    proof {
        assert(nb@.cells =~= strip_spec(start, s).0.cells);
    }
    (nb, stripped)
}

/// What a strip of one file did, where it did not fail.
#[derive(Debug, Clone, Copy, PartialEq, Eq, Structural)]
pub enum StripSuccess {
    NoChange,
    Stripped,
}

impl StripSuccess {
    pub fn from_stripped(stripped: bool) -> (success: StripSuccess)
        ensures
            success == if stripped {
                StripSuccess::Stripped
            } else {
                StripSuccess::NoChange
            },
    {
        if stripped {
            StripSuccess::Stripped
        } else {
            StripSuccess::NoChange
        }
    }
}

/// What a strip of one file did, or the text of why it failed.
#[derive(Debug, PartialEq, Eq)]
pub enum StripResult {
    NoChange,
    Stripped,
    ReadError(String),
    WriteError(String),
}

pub enum StripResultModel {
    NoChange,
    Stripped,
    ReadError(Seq<char>),
    WriteError(Seq<char>),
}

impl View for StripResult {
    type V = StripResultModel;

    open spec fn view(&self) -> StripResultModel {
        match self {
            StripResult::NoChange => StripResultModel::NoChange,
            StripResult::Stripped => StripResultModel::Stripped,
            StripResult::ReadError(e) => StripResultModel::ReadError(e@),
            StripResult::WriteError(e) => StripResultModel::WriteError(e@),
        }
    }
}

impl StripResultModel {
    /// The result as a line of text.
    pub open spec fn text(self) -> Seq<char> {
        match self {
            StripResultModel::NoChange => "No Change"@,
            StripResultModel::Stripped => "Stripped"@,
            StripResultModel::ReadError(e) => "Read error: "@ + e,
            StripResultModel::WriteError(e) => "Write error: "@ + e,
        }
    }
}

impl StripResult {
    pub fn is_err(&self) -> (failed: bool)
        ensures
            failed == (self@ is ReadError || self@ is WriteError),
    {
        match self {
            StripResult::ReadError(_) => true,
            StripResult::WriteError(_) => true,
            _ => false,
        }
    }

    /// The result as a line of text.
    pub fn to_string(&self) -> (text: String)
        ensures
            text@ == self@.text(),
    {
        match self {
            StripResult::NoChange => String::from_str("No Change"),
            StripResult::Stripped => String::from_str("Stripped"),
            StripResult::ReadError(e) => String::from_str("Read error: ").concat(e.as_str()),
            StripResult::WriteError(e) => String::from_str("Write error: ").concat(e.as_str()),
        }
    }
}

impl From<StripSuccess> for StripResult {
    fn from(value: StripSuccess) -> (result: StripResult) {
        match value {
            StripSuccess::NoChange => StripResult::NoChange,
            StripSuccess::Stripped => StripResult::Stripped,
        }
    }
}

impl vstd::std_specs::convert::FromSpecImpl<StripSuccess> for StripResult {
    open spec fn obeys_from_spec() -> bool {
        true
    }

    open spec fn from_spec(value: StripSuccess) -> StripResult {
        match value {
            StripSuccess::NoChange => StripResult::NoChange,
            StripSuccess::Stripped => StripResult::Stripped,
        }
    }
}

/// Why a strip of one file failed.
#[derive(Debug)]
pub enum StripError {
    ReadError(NBReadError),
    WriteError(NBWriteError),
}

impl StripResult {
    /// The result of a failed strip: `ReadError` where the notebook could
    /// not be read, `WriteError` where it could not be written, each with
    /// the text of the error.
    pub fn from_error(value: StripError) -> (result: StripResult)
        ensures
            value is ReadError <==> result is ReadError,
            value is WriteError <==> result is WriteError,
    {
        match value {
            StripError::ReadError(e) => StripResult::ReadError(e.text()),
            StripError::WriteError(e) => StripResult::WriteError(e.text()),
        }
    }

    /// The result of a strip that succeeded or failed.
    pub fn from_outcome(value: Result<StripSuccess, StripError>) -> (result: StripResult)
        ensures
            match value {
                Ok(StripSuccess::NoChange) => result is NoChange,
                Ok(StripSuccess::Stripped) => result is Stripped,
                Err(StripError::ReadError(_)) => result is ReadError,
                Err(StripError::WriteError(_)) => result is WriteError,
            },
    {
        match value {
            Ok(StripSuccess::NoChange) => StripResult::NoChange,
            Ok(StripSuccess::Stripped) => StripResult::Stripped,
            Err(e) => StripResult::from_error(e),
        }
    }
}

impl From<Result<StripSuccess, StripError>> for StripResult {
    fn from(value: Result<StripSuccess, StripError>) -> (result: StripResult) {
        StripResult::from_outcome(value)
    }
}

impl vstd::std_specs::convert::FromSpecImpl<Result<StripSuccess, StripError>> for StripResult {
    open spec fn obeys_from_spec() -> bool {
        false
    }

    open spec fn from_spec(value: Result<StripSuccess, StripError>) -> StripResult {
        arbitrary()
    }
}

impl From<StripError> for StripResult {
    fn from(value: StripError) -> (result: StripResult) {
        StripResult::from_error(value)
    }
}

impl vstd::std_specs::convert::FromSpecImpl<StripError> for StripResult {
    open spec fn obeys_from_spec() -> bool {
        false
    }

    open spec fn from_spec(value: StripError) -> StripResult {
        arbitrary()
    }
}

} // verus!
