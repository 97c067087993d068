//! What holds of the strip and the check together, and of the settings
//! that they are run with.
use crate::cell_impl::{decimal, has_tag, output_has_count, tags_of};
use crate::check::{
    cell_meta_finding, cell_meta_findings, check_spec, count_finding, count_found, drop_finding,
    drop_found, id_finding, id_found, key_found, lemma_select_empty, meta_finding, output_finding,
    output_found,
};
use crate::config::{
    default_keys, flag_or, kernel_info_keys, keys_or_none, merged, settings_of, without,
    ConfigurationModel, IdAction,
};
use crate::extra_keys::{
    cell_keys_of, first_of, meta_keys_of, parse_key, split_on, ExtraKeyModel,
    ExtraKeyParseError,
};
use crate::json::{
    key_index, keys_distinct, lemma_key_index, lemma_key_index_is, swap_removed, JsonValue,
};
use crate::schema::{CellModel, CodeCellModel, NotebookModel, ID_OPTIONAL_MAX_VERSION};
use crate::settings::SettingsModel;
use crate::strip::{
    clears_counts, clears_outputs, drop_output_effective, policy_id, pop_all, retained,
    rewrites_id, strip_cell, strip_spec, without_counts, without_outputs,
};
use crate::utils::{dotted, get_child, get_from, join_with, pop_child, pop_from};
use vstd::prelude::*;

verus! {

/// Storing under a key the value that it already has changes nothing.
pub proof fn lemma_with_field_same(v: JsonValue, key: Seq<char>)
    requires
        v.has_field(key),
    ensures
        v.with_field(key, v.field(key)->Some_0) == v,
{
    let entries = v->Object_0;
    let i = key_index(entries, key);
    lemma_key_index(entries, key);
    assert(entries.update(i, (entries[i].0, entries[i].1)) =~= entries);
}

/// Below a strict leading run: a pop takes something out exactly where a
/// lookup finds something, and a pop that takes nothing out changes
/// nothing.
pub proof fn lemma_pop_from_finds(v: JsonValue, path: Seq<Seq<char>>, n: nat)
    requires
        n < path.len(),
    ensures
        pop_from(v, path, n).1 is Some <==> get_from(v, path, n) is Some,
        pop_from(v, path, n).1 is None ==> pop_from(v, path, n).0 == v,
    decreases path.len(), n,
{
    if n > 0 {
        let key = dotted(path.take(n as int));
        match v.field(key) {
            Some(inner) => {
                lemma_pop_finds(inner, path.skip(n as int));
                if pop_child(inner, path.skip(n as int)).1 is None {
                    lemma_with_field_same(v, key);
                }
            },
            None => {
                lemma_pop_from_finds(v, path, (n - 1) as nat);
            },
        }
    }
}

/// A pop along a path that is not empty takes something out exactly where
/// a lookup along it finds something, and a pop that takes nothing out
/// changes nothing.
pub proof fn lemma_pop_finds(v: JsonValue, path: Seq<Seq<char>>)
    requires
        path.len() > 0,
    ensures
        pop_child(v, path).1 is Some <==> get_child(v, path) is Some,
        pop_child(v, path).1 is None ==> pop_child(v, path).0 == v,
    decreases path.len(), path.len(),
{
    let n = path.len();
    assert(path.take(n as int) =~= path);
    assert(path.skip(n as int).len() == 0);
    assert(get_child(v, path) == get_from(v, path, n));
    if v.has_field(dotted(path)) {
        let inner = v.field(dotted(path))->Some_0;
        assert(get_child(inner, path.skip(n as int)) == Some(inner));
        assert(get_from(v, path, n) == Some(inner));
    } else {
        assert(get_from(v, path, n) == get_from(v, path, (n - 1) as nat));
        lemma_pop_from_finds(v, path, (n - 1) as nat);
    }
}

/// Every key has a path.
pub open spec fn keys_wf(keys: Seq<ExtraKeyModel>) -> bool {
    forall|k: int| 0 <= k < keys.len() ==> (#[trigger] keys[k]).wf()
}

pub proof fn lemma_parted_keys_wf(keys: Seq<ExtraKeyModel>)
    requires
        keys_wf(keys),
    ensures
        keys_wf(cell_keys_of(keys)),
        keys_wf(meta_keys_of(keys)),
    decreases keys.len(),
{
    if keys.len() > 0 {
        lemma_parted_keys_wf(keys.drop_last());
        assert(keys.last().wf());
    }
}

/// Popping keys in turn takes nothing out exactly where none of them
/// leads to a value, and then the tree is as it was.
pub proof fn lemma_pop_all_finds(v: JsonValue, keys: Seq<ExtraKeyModel>)
    requires
        keys_wf(keys),
    ensures
        !pop_all(v, keys).1 <==> forall|k: int|
            0 <= k < keys.len() ==> !#[trigger] key_found(v, keys)(k),
        !pop_all(v, keys).1 ==> pop_all(v, keys).0 == v,
    decreases keys.len(),
{
    if keys.len() > 0 {
        let front = keys.drop_last();
        let last = keys.last();
        assert(last.wf());
        assert forall|k: int| 0 <= k < front.len() implies (#[trigger] front[k]).wf() by {
            assert(front[k] == keys[k]);
        }
        lemma_pop_all_finds(v, front);
        let before = pop_all(v, front);
        lemma_pop_finds(before.0, last.parts());
        assert forall|k: int| 0 <= k < front.len() implies #[trigger] key_found(v, front)(k)
            == key_found(v, keys)(k) by {
            assert(front[k] == keys[k]);
        }
        if !pop_all(v, keys).1 {
            assert forall|k: int| 0 <= k < keys.len() implies !#[trigger] key_found(v, keys)(
                k,
            ) by {
                if k < front.len() {
                    assert(!key_found(v, front)(k));
                }
            }
        }
        if forall|k: int| 0 <= k < keys.len() ==> !#[trigger] key_found(v, keys)(k) {
            assert forall|k: int| 0 <= k < front.len() implies !#[trigger] key_found(v, front)(
                k,
            ) by {
                assert(!key_found(v, keys)(k));
            }
            assert(!key_found(v, keys)(keys.len() - 1));
        }
    }
}

/// The cells that stay are all the cells exactly where none is to be
/// dropped, and none of those that stay is to be dropped.
pub proof fn lemma_retained(cells: Seq<CellModel>, s: SettingsModel)
    ensures
        retained(cells, s).len() <= cells.len(),
        retained(cells, s).len() == cells.len() <==> forall|i: int|
            0 <= i < cells.len() ==> !#[trigger] drop_found(cells, s)(i),
        retained(cells, s).len() == cells.len() ==> retained(cells, s) == cells,
        forall|i: int|
            0 <= i < retained(cells, s).len() ==> !(#[trigger] retained(cells, s)[i]).should_drop(
                s.drop_empty_cells,
                s.drop_tagged_cells,
            ),
    decreases cells.len(),
{
    if cells.len() > 0 {
        let rest = cells.drop_first();
        lemma_retained(rest, s);
        assert forall|i: int| 0 <= i < rest.len() implies #[trigger] drop_found(rest, s)(i)
            == drop_found(cells, s)(i + 1) by {
            assert(rest[i] == cells[i + 1]);
        }
        if cells[0].should_drop(s.drop_empty_cells, s.drop_tagged_cells) {
            assert(drop_found(cells, s)(0));
        } else {
            if retained(cells, s).len() == cells.len() {
                assert(retained(cells, s) =~= cells);
                assert forall|i: int| 0 <= i < cells.len() implies !#[trigger] drop_found(
                    cells,
                    s,
                )(i) by {
                    if i > 0 {
                        assert(!drop_found(rest, s)(i - 1));
                    }
                }
            }
            if forall|i: int| 0 <= i < cells.len() ==> !#[trigger] drop_found(cells, s)(i) {
                assert forall|i: int| 0 <= i < rest.len() implies !#[trigger] drop_found(
                    rest,
                    s,
                )(i) by {
                    assert(!drop_found(cells, s)(i + 1));
                }
            }
            assert forall|i: int| 0 <= i < retained(cells, s).len() implies !(
            #[trigger] retained(cells, s)[i]).should_drop(
                s.drop_empty_cells,
                s.drop_tagged_cells,
            ) by {
                if i > 0 {
                    assert(retained(cells, s)[i] == retained(rest, s)[i - 1]);
                }
            }
        }
    }
}

/// No cell key is found in any of the first `n` cells exactly where the
/// findings on cell keys are none.
pub proof fn lemma_cell_meta_findings_empty(
    cells: Seq<CellModel>,
    keys: Seq<ExtraKeyModel>,
    n: nat,
)
    ensures
        cell_meta_findings(cells, keys, n).len() == 0 <==> forall|i: int, k: int|
            0 <= i < n && 0 <= k < keys.len() ==> !#[trigger] key_found(cells[i].metadata(), keys)(
                k,
            ),
    decreases n,
{
    if n > 0 {
        lemma_cell_meta_findings_empty(cells, keys, (n - 1) as nat);
        lemma_select_empty(
            keys.len(),
            key_found(cells[n - 1].metadata(), keys),
            cell_meta_finding(n - 1, keys),
        );
    }
}

/// A cell is changed by a strip exactly where its outputs or its counts
/// are cleared, its identifier is rewritten, or a cell key leads to a
/// value in its metadata.
pub proof fn lemma_cell_changed(
    cell: CellModel,
    pos: nat,
    drop_output: bool,
    s: SettingsModel,
    keys: Seq<ExtraKeyModel>,
)
    requires
        keys_wf(keys),
    ensures
        strip_cell(cell, pos, drop_output, s, keys).changed <==> (clears_outputs(
            cell,
            drop_output,
            s,
        ) || clears_counts(cell, s) || rewrites_id(cell, pos, s) || exists|k: int|
            0 <= k < keys.len() && #[trigger] key_found(cell.metadata(), keys)(k)),
        !strip_cell(cell, pos, drop_output, s, keys).changed ==> strip_cell(
            cell,
            pos,
            drop_output,
            s,
            keys,
        ).cell == cell,
{
    lemma_pop_all_finds(cell.metadata(), keys);
    if !clears_outputs(cell, drop_output, s) && !clears_counts(cell, s) && !rewrites_id(
        cell,
        pos,
        s,
    ) {
        assert(cell.with_metadata(cell.metadata()) == cell);
    }
}

/// The check finds nothing exactly where the strip changes nothing.
pub proof fn law_check_strip_agreement(nb: NotebookModel, s: SettingsModel)
    requires
        keys_wf(s.extra_keys),
    ensures
        check_spec(nb, s).len() == 0 <==> !strip_spec(nb, s).1,
{
    let cell_keys = cell_keys_of(s.extra_keys);
    let meta_keys = meta_keys_of(s.extra_keys);
    let drop_output = drop_output_effective(nb.metadata, s.drop_output);
    let n = nb.cells.len();
    let kept = retained(nb.cells, s);
    lemma_parted_keys_wf(s.extra_keys);
    lemma_pop_all_finds(nb.metadata, meta_keys);
    lemma_retained(nb.cells, s);
    lemma_select_empty(meta_keys.len(), key_found(nb.metadata, meta_keys), meta_finding(meta_keys));
    lemma_select_empty(n, drop_found(nb.cells, s), drop_finding());
    lemma_select_empty(n, output_found(nb.cells, drop_output, s), output_finding());
    lemma_select_empty(n, count_found(nb.cells, s), count_finding());
    lemma_select_empty(n, id_found(nb.cells, s), id_finding());
    lemma_cell_meta_findings_empty(nb.cells, cell_keys, n);
    assert forall|i: int| 0 <= i < n implies (#[trigger] strip_cell(
        nb.cells[i],
        i as nat,
        drop_output,
        s,
        cell_keys,
    )).changed == (output_found(nb.cells, drop_output, s)(i) || count_found(nb.cells, s)(i)
        || id_found(nb.cells, s)(i) || exists|k: int|
        0 <= k < cell_keys.len() && #[trigger] key_found(nb.cells[i].metadata(), cell_keys)(k)) by {
        lemma_cell_changed(nb.cells[i], i as nat, drop_output, s, cell_keys);
    }
    if check_spec(nb, s).len() == 0 {
        assert(kept == nb.cells);
        assert forall|i: int| 0 <= i < n implies !(#[trigger] strip_cell(
            kept[i],
            i as nat,
            drop_output,
            s,
            cell_keys,
        )).changed by {
            assert(!output_found(nb.cells, drop_output, s)(i));
            assert(!count_found(nb.cells, s)(i));
            assert(!id_found(nb.cells, s)(i));
        }
        assert(!strip_spec(nb, s).1);
    }
    if !strip_spec(nb, s).1 {
        assert(kept == nb.cells);
        assert forall|i: int| 0 <= i < n implies !#[trigger] output_found(
            nb.cells,
            drop_output,
            s,
        )(i) by {
            assert(!strip_cell(kept[i], i as nat, drop_output, s, cell_keys).changed);
        }
        assert forall|i: int| 0 <= i < n implies !#[trigger] count_found(nb.cells, s)(i) by {
            assert(!strip_cell(kept[i], i as nat, drop_output, s, cell_keys).changed);
        }
        assert forall|i: int| 0 <= i < n implies !#[trigger] id_found(nb.cells, s)(i) by {
            assert(!strip_cell(kept[i], i as nat, drop_output, s, cell_keys).changed);
        }
        assert forall|i: int, k: int| 0 <= i < n && 0 <= k < cell_keys.len() implies !#[trigger] key_found(
            nb.cells[i].metadata(),
            cell_keys,
        )(k) by {
            assert(!strip_cell(kept[i], i as nat, drop_output, s, cell_keys).changed);
        }
        assert(check_spec(nb, s).len() == 0);
    }
}

/// Where the entries of two objects carry the same keys in the same
/// order, a key is found at the same position in both.
pub proof fn lemma_key_index_same_keys(
    a: Seq<(Seq<char>, JsonValue)>,
    b: Seq<(Seq<char>, JsonValue)>,
    key: Seq<char>,
)
    requires
        a.len() == b.len(),
        forall|j: int| 0 <= j < a.len() ==> (#[trigger] a[j]).0 == b[j].0,
    ensures
        key_index(a, key) == key_index(b, key),
{
    lemma_key_index(b, key);
    let i = key_index(b, key);
    assert forall|j: int| 0 <= j < i implies (#[trigger] a[j]).0 != key by {
        assert(b[j].0 != key);
    }
    lemma_key_index_is(a, key, i);
}

/// An object that was given a value under a key holds that value there.
pub proof fn lemma_with_field_reads(v: JsonValue, key: Seq<char>, value: JsonValue)
    requires
        v is Object,
    ensures
        v.with_field(key, value).field(key) == Some(value),
{
    let entries = v->Object_0;
    let i = key_index(entries, key);
    lemma_key_index(entries, key);
    if i < entries.len() {
        let after = entries.update(i, (entries[i].0, value));
        assert forall|j: int| 0 <= j < after.len() implies (#[trigger] after[j]).0
            == entries[j].0 by {}
        lemma_key_index_same_keys(after, entries, key);
    } else {
        let after = entries.push((key, value));
        assert forall|j: int| 0 <= j < i implies (#[trigger] after[j]).0 != key by {
            assert(after[j] == entries[j]);
        }
        lemma_key_index_is(after, key, i);
    }
}

/// A code cell whose counts were cleared has none.
pub proof fn lemma_cleared_counts_clear(c: CodeCellModel)
    ensures
        c.with_cleared_counts().is_clear_exec_count(),
{
    let after = c.with_cleared_counts();
    assert forall|i: int| 0 <= i < after.outputs.len() implies !output_has_count(
        #[trigger] after.outputs[i],
    ) by {
        let o = c.outputs[i];
        if o is Object {
            lemma_with_field_reads(o, "execution_count"@, JsonValue::Null);
        }
    }
}

/// The keys of the value, where it is an object, are distinct.
pub open spec fn top_distinct(v: JsonValue) -> bool {
    v is Object ==> keys_distinct(v->Object_0)
}

/// A pop makes an object of an object and leaves anything else as it is.
pub proof fn lemma_pop_shape(v: JsonValue, path: Seq<Seq<char>>)
    ensures
        pop_child(v, path).0 is Object <==> v is Object,
        !(v is Object) ==> pop_child(v, path).0 == v,
{
    if path.len() > 0 {
        lemma_pop_from_shape(v, path, (path.len() - 1) as nat);
    }
}

proof fn lemma_pop_from_shape(v: JsonValue, path: Seq<Seq<char>>, n: nat)
    ensures
        pop_from(v, path, n).0 is Object <==> v is Object,
        !(v is Object) ==> pop_from(v, path, n).0 == v,
    decreases n,
{
    if n > 0 && n < path.len() {
        if v.field(dotted(path.take(n as int))) is None {
            lemma_pop_from_shape(v, path, (n - 1) as nat);
        }
    }
}

/// After a pop from an object with distinct keys the keys are distinct
/// still, and an array that is read under a key was there before.
pub proof fn lemma_pop_reads(v: JsonValue, path: Seq<Seq<char>>, key: Seq<char>)
    requires
        top_distinct(v),
    ensures
        top_distinct(pop_child(v, path).0),
        pop_child(v, path).0.field(key) is Some && pop_child(v, path).0.field(key)->Some_0 is Array
            ==> v.field(key) == pop_child(v, path).0.field(key),
{
    lemma_pop_shape(v, path);
    if v is Object {
        let e = v->Object_0;
        let direct = v.remove_field(dotted(path));
        if direct.1 is Some {
            let i = key_index(e, dotted(path));
            lemma_key_index(e, dotted(path));
            let after = swap_removed(e, i);
            assert forall|a: int, b: int| 0 <= a < b < after.len() implies (#[trigger] after[a]).0 != (
            #[trigger] after[b]).0 by {
                let a0 = if a == i { e.len() - 1 } else { a };
                let b0 = if b == i { e.len() - 1 } else { b };
                assert(after[a] == e[a0]);
                assert(after[b] == e[b0]);
                if a0 < b0 {
                    assert(e[a0].0 != e[b0].0);
                } else {
                    assert(e[b0].0 != e[a0].0);
                }
            }
            lemma_key_index(after, key);
            let j = key_index(after, key);
            if j < after.len() {
                let j0 = if j == i { e.len() - 1 } else { j };
                assert(after[j] == e[j0]);
                lemma_key_index(e, key);
                let k = key_index(e, key);
                if k < j0 {
                    assert(e[k].0 != e[j0].0);
                }
                assert(k == j0);
            }
        } else if path.len() > 0 {
            lemma_pop_from_reads(v, path, (path.len() - 1) as nat, key);
        }
    }
}

proof fn lemma_pop_from_reads(v: JsonValue, path: Seq<Seq<char>>, n: nat, key: Seq<char>)
    requires
        top_distinct(v),
        v is Object,
    ensures
        top_distinct(pop_from(v, path, n).0),
        pop_from(v, path, n).0.field(key) is Some && pop_from(v, path, n).0.field(key)->Some_0 is Array
            ==> v.field(key) == pop_from(v, path, n).0.field(key),
    decreases n,
{
    if n > 0 && n < path.len() {
        let prefix = dotted(path.take(n as int));
        match v.field(prefix) {
            Some(inner) => {
                let e = v->Object_0;
                let i = key_index(e, prefix);
                lemma_key_index(e, prefix);
                let below = pop_child(inner, path.skip(n as int));
                lemma_pop_shape(inner, path.skip(n as int));
                let after = e.update(i, (e[i].0, below.0));
                assert(pop_from(v, path, n).0 == JsonValue::Object(after));
                assert forall|j: int| 0 <= j < after.len() implies (#[trigger] after[j]).0
                    == e[j].0 by {}
                assert forall|a: int, b: int| 0 <= a < b < after.len() implies (#[trigger] after[a]).0 != (
                #[trigger] after[b]).0 by {
                    assert(e[a].0 != e[b].0);
                }
                lemma_key_index_same_keys(after, e, key);
                lemma_key_index(e, key);
            },
            None => {
                lemma_pop_from_reads(v, path, (n - 1) as nat, key);
            },
        }
    }
}

/// A tag that drops a cell is not made by popping keys: where the
/// metadata carries one after the pops, it carried it before.
pub proof fn lemma_pop_all_tags(v: JsonValue, keys: Seq<ExtraKeyModel>)
    requires
        top_distinct(v),
    ensures
        top_distinct(pop_all(v, keys).0),
        tags_of(pop_all(v, keys).0) is Some ==> tags_of(v)
            == tags_of(pop_all(v, keys).0),
    decreases keys.len(),
{
    if keys.len() > 0 {
        lemma_pop_all_tags(v, keys.drop_last());
        let before = pop_all(v, keys.drop_last());
        lemma_pop_reads(before.0, keys.last().parts(), "tags"@);
    }
}

/// No key of the settings is left where a run left it, and no code cell
/// is left with outputs that a further run would clear: the state in which
/// a run leaves a notebook unless popping one key laid another open, or a
/// key was popped that had protected outputs.
pub open spec fn settled(nb: NotebookModel, s: SettingsModel) -> bool {
    let after = strip_spec(nb, s).0;
    let cell_keys = cell_keys_of(s.extra_keys);
    let meta_keys = meta_keys_of(s.extra_keys);
    let drop_output = drop_output_effective(after.metadata, s.drop_output);
    &&& forall|k: int|
        0 <= k < meta_keys.len() ==> !#[trigger] key_found(after.metadata, meta_keys)(k)
    &&& forall|i: int, k: int|
        0 <= i < after.cells.len() && 0 <= k < cell_keys.len() ==> !#[trigger] key_found(
            after.cells[i].metadata(),
            cell_keys,
        )(k)
    &&& forall|i: int|
        0 <= i < after.cells.len() ==> !#[trigger] output_found(after.cells, drop_output, s)(i)
}

/// The metadata of every cell is a tree in which no object has a key
/// twice.
pub open spec fn cells_wf(nb: NotebookModel) -> bool {
    forall|i: int| 0 <= i < nb.cells.len() ==> (#[trigger] nb.cells[i]).metadata().wf()
}

/// A second strip changes nothing, where the first left the notebook
/// settled.
pub proof fn law_strip_idempotent(nb: NotebookModel, s: SettingsModel)
    requires
        keys_wf(s.extra_keys),
        cells_wf(nb),
        settled(nb, s),
    ensures
        !strip_spec(strip_spec(nb, s).0, s).1,
{
    let after = strip_spec(nb, s).0;
    let cell_keys = cell_keys_of(s.extra_keys);
    let meta_keys = meta_keys_of(s.extra_keys);
    let drop_first = drop_output_effective(nb.metadata, s.drop_output);
    let drop_output = drop_output_effective(after.metadata, s.drop_output);
    let kept = retained(nb.cells, s);
    let n = after.cells.len();
    lemma_retained(nb.cells, s);
    assert(n == kept.len());
    assert forall|i: int| 0 <= i < n implies !#[trigger] drop_found(after.cells, s)(i) by {
        lemma_retained_from(nb.cells, s, i);
        lemma_cell_settles(kept[i], i as nat, drop_first, s, cell_keys);
    }
    assert forall|i: int| 0 <= i < n implies !#[trigger] count_found(after.cells, s)(i) by {
        lemma_retained_from(nb.cells, s, i);
        lemma_cell_settles(kept[i], i as nat, drop_first, s, cell_keys);
    }
    assert forall|i: int| 0 <= i < n implies !#[trigger] id_found(after.cells, s)(i) by {
        lemma_retained_from(nb.cells, s, i);
        lemma_cell_settles(kept[i], i as nat, drop_first, s, cell_keys);
    }
    lemma_select_empty(meta_keys.len(), key_found(after.metadata, meta_keys), meta_finding(meta_keys));
    lemma_select_empty(n, drop_found(after.cells, s), drop_finding());
    lemma_select_empty(n, output_found(after.cells, drop_output, s), output_finding());
    lemma_select_empty(n, count_found(after.cells, s), count_finding());
    lemma_select_empty(n, id_found(after.cells, s), id_finding());
    lemma_cell_meta_findings_empty(after.cells, cell_keys, n);
    assert(check_spec(after, s).len() == 0);
    law_check_strip_agreement(after, s);
}

/// A cell that a strip has dealt with is not dropped by a further one,
/// if it was not dropped by the first; and its counts and its identifier
/// are as a further strip would leave them.
pub proof fn lemma_cell_settles(
    c: CellModel,
    pos: nat,
    drop_output: bool,
    s: SettingsModel,
    keys: Seq<ExtraKeyModel>,
)
    requires
        top_distinct(c.metadata()),
    ensures
        strip_cell(c, pos, drop_output, s, keys).cell.should_drop(
            s.drop_empty_cells,
            s.drop_tagged_cells,
        ) ==> c.should_drop(s.drop_empty_cells, s.drop_tagged_cells),
        !clears_counts(strip_cell(c, pos, drop_output, s, keys).cell, s),
        !rewrites_id(strip_cell(c, pos, drop_output, s, keys).cell, pos, s),
{
    let c1 = if clears_outputs(c, drop_output, s) {
        without_outputs(c)
    } else {
        c
    };
    if let CellModel::Code(code) = c1 {
        lemma_cleared_counts_clear(code);
    }
    let c2 = if clears_counts(c1, s) {
        without_counts(c1)
    } else {
        c1
    };
    let c3 = if rewrites_id(c2, pos, s) {
        c2.with_id(policy_id(pos, s))
    } else {
        c2
    };
    assert(c3.metadata() == c.metadata());
    lemma_pop_all_tags(c.metadata(), keys);
}

/// Every cell that stays is one of the cells.
proof fn lemma_retained_from(cells: Seq<CellModel>, s: SettingsModel, i: int)
    requires
        0 <= i < retained(cells, s).len(),
    ensures
        exists|j: int| 0 <= j < cells.len() && #[trigger] cells[j] == retained(cells, s)[i],
    decreases cells.len(),
{
    if cells.len() > 0 {
        let rest = cells.drop_first();
        if cells[0].should_drop(s.drop_empty_cells, s.drop_tagged_cells) {
            lemma_retained_from(rest, s, i);
            let j = choose|j: int| 0 <= j < rest.len() && #[trigger] rest[j] == retained(rest, s)[i];
            assert(cells[j + 1] == rest[j]);
        } else if i == 0 {
            assert(cells[0] == retained(cells, s)[0]);
        } else {
            lemma_retained_from(rest, s, i - 1);
            let j = choose|j: int|
                0 <= j < rest.len() && #[trigger] rest[j] == retained(rest, s)[i - 1];
            assert(cells[j + 1] == rest[j]);
        }
    }
}

/// Under the renumbering policy every cell that a strip leaves carries its
/// position as its identifier.
pub proof fn law_sequential_ids(nb: NotebookModel, s: SettingsModel)
    requires
        s.id_action == IdAction::Sequential,
    ensures
        forall|i: int|
            0 <= i < strip_spec(nb, s).0.cells.len() ==> (#[trigger] strip_spec(nb, s).0.cells[i]).id()
                == Some(decimal(i as nat)),
{
}

/// Under the dropping policy no cell that a strip leaves carries an
/// identifier; and where one was dropped from a notebook of a minor
/// version above the largest that asks for none, the minor version is
/// that one afterwards and the strip reports a change.
pub proof fn law_drop_ids_downgrades(nb: NotebookModel, s: SettingsModel)
    requires
        s.id_action == IdAction::Drop,
    ensures
        forall|i: int|
            0 <= i < strip_spec(nb, s).0.cells.len() ==> (#[trigger] strip_spec(nb, s).0.cells[i]).id() is None,
        nb.nbformat_minor > ID_OPTIONAL_MAX_VERSION && (exists|i: int|
            0 <= i < retained(nb.cells, s).len() && (#[trigger] retained(nb.cells, s)[i]).id() is Some)
            ==> strip_spec(nb, s).0.nbformat_minor == ID_OPTIONAL_MAX_VERSION
            && strip_spec(nb, s).1,
{
    let kept = retained(nb.cells, s);
    let cell_keys = cell_keys_of(s.extra_keys);
    let drop_output = drop_output_effective(nb.metadata, s.drop_output);
    if exists|i: int| 0 <= i < kept.len() && (#[trigger] kept[i]).id() is Some {
        let i = choose|i: int| 0 <= i < kept.len() && (#[trigger] kept[i]).id() is Some;
        assert(strip_cell(kept[i], i as nat, drop_output, s, cell_keys).dropped_id);
    }
}

/// A strip never raises the minor version, never changes the major one,
/// and leaves no more cells than there were.
pub proof fn law_strip_shrinks(nb: NotebookModel, s: SettingsModel)
    ensures
        strip_spec(nb, s).0.nbformat == nb.nbformat,
        strip_spec(nb, s).0.nbformat_minor <= nb.nbformat_minor,
        strip_spec(nb, s).0.cells.len() <= nb.cells.len(),
{
    lemma_retained(nb.cells, s);
}

/// A code cell that carries the tag `keep_output`, and no `init_cell`
/// entry, keeps its outputs.
pub proof fn law_keep_output_tag_protects(
    c: CodeCellModel,
    drop_output: bool,
    strip_init_cell: bool,
)
    requires
        has_tag(c.metadata, "keep_output"@),
        !c.metadata.has_field("init_cell"@),
    ensures
        !c.should_clear_output(drop_output, strip_init_cell),
{
}

/// A key that was read from text has a path.
pub proof fn law_parsed_key_wf(text: Seq<char>)
    ensures
        parse_key(text) is Ok ==> parse_key(text)->Ok_0.wf(),
{
}

proof fn lemma_merged(acc: Seq<ExtraKeyModel>, more: Seq<ExtraKeyModel>)
    requires
        acc.no_duplicates(),
    ensures
        merged(acc, more).no_duplicates(),
        keys_wf(acc) && keys_wf(more) ==> keys_wf(merged(acc, more)),
    decreases more.len(),
{
    if more.len() > 0 {
        lemma_merged(acc, more.drop_last());
        if keys_wf(more) {
            assert(more.last().wf());
            assert forall|k: int| 0 <= k < more.drop_last().len() implies (#[trigger] more.drop_last()[k]).wf() by {
                assert(more.drop_last()[k] == more[k]);
            }
        }
    }
}

proof fn lemma_without(keys: Seq<ExtraKeyModel>, keep: Seq<ExtraKeyModel>)
    requires
        keys.no_duplicates(),
    ensures
        without(keys, keep).no_duplicates(),
        keys_wf(keys) ==> keys_wf(without(keys, keep)),
        forall|k: ExtraKeyModel|
            #[trigger] without(keys, keep).contains(k) ==> keys.contains(k)
                && !keep.contains(k),
    decreases keys.len(),
{
    if keys.len() > 0 {
        let front = keys.drop_last();
        let out = without(front, keep);
        assert forall|i: int, j: int| 0 <= i < j < front.len() implies front[i] != front[j] by {
            assert(front[i] == keys[i] && front[j] == keys[j]);
        }
        lemma_without(front, keep);
        if keys_wf(keys) {
            assert(keys.last().wf());
            assert forall|k: int| 0 <= k < front.len() implies (#[trigger] front[k]).wf() by {
                assert(front[k] == keys[k]);
            }
        }
        if out.contains(keys.last()) {
            let i = choose|i: int| 0 <= i < front.len() && front[i] == keys.last();
            assert(keys[i] == keys[keys.len() - 1]);
        }
        assert forall|k: ExtraKeyModel| #[trigger]
            without(keys, keep).contains(k) implies keys.contains(k)
            && !keep.contains(k) by {
            let w = without(keys, keep);
            let i = choose|i: int| 0 <= i < w.len() && w[i] == k;
            if out.contains(k) {
                let j = choose|j: int| 0 <= j < front.len() && front[j] == k;
                assert(keys[j] == k);
            } else {
                assert(k == keys.last());
                assert(keys[keys.len() - 1] == k);
            }
        }
    }
}

/// The keys that are stripped by default are eight different keys, each
/// with a path.
pub proof fn lemma_default_keys()
    ensures
        default_keys().no_duplicates(),
        keys_wf(default_keys()),
        keys_wf(kernel_info_keys()),
{
    reveal_strlit("signature");
    reveal_strlit("widgets");
    reveal_strlit("collapsed");
    reveal_strlit("ExecuteTime");
    reveal_strlit("execution");
    reveal_strlit("heading_collapsed");
    reveal_strlit("hidden");
    reveal_strlit("scrolled");
    let d = default_keys();
    assert(d[0]->Metadata_0[0].len() == 9);
    assert(d[1]->Metadata_0[0].len() == 7);
    assert(d[2]->CellMeta_0[0].len() == 9);
    assert(d[3]->CellMeta_0[0].len() == 11);
    assert(d[4]->CellMeta_0[0][1] == 'x');
    assert(d[2]->CellMeta_0[0][1] == 'o');
    assert(d[5]->CellMeta_0[0].len() == 17);
    assert(d[6]->CellMeta_0[0].len() == 6);
    assert(d[7]->CellMeta_0[0].len() == 8);
}

/// The settings made from a configuration strip no key twice; and every
/// key that they strip has a path, where every key of the configuration
/// has one.
pub proof fn law_settings_keys(c: ConfigurationModel)
    ensures
        settings_of(c).extra_keys.no_duplicates(),
        keys_wf(keys_or_none(c.extra_keys)) ==> settings_of(c).wf(),
        forall|k: ExtraKeyModel|
            keys_or_none(c.keep_keys).contains(k) ==> !#[trigger] settings_of(
                c,
            ).extra_keys.contains(k),
{
    lemma_default_keys();
    let extra = keys_or_none(c.extra_keys);
    let own = merged(default_keys(), extra);
    lemma_merged(default_keys(), extra);
    lemma_merged(own, kernel_info_keys());
    let all = if flag_or(c.strip_kernel_info, false) {
        merged(own, kernel_info_keys())
    } else {
        own
    };
    lemma_without(all, keys_or_none(c.keep_keys));
}

/// `first_of` is the least position that holds the separator.
pub proof fn lemma_first_of(s: Seq<char>, sep: char)
    ensures
        0 <= first_of(s, sep) <= s.len(),
        forall|j: int| 0 <= j < first_of(s, sep) ==> s[j] != sep,
        first_of(s, sep) < s.len() ==> s[first_of(s, sep)] == sep,
    decreases s.len(),
{
    if s.len() > 0 && s[0] != sep {
        let rest = s.drop_first();
        lemma_first_of(rest, sep);
        assert forall|j: int| 0 <= j < first_of(s, sep) implies s[j] != sep by {
            if j > 0 {
                assert(s[j] == rest[j - 1]);
            }
        }
    }
}

/// A text that holds no dot.
pub open spec fn dotless(s: Seq<char>) -> bool {
    forall|j: int| 0 <= j < s.len() ==> s[j] != '.'
}

/// A piece without a dot, a dot and more text split into the piece and
/// the pieces of the rest.
proof fn lemma_split_front(a: Seq<char>, rest: Seq<char>)
    requires
        dotless(a),
    ensures
        split_on(a + seq!['.'] + rest, '.') == seq![a] + split_on(rest, '.'),
{
    let s = a + seq!['.'] + rest;
    lemma_first_of(s, '.');
    let i = first_of(s, '.');
    if i < a.len() {
        assert(s[i] == a[i]);
    }
    if i > a.len() {
        assert(s[a.len() as int] == '.');
    }
    assert(i == a.len());
    assert(s.take(i) =~= a);
    assert(s.skip(i + 1) =~= rest);
}

proof fn lemma_split_single(a: Seq<char>)
    requires
        dotless(a),
    ensures
        split_on(a, '.') == seq![a],
{
    lemma_first_of(a, '.');
    let i = first_of(a, '.');
    if i < a.len() {
        assert(a[i] != '.');
    }
}

/// Joining takes the first segment, the separator, and the rest joined.
proof fn lemma_join_front(parts: Seq<Seq<char>>, sep: Seq<char>)
    requires
        parts.len() >= 2,
    ensures
        join_with(parts, sep) == parts[0] + sep + join_with(parts.drop_first(), sep),
    decreases parts.len(),
{
    let rest = parts.drop_first();
    if parts.len() == 2 {
        assert(parts.drop_last() =~= seq![parts[0]]);
        assert(rest =~= seq![parts[1]]);
        assert(join_with(parts.drop_last(), sep) == parts[0]);
        assert(join_with(rest, sep) == parts[1]);
    } else {
        let front = parts.drop_last();
        lemma_join_front(front, sep);
        assert(front.drop_first() =~= rest.drop_last());
        assert(front[0] == parts[0]);
        assert(rest.last() == parts.last());
        assert(join_with(rest, sep) == join_with(rest.drop_last(), sep) + sep + rest.last());
        assert(join_with(parts, sep) =~= parts[0] + sep + join_with(rest, sep));
    }
}

/// Segments without dots, joined by dots and split at the dots, are the
/// segments again.
pub proof fn lemma_split_joined(parts: Seq<Seq<char>>)
    requires
        parts.len() >= 1,
        forall|i: int| 0 <= i < parts.len() ==> dotless(#[trigger] parts[i]),
    ensures
        split_on(dotted(parts), '.') == parts,
    decreases parts.len(),
{
    reveal_strlit(".");
    assert("."@ =~= seq!['.']);
    if parts.len() == 1 {
        lemma_split_single(parts[0]);
        assert(parts =~= seq![parts[0]]);
    } else {
        let rest = parts.drop_first();
        assert forall|i: int| 0 <= i < rest.len() implies dotless(#[trigger] rest[i]) by {
            assert(rest[i] == parts[i + 1]);
        }
        lemma_join_front(parts, "."@);
        lemma_split_joined(rest);
        lemma_split_front(parts[0], dotted(rest));
        assert(seq![parts[0]] + rest =~= parts);
    }
}

/// A key whose segments hold no dot is read back from its text, unless
/// its path is one empty segment.
pub proof fn law_key_round_trip(key: ExtraKeyModel)
    requires
        key.wf(),
        forall|i: int| 0 <= i < key.parts().len() ==> dotless(#[trigger] key.parts()[i]),
        !(key.parts().len() == 1 && key.parts()[0].len() == 0),
    ensures
        parse_key(key.text()) == Ok::<ExtraKeyModel, ExtraKeyParseError>(key),
{
    let p = key.parts();
    reveal_strlit(".");
    reveal_strlit("cell");
    reveal_strlit("metadata");
    reveal_strlit("cell.metadata.");
    reveal_strlit("metadata.");
    assert("."@ =~= seq!['.']);
    assert(dotless("cell"@));
    assert(dotless("metadata"@));
    assert("cell"@ != "metadata"@) by {
        assert("cell"@.len() != "metadata"@.len());
    }
    let with_meta = seq!["metadata"@] + p;
    assert(with_meta.drop_first() =~= p);
    lemma_join_front(with_meta, "."@);
    assert("metadata."@ =~= "metadata"@ + "."@);
    assert forall|i: int| 0 <= i < with_meta.len() implies dotless(#[trigger] with_meta[i]) by {
        if i > 0 {
            assert(with_meta[i] == p[i - 1]);
        }
    }
    lemma_split_joined(with_meta);
    assert(with_meta.skip(1) =~= p);
    match key {
        ExtraKeyModel::Metadata(_) => {
            assert(key.text() =~= dotted(with_meta));
        },
        ExtraKeyModel::CellMeta(_) => {
            let with_cell = seq!["cell"@] + with_meta;
            assert(with_cell.drop_first() =~= with_meta);
            lemma_join_front(with_cell, "."@);
            assert("cell.metadata."@ =~= "cell"@ + "."@ + "metadata"@ + "."@);
            assert(key.text() =~= dotted(with_cell));
            assert forall|i: int| 0 <= i < with_cell.len() implies dotless(
                #[trigger] with_cell[i],
            ) by {
                if i > 0 {
                    assert(with_cell[i] == with_meta[i - 1]);
                }
            }
            lemma_split_joined(with_cell);
            assert(with_cell.skip(2) =~= p);
        },
    }
}

/// Each of the default keys is what its text in `EXTRA_KEYS` is read as.
pub proof fn law_default_keys_written()
    ensures
        parse_key("metadata.signature"@) == Ok::<ExtraKeyModel, ExtraKeyParseError>(default_keys()[0]),
        parse_key("metadata.widgets"@) == Ok::<ExtraKeyModel, ExtraKeyParseError>(default_keys()[1]),
        parse_key("cell.metadata.collapsed"@) == Ok::<ExtraKeyModel, ExtraKeyParseError>(
            default_keys()[2],
        ),
        parse_key("cell.metadata.ExecuteTime"@) == Ok::<ExtraKeyModel, ExtraKeyParseError>(
            default_keys()[3],
        ),
        parse_key("cell.metadata.execution"@) == Ok::<ExtraKeyModel, ExtraKeyParseError>(
            default_keys()[4],
        ),
        parse_key("cell.metadata.heading_collapsed"@) == Ok::<ExtraKeyModel, ExtraKeyParseError>(
            default_keys()[5],
        ),
        parse_key("cell.metadata.hidden"@) == Ok::<ExtraKeyModel, ExtraKeyParseError>(
            default_keys()[6],
        ),
        parse_key("cell.metadata.scrolled"@) == Ok::<ExtraKeyModel, ExtraKeyParseError>(
            default_keys()[7],
        ),
{
    reveal_strlit("metadata.");
    reveal_strlit("cell.metadata.");
    reveal_strlit("signature");
    reveal_strlit("widgets");
    reveal_strlit("collapsed");
    reveal_strlit("ExecuteTime");
    reveal_strlit("execution");
    reveal_strlit("heading_collapsed");
    reveal_strlit("hidden");
    reveal_strlit("scrolled");
    reveal_strlit("metadata.signature");
    reveal_strlit("metadata.widgets");
    reveal_strlit("cell.metadata.collapsed");
    reveal_strlit("cell.metadata.ExecuteTime");
    reveal_strlit("cell.metadata.execution");
    reveal_strlit("cell.metadata.heading_collapsed");
    reveal_strlit("cell.metadata.hidden");
    reveal_strlit("cell.metadata.scrolled");
    let d = default_keys();
    assert forall|k: int| 0 <= k < 8 implies dotless(#[trigger] d[k].parts()[0]) && d[k].parts().len()
        == 1 && d[k].parts()[0].len() > 0 by {}
    lemma_written(d[0], "metadata.signature"@);
    lemma_written(d[1], "metadata.widgets"@);
    lemma_written(d[2], "cell.metadata.collapsed"@);
    lemma_written(d[3], "cell.metadata.ExecuteTime"@);
    lemma_written(d[4], "cell.metadata.execution"@);
    lemma_written(d[5], "cell.metadata.heading_collapsed"@);
    lemma_written(d[6], "cell.metadata.hidden"@);
    lemma_written(d[7], "cell.metadata.scrolled"@);
}

/// A key of one segment without a dot is what its text is read as.
proof fn lemma_written(key: ExtraKeyModel, text: Seq<char>)
    requires
        key.parts().len() == 1,
        key.parts()[0].len() > 0,
        dotless(key.parts()[0]),
        text =~= (match key {
            ExtraKeyModel::CellMeta(p) => "cell.metadata."@ + p[0],
            ExtraKeyModel::Metadata(p) => "metadata."@ + p[0],
        }),
    ensures
        parse_key(text) == Ok::<ExtraKeyModel, ExtraKeyParseError>(key),
{
    assert(key.text() =~= text);
    law_key_round_trip(key);
}

} // verus!
