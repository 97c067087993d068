//! What holds of one cell: whether it is empty, whether it is to be
//! dropped, whether its outputs and counters are to be cleared.
use crate::json::{items_view, lemma_items_view, text_eq, Json, JsonValue};
use crate::schema::{
    opt_text, Cell, CellModel, CodeCell, CodeCellModel, SourceModel, SourceValue,
};
use crate::utils::{contains_text, lemma_trimmed_by_empty, path_view, trimmed_by};
use vstd::prelude::*;

verus! {

/// The characters that count as white space: those with the property
/// `White_Space` of Unicode.
pub open spec fn is_white_space(c: char) -> bool {
    let n = c as u32;
    ||| 0x9 <= n <= 0xD
    ||| n == 0x20
    ||| n == 0x85
    ||| n == 0xA0
    ||| n == 0x1680
    ||| 0x2000 <= n <= 0x200A
    ||| n == 0x2028
    ||| n == 0x2029
    ||| n == 0x202F
    ||| n == 0x205F
    ||| n == 0x3000
}

/// The text without the white space at its two ends.
pub open spec fn trimmed(s: Seq<char>) -> Seq<char> {
    trimmed_by(s, |c: char| is_white_space(c))
}

/// A text is empty once trimmed exactly where it holds white space only.
pub proof fn lemma_trimmed_empty(s: Seq<char>)
    ensures
        trimmed(s).len() == 0 <==> forall|i: int| 0 <= i < s.len() ==> is_white_space(#[trigger] s[i]),
{
    lemma_trimmed_by_empty(s, |c: char| is_white_space(c));
}

/// `str::trim`: the text without the white space at its two ends, white
/// space being the characters with the property `White_Space`.
#[verifier::external_body]
pub(crate) fn trim(s: &str) -> (t: &str)
    ensures
        t@ == trimmed(s@),
{
    s.trim()
}

/// The character of a decimal digit.
pub open spec fn digit_char(d: nat) -> char {
    if d == 0 {
        '0'
    } else if d == 1 {
        '1'
    } else if d == 2 {
        '2'
    } else if d == 3 {
        '3'
    } else if d == 4 {
        '4'
    } else if d == 5 {
        '5'
    } else if d == 6 {
        '6'
    } else if d == 7 {
        '7'
    } else if d == 8 {
        '8'
    } else {
        '9'
    }
}

/// A number in decimal, without leading zeros.
pub open spec fn decimal(n: nat) -> Seq<char>
    decreases n,
{
    if n < 10 {
        seq![digit_char(n)]
    } else {
        decimal(n / 10).push(digit_char(n % 10))
    }
}

/// `usize`'s `to_string`: the number in decimal.
#[verifier::external_body]
pub(crate) fn decimal_text(n: usize) -> (text: String)
    ensures
        text@ == decimal(n as nat),
{
    n.to_string()
}

/// The text holds white space only.
pub open spec fn is_blank(s: Seq<char>) -> bool {
    forall|i: int| 0 <= i < s.len() ==> is_white_space(#[trigger] s[i])
}

impl SourceModel {
    /// Every line is empty once trimmed.
    pub open spec fn is_empty(self) -> bool {
        match self {
            SourceModel::String(s) => trimmed(s).len() == 0,
            SourceModel::StringArray(lines) => forall|i: int|
                0 <= i < lines.len() ==> trimmed(#[trigger] lines[i]).len() == 0,
        }
    }

    /// Every line holds white space only.
    pub open spec fn only_white_space(self) -> bool {
        match self {
            SourceModel::String(s) => is_blank(s),
            SourceModel::StringArray(lines) => forall|i: int|
                0 <= i < lines.len() ==> is_blank(#[trigger] lines[i]),
        }
    }
}

/// A source is empty exactly where it holds white space only.
pub proof fn law_empty_source(source: SourceModel)
    ensures
        source.is_empty() <==> source.only_white_space(),
{
    match source {
        SourceModel::String(s) => {
            lemma_trimmed_empty(s);
        },
        SourceModel::StringArray(lines) => {
            assert forall|i: int| 0 <= i < lines.len() implies (trimmed(#[trigger] lines[i]).len()
                == 0 <==> is_blank(lines[i])) by {
                lemma_trimmed_empty(lines[i]);
            }
        },
    }
}

/// The array under `tags` of a metadata object, if there is one.
pub open spec fn tags_of(metadata: JsonValue) -> Option<Seq<JsonValue>> {
    match metadata.field("tags"@) {
        Some(JsonValue::Array(items)) => Some(items),
        _ => None,
    }
}

/// One of the items is the text `s`.
pub open spec fn holds_text(items: Seq<JsonValue>, s: Seq<char>) -> bool {
    exists|i: int| 0 <= i < items.len() && #[trigger] items[i] == JsonValue::Text(s)
}

/// One of the items is a text that `list` holds.
pub open spec fn holds_text_among(items: Seq<JsonValue>, list: Seq<Seq<char>>) -> bool {
    exists|i: int|
        0 <= i < items.len() && (#[trigger] items[i]) is Text && list.contains(items[i]->Text_0)
}

/// One of the tags is the text `tag`.
pub open spec fn has_tag(metadata: JsonValue, tag: Seq<char>) -> bool {
    match tags_of(metadata) {
        Some(items) => holds_text(items, tag),
        None => false,
    }
}

/// One of the tags is a text that `tags` holds.
pub open spec fn has_tag_among(metadata: JsonValue, tags: Seq<Seq<char>>) -> bool {
    match tags_of(metadata) {
        Some(items) => holds_text_among(items, tags),
        None => false,
    }
}

/// The output is an object whose `execution_count` is a number.
pub open spec fn output_has_count(output: JsonValue) -> bool {
    match output.field("execution_count"@) {
        Some(JsonValue::Number(_)) => true,
        _ => false,
    }
}

/// The output with its `execution_count` set to null, where it is an
/// object.
pub open spec fn output_without_count(output: JsonValue) -> JsonValue {
    output.with_field("execution_count"@, JsonValue::Null)
}

impl CodeCellModel {
    pub open spec fn is_clear_outputs(self) -> bool {
        self.outputs.len() == 0
    }

    /// The cell has no execution count and none of its outputs has one.
    pub open spec fn is_clear_exec_count(self) -> bool {
        self.execution_count is None && forall|i: int|
            0 <= i < self.outputs.len() ==> !output_has_count(#[trigger] self.outputs[i])
    }

    /// Whether the outputs are to be cleared, given whether the run drops
    /// outputs and whether it strips initialisation cells. Metadata that is
    /// no object protects nothing. An `init_cell` entry decides alone: the
    /// outputs stay only where it is `true` and such cells are not
    /// stripped. Otherwise a `keep_output` entry or tag keeps them.
    pub open spec fn should_clear_output(self, drop_output: bool, strip_init_cell: bool) -> bool {
        if !(self.metadata is Object) {
            drop_output
        } else {
            match self.metadata.field("init_cell"@) {
                Some(init_cell) => init_cell != JsonValue::Bool(true) || strip_init_cell,
                None => drop_output && !(self.metadata.has_field("keep_output"@) || has_tag(
                    self.metadata,
                    "keep_output"@,
                )),
            }
        }
    }

    pub open spec fn with_cleared_outputs(self) -> CodeCellModel {
        CodeCellModel { outputs: Seq::empty(), ..self }
    }

    /// The cell without its execution count, every output that is an
    /// object with `execution_count` set to null.
    pub open spec fn with_cleared_counts(self) -> CodeCellModel {
        CodeCellModel {
            execution_count: None,
            outputs: self.outputs.map_values(|o: JsonValue| output_without_count(o)),
            ..self
        }
    }
}

impl CellModel {
    /// The cell has no identifier, or its identifier is its position.
    pub open spec fn is_clear_id(self, cell_number: nat) -> bool {
        self.id() is None || self.id() == Some(decimal(cell_number))
    }

    /// The cell is empty and empty cells are dropped, or it carries one of
    /// the tags that drop a cell.
    pub open spec fn should_drop(self, drop_empty_cells: bool, drop_tagged_cells: Seq<Seq<char>>) -> bool {
        (drop_empty_cells && self.source().is_empty()) || has_tag_among(
            self.metadata(),
            drop_tagged_cells,
        )
    }
}

impl SourceValue {
    /// Whether every line is empty once trimmed: whether the source holds
    /// white space only.
    pub fn is_empty(&self) -> (empty: bool)
        ensures
            empty == self@.is_empty(),
            empty == self@.only_white_space(),
    {
        proof {
            law_empty_source(self@);
        }
        match self {
            SourceValue::String(s) => trim(s.as_str()).is_empty(),
            SourceValue::StringArray(lines) => {
                let mut i: usize = 0;
                while i < lines.len()
                    invariant
                        i <= lines.len(),
                        *self == SourceValue::StringArray(*lines),
                        forall|j: int| 0 <= j < i ==> trimmed(#[trigger] lines[j]@).len() == 0,
                    decreases lines.len() - i,
                {
                    if !trim(lines[i].as_str()).is_empty() {
                        proof {
                            let all = self@->StringArray_0;
                            assert(trimmed(all[i as int]).len() != 0);
                            law_empty_source(self@);
                        }
                        return false;
                    }
                    i += 1;
                }
                proof {
                    let all = self@->StringArray_0;
                    assert forall|j: int| 0 <= j < all.len() implies trimmed(#[trigger] all[j]).len()
                        == 0 by {
                        assert(trimmed(lines[j]@).len() == 0);
                    }
                }
                true
            },
        }
    }
}

/// The items under `tags` of a metadata object, if that is an array.
fn tags(metadata: &Json) -> (found: Option<&Vec<Json>>)
    ensures
        match found {
            Some(items) => tags_of(metadata@) == Some(items_view(items@)),
            None => tags_of(metadata@) is None,
        },
{
    match metadata.get("tags") {
        Some(Json::Array(items)) => Some(items),
        _ => None,
    }
}

impl CodeCell {
    pub fn is_clear_outputs(&self) -> (clear: bool)
        ensures
            clear == self@.is_clear_outputs(),
    {
        proof {
            lemma_items_view(self.outputs@);
        }
        self.outputs.is_empty()
    }

    pub fn is_clear_exec_count(&self) -> (clear: bool)
        ensures
            clear == self@.is_clear_exec_count(),
    {
        proof {
            lemma_items_view(self.outputs@);
        }
        let ghost outputs = items_view(self.outputs@);
        let mut counted = false;
        let mut i: usize = 0;
        while i < self.outputs.len()
            invariant
                i <= self.outputs.len(),
                outputs.len() == self.outputs.len(),
                forall|j: int| 0 <= j < outputs.len() ==> (#[trigger] outputs[j]) == self.outputs[j]@,
                counted ==> exists|j: int| 0 <= j < i && output_has_count(#[trigger] outputs[j]),
                !counted ==> forall|j: int| 0 <= j < i ==> !output_has_count(#[trigger] outputs[j]),
            decreases self.outputs.len() - i,
        {
            let number = match self.outputs[i].get("execution_count") {
                Some(v) => v.is_number(),
                None => false,
            };
            assert(number == output_has_count(outputs[i as int]));
            counted = counted || number;
            i += 1;
        }
        proof {
            if counted {
                let j = choose|j: int| 0 <= j < i && output_has_count(#[trigger] outputs[j]);
                assert(output_has_count(self@.outputs[j]));
            }
        }
        self.execution_count.is_none() && !counted
    }

    /// Whether the cell has no identifier.
    pub fn is_clear_id(&self) -> (clear: bool)
        ensures
            clear == (self@.id is None),
    {
        self.id.is_none()
    }

    pub fn clear_outputs(&mut self)
        ensures
            final(self)@ == old(self)@.with_cleared_outputs(),
    {
        self.outputs.clear();
    }

    pub fn clear_counts(&mut self)
        ensures
            final(self)@ == old(self)@.with_cleared_counts(),
    {
        self.execution_count = None;
        let ghost before = self.outputs@;
        proof {
            lemma_items_view(before);
        }
        let mut i: usize = 0;
        while i < self.outputs.len()
            invariant
                i <= self.outputs.len(),
                self.outputs.len() == before.len(),
                self.execution_count is None,
                self.id == old(self).id,
                self.metadata == old(self).metadata,
                self.source == old(self).source,
                forall|j: int| 0 <= j < i ==> (#[trigger] self.outputs[j])@ == output_without_count(before[j]@),
                forall|j: int| i <= j < before.len() ==> (#[trigger] self.outputs[j]) == before[j],
            decreases self.outputs.len() - i,
        {
            self.outputs[i].insert("execution_count", Json::Null);
            i += 1;
        }
        proof {
            lemma_items_view(self.outputs@);
            assert(items_view(self.outputs@) =~= items_view(before).map_values(
                |o: JsonValue| output_without_count(o),
            ));
        }
    }

    pub fn should_clear_output(&self, drop_output: bool, strip_init_cell: bool) -> (clear: bool)
        ensures
            clear == self@.should_clear_output(drop_output, strip_init_cell),
    {
        let is_object = match &self.metadata {
            Json::Object(_) => true,
            _ => false,
        };
        if !is_object {
            return drop_output;
        }
        if let Some(init_cell) = self.metadata.get("init_cell") {
            let truthy = match init_cell.as_bool() {
                Some(b) => b,
                None => false,
            };
            return !truthy || strip_init_cell;
        }
        if drop_output {
            let keep_output_metadata = self.metadata.get("keep_output").is_some();
            let keep_output_tags = match tags(&self.metadata) {
                Some(items) => has_text(items, "keep_output"),
                None => false,
            };
            !(keep_output_metadata || keep_output_tags)
        } else {
            false
        }
    }
}

/// Whether one of `items` is the text `s`.
fn has_text(items: &Vec<Json>, s: &str) -> (found: bool)
    ensures
        found == holds_text(items_view(items@), s@),
{
    proof {
        lemma_items_view(items@);
    }
    let mut i: usize = 0;
    while i < items.len()
        invariant
            i <= items.len(),
            items_view(items@).len() == items.len(),
            forall|j: int| 0 <= j < items.len() ==> (#[trigger] items_view(items@)[j]) == items[j]@,
            forall|j: int| 0 <= j < i ==> (#[trigger] items_view(items@)[j]) != JsonValue::Text(s@),
        decreases items.len() - i,
    {
        let same = match &items[i] {
            Json::Text(t) => text_eq(t.as_str(), s),
            _ => false,
        };
        if same {
            assert(items_view(items@)[i as int] == JsonValue::Text(s@));
            return true;
        }
        i += 1;
    }
    false
}

/// Whether one of `items` is a text that `list` holds.
fn has_text_among(items: &Vec<Json>, list: &Vec<String>) -> (found: bool)
    ensures
        found == holds_text_among(items_view(items@), path_view(list@)),
{
    proof {
        lemma_items_view(items@);
    }
    let mut i: usize = 0;
    while i < items.len()
        invariant
            i <= items.len(),
            items_view(items@).len() == items.len(),
            forall|j: int| 0 <= j < items.len() ==> (#[trigger] items_view(items@)[j]) == items[j]@,
            forall|j: int|
                0 <= j < i ==> !((#[trigger] items_view(items@)[j]) is Text && path_view(
                    list@,
                ).contains(items_view(items@)[j]->Text_0)),
        decreases items.len() - i,
    {
        let same = match &items[i] {
            Json::Text(t) => contains_text(list, t.as_str()),
            _ => false,
        };
        if same {
            assert(items_view(items@)[i as int] is Text);
            return true;
        }
        i += 1;
    }
    false
}

impl Cell {
    pub fn as_codecell(&self) -> (code: Option<&CodeCell>)
        ensures
            match code {
                Some(c) => self@ == CellModel::Code(c@) && *self == Cell::Code(*c),
                None => !(self@ is Code),
            },
    {
        if let Cell::Code(codecell) = self {
            Some(codecell)
        } else {
            None
        }
    }

    pub fn as_codecell_mut(&mut self) -> (code: Option<&mut CodeCell>)
        ensures
            match code {
                Some(c) => *old(self) == Cell::Code(*c) && *final(self) == Cell::Code(*final(c)),
                None => !(old(self)@ is Code) && *final(self) == *old(self),
            },
    {
        if let Cell::Code(codecell) = self {
            Some(codecell)
        } else {
            None
        }
    }

    pub fn get_metadata_mut(&mut self) -> (metadata: &mut Json)
        ensures
            metadata@ == old(self)@.metadata(),
            final(self)@ == old(self)@.with_metadata(final(metadata)@),
    {
        match self {
            Cell::Code(c) => &mut c.metadata,
            Cell::Markdown(c) => &mut c.metadata,
            Cell::Raw(c) => &mut c.metadata,
        }
    }

    pub fn is_clear_id(&self, cell_number: usize) -> (clear: bool)
        ensures
            clear == self@.is_clear_id(cell_number as nat),
    {
        match self.get_id() {
            None => true,
            Some(id) => {
                let expected = decimal_text(cell_number);
                *id == expected
            },
        }
    }

    /// Whether the identifier of the cell is its position.
    pub fn has_sequential_id(&self, cell_number: usize) -> (is: bool)
        ensures
            is == (self@.id() == Some(decimal(cell_number as nat))),
    {
        match self.get_id() {
            None => false,
            Some(id) => {
                let expected = decimal_text(cell_number);
                *id == expected
            },
        }
    }

    pub fn get_source(&self) -> (source: &SourceValue)
        ensures
            source@ == self@.source(),
    {
        match self {
            Cell::Code(c) => &c.source,
            Cell::Markdown(c) => &c.source,
            Cell::Raw(c) => &c.source,
        }
    }

    pub fn get_metadata(&self) -> (metadata: &Json)
        ensures
            metadata@ == self@.metadata(),
    {
        match self {
            Cell::Code(c) => &c.metadata,
            Cell::Markdown(c) => &c.metadata,
            Cell::Raw(c) => &c.metadata,
        }
    }

    pub fn get_id(&self) -> (id: &Option<String>)
        ensures
            opt_text(*id) == self@.id(),
    {
        match self {
            Cell::Code(c) => &c.id,
            Cell::Markdown(c) => &c.id,
            Cell::Raw(c) => &c.id,
        }
    }

    /// Gives the cell the identifier `new_id` and returns the one it had.
    pub fn set_id(&mut self, new_id: Option<String>) -> (prev_id: Option<String>)
        ensures
            opt_text(prev_id) == old(self)@.id(),
            final(self)@ == old(self)@.with_id(opt_text(new_id)),
    {
        let mut id = new_id;
        match self {
            Cell::Code(c) => std::mem::swap(&mut c.id, &mut id),
            Cell::Markdown(c) => std::mem::swap(&mut c.id, &mut id),
            Cell::Raw(c) => std::mem::swap(&mut c.id, &mut id),
        }
        id
    }

    pub fn should_drop(&self, drop_empty_cells: bool, drop_tagged_cells: &Vec<String>) -> (drop: bool)
        ensures
            drop == self@.should_drop(drop_empty_cells, path_view(drop_tagged_cells@)),
    {
        if drop_empty_cells && self.get_source().is_empty() {
            return true;
        }
        if drop_tagged_cells.is_empty() {
            proof {
                assert(path_view(drop_tagged_cells@).len() == 0);
            }
            return false;
        }
        match tags(self.get_metadata()) {
            Some(items) => has_text_among(items, drop_tagged_cells),
            None => false,
        }
    }
}

} // verus!
