//! The notebook document: cells, metadata and the format version, each
//! with the mathematical model that the contracts speak of.
use crate::json::{items_view, Json, JsonValue};
use crate::utils::opt_view;
use vstd::prelude::*;

verus! {

/// The largest minor format version in which a cell need not carry an
/// identifier.
pub const ID_OPTIONAL_MAX_VERSION: i64 = 4;

/// The text of a cell: one string, or its lines.
#[derive(Debug, PartialEq)]
pub enum SourceValue {
    String(String),
    StringArray(Vec<String>),
}

pub enum SourceModel {
    String(Seq<char>),
    StringArray(Seq<Seq<char>>),
}

impl View for SourceValue {
    type V = SourceModel;

    open spec fn view(&self) -> SourceModel {
        match self {
            SourceValue::String(s) => SourceModel::String(s@),
            SourceValue::StringArray(lines) => SourceModel::StringArray(
                lines@.map_values(|l: String| l@),
            ),
        }
    }
}

pub open spec fn opt_text(o: Option<String>) -> Option<Seq<char>> {
    match o {
        Some(s) => Some(s@),
        None => None,
    }
}

#[derive(Debug, PartialEq)]
pub struct CodeCell {
    pub execution_count: Option<i64>,
    pub id: Option<String>,
    pub metadata: Json,
    pub outputs: Vec<Json>,
    pub source: SourceValue,
}

pub struct CodeCellModel {
    pub execution_count: Option<i64>,
    pub id: Option<Seq<char>>,
    pub metadata: JsonValue,
    pub outputs: Seq<JsonValue>,
    pub source: SourceModel,
}

impl View for CodeCell {
    type V = CodeCellModel;

    open spec fn view(&self) -> CodeCellModel {
        CodeCellModel {
            execution_count: self.execution_count,
            id: opt_text(self.id),
            metadata: self.metadata@,
            outputs: items_view(self.outputs@),
            source: self.source@,
        }
    }
}

#[derive(Debug, PartialEq)]
pub struct MarkdownCell {
    pub attachments: Option<Json>,
    pub id: Option<String>,
    pub metadata: Json,
    pub source: SourceValue,
}

#[derive(Debug, PartialEq)]
pub struct RawCell {
    pub attachments: Option<Json>,
    pub id: Option<String>,
    pub metadata: Json,
    pub source: SourceValue,
}

/// The model of a markdown cell and of a raw cell.
pub struct TextCellModel {
    pub attachments: Option<JsonValue>,
    pub id: Option<Seq<char>>,
    pub metadata: JsonValue,
    pub source: SourceModel,
}

impl View for MarkdownCell {
    type V = TextCellModel;

    open spec fn view(&self) -> TextCellModel {
        TextCellModel {
            attachments: opt_view(self.attachments),
            id: opt_text(self.id),
            metadata: self.metadata@,
            source: self.source@,
        }
    }
}

impl View for RawCell {
    type V = TextCellModel;

    open spec fn view(&self) -> TextCellModel {
        TextCellModel {
            attachments: opt_view(self.attachments),
            id: opt_text(self.id),
            metadata: self.metadata@,
            source: self.source@,
        }
    }
}

#[derive(Debug, PartialEq)]
pub enum Cell {
    Code(CodeCell),
    Markdown(MarkdownCell),
    Raw(RawCell),
}

pub enum CellModel {
    Code(CodeCellModel),
    Markdown(TextCellModel),
    Raw(TextCellModel),
}

impl View for Cell {
    type V = CellModel;

    open spec fn view(&self) -> CellModel {
        match self {
            Cell::Code(c) => CellModel::Code(c@),
            Cell::Markdown(c) => CellModel::Markdown(c@),
            Cell::Raw(c) => CellModel::Raw(c@),
        }
    }
}

impl CellModel {
    pub open spec fn id(self) -> Option<Seq<char>> {
        match self {
            CellModel::Code(c) => c.id,
            CellModel::Markdown(c) => c.id,
            CellModel::Raw(c) => c.id,
        }
    }

    pub open spec fn metadata(self) -> JsonValue {
        match self {
            CellModel::Code(c) => c.metadata,
            CellModel::Markdown(c) => c.metadata,
            CellModel::Raw(c) => c.metadata,
        }
    }

    pub open spec fn source(self) -> SourceModel {
        match self {
            CellModel::Code(c) => c.source,
            CellModel::Markdown(c) => c.source,
            CellModel::Raw(c) => c.source,
        }
    }

    pub open spec fn with_id(self, id: Option<Seq<char>>) -> CellModel {
        match self {
            CellModel::Code(c) => CellModel::Code(CodeCellModel { id, ..c }),
            CellModel::Markdown(c) => CellModel::Markdown(TextCellModel { id, ..c }),
            CellModel::Raw(c) => CellModel::Raw(TextCellModel { id, ..c }),
        }
    }

    pub open spec fn with_metadata(self, metadata: JsonValue) -> CellModel {
        match self {
            CellModel::Code(c) => CellModel::Code(CodeCellModel { metadata, ..c }),
            CellModel::Markdown(c) => CellModel::Markdown(TextCellModel { metadata, ..c }),
            CellModel::Raw(c) => CellModel::Raw(TextCellModel { metadata, ..c }),
        }
    }
}

/// A notebook as it is read: cells in order, metadata, format version.
#[derive(Debug, PartialEq)]
pub struct RawNotebook {
    pub cells: Vec<Cell>,
    pub metadata: Json,
    pub nbformat: i64,
    pub nbformat_minor: i64,
}

pub struct NotebookModel {
    pub cells: Seq<CellModel>,
    pub metadata: JsonValue,
    pub nbformat: i64,
    pub nbformat_minor: i64,
}

pub open spec fn cells_view(cells: Seq<Cell>) -> Seq<CellModel> {
    cells.map_values(|c: Cell| c@)
}

impl View for RawNotebook {
    type V = NotebookModel;

    open spec fn view(&self) -> NotebookModel {
        NotebookModel {
            cells: cells_view(self.cells@),
            metadata: self.metadata@,
            nbformat: self.nbformat,
            nbformat_minor: self.nbformat_minor,
        }
    }
}

impl RawNotebook {
    /// A notebook of format 4.5 without cells and with empty metadata.
    pub fn new() -> (nb: RawNotebook)
        ensures
            nb@ == (NotebookModel {
                cells: Seq::empty(),
                metadata: JsonValue::Object(Seq::empty()),
                nbformat: 4,
                nbformat_minor: 5,
            }),
    {
        let nb = RawNotebook {
            cells: Vec::new(),
            metadata: Json::Object(Vec::new()),
            nbformat: 4,
            nbformat_minor: 5,
        };
        assert(cells_view(nb.cells@) =~= Seq::empty());
        nb
    }
}

impl Default for RawNotebook {
    fn default() -> (nb: RawNotebook)
        ensures
            nb@ == (NotebookModel {
                cells: Seq::empty(),
                metadata: JsonValue::Object(Seq::empty()),
                nbformat: 4,
                nbformat_minor: 5,
            }),
    {
        RawNotebook::new()
    }
}

} // verus!
