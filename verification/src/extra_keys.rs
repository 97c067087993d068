//! Keys that name one metadata field to strip: `metadata.<path>` in the
//! notebook, or `cell.metadata.<path>` in every cell.
use crate::json::text_eq;
use crate::utils::{dotted, join, path_view};
use vstd::prelude::*;
use vstd::slice::slice_subrange;
use vstd::string::StringExecFns;

verus! {

/// A non-empty dotted path below a metadata object.
#[derive(Debug, PartialEq, Eq, Hash)]
pub struct StripKey {
    pub(crate) parts: Vec<String>,
}

#[derive(Debug, PartialEq, Eq, Hash)]
pub enum ExtraKey {
    CellMeta(StripKey),
    Metadata(StripKey),
}

pub enum ExtraKeyModel {
    CellMeta(Seq<Seq<char>>),
    Metadata(Seq<Seq<char>>),
}

#[derive(Debug, PartialEq, Eq, Clone, Copy, Structural)]
pub enum ExtraKeyParseError {
    /// The key starts with neither `cell.metadata` nor `metadata`.
    NotCellOrMetadata,
    /// Nothing follows the prefix.
    EmptySubKey,
    /// The key is the empty string.
    Empty,
}

impl View for StripKey {
    type V = Seq<Seq<char>>;

    closed spec fn view(&self) -> Seq<Seq<char>> {
        path_view(self.parts@)
    }
}

impl View for ExtraKey {
    type V = ExtraKeyModel;

    open spec fn view(&self) -> ExtraKeyModel {
        match self {
            ExtraKey::CellMeta(k) => ExtraKeyModel::CellMeta(k@),
            ExtraKey::Metadata(k) => ExtraKeyModel::Metadata(k@),
        }
    }
}

impl ExtraKeyModel {
    pub open spec fn parts(self) -> Seq<Seq<char>> {
        match self {
            ExtraKeyModel::CellMeta(p) => p,
            ExtraKeyModel::Metadata(p) => p,
        }
    }

    /// The path is not empty.
    pub open spec fn wf(self) -> bool {
        self.parts().len() > 0
    }

    /// The key as it is written: the prefix, a dot, the path joined by dots.
    pub open spec fn text(self) -> Seq<char> {
        match self {
            ExtraKeyModel::CellMeta(p) => "cell.metadata."@ + dotted(p),
            ExtraKeyModel::Metadata(p) => "metadata."@ + dotted(p),
        }
    }
}

/// The position of the first `sep` in `s`, or `s.len()` where it has none.
pub open spec fn first_of(s: Seq<char>, sep: char) -> int
    decreases s.len(),
{
    if s.len() == 0 {
        0
    } else if s[0] == sep {
        0
    } else {
        1 + first_of(s.drop_first(), sep)
    }
}

/// The pieces of `s` between the occurrences of `sep`: one piece more than
/// there are occurrences.
pub open spec fn split_on(s: Seq<char>, sep: char) -> Seq<Seq<char>>
    decreases s.len(),
{
    let i = first_of(s, sep);
    if 0 <= i < s.len() {
        seq![s.take(i)] + split_on(s.skip(i + 1), sep)
    } else {
        seq![s]
    }
}

/// The pieces of `s` between its dots.
pub open spec fn split_dots(s: Seq<char>) -> Seq<Seq<char>> {
    split_on(s, '.')
}

/// The path of a key, from the pieces that follow its prefix.
pub open spec fn sub_key(parts: Seq<Seq<char>>) -> Result<Seq<Seq<char>>, ExtraKeyParseError> {
    if parts.len() == 0 || (parts.len() == 1 && parts[0].len() == 0) {
        Err(ExtraKeyParseError::EmptySubKey)
    } else {
        Ok(parts)
    }
}

/// The key that the text `s` denotes, or why it denotes none.
pub open spec fn parse_key(s: Seq<char>) -> Result<ExtraKeyModel, ExtraKeyParseError> {
    let parts = split_dots(s);
    if parts[0] == "cell"@ {
        if parts.len() >= 2 && parts[1] == "metadata"@ {
            match sub_key(parts.skip(2)) {
                Ok(p) => Ok(ExtraKeyModel::CellMeta(p)),
                Err(e) => Err(e),
            }
        } else {
            Err(ExtraKeyParseError::NotCellOrMetadata)
        }
    } else if parts[0] == "metadata"@ {
        match sub_key(parts.skip(1)) {
            Ok(p) => Ok(ExtraKeyModel::Metadata(p)),
            Err(e) => Err(e),
        }
    } else if parts.len() == 1 && parts[0].len() == 0 {
        Err(ExtraKeyParseError::Empty)
    } else {
        Err(ExtraKeyParseError::NotCellOrMetadata)
    }
}

pub open spec fn strs_view(parts: Seq<&str>) -> Seq<Seq<char>> {
    parts.map_values(|s: &str| s@)
}

pub open spec fn key_result_view(r: Result<ExtraKey, ExtraKeyParseError>) -> Result<
    ExtraKeyModel,
    ExtraKeyParseError,
> {
    match r {
        Ok(k) => Ok(k@),
        Err(e) => Err(e),
    }
}

pub open spec fn strip_result_view(r: Result<StripKey, ExtraKeyParseError>) -> Result<
    Seq<Seq<char>>,
    ExtraKeyParseError,
> {
    match r {
        Ok(k) => Ok(k@),
        Err(e) => Err(e),
    }
}

pub proof fn lemma_split_nonempty(s: Seq<char>, sep: char)
    ensures
        split_on(s, sep).len() >= 1,
    decreases s.len(),
{
    let i = first_of(s, sep);
    if 0 <= i < s.len() {
        lemma_split_nonempty(s.skip(i + 1), sep);
    }
}

/// `str::split` at every `sep`, each piece as an owned string: the pieces
/// between the occurrences in order, the empty pieces too.
#[verifier::external_body]
pub(crate) fn split_char(s: &str, sep: char) -> (pieces: Vec<String>)
    ensures
        path_view(pieces@) == split_on(s@, sep),
{
    s.split(sep).map(String::from).collect()
}

impl StripKey {
    /// The path made of the segments `parts`.
    pub(crate) fn from_parts(parts: Vec<String>) -> (key: StripKey)
        ensures
            key@ == path_view(parts@),
    {
        StripKey { parts }
    }

    /// The path made of `parts`; no path is made of nothing or of one empty
    /// segment.
    pub fn try_from_slice(parts: &[&str]) -> (key: Result<StripKey, ExtraKeyParseError>)
        ensures
            strip_result_view(key) == sub_key(strs_view(parts@)),
    {
        if parts.len() == 0 || (parts.len() == 1 && parts[0].is_empty()) {
            return Err(ExtraKeyParseError::EmptySubKey);
        }
        let mut owned: Vec<String> = Vec::new();
        let mut i: usize = 0;
        while i < parts.len()
            invariant
                i <= parts.len(),
                owned@.len() == i,
                path_view(owned@) == strs_view(parts@).take(i as int),
            decreases parts.len() - i,
        {
            let ghost before = owned@;
            owned.push(parts[i].to_owned());
            proof {
                assert forall|j: int| 0 <= j < i + 1 implies path_view(owned@)[j] == strs_view(
                    parts@,
                ).take(i + 1)[j] by {
                    if j < i {
                        assert(path_view(before)[j] == strs_view(parts@).take(i as int)[j]);
                    }
                }
                assert(path_view(owned@) =~= strs_view(parts@).take(i + 1));
            }
            i += 1;
        }
        proof {
            assert(strs_view(parts@).take(i as int) =~= strs_view(parts@));
        }
        Ok(StripKey { parts: owned })
    }
}

/// The strings of `owned`, borrowed.
fn borrow_all(owned: &Vec<String>) -> (refs: Vec<&str>)
    ensures
        strs_view(refs@) == path_view(owned@),
{
    let mut refs: Vec<&str> = Vec::new();
    let mut i: usize = 0;
    while i < owned.len()
        invariant
            i <= owned.len(),
            refs@.len() == i,
            strs_view(refs@) == path_view(owned@).take(i as int),
        decreases owned.len() - i,
    {
        let ghost before = refs@;
        refs.push(owned[i].as_str());
        proof {
            assert forall|j: int| 0 <= j < i + 1 implies strs_view(refs@)[j] == path_view(
                owned@,
            ).take(i + 1)[j] by {
                if j < i {
                    assert(strs_view(before)[j] == path_view(owned@).take(i as int)[j]);
                }
            }
            assert(strs_view(refs@) =~= path_view(owned@).take(i + 1));
        }
        i += 1;
    }
    proof {
        assert(path_view(owned@).take(i as int) =~= path_view(owned@));
    }
    refs
}

impl ExtraKey {
    /// The segments of the path.
    pub fn get_parts(&self) -> (parts: &Vec<String>)
        ensures
            path_view(parts@) == self@.parts(),
    {
        match self {
            ExtraKey::Metadata(c) => &c.parts,
            ExtraKey::CellMeta(c) => &c.parts,
        }
    }

    /// The key as it is written.
    pub fn to_string(&self) -> (text: String)
        ensures
            text@ == self@.text(),
    {
        match self {
            ExtraKey::CellMeta(k) => {
                let tail = join(k.parts.as_slice(), ".");
                String::from_str("cell.metadata.").concat(tail.as_str())
            },
            ExtraKey::Metadata(k) => {
                let tail = join(k.parts.as_slice(), ".");
                String::from_str("metadata.").concat(tail.as_str())
            },
        }
    }

    /// Reads a key from its text.
    pub fn from_str(s: &str) -> (key: Result<ExtraKey, ExtraKeyParseError>)
        ensures
            key_result_view(key) == parse_key(s@),
    {
        let pieces = split_char(s, '.');
        proof {
            lemma_split_nonempty(s@, '.');
        }
        let parts = borrow_all(&pieces);
        let n = parts.len();
        let ghost all = strs_view(parts@);
        if parts[0].is_empty() && n == 1 {
            proof {
                reveal_strlit("cell");
                reveal_strlit("metadata");
            }
            return Err(ExtraKeyParseError::Empty);
        }
        if text_eq(parts[0], "cell") {
            if n >= 2 && text_eq(parts[1], "metadata") {
                let tail = slice_subrange(parts.as_slice(), 2, n);
                proof {
                    assert(strs_view(tail@) =~= all.skip(2));
                }
                match StripKey::try_from_slice(tail) {
                    Ok(k) => Ok(ExtraKey::CellMeta(k)),
                    Err(e) => Err(e),
                }
            } else {
                Err(ExtraKeyParseError::NotCellOrMetadata)
            }
        } else if text_eq(parts[0], "metadata") {
            let tail = slice_subrange(parts.as_slice(), 1, n);
            proof {
                assert(strs_view(tail@) =~= all.skip(1));
            }
            match StripKey::try_from_slice(tail) {
                Ok(k) => Ok(ExtraKey::Metadata(k)),
                Err(e) => Err(e),
            }
        } else {
            Err(ExtraKeyParseError::NotCellOrMetadata)
        }
    }
}

impl std::str::FromStr for ExtraKey {
    type Err = ExtraKeyParseError;

    fn from_str(s: &str) -> (key: Result<ExtraKey, ExtraKeyParseError>) {
        ExtraKey::from_str(s)
    }
}

/// The keys of `keys` that name a field of cell metadata, in order.
pub open spec fn cell_keys_of(keys: Seq<ExtraKeyModel>) -> Seq<ExtraKeyModel>
    decreases keys.len(),
{
    if keys.len() == 0 {
        Seq::empty()
    } else if keys.last() is CellMeta {
        cell_keys_of(keys.drop_last()).push(keys.last())
    } else {
        cell_keys_of(keys.drop_last())
    }
}

/// The keys of `keys` that name a field of notebook metadata, in order.
pub open spec fn meta_keys_of(keys: Seq<ExtraKeyModel>) -> Seq<ExtraKeyModel>
    decreases keys.len(),
{
    if keys.len() == 0 {
        Seq::empty()
    } else if keys.last() is Metadata {
        meta_keys_of(keys.drop_last()).push(keys.last())
    } else {
        meta_keys_of(keys.drop_last())
    }
}

pub open spec fn keys_view(keys: Seq<ExtraKey>) -> Seq<ExtraKeyModel> {
    keys.map_values(|k: ExtraKey| k@)
}

pub open spec fn key_refs_view(keys: Seq<&ExtraKey>) -> Seq<ExtraKeyModel> {
    keys.map_values(|k: &ExtraKey| k@)
}

/// Parts the keys by what they name: first those of cell metadata, then
/// those of notebook metadata, each in the order given.
pub fn partition_extra_keys(extra_keys: &[ExtraKey]) -> (parted: (Vec<&ExtraKey>, Vec<&ExtraKey>))
    ensures
        key_refs_view(parted.0@) == cell_keys_of(keys_view(extra_keys@)),
        key_refs_view(parted.1@) == meta_keys_of(keys_view(extra_keys@)),
{
    let mut meta_keys: Vec<&ExtraKey> = Vec::new();
    let mut cell_keys: Vec<&ExtraKey> = Vec::new();
    let ghost all = keys_view(extra_keys@);
    let mut i: usize = 0;
    while i < extra_keys.len()
        invariant
            i <= extra_keys.len(),
            all == keys_view(extra_keys@),
            key_refs_view(cell_keys@) == cell_keys_of(all.take(i as int)),
            key_refs_view(meta_keys@) == meta_keys_of(all.take(i as int)),
        decreases extra_keys.len() - i,
    {
        let extra_key = &extra_keys[i];
        proof {
            assert(all.take(i + 1).drop_last() =~= all.take(i as int));
            assert(all.take(i + 1).last() == extra_key@);
        }
        let ghost cells_before = key_refs_view(cell_keys@);
        let ghost metas_before = key_refs_view(meta_keys@);
        match extra_key {
            ExtraKey::CellMeta(_) => {
                cell_keys.push(extra_key);
                proof {
                    assert(key_refs_view(cell_keys@) =~= cells_before.push(extra_key@));
                }
            },
            ExtraKey::Metadata(_) => {
                meta_keys.push(extra_key);
                proof {
                    assert(key_refs_view(meta_keys@) =~= metas_before.push(extra_key@));
                }
            },
        }
        i += 1;
    }
    proof {
        assert(all.take(i as int) =~= all);
    }
    (cell_keys, meta_keys)
}

} // verus!
