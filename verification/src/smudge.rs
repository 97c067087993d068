//! Putting back into a notebook what was recorded of its kernel.
use crate::json::{entries_view, find_key, lemma_entries_view, Json, JsonValue};
use crate::record::{KernelSpecInfo, KernelSpecInfoModel};
use crate::schema::{opt_text, NotebookModel, RawNotebook};
use vstd::prelude::*;
use vstd::string::StringExecFns;

verus! {

/// Why nothing can be put back into a notebook.
#[derive(Debug, Clone, Copy, PartialEq, Eq, Structural)]
pub enum SmudgeError {
    /// The metadata is neither null nor an object.
    UnexpectedMetadataType,
    /// `language_info` is neither null nor an object.
    UnexpectedLanguageInfoType,
}

/// An object with the one entry.
pub open spec fn single(key: Seq<char>, value: JsonValue) -> JsonValue {
    JsonValue::Object(seq![(key, value)])
}

/// The metadata with the recorded `kernelspec` put first, unless it has
/// one or none was recorded.
pub open spec fn with_kernelspec(metadata: JsonValue, kernelspec: JsonValue) -> Result<
    JsonValue,
    SmudgeError,
> {
    if kernelspec is Null {
        Ok(metadata)
    } else {
        match metadata {
            JsonValue::Null => Ok(single("kernelspec"@, kernelspec)),
            JsonValue::Object(entries) => if metadata.has_field("kernelspec"@) {
                Ok(metadata)
            } else {
                Ok(JsonValue::Object(entries.insert(0, ("kernelspec"@, kernelspec))))
            },
            _ => Err(SmudgeError::UnexpectedMetadataType),
        }
    }
}

/// The metadata with the recorded version under `language_info`, unless
/// it has one there or none was recorded.
pub open spec fn with_version(metadata: JsonValue, version: Option<Seq<char>>) -> Result<
    JsonValue,
    SmudgeError,
> {
    match version {
        None => Ok(metadata),
        Some(v) => {
            let info = single("version"@, JsonValue::Text(v));
            match metadata {
                JsonValue::Null => Ok(single("language_info"@, info)),
                JsonValue::Object(_) => match metadata.field("language_info"@) {
                    None => Ok(metadata.with_field("language_info"@, info)),
                    Some(JsonValue::Null) => Ok(metadata.with_field("language_info"@, info)),
                    Some(JsonValue::Object(e)) => if JsonValue::Object(e).has_field("version"@) {
                        Ok(metadata)
                    } else {
                        Ok(
                            metadata.with_field(
                                "language_info"@,
                                JsonValue::Object(e).with_field("version"@, JsonValue::Text(v)),
                            ),
                        )
                    },
                    Some(_) => Err(SmudgeError::UnexpectedLanguageInfoType),
                },
                _ => Err(SmudgeError::UnexpectedMetadataType),
            }
        },
    }
}

/// The notebook with what was recorded of its kernel put back where it is
/// missing: first the `kernelspec`, then the version.
pub open spec fn smudged(nb: NotebookModel, info: KernelSpecInfoModel) -> Result<
    NotebookModel,
    SmudgeError,
> {
    match with_kernelspec(nb.metadata, info.kernelspec) {
        Err(e) => Err(e),
        Ok(m) => match with_version(m, info.python_version) {
            Err(e) => Err(e),
            Ok(metadata) => Ok(NotebookModel { metadata, ..nb }),
        },
    }
}

pub open spec fn notebook_result_view(r: Result<RawNotebook, SmudgeError>) -> Result<
    NotebookModel,
    SmudgeError,
> {
    match r {
        Ok(nb) => Ok(nb@),
        Err(e) => Err(e),
    }
}

fn single_object(key: &str, value: Json) -> (object: Json)
    ensures
        object@ == single(key@, value@),
{
    let mut entries: Vec<(String, Json)> = Vec::new();
    entries.push((key.to_owned(), value));
    proof {
        lemma_entries_view(entries@);
        assert(entries_view(entries@) =~= seq![(key@, value@)]);
    }
    Json::Object(entries)
}

fn put_kernelspec(metadata: &mut Json, kernelspec: &Json) -> (done: Result<(), SmudgeError>)
    ensures
        match with_kernelspec(old(metadata)@, kernelspec@) {
            Ok(m) => done is Ok && final(metadata)@ == m,
            Err(e) => done == Err::<(), SmudgeError>(e),
        },
{
    let is_null = match kernelspec {
        Json::Null => true,
        _ => false,
    };
    if is_null {
        return Ok(());
    }
    match metadata {
        Json::Null => {
            *metadata = single_object("kernelspec", kernelspec.duplicate());
            Ok(())
        },
        Json::Object(entries) => {
            let ghost before = entries_view(entries@);
            proof {
                lemma_entries_view(entries@);
            }
            if find_key(entries, "kernelspec") >= entries.len() {
                entries.insert(0, (String::from_str("kernelspec"), kernelspec.duplicate()));
                proof {
                    lemma_entries_view(entries@);
                    assert(entries_view(entries@) =~= before.insert(
                        0,
                        ("kernelspec"@, kernelspec@),
                    ));
                }
            }
            Ok(())
        },
        _ => Err(SmudgeError::UnexpectedMetadataType),
    }
}

fn put_version(metadata: &mut Json, version: &Option<String>) -> (done: Result<(), SmudgeError>)
    ensures
        match with_version(old(metadata)@, opt_text(*version)) {
            Ok(m) => done is Ok && final(metadata)@ == m,
            Err(e) => done == Err::<(), SmudgeError>(e),
        },
{
    let version = match version {
        Some(v) => v,
        None => {
            return Ok(());
        },
    };
    let is_object = match metadata {
        Json::Null => {
            *metadata = single_object(
                "language_info",
                single_object("version", Json::Text(version.clone())),
            );
            return Ok(());
        },
        Json::Object(_) => true,
        _ => false,
    };
    if !is_object {
        return Err(SmudgeError::UnexpectedMetadataType);
    }
    let ghost m = metadata@;
    let updated = match metadata.get("language_info") {
        None | Some(Json::Null) => Some(single_object("version", Json::Text(version.clone()))),
        Some(Json::Object(e)) => {
            proof {
                lemma_entries_view(e@);
            }
            if find_key(e, "version") >= e.len() {
                let mut info = metadata.get("language_info").unwrap().duplicate();
                info.insert("version", Json::Text(version.clone()));
                Some(info)
            } else {
                return Ok(());
            }
        },
        Some(_) => {
            return Err(SmudgeError::UnexpectedLanguageInfoType);
        },
    };
    match updated {
        Some(info) => metadata.insert("language_info", info),
        None => {},
    }
    Ok(())
}

/// Puts back into the notebook what was recorded of its kernel, where the
/// notebook lacks it.
pub fn maybe_replace_kernelspec(nb: RawNotebook, kernelspec_info: &KernelSpecInfo) -> (out: Result<
    RawNotebook,
    SmudgeError,
>)
    ensures
        notebook_result_view(out) == smudged(nb@, kernelspec_info@),
{
    let mut nb = nb;
    match put_kernelspec(&mut nb.metadata, &kernelspec_info.kernelspec) {
        Err(e) => {
            return Err(e);
        },
        Ok(_) => {},
    }
    match put_version(&mut nb.metadata, &kernelspec_info.python_version) {
        Err(e) => {
            return Err(e);
        },
        Ok(_) => {},
    }
    Ok(nb)
}

} // verus!
