//! What kernel a notebook was run with, as its metadata records it.
use crate::json::{Json, JsonValue};
use crate::schema::{opt_text, NotebookModel, RawNotebook};
use vstd::prelude::*;

verus! {

/// The kernel of a notebook: its `kernelspec` (null where it has none) and
/// the version of its language.
#[derive(Debug, PartialEq)]
pub struct KernelSpecInfo {
    pub kernelspec: Json,
    pub python_version: Option<String>,
}

pub struct KernelSpecInfoModel {
    pub kernelspec: JsonValue,
    pub python_version: Option<Seq<char>>,
}

impl View for KernelSpecInfo {
    type V = KernelSpecInfoModel;

    open spec fn view(&self) -> KernelSpecInfoModel {
        KernelSpecInfoModel {
            kernelspec: self.kernelspec@,
            python_version: opt_text(self.python_version),
        }
    }
}

/// The entry `language_info.version` of the metadata, read key by key.
pub open spec fn language_version(metadata: JsonValue) -> Option<JsonValue> {
    match metadata.field("language_info"@) {
        Some(info) => info.field("version"@),
        None => None,
    }
}

/// What the metadata records of the kernel: nothing where it has neither
/// a `kernelspec` nor a `language_info.version`. A version that is no text
/// counts as recorded, but is not taken over.
pub open spec fn kernel_info_of(nb: NotebookModel) -> Option<KernelSpecInfoModel> {
    let kernelspec = nb.metadata.field("kernelspec"@);
    let version = language_version(nb.metadata);
    if kernelspec is None && version is None {
        None
    } else {
        Some(
            KernelSpecInfoModel {
                kernelspec: match kernelspec {
                    Some(k) => k,
                    None => JsonValue::Null,
                },
                python_version: match version {
                    Some(JsonValue::Text(v)) => Some(v),
                    _ => None,
                },
            },
        )
    }
}

pub open spec fn opt_info_view(o: Option<KernelSpecInfo>) -> Option<KernelSpecInfoModel> {
    match o {
        Some(i) => Some(i@),
        None => None,
    }
}

/// What the notebook's metadata records of its kernel.
pub fn extract_kernel_info(nb: &RawNotebook) -> (info: Option<KernelSpecInfo>)
    ensures
        opt_info_view(info) == kernel_info_of(nb@),
{
    let kernelspec = nb.metadata.get("kernelspec");
    let python_version = match nb.metadata.get("language_info") {
        Some(li) => li.get("version"),
        None => None,
    };
    if kernelspec.is_none() && python_version.is_none() {
        return None;
    }
    Some(
        KernelSpecInfo {
            kernelspec: match kernelspec {
                Some(k) => k.duplicate(),
                None => Json::Null,
            },
            python_version: match python_version {
                Some(Json::Text(v)) => Some(v.clone()),
                _ => None,
            },
        },
    )
}

} // verus!
