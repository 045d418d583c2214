//! Unreal Engine project paths and asset kinds.

use vstd::prelude::*;
use vstd::string::*;
use crate::pathname::{extension, extension_of, join, joined, starts_with_path, path_has_prefix};
use crate::text::{to_lower, lower_of, str_eq};

verus! {

/// Project facts read from a `.uproject` file.
#[derive(Debug, Clone)]
pub struct UnrealProjectInfo {
    pub path: String,
    pub project_name: String,
    pub engine_association: Option<String>,
    pub category: Option<String>,
    pub description: Option<String>,
    pub plugins: Vec<UnrealPlugin>,
    pub target_platforms: Vec<String>,
    pub modules: Vec<UnrealModule>,
    pub is_enterprise_project: bool,
}

/// A plugin listed by a project.
#[derive(Debug, Clone)]
pub struct UnrealPlugin {
    pub name: String,
    pub enabled: bool,
}

/// A code module listed by a project.
#[derive(Debug, Clone)]
pub struct UnrealModule {
    pub name: String,
    pub module_type: String,
    pub loading_phase: Option<String>,
}

/// Whether `path` lies in the `Content` directory of `project_root`.
pub fn is_content_path(path: &str, project_root: &str) -> (r: bool)
    ensures
        r == path_has_prefix(path@, joined(project_root@, "Content"@)),
{
    let content_dir = join(project_root, "Content");
    starts_with_path(path, content_dir.as_str())
}

/// The Unreal kind of a lower-case extension.
pub open spec fn unreal_kind_of(e: Seq<char>) -> Option<Seq<char>> {
    if e == "uasset"@ {
        Some("Asset"@)
    } else if e == "umap"@ {
        Some("Map"@)
    } else if e == "uplugin"@ {
        Some("Plugin"@)
    } else {
        None
    }
}

/// The Unreal kind of a lower-case extension: `Asset`, `Map` or `Plugin`.
pub fn unreal_kind(e: &str) -> (r: Option<String>)
    ensures
        r.is_some() == unreal_kind_of(e@).is_some(),
        r.is_some() ==> r.unwrap()@ == unreal_kind_of(e@).unwrap(),
{
    if str_eq(e, "uasset") {
        Some(String::from_str("Asset"))
    } else if str_eq(e, "umap") {
        Some(String::from_str("Map"))
    } else if str_eq(e, "uplugin") {
        Some(String::from_str("Plugin"))
    } else {
        None
    }
}

/// The Unreal kind of a file, by its extension ignoring case.
pub fn get_unreal_asset_type(path: &str) -> (r: Option<String>)
    ensures
        extension_of(path@).is_none() ==> r.is_none(),
        extension_of(path@).is_some() ==> {
            let k = unreal_kind_of(lower_of(extension_of(path@).unwrap()));
            &&& r.is_some() == k.is_some()
            &&& r.is_some() ==> r.unwrap()@ == k.unwrap()
        },
{
    match extension(path) {
        Some(e) => {
            let lower = to_lower(e.as_str());
            unreal_kind(lower.as_str())
        },
        None => None,
    }
}

} // verus!
