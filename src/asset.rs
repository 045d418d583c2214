//! Assets, their coarse types, and the metadata extracted from them.

use vstd::prelude::*;
use crate::text::{str_eq, to_lower, lower_of, starts_with, ends_with, has_prefix, has_suffix};

verus! {

/// Coarse asset type derived from a file extension.
#[derive(Debug, Clone, Copy, PartialEq, Eq, Hash, Structural)]
pub enum AssetType {
    Texture,
    Model,
    Audio,
    Animation,
    Material,
    Prefab,
    Scene,
    Script,
    Data,
    Other,
}

/// Type-specific facts about an asset; an absent field means "not applicable
/// or not readable", never zero.
///
/// An audio asset's duration in seconds is `duration_frames / sample_rate`;
/// it is known when both are present.
#[derive(Debug, Clone, Copy, PartialEq, Eq, Structural)]
pub struct AssetMetadata {
    pub width: Option<u32>,
    pub height: Option<u32>,
    pub has_alpha: Option<bool>,
    pub vertex_count: Option<u32>,
    pub face_count: Option<u32>,
    pub material_count: Option<u32>,
    pub duration_frames: Option<u64>,
    pub sample_rate: Option<u32>,
    pub channels: Option<u32>,
    pub bit_depth: Option<u32>,
}

impl AssetMetadata {
    /// Metadata with every field absent.
    pub fn empty() -> (r: AssetMetadata)
        ensures
            r == AssetMetadata::spec_empty(),
    {
        AssetMetadata {
            width: None,
            height: None,
            has_alpha: None,
            vertex_count: None,
            face_count: None,
            material_count: None,
            duration_frames: None,
            sample_rate: None,
            channels: None,
            bit_depth: None,
        }
    }

    pub open spec fn spec_empty() -> AssetMetadata {
        AssetMetadata {
            width: None,
            height: None,
            has_alpha: None,
            vertex_count: None,
            face_count: None,
            material_count: None,
            duration_frames: None,
            sample_rate: None,
            channels: None,
            bit_depth: None,
        }
    }

    /// Image facts only.
    pub fn image(width: u32, height: u32, has_alpha: bool) -> (r: AssetMetadata)
        ensures
            r == (AssetMetadata {
                width: Some(width),
                height: Some(height),
                has_alpha: Some(has_alpha),
                ..AssetMetadata::spec_empty()
            }),
    {
        AssetMetadata {
            width: Some(width),
            height: Some(height),
            has_alpha: Some(has_alpha),
            ..AssetMetadata::empty()
        }
    }

    /// Mesh facts only.
    pub fn mesh(vertex_count: u32, face_count: u32, material_count: u32) -> (r: AssetMetadata)
        ensures
            r == (AssetMetadata {
                vertex_count: Some(vertex_count),
                face_count: Some(face_count),
                material_count: Some(material_count),
                ..AssetMetadata::spec_empty()
            }),
    {
        AssetMetadata {
            vertex_count: Some(vertex_count),
            face_count: Some(face_count),
            material_count: Some(material_count),
            ..AssetMetadata::empty()
        }
    }

    /// Audio facts only.
    pub fn audio(
        duration_frames: Option<u64>,
        sample_rate: Option<u32>,
        channels: Option<u32>,
        bit_depth: Option<u32>,
    ) -> (r: AssetMetadata)
        ensures
            r == (AssetMetadata {
                duration_frames,
                sample_rate,
                channels,
                bit_depth,
                ..AssetMetadata::spec_empty()
            }),
    {
        AssetMetadata { duration_frames, sample_rate, channels, bit_depth, ..AssetMetadata::empty() }
    }
}

impl Default for AssetMetadata {
    fn default() -> (r: AssetMetadata)
        ensures
            r == AssetMetadata::spec_empty(),
    {
        AssetMetadata::empty()
    }
}

/// One file of the scanned tree.
#[derive(Debug, Clone)]
pub struct AssetInfo {
    pub path: String,
    pub name: String,
    pub extension: String,
    pub asset_type: AssetType,
    pub size: u64,
    pub metadata: Option<AssetMetadata>,
    pub unity_guid: Option<String>,
}

impl AssetInfo {
    /// A field-by-field copy of this asset.
    pub fn copy(&self) -> (r: AssetInfo)
        ensures
            r == *self,
    {
        let unity_guid = match &self.unity_guid {
            Some(g) => Some(g.clone()),
            None => None,
        };
        AssetInfo {
            path: self.path.clone(),
            name: self.name.clone(),
            extension: self.extension.clone(),
            asset_type: self.asset_type,
            size: self.size,
            metadata: self.metadata,
            unity_guid,
        }
    }
}

/// The asset type of an extension that is already in lower case.
pub open spec fn asset_type_of(e: Seq<char>) -> AssetType {
    if e == "png"@ || e == "jpg"@ || e == "jpeg"@ || e == "tga"@ || e == "psd"@ || e == "tiff"@
        || e == "tif"@ || e == "exr"@ || e == "hdr"@ || e == "webp"@ || e == "dds"@ || e
        == "bmp"@ || e == "gif"@ {
        AssetType::Texture
    } else if e == "fbx"@ || e == "obj"@ || e == "gltf"@ || e == "glb"@ || e == "blend"@ || e
        == "dae"@ || e == "3ds"@ || e == "max"@ {
        AssetType::Model
    } else if e == "wav"@ || e == "mp3"@ || e == "ogg"@ || e == "flac"@ || e == "aiff"@ || e
        == "aac"@ || e == "wma"@ {
        AssetType::Audio
    } else if e == "prefab"@ {
        AssetType::Prefab
    } else if e == "unity"@ {
        AssetType::Scene
    } else if e == "mat"@ {
        AssetType::Material
    } else if e == "controller"@ || e == "anim"@ {
        AssetType::Animation
    } else if e == "cs"@ || e == "js"@ {
        AssetType::Script
    } else if e == "asset"@ || e == "json"@ || e == "xml"@ || e == "yaml"@ || e == "csv"@ {
        AssetType::Data
    } else {
        AssetType::Other
    }
}

/// The asset type of an extension already in lower case.
pub fn asset_type_for_lowered(e: &str) -> (r: AssetType)
    ensures
        r == asset_type_of(e@),
{
    if str_eq(e, "png") || str_eq(e, "jpg") || str_eq(e, "jpeg") || str_eq(e, "tga") || str_eq(
        e,
        "psd",
    ) || str_eq(e, "tiff") || str_eq(e, "tif") || str_eq(e, "exr") || str_eq(e, "hdr")
        || str_eq(e, "webp") || str_eq(e, "dds") || str_eq(e, "bmp") || str_eq(e, "gif") {
        AssetType::Texture
    } else if str_eq(e, "fbx") || str_eq(e, "obj") || str_eq(e, "gltf") || str_eq(e, "glb")
        || str_eq(e, "blend") || str_eq(e, "dae") || str_eq(e, "3ds") || str_eq(e, "max") {
        AssetType::Model
    } else if str_eq(e, "wav") || str_eq(e, "mp3") || str_eq(e, "ogg") || str_eq(e, "flac")
        || str_eq(e, "aiff") || str_eq(e, "aac") || str_eq(e, "wma") {
        AssetType::Audio
    } else if str_eq(e, "prefab") {
        AssetType::Prefab
    } else if str_eq(e, "unity") {
        AssetType::Scene
    } else if str_eq(e, "mat") {
        AssetType::Material
    } else if str_eq(e, "controller") || str_eq(e, "anim") {
        AssetType::Animation
    } else if str_eq(e, "cs") || str_eq(e, "js") {
        AssetType::Script
    } else if str_eq(e, "asset") || str_eq(e, "json") || str_eq(e, "xml") || str_eq(e, "yaml")
        || str_eq(e, "csv") {
        AssetType::Data
    } else {
        AssetType::Other
    }
}

/// Classifies a file extension, ignoring case; unknown extensions are `Other`.
pub fn get_asset_type(extension: &str) -> (r: AssetType)
    ensures
        r == asset_type_of(lower_of(extension@)),
{
    let lower = to_lower(extension);
    asset_type_for_lowered(lower.as_str())
}

/// Which decoder reads the metadata of a file.
#[derive(Debug, Clone, Copy, PartialEq, Eq, Structural)]
pub enum MetadataSource {
    Image,
    Gltf,
    Obj,
    Audio,
    Unsupported,
}

/// The decoder for an asset type and a lower-case extension: only a known
/// subset of containers of each type is read.
pub open spec fn metadata_source_of(t: AssetType, e: Seq<char>) -> MetadataSource {
    match t {
        AssetType::Texture => if e == "png"@ || e == "jpg"@ || e == "jpeg"@ || e == "bmp"@ || e
            == "gif"@ || e == "tga"@ {
            MetadataSource::Image
        } else {
            MetadataSource::Unsupported
        },
        AssetType::Model => if e == "gltf"@ || e == "glb"@ {
            MetadataSource::Gltf
        } else if e == "obj"@ {
            MetadataSource::Obj
        } else {
            MetadataSource::Unsupported
        },
        AssetType::Audio => if e == "mp3"@ || e == "ogg"@ || e == "wav"@ {
            MetadataSource::Audio
        } else {
            MetadataSource::Unsupported
        },
        _ => MetadataSource::Unsupported,
    }
}

/// Chooses the decoder for a file of type `t` with extension `extension`.
pub fn metadata_source(t: AssetType, extension: &str) -> (r: MetadataSource)
    ensures
        r == metadata_source_of(t, lower_of(extension@)),
{
    let lower = to_lower(extension);
    let e = lower.as_str();
    match t {
        AssetType::Texture => if str_eq(e, "png") || str_eq(e, "jpg") || str_eq(e, "jpeg")
            || str_eq(e, "bmp") || str_eq(e, "gif") || str_eq(e, "tga") {
            MetadataSource::Image
        } else {
            MetadataSource::Unsupported
        },
        AssetType::Model => if str_eq(e, "gltf") || str_eq(e, "glb") {
            MetadataSource::Gltf
        } else if str_eq(e, "obj") {
            MetadataSource::Obj
        } else {
            MetadataSource::Unsupported
        },
        AssetType::Audio => if str_eq(e, "mp3") || str_eq(e, "ogg") || str_eq(e, "wav") {
            MetadataSource::Audio
        } else {
            MetadataSource::Unsupported
        },
        _ => MetadataSource::Unsupported,
    }
}

/// Whether a discovered file enters the scan: dot-files, engine sidecar
/// `.meta` files and files without an extension are left out.
pub open spec fn is_scanned_file(file_name: Seq<char>, extension: Seq<char>) -> bool {
    !has_prefix(file_name, "."@) && !has_suffix(file_name, ".meta"@) && extension.len() > 0
}

/// Decides whether a discovered (non-directory) file is part of the scan.
pub fn should_scan(file_name: &str, extension: &str) -> (r: bool)
    ensures
        r == is_scanned_file(file_name@, extension@),
{
    !starts_with(file_name, ".") && !ends_with(file_name, ".meta") && !extension.is_empty()
}

} // verus!
