//! Mesh complexity.

use vstd::prelude::*;
use vstd::string::*;
use crate::analysis::{Issue, Severity};
use crate::asset::{AssetInfo, AssetType};
use crate::text::{decimal, decimal_text};
use crate::rules::format::{new_issue, issue_head, text_is};

verus! {

/// Thresholds of the model rule.
#[derive(Debug, Clone, Copy)]
pub struct ModelConfig {
    pub enabled: bool,
    /// Largest vertex count before a warning.
    pub max_vertices: u32,
    /// Largest face count before a warning.
    pub max_faces: u32,
    /// Largest material count before a warning.
    pub max_materials: u32,
}

pub const DEFAULT_MAX_VERTICES: u32 = 100000;

pub const DEFAULT_MAX_FACES: u32 = 100000;

pub const DEFAULT_MAX_MATERIALS: u32 = 10;

impl ModelConfig {
    pub open spec fn spec_default() -> ModelConfig {
        ModelConfig { enabled: true, max_vertices: 100000, max_faces: 100000, max_materials: 10 }
    }
}

impl Default for ModelConfig {
    fn default() -> (r: ModelConfig)
        ensures
            r == ModelConfig::spec_default(),
    {
        ModelConfig {
            enabled: true,
            max_vertices: DEFAULT_MAX_VERTICES,
            max_faces: DEFAULT_MAX_FACES,
            max_materials: DEFAULT_MAX_MATERIALS,
        }
    }
}

/// The model rule.
#[derive(Debug, Clone, Copy)]
pub struct ModelRule {
    pub config: ModelConfig,
}

/// The first model check that fails.
#[derive(Debug, Clone, Copy, PartialEq, Eq, Structural)]
pub enum ModelFinding {
    Vertices(u32),
    Faces(u32),
    Materials(u32),
}

/// The first failing check over the known counts, in the order vertices,
/// faces, materials.
pub open spec fn model_finding(
    c: ModelConfig,
    vertices: Option<u32>,
    faces: Option<u32>,
    materials: Option<u32>,
) -> Option<ModelFinding> {
    if vertices.is_some() && vertices.unwrap() > c.max_vertices {
        Some(ModelFinding::Vertices(vertices.unwrap()))
    } else if faces.is_some() && faces.unwrap() > c.max_faces {
        Some(ModelFinding::Faces(faces.unwrap()))
    } else if materials.is_some() && materials.unwrap() > c.max_materials {
        Some(ModelFinding::Materials(materials.unwrap()))
    } else {
        None
    }
}

/// Whether `i` is the issue the model rule raises for finding `f`.
pub open spec fn model_issue(c: ModelConfig, f: ModelFinding, path: Seq<char>, i: Issue) -> bool {
    match f {
        ModelFinding::Vertices(n) => {
            &&& issue_head(
                i,
                "model.vertices"@,
                "High Vertex Count"@,
                Severity::Warning,
                false,
                path,
            )
            &&& i.message@ == "Model has "@ + decimal_text(n as nat)
                + " vertices, maximum recommended is "@ + decimal_text(c.max_vertices as nat)
            &&& text_is(i.suggestion, "Consider reducing polygon count or using LODs"@)
        },
        ModelFinding::Faces(n) => {
            &&& issue_head(i, "model.faces"@, "High Face Count"@, Severity::Warning, false, path)
            &&& i.message@ == "Model has "@ + decimal_text(n as nat)
                + " faces, maximum recommended is "@ + decimal_text(c.max_faces as nat)
            &&& text_is(i.suggestion, "Consider reducing polygon count or using LODs"@)
        },
        ModelFinding::Materials(n) => {
            &&& issue_head(
                i,
                "model.materials"@,
                "Too Many Materials"@,
                Severity::Warning,
                false,
                path,
            )
            &&& i.message@ == "Model has "@ + decimal_text(n as nat)
                + " materials, maximum recommended is "@ + decimal_text(c.max_materials as nat)
            &&& text_is(i.suggestion, "Consider combining materials to reduce draw calls"@)
        },
    }
}

/// What the model rule reports for `a`: nothing without metadata, else the
/// issue of the first failing check, if any.
pub open spec fn model_outcome(c: ModelConfig, a: AssetInfo, r: Option<Issue>) -> bool {
    match a.metadata {
        Some(m) => match model_finding(c, m.vertex_count, m.face_count, m.material_count) {
            Some(f) => r.is_some() && model_issue(c, f, a.path@, r.unwrap()),
            None => r.is_none(),
        },
        None => r.is_none(),
    }
}

fn count_message(n: u32, what: &str, limit: u32) -> (r: String)
    ensures
        r@ == "Model has "@ + decimal_text(n as nat) + what@ + decimal_text(limit as nat),
{
    let mut s = String::from_str("Model has ");
    let a = decimal(n as u64);
    s.append(a.as_str());
    s.append(what);
    let b = decimal(limit as u64);
    s.append(b.as_str());
    s
}

impl ModelRule {
    pub fn new(config: ModelConfig) -> (r: ModelRule)
        ensures
            r.config == config,
    {
        ModelRule { config }
    }

    pub fn id(&self) -> (r: &'static str)
        ensures
            r@ == "model"@,
    {
        "model"
    }

    pub fn name(&self) -> (r: &'static str)
        ensures
            r@ == "Model Standards"@,
    {
        "Model Standards"
    }

    /// The rule looks at models only.
    pub fn applies_to(&self, asset: &AssetInfo) -> (r: bool)
        ensures
            r == (asset.asset_type == AssetType::Model),
    {
        asset.asset_type == AssetType::Model
    }

    /// Runs the model checks in order and reports the first that fails.
    pub fn check(&self, asset: &AssetInfo) -> (r: Option<Issue>)
        ensures
            model_outcome(self.config, *asset, r),
    {
        let m = match asset.metadata {
            Some(m) => m,
            None => return None,
        };
        let c = self.config;
        if let Some(n) = m.vertex_count {
            if n > c.max_vertices {
                let msg = count_message(n, " vertices, maximum recommended is ", c.max_vertices);
                return Some(
                    new_issue(
                        "model.vertices",
                        "High Vertex Count",
                        Severity::Warning,
                        msg,
                        &asset.path,
                        Some(String::from_str("Consider reducing polygon count or using LODs")),
                        false,
                    ),
                );
            }
        }
        if let Some(n) = m.face_count {
            if n > c.max_faces {
                let msg = count_message(n, " faces, maximum recommended is ", c.max_faces);
                return Some(
                    new_issue(
                        "model.faces",
                        "High Face Count",
                        Severity::Warning,
                        msg,
                        &asset.path,
                        Some(String::from_str("Consider reducing polygon count or using LODs")),
                        false,
                    ),
                );
            }
        }
        if let Some(n) = m.material_count {
            if n > c.max_materials {
                let msg = count_message(n, " materials, maximum recommended is ", c.max_materials);
                return Some(
                    new_issue(
                        "model.materials",
                        "Too Many Materials",
                        Severity::Warning,
                        msg,
                        &asset.path,
                        Some(
                            String::from_str("Consider combining materials to reduce draw calls"),
                        ),
                        false,
                    ),
                );
            }
        }
        None
    }
}

} // verus!
