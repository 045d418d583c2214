//! Unity YAML assets: file kinds, GUID references and component types.

use vstd::prelude::*;
use vstd::string::*;
use crate::text::{
    to_lower,
    lower_of,
    str_eq,
    trim,
    trim_of,
    trim_start,
    trim_start_of,
    find,
    has_infix,
    has_prefix,
    starts_with,
    contains,
    lines,
    lines_of,
    slice,
    take_class,
    class_prefix,
    parse_i32,
    parse_i64,
    i32_parse_of,
    i64_parse_of,
};
use crate::pathname::{extension, extension_of};

verus! {

/// A reference to another asset by GUID.
#[derive(Debug, Clone, PartialEq, Eq, Hash)]
pub struct UnityReference {
    pub guid: String,
    pub file_id: Option<i64>,
    pub ref_type: Option<i32>,
}

/// The references and component types of one Unity file.
#[derive(Debug, Clone)]
pub struct UnityFileInfo {
    pub path: String,
    pub file_type: UnityFileType,
    pub references: Vec<UnityReference>,
    pub components: Vec<String>,
}

/// Unity asset kinds by extension.
#[derive(Debug, Clone, Copy, PartialEq, Eq, Structural)]
pub enum UnityFileType {
    Prefab,
    Scene,
    Material,
    Controller,
    Asset,
    Unknown,
}

/// The Unity kind of a lower-case extension.
pub open spec fn unity_kind_of(e: Seq<char>) -> UnityFileType {
    if e == "prefab"@ {
        UnityFileType::Prefab
    } else if e == "unity"@ {
        UnityFileType::Scene
    } else if e == "mat"@ {
        UnityFileType::Material
    } else if e == "controller"@ {
        UnityFileType::Controller
    } else if e == "asset"@ {
        UnityFileType::Asset
    } else {
        UnityFileType::Unknown
    }
}

impl UnityFileType {
    /// The kind of a file extension, ignoring case.
    pub fn from_extension(ext: &str) -> (r: UnityFileType)
        ensures
            r == unity_kind_of(lower_of(ext@)),
    {
        let lower = to_lower(ext);
        let e = lower.as_str();
        if str_eq(e, "prefab") {
            UnityFileType::Prefab
        } else if str_eq(e, "unity") {
            UnityFileType::Scene
        } else if str_eq(e, "mat") {
            UnityFileType::Material
        } else if str_eq(e, "controller") {
            UnityFileType::Controller
        } else if str_eq(e, "asset") {
            UnityFileType::Asset
        } else {
            UnityFileType::Unknown
        }
    }
}

/// Position of the first occurrence of `p` in `s`, if any.
pub open spec fn first_at(s: Seq<char>, p: Seq<char>) -> Option<int> {
    if has_infix(s, p) {
        Some(choose|i: int| 0 <= i <= s.len() - p.len() && #[trigger] s.subrange(i, i + p.len()) == p && forall|j: int| 0 <= j < i ==> #[trigger] s.subrange(j, j + p.len()) != p)
    } else {
        None
    }
}

proof fn lemma_first_at(s: Seq<char>, p: Seq<char>, i: int)
    requires
        0 <= i <= s.len() - p.len(),
        s.subrange(i, i + p.len()) == p,
        forall|j: int| 0 <= j < i ==> #[trigger] s.subrange(j, j + p.len()) != p,
    ensures
        first_at(s, p) == Some(i),
{
    assert(has_infix(s, p));
    let k = first_at(s, p).unwrap();
    if k < i {
        assert(s.subrange(k, k + p.len()) != p);
    }
    if k > i {
        assert(s.subrange(i, i + p.len()) != p);
    }
}

/// The text after the first `marker`, with leading white space dropped
/// when `skip_space`, then its leading run of characters of class `k`.
pub open spec fn field_digits(line: Seq<char>, marker: Seq<char>, skip_space: bool, k: int) -> Option<Seq<char>> {
    match first_at(line, marker) {
        Some(i) => {
            let rest = line.subrange(i + marker.len(), line.len() as int);
            Some(class_prefix(if skip_space { trim_start_of(rest) } else { rest }, k))
        },
        None => None,
    }
}

fn field_text(line: &str, marker: &str, skip_space: bool, k: u8) -> (r: Option<String>)
    requires
        k <= 2,
    ensures
        r.is_some() == field_digits(line@, marker@, skip_space, k as int).is_some(),
        r.is_some() ==> r.unwrap()@ == field_digits(line@, marker@, skip_space, k as int).unwrap(),
{
    match find(line, marker) {
        Some(i) => {
            proof {
                lemma_first_at(line@, marker@, i as int);
            }
            let n = line.unicode_len();
            let m = marker.unicode_len();
            let rest = slice(line, i + m, n);
            if skip_space {
                Some(take_class(trim_start(rest.as_str()), k))
            } else {
                Some(take_class(rest.as_str(), k))
            }
        },
        None => None,
    }
}

/// The number after `fileID:` on a line, if it parses.
pub fn extract_file_id(line: &str) -> (r: Option<i64>)
    ensures
        r == match field_digits(line@, "fileID:"@, true, 1) {
            Some(t) => i64_parse_of(t),
            None => None,
        },
{
    match field_text(line, "fileID:", true, 1) {
        Some(t) => parse_i64(t.as_str()),
        None => None,
    }
}

/// The number after `type:` on a line, if it parses.
pub fn extract_type(line: &str) -> (r: Option<i32>)
    ensures
        r == match field_digits(line@, "type:"@, true, 0) {
            Some(t) => i32_parse_of(t),
            None => None,
        },
{
    match field_text(line, "type:", true, 0) {
        Some(t) => parse_i32(t.as_str()),
        None => None,
    }
}

/// The class id after `!u!` in a YAML document header, if it parses.
pub fn extract_unity_class_id(line: &str) -> (r: Option<i32>)
    ensures
        r == match field_digits(line@, "!u!"@, false, 0) {
            Some(t) => i32_parse_of(t),
            None => None,
        },
{
    match field_text(line, "!u!", false, 0) {
        Some(t) => parse_i32(t.as_str()),
        None => None,
    }
}

pub open spec fn reference_model(r: UnityReference) -> (Seq<char>, Option<i64>, Option<i32>) {
    (r.guid@, r.file_id, r.ref_type)
}

/// The reference a trimmed line makes, if any: a 32-digit hexadecimal GUID
/// after `guid:`, with the line's `fileID` and `type`.
pub open spec fn line_reference(t: Seq<char>) -> Option<(Seq<char>, Option<i64>, Option<i32>)> {
    if has_prefix(t, "#"@) || has_prefix(t, "%"@) {
        None
    } else {
        match field_digits(t, "guid:"@, true, 2) {
            Some(g) => if g.len() == 32 {
                Some(
                    (
                        g,
                        match field_digits(t, "fileID:"@, true, 1) {
                            Some(x) => i64_parse_of(x),
                            None => None,
                        },
                        match field_digits(t, "type:"@, true, 0) {
                            Some(x) => i32_parse_of(x),
                            None => None,
                        },
                    ),
                )
            } else {
                None
            },
            None => None,
        }
    }
}

/// `s` with `x` appended unless already present.
pub open spec fn add_once<A>(s: Seq<A>, x: A) -> Seq<A> {
    if s.contains(x) {
        s
    } else {
        s.push(x)
    }
}

/// The distinct references of the given lines, in first-seen order.
pub open spec fn references_of(ls: Seq<Seq<char>>) -> Seq<(Seq<char>, Option<i64>, Option<i32>)>
    decreases ls.len(),
{
    if ls.len() == 0 {
        seq![]
    } else {
        let prev = references_of(ls.drop_last());
        match line_reference(trim_of(ls.last())) {
            Some(r) => add_once(prev, r),
            None => prev,
        }
    }
}

fn same_reference(a: &UnityReference, b: &UnityReference) -> (r: bool)
    ensures
        r == (reference_model(*a) == reference_model(*b)),
{
    a.guid == b.guid && a.file_id == b.file_id && a.ref_type == b.ref_type
}

/// Every distinct GUID reference of a Unity YAML text, in first-seen order.
pub fn extract_references(content: &str) -> (r: Vec<UnityReference>)
    ensures
        r@.map_values(|x: UnityReference| reference_model(x)) == references_of(lines_of(content@)),
{
    let ls = lines(content);
    let ghost lm = ls@.map_values(|l: String| l@);
    let mut refs: Vec<UnityReference> = Vec::new();
    let mut i: usize = 0;
    assert(lm.subrange(0, 0) =~= seq![]);
    assert(refs@.map_values(|x: UnityReference| reference_model(x)) =~= seq![]);
    while i < ls.len()
        invariant
            0 <= i <= ls.len(),
            lm == ls@.map_values(|l: String| l@),
            lm == lines_of(content@),
            refs@.map_values(|x: UnityReference| reference_model(x)) == references_of(lm.subrange(0, i as int)),
        decreases ls.len() - i,
    {
        assert(lm.subrange(0, i + 1).drop_last() =~= lm.subrange(0, i as int));
        assert(lm[i as int] == ls@[i as int]@);
        let t = trim(ls[i].as_str());
        if !(starts_with(t, "#") || starts_with(t, "%")) {
            if let Some(g) = field_text(t, "guid:", true, 2) {
                if g.unicode_len() == 32 {
                    let candidate = UnityReference {
                        guid: g,
                        file_id: extract_file_id(t),
                        ref_type: extract_type(t),
                    };
                    let ghost model = refs@.map_values(|x: UnityReference| reference_model(x));
                    let mut k: usize = 0;
                    let mut seen = false;
                    while k < refs.len()
                        invariant
                            0 <= k <= refs.len(),
                            model == refs@.map_values(|x: UnityReference| reference_model(x)),
                            seen == exists|j: int| 0 <= j < k && model[j] == reference_model(candidate),
                        decreases refs.len() - k,
                    {
                        assert(model[k as int] == reference_model(refs@[k as int]));
                        if same_reference(&refs[k], &candidate) {
                            seen = true;
                        }
                        k = k + 1;
                    }
                    proof {
                        if model.contains(reference_model(candidate)) {
                            let j = choose|j: int| 0 <= j < model.len() && model[j] == reference_model(candidate);
                            assert(model[j] == reference_model(candidate));
                        }
                    }
                    if !seen {
                        refs.push(candidate);
                        assert(refs@.map_values(|x: UnityReference| reference_model(x)) =~= model.push(reference_model(candidate)));
                    }
                }
            }
        }
        i = i + 1;
    }
    assert(lm.subrange(0, i as int) =~= lm);
    refs
}

/// The component a trimmed line names, if any.
pub open spec fn line_component(t: Seq<char>) -> Option<Seq<char>> {
    if has_prefix(t, "---"@) && has_infix(t, "!u!"@) {
        match field_digits(t, "!u!"@, false, 0) {
            Some(x) => match i32_parse_of(x) {
                Some(id) => class_name_of(id),
                None => None,
            },
            None => None,
        }
    } else {
        None
    }
}

/// The distinct component types of the given lines, in first-seen order: a
/// `m_Script:` line with a GUID adds `MonoBehaviour`, and a document header
/// adds its built-in class.
pub open spec fn components_of(ls: Seq<Seq<char>>) -> Seq<Seq<char>>
    decreases ls.len(),
{
    if ls.len() == 0 {
        seq![]
    } else {
        let prev = components_of(ls.drop_last());
        let t = trim_of(ls.last());
        let a = if has_prefix(t, "m_Script:"@) && has_infix(t, "guid:"@) {
            add_once(prev, "MonoBehaviour"@)
        } else {
            prev
        };
        match line_component(t) {
            Some(n) => add_once(a, n),
            None => a,
        }
    }
}

fn add_name(v: &mut Vec<String>, name: &str)
    ensures
        final(v)@.map_values(|s: String| s@) == add_once(old(v)@.map_values(|s: String| s@), name@),
{
    let ghost model = v@.map_values(|s: String| s@);
    let mut k: usize = 0;
    while k < v.len()
        invariant
            0 <= k <= v.len(),
            model == v@.map_values(|s: String| s@),
            forall|j: int| 0 <= j < k ==> model[j] != name@,
        decreases v.len() - k,
    {
        if str_eq(v[k].as_str(), name) {
            assert(model[k as int] == name@);
            return;
        }
        k = k + 1;
    }
    v.push(String::from_str(name));
    assert(v@.map_values(|s: String| s@) =~= model.push(name@));
}

/// Every distinct component type of a prefab or scene text, in first-seen
/// order.
pub fn extract_components(content: &str) -> (r: Vec<String>)
    ensures
        r@.map_values(|s: String| s@) == components_of(lines_of(content@)),
{
    let ls = lines(content);
    let ghost lm = ls@.map_values(|l: String| l@);
    let mut names: Vec<String> = Vec::new();
    let mut i: usize = 0;
    assert(lm.subrange(0, 0) =~= seq![]);
    assert(names@.map_values(|s: String| s@) =~= seq![]);
    while i < ls.len()
        invariant
            0 <= i <= ls.len(),
            lm == ls@.map_values(|l: String| l@),
            lm == lines_of(content@),
            names@.map_values(|s: String| s@) == components_of(lm.subrange(0, i as int)),
        decreases ls.len() - i,
    {
        assert(lm.subrange(0, i + 1).drop_last() =~= lm.subrange(0, i as int));
        assert(lm[i as int] == ls@[i as int]@);
        let t = trim(ls[i].as_str());
        if starts_with(t, "m_Script:") && contains(t, "guid:") {
            add_name(&mut names, "MonoBehaviour");
        }
        if starts_with(t, "---") && contains(t, "!u!") {
            if let Some(id) = extract_unity_class_id(t) {
                if let Some(n) = unity_class_name(id) {
                    add_name(&mut names, n);
                }
            }
        }
        i = i + 1;
    }
    assert(lm.subrange(0, i as int) =~= lm);
    names
}

/// The GUID of the first trimmed line of the given lines that starts with
/// `guid:`, trimmed.
pub open spec fn meta_guid_of(ls: Seq<Seq<char>>) -> Option<Seq<char>>
    decreases ls.len(),
{
    if ls.len() == 0 {
        None
    } else {
        let t = trim_of(ls[0]);
        if has_prefix(t, "guid:"@) {
            Some(trim_of(t.subrange(5, t.len() as int)))
        } else {
            meta_guid_of(ls.drop_first())
        }
    }
}

/// The GUID that a `.meta` sidecar file declares.
pub fn guid_from_meta(content: &str) -> (r: Option<String>)
    ensures
        r.is_some() == meta_guid_of(lines_of(content@)).is_some(),
        r.is_some() ==> r.unwrap()@ == meta_guid_of(lines_of(content@)).unwrap(),
{
    let ls = lines(content);
    let ghost lm = ls@.map_values(|l: String| l@);
    let mut i: usize = 0;
    assert(lm.subrange(0, lm.len() as int) =~= lm);
    while i < ls.len()
        invariant
            0 <= i <= ls.len(),
            lm == ls@.map_values(|l: String| l@),
            lm == lines_of(content@),
            meta_guid_of(lm) == meta_guid_of(lm.subrange(i as int, lm.len() as int)),
        decreases ls.len() - i,
    {
        let ghost rest = lm.subrange(i as int, lm.len() as int);
        assert(rest.drop_first() =~= lm.subrange(i + 1, lm.len() as int));
        assert(rest[0] == ls@[i as int]@);
        let t = trim(ls[i].as_str());
        if starts_with(t, "guid:") {
            proof {
                reveal_strlit("guid:");
            }
            let n = t.unicode_len();
            let tail = slice(t, 5, n);
            return Some(String::from_str(trim(tail.as_str())));
        }
        i = i + 1;
    }
    None
}

/// The references and components of a Unity file at `path` with text
/// `content`; `None` for extensions that are not Unity YAML assets.
pub fn unity_file_info(path: &str, content: &str) -> (r: Option<UnityFileInfo>)
    ensures
        ({
            let kind = match extension_of(path@) {
                Some(e) => unity_kind_of(lower_of(e)),
                None => UnityFileType::Unknown,
            };
            &&& r.is_some() == (kind != UnityFileType::Unknown)
            &&& r.is_some() ==> {
                let info = r.unwrap();
                &&& info.path@ == path@
                &&& info.file_type == kind
                &&& info.references@.map_values(|x: UnityReference| reference_model(x)) == references_of(lines_of(content@))
                &&& info.components@.map_values(|s: String| s@) == if kind == UnityFileType::Prefab || kind == UnityFileType::Scene {
                    components_of(lines_of(content@))
                } else {
                    seq![]
                }
            }
        }),
{
    let file_type = match extension(path) {
        Some(e) => UnityFileType::from_extension(e.as_str()),
        None => UnityFileType::Unknown,
    };
    if file_type == UnityFileType::Unknown {
        return None;
    }
    let references = extract_references(content);
    let components = if file_type == UnityFileType::Prefab || file_type == UnityFileType::Scene {
        extract_components(content)
    } else {
        let e: Vec<String> = Vec::new();
        assert(e@.map_values(|s: String| s@) =~= seq![]);
        e
    };
    Some(UnityFileInfo { path: String::from_str(path), file_type, references, components })
}

/// The built-in class that a Unity class id stands for.
pub open spec fn class_name_of(id: i32) -> Option<Seq<char>> {
    if id == 1 {
        Some("GameObject"@)
    } else if id == 2 {
        Some("Component"@)
    } else if id == 3 {
        Some("LevelGameManager"@)
    } else if id == 4 {
        Some("Transform"@)
    } else if id == 20 {
        Some("Camera"@)
    } else if id == 21 {
        Some("Material"@)
    } else if id == 23 {
        Some("MeshRenderer"@)
    } else if id == 25 {
        Some("Renderer"@)
    } else if id == 28 {
        Some("Texture2D"@)
    } else if id == 33 {
        Some("MeshFilter"@)
    } else if id == 43 {
        Some("Mesh"@)
    } else if id == 48 {
        Some("Shader"@)
    } else if id == 54 {
        Some("Rigidbody"@)
    } else if id == 56 {
        Some("Collider"@)
    } else if id == 64 {
        Some("MeshCollider"@)
    } else if id == 65 {
        Some("BoxCollider"@)
    } else if id == 82 {
        Some("AudioSource"@)
    } else if id == 83 {
        Some("AudioClip"@)
    } else if id == 84 {
        Some("RenderTexture"@)
    } else if id == 91 {
        Some("AnimationClip"@)
    } else if id == 95 {
        Some("Animator"@)
    } else if id == 102 {
        Some("TextMesh"@)
    } else if id == 104 {
        Some("RenderSettings"@)
    } else if id == 108 {
        Some("Light"@)
    } else if id == 114 {
        Some("MonoBehaviour"@)
    } else if id == 115 {
        Some("MonoScript"@)
    } else if id == 120 {
        Some("LineRenderer"@)
    } else if id == 128 {
        Some("Font"@)
    } else if id == 137 {
        Some("PhysicMaterial"@)
    } else if id == 142 {
        Some("AssetBundle"@)
    } else if id == 150 {
        Some("PreloadData"@)
    } else if id == 156 {
        Some("Terrain"@)
    } else if id == 157 {
        Some("TerrainCollider"@)
    } else if id == 158 {
        Some("TerrainData"@)
    } else if id == 184 {
        Some("AudioBehaviour"@)
    } else if id == 195 {
        Some("NavMeshAgent"@)
    } else if id == 196 {
        Some("NavMeshSettings"@)
    } else if id == 212 {
        Some("SpriteRenderer"@)
    } else if id == 213 {
        Some("Sprite"@)
    } else if id == 221 {
        Some("AnimatorController"@)
    } else if id == 222 {
        Some("Canvas"@)
    } else if id == 223 {
        Some("CanvasGroup"@)
    } else if id == 224 {
        Some("RectTransform"@)
    } else if id == 225 {
        Some("CanvasRenderer"@)
    } else if id == 226 {
        Some("TextMeshPro"@)
    } else {
        None
    }
}

/// The name of a built-in Unity class id.
pub fn unity_class_name(class_id: i32) -> (r: Option<&'static str>)
    ensures
        r.is_some() == class_name_of(class_id).is_some(),
        r.is_some() ==> r.unwrap()@ == class_name_of(class_id).unwrap(),
{
    match class_id {
        1 => Some("GameObject"),
        2 => Some("Component"),
        3 => Some("LevelGameManager"),
        4 => Some("Transform"),
        20 => Some("Camera"),
        21 => Some("Material"),
        23 => Some("MeshRenderer"),
        25 => Some("Renderer"),
        28 => Some("Texture2D"),
        33 => Some("MeshFilter"),
        43 => Some("Mesh"),
        48 => Some("Shader"),
        54 => Some("Rigidbody"),
        56 => Some("Collider"),
        64 => Some("MeshCollider"),
        65 => Some("BoxCollider"),
        82 => Some("AudioSource"),
        83 => Some("AudioClip"),
        84 => Some("RenderTexture"),
        91 => Some("AnimationClip"),
        95 => Some("Animator"),
        102 => Some("TextMesh"),
        104 => Some("RenderSettings"),
        108 => Some("Light"),
        114 => Some("MonoBehaviour"),
        115 => Some("MonoScript"),
        120 => Some("LineRenderer"),
        128 => Some("Font"),
        137 => Some("PhysicMaterial"),
        142 => Some("AssetBundle"),
        150 => Some("PreloadData"),
        156 => Some("Terrain"),
        157 => Some("TerrainCollider"),
        158 => Some("TerrainData"),
        184 => Some("AudioBehaviour"),
        195 => Some("NavMeshAgent"),
        196 => Some("NavMeshSettings"),
        212 => Some("SpriteRenderer"),
        213 => Some("Sprite"),
        221 => Some("AnimatorController"),
        222 => Some("Canvas"),
        223 => Some("CanvasGroup"),
        224 => Some("RectTransform"),
        225 => Some("CanvasRenderer"),
        226 => Some("TextMeshPro"),
        _ => None,
    }
}

} // verus!
