//! Godot project files: the INI-like `project.godot` format and resource
//! kinds.

use vstd::prelude::*;
use vstd::string::*;
use crate::pathname::{extension, extension_of};
use crate::text::{
    trim,
    trim_of,
    to_lower,
    lower_of,
    str_eq,
    starts_with,
    ends_with,
    has_prefix,
    has_suffix,
    lines,
    lines_of,
    slice,
    contains_char,
    parse_i32,
    i32_parse_of,
    sort_strings,
    text_le,
};

verus! {

/// Project facts read from `project.godot`.
#[derive(Debug, Clone)]
pub struct GodotProjectInfo {
    pub path: String,
    pub project_name: String,
    pub godot_version: Option<String>,
    pub main_scene: Option<String>,
    pub icon: Option<String>,
    pub features: Vec<String>,
    pub autoloads: Vec<GodotAutoload>,
    pub input_actions: Vec<String>,
    pub renderer: Option<String>,
}

/// A script loaded at start-up.
#[derive(Debug, Clone)]
pub struct GodotAutoload {
    pub name: String,
    pub path: String,
    pub singleton: bool,
}

/// Godot resource kinds.
#[derive(Debug, Clone, Copy, PartialEq, Eq, Structural)]
pub enum GodotResourceType {
    Scene,
    Script,
    Texture,
    AudioStream,
    Material,
    Mesh,
    Animation,
    Font,
    Resource,
    Other,
}

/// `s` without one pair of matching outer quotes, if it has them.
pub open spec fn unquoted(t: Seq<char>) -> Seq<char> {
    if t.len() >= 2 && ((t[0] == '"' && t[t.len() - 1] == '"') || (t[0] == '\'' && t[t.len() - 1]
        == '\'')) {
        t.subrange(1, t.len() - 1)
    } else {
        t
    }
}

/// Trims `s` and strips one pair of matching outer quotes. A lone quote
/// character is left as it is.
pub fn unquote(s: &str) -> (r: String)
    ensures
        r@ == unquoted(trim_of(s@)),
{
    let t = trim(s);
    let n = t.unicode_len();
    if n >= 2 {
        let first = t.get_char(0);
        let last = t.get_char(n - 1);
        if (first == '"' && last == '"') || (first == '\'' && last == '\'') {
            return slice(t, 1, n - 1);
        }
    }
    String::from_str(t)
}

/// The pieces of `s` between commas.
pub open spec fn comma_split(s: Seq<char>) -> Seq<Seq<char>>
    decreases s.len(),
{
    if s.len() == 0 {
        seq![seq![]]
    } else {
        let prev = comma_split(s.drop_last());
        if s.last() == ',' {
            prev.push(seq![])
        } else {
            prev.update(prev.len() - 1, prev.last().push(s.last()))
        }
    }
}

proof fn lemma_comma_split_nonempty(s: Seq<char>)
    ensures
        comma_split(s).len() >= 1,
    decreases s.len(),
{
    if s.len() > 0 {
        lemma_comma_split_nonempty(s.drop_last());
    }
}

/// The unquoted, non-empty items of a list.
pub open spec fn array_items(pieces: Seq<Seq<char>>) -> Seq<Seq<char>>
    decreases pieces.len(),
{
    if pieces.len() == 0 {
        seq![]
    } else {
        let prev = array_items(pieces.drop_last());
        let item = unquoted(trim_of(trim_of(pieces.last())));
        if item.len() > 0 {
            prev.push(item)
        } else {
            prev
        }
    }
}

/// The inside of `PackedStringArray(...)` or `[...]`, if `t` is one.
pub open spec fn array_inner(t: Seq<char>) -> Option<Seq<char>> {
    if has_prefix(t, "PackedStringArray("@) && has_suffix(t, ")"@) && t.len() >= 19 {
        Some(t.subrange(18, t.len() - 1))
    } else if has_prefix(t, "["@) && has_suffix(t, "]"@) && t.len() >= 2 {
        Some(t.subrange(1, t.len() - 1))
    } else {
        None
    }
}

fn split_commas(s: &str) -> (r: Vec<String>)
    ensures
        r@.map_values(|p: String| p@) == comma_split(s@),
{
    let n = s.unicode_len();
    let mut pieces: Vec<String> = Vec::new();
    let mut start: usize = 0;
    let mut i: usize = 0;
    assert(s@.subrange(0, 0) =~= seq![]);
    while i < n
        invariant
            n == s@.len(),
            0 <= start <= i <= n,
            ({
                let cs = comma_split(s@.subrange(0, i as int));
                &&& pieces@.map_values(|p: String| p@) == cs.drop_last()
                &&& cs.last() == s@.subrange(start as int, i as int)
                &&& cs.len() >= 1
            }),
        decreases n - i,
    {
        let ghost prev = comma_split(s@.subrange(0, i as int));
        assert(s@.subrange(0, i + 1).drop_last() =~= s@.subrange(0, i as int));
        proof {
            lemma_comma_split_nonempty(s@.subrange(0, i as int));
        }
        if s.get_char(i) == ',' {
            let piece = slice(s, start, i);
            let ghost before = pieces@;
            pieces.push(piece);
            proof {
                let cs = comma_split(s@.subrange(0, i + 1));
                assert(cs == prev.push(seq![]));
                assert(pieces@.map_values(|p: String| p@) =~= before.map_values(|p: String| p@).push(piece@));
                assert(prev =~= prev.drop_last().push(prev.last()));
                assert(pieces@.map_values(|p: String| p@) =~= cs.drop_last());
                assert(s@.subrange(i + 1, i + 1) =~= seq![]);
            }
            start = i + 1;
        } else {
            proof {
                let cs = comma_split(s@.subrange(0, i + 1));
                assert(cs.drop_last() =~= prev.drop_last());
                assert(cs.last() =~= s@.subrange(start as int, i + 1));
            }
        }
        i = i + 1;
    }
    let last = slice(s, start, n);
    let ghost before = pieces@;
    pieces.push(last);
    proof {
        assert(s@.subrange(0, n as int) =~= s@);
        let cs = comma_split(s@);
        assert(pieces@.map_values(|p: String| p@) =~= before.map_values(|p: String| p@).push(last@));
        assert(cs =~= cs.drop_last().push(cs.last()));
        assert(pieces@.map_values(|p: String| p@) =~= cs);
    }
    pieces
}

/// Parses `PackedStringArray("a", "b")` or `["a", "b"]` into its unquoted,
/// non-empty items; anything else gives no items.
pub fn parse_godot_array(s: &str) -> (r: Vec<String>)
    ensures
        r@.map_values(|x: String| x@) == match array_inner(trim_of(s@)) {
            Some(inner) => array_items(comma_split(inner)),
            None => seq![],
        },
{
    let t = trim(s);
    let n = t.unicode_len();
    let inner = if starts_with(t, "PackedStringArray(") && ends_with(t, ")") && n >= 19 {
        slice(t, 18, n - 1)
    } else if starts_with(t, "[") && ends_with(t, "]") && n >= 2 {
        slice(t, 1, n - 1)
    } else {
        return Vec::new();
    };
    proof {
        reveal_strlit("PackedStringArray(");
        reveal_strlit(")");
        reveal_strlit("[");
        reveal_strlit("]");
    }
    let pieces = split_commas(inner.as_str());
    let ghost ps = pieces@.map_values(|p: String| p@);
    let mut result: Vec<String> = Vec::new();
    let mut i: usize = 0;
    while i < pieces.len()
        invariant
            0 <= i <= pieces.len(),
            ps == pieces@.map_values(|p: String| p@),
            result@.map_values(|x: String| x@) == array_items(ps.subrange(0, i as int)),
        decreases pieces.len() - i,
    {
        assert(ps.subrange(0, i + 1).drop_last() =~= ps.subrange(0, i as int));
        assert(ps[i as int] == pieces@[i as int]@);
        let item = trim(pieces[i].as_str());
        let item = unquote(item);
        if item.unicode_len() > 0 {
            let ghost before = result@;
            result.push(item);
            assert(result@.map_values(|x: String| x@) =~= before.map_values(|x: String| x@).push(item@));
        }
        i = i + 1;
    }
    assert(ps.subrange(0, i as int) =~= ps);
    result
}

/// The resource kind of a lower-case extension.
pub open spec fn godot_kind_of(e: Seq<char>) -> GodotResourceType {
    if e == "tscn"@ {
        GodotResourceType::Scene
    } else if e == "gd"@ || e == "gdscript"@ {
        GodotResourceType::Script
    } else if e == "tres"@ {
        GodotResourceType::Resource
    } else if e == "png"@ || e == "jpg"@ || e == "jpeg"@ || e == "webp"@ || e == "svg"@ {
        GodotResourceType::Texture
    } else if e == "ogg"@ || e == "wav"@ || e == "mp3"@ {
        GodotResourceType::AudioStream
    } else if e == "material"@ || e == "shader"@ {
        GodotResourceType::Material
    } else if e == "mesh"@ || e == "obj"@ || e == "gltf"@ || e == "glb"@ {
        GodotResourceType::Mesh
    } else if e == "anim"@ {
        GodotResourceType::Animation
    } else if e == "ttf"@ || e == "otf"@ || e == "woff"@ || e == "woff2"@ {
        GodotResourceType::Font
    } else {
        GodotResourceType::Other
    }
}

/// The resource kind of a lower-case extension.
pub fn godot_kind(e: &str) -> (r: GodotResourceType)
    ensures
        r == godot_kind_of(e@),
{
    if str_eq(e, "tscn") {
        GodotResourceType::Scene
    } else if str_eq(e, "gd") || str_eq(e, "gdscript") {
        GodotResourceType::Script
    } else if str_eq(e, "tres") {
        GodotResourceType::Resource
    } else if str_eq(e, "png") || str_eq(e, "jpg") || str_eq(e, "jpeg") || str_eq(e, "webp")
        || str_eq(e, "svg") {
        GodotResourceType::Texture
    } else if str_eq(e, "ogg") || str_eq(e, "wav") || str_eq(e, "mp3") {
        GodotResourceType::AudioStream
    } else if str_eq(e, "material") || str_eq(e, "shader") {
        GodotResourceType::Material
    } else if str_eq(e, "mesh") || str_eq(e, "obj") || str_eq(e, "gltf") || str_eq(e, "glb") {
        GodotResourceType::Mesh
    } else if str_eq(e, "anim") {
        GodotResourceType::Animation
    } else if str_eq(e, "ttf") || str_eq(e, "otf") || str_eq(e, "woff") || str_eq(e, "woff2") {
        GodotResourceType::Font
    } else {
        GodotResourceType::Other
    }
}

/// The resource kind of a file by its extension, ignoring case; `None`
/// without an extension.
pub fn get_godot_resource_type(path: &str) -> (r: Option<GodotResourceType>)
    ensures
        r == match extension_of(path@) {
            Some(e) => Some(godot_kind_of(lower_of(e))),
            None => None,
        },
{
    match extension(path) {
        Some(e) => {
            let lower = to_lower(e.as_str());
            Some(godot_kind(lower.as_str()))
        },
        None => None,
    }
}

/// One `key=value` line of a section.
#[derive(Debug, Clone)]
pub struct GodotEntry {
    pub key: String,
    pub value: String,
}

/// A `[section]` and its entries, in first-seen order of their keys.
#[derive(Debug, Clone)]
pub struct GodotSection {
    pub name: String,
    pub entries: Vec<GodotEntry>,
}

/// A parsed configuration: sections in first-seen order. Lines before any
/// header belong to the section named "".
#[derive(Debug, Clone)]
pub struct GodotConfig {
    pub sections: Vec<GodotSection>,
}

/// Entries as (key, value) character sequences.
pub type EntriesModel = Seq<(Seq<char>, Seq<char>)>;

/// Sections as (name, entries) pairs.
pub type SectionsModel = Seq<(Seq<char>, EntriesModel)>;

pub open spec fn entries_model(es: Seq<GodotEntry>) -> EntriesModel {
    es.map_values(|e: GodotEntry| (e.key@, e.value@))
}

pub open spec fn section_model(s: GodotSection) -> (Seq<char>, EntriesModel) {
    (s.name@, entries_model(s.entries@))
}

impl GodotConfig {
    /// The configuration as plain sequences.
    pub open spec fn model(&self) -> SectionsModel {
        self.sections@.map_values(|s: GodotSection| section_model(s))
    }
}

/// Position of the last entry with key `k`, or -1.
pub open spec fn key_pos(es: EntriesModel, k: Seq<char>) -> int
    decreases es.len(),
{
    if es.len() == 0 {
        -1
    } else if es.last().0 == k {
        es.len() - 1
    } else {
        key_pos(es.drop_last(), k)
    }
}

/// Position of the last section named `n`, or -1.
pub open spec fn section_pos(ss: SectionsModel, n: Seq<char>) -> int
    decreases ss.len(),
{
    if ss.len() == 0 {
        -1
    } else if ss.last().0 == n {
        ss.len() - 1
    } else {
        section_pos(ss.drop_last(), n)
    }
}

/// Sets key `k` to `v`, replacing its value or appending it.
pub open spec fn set_entry(es: EntriesModel, k: Seq<char>, v: Seq<char>) -> EntriesModel {
    let p = key_pos(es, k);
    if p >= 0 {
        es.update(p, (k, v))
    } else {
        es.push((k, v))
    }
}

/// Adds an empty section named `n` unless it exists.
pub open spec fn touch(ss: SectionsModel, n: Seq<char>) -> SectionsModel {
    if section_pos(ss, n) >= 0 {
        ss
    } else {
        ss.push((n, seq![]))
    }
}

/// Sets key `k` of section `n` (created if missing) to `v`.
pub open spec fn put(ss: SectionsModel, n: Seq<char>, k: Seq<char>, v: Seq<char>) -> SectionsModel {
    let t = touch(ss, n);
    let p = section_pos(t, n);
    t.update(p, (n, set_entry(t[p].1, k, v)))
}

/// Position of the first `=` in `t`, or -1.
pub open spec fn eq_pos(t: Seq<char>) -> int
    decreases t.len(),
{
    if t.len() == 0 {
        -1
    } else {
        let p = eq_pos(t.drop_last());
        if p >= 0 {
            p
        } else if t.last() == '=' {
            t.len() - 1
        } else {
            -1
        }
    }
}

/// The configuration and current section after one line.
pub open spec fn line_step(st: (SectionsModel, Seq<char>), line: Seq<char>) -> (SectionsModel, Seq<char>) {
    let t = trim_of(line);
    if t.len() == 0 || t[0] == ';' || t[0] == '#' {
        st
    } else if t[0] == '[' && t[t.len() - 1] == ']' && t.len() >= 2 {
        let n = t.subrange(1, t.len() - 1);
        (touch(st.0, n), n)
    } else if eq_pos(t) >= 0 {
        let p = eq_pos(t);
        (put(st.0, st.1, trim_of(t.subrange(0, p)), trim_of(t.subrange(p + 1, t.len() as int))), st.1)
    } else {
        st
    }
}

/// The configuration and current section after the given lines.
pub open spec fn parse_lines(ls: Seq<Seq<char>>) -> (SectionsModel, Seq<char>)
    decreases ls.len(),
{
    if ls.len() == 0 {
        (seq![], seq![])
    } else {
        line_step(parse_lines(ls.drop_last()), ls.last())
    }
}

proof fn lemma_key_pos(es: EntriesModel, k: Seq<char>)
    ensures
        -1 <= key_pos(es, k) < es.len(),
        key_pos(es, k) >= 0 ==> es[key_pos(es, k)].0 == k,
        key_pos(es, k) < 0 ==> forall|i: int| 0 <= i < es.len() ==> es[i].0 != k,
    decreases es.len(),
{
    if es.len() > 0 {
        lemma_key_pos(es.drop_last(), k);
        assert forall|i: int| 0 <= i < es.len() - 1 implies es[i] == es.drop_last()[i] by {}
    }
}

proof fn lemma_section_pos(ss: SectionsModel, n: Seq<char>)
    ensures
        -1 <= section_pos(ss, n) < ss.len(),
        section_pos(ss, n) >= 0 ==> ss[section_pos(ss, n)].0 == n,
        section_pos(ss, n) < 0 ==> forall|i: int| 0 <= i < ss.len() ==> ss[i].0 != n,
    decreases ss.len(),
{
    if ss.len() > 0 {
        lemma_section_pos(ss.drop_last(), n);
        assert forall|i: int| 0 <= i < ss.len() - 1 implies ss[i] == ss.drop_last()[i] by {}
    }
}

fn find_key(es: &Vec<GodotEntry>, k: &str) -> (r: Option<usize>)
    ensures
        r.is_some() == (key_pos(entries_model(es@), k@) >= 0),
        r.is_some() ==> r.unwrap() as int == key_pos(entries_model(es@), k@),
        r.is_some() ==> r.unwrap() < es@.len(),
{
    proof {
        lemma_key_pos(entries_model(es@), k@);
    }
    let ghost m = entries_model(es@);
    let mut i: usize = es.len();
    assert(m.subrange(0, i as int) =~= m);
    while i > 0
        invariant
            0 <= i <= es@.len(),
            m == entries_model(es@),
            key_pos(m, k@) == key_pos(m.subrange(0, i as int), k@),
        decreases i,
    {
        let ghost t = m.subrange(0, i as int);
        assert(t.drop_last() =~= m.subrange(0, i - 1));
        if str_eq(es[i - 1].key.as_str(), k) {
            assert(t.last() == m[i - 1]);
            return Some(i - 1);
        }
        i = i - 1;
    }
    None
}

fn find_section(ss: &Vec<GodotSection>, n: &str) -> (r: Option<usize>)
    ensures
        r.is_some() == (section_pos(ss@.map_values(|s: GodotSection| section_model(s)), n@) >= 0),
        r.is_some() ==> r.unwrap() as int == section_pos(ss@.map_values(|s: GodotSection| section_model(s)), n@),
        r.is_some() ==> r.unwrap() < ss@.len(),
{
    proof {
        lemma_section_pos(ss@.map_values(|s: GodotSection| section_model(s)), n@);
    }
    let ghost m = ss@.map_values(|s: GodotSection| section_model(s));
    let mut i: usize = ss.len();
    assert(m.subrange(0, i as int) =~= m);
    while i > 0
        invariant
            0 <= i <= ss@.len(),
            m == ss@.map_values(|s: GodotSection| section_model(s)),
            section_pos(m, n@) == section_pos(m.subrange(0, i as int), n@),
        decreases i,
    {
        let ghost t = m.subrange(0, i as int);
        assert(t.drop_last() =~= m.subrange(0, i - 1));
        if str_eq(ss[i - 1].name.as_str(), n) {
            assert(t.last() == m[i - 1]);
            return Some(i - 1);
        }
        i = i - 1;
    }
    None
}

impl GodotConfig {
    /// Adds an empty section named `n` unless it exists; returns its index.
    fn touch(&mut self, n: &str) -> (r: usize)
        ensures
            final(self).model() == touch(old(self).model(), n@),
            r as int == section_pos(final(self).model(), n@),
            r < final(self).sections@.len(),
    {
        match find_section(&self.sections, n) {
            Some(i) => i,
            None => {
                let ghost before = self.sections@;
                self.sections.push(GodotSection { name: String::from_str(n), entries: Vec::new() });
                proof {
                    let m = self.model();
                    assert(section_model(self.sections@.last()) == (n@, Seq::<(Seq<char>, Seq<char>)>::empty())) by {
                        assert(entries_model(self.sections@.last().entries@) =~= seq![]);
                    }
                    assert(m =~= before.map_values(|s: GodotSection| section_model(s)).push((n@, seq![])));
                    assert(m.drop_last() =~= before.map_values(|s: GodotSection| section_model(s)));
                }
                self.sections.len() - 1
            },
        }
    }

    /// Sets key `k` of section `n` to `v`, creating the section if missing.
    fn put(&mut self, n: &str, k: String, v: String)
        ensures
            final(self).model() == put(old(self).model(), n@, k@, v@),
    {
        let p = self.touch(n);
        let ghost t = self.model();
        let mut section = self.sections.remove(p);
        let ghost old_entries = entries_model(section.entries@);
        assert(old_entries == t[p as int].1);
        match find_key(&section.entries, k.as_str()) {
            Some(i) => {
                let ghost kv = k@;
                section.entries.set(i, GodotEntry { key: k, value: v });
                assert(entries_model(section.entries@) =~= set_entry(old_entries, kv, v@));
            },
            None => {
                let ghost kv = k@;
                section.entries.push(GodotEntry { key: k, value: v });
                assert(entries_model(section.entries@) =~= set_entry(old_entries, kv, v@));
            },
        }
        self.sections.insert(p, section);
        proof {
            lemma_section_pos(t, n@);
            assert(t[p as int].0 == n@);
            assert(self.model() =~= t.update(p as int, (n@, set_entry(t[p as int].1, k@, v@))));
        }
    }

    /// Whether a section named `name` exists.
    pub fn contains_key(&self, name: &str) -> (r: bool)
        ensures
            r == (section_pos(self.model(), name@) >= 0),
    {
        find_section(&self.sections, name).is_some()
    }

    /// The section named `name`.
    pub fn get(&self, name: &str) -> (r: Option<&GodotSection>)
        ensures
            r.is_some() == (section_pos(self.model(), name@) >= 0),
            r.is_some() ==> section_model(*r.unwrap()) == self.model()[section_pos(self.model(), name@)],
    {
        match find_section(&self.sections, name) {
            Some(i) => Some(&self.sections[i]),
            None => None,
        }
    }
}

impl GodotSection {
    /// The value of `key`.
    pub fn get(&self, key: &str) -> (r: Option<&String>)
        ensures
            r.is_some() == (key_pos(entries_model(self.entries@), key@) >= 0),
            r.is_some() ==> r.unwrap()@ == entries_model(self.entries@)[key_pos(entries_model(self.entries@), key@)].1,
    {
        match find_key(&self.entries, key) {
            Some(i) => Some(&self.entries[i].value),
            None => None,
        }
    }
}

fn first_eq(t: &str) -> (r: Option<usize>)
    ensures
        r.is_some() == (eq_pos(t@) >= 0),
        r.is_some() ==> r.unwrap() as int == eq_pos(t@) && r.unwrap() < t@.len(),
{
    let n = t.unicode_len();
    let mut i: usize = 0;
    assert(t@.subrange(0, 0) =~= seq![]);
    while i < n
        invariant
            n == t@.len(),
            0 <= i <= n,
            eq_pos(t@.subrange(0, i as int)) == -1,
        decreases n - i,
    {
        assert(t@.subrange(0, i + 1).drop_last() =~= t@.subrange(0, i as int));
        if t.get_char(i) == '=' {
            proof {
                lemma_eq_pos_prefix(t@, i as int + 1);
            }
            return Some(i);
        }
        i = i + 1;
    }
    assert(t@.subrange(0, n as int) =~= t@);
    None
}

proof fn lemma_eq_pos_prefix(t: Seq<char>, i: int)
    requires
        0 < i <= t.len(),
        eq_pos(t.subrange(0, i)) >= 0,
    ensures
        eq_pos(t) == eq_pos(t.subrange(0, i)),
    decreases t.len() - i,
{
    if i < t.len() {
        assert(t.subrange(0, i + 1).drop_last() =~= t.subrange(0, i));
        lemma_eq_pos_prefix(t, i + 1);
    } else {
        assert(t.subrange(0, i) =~= t);
    }
}

/// Parses the INI-like text of `project.godot`: `[section]` headers and
/// `key=value` lines; blank lines and lines starting with `;` or `#` are
/// skipped, and a later value of a key replaces an earlier one.
pub fn parse_godot_config(content: &str) -> (r: GodotConfig)
    ensures
        r.model() == parse_lines(lines_of(content@)).0,
{
    let ls = lines(content);
    let ghost lm = ls@.map_values(|l: String| l@);
    let mut config = GodotConfig { sections: Vec::new() };
    let mut current = String::new();
    let mut i: usize = 0;
    assert(config.model() =~= seq![]);
    assert(lm.subrange(0, 0) =~= seq![]);
    while i < ls.len()
        invariant
            0 <= i <= ls.len(),
            lm == ls@.map_values(|l: String| l@),
            lm == lines_of(content@),
            (config.model(), current@) == parse_lines(lm.subrange(0, i as int)),
        decreases ls.len() - i,
    {
        assert(lm.subrange(0, i + 1).drop_last() =~= lm.subrange(0, i as int));
        assert(lm[i as int] == ls@[i as int]@);
        let t = trim(ls[i].as_str());
        let n = t.unicode_len();
        if n == 0 || t.get_char(0) == ';' || t.get_char(0) == '#' {
        } else if t.get_char(0) == '[' && t.get_char(n - 1) == ']' && n >= 2 {
            let name = slice(t, 1, n - 1);
            config.touch(name.as_str());
            current = name;
        } else {
            match first_eq(t) {
                Some(p) => {
                    let left = slice(t, 0, p);
                    let right = slice(t, p + 1, n);
                    let key = String::from_str(trim(left.as_str()));
                    let value = String::from_str(trim(right.as_str()));
                    config.put(current.as_str(), key, value);
                },
                None => {},
            }
        }
        i = i + 1;
    }
    assert(lm.subrange(0, i as int) =~= lm);
    config
}

/// The value of `key` in section `sec`, if both exist.
pub open spec fn lookup(m: SectionsModel, sec: Seq<char>, key: Seq<char>) -> Option<Seq<char>> {
    let p = section_pos(m, sec);
    if p >= 0 && key_pos(m[p].1, key) >= 0 {
        Some(m[p].1[key_pos(m[p].1, key)].1)
    } else {
        None
    }
}

/// The entries of section `sec`, empty if it is missing.
pub open spec fn section_entries(m: SectionsModel, sec: Seq<char>) -> EntriesModel {
    let p = section_pos(m, sec);
    if p >= 0 {
        m[p].1
    } else {
        seq![]
    }
}

/// An autoload as (name, path, singleton): a value starting with `*` (after
/// unquoting) marks a singleton and the star is dropped.
pub open spec fn autoload_of(e: (Seq<char>, Seq<char>)) -> (Seq<char>, Seq<char>, bool) {
    let v = unquoted(trim_of(e.1));
    if v.len() > 0 && v[0] == '*' {
        (e.0, v.subrange(1, v.len() as int), true)
    } else {
        (e.0, v, false)
    }
}

pub open spec fn autoload_model(a: GodotAutoload) -> (Seq<char>, Seq<char>, bool) {
    (a.name@, a.path@, a.singleton)
}

/// The autoloads of the `autoload` section, in entry order.
pub fn extract_autoloads(config: &GodotConfig) -> (r: Vec<GodotAutoload>)
    ensures
        r@.map_values(|a: GodotAutoload| autoload_model(a)) == section_entries(
            config.model(),
            "autoload"@,
        ).map_values(|e: (Seq<char>, Seq<char>)| autoload_of(e)),
{
    let mut out: Vec<GodotAutoload> = Vec::new();
    match config.get("autoload") {
        None => {
            assert(out@.map_values(|a: GodotAutoload| autoload_model(a)) =~= seq![]);
        },
        Some(section) => {
            let ghost es = entries_model(section.entries@);
            let mut i: usize = 0;
            while i < section.entries.len()
                invariant
                    0 <= i <= section.entries.len(),
                    es == entries_model(section.entries@),
                    out@.map_values(|a: GodotAutoload| autoload_model(a)) == es.subrange(0, i as int).map_values(
                        |e: (Seq<char>, Seq<char>)| autoload_of(e),
                    ),
                decreases section.entries.len() - i,
            {
                let e = &section.entries[i];
                assert(es[i as int] == (e.key@, e.value@));
                let v = unquote(e.value.as_str());
                let n = v.unicode_len();
                let a = if n > 0 && v.as_str().get_char(0) == '*' {
                    GodotAutoload { name: e.key.clone(), path: slice(v.as_str(), 1, n), singleton: true }
                } else {
                    GodotAutoload { name: e.key.clone(), path: v, singleton: false }
                };
                let ghost before = out@;
                out.push(a);
                assert(out@.map_values(|a: GodotAutoload| autoload_model(a)) =~= es.subrange(0, i + 1).map_values(
                    |e: (Seq<char>, Seq<char>)| autoload_of(e),
                )) by {
                    assert(out@.map_values(|a: GodotAutoload| autoload_model(a)) =~= before.map_values(|a: GodotAutoload| autoload_model(a)).push(autoload_model(a)));
                    assert(es.subrange(0, i + 1) =~= es.subrange(0, i as int).push(es[i as int]));
                }
                i = i + 1;
            }
            assert(es.subrange(0, i as int) =~= es);
        },
    }
    out
}

/// The keys of `es` that contain no `/`, in entry order.
pub open spec fn plain_keys(es: EntriesModel) -> Seq<Seq<char>>
    decreases es.len(),
{
    if es.len() == 0 {
        seq![]
    } else if es.last().0.contains('/') {
        plain_keys(es.drop_last())
    } else {
        plain_keys(es.drop_last()).push(es.last().0)
    }
}

/// The input action names: keys of the `input` section without a `/`,
/// sorted.
pub fn extract_input_actions(config: &GodotConfig) -> (r: Vec<String>)
    ensures
        r@.map_values(|s: String| s@).to_multiset() == plain_keys(
            section_entries(config.model(), "input"@),
        ).to_multiset(),
        forall|a: int, b: int| 0 <= a < b < r@.len() ==> text_le(r@[a]@, r@[b]@),
{
    let mut actions: Vec<String> = Vec::new();
    match config.get("input") {
        None => {
            assert(actions@.map_values(|s: String| s@) =~= seq![]);
        },
        Some(section) => {
            let ghost es = entries_model(section.entries@);
            let mut i: usize = 0;
            while i < section.entries.len()
                invariant
                    0 <= i <= section.entries.len(),
                    es == entries_model(section.entries@),
                    actions@.map_values(|s: String| s@) == plain_keys(es.subrange(0, i as int)),
                decreases section.entries.len() - i,
            {
                let e = &section.entries[i];
                assert(es[i as int] == (e.key@, e.value@));
                assert(es.subrange(0, i + 1).drop_last() =~= es.subrange(0, i as int));
                if !contains_char(e.key.as_str(), '/') {
                    let ghost before = actions@;
                    actions.push(e.key.clone());
                    assert(actions@.map_values(|s: String| s@) =~= before.map_values(|s: String| s@).push(e.key@));
                }
                i = i + 1;
            }
            assert(es.subrange(0, i as int) =~= es);
        },
    }
    sort_strings(actions)
}

/// Whether a feature names a version: it starts with an ASCII digit and
/// holds a `.`.
pub open spec fn is_version_feature(f: Seq<char>) -> bool {
    f.len() > 0 && '0' <= f[0] <= '9' && f.contains('.')
}

/// The version that a `config_version` value stands for.
pub open spec fn version_of_config(v: Seq<char>) -> Option<Seq<char>> {
    let n = match i32_parse_of(v) {
        Some(x) => x as int,
        None => 0,
    };
    if n == 5 {
        Some("4.x"@)
    } else if n == 4 {
        Some("3.x"@)
    } else {
        None
    }
}

/// The inferred engine version: the first version-like feature; else the
/// `config_version` of section `gd_resource`; else that of the unnamed
/// section.
pub open spec fn inferred_version(m: SectionsModel, features: Seq<Seq<char>>) -> Option<Seq<char>> {
    if exists|i: int| 0 <= i < features.len() && is_version_feature(#[trigger] features[i]) {
        let i = choose|i: int|
            0 <= i < features.len() && is_version_feature(#[trigger] features[i]) && forall|j: int|
                0 <= j < i ==> !is_version_feature(#[trigger] features[j]);
        Some(features[i])
    } else if lookup(m, "gd_resource"@, "config_version"@).is_some() {
        version_of_config(lookup(m, "gd_resource"@, "config_version"@).unwrap())
    } else if lookup(m, ""@, "config_version"@).is_some() {
        version_of_config(lookup(m, ""@, "config_version"@).unwrap())
    } else {
        None
    }
}

fn lookup_value<'a>(config: &'a GodotConfig, sec: &str, key: &str) -> (r: Option<&'a String>)
    ensures
        r.is_some() == lookup(config.model(), sec@, key@).is_some(),
        r.is_some() ==> r.unwrap()@ == lookup(config.model(), sec@, key@).unwrap(),
{
    match config.get(sec) {
        Some(section) => section.get(key),
        None => None,
    }
}

fn version_from_config(v: &String) -> (r: Option<String>)
    ensures
        r.is_some() == version_of_config(v@).is_some(),
        r.is_some() ==> r.unwrap()@ == version_of_config(v@).unwrap(),
{
    let n: i32 = match parse_i32(v.as_str()) {
        Some(x) => x,
        None => 0,
    };
    if n == 5 {
        Some(String::from_str("4.x"))
    } else if n == 4 {
        Some(String::from_str("3.x"))
    } else {
        None
    }
}

/// Infers the engine version from the features or the configuration.
pub fn infer_godot_version(config: &GodotConfig, features: &Vec<String>) -> (r: Option<String>)
    ensures
        r.is_some() == inferred_version(config.model(), features@.map_values(|s: String| s@)).is_some(),
        r.is_some() ==> r.unwrap()@ == inferred_version(
            config.model(),
            features@.map_values(|s: String| s@),
        ).unwrap(),
{
    let ghost fs = features@.map_values(|s: String| s@);
    let mut i: usize = 0;
    while i < features.len()
        invariant
            0 <= i <= features.len(),
            fs == features@.map_values(|s: String| s@),
            forall|j: int| 0 <= j < i ==> !is_version_feature(#[trigger] fs[j]),
        decreases features.len() - i,
    {
        let f = features[i].as_str();
        assert(fs[i as int] == f@);
        let n = f.unicode_len();
        if n > 0 {
            let c = f.get_char(0);
            if '0' <= c && c <= '9' && contains_char(f, '.') {
                proof {
                    assert(is_version_feature(fs[i as int]));
                    let k = choose|k: int|
                        0 <= k < fs.len() && is_version_feature(#[trigger] fs[k]) && forall|j: int|
                            0 <= j < k ==> !is_version_feature(#[trigger] fs[j]);
                    assert(0 <= i < fs.len() && is_version_feature(fs[i as int]) && forall|j: int|
                        0 <= j < i ==> !is_version_feature(#[trigger] fs[j]));
                    if k < i {
                        assert(!is_version_feature(fs[k]));
                    }
                    if k > i {
                        assert(!is_version_feature(fs[i as int]));
                    }
                }
                return Some(features[i].clone());
            }
        }
        i = i + 1;
    }
    if let Some(v) = lookup_value(config, "gd_resource", "config_version") {
        return version_from_config(v);
    }
    if let Some(v) = lookup_value(config, "", "config_version") {
        return version_from_config(v);
    }
    None
}

/// The project facts of a `project.godot` file at `path` with text `content`.
pub fn godot_project_info(path: &str, content: &str) -> (r: GodotProjectInfo)
    ensures
        r.path@ == path@,
        ({
            let m = parse_lines(lines_of(content@)).0;
            &&& r.project_name@ == match lookup(m, "application"@, "config/name"@) {
                Some(v) => unquoted(trim_of(v)),
                None => "Unknown"@,
            }
            &&& r.main_scene.is_some() == lookup(m, "application"@, "run/main_scene"@).is_some()
            &&& r.main_scene.is_some() ==> r.main_scene.unwrap()@ == unquoted(
                trim_of(lookup(m, "application"@, "run/main_scene"@).unwrap()),
            )
            &&& r.icon.is_some() == lookup(m, "application"@, "config/icon"@).is_some()
            &&& r.icon.is_some() ==> r.icon.unwrap()@ == unquoted(
                trim_of(lookup(m, "application"@, "config/icon"@).unwrap()),
            )
            &&& r.features@.map_values(|s: String| s@) == match lookup(
                m,
                "application"@,
                "config/features"@,
            ) {
                Some(v) => match array_inner(trim_of(v)) {
                    Some(inner) => array_items(comma_split(inner)),
                    None => seq![],
                },
                None => seq![],
            }
            &&& r.godot_version.is_some() == inferred_version(m, r.features@.map_values(|s: String| s@)).is_some()
            &&& r.godot_version.is_some() ==> r.godot_version.unwrap()@ == inferred_version(
                m,
                r.features@.map_values(|s: String| s@),
            ).unwrap()
            &&& r.autoloads@.map_values(|a: GodotAutoload| autoload_model(a)) == section_entries(
                m,
                "autoload"@,
            ).map_values(|e: (Seq<char>, Seq<char>)| autoload_of(e))
            &&& r.renderer.is_some() == (lookup(m, "rendering"@, "renderer/rendering_method"@).is_some()
                || lookup(m, "rendering"@, "quality/driver/driver_name"@).is_some())
        }),
{
    let config = parse_godot_config(content);
    let project_name = match lookup_value(&config, "application", "config/name") {
        Some(v) => unquote(v.as_str()),
        None => String::from_str("Unknown"),
    };
    let main_scene = match lookup_value(&config, "application", "run/main_scene") {
        Some(v) => Some(unquote(v.as_str())),
        None => None,
    };
    let icon = match lookup_value(&config, "application", "config/icon") {
        Some(v) => Some(unquote(v.as_str())),
        None => None,
    };
    let features = match lookup_value(&config, "application", "config/features") {
        Some(v) => parse_godot_array(v.as_str()),
        None => {
            let e: Vec<String> = Vec::new();
            assert(e@.map_values(|s: String| s@) =~= seq![]);
            e
        },
    };
    let godot_version = infer_godot_version(&config, &features);
    let autoloads = extract_autoloads(&config);
    let input_actions = extract_input_actions(&config);
    let renderer = match lookup_value(&config, "rendering", "renderer/rendering_method") {
        Some(v) => Some(unquote(v.as_str())),
        None => match lookup_value(&config, "rendering", "quality/driver/driver_name") {
            Some(v) => Some(unquote(v.as_str())),
            None => None,
        },
    };
    GodotProjectInfo {
        path: String::from_str(path),
        project_name,
        godot_version,
        main_scene,
        icon,
        features,
        autoloads,
        input_actions,
        renderer,
    }
}

} // verus!
