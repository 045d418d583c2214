//! Project-wide views of a scan: the Unity dependency graph, unreferenced
//! Unity assets, and size statistics.

use vstd::prelude::*;
use vstd::string::*;
use crate::asset::{AssetInfo, AssetType};
use crate::scan::{ScanResult, type_key};
use crate::text::{to_lower, lower_of, str_eq};
use crate::unity::UnityFileInfo;

verus! {

/// An asset that carries a Unity GUID.
#[derive(Debug, Clone)]
pub struct DependencyNode {
    pub path: String,
    pub name: String,
    pub guid: Option<String>,
    pub file_type: String,
}

/// A reference from one asset to another, by GUID.
#[derive(Debug, Clone)]
pub struct DependencyEdge {
    pub from_guid: String,
    pub to_guid: String,
}

/// Which assets reference which.
#[derive(Debug, Clone)]
pub struct DependencyGraph {
    pub nodes: Vec<DependencyNode>,
    pub edges: Vec<DependencyEdge>,
}

/// Whether assets with this lower-case extension are read for references:
/// prefabs, scenes and materials, and animator controllers when
/// `with_controllers`.
pub open spec fn reads_references(e: Seq<char>, with_controllers: bool) -> bool {
    e == "prefab"@ || e == "unity"@ || e == "mat"@ || (with_controllers && e == "controller"@)
}

/// Whether the file of an asset with extension `extension` is parsed for
/// its references.
pub fn wants_references(extension: &str, with_controllers: bool) -> (r: bool)
    ensures
        r == reads_references(lower_of(extension@), with_controllers),
{
    let lower = to_lower(extension);
    let e = lower.as_str();
    str_eq(e, "prefab") || str_eq(e, "unity") || str_eq(e, "mat") || (with_controllers && str_eq(
        e,
        "controller",
    ))
}

/// Whether some asset carries GUID `g`.
pub open spec fn known_guid(assets: Seq<AssetInfo>, g: Seq<char>) -> bool {
    exists|i: int| 0 <= i < assets.len() && (#[trigger] assets[i]).unity_guid.is_some() && assets[i].unity_guid.unwrap()@ == g
}

fn has_guid(assets: &Vec<AssetInfo>, g: &String) -> (r: bool)
    ensures
        r == known_guid(assets@, g@),
{
    let mut i: usize = 0;
    while i < assets.len()
        invariant
            0 <= i <= assets.len(),
            forall|j: int| 0 <= j < i ==> !((#[trigger] assets@[j]).unity_guid.is_some() && assets@[j].unity_guid.unwrap()@ == g@),
        decreases assets.len() - i,
    {
        match &assets[i].unity_guid {
            Some(x) => {
                if *x == *g {
                    return true;
                }
            },
            None => {},
        }
        i = i + 1;
    }
    false
}

pub open spec fn node_model(n: DependencyNode) -> (Seq<char>, Seq<char>, Option<Seq<char>>, Seq<char>) {
    (n.path@, n.name@, match n.guid { Some(g) => Some(g@), None => None }, n.file_type@)
}

/// The name of an asset type, as `type_key` gives it.
pub open spec fn asset_type_label(t: AssetType) -> Seq<char> {
    match t {
        AssetType::Texture => "texture"@,
        AssetType::Model => "model"@,
        AssetType::Audio => "audio"@,
        AssetType::Animation => "animation"@,
        AssetType::Material => "material"@,
        AssetType::Prefab => "prefab"@,
        AssetType::Scene => "scene"@,
        AssetType::Script => "script"@,
        AssetType::Data => "data"@,
        AssetType::Other => "other"@,
    }
}

/// One node per asset that carries a GUID, in asset order.
pub open spec fn graph_nodes(s: Seq<AssetInfo>) -> Seq<(Seq<char>, Seq<char>, Option<Seq<char>>, Seq<char>)>
    decreases s.len(),
{
    if s.len() == 0 {
        seq![]
    } else {
        let prev = graph_nodes(s.drop_last());
        let a = s.last();
        match a.unity_guid {
            Some(g) => prev.push((a.path@, a.name@, Some(g@), asset_type_label(a.asset_type))),
            None => prev,
        }
    }
}

/// The edges from `from` to each reference of `refs` whose GUID is known.
pub open spec fn reference_edges(assets: Seq<AssetInfo>, from: Seq<char>, refs: Seq<crate::unity::UnityReference>) -> Seq<(Seq<char>, Seq<char>)>
    decreases refs.len(),
{
    if refs.len() == 0 {
        seq![]
    } else {
        let prev = reference_edges(assets, from, refs.drop_last());
        if known_guid(assets, refs.last().guid@) {
            prev.push((from, refs.last().guid@))
        } else {
            prev
        }
    }
}

/// The edges of the first `n` assets, in asset then reference order: only
/// prefabs, scenes and materials that carry a GUID and were parsed count.
pub open spec fn graph_edges(assets: Seq<AssetInfo>, infos: Seq<Option<UnityFileInfo>>, n: int) -> Seq<(Seq<char>, Seq<char>)>
    decreases n,
{
    if n <= 0 {
        seq![]
    } else {
        let prev = graph_edges(assets, infos, n - 1);
        let a = assets[n - 1];
        if reads_references(lower_of(a.extension@), false) && infos[n - 1].is_some() && a.unity_guid.is_some() {
            prev + reference_edges(assets, a.unity_guid.unwrap()@, infos[n - 1].unwrap().references@)
        } else {
            prev
        }
    }
}

pub open spec fn edge_model(e: DependencyEdge) -> (Seq<char>, Seq<char>) {
    (e.from_guid@, e.to_guid@)
}

/// Builds the dependency graph of a Unity project. `infos[i]` is the parsed
/// file of asset `i`, where it was read.
pub fn dependency_graph(assets: &Vec<AssetInfo>, infos: &Vec<Option<UnityFileInfo>>) -> (r: DependencyGraph)
    requires
        infos@.len() == assets@.len(),
    ensures
        r.nodes@.map_values(|n: DependencyNode| node_model(n)) == graph_nodes(assets@),
        r.edges@.map_values(|e: DependencyEdge| edge_model(e)) == graph_edges(assets@, infos@, assets@.len() as int),
{
    let mut nodes: Vec<DependencyNode> = Vec::new();
    let mut i: usize = 0;
    assert(nodes@.map_values(|n: DependencyNode| node_model(n)) =~= graph_nodes(assets@.subrange(0, 0)));
    while i < assets.len()
        invariant
            0 <= i <= assets.len(),
            nodes@.map_values(|n: DependencyNode| node_model(n)) == graph_nodes(assets@.subrange(0, i as int)),
        decreases assets.len() - i,
    {
        assert(assets@.subrange(0, i + 1).drop_last() =~= assets@.subrange(0, i as int));
        let a = &assets[i];
        match &a.unity_guid {
            Some(g) => {
                let ghost before = nodes@;
                let node = DependencyNode {
                    path: a.path.clone(),
                    name: a.name.clone(),
                    guid: Some(g.clone()),
                    file_type: String::from_str(type_key(a.asset_type)),
                };
                nodes.push(node);
                assert(nodes@.map_values(|n: DependencyNode| node_model(n)) =~= before.map_values(|n: DependencyNode| node_model(n)).push(node_model(node)));
            },
            None => {},
        }
        i = i + 1;
    }
    assert(assets@.subrange(0, i as int) =~= assets@);
    let mut edges: Vec<DependencyEdge> = Vec::new();
    let mut i: usize = 0;
    assert(edges@.map_values(|e: DependencyEdge| edge_model(e)) =~= seq![]);
    while i < assets.len()
        invariant
            0 <= i <= assets.len(),
            infos@.len() == assets@.len(),
            edges@.map_values(|e: DependencyEdge| edge_model(e)) == graph_edges(assets@, infos@, i as int),
        decreases assets.len() - i,
    {
        let a = &assets[i];
        let ghost start = edges@.map_values(|e: DependencyEdge| edge_model(e));
        if wants_references(a.extension.as_str(), false) {
            match (&infos[i], &a.unity_guid) {
                (Some(info), Some(from)) => {
                    let mut k: usize = 0;
                    assert(start + reference_edges(assets@, from@, info.references@.subrange(0, 0)) =~= start);
                    while k < info.references.len()
                        invariant
                            0 <= k <= info.references.len(),
                            edges@.map_values(|e: DependencyEdge| edge_model(e)) == start + reference_edges(
                                assets@,
                                from@,
                                info.references@.subrange(0, k as int),
                            ),
                        decreases info.references.len() - k,
                    {
                        assert(info.references@.subrange(0, k + 1).drop_last() =~= info.references@.subrange(0, k as int));
                        let to = &info.references[k].guid;
                        if has_guid(assets, to) {
                            let ghost before = edges@;
                            let edge = DependencyEdge { from_guid: from.clone(), to_guid: to.clone() };
                            edges.push(edge);
                            assert(edges@.map_values(|e: DependencyEdge| edge_model(e)) =~= before.map_values(|e: DependencyEdge| edge_model(e)).push(edge_model(edge)));
                        }
                        k = k + 1;
                    }
                    assert(info.references@.subrange(0, k as int) =~= info.references@);
                },
                _ => {},
            }
        }
        i = i + 1;
    }
    DependencyGraph { nodes, edges }
}

/// Whether some parsed file among those read for references (controllers
/// included) refers to GUID `g`.
pub open spec fn referenced(assets: Seq<AssetInfo>, infos: Seq<Option<UnityFileInfo>>, g: Seq<char>) -> bool {
    exists|i: int, k: int|
        0 <= i < assets.len() && reads_references(lower_of(assets[i].extension@), true)
            && infos[i].is_some() && 0 <= k < infos[i].unwrap().references@.len()
            && #[trigger] infos[i].unwrap().references@[k].guid@ == g
}

fn is_referenced(assets: &Vec<AssetInfo>, infos: &Vec<Option<UnityFileInfo>>, g: &String) -> (r: bool)
    requires
        infos@.len() == assets@.len(),
    ensures
        r == referenced(assets@, infos@, g@),
{
    let mut i: usize = 0;
    while i < assets.len()
        invariant
            0 <= i <= assets.len(),
            infos@.len() == assets@.len(),
            forall|j: int, k: int|
                0 <= j < i && reads_references(lower_of(assets@[j].extension@), true)
                    && infos@[j].is_some() && 0 <= k < infos@[j].unwrap().references@.len()
                    ==> #[trigger] infos@[j].unwrap().references@[k].guid@ != g@,
        decreases assets.len() - i,
    {
        if wants_references(assets[i].extension.as_str(), true) {
            match &infos[i] {
                Some(info) => {
                    let mut k: usize = 0;
                    while k < info.references.len()
                        invariant
                            0 <= k <= info.references.len(),
                            i < assets@.len(),
                            infos@.len() == assets@.len(),
                            reads_references(lower_of(assets@[i as int].extension@), true),
                            infos@[i as int] == Some(*info),
                            forall|q: int| 0 <= q < k ==> #[trigger] info.references@[q].guid@ != g@,
                        decreases info.references.len() - k,
                    {
                        if info.references[k].guid == *g {
                            assert(infos@[i as int].unwrap().references@[k as int].guid@ == g@);
                            assert(0 <= i < assets@.len() && reads_references(lower_of(assets@[i as int].extension@), true)
                                && infos@[i as int].is_some() && 0 <= k < infos@[i as int].unwrap().references@.len());
                            return true;
                        }
                        k = k + 1;
                    }
                },
                None => {},
            }
        }
        i = i + 1;
    }
    false
}

/// Whether a later asset carries the same GUID as asset `i`.
pub open spec fn shadowed(assets: Seq<AssetInfo>, i: int) -> bool {
    exists|j: int|
        i < j < assets.len() && (#[trigger] assets[j]).unity_guid.is_some()
            && assets[j].unity_guid.unwrap()@ == assets[i].unity_guid.unwrap()@
}

/// Paths, among the first `n` assets, of those that carry a GUID (the last
/// asset with that GUID) which no parsed file references.
pub open spec fn unused_list(assets: Seq<AssetInfo>, infos: Seq<Option<UnityFileInfo>>, n: int) -> Seq<String>
    decreases n,
{
    if n <= 0 {
        seq![]
    } else {
        let prev = unused_list(assets, infos, n - 1);
        let a = assets[n - 1];
        if a.unity_guid.is_some() && !shadowed(assets, n - 1) && !referenced(assets, infos, a.unity_guid.unwrap()@) {
            prev.push(a.path)
        } else {
            prev
        }
    }
}

/// Paths of the assets whose GUID no parsed Unity file references, in asset
/// order; of several assets sharing a GUID only the last counts.
pub fn find_unused_assets(assets: &Vec<AssetInfo>, infos: &Vec<Option<UnityFileInfo>>) -> (r: Vec<String>)
    requires
        infos@.len() == assets@.len(),
    ensures
        r@ == unused_list(assets@, infos@, assets@.len() as int),
{
    let mut out: Vec<String> = Vec::new();
    let mut i: usize = 0;
    while i < assets.len()
        invariant
            0 <= i <= assets.len(),
            infos@.len() == assets@.len(),
            out@ == unused_list(assets@, infos@, i as int),
        decreases assets.len() - i,
    {
        match &assets[i].unity_guid {
            Some(g) => {
                let mut later = false;
                let mut j: usize = i + 1;
                while j < assets.len()
                    invariant
                        i < j <= assets.len(),
                        assets@[i as int].unity_guid == Some(*g),
                        later == exists|q: int|
                            i < q < j && (#[trigger] assets@[q]).unity_guid.is_some()
                                && assets@[q].unity_guid.unwrap()@ == g@,
                    decreases assets.len() - j,
                {
                    match &assets[j].unity_guid {
                        Some(h) => {
                            if *h == *g {
                                later = true;
                            }
                        },
                        None => {},
                    }
                    j = j + 1;
                }
                if !later && !is_referenced(assets, infos, g) {
                    out.push(assets[i].path.clone());
                }
            },
            None => {},
        }
        i = i + 1;
    }
    out
}

/// The size bucket of a file.
pub open spec fn bucket_of(size: u64) -> Seq<char> {
    if size < 1024 {
        "< 1 KB"@
    } else if size < 10240 {
        "1-10 KB"@
    } else if size < 102400 {
        "10-100 KB"@
    } else if size < 1048576 {
        "100 KB - 1 MB"@
    } else if size < 10485760 {
        "1-10 MB"@
    } else {
        "> 10 MB"@
    }
}

/// The size bucket of a file: under 1 KB, 1-10 KB, 10-100 KB, 100 KB - 1 MB,
/// 1-10 MB, or over 10 MB.
pub fn size_bucket(size: u64) -> (r: &'static str)
    ensures
        r@ == bucket_of(size),
{
    if size < 1024 {
        "< 1 KB"
    } else if size < 10 * 1024 {
        "1-10 KB"
    } else if size < 100 * 1024 {
        "10-100 KB"
    } else if size < 1024 * 1024 {
        "100 KB - 1 MB"
    } else if size < 10 * 1024 * 1024 {
        "1-10 MB"
    } else {
        "> 10 MB"
    }
}

/// A count under a name.
#[derive(Debug, Clone)]
pub struct NamedCount {
    pub key: String,
    pub count: usize,
}

/// A total size under a name.
#[derive(Debug, Clone)]
pub struct NamedSize {
    pub key: String,
    pub size: u64,
}

/// One file in a listing.
#[derive(Debug, Clone)]
pub struct FileInfo {
    pub name: String,
    pub path: String,
    pub size: u64,
    pub asset_type: String,
}

/// Summary statistics of a scan.
#[derive(Debug, Clone)]
pub struct ProjectStats {
    pub total_assets: usize,
    pub total_size: u64,
    pub type_distribution: Vec<NamedCount>,
    pub size_distribution: Vec<NamedCount>,
    pub extension_distribution: Vec<NamedCount>,
    pub largest_files: Vec<FileInfo>,
    pub directory_sizes: Vec<NamedSize>,
}

pub open spec fn count_model(c: NamedCount) -> (Seq<char>, usize) {
    (c.key@, c.count)
}

pub open spec fn size_model(c: NamedSize) -> (Seq<char>, u64) {
    (c.key@, c.size)
}

/// Position of the last pair with key `k`, or -1.
pub open spec fn pair_pos<V>(m: Seq<(Seq<char>, V)>, k: Seq<char>) -> int
    decreases m.len(),
{
    if m.len() == 0 {
        -1
    } else if m.last().0 == k {
        m.len() - 1
    } else {
        pair_pos(m.drop_last(), k)
    }
}

proof fn lemma_pair_pos<V>(m: Seq<(Seq<char>, V)>, k: Seq<char>)
    ensures
        -1 <= pair_pos(m, k) < m.len(),
        pair_pos(m, k) >= 0 ==> m[pair_pos(m, k)].0 == k,
    decreases m.len(),
{
    if m.len() > 0 {
        lemma_pair_pos(m.drop_last(), k);
    }
}

/// `m` with one more under `k` (saturating), or `k` appended with 1.
pub open spec fn tallied(m: Seq<(Seq<char>, usize)>, k: Seq<char>) -> Seq<(Seq<char>, usize)> {
    let p = pair_pos(m, k);
    if p >= 0 {
        m.update(p, (k, if m[p].1 == usize::MAX { m[p].1 } else { (m[p].1 + 1) as usize }))
    } else {
        m.push((k, 1usize))
    }
}

/// `m` with `n` more under `k` (saturating), or `k` appended with `n`.
pub open spec fn summed(m: Seq<(Seq<char>, u64)>, k: Seq<char>, n: u64) -> Seq<(Seq<char>, u64)> {
    let p = pair_pos(m, k);
    if p >= 0 {
        m.update(p, (k, if m[p].1 + n > u64::MAX { u64::MAX } else { (m[p].1 + n) as u64 }))
    } else {
        m.push((k, n))
    }
}

fn bump(counts: &mut Vec<NamedCount>, key: &str)
    ensures
        final(counts)@.map_values(|c: NamedCount| count_model(c)) == tallied(
            old(counts)@.map_values(|c: NamedCount| count_model(c)),
            key@,
        ),
{
    let ghost m = counts@.map_values(|c: NamedCount| count_model(c));
    proof {
        lemma_pair_pos(m, key@);
    }
    let mut i: usize = counts.len();
    assert(m.subrange(0, i as int) =~= m);
    while i > 0
        invariant
            0 <= i <= counts@.len(),
            counts@ == old(counts)@,
            m == counts@.map_values(|c: NamedCount| count_model(c)),
            pair_pos(m, key@) == pair_pos(m.subrange(0, i as int), key@),
        decreases i,
    {
        let ghost t = m.subrange(0, i as int);
        assert(t.drop_last() =~= m.subrange(0, i - 1));
        if str_eq(counts[i - 1].key.as_str(), key) {
            assert(t.last() == m[i - 1]);
            let c = counts[i - 1].count;
            let k = counts[i - 1].key.clone();
            let entry = NamedCount { key: k, count: c.saturating_add(1) };
            counts.set(i - 1, entry);
            assert(counts@.map_values(|c: NamedCount| count_model(c)) =~= m.update(i - 1, count_model(entry)));
            return;
        }
        i = i - 1;
    }
    let entry = NamedCount { key: String::from_str(key), count: 1 };
    counts.push(entry);
    assert(counts@.map_values(|c: NamedCount| count_model(c)) =~= m.push(count_model(entry)));
}

fn add_size(sizes: &mut Vec<NamedSize>, key: &str, size: u64)
    ensures
        final(sizes)@.map_values(|c: NamedSize| size_model(c)) == summed(
            old(sizes)@.map_values(|c: NamedSize| size_model(c)),
            key@,
            size,
        ),
{
    let ghost m = sizes@.map_values(|c: NamedSize| size_model(c));
    proof {
        lemma_pair_pos(m, key@);
    }
    let mut i: usize = sizes.len();
    assert(m.subrange(0, i as int) =~= m);
    while i > 0
        invariant
            0 <= i <= sizes@.len(),
            sizes@ == old(sizes)@,
            m == sizes@.map_values(|c: NamedSize| size_model(c)),
            pair_pos(m, key@) == pair_pos(m.subrange(0, i as int), key@),
        decreases i,
    {
        let ghost t = m.subrange(0, i as int);
        assert(t.drop_last() =~= m.subrange(0, i - 1));
        if str_eq(sizes[i - 1].key.as_str(), key) {
            assert(t.last() == m[i - 1]);
            let c = sizes[i - 1].size;
            let k = sizes[i - 1].key.clone();
            let entry = NamedSize { key: k, size: c.saturating_add(size) };
            sizes.set(i - 1, entry);
            assert(sizes@.map_values(|c: NamedSize| size_model(c)) =~= m.update(i - 1, size_model(entry)));
            return;
        }
        i = i - 1;
    }
    let entry = NamedSize { key: String::from_str(key), size };
    sizes.push(entry);
    assert(sizes@.map_values(|c: NamedSize| size_model(c)) =~= m.push(size_model(entry)));
}

/// Counts of the first `n` assets by type name.
pub open spec fn type_tallies(s: Seq<AssetInfo>, n: int) -> Seq<(Seq<char>, usize)>
    decreases n,
{
    if n <= 0 {
        seq![]
    } else {
        tallied(type_tallies(s, n - 1), asset_type_label(s[n - 1].asset_type))
    }
}

/// Counts of the first `n` assets by extension.
pub open spec fn extension_tallies(s: Seq<AssetInfo>, n: int) -> Seq<(Seq<char>, usize)>
    decreases n,
{
    if n <= 0 {
        seq![]
    } else {
        tallied(extension_tallies(s, n - 1), s[n - 1].extension@)
    }
}

/// Counts of the first `n` assets by size bucket.
pub open spec fn bucket_tallies(s: Seq<AssetInfo>, n: int) -> Seq<(Seq<char>, usize)>
    decreases n,
{
    if n <= 0 {
        seq![]
    } else {
        tallied(bucket_tallies(s, n - 1), bucket_of(s[n - 1].size))
    }
}

/// Total sizes of the first `n` assets by parent directory.
pub open spec fn directory_totals(s: Seq<AssetInfo>, parents: Seq<Option<String>>, n: int) -> Seq<(Seq<char>, u64)>
    decreases n,
{
    if n <= 0 {
        seq![]
    } else {
        let prev = directory_totals(s, parents, n - 1);
        match parents[n - 1] {
            Some(p) => summed(prev, p@, s[n - 1].size),
            None => prev,
        }
    }
}

/// Whether asset `j` precedes asset `i` when assets are ordered by size,
/// largest first, and equal sizes keep asset order.
pub open spec fn size_precedes(s: Seq<AssetInfo>, j: int, i: int) -> bool {
    s[j].size > s[i].size || (s[j].size == s[i].size && j < i)
}

/// Whether `f` describes asset `a`.
pub open spec fn describes(f: FileInfo, a: AssetInfo) -> bool {
    &&& f.name == a.name
    &&& f.path == a.path
    &&& f.size == a.size
    &&& f.asset_type@ == asset_type_label(a.asset_type)
}

/// Whether `idx` lists the first `idx.len()` assets of `s` in size order:
/// the listed ones are in that order and precede every asset not listed.
pub open spec fn leading_in_size_order(s: Seq<AssetInfo>, idx: Seq<int>) -> bool {
    &&& forall|k: int| 0 <= k < idx.len() ==> 0 <= #[trigger] idx[k] < s.len()
    &&& forall|a: int, b: int| 0 <= a < b < idx.len() ==> size_precedes(s, idx[a], idx[b])
    &&& forall|j: int, k: int|
        0 <= j < s.len() && !idx.contains(j) && 0 <= k < idx.len() ==> #[trigger] size_precedes(s, idx[k], j)
}

proof fn lemma_precedes_trans(s: Seq<AssetInfo>, a: int, b: int, c: int)
    requires
        size_precedes(s, a, b),
        size_precedes(s, b, c),
    ensures
        size_precedes(s, a, c),
{
}

/// The `n` largest assets, largest first; assets of equal size keep their
/// order.
pub fn largest_files(assets: &Vec<AssetInfo>, n: usize) -> (r: Vec<FileInfo>)
    ensures
        r@.len() == if assets@.len() < n { assets@.len() as int } else { n as int },
        exists|idx: Seq<int>|
            idx.len() == r@.len() && leading_in_size_order(assets@, idx) && forall|k: int|
                0 <= k < r@.len() ==> describes(#[trigger] r@[k], assets@[idx[k]]),
{
    let ghost s = assets@;
    let mut top: Vec<FileInfo> = Vec::new();
    let ghost mut idx: Seq<int> = seq![];
    let mut i: usize = 0;
    while i < assets.len()
        invariant
            s == assets@,
            0 <= i <= assets.len(),
            top@.len() == if i < n { i as int } else { n as int },
            idx.len() == top@.len(),
            forall|k: int| 0 <= k < idx.len() ==> 0 <= #[trigger] idx[k] < i,
            forall|a: int, b: int| 0 <= a < b < idx.len() ==> size_precedes(s, idx[a], idx[b]),
            forall|j: int, k: int|
                0 <= j < i && !idx.contains(j) && 0 <= k < idx.len() ==> #[trigger] size_precedes(s, idx[k], j),
            forall|k: int| 0 <= k < top@.len() ==> describes(#[trigger] top@[k], s[idx[k]]),
            i < n ==> forall|j: int| 0 <= j < i ==> idx.contains(j),
        decreases assets.len() - i,
    {
        let a = &assets[i];
        let mut pos: usize = top.len();
        while pos > 0 && top[pos - 1].size < a.size
            invariant
                0 <= pos <= top@.len(),
                forall|q: int| pos <= q < top@.len() ==> top@[q].size < a.size,
            decreases pos,
        {
            pos = pos - 1;
        }
        proof {
            assert forall|q: int| 0 <= q < pos implies size_precedes(s, idx[q], i as int) by {
                assert(describes(top@[pos - 1], s[idx[pos - 1]]));
                assert(top@[pos - 1].size >= a.size);
                if q < pos - 1 {
                    assert(size_precedes(s, idx[q], idx[pos - 1]));
                }
            }
            assert forall|q: int| pos <= q < idx.len() implies size_precedes(s, i as int, idx[q]) by {
                assert(describes(top@[q], s[idx[q]]));
            }
        }
        if pos < n {
            let ghost before = top@;
            let ghost old_idx = idx;
            let info = FileInfo {
                name: a.name.clone(),
                path: a.path.clone(),
                size: a.size,
                asset_type: String::from_str(type_key(a.asset_type)),
            };
            top.insert(pos, info);
            proof {
                idx = old_idx.insert(pos as int, i as int);
            }
            let ghost full_idx = idx;
            if top.len() > n {
                top.pop();
                proof {
                    idx = idx.drop_last();
                }
            }
            proof {
                assert forall|k: int| 0 <= k < idx.len() implies 0 <= #[trigger] idx[k] < i + 1 by {
                    assert(idx[k] == full_idx[k]);
                    if k < pos {
                        assert(full_idx[k] == old_idx[k]);
                    } else if k > pos {
                        assert(full_idx[k] == old_idx[k - 1]);
                    }
                }
                assert forall|x: int, y: int| 0 <= x < y < full_idx.len() implies size_precedes(s, full_idx[x], full_idx[y]) by {
                    if y < pos {
                        assert(full_idx[x] == old_idx[x] && full_idx[y] == old_idx[y]);
                    } else if y == pos {
                        assert(full_idx[x] == old_idx[x]);
                    } else if x < pos {
                        assert(full_idx[x] == old_idx[x] && full_idx[y] == old_idx[y - 1]);
                        lemma_precedes_trans(s, old_idx[x], i as int, old_idx[y - 1]);
                    } else if x == pos {
                        assert(full_idx[y] == old_idx[y - 1]);
                    } else {
                        assert(full_idx[x] == old_idx[x - 1] && full_idx[y] == old_idx[y - 1]);
                    }
                }
                assert forall|x: int, y: int| 0 <= x < y < idx.len() implies size_precedes(s, idx[x], idx[y]) by {
                    assert(idx[x] == full_idx[x] && idx[y] == full_idx[y]);
                }
                if i + 1 < n {
                    assert(idx == full_idx);
                    assert forall|j: int| 0 <= j < i + 1 implies idx.contains(j) by {
                        if j == i {
                            assert(idx[pos as int] == i);
                        } else {
                            assert(i < n);
                            assert(old_idx.contains(j));
                            let m = choose|m: int| 0 <= m < old_idx.len() && old_idx[m] == j;
                            let fm = if m < pos { m } else { m + 1 };
                            assert(idx[fm] == j);
                        }
                    }
                }
                assert forall|k: int| 0 <= k < top@.len() implies describes(#[trigger] top@[k], s[idx[k]]) by {
                    assert(idx[k] == full_idx[k]);
                    if k < pos {
                        assert(top@[k] == before[k] && full_idx[k] == old_idx[k]);
                    } else if k > pos {
                        assert(top@[k] == before[k - 1] && full_idx[k] == old_idx[k - 1]);
                    }
                }
                assert forall|j: int, k: int|
                    0 <= j < i + 1 && !idx.contains(j) && 0 <= k < idx.len() implies #[trigger] size_precedes(s, idx[k], j) by {
                    assert(idx[k] == full_idx[k]);
                    if j == i {
                        assert(full_idx[pos as int] == i);
                        assert(idx.contains(i as int)) by {
                            assert(pos < idx.len());
                            assert(idx[pos as int] == i);
                        }
                    } else if old_idx.contains(j) {
                        // j was listed and has been dropped: it was the last of the full list
                        let m = choose|m: int| 0 <= m < old_idx.len() && old_idx[m] == j;
                        let fm = if m < pos { m } else { m + 1 };
                        assert(full_idx[fm] == j);
                        if fm < idx.len() {
                            assert(idx[fm] == j);
                        }
                        assert(fm == full_idx.len() - 1);
                        assert(k < fm);
                    } else {
                        assert(i >= n);
                        assert(old_idx.len() == n);
                        assert(size_precedes(s, old_idx[pos as int], j));
                        assert(size_precedes(s, i as int, old_idx[pos as int]));
                        if k < pos {
                            assert(full_idx[k] == old_idx[k]);
                        } else if k == pos {
                            lemma_precedes_trans(s, i as int, old_idx[pos as int], j);
                        } else {
                            assert(full_idx[k] == old_idx[k - 1]);
                        }
                    }
                }
            }
        } else {
            proof {
                assert(pos == top@.len());
                assert forall|j: int, k: int|
                    0 <= j < i + 1 && !idx.contains(j) && 0 <= k < idx.len() implies #[trigger] size_precedes(s, idx[k], j) by {
                    if j == i {
                        assert(size_precedes(s, idx[k], i as int));
                    }
                }
            }
        }
        i = i + 1;
    }
    proof {
        assert(leading_in_size_order(s, idx));
    }
    top
}

/// Summary statistics of a scan: counts by type, size bucket and extension,
/// the ten largest files, and total sizes by parent directory (`parents[i]`
/// is the parent directory of asset `i`, where it has one).
pub fn get_project_stats(scan: &ScanResult, parents: &Vec<Option<String>>) -> (r: ProjectStats)
    requires
        parents@.len() == scan.assets@.len(),
    ensures
        r.type_distribution@.map_values(|c: NamedCount| count_model(c)) == type_tallies(scan.assets@, scan.assets@.len() as int),
        r.extension_distribution@.map_values(|c: NamedCount| count_model(c)) == extension_tallies(scan.assets@, scan.assets@.len() as int),
        r.size_distribution@.map_values(|c: NamedCount| count_model(c)) == bucket_tallies(scan.assets@, scan.assets@.len() as int),
        r.directory_sizes@.map_values(|c: NamedSize| size_model(c)) == directory_totals(scan.assets@, parents@, scan.assets@.len() as int),
        r.total_assets == scan.total_count,
        r.total_size == scan.total_size,
        r.largest_files@.len() == if scan.assets@.len() < 10 { scan.assets@.len() as int } else { 10 },
        exists|idx: Seq<int>|
            idx.len() == r.largest_files@.len() && leading_in_size_order(scan.assets@, idx) && forall|k: int|
                0 <= k < r.largest_files@.len() ==> describes(#[trigger] r.largest_files@[k], scan.assets@[idx[k]]),
{
    let mut types: Vec<NamedCount> = Vec::new();
    let mut buckets: Vec<NamedCount> = Vec::new();
    let mut extensions: Vec<NamedCount> = Vec::new();
    let mut dirs: Vec<NamedSize> = Vec::new();
    let mut i: usize = 0;
    assert(types@.map_values(|c: NamedCount| count_model(c)) =~= seq![]);
    assert(buckets@.map_values(|c: NamedCount| count_model(c)) =~= seq![]);
    assert(extensions@.map_values(|c: NamedCount| count_model(c)) =~= seq![]);
    assert(dirs@.map_values(|c: NamedSize| size_model(c)) =~= seq![]);
    while i < scan.assets.len()
        invariant
            0 <= i <= scan.assets.len(),
            parents@.len() == scan.assets@.len(),
            types@.map_values(|c: NamedCount| count_model(c)) == type_tallies(scan.assets@, i as int),
            extensions@.map_values(|c: NamedCount| count_model(c)) == extension_tallies(scan.assets@, i as int),
            buckets@.map_values(|c: NamedCount| count_model(c)) == bucket_tallies(scan.assets@, i as int),
            dirs@.map_values(|c: NamedSize| size_model(c)) == directory_totals(scan.assets@, parents@, i as int),
        decreases scan.assets.len() - i,
    {
        let a = &scan.assets[i];
        bump(&mut types, type_key(a.asset_type));
        bump(&mut extensions, a.extension.as_str());
        bump(&mut buckets, size_bucket(a.size));
        match &parents[i] {
            Some(p) => add_size(&mut dirs, p.as_str(), a.size),
            None => {},
        }
        i = i + 1;
    }
    ProjectStats {
        total_assets: scan.total_count,
        total_size: scan.total_size,
        type_distribution: types,
        size_distribution: buckets,
        extension_distribution: extensions,
        largest_files: largest_files(&scan.assets, 10),
        directory_sizes: dirs,
    }
}

} // verus!
