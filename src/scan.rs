//! Scan results, scan phases and progress, and the decisions of the scan
//! orchestrator.

use vstd::prelude::*;
use vstd::string::*;
use vstd::seq_lib::to_multiset_insert;
use crate::asset::{AssetInfo, AssetType};
use crate::cache::{ScanCache, entry_in, stale};
use crate::pathname::{same_path, paths_equal};
use crate::text::{
    char_vec,
    chars_le,
    lemma_text_le_total,
    lemma_text_le_trans,
    lower_of,
    text_le,
    to_lower,
    starts_with,
    has_prefix,
};

verus! {

/// Why a scan did not produce a result.
#[derive(Debug, Clone, PartialEq, Eq)]
pub enum ScanError {
    PathNotFound(String),
    InvalidPath(String),
    Cancelled,
}

/// A directory and the totals of its whole subtree.
#[derive(Debug)]
pub struct DirectoryNode {
    pub name: String,
    pub path: String,
    pub children: Vec<DirectoryNode>,
    pub file_count: usize,
    pub total_size: u64,
}

/// How many assets of one type a scan found.
#[derive(Debug, Clone, Copy, PartialEq, Eq, Structural)]
pub struct TypeCount {
    pub asset_type: AssetType,
    pub count: usize,
}

/// The engine that owns a project tree.
#[derive(Debug, Clone, Copy, PartialEq, Eq, Structural)]
pub enum ProjectType {
    Unity,
    Unreal,
    Godot,
    Generic,
}

/// Which engine owns a tree, from its marker files: a `ProjectSettings`
/// directory, or an `Assets` directory holding `Editor.meta`, means Unity; a
/// `.uproject` file at the root means Unreal; `project.godot` means Godot.
pub fn project_type_from_markers(
    has_project_settings: bool,
    has_assets_editor_meta: bool,
    has_uproject: bool,
    has_project_godot: bool,
) -> (r: ProjectType)
    ensures
        r == if has_project_settings || has_assets_editor_meta {
            ProjectType::Unity
        } else if has_uproject {
            ProjectType::Unreal
        } else if has_project_godot {
            ProjectType::Godot
        } else {
            ProjectType::Generic
        },
{
    if has_project_settings || has_assets_editor_meta {
        ProjectType::Unity
    } else if has_uproject {
        ProjectType::Unreal
    } else if has_project_godot {
        ProjectType::Godot
    } else {
        ProjectType::Generic
    }
}

/// The outcome of one scan.
#[derive(Debug)]
pub struct ScanResult {
    pub root_path: String,
    pub directory_tree: DirectoryNode,
    pub assets: Vec<AssetInfo>,
    pub total_count: usize,
    pub total_size: u64,
    pub type_counts: Vec<TypeCount>,
    pub project_type: Option<ProjectType>,
}

/// The phase a scan is in.
#[derive(Debug, Clone, Copy, PartialEq, Eq, Structural)]
pub enum ScanPhase {
    Discovering,
    Parsing,
    Building,
    Completed,
    Cancelled,
}

/// A snapshot of scan progress for observers.
#[derive(Debug, Clone)]
pub struct ScanProgress {
    pub phase: ScanPhase,
    pub current: usize,
    pub total: Option<usize>,
    pub current_file: String,
}

/// The phase that follows `p` at a checkpoint: `Discovering`, `Parsing`,
/// `Building`, `Completed` in turn, unless cancellation has been observed,
/// which ends any unfinished scan as `Cancelled`.
pub open spec fn phase_after(p: ScanPhase, cancelled: bool) -> ScanPhase {
    match p {
        ScanPhase::Completed => ScanPhase::Completed,
        ScanPhase::Cancelled => ScanPhase::Cancelled,
        _ => if cancelled {
            ScanPhase::Cancelled
        } else {
            match p {
                ScanPhase::Discovering => ScanPhase::Parsing,
                ScanPhase::Parsing => ScanPhase::Building,
                _ => ScanPhase::Completed,
            }
        },
    }
}

/// Whether the step from `from` to `to` persists the cache: only finishing
/// the build does.
pub open spec fn writes_cache(from: ScanPhase, to: ScanPhase) -> bool {
    from == ScanPhase::Building && to == ScanPhase::Completed
}

/// Advances the scan state machine at a checkpoint.
pub fn next_phase(p: ScanPhase, cancelled: bool) -> (r: ScanPhase)
    ensures
        r == phase_after(p, cancelled),
{
    match p {
        ScanPhase::Completed => ScanPhase::Completed,
        ScanPhase::Cancelled => ScanPhase::Cancelled,
        ScanPhase::Discovering => if cancelled { ScanPhase::Cancelled } else { ScanPhase::Parsing },
        ScanPhase::Parsing => if cancelled { ScanPhase::Cancelled } else { ScanPhase::Building },
        ScanPhase::Building => if cancelled { ScanPhase::Cancelled } else { ScanPhase::Completed },
    }
}

/// The phase after the checkpoints whose cancellation flags are `flags`,
/// starting from `p`.
pub open spec fn phase_run(p: ScanPhase, flags: Seq<bool>) -> ScanPhase
    decreases flags.len(),
{
    if flags.len() == 0 {
        p
    } else {
        phase_after(phase_run(p, flags.drop_last()), flags.last())
    }
}

/// Whether some checkpoint among `flags`, starting from `p`, persists the
/// cache.
pub open spec fn run_writes_cache(p: ScanPhase, flags: Seq<bool>) -> bool
    decreases flags.len(),
{
    if flags.len() == 0 {
        false
    } else {
        run_writes_cache(p, flags.drop_last()) || writes_cache(
            phase_run(p, flags.drop_last()),
            phase_after(phase_run(p, flags.drop_last()), flags.last()),
        )
    }
}

proof fn lemma_cancel_sticks(p: ScanPhase, flags: Seq<bool>, k: int)
    requires
        0 <= k < flags.len(),
        flags[k],
        phase_run(p, flags.subrange(0, k)) != ScanPhase::Completed,
    ensures
        phase_run(p, flags) == ScanPhase::Cancelled,
        forall|j: int| k < j <= flags.len() ==> phase_run(p, flags.subrange(0, j)) == ScanPhase::Cancelled,
    decreases flags.len(),
{
    if flags.len() == k + 1 {
        assert(flags.drop_last() =~= flags.subrange(0, k));
        assert(flags.subrange(0, k + 1) =~= flags);
    } else {
        let d = flags.drop_last();
        assert(d.subrange(0, k) =~= flags.subrange(0, k));
        lemma_cancel_sticks(p, d, k);
        assert forall|j: int| k < j <= flags.len() implies phase_run(p, flags.subrange(0, j)) == ScanPhase::Cancelled by {
            if j < flags.len() {
                assert(flags.subrange(0, j) =~= d.subrange(0, j));
            } else {
                assert(flags.subrange(0, j) =~= flags);
                assert(flags.drop_last() =~= d.subrange(0, d.len() as int));
            }
        }
    }
}

proof fn lemma_no_write_before_completion(p: ScanPhase, flags: Seq<bool>)
    requires
        p != ScanPhase::Completed,
        phase_run(p, flags) != ScanPhase::Completed,
    ensures
        !run_writes_cache(p, flags),
    decreases flags.len(),
{
    if flags.len() > 0 {
        let d = flags.drop_last();
        if phase_run(p, d) == ScanPhase::Completed {
            assert(phase_run(p, flags) == ScanPhase::Completed);
        }
        lemma_no_write_before_completion(p, d);
    }
}

/// A scan in which cancellation is observed at some checkpoint before it
/// completes ends `Cancelled` and never persists the cache.
pub proof fn law_cancelled_scan_writes_no_cache(p: ScanPhase, flags: Seq<bool>, k: int)
    requires
        p != ScanPhase::Completed,
        0 <= k < flags.len(),
        flags[k],
        phase_run(p, flags.subrange(0, k)) != ScanPhase::Completed,
    ensures
        phase_run(p, flags) == ScanPhase::Cancelled,
        !run_writes_cache(p, flags),
{
    lemma_cancel_sticks(p, flags, k);
    lemma_no_write_before_completion(p, flags);
}

/// Checks the scan root: a missing path is `PathNotFound`, a path that is not
/// a directory is `InvalidPath`.
pub fn check_root(path: &str, exists: bool, is_dir: bool) -> (r: Result<(), ScanError>)
    ensures
        !exists ==> (r matches Err(ScanError::PathNotFound(p)) && p@ == path@),
        exists && !is_dir ==> (r matches Err(ScanError::InvalidPath(m)) && m@ == path@
            + " is not a directory"@),
        exists && is_dir ==> r is Ok,
{
    if !exists {
        return Err(ScanError::PathNotFound(String::from_str(path)));
    }
    if !is_dir {
        let mut m = String::from_str(path);
        m.append(" is not a directory");
        return Err(ScanError::InvalidPath(m));
    }
    Ok(())
}

/// The number of items between two updates of the displayed file name.
pub const PROGRESS_FILE_INTERVAL: usize = 100;

/// Whether the item with 1-based position `current` updates the displayed
/// file name; the numeric counter is updated for every item.
pub fn publishes_file_name(current: usize) -> (r: bool)
    ensures
        r == (current % 100 == 0),
{
    current % PROGRESS_FILE_INTERVAL == 0
}

/// Statistics of an incremental scan.
#[derive(Debug, Clone, Copy, PartialEq, Eq, Structural)]
pub struct IncrementalStats {
    pub total_files: usize,
    pub cached_files: usize,
    pub rescanned_files: usize,
}

/// A file found by discovery, with its fingerprint.
#[derive(Debug, Clone)]
pub struct DiscoveredFile {
    pub path: String,
    pub modified: u64,
    pub size: u64,
}

/// What an incremental scan must parse, and its statistics.
#[derive(Debug, Clone)]
pub struct IncrementalPlan {
    /// Indices of the discovered files to parse, in increasing order.
    pub to_parse: Vec<usize>,
    pub stats: IncrementalStats,
}

/// Whether discovered file `i` must be parsed against cache `c`.
pub open spec fn must_parse(c: ScanCache, files: Seq<DiscoveredFile>, i: int) -> bool {
    stale(c, files[i].path@, files[i].modified, files[i].size)
}

/// Whether `tp` lists, in increasing order, exactly the indices of the files
/// that must be parsed against `c`.
pub open spec fn plan_selects_stale(c: ScanCache, files: Seq<DiscoveredFile>, tp: Seq<usize>) -> bool {
    &&& forall|k: int|
        0 <= k < tp.len() ==> #[trigger] tp[k] < files.len() && must_parse(c, files, tp[k] as int)
    &&& forall|a: int, b: int| 0 <= a < b < tp.len() ==> tp[a] < tp[b]
    &&& forall|i: int|
        0 <= i < files.len() && must_parse(c, files, i) ==> exists|k: int|
            0 <= k < tp.len() && #[trigger] tp[k] == i
}

/// Prunes the cache to the discovered files and selects the files whose
/// fingerprint changed; the others are served from the cache.
pub fn plan_incremental(cache: &mut ScanCache, files: &Vec<DiscoveredFile>) -> (r: IncrementalPlan)
    requires
        old(cache).wf(),
    ensures
        final(cache).wf(),
        final(cache).version == old(cache).version,
        final(cache).project_path == old(cache).project_path,
        forall|p: Seq<char>| #[trigger]
            entry_in(final(cache).entries@, p) == if files@.map_values(
                |f: DiscoveredFile| f.path@,
            ).contains(p) {
                entry_in(old(cache).entries@, p)
            } else {
                None
            },
        plan_selects_stale(*final(cache), files@, r.to_parse@),
        r.stats.total_files == files@.len(),
        r.stats.rescanned_files == r.to_parse@.len(),
        r.stats.total_files == r.stats.cached_files + r.stats.rescanned_files,
{
    let mut paths: Vec<String> = Vec::new();
    let mut i: usize = 0;
    while i < files.len()
        invariant
            0 <= i <= files.len(),
            paths@.len() == i,
            forall|k: int| 0 <= k < i ==> (#[trigger] paths@[k])@ == files@[k].path@,
        decreases files.len() - i,
    {
        paths.push(files[i].path.clone());
        i = i + 1;
    }
    assert(paths@.map_values(|s: String| s@) =~= files@.map_values(|f: DiscoveredFile| f.path@));
    cache.prune(&paths);
    let mut to_parse: Vec<usize> = Vec::new();
    let mut i: usize = 0;
    while i < files.len()
        invariant
            0 <= i <= files.len(),
            cache.wf(),
            to_parse@.len() <= i,
            forall|k: int|
                0 <= k < to_parse@.len() ==> #[trigger] to_parse@[k] < i && must_parse(
                    *cache,
                    files@,
                    to_parse@[k] as int,
                ),
            forall|a: int, b: int| 0 <= a < b < to_parse@.len() ==> to_parse@[a] < to_parse@[b],
            forall|j: int|
                0 <= j < i && must_parse(*cache, files@, j) ==> exists|k: int|
                    0 <= k < to_parse@.len() && #[trigger] to_parse@[k] == j,
        decreases files.len() - i,
    {
        let f = &files[i];
        if cache.needs_rescan(f.path.as_str(), f.modified, f.size) {
            let ghost before = to_parse@;
            to_parse.push(i);
            proof {
                assert(to_parse@[to_parse@.len() - 1] == i);
                assert forall|j: int|
                    0 <= j < i + 1 && must_parse(*cache, files@, j) implies exists|k: int|
                    0 <= k < to_parse@.len() && #[trigger] to_parse@[k] == j by {
                    if j < i {
                        let k = choose|k: int| 0 <= k < before.len() && #[trigger] before[k] == j;
                        assert(to_parse@[k] == before[k]);
                    }
                }
            }
        }
        i = i + 1;
    }
    assert(plan_selects_stale(*cache, files@, to_parse@));
    let total = files.len();
    let rescanned = to_parse.len();
    IncrementalPlan {
        to_parse,
        stats: IncrementalStats {
            total_files: total,
            cached_files: total - rescanned,
            rescanned_files: rescanned,
        },
    }
}

/// Whether `s` is ordered by lower-cased path.
pub open spec fn sorted_by_path(s: Seq<AssetInfo>) -> bool {
    forall|a: int, b: int|
        0 <= a < b < s.len() ==> text_le(lower_of(s[a].path@), lower_of(s[b].path@))
}

/// Orders assets by path, ignoring case; assets with equal keys keep their
/// relative order.
pub fn sort_assets(assets: Vec<AssetInfo>) -> (r: Vec<AssetInfo>)
    ensures
        r@.to_multiset() == assets@.to_multiset(),
        sorted_by_path(r@),
{
    broadcast use to_multiset_insert;
    broadcast use vstd::seq_lib::group_to_multiset_ensures;

    let mut out: Vec<AssetInfo> = Vec::new();
    let mut keys: Vec<Vec<char>> = Vec::new();
    let mut i: usize = 0;
    assert(out@ =~= assets@.subrange(0, 0));
    while i < assets.len()
        invariant
            0 <= i <= assets.len(),
            out@.len() == keys@.len(),
            out@.to_multiset() == assets@.subrange(0, i as int).to_multiset(),
            forall|k: int| 0 <= k < keys@.len() ==> (#[trigger] keys@[k])@ == lower_of(out@[k].path@),
            sorted_by_path(out@),
        decreases assets.len() - i,
    {
        let a = assets[i].copy();
        let lowered = to_lower(a.path.as_str());
        let key = char_vec(lowered.as_str());
        let mut lo: usize = 0;
        let mut hi: usize = keys.len();
        while lo < hi
            invariant
                0 <= lo <= hi <= keys@.len(),
                out@.len() == keys@.len(),
                forall|k: int| 0 <= k < keys@.len() ==> (#[trigger] keys@[k])@ == lower_of(out@[k].path@),
                sorted_by_path(out@),
                forall|k: int| 0 <= k < lo ==> text_le((#[trigger] keys@[k])@, key@),
                forall|k: int| hi <= k < keys@.len() ==> !text_le((#[trigger] keys@[k])@, key@),
            decreases hi - lo,
        {
            let mid = lo + (hi - lo) / 2;
            if chars_le(&keys[mid], &key) {
                proof {
                    assert forall|k: int| 0 <= k < mid + 1 implies text_le((#[trigger] keys@[k])@, key@) by {
                        if k < mid {
                            assert(text_le(lower_of(out@[k].path@), lower_of(out@[mid as int].path@)));
                            lemma_text_le_trans(keys@[k]@, keys@[mid as int]@, key@);
                        }
                    }
                }
                lo = mid + 1;
            } else {
                proof {
                    assert forall|k: int| mid <= k < keys@.len() implies !text_le((#[trigger] keys@[k])@, key@) by {
                        if k > mid {
                            assert(text_le(lower_of(out@[mid as int].path@), lower_of(out@[k].path@)));
                            if text_le(keys@[k]@, key@) {
                                lemma_text_le_trans(keys@[mid as int]@, keys@[k]@, key@);
                            }
                        }
                    }
                }
                hi = mid;
            }
        }
        let ghost old_out = out@;
        let ghost old_keys = keys@;
        proof {
            assert(assets@.subrange(0, i + 1) =~= assets@.subrange(0, i as int).push(a));
        }
        out.insert(lo, a);
        keys.insert(lo, key);
        proof {
            assert(a == assets@[i as int]);
            assert(out@ == old_out.insert(lo as int, a));
            to_multiset_insert(old_out, lo as int, a);
            vstd::seq_lib::to_multiset_build(assets@.subrange(0, i as int), a);
            assert(out@.to_multiset() =~= old_out.to_multiset().insert(a));
            assert(assets@.subrange(0, i + 1).to_multiset() =~= assets@.subrange(0, i as int).to_multiset().insert(a));
            assert(key@ == lower_of(a.path@));
            assert forall|k: int| 0 <= k < old_keys.len() implies (#[trigger] old_keys[k])@ == lower_of(old_out[k].path@) by {}
            assert forall|k: int| 0 <= k < keys@.len() implies (#[trigger] keys@[k])@ == lower_of(out@[k].path@) by {
                if k < lo {
                    assert(keys@[k] == old_keys[k] && out@[k] == old_out[k]);
                } else if k > lo {
                    assert(keys@[k] == old_keys[k - 1] && out@[k] == old_out[k - 1]);
                }
            }
            assert forall|x: int, y: int| 0 <= x < y < out@.len() implies text_le(
                lower_of(out@[x].path@),
                lower_of(out@[y].path@),
            ) by {
                let lx = lower_of(out@[x].path@);
                let ly = lower_of(out@[y].path@);
                assert(sorted_by_path(old_out));
                if y < lo {
                    assert(out@[x] == old_out[x] && out@[y] == old_out[y]);
                    assert(text_le(lower_of(old_out[x].path@), lower_of(old_out[y].path@)));
                } else if y == lo {
                    assert(out@[x] == old_out[x]);
                    assert(out@[y] == a);
                    assert(text_le(old_keys[x]@, key@));
                    assert(old_keys[x]@ == lx);
                } else if x < lo {
                    assert(out@[x] == old_out[x] && out@[y] == old_out[y - 1]);
                    assert(text_le(old_keys[x]@, key@));
                    assert(!text_le(old_keys[y - 1]@, key@));
                    assert(old_keys[x]@ == lx);
                    assert(old_keys[y - 1]@ == ly);
                    lemma_text_le_total(old_keys[y - 1]@, key@);
                    lemma_text_le_trans(old_keys[x]@, key@, old_keys[y - 1]@);
                } else if x == lo {
                    assert(out@[x] == a);
                    assert(out@[y] == old_out[y - 1]);
                    assert(!text_le(old_keys[y - 1]@, key@));
                    assert(old_keys[y - 1]@ == ly);
                    lemma_text_le_total(old_keys[y - 1]@, key@);
                } else {
                    assert(out@[x] == old_out[x - 1] && out@[y] == old_out[y - 1]);
                    assert(text_le(lower_of(old_out[x - 1].path@), lower_of(old_out[y - 1].path@)));
                }
            }
        }
        i = i + 1;
    }
    assert(assets@.subrange(0, i as int) =~= assets@);
    out
}

/// Number of assets of type `t` in `s`.
pub open spec fn type_count(s: Seq<AssetInfo>, t: AssetType) -> nat
    decreases s.len(),
{
    if s.len() == 0 {
        0
    } else {
        type_count(s.drop_last(), t) + if s.last().asset_type == t {
            1nat
        } else {
            0nat
        }
    }
}

/// Sum of the sizes of `s`.
pub open spec fn size_sum(s: Seq<AssetInfo>) -> nat
    decreases s.len(),
{
    if s.len() == 0 {
        0
    } else {
        size_sum(s.drop_last()) + s.last().size as nat
    }
}

/// The position of an asset type in declaration order.
pub open spec fn type_index(t: AssetType) -> int {
    match t {
        AssetType::Texture => 0,
        AssetType::Model => 1,
        AssetType::Audio => 2,
        AssetType::Animation => 3,
        AssetType::Material => 4,
        AssetType::Prefab => 5,
        AssetType::Scene => 6,
        AssetType::Script => 7,
        AssetType::Data => 8,
        AssetType::Other => 9,
    }
}

fn type_at(j: usize) -> (t: AssetType)
    requires
        j < 10,
    ensures
        type_index(t) == j,
{
    match j {
        0 => AssetType::Texture,
        1 => AssetType::Model,
        2 => AssetType::Audio,
        3 => AssetType::Animation,
        4 => AssetType::Material,
        5 => AssetType::Prefab,
        6 => AssetType::Scene,
        7 => AssetType::Script,
        8 => AssetType::Data,
        _ => AssetType::Other,
    }
}

fn count_of_type(assets: &Vec<AssetInfo>, t: AssetType) -> (r: usize)
    ensures
        r == type_count(assets@, t),
{
    let mut n: usize = 0;
    let mut i: usize = 0;
    while i < assets.len()
        invariant
            0 <= i <= assets.len(),
            n == type_count(assets@.subrange(0, i as int), t),
            n <= i,
        decreases assets.len() - i,
    {
        assert(assets@.subrange(0, i + 1).drop_last() =~= assets@.subrange(0, i as int));
        if assets[i].asset_type == t {
            n = n + 1;
        }
        i = i + 1;
    }
    assert(assets@.subrange(0, i as int) =~= assets@);
    n
}

/// The count of each asset type present among `assets`, in declaration order
/// of the types.
pub fn count_types(assets: &Vec<AssetInfo>) -> (r: Vec<TypeCount>)
    ensures
        forall|k: int|
            0 <= k < r@.len() ==> (#[trigger] r@[k]).count == type_count(assets@, r@[k].asset_type)
                && r@[k].count > 0,
        forall|a: int, b: int|
            0 <= a < b < r@.len() ==> type_index(r@[a].asset_type) < type_index(r@[b].asset_type),
        forall|t: AssetType|
            type_count(assets@, t) > 0 ==> exists|k: int|
                0 <= k < r@.len() && (#[trigger] r@[k]).asset_type == t,
{
    let mut r: Vec<TypeCount> = Vec::new();
    let mut j: usize = 0;
    while j < 10
        invariant
            0 <= j <= 10,
            forall|k: int|
                0 <= k < r@.len() ==> (#[trigger] r@[k]).count == type_count(
                    assets@,
                    r@[k].asset_type,
                ) && r@[k].count > 0 && type_index(r@[k].asset_type) < j,
            forall|a: int, b: int|
                0 <= a < b < r@.len() ==> type_index(r@[a].asset_type) < type_index(
                    r@[b].asset_type,
                ),
            forall|t: AssetType|
                type_index(t) < j && type_count(assets@, t) > 0 ==> exists|k: int|
                    0 <= k < r@.len() && (#[trigger] r@[k]).asset_type == t,
        decreases 10 - j,
    {
        let t = type_at(j);
        let n = count_of_type(assets, t);
        if n > 0 {
            let ghost before = r@;
            r.push(TypeCount { asset_type: t, count: n });
            proof {
                assert forall|u: AssetType|
                    type_index(u) < j + 1 && type_count(assets@, u) > 0 implies exists|k: int|
                    0 <= k < r@.len() && (#[trigger] r@[k]).asset_type == u by {
                    if type_index(u) < j {
                        let k = choose|k: int| 0 <= k < before.len() && (#[trigger] before[k]).asset_type == u;
                        assert(r@[k] == before[k]);
                    } else {
                        assert(u == t);
                        assert(r@[before.len() as int].asset_type == u);
                    }
                }
            }
        } else {
            proof {
                assert forall|u: AssetType|
                    type_index(u) < j + 1 && type_count(assets@, u) > 0 implies exists|k: int|
                    0 <= k < r@.len() && (#[trigger] r@[k]).asset_type == u by {
                    if type_index(u) == j {
                        assert(u == t);
                    }
                }
            }
        }
        j = j + 1;
    }
    assert forall|t: AssetType| type_count(assets@, t) > 0 implies exists|k: int|
        0 <= k < r@.len() && (#[trigger] r@[k]).asset_type == t by {
        assert(type_index(t) < 10);
    }
    r
}

/// The total size of `assets`, saturating at `u64::MAX`.
pub fn total_size(assets: &Vec<AssetInfo>) -> (r: u64)
    ensures
        r == if size_sum(assets@) <= u64::MAX {
            size_sum(assets@)
        } else {
            u64::MAX as nat
        },
{
    let mut total: u64 = 0;
    let mut i: usize = 0;
    while i < assets.len()
        invariant
            0 <= i <= assets.len(),
            total == if size_sum(assets@.subrange(0, i as int)) <= u64::MAX {
                size_sum(assets@.subrange(0, i as int))
            } else {
                u64::MAX as nat
            },
        decreases assets.len() - i,
    {
        assert(assets@.subrange(0, i + 1).drop_last() =~= assets@.subrange(0, i as int));
        total = total.saturating_add(assets[i].size);
        i = i + 1;
    }
    assert(assets@.subrange(0, i as int) =~= assets@);
    total
}

/// Assembles the result of a scan: assets ordered by path ignoring case,
/// per-type counts and totals.
pub fn build_result(
    root_path: &str,
    directory_tree: DirectoryNode,
    assets: Vec<AssetInfo>,
    project_type: Option<ProjectType>,
) -> (r: ScanResult)
    ensures
        r.root_path@ == root_path@,
        r.directory_tree == directory_tree,
        r.assets@.to_multiset() == assets@.to_multiset(),
        sorted_by_path(r.assets@),
        r.total_count == assets@.len(),
        r.total_size == if size_sum(r.assets@) <= u64::MAX {
            size_sum(r.assets@)
        } else {
            u64::MAX as nat
        },
        forall|k: int|
            0 <= k < r.type_counts@.len() ==> (#[trigger] r.type_counts@[k]).count == type_count(
                r.assets@,
                r.type_counts@[k].asset_type,
            ) && r.type_counts@[k].count > 0,
        forall|t: AssetType|
            type_count(r.assets@, t) > 0 ==> exists|k: int|
                0 <= k < r.type_counts@.len() && (#[trigger] r.type_counts@[k]).asset_type == t,
        r.project_type == project_type,
{
    let sorted = sort_assets(assets);
    proof {
        sorted@.to_multiset_ensures();
        assets@.to_multiset_ensures();
    }
    let type_counts = count_types(&sorted);
    let size = total_size(&sorted);
    let count = sorted.len();
    ScanResult {
        root_path: String::from_str(root_path),
        directory_tree,
        assets: sorted,
        total_count: count,
        total_size: size,
        type_counts,
        project_type,
    }
}

/// The lower-case name of an asset type.
pub fn type_key(t: AssetType) -> (r: &'static str)
    ensures
        r@ == crate::project::asset_type_label(t),
{
    match t {
        AssetType::Texture => "texture",
        AssetType::Model => "model",
        AssetType::Audio => "audio",
        AssetType::Animation => "animation",
        AssetType::Material => "material",
        AssetType::Prefab => "prefab",
        AssetType::Scene => "scene",
        AssetType::Script => "script",
        AssetType::Data => "data",
        AssetType::Other => "other",
    }
}

/// What `std::path::Path::parent` gives for a path, as text.
pub uninterp spec fn parent_of(p: Seq<char>) -> Option<Seq<char>>;

/// Relies on `std::path::Path::parent`: the path without its last component,
/// if it has one, converted to text.
#[verifier::external_body]
fn parent_path(p: &str) -> (r: Option<String>)
    ensures
        r.is_some() == parent_of(p@).is_some(),
        r.is_some() ==> r.unwrap()@ == parent_of(p@).unwrap(),
{
    std::path::Path::new(p).parent().map(|d| d.to_string_lossy().to_string())
}

/// Whether asset `a` lies directly in directory `dir`: its parent is the
/// same path as `dir`.
pub open spec fn directly_in(a: AssetInfo, dir: Seq<char>) -> bool {
    match parent_of(a.path@) {
        Some(p) => paths_equal(p, dir),
        None => false,
    }
}

/// Whether a subdirectory appears in the directory tree: hidden directories,
/// whose names start with `.`, do not.
pub fn is_listed_directory(name: &str) -> (r: bool)
    ensures
        r == !has_prefix(name@, "."@),
{
    !starts_with(name, ".")
}

/// Number and total size of the assets lying directly in `dir`.
pub open spec fn direct_totals(s: Seq<AssetInfo>, dir: Seq<char>) -> (nat, nat)
    decreases s.len(),
{
    if s.len() == 0 {
        (0, 0)
    } else {
        let t = direct_totals(s.drop_last(), dir);
        if directly_in(s.last(), dir) {
            (t.0 + 1, t.1 + s.last().size as nat)
        } else {
            t
        }
    }
}

/// Sums of the subtree totals of `c`.
pub open spec fn child_totals(c: Seq<DirectoryNode>) -> (nat, nat)
    decreases c.len(),
{
    if c.len() == 0 {
        (0, 0)
    } else {
        let t = child_totals(c.drop_last());
        (t.0 + c.last().file_count as nat, t.1 + c.last().total_size as nat)
    }
}

/// `n` capped at `cap`.
pub open spec fn capped(n: nat, cap: nat) -> nat {
    if n <= cap {
        n
    } else {
        cap
    }
}

/// Whether the children are ordered by lower-cased name.
pub open spec fn sorted_by_name(c: Seq<DirectoryNode>) -> bool {
    forall|a: int, b: int|
        0 <= a < b < c.len() ==> text_le(lower_of(c[a].name@), lower_of(c[b].name@))
}

/// Orders directory nodes by name, ignoring case.
pub fn sort_children(nodes: Vec<DirectoryNode>) -> (r: Vec<DirectoryNode>)
    ensures
        r@.len() == nodes@.len(),
        r@.to_multiset() == nodes@.to_multiset(),
        sorted_by_name(r@),
{
    broadcast use vstd::seq_lib::group_to_multiset_ensures;

    let mut input = nodes;
    let ghost all = input@;
    let mut out: Vec<DirectoryNode> = Vec::new();
    let mut keys: Vec<Vec<char>> = Vec::new();
    assert(out@ =~= all.subrange(0, 0));
    let mut i: usize = 0;
    let n = input.len();
    while i < n
        invariant
            n == all.len(),
            0 <= i <= n,
            input@ =~= all.subrange(i as int, n as int),
            out@.len() == keys@.len(),
            out@.to_multiset() == all.subrange(0, i as int).to_multiset(),
            forall|k: int| 0 <= k < keys@.len() ==> (#[trigger] keys@[k])@ == lower_of(out@[k].name@),
            sorted_by_name(out@),
        decreases n - i,
    {
        let a = input.remove(0);
        let lowered = to_lower(a.name.as_str());
        let key = char_vec(lowered.as_str());
        let mut lo: usize = 0;
        let mut hi: usize = keys.len();
        while lo < hi
            invariant
                0 <= lo <= hi <= keys@.len(),
                out@.len() == keys@.len(),
                forall|k: int| 0 <= k < keys@.len() ==> (#[trigger] keys@[k])@ == lower_of(out@[k].name@),
                sorted_by_name(out@),
                forall|k: int| 0 <= k < lo ==> text_le((#[trigger] keys@[k])@, key@),
                forall|k: int| hi <= k < keys@.len() ==> !text_le((#[trigger] keys@[k])@, key@),
            decreases hi - lo,
        {
            let mid = lo + (hi - lo) / 2;
            if chars_le(&keys[mid], &key) {
                proof {
                    assert forall|k: int| 0 <= k < mid + 1 implies text_le((#[trigger] keys@[k])@, key@) by {
                        if k < mid {
                            assert(text_le(lower_of(out@[k].name@), lower_of(out@[mid as int].name@)));
                            lemma_text_le_trans(keys@[k]@, keys@[mid as int]@, key@);
                        }
                    }
                }
                lo = mid + 1;
            } else {
                proof {
                    assert forall|k: int| mid <= k < keys@.len() implies !text_le((#[trigger] keys@[k])@, key@) by {
                        if k > mid {
                            assert(text_le(lower_of(out@[mid as int].name@), lower_of(out@[k].name@)));
                            if text_le(keys@[k]@, key@) {
                                lemma_text_le_trans(keys@[mid as int]@, keys@[k]@, key@);
                            }
                        }
                    }
                }
                hi = mid;
            }
        }
        let ghost old_out = out@;
        let ghost old_keys = keys@;
        proof {
            assert(a == all[i as int]);
            assert(all.subrange(0, i + 1) =~= all.subrange(0, i as int).push(a));
        }
        out.insert(lo, a);
        keys.insert(lo, key);
        proof {
            to_multiset_insert(old_out, lo as int, a);
            vstd::seq_lib::to_multiset_build(all.subrange(0, i as int), a);
            assert(key@ == lower_of(a.name@));
            assert forall|k: int| 0 <= k < old_keys.len() implies (#[trigger] old_keys[k])@ == lower_of(old_out[k].name@) by {}
            assert forall|k: int| 0 <= k < keys@.len() implies (#[trigger] keys@[k])@ == lower_of(out@[k].name@) by {
                if k < lo {
                    assert(keys@[k] == old_keys[k] && out@[k] == old_out[k]);
                } else if k > lo {
                    assert(keys@[k] == old_keys[k - 1] && out@[k] == old_out[k - 1]);
                }
            }
            assert forall|x: int, y: int| 0 <= x < y < out@.len() implies text_le(
                lower_of(out@[x].name@),
                lower_of(out@[y].name@),
            ) by {
                let lx = lower_of(out@[x].name@);
                let ly = lower_of(out@[y].name@);
                assert(sorted_by_name(old_out));
                if y < lo {
                    assert(out@[x] == old_out[x] && out@[y] == old_out[y]);
                    assert(text_le(lower_of(old_out[x].name@), lower_of(old_out[y].name@)));
                } else if y == lo {
                    assert(out@[x] == old_out[x]);
                    assert(out@[y] == a);
                    assert(text_le(old_keys[x]@, key@));
                    assert(old_keys[x]@ == lx);
                } else if x < lo {
                    assert(out@[x] == old_out[x] && out@[y] == old_out[y - 1]);
                    assert(text_le(old_keys[x]@, key@));
                    assert(!text_le(old_keys[y - 1]@, key@));
                    assert(old_keys[x]@ == lx);
                    assert(old_keys[y - 1]@ == ly);
                    lemma_text_le_total(old_keys[y - 1]@, key@);
                    lemma_text_le_trans(old_keys[x]@, key@, old_keys[y - 1]@);
                } else if x == lo {
                    assert(out@[x] == a);
                    assert(out@[y] == old_out[y - 1]);
                    assert(!text_le(old_keys[y - 1]@, key@));
                    assert(old_keys[y - 1]@ == ly);
                    lemma_text_le_total(old_keys[y - 1]@, key@);
                } else {
                    assert(out@[x] == old_out[x - 1] && out@[y] == old_out[y - 1]);
                    assert(text_le(lower_of(old_out[x - 1].name@), lower_of(old_out[y - 1].name@)));
                }
            }
        }
        i = i + 1;
    }
    assert(all.subrange(0, i as int) =~= all);
    proof {
        out@.to_multiset_ensures();
        all.to_multiset_ensures();
    }
    out
}

/// A directory node: its children ordered by name ignoring case, and totals
/// over its whole subtree, capped at the largest value of their types. Its
/// own files are the assets whose parent directory is `path`.
pub fn build_directory_node(
    name: String,
    path: String,
    children: Vec<DirectoryNode>,
    assets: &Vec<AssetInfo>,
) -> (r: DirectoryNode)
    ensures
        r.name == name,
        r.path == path,
        r.children@.to_multiset() == children@.to_multiset(),
        sorted_by_name(r.children@),
        r.file_count == capped(
            direct_totals(assets@, path@).0 + child_totals(children@).0,
            usize::MAX as nat,
        ),
        r.total_size == capped(
            direct_totals(assets@, path@).1 + child_totals(children@).1,
            u64::MAX as nat,
        ),
{
    let mut count: usize = 0;
    let mut size: u64 = 0;
    let mut i: usize = 0;
    while i < assets.len()
        invariant
            0 <= i <= assets.len(),
            count == capped(direct_totals(assets@.subrange(0, i as int), path@).0, usize::MAX as nat),
            size == capped(direct_totals(assets@.subrange(0, i as int), path@).1, u64::MAX as nat),
        decreases assets.len() - i,
    {
        assert(assets@.subrange(0, i + 1).drop_last() =~= assets@.subrange(0, i as int));
        let parent = parent_path(assets[i].path.as_str());
        let inside = match &parent {
            Some(p) => same_path(p.as_str(), path.as_str()),
            None => false,
        };
        if inside {
            count = count.saturating_add(1);
            size = size.saturating_add(assets[i].size);
        }
        i = i + 1;
    }
    assert(assets@.subrange(0, i as int) =~= assets@);
    let mut k: usize = 0;
    while k < children.len()
        invariant
            0 <= k <= children.len(),
            count == capped(
                direct_totals(assets@, path@).0 + child_totals(children@.subrange(0, k as int)).0,
                usize::MAX as nat,
            ),
            size == capped(
                direct_totals(assets@, path@).1 + child_totals(children@.subrange(0, k as int)).1,
                u64::MAX as nat,
            ),
        decreases children.len() - k,
    {
        assert(children@.subrange(0, k + 1).drop_last() =~= children@.subrange(0, k as int));
        count = count.saturating_add(children[k].file_count);
        size = size.saturating_add(children[k].total_size);
        k = k + 1;
    }
    assert(children@.subrange(0, k as int) =~= children@);
    let sorted = sort_children(children);
    DirectoryNode { name, path, children: sorted, file_count: count, total_size: size }
}

} // verus!
