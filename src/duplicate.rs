//! Exact duplicates: assets of equal size whose contents hash alike.
//!
//! Only assets that share their byte size with another asset need a content
//! digest; the caller hashes those files and hands the digests back.

use vstd::prelude::*;
use vstd::string::*;
use crate::analysis::{AnalysisResult, Issue, Severity};
use crate::asset::AssetInfo;
use crate::rules::present;
use crate::rules::format::{new_issue, issue_head, text_is};

verus! {

/// Whether some other asset has the same byte size as asset `i`.
pub open spec fn shares_size(assets: Seq<AssetInfo>, i: int) -> bool {
    exists|j: int| 0 <= j < assets.len() && j != i && #[trigger] assets[j].size == assets[i].size
}

/// Whether assets `i` and `j` are known to hold the same bytes: equal sizes
/// and equal digests, both read.
pub open spec fn same_content(
    assets: Seq<AssetInfo>,
    digests: Seq<Option<String>>,
    i: int,
    j: int,
) -> bool {
    &&& assets[i].size == assets[j].size
    &&& digests[i].is_some()
    &&& digests[j].is_some()
    &&& digests[i].unwrap()@ == digests[j].unwrap()@
}

/// The first asset before `i` with the same content, which `i` duplicates.
pub open spec fn original_of(assets: Seq<AssetInfo>, digests: Seq<Option<String>>, i: int) -> Option<int> {
    if exists|j: int| 0 <= j < i && #[trigger] same_content(assets, digests, j, i) {
        Some(
            choose|j: int|
                0 <= j < i && #[trigger] same_content(assets, digests, j, i) && forall|k: int|
                    0 <= k < j ==> !#[trigger] same_content(assets, digests, k, i),
        )
    } else {
        None
    }
}

/// Whether `i` reports asset `dup` as a copy of asset `orig`.
pub open spec fn duplicate_issue(orig: AssetInfo, dup: AssetInfo, i: Issue) -> bool {
    &&& issue_head(i, "duplicate"@, "Duplicate File"@, Severity::Warning, false, dup.path@)
    &&& i.message@ == "File is a duplicate of '"@ + orig.name@ + "'"@
    &&& text_is(
        i.suggestion,
        "Consider removing this file or consolidating with '"@ + orig.path@ + "'"@,
    )
}

/// Whether `issues` reports, in asset order, every asset that duplicates an
/// earlier one, naming the first asset of its group as the original.
pub open spec fn duplicate_report(
    assets: Seq<AssetInfo>,
    digests: Seq<Option<String>>,
    issues: Seq<Issue>,
) -> bool {
    exists|outs: Seq<Option<Issue>>|
        #![trigger present(outs)]
        outs.len() == assets.len() && issues == present(outs) && forall|i: int|
            0 <= i < assets.len() ==> match original_of(assets, digests, i) {
                Some(j) => (#[trigger] outs[i]).is_some() && duplicate_issue(
                    assets[j],
                    assets[i],
                    outs[i].unwrap(),
                ),
                None => outs[i].is_none(),
            }
}

/// For each asset, whether its content must be hashed: only assets that
/// share their size with another asset are; a size-unique file never is.
pub fn hash_candidates(assets: &Vec<AssetInfo>) -> (r: Vec<bool>)
    ensures
        r@.len() == assets@.len(),
        forall|i: int| 0 <= i < assets@.len() ==> #[trigger] r@[i] == shares_size(assets@, i),
{
    let n = assets.len();
    let mut r: Vec<bool> = Vec::new();
    let mut i: usize = 0;
    while i < n
        invariant
            n == assets@.len(),
            0 <= i <= n,
            r@.len() == i,
            forall|k: int| 0 <= k < i ==> #[trigger] r@[k] == shares_size(assets@, k),
        decreases n - i,
    {
        let mut shared = false;
        let mut j: usize = 0;
        while j < n
            invariant
                n == assets@.len(),
                0 <= i < n,
                0 <= j <= n,
                shared == exists|k: int| 0 <= k < j && k != i && #[trigger] assets@[k].size == assets@[i as int].size,
            decreases n - j,
        {
            if j != i && assets[j].size == assets[i].size {
                shared = true;
            }
            j = j + 1;
        }
        r.push(shared);
        i = i + 1;
    }
    r
}

fn same_digest(a: &Option<String>, b: &Option<String>) -> (r: bool)
    ensures
        r == (a.is_some() && b.is_some() && a.unwrap()@ == b.unwrap()@),
{
    match (a, b) {
        (Some(x), Some(y)) => *x == *y,
        _ => false,
    }
}

/// Reports every asset whose content equals that of an earlier asset.
///
/// `digests[i]` is the content digest of asset `i`, or `None` where the file
/// was not hashed or could not be read; such an asset counts as unique.
pub fn find_duplicates(assets: &Vec<AssetInfo>, digests: &Vec<Option<String>>) -> (r: AnalysisResult)
    requires
        digests@.len() == assets@.len(),
    ensures
        r.wf(),
        duplicate_report(assets@, digests@, r.issues@),
{
    let n = assets.len();
    let mut result = AnalysisResult::new();
    let ghost mut outs: Seq<Option<Issue>> = seq![];
    let mut i: usize = 0;
    while i < n
        invariant
            n == assets@.len(),
            digests@.len() == n,
            0 <= i <= n,
            outs.len() == i,
            result.wf(),
            result.issues@ == present(outs),
            result.issues@.len() <= i,
            forall|k: int|
                0 <= k < i ==> match original_of(assets@, digests@, k) {
                    Some(j) => (#[trigger] outs[k]).is_some() && duplicate_issue(
                        assets@[j],
                        assets@[k],
                        outs[k].unwrap(),
                    ),
                    None => outs[k].is_none(),
                },
        decreases n - i,
    {
        let mut j: usize = 0;
        let mut found = false;
        while j < i
            invariant
                n == assets@.len(),
                digests@.len() == n,
                0 <= j <= i < n,
                forall|k: int| 0 <= k < j ==> !#[trigger] same_content(assets@, digests@, k, i as int),
            ensures
                j < i ==> same_content(assets@, digests@, j as int, i as int),
            decreases i - j,
        {
            if assets[j].size == assets[i].size && same_digest(&digests[j], &digests[i]) {
                break;
            }
            j = j + 1;
        }
        let ghost prev = outs;
        if j < i {
            let orig = &assets[j];
            proof {
                let w = j as int;
                assert(0 <= w < i && same_content(assets@, digests@, w, i as int) && forall|k: int|
                    0 <= k < w ==> !#[trigger] same_content(assets@, digests@, k, i as int));
                let c = original_of(assets@, digests@, i as int).unwrap();
                if c < w {
                    assert(!same_content(assets@, digests@, c, i as int));
                }
                if c > w {
                    assert(!same_content(assets@, digests@, w, i as int));
                }
            }
            let mut msg = String::from_str("File is a duplicate of '");
            msg.append(orig.name.as_str());
            msg.append("'");
            let mut sug = String::from_str("Consider removing this file or consolidating with '");
            sug.append(orig.path.as_str());
            sug.append("'");
            let issue = new_issue(
                "duplicate",
                "Duplicate File",
                Severity::Warning,
                msg,
                &assets[i].path,
                Some(sug),
                false,
            );
            proof {
                outs = outs.push(Some(issue));
            }
            result.add_issue(issue);
        } else {
            proof {
                outs = outs.push(None);
            }
        }
        proof {
            assert(outs.drop_last() =~= prev);
            assert forall|k: int| 0 <= k < i implies outs[k] == prev[k] by {}
        }
        i = i + 1;
    }
    result
}

proof fn lemma_present_all_but_first(outs: Seq<Option<Issue>>)
    requires
        outs.len() >= 1,
        outs[0].is_none(),
        forall|k: int| 1 <= k < outs.len() ==> (#[trigger] outs[k]).is_some(),
    ensures
        present(outs).len() == outs.len() - 1,
        forall|k: int| 0 <= k < outs.len() - 1 ==> present(outs)[k] == (#[trigger] outs[k + 1]).unwrap(),
    decreases outs.len(),
{
    let d = outs.drop_last();
    if outs.len() == 1 {
        assert(d.len() == 0);
        assert(present(d) =~= seq![]);
        assert(outs.last() == outs[0]);
        assert(present(outs) =~= seq![]);
    } else {
        assert forall|k: int| 1 <= k < d.len() implies (#[trigger] d[k]).is_some() by {
            assert(d[k] == outs[k]);
        }
        assert(d[0] == outs[0]);
        lemma_present_all_but_first(d);
        assert(outs.last() == outs[outs.len() - 1]);
        assert(outs.last().is_some());
        assert(present(outs) == present(d) + seq![outs.last().unwrap()]);
        assert forall|k: int| 0 <= k < outs.len() - 1 implies present(outs)[k] == (
        #[trigger] outs[k + 1]).unwrap() by {
            if k < d.len() - 1 {
                assert(present(outs)[k] == present(d)[k]);
                assert(d[k + 1] == outs[k + 1]);
            }
        }
    }
}

/// Given N ≥ 2 assets with the same size and the same readable digest, the
/// report holds exactly N − 1 issues: asset `k + 1` is reported as a copy of
/// the first asset, for each `k`.
pub proof fn law_identical_files(
    assets: Seq<AssetInfo>,
    digests: Seq<Option<String>>,
    issues: Seq<Issue>,
)
    requires
        assets.len() >= 2,
        digests.len() == assets.len(),
        forall|i: int| 0 <= i < assets.len() ==> (#[trigger] assets[i]).size == assets[0].size,
        forall|i: int|
            0 <= i < assets.len() ==> (#[trigger] digests[i]).is_some() && digests[i].unwrap()@
                == digests[0].unwrap()@,
        duplicate_report(assets, digests, issues),
    ensures
        issues.len() == assets.len() - 1,
        forall|k: int|
            0 <= k < issues.len() ==> duplicate_issue(assets[0], assets[k + 1], #[trigger] issues[k]),
{
    let outs = choose|outs: Seq<Option<Issue>>|
        #![trigger present(outs)]
        outs.len() == assets.len() && issues == present(outs) && forall|i: int|
            0 <= i < assets.len() ==> match original_of(assets, digests, i) {
                Some(j) => (#[trigger] outs[i]).is_some() && duplicate_issue(
                    assets[j],
                    assets[i],
                    outs[i].unwrap(),
                ),
                None => outs[i].is_none(),
            };
    assert forall|i: int| 1 <= i < assets.len() implies original_of(assets, digests, i) == Some(
        0int,
    ) by {
        assert(same_content(assets, digests, 0, i));
        assert(0 <= 0 < i && same_content(assets, digests, 0, i) && forall|k: int|
            0 <= k < 0 ==> !#[trigger] same_content(assets, digests, k, i));
        let c = original_of(assets, digests, i).unwrap();
        if c > 0 {
            assert(!same_content(assets, digests, 0, i));
        }
    }
    assert(original_of(assets, digests, 0).is_none());
    assert(outs[0].is_none());
    assert forall|k: int| 1 <= k < outs.len() implies (#[trigger] outs[k]).is_some() by {
        assert(original_of(assets, digests, k) == Some(0int));
    }
    lemma_present_all_but_first(outs);
    assert forall|k: int| 0 <= k < issues.len() implies duplicate_issue(
        assets[0],
        assets[k + 1],
        #[trigger] issues[k],
    ) by {
        assert(original_of(assets, digests, k + 1) == Some(0int));
        assert(issues[k] == outs[k + 1].unwrap());
    }
}

proof fn lemma_least_original(assets: Seq<AssetInfo>, digests: Seq<Option<String>>, j: int, k: int)
    requires
        0 <= k < j,
        same_content(assets, digests, k, j),
    ensures
        exists|m: int|
            0 <= m < j && #[trigger] same_content(assets, digests, m, j) && forall|l: int|
                0 <= l < m ==> !#[trigger] same_content(assets, digests, l, j),
    decreases k,
{
    if exists|l: int| 0 <= l < k && #[trigger] same_content(assets, digests, l, j) {
        let l = choose|l: int| 0 <= l < k && #[trigger] same_content(assets, digests, l, j);
        lemma_least_original(assets, digests, j, l);
    } else {
        assert(0 <= k < j && same_content(assets, digests, k, j) && forall|l: int|
            0 <= l < k ==> !#[trigger] same_content(assets, digests, l, j));
    }
}

proof fn lemma_original_of(assets: Seq<AssetInfo>, digests: Seq<Option<String>>, j: int)
    ensures
        original_of(assets, digests, j) matches Some(o) ==> 0 <= o < j && same_content(
            assets,
            digests,
            o,
            j,
        ),
{
    if exists|k: int| 0 <= k < j && #[trigger] same_content(assets, digests, k, j) {
        let k = choose|k: int| 0 <= k < j && #[trigger] same_content(assets, digests, k, j);
        lemma_least_original(assets, digests, j, k);
    }
}

/// An asset whose size no other asset shares is never reported: it is not a
/// copy of an earlier asset, and no later asset is reported as its copy.
pub proof fn law_size_unique_not_reported(
    assets: Seq<AssetInfo>,
    digests: Seq<Option<String>>,
    i: int,
)
    requires
        0 <= i < assets.len(),
        digests.len() == assets.len(),
        !shares_size(assets, i),
    ensures
        original_of(assets, digests, i).is_none(),
        forall|j: int| 0 <= j < assets.len() ==> #[trigger] original_of(assets, digests, j) != Some(i),
{
    assert forall|k: int| 0 <= k < i implies !#[trigger] same_content(assets, digests, k, i) by {
        if same_content(assets, digests, k, i) {
            assert(assets[k].size == assets[i].size);
        }
    }
    assert forall|j: int| 0 <= j < assets.len() implies #[trigger] original_of(assets, digests, j) != Some(i) by {
        lemma_original_of(assets, digests, j);
        if original_of(assets, digests, j) == Some(i) {
            assert(assets[j].size == assets[i].size);
        }
    }
}

} // verus!
