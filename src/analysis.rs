//! Issues raised by the rules and their running totals.

use vstd::prelude::*;
use crate::text::str_eq;

verus! {

/// How serious an issue is; used for aggregation and display only.
#[derive(Debug, Clone, Copy, PartialEq, Eq, Structural)]
pub enum Severity {
    Error,
    Warning,
    Info,
}

/// One policy violation found on one asset.
#[derive(Debug, Clone)]
pub struct Issue {
    pub rule_id: String,
    pub rule_name: String,
    pub severity: Severity,
    pub message: String,
    pub asset_path: String,
    pub suggestion: Option<String>,
    pub auto_fixable: bool,
}

/// Number of issues raised under one rule id.
#[derive(Debug, Clone)]
pub struct RuleTally {
    pub rule_id: String,
    pub count: usize,
}

/// An ordered list of issues with totals kept in step with it.
#[derive(Debug, Clone)]
pub struct AnalysisResult {
    pub issues: Vec<Issue>,
    pub issue_count: usize,
    pub error_count: usize,
    pub warning_count: usize,
    pub info_count: usize,
    pub by_rule: Vec<RuleTally>,
}

/// Number of issues of severity `sev` in `s`.
pub open spec fn severity_count(s: Seq<Issue>, sev: Severity) -> nat
    decreases s.len(),
{
    if s.len() == 0 {
        0
    } else {
        severity_count(s.drop_last(), sev) + if s.last().severity == sev {
            1nat
        } else {
            0nat
        }
    }
}

/// Number of issues in `s` whose rule id is `id`.
pub open spec fn rule_issue_count(s: Seq<Issue>, id: Seq<char>) -> nat
    decreases s.len(),
{
    if s.len() == 0 {
        0
    } else {
        rule_issue_count(s.drop_last(), id) + if s.last().rule_id@ == id {
            1nat
        } else {
            0nat
        }
    }
}

/// The issue list obtained by merging `b` into `a`.
pub open spec fn merged(a: Seq<Issue>, b: Seq<Issue>) -> Seq<Issue> {
    a + b
}

proof fn lemma_counts_bounded(s: Seq<Issue>, sev: Severity, id: Seq<char>)
    ensures
        severity_count(s, sev) <= s.len(),
        rule_issue_count(s, id) <= s.len(),
    decreases s.len(),
{
    if s.len() > 0 {
        lemma_counts_bounded(s.drop_last(), sev, id);
    }
}

proof fn lemma_severities_partition(s: Seq<Issue>)
    ensures
        severity_count(s, Severity::Error) + severity_count(s, Severity::Warning)
            + severity_count(s, Severity::Info) == s.len(),
    decreases s.len(),
{
    if s.len() > 0 {
        lemma_severities_partition(s.drop_last());
    }
}

proof fn lemma_push_counts(s: Seq<Issue>, x: Issue)
    ensures
        forall|sev: Severity| #[trigger]
            severity_count(s.push(x), sev) == severity_count(s, sev) + if x.severity == sev {
                1nat
            } else {
                0nat
            },
        forall|id: Seq<char>| #[trigger]
            rule_issue_count(s.push(x), id) == rule_issue_count(s, id) + if x.rule_id@ == id {
                1nat
            } else {
                0nat
            },
{
    assert(s.push(x).drop_last() =~= s);
}

proof fn lemma_absent_rule(s: Seq<Issue>, id: Seq<char>)
    requires
        forall|k: int| 0 <= k < s.len() ==> s[k].rule_id@ != id,
    ensures
        rule_issue_count(s, id) == 0,
    decreases s.len(),
{
    if s.len() > 0 {
        lemma_absent_rule(s.drop_last(), id);
    }
}

impl Issue {
    /// A field-by-field copy of this issue.
    pub fn copy(&self) -> (r: Issue)
        ensures
            r == *self,
    {
        let suggestion = match &self.suggestion {
            Some(s) => Some(s.clone()),
            None => None,
        };
        Issue {
            rule_id: self.rule_id.clone(),
            rule_name: self.rule_name.clone(),
            severity: self.severity,
            message: self.message.clone(),
            asset_path: self.asset_path.clone(),
            suggestion,
            auto_fixable: self.auto_fixable,
        }
    }
}

impl AnalysisResult {
    /// Every total agrees with the issue list.
    pub open spec fn wf(&self) -> bool {
        let s = self.issues@;
        &&& self.issue_count == s.len()
        &&& self.error_count == severity_count(s, Severity::Error)
        &&& self.warning_count == severity_count(s, Severity::Warning)
        &&& self.info_count == severity_count(s, Severity::Info)
        &&& forall|i: int, j: int|
            0 <= i < j < self.by_rule.len() ==> self.by_rule[i].rule_id@
                != self.by_rule[j].rule_id@
        &&& forall|i: int|
            0 <= i < self.by_rule.len() ==> #[trigger] self.by_rule[i].count == rule_issue_count(
                s,
                self.by_rule[i].rule_id@,
            ) && self.by_rule[i].count > 0
        &&& forall|k: int|
            0 <= k < s.len() ==> exists|i: int|
                0 <= i < self.by_rule.len() && #[trigger] self.by_rule[i].rule_id@ == (
                #[trigger] s[k]).rule_id@
    }

    /// An empty result.
    pub fn new() -> (r: AnalysisResult)
        ensures
            r.wf(),
            r.issues@.len() == 0,
            r.by_rule@.len() == 0,
    {
        AnalysisResult {
            issues: Vec::new(),
            issue_count: 0,
            error_count: 0,
            warning_count: 0,
            info_count: 0,
            by_rule: Vec::new(),
        }
    }

    /// Appends one issue and updates every total.
    pub fn add_issue(&mut self, issue: Issue)
        requires
            old(self).wf(),
            old(self).issues@.len() < usize::MAX,
        ensures
            final(self).wf(),
            final(self).issues@ == old(self).issues@.push(issue),
            final(self).issue_count == old(self).issue_count + 1,
            final(self).error_count == old(self).error_count + if issue.severity == Severity::Error {
                1int
            } else {
                0int
            },
            final(self).warning_count == old(self).warning_count + if issue.severity
                == Severity::Warning {
                1int
            } else {
                0int
            },
            final(self).info_count == old(self).info_count + if issue.severity == Severity::Info {
                1int
            } else {
                0int
            },
            forall|id: Seq<char>|
                #[trigger] rule_issue_count(final(self).issues@, id) == rule_issue_count(
                    old(self).issues@,
                    id,
                ) + if issue.rule_id@ == id {
                    1int
                } else {
                    0int
                },
    {
        let ghost s = self.issues@;
        proof {
            lemma_counts_bounded(s, issue.severity, issue.rule_id@);
            lemma_push_counts(s, issue);
        }
        match issue.severity {
            Severity::Error => self.error_count = self.error_count + 1,
            Severity::Warning => self.warning_count = self.warning_count + 1,
            Severity::Info => self.info_count = self.info_count + 1,
        }
        let mut i: usize = 0;
        let mut found = false;
        while i < self.by_rule.len()
            invariant
                0 <= i <= self.by_rule.len(),
                self.by_rule@ == old(self).by_rule@,
                forall|j: int| 0 <= j < i ==> self.by_rule[j].rule_id@ != issue.rule_id@,
            ensures
                i < self.by_rule.len() ==> self.by_rule[i as int].rule_id@ == issue.rule_id@,
            decreases self.by_rule.len() - i,
        {
            if self.by_rule[i].rule_id == issue.rule_id {
                break;
            }
            i = i + 1;
        }
        if i < self.by_rule.len() {
            let c = self.by_rule[i].count;
            proof {
                lemma_counts_bounded(s, issue.severity, issue.rule_id@);
            }
            let tally = RuleTally { rule_id: self.by_rule[i].rule_id.clone(), count: c + 1 };
            self.by_rule.set(i, tally);
        } else {
            proof {
                lemma_absent_rule(s, issue.rule_id@);
            }
            self.by_rule.push(RuleTally { rule_id: issue.rule_id.clone(), count: 1 });
        }
        self.issue_count = self.issue_count + 1;
        self.issues.push(issue);
        proof {
            let t = self.issues@;
            assert(t == s.push(issue));
            assert forall|k: int| 0 <= k < t.len() implies exists|j: int|
                0 <= j < self.by_rule.len() && #[trigger] self.by_rule[j].rule_id@ == (
                #[trigger] t[k]).rule_id@ by {
                if k < s.len() {
                    assert(t[k] == s[k]);
                    let j = choose|j: int|
                        0 <= j < old(self).by_rule.len() && #[trigger] old(self).by_rule[j].rule_id@
                            == (#[trigger] s[k]).rule_id@;
                    assert(self.by_rule[j].rule_id@ == old(self).by_rule[j].rule_id@);
                } else {
                    assert(self.by_rule[i as int].rule_id@ == issue.rule_id@);
                }
            }
        }
    }

    /// Adds every issue of `other`, in order, as `add_issue` would.
    pub fn merge(&mut self, other: AnalysisResult)
        requires
            old(self).wf(),
            old(self).issues@.len() + other.issues@.len() <= usize::MAX,
        ensures
            final(self).wf(),
            final(self).issues@ == merged(old(self).issues@, other.issues@),
            final(self).issue_count == old(self).issue_count + other.issues@.len(),
    {
        let mut i: usize = 0;
        while i < other.issues.len()
            invariant
                0 <= i <= other.issues.len(),
                self.wf(),
                old(self).issues@.len() + other.issues@.len() <= usize::MAX,
                self.issues@ == old(self).issues@ + other.issues@.subrange(0, i as int),
            decreases other.issues.len() - i,
        {
            let issue = other.issues[i].copy();
            self.add_issue(issue);
            assert(other.issues@.subrange(0, i + 1) =~= other.issues@.subrange(0, i as int).push(
                issue,
            ));
            i = i + 1;
        }
        assert(other.issues@.subrange(0, i as int) =~= other.issues@);
    }

    /// The number of issues raised under `rule_id`.
    pub fn rule_count(&self, rule_id: &str) -> (r: usize)
        requires
            self.wf(),
        ensures
            r == rule_issue_count(self.issues@, rule_id@),
    {
        let mut i: usize = 0;
        while i < self.by_rule.len()
            invariant
                0 <= i <= self.by_rule.len(),
                self.wf(),
                forall|j: int| 0 <= j < i ==> self.by_rule[j].rule_id@ != rule_id@,
            decreases self.by_rule.len() - i,
        {
            if str_eq(self.by_rule[i].rule_id.as_str(), rule_id) {
                assert(self.by_rule[i as int].count == rule_issue_count(
                    self.issues@,
                    self.by_rule[i as int].rule_id@,
                ));
                return self.by_rule[i].count;
            }
            i = i + 1;
        }
        proof {
            lemma_absent_rule(self.issues@, rule_id@);
        }
        0
    }
}

impl Default for AnalysisResult {
    fn default() -> (r: AnalysisResult)
        ensures
            r.wf(),
            r.issues@.len() == 0,
            r.by_rule@.len() == 0,
    {
        AnalysisResult::new()
    }
}

/// After any sequence of additions and merges the totals agree with the
/// issue list: the issue count is its length, and the error, warning and info
/// counts add up to it.
pub proof fn law_totals_consistent(r: AnalysisResult)
    requires
        r.wf(),
    ensures
        r.issue_count == r.issues@.len(),
        r.error_count + r.warning_count + r.info_count == r.issue_count,
{
    lemma_severities_partition(r.issues@);
}

/// Merging is associative: merging `c` into the merge of `a` and `b` gives the
/// same issues, in the same order, as merging the merge of `b` and `c` into `a`.
pub proof fn law_merge_associative(a: Seq<Issue>, b: Seq<Issue>, c: Seq<Issue>)
    ensures
        merged(merged(a, b), c) == merged(a, merged(b, c)),
        merged(merged(a, b), c).to_multiset() == merged(a, merged(b, c)).to_multiset(),
{
    assert(merged(merged(a, b), c) =~= merged(a, merged(b, c)));
}

/// Whether `r` holds a tally for rule id `id`.
pub open spec fn has_tally(r: AnalysisResult, id: Seq<char>) -> bool {
    exists|i: int| 0 <= i < r.by_rule@.len() && #[trigger] r.by_rule@[i].rule_id@ == id
}

proof fn lemma_tally_iff_issue(r: AnalysisResult, id: Seq<char>)
    requires
        r.wf(),
    ensures
        has_tally(r, id) <==> rule_issue_count(r.issues@, id) > 0,
{
    if has_tally(r, id) {
        let i = choose|i: int| 0 <= i < r.by_rule@.len() && #[trigger] r.by_rule@[i].rule_id@ == id;
        assert(r.by_rule[i].count > 0);
    }
    if rule_issue_count(r.issues@, id) > 0 {
        if !(exists|k: int| 0 <= k < r.issues@.len() && r.issues@[k].rule_id@ == id) {
            lemma_absent_rule(r.issues@, id);
        }
        let k = choose|k: int| 0 <= k < r.issues@.len() && r.issues@[k].rule_id@ == id;
        let i = choose|i: int|
            0 <= i < r.by_rule.len() && #[trigger] r.by_rule[i].rule_id@ == (
            #[trigger] r.issues@[k]).rule_id@;
        assert(r.by_rule@[i].rule_id@ == id);
    }
}

/// Two well-formed results with the same issues have the same totals and
/// tally the same rule ids with the same counts, so a result is determined by
/// its issue list.
pub proof fn law_totals_determined(x: AnalysisResult, y: AnalysisResult, id: Seq<char>)
    requires
        x.wf(),
        y.wf(),
        x.issues@ == y.issues@,
    ensures
        x.issue_count == y.issue_count,
        x.error_count == y.error_count,
        x.warning_count == y.warning_count,
        x.info_count == y.info_count,
        has_tally(x, id) == has_tally(y, id),
        rule_issue_count(x.issues@, id) == rule_issue_count(y.issues@, id),
{
    lemma_tally_iff_issue(x, id);
    lemma_tally_iff_issue(y, id);
}

/// Merging is associative on results: if `x` holds the issues of merging `c`
/// into the merge of `a` and `b`, and `z` those of merging the merge of `b`
/// and `c` into `a`, they have the same issues, totals and rule tallies.
pub proof fn law_merge_associative_results(
    a: Seq<Issue>,
    b: Seq<Issue>,
    c: Seq<Issue>,
    x: AnalysisResult,
    z: AnalysisResult,
    id: Seq<char>,
)
    requires
        x.wf(),
        z.wf(),
        x.issues@ == merged(merged(a, b), c),
        z.issues@ == merged(a, merged(b, c)),
    ensures
        x.issues@ == z.issues@,
        x.issue_count == z.issue_count,
        x.error_count == z.error_count,
        x.warning_count == z.warning_count,
        x.info_count == z.info_count,
        has_tally(x, id) == has_tally(z, id),
        rule_issue_count(x.issues@, id) == rule_issue_count(z.issues@, id),
{
    law_merge_associative(a, b, c);
    law_totals_determined(x, z, id);
}

} // verus!
