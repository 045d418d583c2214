//! The rule families, the configuration that selects them, and the analyzer
//! that runs them over a scan.

pub mod format;
pub mod texture;
pub mod model;
pub mod audio;
pub mod naming;

use vstd::prelude::*;
use crate::analysis::{AnalysisResult, Issue};
use crate::asset::AssetInfo;
use crate::scan::ScanResult;
use self::naming::{NamingConfig, NamingRule, naming_outcome};
use self::texture::{TextureConfig, TextureRule, texture_outcome};
use self::model::{ModelConfig, ModelRule, model_outcome};
use self::audio::{AudioConfig, AudioRule, audio_outcome};

verus! {

/// One configuration record per rule family.
#[derive(Debug, Clone)]
pub struct RuleConfig {
    pub naming: NamingConfig,
    pub texture: TextureConfig,
    pub model: ModelConfig,
    pub audio: AudioConfig,
}

impl Default for RuleConfig {
    fn default() -> (r: RuleConfig)
        ensures
            r.naming.enabled && r.texture.enabled && r.model.enabled && r.audio.enabled,
            r.texture == TextureConfig::spec_default(),
            r.model == ModelConfig::spec_default(),
    {
        RuleConfig {
            naming: NamingConfig::default(),
            texture: TextureConfig::default(),
            model: ModelConfig::default(),
            audio: AudioConfig::default(),
        }
    }
}

/// A rule of one of the four families.
#[derive(Debug, Clone)]
pub enum Rule {
    Naming(NamingRule),
    Texture(TextureRule),
    Model(ModelRule),
    Audio(AudioRule),
}

impl Rule {
    /// Whether the rule looks at asset `a`.
    pub open spec fn spec_applies_to(&self, a: AssetInfo) -> bool {
        match self {
            Rule::Naming(_) => true,
            Rule::Texture(_) => a.asset_type == crate::asset::AssetType::Texture,
            Rule::Model(_) => a.asset_type == crate::asset::AssetType::Model,
            Rule::Audio(_) => a.asset_type == crate::asset::AssetType::Audio,
        }
    }

    /// Whether `r` is what the rule's check reports for `a`.
    pub open spec fn outcome(&self, a: AssetInfo, r: Option<Issue>) -> bool {
        match self {
            Rule::Naming(n) => naming_outcome(n.config, a, r),
            Rule::Texture(t) => texture_outcome(t.config, a, r),
            Rule::Model(m) => model_outcome(m.config, a, r),
            Rule::Audio(u) => audio_outcome(u.config, a, r),
        }
    }

    pub fn id(&self) -> (r: &'static str)
        ensures
            r@ == match self {
                Rule::Naming(_) => "naming"@,
                Rule::Texture(_) => "texture"@,
                Rule::Model(_) => "model"@,
                Rule::Audio(_) => "audio"@,
            },
    {
        match self {
            Rule::Naming(n) => n.id(),
            Rule::Texture(t) => t.id(),
            Rule::Model(m) => m.id(),
            Rule::Audio(u) => u.id(),
        }
    }

    pub fn name(&self) -> (r: &'static str)
        ensures
            r@ == match self {
                Rule::Naming(_) => "Naming Convention"@,
                Rule::Texture(_) => "Texture Standards"@,
                Rule::Model(_) => "Model Standards"@,
                Rule::Audio(_) => "Audio Standards"@,
            },
    {
        match self {
            Rule::Naming(n) => n.name(),
            Rule::Texture(t) => t.name(),
            Rule::Model(m) => m.name(),
            Rule::Audio(u) => u.name(),
        }
    }

    pub fn applies_to(&self, asset: &AssetInfo) -> (r: bool)
        ensures
            r == self.spec_applies_to(*asset),
    {
        match self {
            Rule::Naming(n) => n.applies_to(asset),
            Rule::Texture(t) => t.applies_to(asset),
            Rule::Model(m) => m.applies_to(asset),
            Rule::Audio(u) => u.applies_to(asset),
        }
    }

    pub fn check(&self, asset: &AssetInfo) -> (r: Option<Issue>)
        ensures
            self.outcome(*asset, r),
    {
        match self {
            Rule::Naming(n) => n.check(asset),
            Rule::Texture(t) => t.check(asset),
            Rule::Model(m) => m.check(asset),
            Rule::Audio(u) => u.check(asset),
        }
    }
}

/// The issues of the present entries of `outs`, in order.
pub open spec fn present(outs: Seq<Option<Issue>>) -> Seq<Issue>
    decreases outs.len(),
{
    if outs.len() == 0 {
        seq![]
    } else {
        present(outs.drop_last()) + match outs.last() {
            Some(i) => seq![i],
            None => seq![],
        }
    }
}

/// Whether `outs` holds, for each rule in order, what it reports for `a`:
/// its check's outcome where it applies, nothing where it does not.
pub open spec fn rule_outcomes(rules: Seq<Rule>, a: AssetInfo, outs: Seq<Option<Issue>>) -> bool {
    &&& outs.len() == rules.len()
    &&& forall|k: int|
        0 <= k < rules.len() ==> if rules[k].spec_applies_to(a) {
            rules[k].outcome(a, #[trigger] outs[k])
        } else {
            outs[k].is_none()
        }
}

/// Whether `issues` is what the rules report for `a`, in rule order.
pub open spec fn asset_issues(rules: Seq<Rule>, a: AssetInfo, issues: Seq<Issue>) -> bool {
    exists|outs: Seq<Option<Issue>>| rule_outcomes(rules, a, outs) && issues == present(outs)
}

proof fn lemma_present_len(outs: Seq<Option<Issue>>)
    ensures
        present(outs).len() <= outs.len(),
    decreases outs.len(),
{
    if outs.len() > 0 {
        lemma_present_len(outs.drop_last());
    }
}

/// Runs every enabled rule family over assets.
#[derive(Debug, Clone)]
pub struct Analyzer {
    pub rules: Vec<Rule>,
}

impl Analyzer {
    /// An analyzer with no rules.
    pub fn new() -> (r: Analyzer)
        ensures
            r.rules@.len() == 0,
    {
        Analyzer { rules: Vec::new() }
    }

    /// An analyzer with one rule per enabled family, in the order naming,
    /// texture, model, audio.
    pub fn with_config(config: &RuleConfig) -> (r: Analyzer)
        ensures
            r.rules@.len() == config.naming.enabled as int + config.texture.enabled as int
                + config.model.enabled as int + config.audio.enabled as int,
            forall|k: int|
                0 <= k < r.rules@.len() ==> match #[trigger] r.rules@[k] {
                    Rule::Naming(n) => config.naming.enabled && n.config.same_as(config.naming) && k == 0,
                    Rule::Texture(t) => config.texture.enabled && t.config == config.texture && k
                        == config.naming.enabled as int,
                    Rule::Model(m) => config.model.enabled && m.config == config.model && k
                        == config.naming.enabled as int + config.texture.enabled as int,
                    Rule::Audio(u) => config.audio.enabled && u.config.same_as(config.audio) && k
                        == config.naming.enabled as int + config.texture.enabled as int
                        + config.model.enabled as int,
                },
    {
        let mut analyzer = Analyzer::new();
        if config.naming.enabled {
            analyzer.add_rule(Rule::Naming(NamingRule::new(config.naming.copy())));
        }
        if config.texture.enabled {
            analyzer.add_rule(Rule::Texture(TextureRule::new(config.texture)));
        }
        if config.model.enabled {
            analyzer.add_rule(Rule::Model(ModelRule::new(config.model)));
        }
        if config.audio.enabled {
            analyzer.add_rule(Rule::Audio(AudioRule::new(config.audio.copy())));
        }
        analyzer
    }

    /// Appends a rule; it runs after the ones already held.
    pub fn add_rule(&mut self, rule: Rule)
        ensures
            final(self).rules@ == old(self).rules@.push(rule),
    {
        self.rules.push(rule);
    }

    /// The issues that the applicable rules raise for one asset, at most one
    /// per rule, in rule order.
    pub fn analyze_asset(&self, asset: &AssetInfo) -> (r: Vec<Issue>)
        ensures
            asset_issues(self.rules@, *asset, r@),
            r@.len() <= self.rules@.len(),
    {
        let mut issues: Vec<Issue> = Vec::new();
        let ghost mut outs: Seq<Option<Issue>> = seq![];
        let mut k: usize = 0;
        while k < self.rules.len()
            invariant
                0 <= k <= self.rules.len(),
                outs.len() == k,
                rule_outcomes(self.rules@.subrange(0, k as int), *asset, outs),
                issues@ == present(outs),
            decreases self.rules.len() - k,
        {
            let rule = &self.rules[k];
            let ghost prev = outs;
            if rule.applies_to(asset) {
                let out = rule.check(asset);
                proof {
                    outs = outs.push(out);
                }
                match out {
                    Some(issue) => issues.push(issue),
                    None => {},
                }
            } else {
                proof {
                    outs = outs.push(None);
                }
            }
            proof {
                assert(outs.drop_last() =~= prev);
                let rs = self.rules@.subrange(0, k + 1);
                assert forall|j: int| 0 <= j < rs.len() implies if rs[j].spec_applies_to(*asset) {
                    rs[j].outcome(*asset, #[trigger] outs[j])
                } else {
                    outs[j].is_none()
                } by {
                    if j < k {
                        assert(rs[j] == self.rules@.subrange(0, k as int)[j]);
                        assert(outs[j] == prev[j]);
                    }
                }
            }
            k = k + 1;
        }
        assert(self.rules@.subrange(0, k as int) =~= self.rules@);
        proof {
            lemma_present_len(outs);
        }
        issues
    }

    /// Runs the rules over every asset of a scan, asset by asset.
    pub fn analyze(&self, scan_result: &ScanResult) -> (r: AnalysisResult)
        requires
            scan_result.assets@.len() * self.rules@.len() < usize::MAX,
        ensures
            r.wf(),
            exists|parts: Seq<Seq<Issue>>|
                parts.len() == scan_result.assets@.len() && (forall|i: int|
                    0 <= i < parts.len() ==> asset_issues(
                        self.rules@,
                        scan_result.assets@[i],
                        #[trigger] parts[i],
                    )) && r.issues@ == parts.flatten(),
    {
        let assets = &scan_result.assets;
        let mut result = AnalysisResult::new();
        let ghost mut parts: Seq<Seq<Issue>> = seq![];
        let n = self.rules.len();
        let mut i: usize = 0;
        while i < assets.len()
            invariant
                0 <= i <= assets.len(),
                n == self.rules@.len(),
                assets.len() * n < usize::MAX,
                result.wf(),
                parts.len() == i,
                forall|j: int| 0 <= j < i ==> asset_issues(self.rules@, assets@[j], #[trigger] parts[j]),
                result.issues@ == parts.flatten(),
                result.issues@.len() <= i * n,
            decreases assets.len() - i,
        {
            let found = self.analyze_asset(&assets[i]);
            let ghost before = result.issues@;
            let mut k: usize = 0;
            while k < found.len()
                invariant
                    0 <= k <= found.len(),
                    found@.len() <= n,
                    i < assets.len(),
                    assets.len() * n < usize::MAX,
                    before.len() <= i * n,
                    result.wf(),
                    result.issues@ == before + found@.subrange(0, k as int),
                decreases found.len() - k,
            {
                assert(i * n + n <= assets.len() * n) by (nonlinear_arith)
                    requires
                        i < assets.len(),
                ;
                result.add_issue(found[k].copy());
                assert(found@.subrange(0, k + 1) =~= found@.subrange(0, k as int).push(found@[k as int]));
                k = k + 1;
            }
            assert(found@.subrange(0, k as int) =~= found@);
            proof {
                let old_parts = parts;
                parts = parts.push(found@);
                assert(parts.drop_last() =~= old_parts);
                old_parts.lemma_flatten_push(found@);
                assert((i + 1) * n == i * n + n) by (nonlinear_arith);
            }
            i = i + 1;
        }
        result
    }

    /// Reports exact duplicates among the scanned assets, given the content
    /// digest of each asset (`None` where the file could not be read).
    pub fn find_duplicates(&self, scan_result: &ScanResult, digests: &Vec<Option<String>>) -> (r: AnalysisResult)
        requires
            digests@.len() == scan_result.assets@.len(),
        ensures
            r.wf(),
            crate::duplicate::duplicate_report(scan_result.assets@, digests@, r.issues@),
    {
        crate::duplicate::find_duplicates(&scan_result.assets, digests)
    }
}

impl Default for Analyzer {
    fn default() -> (r: Analyzer)
        ensures
            r.rules@.len() == 0,
    {
        Analyzer::new()
    }
}

} // verus!
