//! Audio sample rates, sound-effect length and file size.

use vstd::prelude::*;
use vstd::string::*;
use crate::analysis::{Issue, Severity};
use crate::asset::{AssetInfo, AssetType};
use crate::text::{decimal, decimal_wide, decimal_text, to_lower, lower_of, contains, has_infix};
use crate::rules::format::{megabytes, megabytes_text, new_issue, issue_head, text_is};

verus! {

/// Thresholds of the audio rule.
#[derive(Debug, Clone)]
pub struct AudioConfig {
    pub enabled: bool,
    /// Sample rates that raise no issue.
    pub allowed_sample_rates: Vec<u32>,
    /// Longest sound effect, in milliseconds.
    pub max_sfx_duration_ms: u64,
    /// Largest allowed file size in bytes.
    pub max_file_size: u64,
    /// Report sound effects with more than one channel.
    pub prefer_mono_for_sfx: bool,
}

pub const DEFAULT_MAX_SFX_DURATION_MS: u64 = 30000;

pub const DEFAULT_AUDIO_MAX_FILE_SIZE: u64 = 20971520;

impl Default for AudioConfig {
    fn default() -> (r: AudioConfig)
        ensures
            r.enabled,
            r.allowed_sample_rates@ == seq![44100u32, 48000u32],
            r.max_sfx_duration_ms == 30000,
            r.max_file_size == 20971520,
            !r.prefer_mono_for_sfx,
    {
        AudioConfig {
            enabled: true,
            allowed_sample_rates: vec![44100, 48000],
            max_sfx_duration_ms: DEFAULT_MAX_SFX_DURATION_MS,
            max_file_size: DEFAULT_AUDIO_MAX_FILE_SIZE,
            prefer_mono_for_sfx: false,
        }
    }
}

impl AudioConfig {
    /// Whether two configurations hold the same settings.
    pub open spec fn same_as(&self, o: AudioConfig) -> bool {
        &&& self.enabled == o.enabled
        &&& self.allowed_sample_rates@ == o.allowed_sample_rates@
        &&& self.max_sfx_duration_ms == o.max_sfx_duration_ms
        &&& self.max_file_size == o.max_file_size
        &&& self.prefer_mono_for_sfx == o.prefer_mono_for_sfx
    }

    /// A field-by-field copy of this configuration.
    pub fn copy(&self) -> (r: AudioConfig)
        ensures
            r.same_as(*self),
    {
        let mut rates: Vec<u32> = Vec::new();
        let mut i: usize = 0;
        while i < self.allowed_sample_rates.len()
            invariant
                0 <= i <= self.allowed_sample_rates.len(),
                rates@ == self.allowed_sample_rates@.subrange(0, i as int),
            decreases self.allowed_sample_rates.len() - i,
        {
            rates.push(self.allowed_sample_rates[i]);
            i = i + 1;
        }
        assert(rates@ =~= self.allowed_sample_rates@);
        AudioConfig {
            enabled: self.enabled,
            allowed_sample_rates: rates,
            max_sfx_duration_ms: self.max_sfx_duration_ms,
            max_file_size: self.max_file_size,
            prefer_mono_for_sfx: self.prefer_mono_for_sfx,
        }
    }
}

/// The audio rule.
#[derive(Debug, Clone)]
pub struct AudioRule {
    pub config: AudioConfig,
}

/// Whether a file name suggests a sound effect.
pub open spec fn is_sfx_name(name: Seq<char>) -> bool {
    let l = lower_of(name);
    has_infix(l, "sfx"@) || has_infix(l, "sound"@) || has_infix(l, "effect"@) || has_infix(
        l,
        "hit"@,
    ) || has_infix(l, "click"@) || has_infix(l, "ui"@)
}

/// Whether a clip of `frames` frames at `rate` frames per second lasts longer
/// than `max_ms` milliseconds (a rate of 0 makes any non-empty clip endless).
pub open spec fn longer_than(frames: u64, rate: u32, max_ms: u64) -> bool {
    frames as int * 1000 > max_ms as int * rate as int
}

/// The first audio check that fails.
#[derive(Debug, Clone, Copy, PartialEq, Eq, Structural)]
pub enum AudioFinding {
    SampleRate(u32),
    SfxDuration(u64, u32),
    StereoSfx,
    FileTooLarge,
}

/// The first failing check for an asset named `name` of `size` bytes.
pub open spec fn audio_finding(
    c: AudioConfig,
    name: Seq<char>,
    size: u64,
    m: crate::asset::AssetMetadata,
) -> Option<AudioFinding> {
    if m.sample_rate.is_some() && !c.allowed_sample_rates@.contains(m.sample_rate.unwrap()) {
        Some(AudioFinding::SampleRate(m.sample_rate.unwrap()))
    } else if m.duration_frames.is_some() && m.sample_rate.is_some() && is_sfx_name(name)
        && longer_than(m.duration_frames.unwrap(), m.sample_rate.unwrap(), c.max_sfx_duration_ms) {
        Some(AudioFinding::SfxDuration(m.duration_frames.unwrap(), m.sample_rate.unwrap()))
    } else if c.prefer_mono_for_sfx && m.channels.is_some() && is_sfx_name(name)
        && m.channels.unwrap() > 1 {
        Some(AudioFinding::StereoSfx)
    } else if size > c.max_file_size {
        Some(AudioFinding::FileTooLarge)
    } else {
        None
    }
}

/// A list of sample rates written as `[a, b, c]`.
pub open spec fn rates_text(s: Seq<u32>) -> Seq<char> {
    "["@ + rates_items(s) + "]"@
}

/// The items of a list separated by `, `.
pub open spec fn rates_items(s: Seq<u32>) -> Seq<char>
    decreases s.len(),
{
    if s.len() == 0 {
        seq![]
    } else if s.len() == 1 {
        decimal_text(s[0] as nat)
    } else {
        rates_items(s.drop_last()) + ", "@ + decimal_text(s.last() as nat)
    }
}

/// A duration of `frames` frames at `rate` per second, in seconds rounded
/// half up to one decimal; `inf` at a rate of 0.
pub open spec fn seconds_text(frames: u64, rate: u32) -> Seq<char> {
    if rate == 0 {
        "inf"@
    } else {
        let tenths = (frames as nat * 10 + rate as nat / 2) / rate as nat;
        decimal_text(tenths / 10) + "."@ + decimal_text(tenths % 10)
    }
}

/// Milliseconds as whole seconds, rounded half up.
pub open spec fn whole_seconds(ms: u64) -> nat {
    (ms as nat + 500) / 1000
}

/// Whether `i` is the issue the audio rule raises for finding `f`.
pub open spec fn audio_issue(c: AudioConfig, f: AudioFinding, size: u64, path: Seq<char>, i: Issue) -> bool {
    match f {
        AudioFinding::SampleRate(rate) => {
            &&& issue_head(
                i,
                "audio.sample_rate"@,
                "Non-Standard Sample Rate"@,
                Severity::Info,
                false,
                path,
            )
            &&& i.message@ == "Audio sample rate "@ + decimal_text(rate as nat)
                + " Hz is not standard (expected "@ + rates_text(c.allowed_sample_rates@) + ")"@
            &&& if c.allowed_sample_rates@.len() > 0 {
                text_is(
                    i.suggestion,
                    "Consider resampling to "@ + decimal_text(c.allowed_sample_rates@[0] as nat)
                        + " Hz"@,
                )
            } else {
                i.suggestion.is_none()
            }
        },
        AudioFinding::SfxDuration(frames, rate) => {
            &&& issue_head(
                i,
                "audio.sfx_duration"@,
                "Long Sound Effect"@,
                Severity::Warning,
                false,
                path,
            )
            &&& i.message@ == "Sound effect is "@ + seconds_text(frames, rate)
                + "s long, maximum recommended is "@ + decimal_text(
                whole_seconds(c.max_sfx_duration_ms),
            ) + "s"@
            &&& text_is(i.suggestion, "Long audio should be music/ambient, not SFX"@)
        },
        AudioFinding::StereoSfx => {
            &&& issue_head(
                i,
                "audio.stereo_sfx"@,
                "Stereo Sound Effect"@,
                Severity::Info,
                false,
                path,
            )
            &&& i.message@ == "Sound effect is stereo, mono is recommended for 3D audio"@
            &&& text_is(i.suggestion, "Convert to mono for better 3D spatialization"@)
        },
        AudioFinding::FileTooLarge => {
            &&& issue_head(
                i,
                "audio.file_size"@,
                "Large Audio File"@,
                Severity::Warning,
                false,
                path,
            )
            &&& i.message@ == "Audio file size "@ + megabytes_text(size as nat)
                + " MB exceeds maximum "@ + megabytes_text(c.max_file_size as nat) + " MB"@
            &&& text_is(i.suggestion, "Consider using compressed format (OGG/MP3)"@)
        },
    }
}

/// What the audio rule reports for `a`: nothing without metadata, else the
/// issue of the first failing check, if any.
pub open spec fn audio_outcome(c: AudioConfig, a: AssetInfo, r: Option<Issue>) -> bool {
    match a.metadata {
        Some(m) => match audio_finding(c, a.name@, a.size, m) {
            Some(f) => r.is_some() && audio_issue(c, f, a.size, a.path@, r.unwrap()),
            None => r.is_none(),
        },
        None => r.is_none(),
    }
}

fn rates_list(s: &Vec<u32>) -> (r: String)
    ensures
        r@ == rates_text(s@),
{
    let mut out = String::from_str("[");
    let mut i: usize = 0;
    while i < s.len()
        invariant
            0 <= i <= s.len(),
            out@ == "["@ + rates_items(s@.subrange(0, i as int)),
        decreases s.len() - i,
    {
        let d = decimal(s[i] as u64);
        proof {
            let t = s@.subrange(0, i + 1);
            assert(t.drop_last() =~= s@.subrange(0, i as int));
            assert(t.last() == s@[i as int]);
            if i == 0 {
                assert(s@.subrange(0, 0) =~= Seq::<u32>::empty());
                assert(t.len() == 1 && t[0] == s@[0]);
            }
        }
        if i > 0 {
            out.append(", ");
        }
        out.append(d.as_str());
        proof {
            if i == 0 {
                assert("["@ + seq![] =~= "["@);
            }
        }
        i = i + 1;
    }
    assert(s@.subrange(0, s@.len() as int) =~= s@);
    out.append("]");
    out
}

fn rate_allowed(rates: &Vec<u32>, rate: u32) -> (r: bool)
    ensures
        r == rates@.contains(rate),
{
    let mut i: usize = 0;
    while i < rates.len()
        invariant
            0 <= i <= rates.len(),
            forall|j: int| 0 <= j < i ==> rates@[j] != rate,
        decreases rates.len() - i,
    {
        if rates[i] == rate {
            return true;
        }
        i = i + 1;
    }
    false
}

fn seconds(frames: u64, rate: u32) -> (r: String)
    ensures
        r@ == seconds_text(frames, rate),
{
    if rate == 0 {
        return String::from_str("inf");
    }
    let tenths: u128 = (frames as u128 * 10 + (rate / 2) as u128) / rate as u128;
    let ghost num: int = frames as int * 10 + (rate / 2) as int;
    assert(tenths as int == num / (rate as int));
    assert(num / (rate as int) <= num) by (nonlinear_arith)
        requires
            rate as int >= 1,
            num >= 0,
    ;
    let whole = decimal_wide(tenths / 10);
    let mut s = whole;
    s.append(".");
    let frac = decimal_wide(tenths % 10);
    s.append(frac.as_str());
    s
}

impl AudioRule {
    pub fn new(config: AudioConfig) -> (r: AudioRule)
        ensures
            r.config == config,
    {
        AudioRule { config }
    }

    pub fn id(&self) -> (r: &'static str)
        ensures
            r@ == "audio"@,
    {
        "audio"
    }

    pub fn name(&self) -> (r: &'static str)
        ensures
            r@ == "Audio Standards"@,
    {
        "Audio Standards"
    }

    /// The rule looks at audio only.
    pub fn applies_to(&self, asset: &AssetInfo) -> (r: bool)
        ensures
            r == (asset.asset_type == AssetType::Audio),
    {
        asset.asset_type == AssetType::Audio
    }

    /// Whether the asset's name suggests a sound effect.
    pub fn is_likely_sfx(&self, asset: &AssetInfo) -> (r: bool)
        ensures
            r == is_sfx_name(asset.name@),
    {
        let lower = to_lower(asset.name.as_str());
        let l = lower.as_str();
        contains(l, "sfx") || contains(l, "sound") || contains(l, "effect") || contains(l, "hit")
            || contains(l, "click") || contains(l, "ui")
    }

    /// Runs the audio checks in order and reports the first that fails.
    pub fn check(&self, asset: &AssetInfo) -> (r: Option<Issue>)
        ensures
            audio_outcome(self.config, *asset, r),
    {
        let m = match asset.metadata {
            Some(m) => m,
            None => return None,
        };
        let c = &self.config;
        if let Some(rate) = m.sample_rate {
            if !rate_allowed(&c.allowed_sample_rates, rate) {
                let mut msg = String::from_str("Audio sample rate ");
                let a = decimal(rate as u64);
                msg.append(a.as_str());
                msg.append(" Hz is not standard (expected ");
                let b = rates_list(&c.allowed_sample_rates);
                msg.append(b.as_str());
                msg.append(")");
                let sug = if c.allowed_sample_rates.len() > 0 {
                    let mut s = String::from_str("Consider resampling to ");
                    let d = decimal(c.allowed_sample_rates[0] as u64);
                    s.append(d.as_str());
                    s.append(" Hz");
                    Some(s)
                } else {
                    None
                };
                return Some(
                    new_issue(
                        "audio.sample_rate",
                        "Non-Standard Sample Rate",
                        Severity::Info,
                        msg,
                        &asset.path,
                        sug,
                        false,
                    ),
                );
            }
        }
        if let Some(frames) = m.duration_frames {
            if let Some(rate) = m.sample_rate {
                let f = frames as u128;
                let mx = c.max_sfx_duration_ms as u128;
                let rt = rate as u128;
                assert(f * 1000 <= 0xffff_ffff_ffff_ffffu128 * 1000) by (nonlinear_arith)
                    requires
                        f <= 0xffff_ffff_ffff_ffffu128,
                ;
                assert(mx * rt <= 0xffff_ffff_ffff_ffffu128 * 0xffff_ffffu128) by (nonlinear_arith)
                    requires
                        mx <= 0xffff_ffff_ffff_ffffu128,
                        rt <= 0xffff_ffffu128,
                ;
                if self.is_likely_sfx(asset) && f * 1000 > mx * rt {
                    let mut msg = String::from_str("Sound effect is ");
                    let a = seconds(frames, rate);
                    msg.append(a.as_str());
                    msg.append("s long, maximum recommended is ");
                    let secs = c.max_sfx_duration_ms / 1000 + if c.max_sfx_duration_ms % 1000 >= 500 {
                        1
                    } else {
                        0
                    };
                    let b = decimal(secs);
                    msg.append(b.as_str());
                    msg.append("s");
                    return Some(
                        new_issue(
                            "audio.sfx_duration",
                            "Long Sound Effect",
                            Severity::Warning,
                            msg,
                            &asset.path,
                            Some(String::from_str("Long audio should be music/ambient, not SFX")),
                            false,
                        ),
                    );
                }
            }
        }
        if c.prefer_mono_for_sfx {
            if let Some(ch) = m.channels {
                if self.is_likely_sfx(asset) && ch > 1 {
                    return Some(
                        new_issue(
                            "audio.stereo_sfx",
                            "Stereo Sound Effect",
                            Severity::Info,
                            String::from_str(
                                "Sound effect is stereo, mono is recommended for 3D audio",
                            ),
                            &asset.path,
                            Some(String::from_str("Convert to mono for better 3D spatialization")),
                            false,
                        ),
                    );
                }
            }
        }
        if asset.size > c.max_file_size {
            let mut msg = String::from_str("Audio file size ");
            let a = megabytes(asset.size);
            msg.append(a.as_str());
            msg.append(" MB exceeds maximum ");
            let b = megabytes(c.max_file_size);
            msg.append(b.as_str());
            msg.append(" MB");
            return Some(
                new_issue(
                    "audio.file_size",
                    "Large Audio File",
                    Severity::Warning,
                    msg,
                    &asset.path,
                    Some(String::from_str("Consider using compressed format (OGG/MP3)")),
                    false,
                ),
            );
        }
        None
    }
}

} // verus!
