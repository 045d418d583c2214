//! Texture dimensions and file size.

use vstd::prelude::*;
use vstd::arithmetic::power2::{pow2, lemma2_to64, lemma_pow2_strictly_increases};
use vstd::string::*;
use crate::analysis::{Issue, Severity};
use crate::asset::{AssetInfo, AssetType};
use crate::text::{decimal, decimal_text};
use crate::rules::format::{megabytes, megabytes_text, new_issue, issue_head, text_is};

verus! {

/// Thresholds of the texture rule.
#[derive(Debug, Clone, Copy)]
pub struct TextureConfig {
    pub enabled: bool,
    /// Require power-of-two dimensions.
    pub require_pot: bool,
    /// Largest allowed width or height.
    pub max_size: u32,
    /// Smallest allowed width or height.
    pub min_size: u32,
    /// Report textures that are not square.
    pub warn_non_square: bool,
    /// Largest allowed file size in bytes.
    pub max_file_size: u64,
}

pub const DEFAULT_TEXTURE_MAX_SIZE: u32 = 4096;

pub const DEFAULT_TEXTURE_MIN_SIZE: u32 = 4;

pub const DEFAULT_TEXTURE_MAX_FILE_SIZE: u64 = 10485760;

impl TextureConfig {
    pub open spec fn spec_default() -> TextureConfig {
        TextureConfig {
            enabled: true,
            require_pot: true,
            max_size: 4096,
            min_size: 4,
            warn_non_square: false,
            max_file_size: 10485760,
        }
    }
}

impl Default for TextureConfig {
    fn default() -> (r: TextureConfig)
        ensures
            r == TextureConfig::spec_default(),
    {
        TextureConfig {
            enabled: true,
            require_pot: true,
            max_size: DEFAULT_TEXTURE_MAX_SIZE,
            min_size: DEFAULT_TEXTURE_MIN_SIZE,
            warn_non_square: false,
            max_file_size: DEFAULT_TEXTURE_MAX_FILE_SIZE,
        }
    }
}

/// Whether `n` is a power of two.
pub open spec fn is_pot(n: int) -> bool {
    exists|k: nat| n == pow2(k)
}

/// The texture rule.
#[derive(Debug, Clone, Copy)]
pub struct TextureRule {
    pub config: TextureConfig,
}

proof fn lemma_pot_u32(n: u32)
    ensures
        is_pot(n as int) <==> (n > 0 && n & vstd::prelude::sub(n, 1) == 0),
{
    lemma2_to64();
    let b = n > 0 && n & vstd::prelude::sub(n, 1) == 0;
    assert((n > 0 && n & vstd::prelude::sub(n, 1) == 0) <==> (n == 0x1 || n == 0x2 || n == 0x4 || n == 0x8 || n == 0x10 || n == 0x20 || n
        == 0x40 || n == 0x80 || n == 0x100 || n == 0x200 || n == 0x400 || n == 0x800 || n
        == 0x1000 || n == 0x2000 || n == 0x4000 || n == 0x8000 || n == 0x10000 || n == 0x20000
        || n == 0x40000 || n == 0x80000 || n == 0x100000 || n == 0x200000 || n == 0x400000 || n
        == 0x800000 || n == 0x1000000 || n == 0x2000000 || n == 0x4000000 || n == 0x8000000 || n
        == 0x10000000 || n == 0x20000000 || n == 0x40000000 || n == 0x80000000)) by (bit_vector);
    if b {
        if n == 0x1 { assert(n == pow2(0)); }
        else if n == 0x2 { assert(n == pow2(1)); }
        else if n == 0x4 { assert(n == pow2(2)); }
        else if n == 0x8 { assert(n == pow2(3)); }
        else if n == 0x10 { assert(n == pow2(4)); }
        else if n == 0x20 { assert(n == pow2(5)); }
        else if n == 0x40 { assert(n == pow2(6)); }
        else if n == 0x80 { assert(n == pow2(7)); }
        else if n == 0x100 { assert(n == pow2(8)); }
        else if n == 0x200 { assert(n == pow2(9)); }
        else if n == 0x400 { assert(n == pow2(10)); }
        else if n == 0x800 { assert(n == pow2(11)); }
        else if n == 0x1000 { assert(n == pow2(12)); }
        else if n == 0x2000 { assert(n == pow2(13)); }
        else if n == 0x4000 { assert(n == pow2(14)); }
        else if n == 0x8000 { assert(n == pow2(15)); }
        else if n == 0x10000 { assert(n == pow2(16)); }
        else if n == 0x20000 { assert(n == pow2(17)); }
        else if n == 0x40000 { assert(n == pow2(18)); }
        else if n == 0x80000 { assert(n == pow2(19)); }
        else if n == 0x100000 { assert(n == pow2(20)); }
        else if n == 0x200000 { assert(n == pow2(21)); }
        else if n == 0x400000 { assert(n == pow2(22)); }
        else if n == 0x800000 { assert(n == pow2(23)); }
        else if n == 0x1000000 { assert(n == pow2(24)); }
        else if n == 0x2000000 { assert(n == pow2(25)); }
        else if n == 0x4000000 { assert(n == pow2(26)); }
        else if n == 0x8000000 { assert(n == pow2(27)); }
        else if n == 0x10000000 { assert(n == pow2(28)); }
        else if n == 0x20000000 { assert(n == pow2(29)); }
        else if n == 0x40000000 { assert(n == pow2(30)); }
        else { assert(n == pow2(31)); }
    }
    if is_pot(n as int) {
        let k = choose|k: nat| n as int == pow2(k);
        if k >= 32 {
            if k > 32 {
                lemma_pow2_strictly_increases(32, k);
            }
            assert(false);
        }
        assert(k < 32);
        assert(k == 0 || k == 1 || k == 2 || k == 3 || k == 4 || k == 5 || k == 6 || k == 7 || k
            == 8 || k == 9 || k == 10 || k == 11 || k == 12 || k == 13 || k == 14 || k == 15 || k
            == 16 || k == 17 || k == 18 || k == 19 || k == 20 || k == 21 || k == 22 || k == 23 || k
            == 24 || k == 25 || k == 26 || k == 27 || k == 28 || k == 29 || k == 30 || k == 31);
    }
}

impl TextureRule {
    pub fn new(config: TextureConfig) -> (r: TextureRule)
        ensures
            r.config == config,
    {
        TextureRule { config }
    }

    /// Whether `n` is a power of two, by the bit test `n > 0 && n & (n - 1) == 0`.
    pub fn is_power_of_two(n: u32) -> (r: bool)
        ensures
            r == is_pot(n as int),
    {
        proof {
            lemma_pot_u32(n);
        }
        n > 0 && (n & (n - 1)) == 0
    }
}

/// Whether `r` is the smallest power of two not below `n` (1 for 0); above
/// 2^31 no such `u32` exists and `r` is 0.
pub open spec fn is_next_pot(n: u32, r: u32) -> bool {
    &&& n == 0 ==> r == 1
    &&& 1 <= n <= 0x8000_0000 ==> is_pot(r as int) && n <= r && r < 2 * n
    &&& n > 0x8000_0000 ==> r == 0
}

/// The smallest power of two not below `n`, by filling the bits below the
/// highest set bit of `n - 1` and adding one.
pub fn next_power_of_two(n: u32) -> (r: u32)
    ensures
        is_next_pot(n, r),
{
    if n == 0 {
        return 1;
    }
    let mut v = n - 1;
    v = v | (v >> 1u32);
    v = v | (v >> 2u32);
    v = v | (v >> 4u32);
    v = v | (v >> 8u32);
    v = v | (v >> 16u32);
    let r = v.wrapping_add(1);
    proof {
        let v0 = vstd::prelude::sub(n, 1);
        let v1 = v0 | (v0 >> 1u32);
        let v2 = v1 | (v1 >> 2u32);
        let v3 = v2 | (v2 >> 4u32);
        let v4 = v3 | (v3 >> 8u32);
        let v5 = v4 | (v4 >> 16u32);
        assert(v == v5);
        assert(1 <= n ==> (n > 0x8000_0000 <==> v5 == 0xffff_ffffu32)) by (bit_vector)
            requires
                v5 == (v4 | (v4 >> 16u32)),
                v4 == (v3 | (v3 >> 8u32)),
                v3 == (v2 | (v2 >> 4u32)),
                v2 == (v1 | (v1 >> 2u32)),
                v1 == (v0 | (v0 >> 1u32)),
                v0 == vstd::prelude::sub(n, 1),
        ;
        if n <= 0x8000_0000 {
            let w = vstd::prelude::add(v5, 1);
            assert(1 <= n <= 0x8000_0000 ==> (w > 0 && w & vstd::prelude::sub(w, 1) == 0 && n <= w && (w >> 1u32)
                < n)) by (bit_vector)
                requires
                    w == vstd::prelude::add(v5, 1),
                    v5 == (v4 | (v4 >> 16u32)),
                    v4 == (v3 | (v3 >> 8u32)),
                    v3 == (v2 | (v2 >> 4u32)),
                    v2 == (v1 | (v1 >> 2u32)),
                    v1 == (v0 | (v0 >> 1u32)),
                    v0 == vstd::prelude::sub(n, 1),
            ;
            assert(r == w);
            assert((w >> 1u32) == w / 2) by (bit_vector);
            lemma_pot_u32(r);
        }
    }
    r
}

/// The first texture check that fails, in the fixed order of the rule:
/// size limit, power of two, minimum size, squareness, file size.
#[derive(Debug, Clone, Copy, PartialEq, Eq, Structural)]
pub enum TextureFinding {
    TooLarge,
    NotPowerOfTwo,
    TooSmall,
    NonSquare,
    FileTooLarge,
}

/// The first check that fails for a texture of `w` by `h` pixels and `size` bytes.
pub open spec fn texture_finding(c: TextureConfig, w: u32, h: u32, size: u64) -> Option<
    TextureFinding,
> {
    if w > c.max_size || h > c.max_size {
        Some(TextureFinding::TooLarge)
    } else if c.require_pot && (!is_pot(w as int) || !is_pot(h as int)) {
        Some(TextureFinding::NotPowerOfTwo)
    } else if w < c.min_size || h < c.min_size {
        Some(TextureFinding::TooSmall)
    } else if c.warn_non_square && w != h {
        Some(TextureFinding::NonSquare)
    } else if size > c.max_file_size {
        Some(TextureFinding::FileTooLarge)
    } else {
        None
    }
}

/// `w` and `h` written as `WxH`.
pub open spec fn dims_text(w: nat, h: nat) -> Seq<char> {
    decimal_text(w) + "x"@ + decimal_text(h)
}

/// Whether `i` is the issue the texture rule raises for finding `f`.
pub open spec fn texture_issue(
    c: TextureConfig,
    f: TextureFinding,
    w: u32,
    h: u32,
    size: u64,
    path: Seq<char>,
    i: Issue,
) -> bool {
    match f {
        TextureFinding::NotPowerOfTwo => {
            &&& issue_head(
                i,
                "texture.pot"@,
                "Non-POT Texture"@,
                Severity::Warning,
                false,
                path,
            )
            &&& i.message@ == "Texture dimensions "@ + dims_text(w as nat, h as nat)
                + " are not power of two"@
            &&& exists|a: u32, b: u32|
                is_next_pot(w, a) && is_next_pot(h, b) && #[trigger] text_is(
                    i.suggestion,
                    "Resize to "@ + dims_text(a as nat, b as nat),
                )
        },
        TextureFinding::TooLarge => {
            &&& issue_head(
                i,
                "texture.max_size"@,
                "Texture Too Large"@,
                Severity::Warning,
                false,
                path,
            )
            &&& i.message@ == "Texture "@ + dims_text(w as nat, h as nat)
                + " exceeds maximum size "@ + decimal_text(c.max_size as nat)
            &&& text_is(
                i.suggestion,
                "Resize to "@ + dims_text(c.max_size as nat, c.max_size as nat)
                    + " or smaller"@,
            )
        },
        TextureFinding::TooSmall => {
            &&& issue_head(
                i,
                "texture.min_size"@,
                "Texture Too Small"@,
                Severity::Info,
                false,
                path,
            )
            &&& i.message@ == "Texture "@ + dims_text(w as nat, h as nat)
                + " is smaller than minimum size "@ + decimal_text(c.min_size as nat)
            &&& i.suggestion.is_none()
        },
        TextureFinding::NonSquare => {
            &&& issue_head(
                i,
                "texture.non_square"@,
                "Non-Square Texture"@,
                Severity::Info,
                false,
                path,
            )
            &&& i.message@ == "Texture "@ + dims_text(w as nat, h as nat) + " is not square"@
            &&& i.suggestion.is_none()
        },
        TextureFinding::FileTooLarge => {
            &&& issue_head(
                i,
                "texture.file_size"@,
                "Large File Size"@,
                Severity::Warning,
                false,
                path,
            )
            &&& i.message@ == "Texture file size "@ + megabytes_text(size as nat)
                + " MB exceeds maximum "@ + megabytes_text(c.max_file_size as nat) + " MB"@
            &&& text_is(i.suggestion, "Consider compressing or reducing resolution"@)
        },
    }
}

/// What the texture rule reports for `a`: nothing without both dimensions,
/// else the issue of the first failing check, if any.
pub open spec fn texture_outcome(c: TextureConfig, a: AssetInfo, r: Option<Issue>) -> bool {
    match a.metadata {
        Some(m) => match (m.width, m.height) {
            (Some(w), Some(h)) => match texture_finding(c, w, h, a.size) {
                Some(f) => r.is_some() && texture_issue(c, f, w, h, a.size, a.path@, r.unwrap()),
                None => r.is_none(),
            },
            _ => r.is_none(),
        },
        None => r.is_none(),
    }
}

fn dims(w: u32, h: u32) -> (r: String)
    ensures
        r@ == dims_text(w as nat, h as nat),
{
    let mut s = decimal(w as u64);
    s.append("x");
    let t = decimal(h as u64);
    s.append(t.as_str());
    s
}

impl TextureRule {
    pub fn id(&self) -> (r: &'static str)
        ensures
            r@ == "texture"@,
    {
        "texture"
    }

    pub fn name(&self) -> (r: &'static str)
        ensures
            r@ == "Texture Standards"@,
    {
        "Texture Standards"
    }

    /// The rule looks at textures only.
    pub fn applies_to(&self, asset: &AssetInfo) -> (r: bool)
        ensures
            r == (asset.asset_type == AssetType::Texture),
    {
        asset.asset_type == AssetType::Texture
    }

    /// Runs the texture checks in order and reports the first that fails.
    pub fn check(&self, asset: &AssetInfo) -> (r: Option<Issue>)
        ensures
            texture_outcome(self.config, *asset, r),
    {
        let m = match asset.metadata {
            Some(m) => m,
            None => return None,
        };
        let w = match m.width {
            Some(w) => w,
            None => return None,
        };
        let h = match m.height {
            Some(h) => h,
            None => return None,
        };
        let c = self.config;
        if w > c.max_size || h > c.max_size {
            let mut msg = String::from_str("Texture ");
            let d = dims(w, h);
            msg.append(d.as_str());
            msg.append(" exceeds maximum size ");
            let mx = decimal(c.max_size as u64);
            msg.append(mx.as_str());
            let mut sug = String::from_str("Resize to ");
            let e = dims(c.max_size, c.max_size);
            sug.append(e.as_str());
            sug.append(" or smaller");
            return Some(
                new_issue(
                    "texture.max_size",
                    "Texture Too Large",
                    Severity::Warning,
                    msg,
                    &asset.path,
                    Some(sug),
                    false,
                ),
            );
        }
        if c.require_pot {
            if !Self::is_power_of_two(w) || !Self::is_power_of_two(h) {
                let mut msg = String::from_str("Texture dimensions ");
                let d = dims(w, h);
                msg.append(d.as_str());
                msg.append(" are not power of two");
                let a = next_power_of_two(w);
                let b = next_power_of_two(h);
                let mut sug = String::from_str("Resize to ");
                let e = dims(a, b);
                sug.append(e.as_str());
                let issue = new_issue(
                    "texture.pot",
                    "Non-POT Texture",
                    Severity::Warning,
                    msg,
                    &asset.path,
                    Some(sug),
                    false,
                );
                assert(text_is(issue.suggestion, "Resize to "@ + dims_text(a as nat, b as nat)));
                return Some(issue);
            }
        }
        if w < c.min_size || h < c.min_size {
            let mut msg = String::from_str("Texture ");
            let d = dims(w, h);
            msg.append(d.as_str());
            msg.append(" is smaller than minimum size ");
            let mn = decimal(c.min_size as u64);
            msg.append(mn.as_str());
            return Some(
                new_issue(
                    "texture.min_size",
                    "Texture Too Small",
                    Severity::Info,
                    msg,
                    &asset.path,
                    None,
                    false,
                ),
            );
        }
        if c.warn_non_square && w != h {
            let mut msg = String::from_str("Texture ");
            let d = dims(w, h);
            msg.append(d.as_str());
            msg.append(" is not square");
            return Some(
                new_issue(
                    "texture.non_square",
                    "Non-Square Texture",
                    Severity::Info,
                    msg,
                    &asset.path,
                    None,
                    false,
                ),
            );
        }
        if asset.size > c.max_file_size {
            let mut msg = String::from_str("Texture file size ");
            let a = megabytes(asset.size);
            msg.append(a.as_str());
            msg.append(" MB exceeds maximum ");
            let b = megabytes(c.max_file_size);
            msg.append(b.as_str());
            msg.append(" MB");
            return Some(
                new_issue(
                    "texture.file_size",
                    "Large File Size",
                    Severity::Warning,
                    msg,
                    &asset.path,
                    Some(String::from_str("Consider compressing or reducing resolution")),
                    false,
                ),
            );
        }
        None
    }
}

} // verus!
