//! File naming conventions.

use vstd::prelude::*;
use vstd::string::*;
use vstd::utf8::encode_utf8;
use crate::analysis::{Issue, Severity};
use crate::asset::{AssetInfo, AssetType};
use crate::text::{
    decimal,
    decimal_text,
    str_eq,
    starts_with,
    has_prefix,
    is_upper,
    is_lower,
    is_numeric,
    upper_char,
    lower_char,
    numeric_char,
};
use crate::rules::format::{new_issue, issue_head, text_is};

verus! {

/// Thresholds and requirements of the naming rule.
#[derive(Debug, Clone)]
pub struct NamingConfig {
    pub enabled: bool,
    /// Characters not allowed in file names.
    pub forbidden_chars: Vec<char>,
    /// Whether CJK ideographs are forbidden.
    pub forbid_chinese: bool,
    /// Longest allowed file name, in bytes.
    pub max_length: usize,
    /// Prefix required of texture names.
    pub texture_prefix: Option<String>,
    /// Prefix required of model names.
    pub model_prefix: Option<String>,
    /// Prefix required of audio names.
    pub audio_prefix: Option<String>,
    /// "PascalCase", "snake_case", "camelCase", or "any".
    pub case_style: String,
}

pub const DEFAULT_MAX_NAME_LENGTH: usize = 64;

/// The characters forbidden by default.
pub fn default_forbidden_chars() -> (r: Vec<char>)
    ensures
        r@ == seq![' ', '!', '@', '#', '$', '%', '^', '&', '*', '(', ')', '+', '='],
{
    vec![' ', '!', '@', '#', '$', '%', '^', '&', '*', '(', ')', '+', '=']
}

impl Default for NamingConfig {
    fn default() -> (r: NamingConfig)
        ensures
            r.enabled,
            r.forbidden_chars@ == seq![' ', '!', '@', '#', '$', '%', '^', '&', '*', '(', ')', '+', '='],
            r.forbid_chinese,
            r.max_length == 64,
            text_is(r.texture_prefix, "T_"@),
            r.model_prefix.is_none(),
            r.audio_prefix.is_none(),
            r.case_style@ == "any"@,
    {
        NamingConfig {
            enabled: true,
            forbidden_chars: default_forbidden_chars(),
            forbid_chinese: true,
            max_length: DEFAULT_MAX_NAME_LENGTH,
            texture_prefix: Some(String::from_str("T_")),
            model_prefix: None,
            audio_prefix: None,
            case_style: String::from_str("any"),
        }
    }
}

impl NamingConfig {
    /// Whether two configurations hold the same settings.
    pub open spec fn same_as(&self, o: NamingConfig) -> bool {
        &&& self.enabled == o.enabled
        &&& self.forbidden_chars@ == o.forbidden_chars@
        &&& self.forbid_chinese == o.forbid_chinese
        &&& self.max_length == o.max_length
        &&& self.texture_prefix == o.texture_prefix
        &&& self.model_prefix == o.model_prefix
        &&& self.audio_prefix == o.audio_prefix
        &&& self.case_style == o.case_style
    }

    /// A field-by-field copy of this configuration.
    pub fn copy(&self) -> (r: NamingConfig)
        ensures
            r.same_as(*self),
    {
        let mut chars: Vec<char> = Vec::new();
        let mut i: usize = 0;
        while i < self.forbidden_chars.len()
            invariant
                0 <= i <= self.forbidden_chars.len(),
                chars@ == self.forbidden_chars@.subrange(0, i as int),
            decreases self.forbidden_chars.len() - i,
        {
            chars.push(self.forbidden_chars[i]);
            i = i + 1;
        }
        assert(chars@ =~= self.forbidden_chars@);
        let texture_prefix = match &self.texture_prefix {
            Some(p) => Some(p.clone()),
            None => None,
        };
        let model_prefix = match &self.model_prefix {
            Some(p) => Some(p.clone()),
            None => None,
        };
        let audio_prefix = match &self.audio_prefix {
            Some(p) => Some(p.clone()),
            None => None,
        };
        NamingConfig {
            enabled: self.enabled,
            forbidden_chars: chars,
            forbid_chinese: self.forbid_chinese,
            max_length: self.max_length,
            texture_prefix,
            model_prefix,
            audio_prefix,
            case_style: self.case_style.clone(),
        }
    }
}

/// The naming rule.
#[derive(Debug, Clone)]
pub struct NamingRule {
    pub config: NamingConfig,
}

/// Whether `c` is a CJK unified ideograph (main block, extension A or B).
pub open spec fn is_cjk(c: char) -> bool {
    let code = c as u32;
    (0x4E00 <= code <= 0x9FFF) || (0x3400 <= code <= 0x4DBF) || (0x20000 <= code <= 0x2A6DF)
}

/// Index of the first character of `s` that is in `f`, if any.
pub open spec fn first_forbidden(s: Seq<char>, f: Seq<char>) -> Option<int> {
    if exists|i: int| 0 <= i < s.len() && f.contains(#[trigger] s[i]) {
        Some(choose|i: int| 0 <= i < s.len() && f.contains(#[trigger] s[i]) && forall|j: int| 0 <= j < i ==> !f.contains(#[trigger] s[j]))
    } else {
        None
    }
}

/// Index of the last `.` in `s`, or -1.
pub open spec fn last_dot(s: Seq<char>) -> int
    decreases s.len(),
{
    if s.len() == 0 {
        -1
    } else if s.last() == '.' {
        s.len() - 1
    } else {
        last_dot(s.drop_last())
    }
}

/// A file name without its last extension.
pub open spec fn stem_of(s: Seq<char>) -> Seq<char> {
    if last_dot(s) >= 0 {
        s.subrange(0, last_dot(s))
    } else {
        s
    }
}

/// PascalCase: starts upper case, has no underscore, and is not all upper case.
pub open spec fn pascal_case(s: Seq<char>) -> bool {
    s.len() == 0 || (upper_char(s[0]) && !s.contains('_') && !(forall|i: int|
        0 <= i < s.len() ==> upper_char(#[trigger] s[i])))
}

/// snake_case: every character is lower case, numeric or an underscore.
pub open spec fn snake_case(s: Seq<char>) -> bool {
    forall|i: int| 0 <= i < s.len() ==> lower_char(#[trigger] s[i]) || numeric_char(s[i]) || s[i] == '_'
}

/// camelCase: starts lower case and has no underscore.
pub open spec fn camel_case(s: Seq<char>) -> bool {
    s.len() == 0 || (lower_char(s[0]) && !s.contains('_'))
}

/// Whether `s` follows the named style; unknown styles and "any" accept all.
pub open spec fn follows_style(style: Seq<char>, s: Seq<char>) -> bool {
    if style == "PascalCase"@ {
        pascal_case(s)
    } else if style == "snake_case"@ {
        snake_case(s)
    } else if style == "camelCase"@ {
        camel_case(s)
    } else {
        true
    }
}

/// The prefix required for an asset type, if any.
pub open spec fn required_prefix(c: NamingConfig, t: AssetType) -> Option<String> {
    match t {
        AssetType::Texture => c.texture_prefix,
        AssetType::Model => c.model_prefix,
        AssetType::Audio => c.audio_prefix,
        _ => None,
    }
}

/// The first naming check that fails.
#[derive(Debug, Clone, Copy, PartialEq, Eq, Structural)]
pub enum NamingFinding {
    TooLong,
    ForbiddenChar(char),
    Chinese,
    MissingPrefix,
    Case,
}

/// The first failing check, in the order length, forbidden characters,
/// CJK characters, prefix, case style.
pub open spec fn naming_finding(c: NamingConfig, name: Seq<char>, t: AssetType) -> Option<NamingFinding> {
    if encode_utf8(name).len() > c.max_length {
        Some(NamingFinding::TooLong)
    } else if first_forbidden(name, c.forbidden_chars@).is_some() {
        Some(NamingFinding::ForbiddenChar(name[first_forbidden(name, c.forbidden_chars@).unwrap()]))
    } else if c.forbid_chinese && exists|i: int| 0 <= i < name.len() && is_cjk(#[trigger] name[i]) {
        Some(NamingFinding::Chinese)
    } else if required_prefix(c, t).is_some() && !has_prefix(name, required_prefix(c, t).unwrap()@) {
        Some(NamingFinding::MissingPrefix)
    } else if !follows_style(c.case_style@, stem_of(name)) {
        Some(NamingFinding::Case)
    } else {
        None
    }
}

/// Whether `i` is the issue the naming rule raises for finding `f` on `a`.
pub open spec fn naming_issue(c: NamingConfig, f: NamingFinding, a: AssetInfo, i: Issue) -> bool {
    let path = a.path@;
    match f {
        NamingFinding::TooLong => {
            &&& issue_head(i, "naming.length"@, "Name Too Long"@, Severity::Warning, false, path)
            &&& i.message@ == "File name is "@ + decimal_text(encode_utf8(a.name@).len())
                + " characters, max allowed is "@ + decimal_text(c.max_length as nat)
            &&& text_is(
                i.suggestion,
                "Shorten the file name to "@ + decimal_text(c.max_length as nat) + " characters"@,
            )
        },
        NamingFinding::ForbiddenChar(ch) => {
            &&& issue_head(
                i,
                "naming.forbidden_char"@,
                "Forbidden Character"@,
                Severity::Warning,
                true,
                path,
            )
            &&& i.message@ == "File name contains forbidden character: '"@ + seq![ch] + "'"@
            &&& text_is(i.suggestion, "Remove '"@ + seq![ch] + "' from the file name"@)
        },
        NamingFinding::Chinese => {
            &&& issue_head(
                i,
                "naming.chinese"@,
                "Chinese Characters"@,
                Severity::Warning,
                false,
                path,
            )
            &&& i.message@ == "File name contains Chinese characters"@
            &&& text_is(i.suggestion, "Use English characters for file names"@)
        },
        NamingFinding::MissingPrefix => {
            let p = required_prefix(c, a.asset_type).unwrap()@;
            &&& issue_head(i, "naming.prefix"@, "Missing Prefix"@, Severity::Warning, true, path)
            &&& i.message@ == "File name should start with '"@ + p + "'"@
            &&& text_is(i.suggestion, "Rename to "@ + p + a.name@)
        },
        NamingFinding::Case => {
            &&& issue_head(i, "naming.case"@, "Naming Case"@, Severity::Info, true, path)
            &&& i.message@ == "File name does not follow "@ + c.case_style@ + " convention"@
            &&& text_is(i.suggestion, "Use "@ + c.case_style@ + " for file names"@)
        },
    }
}

/// What the naming rule reports for `a`: the issue of the first failing
/// check, if any.
pub open spec fn naming_outcome(c: NamingConfig, a: AssetInfo, r: Option<Issue>) -> bool {
    match naming_finding(c, a.name@, a.asset_type) {
        Some(f) => r.is_some() && naming_issue(c, f, a, r.unwrap()),
        None => r.is_none(),
    }
}

fn char_in(v: &Vec<char>, c: char) -> (r: bool)
    ensures
        r == v@.contains(c),
{
    let mut i: usize = 0;
    while i < v.len()
        invariant
            0 <= i <= v.len(),
            forall|j: int| 0 <= j < i ==> v@[j] != c,
        decreases v.len() - i,
    {
        if v[i] == c {
            return true;
        }
        i = i + 1;
    }
    false
}

/// Whether `s` follows PascalCase.
pub fn is_pascal_case(s: &str) -> (r: bool)
    ensures
        r == pascal_case(s@),
{
    let n = s.unicode_len();
    if n == 0 {
        return true;
    }
    let first = s.get_char(0);
    let mut has_underscore = false;
    let mut all_upper = true;
    let mut i: usize = 0;
    while i < n
        invariant
            n == s@.len(),
            0 <= i <= n,
            has_underscore == exists|j: int| 0 <= j < i && s@[j] == '_',
            all_upper == forall|j: int| 0 <= j < i ==> upper_char(#[trigger] s@[j]),
        decreases n - i,
    {
        let c = s.get_char(i);
        if c == '_' {
            has_underscore = true;
        }
        if !is_upper(c) {
            all_upper = false;
        }
        i = i + 1;
    }
    assert(has_underscore == s@.contains('_'));
    is_upper(first) && !has_underscore && !all_upper
}

/// Whether `s` follows snake_case.
pub fn is_snake_case(s: &str) -> (r: bool)
    ensures
        r == snake_case(s@),
{
    let n = s.unicode_len();
    let mut i: usize = 0;
    while i < n
        invariant
            n == s@.len(),
            0 <= i <= n,
            forall|j: int| 0 <= j < i ==> lower_char(#[trigger] s@[j]) || numeric_char(s@[j]) || s@[j] == '_',
        decreases n - i,
    {
        let c = s.get_char(i);
        if !(is_lower(c) || is_numeric(c) || c == '_') {
            return false;
        }
        i = i + 1;
    }
    true
}

/// Whether `s` follows camelCase.
pub fn is_camel_case(s: &str) -> (r: bool)
    ensures
        r == camel_case(s@),
{
    let n = s.unicode_len();
    if n == 0 {
        return true;
    }
    let first = s.get_char(0);
    let mut i: usize = 0;
    while i < n
        invariant
            n == s@.len(),
            0 <= i <= n,
            forall|j: int| 0 <= j < i ==> s@[j] != '_',
        decreases n - i,
    {
        if s.get_char(i) == '_' {
            assert(s@[i as int] == '_');
            return is_lower(first) && false;
        }
        i = i + 1;
    }
    is_lower(first)
}

/// The file name without its last extension.
pub fn file_stem(name: &str) -> (r: &str)
    ensures
        r@ == stem_of(name@),
{
    let n = name.unicode_len();
    let mut i: usize = n;
    assert(name@.subrange(0, n as int) =~= name@);
    while i > 0
        invariant
            n == name@.len(),
            0 <= i <= n,
            forall|j: int| i <= j < n ==> name@[j] != '.',
            last_dot(name@) == last_dot(name@.subrange(0, i as int)),
        decreases i,
    {
        let ghost t = name@.subrange(0, i as int);
        assert(t.drop_last() =~= name@.subrange(0, i - 1));
        if name.get_char(i - 1) == '.' {
            return name.substring_char(0, i - 1);
        }
        i = i - 1;
    }
    assert(name@.subrange(0, 0).len() == 0);
    name
}

impl NamingRule {
    pub fn new(config: NamingConfig) -> (r: NamingRule)
        ensures
            r.config == config,
    {
        NamingRule { config }
    }

    pub fn id(&self) -> (r: &'static str)
        ensures
            r@ == "naming"@,
    {
        "naming"
    }

    pub fn name(&self) -> (r: &'static str)
        ensures
            r@ == "Naming Convention"@,
    {
        "Naming Convention"
    }

    /// The rule looks at every asset.
    pub fn applies_to(&self, asset: &AssetInfo) -> (r: bool)
        ensures
            r,
    {
        true
    }

    /// The position of the first forbidden character of `name`, if any.
    pub fn check_forbidden_chars(&self, name: &str) -> (r: Option<usize>)
        ensures
            r.is_some() == first_forbidden(name@, self.config.forbidden_chars@).is_some(),
            r.is_some() ==> r.unwrap() as int == first_forbidden(name@, self.config.forbidden_chars@).unwrap(),
            r.is_some() ==> r.unwrap() < name@.len(),
    {
        let n = name.unicode_len();
        let mut i: usize = 0;
        while i < n
            invariant
                n == name@.len(),
                0 <= i <= n,
                forall|j: int| 0 <= j < i ==> !self.config.forbidden_chars@.contains(#[trigger] name@[j]),
            decreases n - i,
        {
            let c = name.get_char(i);
            if char_in(&self.config.forbidden_chars, c) {
                let ghost f = self.config.forbidden_chars@;
                assert(f.contains(name@[i as int]));
                assert(0 <= i < name@.len() && f.contains(name@[i as int]) && forall|j: int|
                    0 <= j < i ==> !f.contains(#[trigger] name@[j]));
                let ghost k = first_forbidden(name@, f).unwrap();
                assert(k == i as int) by {
                    if k < i {
                        assert(!f.contains(name@[k]));
                    }
                    if k > i {
                        assert(!f.contains(name@[i as int]));
                    }
                }
                return Some(i);
            }
            i = i + 1;
        }
        None
    }

    /// Whether CJK ideographs are forbidden and `name` holds one.
    pub fn check_chinese(&self, name: &str) -> (r: bool)
        ensures
            r == (self.config.forbid_chinese && exists|i: int| 0 <= i < name@.len() && is_cjk(#[trigger] name@[i])),
    {
        if !self.config.forbid_chinese {
            return false;
        }
        let n = name.unicode_len();
        let mut i: usize = 0;
        while i < n
            invariant
                n == name@.len(),
                0 <= i <= n,
                self.config.forbid_chinese,
                forall|j: int| 0 <= j < i ==> !is_cjk(#[trigger] name@[j]),
            decreases n - i,
        {
            let ch = name.get_char(i);
            let code = ch as u32;
            assert(ch == name@[i as int]);
            if (0x4E00 <= code && code <= 0x9FFF) || (0x3400 <= code && code <= 0x4DBF) || (0x20000
                <= code && code <= 0x2A6DF) {
                assert(0 <= i < name@.len() && is_cjk(name@[i as int]));
                return true;
            }
            i = i + 1;
        }
        false
    }

    /// The prefix that `name` lacks for an asset of type `t`, if any.
    pub fn check_prefix(&self, name: &str, t: AssetType) -> (r: Option<&String>)
        ensures
            r.is_some() == (required_prefix(self.config, t).is_some() && !has_prefix(name@, required_prefix(self.config, t).unwrap()@)),
            r.is_some() ==> *r.unwrap() == required_prefix(self.config, t).unwrap(),
    {
        let required = match t {
            AssetType::Texture => &self.config.texture_prefix,
            AssetType::Model => &self.config.model_prefix,
            AssetType::Audio => &self.config.audio_prefix,
            _ => return None,
        };
        match required {
            Some(p) => if !starts_with(name, p.as_str()) {
                Some(p)
            } else {
                None
            },
            None => None,
        }
    }

    /// Whether `stem` follows the configured case style.
    pub fn check_case_style(&self, stem: &str) -> (r: bool)
        ensures
            r == follows_style(self.config.case_style@, stem@),
    {
        let style = self.config.case_style.as_str();
        if str_eq(style, "PascalCase") {
            is_pascal_case(stem)
        } else if str_eq(style, "snake_case") {
            is_snake_case(stem)
        } else if str_eq(style, "camelCase") {
            is_camel_case(stem)
        } else {
            true
        }
    }

    /// Runs the naming checks in order and reports the first that fails.
    pub fn check(&self, asset: &AssetInfo) -> (r: Option<Issue>)
        ensures
            naming_outcome(self.config, *asset, r),
    {
        let name = asset.name.as_str();
        let c = &self.config;
        let len = name.as_bytes().len();
        if len > c.max_length {
            let mut msg = String::from_str("File name is ");
            let a = decimal(len as u64);
            msg.append(a.as_str());
            msg.append(" characters, max allowed is ");
            let b = decimal(c.max_length as u64);
            msg.append(b.as_str());
            let mut sug = String::from_str("Shorten the file name to ");
            sug.append(b.as_str());
            sug.append(" characters");
            let iss = new_issue(
                "naming.length",
                "Name Too Long",
                Severity::Warning,
                msg,
                &asset.path,
                Some(sug),
                false,
            );
            return Some(iss);
        }
        if let Some(i) = self.check_forbidden_chars(name) {
            let _ = name.unicode_len();
            let ch = name.substring_char(i, i + 1);
            assert(ch@ =~= seq![name@[i as int]]);
            let mut msg = String::from_str("File name contains forbidden character: '");
            msg.append(ch);
            msg.append("'");
            let mut sug = String::from_str("Remove '");
            sug.append(ch);
            sug.append("' from the file name");
            return Some(
                new_issue(
                    "naming.forbidden_char",
                    "Forbidden Character",
                    Severity::Warning,
                    msg,
                    &asset.path,
                    Some(sug),
                    true,
                ),
            );
        }
        if self.check_chinese(name) {
            return Some(
                new_issue(
                    "naming.chinese",
                    "Chinese Characters",
                    Severity::Warning,
                    String::from_str("File name contains Chinese characters"),
                    &asset.path,
                    Some(String::from_str("Use English characters for file names")),
                    false,
                ),
            );
        }
        if let Some(p) = self.check_prefix(name, asset.asset_type) {
            let mut msg = String::from_str("File name should start with '");
            msg.append(p.as_str());
            msg.append("'");
            let mut sug = String::from_str("Rename to ");
            sug.append(p.as_str());
            sug.append(name);
            return Some(
                new_issue(
                    "naming.prefix",
                    "Missing Prefix",
                    Severity::Warning,
                    msg,
                    &asset.path,
                    Some(sug),
                    true,
                ),
            );
        }
        let stem = file_stem(name);
        if !self.check_case_style(stem) {
            let mut msg = String::from_str("File name does not follow ");
            msg.append(c.case_style.as_str());
            msg.append(" convention");
            let mut sug = String::from_str("Use ");
            sug.append(c.case_style.as_str());
            sug.append(" for file names");
            return Some(
                new_issue(
                    "naming.case",
                    "Naming Case",
                    Severity::Info,
                    msg,
                    &asset.path,
                    Some(sug),
                    true,
                ),
            );
        }
        None
    }
}

} // verus!
