//! Text shared by several rules' messages.

use vstd::prelude::*;
use vstd::string::*;
use crate::text::{decimal, decimal_text};
use crate::analysis::{Issue, Severity};

verus! {

/// A byte count in mebibytes, rounded half up to two decimals.
pub open spec fn megabytes_text(bytes: nat) -> Seq<char> {
    let hundredths = (bytes * 100 + 524288) / 1048576;
    decimal_text(hundredths / 100) + "."@ + decimal_text((hundredths % 100) / 10) + decimal_text(
        hundredths % 10,
    )
}

/// Writes a byte count in mebibytes with two decimals.
pub fn megabytes(bytes: u64) -> (r: String)
    ensures
        r@ == megabytes_text(bytes as nat),
{
    let hundredths: u128 = (bytes as u128 * 100 + 524288) / 1048576;
    assert(hundredths < 0x1_0000_0000_0000_0000u128) by (nonlinear_arith)
        requires
            hundredths == (bytes as u128 * 100 + 524288) / 1048576,
            bytes <= u64::MAX,
    ;
    let h = hundredths as u64;
    let mut s = decimal(h / 100);
    s.append(".");
    let a = decimal((h % 100) / 10);
    s.append(a.as_str());
    let b = decimal(h % 10);
    s.append(b.as_str());
    s
}


/// An issue with the given fields.
pub fn new_issue(
    rule_id: &str,
    rule_name: &str,
    severity: Severity,
    message: String,
    asset_path: &String,
    suggestion: Option<String>,
    auto_fixable: bool,
) -> (r: Issue)
    ensures
        r.rule_id@ == rule_id@,
        r.rule_name@ == rule_name@,
        r.severity == severity,
        r.message == message,
        r.asset_path@ == asset_path@,
        r.suggestion == suggestion,
        r.auto_fixable == auto_fixable,
{
    Issue {
        rule_id: String::from_str(rule_id),
        rule_name: String::from_str(rule_name),
        severity,
        message,
        asset_path: asset_path.clone(),
        suggestion,
        auto_fixable,
    }
}

/// Whether `i` carries the given identity, severity and fix flag for the
/// asset at `path`.
pub open spec fn issue_head(
    i: Issue,
    rule_id: Seq<char>,
    rule_name: Seq<char>,
    severity: Severity,
    auto_fixable: bool,
    path: Seq<char>,
) -> bool {
    &&& i.rule_id@ == rule_id
    &&& i.rule_name@ == rule_name
    &&& i.severity == severity
    &&& i.auto_fixable == auto_fixable
    &&& i.asset_path@ == path
}

/// Whether `o` holds a string whose characters are `s`.
pub open spec fn text_is(o: Option<String>, s: Seq<char>) -> bool {
    o.is_some() && o.unwrap()@ == s
}

} // verus!
