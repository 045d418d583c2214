//! Small verified operations on strings, and the few character and string
//! functions of std whose results are taken on trust.

use vstd::prelude::*;
use vstd::string::*;

verus! {

/// What `str::to_lowercase` returns for the given characters.
pub uninterp spec fn lower_of(s: Seq<char>) -> Seq<char>;

/// Whether `c` has the Unicode `White_Space` property, which
/// `char::is_whitespace` tests.
pub open spec fn is_space(c: char) -> bool {
    let u = c as u32;
    (0x9 <= u <= 0xD) || u == 0x20 || u == 0x85 || u == 0xA0 || u == 0x1680 || (0x2000 <= u
        <= 0x200A) || u == 0x2028 || u == 0x2029 || u == 0x202F || u == 0x205F || u == 0x3000
}

/// `s` without its leading white space.
pub open spec fn trim_start_of(s: Seq<char>) -> Seq<char>
    decreases s.len(),
{
    if s.len() > 0 && is_space(s[0]) {
        trim_start_of(s.drop_first())
    } else {
        s
    }
}

/// `s` without its trailing white space.
pub open spec fn trim_end_of(s: Seq<char>) -> Seq<char>
    decreases s.len(),
{
    if s.len() > 0 && is_space(s.last()) {
        trim_end_of(s.drop_last())
    } else {
        s
    }
}

/// `s` without leading and trailing white space.
pub open spec fn trim_of(s: Seq<char>) -> Seq<char> {
    trim_end_of(trim_start_of(s))
}

/// What `char::is_uppercase` says of a character.
pub uninterp spec fn upper_char(c: char) -> bool;

/// What `char::is_lowercase` says of a character.
pub uninterp spec fn lower_char(c: char) -> bool;

/// What `char::is_numeric` says of a character.
pub uninterp spec fn numeric_char(c: char) -> bool;

/// Relies on `str::to_lowercase`: the result depends on the characters alone.
#[verifier::external_body]
pub(crate) fn to_lower(s: &str) -> (r: String)
    ensures
        r@ == lower_of(s@),
{
    s.to_lowercase()
}

/// Relies on `str::trim`: leading and trailing characters with the
/// `White_Space` property are removed.
#[verifier::external_body]
pub(crate) fn trim(s: &str) -> (r: &str)
    ensures
        r@ == trim_of(s@),
{
    s.trim()
}

/// Relies on `char::is_uppercase`.
#[verifier::external_body]
pub(crate) fn is_upper(c: char) -> (r: bool)
    ensures
        r == upper_char(c),
{
    c.is_uppercase()
}

/// Relies on `char::is_lowercase`.
#[verifier::external_body]
pub(crate) fn is_lower(c: char) -> (r: bool)
    ensures
        r == lower_char(c),
{
    c.is_lowercase()
}

/// Relies on `char::is_numeric`.
#[verifier::external_body]
pub(crate) fn is_numeric(c: char) -> (r: bool)
    ensures
        r == numeric_char(c),
{
    c.is_numeric()
}

/// Whether two string slices hold the same characters, by comparing their
/// UTF-8 bytes.
pub fn str_eq(a: &str, b: &str) -> (r: bool)
    ensures
        r == (a@ == b@),
{
    let x = a.as_bytes();
    let y = b.as_bytes();
    proof {
        vstd::utf8::encode_utf8_decode_utf8(a@);
        vstd::utf8::encode_utf8_decode_utf8(b@);
    }
    if x.len() != y.len() {
        return false;
    }
    let mut i: usize = 0;
    while i < x.len()
        invariant
            0 <= i <= x@.len(),
            x@.len() == y@.len(),
            x@ == vstd::utf8::encode_utf8(a@),
            y@ == vstd::utf8::encode_utf8(b@),
            a@ == vstd::utf8::decode_utf8(x@),
            b@ == vstd::utf8::decode_utf8(y@),
            forall|j: int| 0 <= j < i ==> x@[j] == y@[j],
        decreases x.len() - i,
    {
        if x[i] != y[i] {
            return false;
        }
        i = i + 1;
    }
    assert(x@ =~= y@);
    true
}

/// Whether `p` is a prefix of `s`.
pub open spec fn has_prefix(s: Seq<char>, p: Seq<char>) -> bool {
    p.len() <= s.len() && s.subrange(0, p.len() as int) == p
}

/// Whether `p` is a suffix of `s`.
pub open spec fn has_suffix(s: Seq<char>, p: Seq<char>) -> bool {
    p.len() <= s.len() && s.subrange(s.len() - p.len(), s.len() as int) == p
}

/// Whether `p` occurs in `s` as a contiguous run.
pub open spec fn has_infix(s: Seq<char>, p: Seq<char>) -> bool {
    exists|i: int| 0 <= i <= s.len() - p.len() && #[trigger] s.subrange(i, i + p.len()) == p
}

/// Whether `p` occurs in `s` at position `at`.
fn matches_at(s: &str, p: &str, at: usize) -> (r: bool)
    requires
        at + p@.len() <= s@.len(),
        s@.len() <= usize::MAX,
    ensures
        r == (s@.subrange(at as int, at + p@.len()) == p@),
{
    let n = p.unicode_len();
    let mut i: usize = 0;
    while i < n
        invariant
            n == p@.len(),
            at + n <= s@.len(),
            s@.len() <= usize::MAX,
            0 <= i <= n,
            forall|j: int| 0 <= j < i ==> s@[at + j] == p@[j],
        decreases n - i,
    {
        if s.get_char(at + i) != p.get_char(i) {
            assert(s@.subrange(at as int, at + p@.len())[i as int] != p@[i as int]);
            return false;
        }
        i = i + 1;
    }
    assert(s@.subrange(at as int, at + p@.len()) =~= p@);
    true
}

/// Whether `s` starts with `p`.
pub fn starts_with(s: &str, p: &str) -> (r: bool)
    ensures
        r == has_prefix(s@, p@),
{
    let n = s.unicode_len();
    let m = p.unicode_len();
    if m > n {
        return false;
    }
    matches_at(s, p, 0)
}

/// Whether `s` ends with `p`.
pub fn ends_with(s: &str, p: &str) -> (r: bool)
    ensures
        r == has_suffix(s@, p@),
{
    let n = s.unicode_len();
    let m = p.unicode_len();
    if m > n {
        return false;
    }
    matches_at(s, p, n - m)
}

/// The first position at which `p` occurs in `s`, if any.
pub fn find(s: &str, p: &str) -> (r: Option<usize>)
    ensures
        r.is_none() == !has_infix(s@, p@),
        r.is_some() ==> {
            let i = r.unwrap() as int;
            &&& 0 <= i <= s@.len() - p@.len()
            &&& s@.subrange(i, i + p@.len()) == p@
            &&& forall|j: int| 0 <= j < i ==> #[trigger] s@.subrange(j, j + p@.len()) != p@
        },
{
    let n = s.unicode_len();
    let m = p.unicode_len();
    if m > n {
        return None;
    }
    let mut i: usize = 0;
    loop
        invariant
            n == s@.len(),
            m == p@.len(),
            m <= n,
            0 <= i <= n - m,
            forall|j: int| 0 <= j < i ==> #[trigger] s@.subrange(j, j + p@.len()) != p@,
        decreases n - m - i,
    {
        if matches_at(s, p, i) {
            return Some(i);
        }
        if i == n - m {
            return None;
        }
        i = i + 1;
    }
}

/// Whether `p` occurs anywhere in `s`.
pub fn contains(s: &str, p: &str) -> (r: bool)
    ensures
        r == has_infix(s@, p@),
{
    find(s, p).is_some()
}

/// Whether the character `c` occurs in `s`.
pub fn contains_char(s: &str, c: char) -> (r: bool)
    ensures
        r == s@.contains(c),
{
    let n = s.unicode_len();
    let mut i: usize = 0;
    while i < n
        invariant
            n == s@.len(),
            0 <= i <= n,
            forall|j: int| 0 <= j < i ==> s@[j] != c,
        decreases n - i,
    {
        if s.get_char(i) == c {
            return true;
        }
        i = i + 1;
    }
    false
}

/// The decimal digit `d` as a character.
pub open spec fn digit_of(d: nat) -> char {
    if d == 0 {
        '0'
    } else if d == 1 {
        '1'
    } else if d == 2 {
        '2'
    } else if d == 3 {
        '3'
    } else if d == 4 {
        '4'
    } else if d == 5 {
        '5'
    } else if d == 6 {
        '6'
    } else if d == 7 {
        '7'
    } else if d == 8 {
        '8'
    } else {
        '9'
    }
}

/// The hexadecimal digit `d` in lower case.
pub open spec fn hex_digit_of(d: nat) -> char {
    if d < 10 {
        digit_of(d)
    } else if d == 10 {
        'a'
    } else if d == 11 {
        'b'
    } else if d == 12 {
        'c'
    } else if d == 13 {
        'd'
    } else if d == 14 {
        'e'
    } else {
        'f'
    }
}

/// `n` written in decimal without leading zeros.
pub open spec fn decimal_text(n: nat) -> Seq<char>
    decreases n,
{
    if n < 10 {
        seq![digit_of(n)]
    } else {
        decimal_text(n / 10).push(digit_of(n % 10))
    }
}

/// The low `width` hexadecimal digits of `n`, most significant first.
pub open spec fn hex_text(n: nat, width: nat) -> Seq<char>
    decreases width,
{
    if width == 0 {
        seq![]
    } else {
        hex_text(n / 16, (width - 1) as nat).push(hex_digit_of(n % 16))
    }
}

fn hex_digit_str(d: u64) -> (r: &'static str)
    requires
        d < 16,
    ensures
        r@ == seq![hex_digit_of(d as nat)],
{
    proof {
        reveal_strlit("0");
        reveal_strlit("1");
        reveal_strlit("2");
        reveal_strlit("3");
        reveal_strlit("4");
        reveal_strlit("5");
        reveal_strlit("6");
        reveal_strlit("7");
        reveal_strlit("8");
        reveal_strlit("9");
        reveal_strlit("a");
        reveal_strlit("b");
        reveal_strlit("c");
        reveal_strlit("d");
        reveal_strlit("e");
        reveal_strlit("f");
    }
    let r = match d {
        0 => "0",
        1 => "1",
        2 => "2",
        3 => "3",
        4 => "4",
        5 => "5",
        6 => "6",
        7 => "7",
        8 => "8",
        9 => "9",
        10 => "a",
        11 => "b",
        12 => "c",
        13 => "d",
        14 => "e",
        _ => "f",
    };
    assert(r@ =~= seq![hex_digit_of(d as nat)]);
    r
}

/// `n` in decimal.
pub fn decimal(n: u64) -> (r: String)
    ensures
        r@ == decimal_text(n as nat),
    decreases n,
{
    if n < 10 {
        String::from_str(hex_digit_str(n))
    } else {
        let mut s = decimal(n / 10);
        s.append(hex_digit_str(n % 10));
        s
    }
}

/// `n` in decimal, for values wider than 64 bits.
pub fn decimal_wide(n: u128) -> (r: String)
    ensures
        r@ == decimal_text(n as nat),
    decreases n,
{
    if n < 10 {
        String::from_str(hex_digit_str(n as u64))
    } else {
        let mut s = decimal_wide(n / 10);
        s.append(hex_digit_str((n % 10) as u64));
        s
    }
}

/// The low `width` hexadecimal digits of `n`, zero padded.
pub fn hex(n: u64, width: usize) -> (r: String)
    ensures
        r@ == hex_text(n as nat, width as nat),
    decreases width,
{
    if width == 0 {
        String::new()
    } else {
        let mut s = hex(n / 16, width - 1);
        s.append(hex_digit_str(n % 16));
        s
    }
}


/// Relies on `str::chars`: the characters of a string, in order.
#[verifier::external_body]
pub(crate) fn char_vec(s: &str) -> (r: Vec<char>)
    ensures
        r@ == s@,
{
    s.chars().collect()
}

/// Lexicographic order of character sequences, by code point.
pub open spec fn text_le(a: Seq<char>, b: Seq<char>) -> bool
    decreases a.len(),
{
    if a.len() == 0 {
        true
    } else if b.len() == 0 {
        false
    } else if (a[0] as u32) != (b[0] as u32) {
        (a[0] as u32) < (b[0] as u32)
    } else {
        text_le(a.drop_first(), b.drop_first())
    }
}

pub proof fn lemma_text_le_total(a: Seq<char>, b: Seq<char>)
    ensures
        text_le(a, b) || text_le(b, a),
    decreases a.len(),
{
    if a.len() > 0 && b.len() > 0 && (a[0] as u32) == (b[0] as u32) {
        lemma_text_le_total(a.drop_first(), b.drop_first());
    }
}

pub proof fn lemma_text_le_trans(a: Seq<char>, b: Seq<char>, c: Seq<char>)
    requires
        text_le(a, b),
        text_le(b, c),
    ensures
        text_le(a, c),
    decreases a.len(),
{
    if a.len() > 0 && b.len() > 0 && c.len() > 0 && (a[0] as u32) == (b[0] as u32) && (b[0] as u32) == (c[0] as u32) {
        lemma_text_le_trans(a.drop_first(), b.drop_first(), c.drop_first());
    }
}

/// Compares two character vectors lexicographically.
pub fn chars_le(a: &Vec<char>, b: &Vec<char>) -> (r: bool)
    ensures
        r == text_le(a@, b@),
{
    let mut i: usize = 0;
    assert(a@.subrange(0, a@.len() as int) =~= a@);
    assert(b@.subrange(0, b@.len() as int) =~= b@);
    while i < a.len() && i < b.len()
        invariant
            0 <= i <= a.len(),
            i <= b.len(),
            text_le(a@, b@) == text_le(a@.subrange(i as int, a@.len() as int), b@.subrange(i as int, b@.len() as int)),
        decreases a.len() - i,
    {
        if (a[i] as u32) != (b[i] as u32) {
            proof {
                let x = a@.subrange(i as int, a@.len() as int);
                let y = b@.subrange(i as int, b@.len() as int);
                assert(x[0] == a@[i as int] && y[0] == b@[i as int]);
            }
            return (a[i] as u32) < (b[i] as u32);
        }
        proof {
            let x = a@.subrange(i as int, a@.len() as int);
            let y = b@.subrange(i as int, b@.len() as int);
            assert(x.drop_first() =~= a@.subrange(i + 1, a@.len() as int));
            assert(y.drop_first() =~= b@.subrange(i + 1, b@.len() as int));
        }
        i = i + 1;
    }
    proof {
        let x = a@.subrange(i as int, a@.len() as int);
        let y = b@.subrange(i as int, b@.len() as int);
        if i == a.len() {
            assert(x.len() == 0);
        } else {
            assert(y.len() == 0);
        }
    }
    i == a.len()
}


/// `n` in hexadecimal without leading zeros.
pub open spec fn hex_plain_text(n: nat) -> Seq<char>
    decreases n,
{
    if n < 16 {
        seq![hex_digit_of(n)]
    } else {
        hex_plain_text(n / 16).push(hex_digit_of(n % 16))
    }
}

/// `n` in lower-case hexadecimal without leading zeros.
pub fn hex_plain(n: u64) -> (r: String)
    ensures
        r@ == hex_plain_text(n as nat),
    decreases n,
{
    if n < 16 {
        String::from_str(hex_digit_str(n))
    } else {
        let mut s = hex_plain(n / 16);
        s.append(hex_digit_str(n % 16));
        s
    }
}


/// The pieces of `s` between `\n` characters.
pub open spec fn newline_split(s: Seq<char>) -> Seq<Seq<char>>
    decreases s.len(),
{
    if s.len() == 0 {
        seq![seq![]]
    } else {
        let prev = newline_split(s.drop_last());
        if s.last() == '\n' {
            prev.push(seq![])
        } else {
            prev.update(prev.len() - 1, prev.last().push(s.last()))
        }
    }
}

/// A line that ended with `\n`, without a `\r` before it.
pub open spec fn without_cr(l: Seq<char>) -> Seq<char> {
    if l.len() > 0 && l.last() == '\r' {
        l.drop_last()
    } else {
        l
    }
}

/// What `str::lines` gives for a text: the pieces between `\n` characters,
/// each ended piece without a `\r` before its `\n`, and the piece after the
/// last `\n` only if it is not empty.
pub open spec fn lines_of(s: Seq<char>) -> Seq<Seq<char>> {
    let ps = newline_split(s);
    let ended = ps.drop_last().map_values(|l: Seq<char>| without_cr(l));
    if ps.last().len() > 0 {
        ended.push(ps.last())
    } else {
        ended
    }
}

/// Relies on `str::lines`: lines end at `\n` or `\r\n`; the final line
/// ending is optional.
#[verifier::external_body]
pub(crate) fn lines(s: &str) -> (r: Vec<String>)
    ensures
        r@.map_values(|l: String| l@) == lines_of(s@),
{
    s.lines().map(|l| l.to_string()).collect()
}

/// Slices `s` to the characters from `from` up to `to`, as a new string.
pub fn slice(s: &str, from: usize, to: usize) -> (r: String)
    requires
        from <= to <= s@.len(),
    ensures
        r@ == s@.subrange(from as int, to as int),
{
    String::from_str(s.substring_char(from, to))
}


/// Whether `d` is one or more ASCII digits.
pub open spec fn all_digits(d: Seq<char>) -> bool {
    d.len() > 0 && forall|i: int| 0 <= i < d.len() ==> '0' <= #[trigger] d[i] <= '9'
}

/// The value of a run of ASCII digits.
pub open spec fn digits_value(d: Seq<char>) -> int
    decreases d.len(),
{
    if d.len() == 0 {
        0
    } else {
        digits_value(d.drop_last()) * 10 + (d.last() as u32 - '0' as u32)
    }
}

/// The integer that `s` writes: an optional `+` or `-`, then one or more
/// ASCII digits.
pub open spec fn int_text_value(s: Seq<char>) -> Option<int> {
    if s.len() > 0 && (s[0] == '+' || s[0] == '-') {
        if all_digits(s.drop_first()) {
            Some(
                if s[0] == '-' {
                    -digits_value(s.drop_first())
                } else {
                    digits_value(s.drop_first())
                },
            )
        } else {
            None
        }
    } else if all_digits(s) {
        Some(digits_value(s))
    } else {
        None
    }
}

/// What `str::parse::<i32>` gives for a text: its value, if it writes an
/// integer in the range of `i32`.
pub open spec fn i32_parse_of(s: Seq<char>) -> Option<i32> {
    match int_text_value(s) {
        Some(v) => if i32::MIN <= v <= i32::MAX {
            Some(v as i32)
        } else {
            None
        },
        None => None,
    }
}

/// Relies on `<i32 as FromStr>::from_str`: an optional `+` or `-` and
/// decimal digits whose value fits in an `i32`; anything else is an error.
#[verifier::external_body]
pub(crate) fn parse_i32(s: &str) -> (r: Option<i32>)
    ensures
        r == i32_parse_of(s@),
{
    s.parse::<i32>().ok()
}

/// What `str::parse::<i64>` gives for a text: its value, if it writes an
/// integer in the range of `i64`.
pub open spec fn i64_parse_of(s: Seq<char>) -> Option<i64> {
    match int_text_value(s) {
        Some(v) => if i64::MIN <= v <= i64::MAX {
            Some(v as i64)
        } else {
            None
        },
        None => None,
    }
}

/// Relies on `<i64 as FromStr>::from_str`: an optional `+` or `-` and
/// decimal digits whose value fits in an `i64`; anything else is an error.
#[verifier::external_body]
pub(crate) fn parse_i64(s: &str) -> (r: Option<i64>)
    ensures
        r == i64_parse_of(s@),
{
    s.parse::<i64>().ok()
}

/// Sorts strings in code point order (the order of `String`'s `Ord`).
pub fn sort_strings(items: Vec<String>) -> (r: Vec<String>)
    ensures
        r@.map_values(|s: String| s@).to_multiset() == items@.map_values(|s: String| s@).to_multiset(),
        forall|a: int, b: int| 0 <= a < b < r@.len() ==> text_le(r@[a]@, r@[b]@),
{
    broadcast use vstd::seq_lib::group_to_multiset_ensures;

    let ghost all = items@.map_values(|s: String| s@);
    let mut out: Vec<String> = Vec::new();
    let mut keys: Vec<Vec<char>> = Vec::new();
    let mut i: usize = 0;
    assert(out@.map_values(|s: String| s@) =~= all.subrange(0, 0));
    while i < items.len()
        invariant
            0 <= i <= items.len(),
            all == items@.map_values(|s: String| s@),
            out@.len() == keys@.len(),
            out@.map_values(|s: String| s@).to_multiset() == all.subrange(0, i as int).to_multiset(),
            forall|k: int| 0 <= k < keys@.len() ==> (#[trigger] keys@[k])@ == out@[k]@,
            forall|x: int, y: int| 0 <= x < y < out@.len() ==> text_le(out@[x]@, out@[y]@),
        decreases items.len() - i,
    {
        let a = items[i].clone();
        let key = char_vec(a.as_str());
        let mut lo: usize = 0;
        let mut hi: usize = keys.len();
        while lo < hi
            invariant
                0 <= lo <= hi <= keys@.len(),
                out@.len() == keys@.len(),
                forall|k: int| 0 <= k < keys@.len() ==> (#[trigger] keys@[k])@ == out@[k]@,
                forall|x: int, y: int| 0 <= x < y < out@.len() ==> text_le(out@[x]@, out@[y]@),
                forall|k: int| 0 <= k < lo ==> text_le((#[trigger] keys@[k])@, key@),
                forall|k: int| hi <= k < keys@.len() ==> !text_le((#[trigger] keys@[k])@, key@),
            decreases hi - lo,
        {
            let mid = lo + (hi - lo) / 2;
            if chars_le(&keys[mid], &key) {
                proof {
                    assert forall|k: int| 0 <= k < mid + 1 implies text_le((#[trigger] keys@[k])@, key@) by {
                        if k < mid {
                            assert(text_le(out@[k]@, out@[mid as int]@));
                            lemma_text_le_trans(keys@[k]@, keys@[mid as int]@, key@);
                        }
                    }
                }
                lo = mid + 1;
            } else {
                proof {
                    assert forall|k: int| mid <= k < keys@.len() implies !text_le((#[trigger] keys@[k])@, key@) by {
                        if k > mid {
                            assert(text_le(out@[mid as int]@, out@[k]@));
                            if text_le(keys@[k]@, key@) {
                                lemma_text_le_trans(keys@[mid as int]@, keys@[k]@, key@);
                            }
                        }
                    }
                }
                hi = mid;
            }
        }
        let ghost old_out = out@;
        let ghost old_keys = keys@;
        out.insert(lo, a);
        keys.insert(lo, key);
        proof {
            let f = |s: String| s@;
            assert(out@.map_values(f) =~= old_out.map_values(f).insert(lo as int, a@));
            vstd::seq_lib::to_multiset_insert(old_out.map_values(f), lo as int, a@);
            assert(all.subrange(0, i + 1) =~= all.subrange(0, i as int).push(a@));
            vstd::seq_lib::to_multiset_build(all.subrange(0, i as int), a@);
            assert forall|k: int| 0 <= k < old_keys.len() implies (#[trigger] old_keys[k])@ == old_out[k]@ by {}
            assert forall|k: int| 0 <= k < keys@.len() implies (#[trigger] keys@[k])@ == out@[k]@ by {
                if k < lo {
                    assert(keys@[k] == old_keys[k] && out@[k] == old_out[k]);
                } else if k > lo {
                    assert(keys@[k] == old_keys[k - 1] && out@[k] == old_out[k - 1]);
                }
            }
            assert forall|x: int, y: int| 0 <= x < y < out@.len() implies text_le(out@[x]@, out@[y]@) by {
                if y < lo {
                    assert(out@[x] == old_out[x] && out@[y] == old_out[y]);
                } else if y == lo {
                    assert(out@[x] == old_out[x]);
                    assert(text_le(old_keys[x]@, key@));
                } else if x < lo {
                    assert(out@[x] == old_out[x] && out@[y] == old_out[y - 1]);
                    assert(text_le(old_keys[x]@, key@));
                    assert(!text_le(old_keys[y - 1]@, key@));
                    lemma_text_le_total(old_keys[y - 1]@, key@);
                    lemma_text_le_trans(old_keys[x]@, key@, old_keys[y - 1]@);
                } else if x == lo {
                    assert(out@[y] == old_out[y - 1]);
                    assert(!text_le(old_keys[y - 1]@, key@));
                    lemma_text_le_total(old_keys[y - 1]@, key@);
                } else {
                    assert(out@[x] == old_out[x - 1] && out@[y] == old_out[y - 1]);
                }
            }
        }
        i = i + 1;
    }
    assert(all.subrange(0, i as int) =~= all);
    out
}


/// Relies on `str::trim_start`: leading characters with the `White_Space`
/// property are removed.
#[verifier::external_body]
pub(crate) fn trim_start(s: &str) -> (r: &str)
    ensures
        r@ == trim_start_of(s@),
{
    s.trim_start()
}

/// Whether `c` belongs to character class `k`: 0 ASCII digits, 1 ASCII
/// digits and `-`, 2 ASCII hexadecimal digits.
pub open spec fn in_class(c: char, k: int) -> bool {
    if k == 0 {
        '0' <= c <= '9'
    } else if k == 1 {
        ('0' <= c <= '9') || c == '-'
    } else {
        ('0' <= c <= '9') || ('a' <= c <= 'f') || ('A' <= c <= 'F')
    }
}

/// The longest prefix of `s` whose characters are in class `k`.
pub open spec fn class_prefix(s: Seq<char>, k: int) -> Seq<char>
    decreases s.len(),
{
    if s.len() == 0 || !in_class(s[0], k) {
        seq![]
    } else {
        seq![s[0]] + class_prefix(s.drop_first(), k)
    }
}

proof fn lemma_class_prefix(s: Seq<char>, k: int, i: int)
    requires
        0 <= i <= s.len(),
        forall|j: int| 0 <= j < i ==> in_class(#[trigger] s[j], k),
        i == s.len() || !in_class(s[i], k),
    ensures
        class_prefix(s, k) == s.subrange(0, i),
    decreases i,
{
    if i > 0 {
        assert forall|j: int| 0 <= j < i - 1 implies in_class(#[trigger] s.drop_first()[j], k) by {
            assert(s.drop_first()[j] == s[j + 1]);
        }
        if i < s.len() {
            assert(s.drop_first()[i - 1] == s[i]);
        }
        lemma_class_prefix(s.drop_first(), k, i - 1);
        assert(s.subrange(0, i) =~= seq![s[0]] + s.drop_first().subrange(0, i - 1));
    } else {
        assert(s.subrange(0, 0) =~= seq![]);
    }
}

/// The longest prefix of `s` in character class `k` (see `in_class`).
pub fn take_class(s: &str, k: u8) -> (r: String)
    requires
        k <= 2,
    ensures
        r@ == class_prefix(s@, k as int),
{
    let n = s.unicode_len();
    let mut i: usize = 0;
    while i < n
        invariant
            n == s@.len(),
            0 <= i <= n,
            k <= 2,
            forall|j: int| 0 <= j < i ==> in_class(#[trigger] s@[j], k as int),
        ensures
            i == n || !in_class(s@[i as int], k as int),
        decreases n - i,
    {
        let c = s.get_char(i);
        let ok = if k == 0 {
            '0' <= c && c <= '9'
        } else if k == 1 {
            ('0' <= c && c <= '9') || c == '-'
        } else {
            ('0' <= c && c <= '9') || ('a' <= c && c <= 'f') || ('A' <= c && c <= 'F')
        };
        if !ok {
            break;
        }
        i = i + 1;
    }
    proof {
        lemma_class_prefix(s@, k as int, i as int);
    }
    slice(s, 0, i)
}


/// Strict lexicographic order of byte sequences.
pub open spec fn bytes_lt(a: Seq<u8>, b: Seq<u8>) -> bool
    decreases a.len(),
{
    if b.len() == 0 {
        false
    } else if a.len() == 0 {
        true
    } else if a[0] != b[0] {
        a[0] < b[0]
    } else {
        bytes_lt(a.drop_first(), b.drop_first())
    }
}

pub proof fn lemma_bytes_lt_irreflexive(a: Seq<u8>)
    ensures
        !bytes_lt(a, a),
    decreases a.len(),
{
    if a.len() > 0 {
        lemma_bytes_lt_irreflexive(a.drop_first());
    }
}

pub proof fn lemma_bytes_lt_trans(a: Seq<u8>, b: Seq<u8>, c: Seq<u8>)
    requires
        bytes_lt(a, b),
        bytes_lt(b, c),
    ensures
        bytes_lt(a, c),
    decreases a.len(),
{
    if a.len() > 0 && b.len() > 0 && c.len() > 0 && a[0] == b[0] && b[0] == c[0] {
        lemma_bytes_lt_trans(a.drop_first(), b.drop_first(), c.drop_first());
    }
}

pub proof fn lemma_bytes_lt_total(a: Seq<u8>, b: Seq<u8>)
    requires
        a != b,
    ensures
        bytes_lt(a, b) || bytes_lt(b, a),
    decreases a.len(),
{
    if a.len() > 0 && b.len() > 0 && a[0] == b[0] {
        if a.drop_first() == b.drop_first() {
            assert(a =~= seq![a[0]] + a.drop_first());
            assert(b =~= seq![b[0]] + b.drop_first());
        }
        lemma_bytes_lt_total(a.drop_first(), b.drop_first());
    } else if a.len() == 0 && b.len() == 0 {
        assert(a =~= b);
    }
}

/// Compares byte sequences: negative, zero or positive as `a` sorts before,
/// equal to, or after `b`.
pub fn bytes_cmp(a: &[u8], b: &[u8]) -> (r: i8)
    ensures
        (r < 0) == bytes_lt(a@, b@),
        (r == 0) == (a@ == b@),
        (r > 0) == bytes_lt(b@, a@),
{
    proof {
        lemma_bytes_lt_irreflexive(a@);
    }
    let mut i: usize = 0;
    assert(a@.subrange(0, a@.len() as int) =~= a@);
    assert(b@.subrange(0, b@.len() as int) =~= b@);
    while i < a.len() && i < b.len()
        invariant
            0 <= i <= a@.len(),
            i <= b@.len(),
            forall|j: int| 0 <= j < i ==> a@[j] == b@[j],
            bytes_lt(a@, b@) == bytes_lt(a@.subrange(i as int, a@.len() as int), b@.subrange(i as int, b@.len() as int)),
            bytes_lt(b@, a@) == bytes_lt(b@.subrange(i as int, b@.len() as int), a@.subrange(i as int, a@.len() as int)),
        decreases a@.len() - i,
    {
        let ghost x = a@.subrange(i as int, a@.len() as int);
        let ghost y = b@.subrange(i as int, b@.len() as int);
        assert(x[0] == a@[i as int] && y[0] == b@[i as int]);
        if a[i] != b[i] {
            proof {
                if a@ == b@ {
                    assert(a@[i as int] == b@[i as int]);
                }
            }
            return if a[i] < b[i] { -1 } else { 1 };
        }
        assert(x.drop_first() =~= a@.subrange(i + 1, a@.len() as int));
        assert(y.drop_first() =~= b@.subrange(i + 1, b@.len() as int));
        i = i + 1;
    }
    let ghost x = a@.subrange(i as int, a@.len() as int);
    let ghost y = b@.subrange(i as int, b@.len() as int);
    if i == a.len() && i == b.len() {
        assert(a@ =~= b@);
        0
    } else if i == a.len() {
        assert(x.len() == 0 && y.len() > 0);
        proof {
            if a@ == b@ {
                assert(false);
            }
        }
        -1
    } else {
        assert(y.len() == 0 && x.len() > 0);
        1
    }
}

} // verus!
