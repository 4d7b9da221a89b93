//! TOML layout files: the size and number notations they use, the layout
//! they describe, and the text a layout is saved as.
//!
//! ```toml
//! [layout]
//! name = "My BIOS"
//! chip_size = "16 MiB"
//!
//! [[region]]
//! name = "descriptor"
//! start = 0x000000
//! end = 0x000FFF
//! readonly = true
//! ```
use vstd::prelude::*;
use crate::chip::database::{all_ascii_chars, ascii_lower_char, spec_to_lowercase, to_lowercase};
use super::fmap::decimal;
use super::types::{stably_sorted_by_start, Layout, LayoutError, LayoutSource, Region};

verus! {

/// `c` is white space in the Unicode sense (`char::is_whitespace`).
pub open spec fn is_white_space(c: char) -> bool {
    let x = c as int;
    ||| 9 <= x <= 13
    ||| x == 32
    ||| x == 0x85
    ||| x == 0xA0
    ||| x == 0x1680
    ||| 0x2000 <= x <= 0x200A
    ||| x == 0x2028
    ||| x == 0x2029
    ||| x == 0x202F
    ||| x == 0x205F
    ||| x == 0x3000
}

/// `s` without its leading white space.
pub open spec fn trim_start(s: Seq<char>) -> Seq<char>
    decreases s.len(),
{
    if s.len() > 0 && is_white_space(s[0]) {
        trim_start(s.drop_first())
    } else {
        s
    }
}

/// `s` without its trailing white space.
pub open spec fn trim_end(s: Seq<char>) -> Seq<char>
    decreases s.len(),
{
    if s.len() > 0 && is_white_space(s.last()) {
        trim_end(s.drop_last())
    } else {
        s
    }
}

/// `s` without leading and trailing white space.
pub open spec fn spec_trim(s: Seq<char>) -> Seq<char> {
    trim_end(trim_start(s))
}

/// `str::trim`: the string without leading and trailing white space.
#[verifier::external_body]
fn str_trim(s: &str) -> (r: &str)
    ensures
        r@ == spec_trim(s@),
{
    s.trim()
}

/// `s` starts with `p`.
pub open spec fn has_prefix(s: Seq<char>, p: Seq<char>) -> bool {
    p.len() <= s.len() && s.subrange(0, p.len() as int) == p
}

/// `s` ends with `p`.
pub open spec fn has_suffix(s: Seq<char>, p: Seq<char>) -> bool {
    p.len() <= s.len() && s.subrange(s.len() - p.len(), s.len() as int) == p
}

/// `str::strip_prefix`: the rest of `s` after the prefix `p`, if it has it.
#[verifier::external_body]
fn str_strip_prefix<'a>(s: &'a str, p: &str) -> (r: Option<&'a str>)
    ensures
        match r {
            Some(rest) => has_prefix(s@, p@) && rest@ == s@.subrange(p@.len() as int, s@.len() as int),
            None => !has_prefix(s@, p@),
        },
{
    s.strip_prefix(p)
}

/// `str::strip_suffix`: `s` before the suffix `p`, if it has it.
#[verifier::external_body]
fn str_strip_suffix<'a>(s: &'a str, p: &str) -> (r: Option<&'a str>)
    ensures
        match r {
            Some(rest) => has_suffix(s@, p@) && rest@ == s@.subrange(0, s@.len() - p@.len()),
            None => !has_suffix(s@, p@),
        },
{
    s.strip_suffix(p)
}

/// The value of the digit `c` in base `radix` (10 or 16, either case).
pub open spec fn digit_value(c: char, radix: int) -> Option<int> {
    let x = c as int;
    if 48 <= x <= 57 && x - 48 < radix {
        Some(x - 48)
    } else if radix == 16 && 97 <= x <= 102 {
        Some(x - 87)
    } else if radix == 16 && 65 <= x <= 70 {
        Some(x - 55)
    } else {
        None
    }
}

/// Every character of `s` is a digit of base `radix`.
pub open spec fn all_digits(s: Seq<char>, radix: int) -> bool {
    forall|i: int| 0 <= i < s.len() ==> #[trigger] digit_value(s[i], radix) is Some
}

/// The value of the digits `s` in base `radix`.
pub open spec fn digits_value(s: Seq<char>, radix: int) -> int
    decreases s.len(),
{
    if s.len() == 0 {
        0
    } else {
        digits_value(s.drop_last(), radix) * radix + digit_value(s.last(), radix)->0
    }
}

/// What `u32::from_str_radix(s, radix)` gives: an optional `+`, then at
/// least one digit, the value fitting in 32 bits.
pub open spec fn spec_parse_u32(s: Seq<char>, radix: int) -> Option<u32> {
    let digits = if s.len() > 0 && s[0] == '+' { s.drop_first() } else { s };
    if digits.len() == 0 || !all_digits(digits, radix) || digits_value(digits, radix) > u32::MAX {
        None
    } else {
        Some(digits_value(digits, radix) as u32)
    }
}

/// `str::parse::<u32>`: the decimal value of `s`, if it is one.
#[verifier::external_body]
pub(crate) fn parse_decimal_u32(s: &str) -> (r: Option<u32>)
    ensures
        r == spec_parse_u32(s@, 10),
{
    s.parse::<u32>().ok()
}

/// The error text of parsing the digits `d` in base `radix` after the
/// value `acc` read so far, scanning left to right: an invalid digit, or a
/// value too large for 32 bits, whichever comes first.
pub open spec fn digits_error_text(d: Seq<char>, radix: int, acc: int) -> Seq<char>
    decreases d.len(),
{
    if d.len() == 0 {
        seq![]
    } else {
        match digit_value(d[0], radix) {
            None => "invalid digit found in string"@,
            Some(v) => if acc * radix + v > u32::MAX {
                "number too large to fit in target type"@
            } else {
                digits_error_text(d.drop_first(), radix, acc * radix + v)
            },
        }
    }
}

/// The text of the error `u32::from_str_radix(s, radix)` reports for `s`:
/// the empty string is reported as such, a lone sign as an invalid digit,
/// otherwise the first problem met scanning the digits after an optional
/// `+`.
pub open spec fn parse_error_text(s: Seq<char>, radix: int) -> Seq<char> {
    if s.len() == 0 {
        "cannot parse integer from empty string"@
    } else if s.len() == 1 && (s[0] == '+' || s[0] == '-') {
        "invalid digit found in string"@
    } else {
        digits_error_text(if s[0] == '+' { s.drop_first() } else { s }, radix, 0)
    }
}

/// The text of the error `u32::from_str_radix(s, 16)` reports for `s`.
pub open spec fn spec_hex_error_text(s: Seq<char>) -> Seq<char> {
    parse_error_text(s, 16)
}

/// `u32::from_str_radix(s, 16)`: the hexadecimal value of `s`, or the
/// text of the parse error (a function of `s`).
#[verifier::external_body]
fn parse_hex_u32(s: &str) -> (r: Result<u32, String>)
    ensures
        match r {
            Ok(n) => spec_parse_u32(s@, 16) == Some(n),
            Err(e) => spec_parse_u32(s@, 16) is None && e@ == spec_hex_error_text(s@),
        },
{
    match u32::from_str_radix(s, 16) {
        Ok(n) => Ok(n),
        Err(e) => Err(e.to_string()),
    }
}

/// The text of the error `str::parse::<u32>` reports for `s`.
pub open spec fn spec_decimal_error_text(s: Seq<char>) -> Seq<char> {
    parse_error_text(s, 10)
}

/// `str::parse::<u32>` with the text of its error (a function of `s`).
#[verifier::external_body]
fn parse_decimal_u32_or_text(s: &str) -> (r: Result<u32, String>)
    ensures
        match r {
            Ok(n) => spec_parse_u32(s@, 10) == Some(n),
            Err(e) => spec_parse_u32(s@, 10) is None && e@ == spec_decimal_error_text(s@),
        },
{
    match s.parse::<u32>() {
        Ok(n) => Ok(n),
        Err(e) => Err(e.to_string()),
    }
}

/// `prefix` followed by `text`, formatted.
#[verifier::external_body]
pub(crate) fn format_message(prefix: &str, text: &str) -> (r: String)
    ensures
        r@ == prefix@ + text@,
{
    format!("{}{}", prefix, text)
}

/// The `0x` or `0X` prefix of `s` removed, if it has one.
pub open spec fn strip_hex_prefix(s: Seq<char>) -> Option<Seq<char>> {
    if has_prefix(s, "0x"@) {
        Some(s.subrange(2, s.len() as int))
    } else if has_prefix(s, "0X"@) {
        Some(s.subrange(2, s.len() as int))
    } else {
        None
    }
}

/// What `parse_number` returns for `s`: a number in hexadecimal after a
/// `0x`/`0X` prefix, else in decimal, surrounding white space ignored.
pub open spec fn spec_parse_number(s: Seq<char>) -> Result<u32, Seq<char>> {
    let t = spec_trim(s);
    match strip_hex_prefix(t) {
        Some(h) => match spec_parse_u32(h, 16) {
            Some(n) => Ok(n),
            None => Err("invalid hex: "@ + spec_hex_error_text(h)),
        },
        None => match spec_parse_u32(t, 10) {
            Some(n) => Ok(n),
            None => Err("invalid number: "@ + spec_decimal_error_text(t)),
        },
    }
}

fn strip_hex(t: &str) -> (r: Option<&str>)
    ensures
        match r {
            Some(h) => strip_hex_prefix(t@) == Some(h@),
            None => strip_hex_prefix(t@) is None,
        },
{
    proof {
        reveal_strlit("0x");
        reveal_strlit("0X");
    }
    match str_strip_prefix(t, "0x") {
        Some(h) => Some(h),
        None => str_strip_prefix(t, "0X"),
    }
}

/// Parse a number that can be hex (0x...) or decimal
pub fn parse_number(s: &str) -> (r: Result<u32, String>)
    ensures
        match r {
            Ok(n) => spec_parse_number(s@) == Ok::<u32, Seq<char>>(n),
            Err(e) => spec_parse_number(s@) == Err::<u32, Seq<char>>(e@),
        },
{
    let t = str_trim(s);
    match strip_hex(t) {
        Some(hex) => match parse_hex_u32(hex) {
            Ok(n) => Ok(n),
            Err(e) => Err(format_message("invalid hex: ", e.as_str())),
        },
        None => match parse_decimal_u32_or_text(t) {
            Ok(n) => Ok(n),
            Err(e) => Err(format_message("invalid number: ", e.as_str())),
        },
    }
}

/// The unit suffixes of a size, in the order they are tried, with their
/// multipliers.
pub open spec fn size_unit(lower: Seq<char>) -> Option<(Seq<char>, int)> {
    if has_suffix(lower, "mib"@) {
        Some((lower.subrange(0, lower.len() - 3), 1048576))
    } else if has_suffix(lower, "mb"@) {
        Some((lower.subrange(0, lower.len() - 2), 1048576))
    } else if has_suffix(lower, "kib"@) {
        Some((lower.subrange(0, lower.len() - 3), 1024))
    } else if has_suffix(lower, "kb"@) {
        Some((lower.subrange(0, lower.len() - 2), 1024))
    } else if has_suffix(lower, "b"@) {
        Some((lower.subrange(0, lower.len() - 1), 1))
    } else {
        None
    }
}

/// The lower-case form of `t`: for ASCII text each letter lower-cased as
/// ASCII, otherwise what `str::to_lowercase` gives.
pub open spec fn lower_case(t: Seq<char>) -> Seq<char> {
    if all_ascii_chars(t) {
        t.map_values(|c: char| ascii_lower_char(c))
    } else {
        spec_to_lowercase(t)
    }
}

/// What `parse_size` returns for `s`: surrounding white space ignored, a
/// plain decimal number, else a `0x`/`0X` hexadecimal number, else a
/// decimal number with a unit (`MiB`, `MB`, `KiB`, `KB` or `B`, any case;
/// `MB` and `KB` count in powers of two). Any other text, or a size beyond
/// 32 bits, is refused with `invalid size: ` and the trimmed text.
pub open spec fn spec_parse_size(s: Seq<char>) -> Result<u32, Seq<char>> {
    let t = spec_trim(s);
    let hex = match strip_hex_prefix(t) {
        Some(h) => spec_parse_u32(spec_trim(h), 16),
        None => None,
    };
    let invalid = Err("invalid size: "@ + t);
    if spec_parse_u32(t, 10) is Some {
        Ok(spec_parse_u32(t, 10)->0)
    } else if hex is Some {
        Ok(hex->0)
    } else {
        match size_unit(lower_case(t)) {
            Some((num, multiplier)) => match spec_parse_u32(spec_trim(num), 10) {
                Some(n) => if n * multiplier <= u32::MAX { Ok((n * multiplier) as u32) } else { invalid },
                None => invalid,
            },
            None => invalid,
        }
    }
}

/// The unit of a lower-cased size, tried in order.
fn split_unit(lower: &str) -> (r: Option<(&str, u32)>)
    ensures
        match r {
            Some((num, m)) => size_unit(lower@) == Some((num@, m as int)),
            None => size_unit(lower@) is None,
        },
{
    if let Some(n) = str_strip_suffix(lower, "mib") {
        proof { reveal_strlit("mib"); }
        return Some((n, 1048576));
    }
    if let Some(n) = str_strip_suffix(lower, "mb") {
        proof { reveal_strlit("mb"); }
        return Some((n, 1048576));
    }
    if let Some(n) = str_strip_suffix(lower, "kib") {
        proof { reveal_strlit("kib"); }
        return Some((n, 1024));
    }
    if let Some(n) = str_strip_suffix(lower, "kb") {
        proof { reveal_strlit("kb"); }
        return Some((n, 1024));
    }
    if let Some(n) = str_strip_suffix(lower, "b") {
        proof { reveal_strlit("b"); }
        return Some((n, 1));
    }
    None
}

/// Parse a size string like "16 MiB" or "4096"
///
/// A size beyond 32 bits is refused like any other invalid size.
pub fn parse_size(s: &str) -> (r: Result<u32, String>)
    ensures
        match r {
            Ok(n) => spec_parse_size(s@) == Ok::<u32, Seq<char>>(n),
            Err(e) => spec_parse_size(s@) == Err::<u32, Seq<char>>(e@),
        },
{
    let t = str_trim(s);
    if let Some(n) = parse_decimal_u32(t) {
        return Ok(n);
    }
    if let Some(hex) = strip_hex(t) {
        if let Some(n) = parse_decimal_or_hex(str_trim(hex)) {
            return Ok(n);
        }
    }
    let lower = to_lowercase(t);
    match split_unit(lower.as_str()) {
        Some((num_str, multiplier)) => match parse_decimal_u32(str_trim(num_str)) {
            Some(num) => match num.checked_mul(multiplier) {
                Some(bytes) => Ok(bytes),
                None => Err(format_message("invalid size: ", t)),
            },
            None => Err(format_message("invalid size: ", t)),
        },
        None => Err(format_message("invalid size: ", t)),
    }
}

/// The hexadecimal value of `s`, if it is one.
fn parse_decimal_or_hex(s: &str) -> (r: Option<u32>)
    ensures
        r == spec_parse_u32(s@, 16),
{
    match parse_hex_u32(s) {
        Ok(n) => Some(n),
        Err(_) => None,
    }
}

} // verus!

verus! {

/// One `[[region]]` table of a TOML layout file.
#[derive(Debug)]
pub struct TomlRegion {
    /// Region name
    pub name: String,
    /// Start address (inclusive)
    pub start: u32,
    /// End address (inclusive)
    pub end: u32,
    /// Whether the region is read-only
    pub readonly: bool,
    /// Whether the region is dangerous to modify
    pub dangerous: bool,
}

/// The `[layout]` table of a TOML layout file.
#[derive(Debug)]
pub struct TomlLayoutMeta {
    /// Layout name
    pub name: Option<String>,
    /// Expected chip size, as a size text such as `16 MiB`
    pub chip_size: Option<String>,
}

/// A TOML layout file: its optional `[layout]` table and its regions.
#[derive(Debug)]
pub struct TomlLayoutFile {
    /// The `[layout]` table
    pub layout: Option<TomlLayoutMeta>,
    /// The `[[region]]` tables, in file order
    pub region: Vec<TomlRegion>,
}

/// `r` is the region that the table `t` describes (not included).
pub open spec fn region_of_table(r: Region, t: TomlRegion) -> bool {
    &&& r.name@ == t.name@
    &&& r.start == t.start
    &&& r.end == t.end
    &&& r.readonly == t.readonly
    &&& r.dangerous == t.dangerous
    &&& !r.included
}

/// `u` holds, in file order, the regions of the tables `ts`.
pub open spec fn regions_of_tables(u: Seq<Region>, ts: Seq<TomlRegion>) -> bool {
    &&& u.len() == ts.len()
    &&& forall|k: int| 0 <= k < u.len() ==> #[trigger] region_of_table(u[k], ts[k])
}

/// The file's chip size text does not parse.
pub open spec fn toml_size_invalid(f: TomlLayoutFile) -> bool {
    f.layout matches Some(meta) && meta.chip_size matches Some(text) && spec_parse_size(text@) is Err
}

/// `l` is the layout the file `f` describes: name and chip size from its
/// `[layout]` table, its regions stably sorted by start address.
pub open spec fn toml_layout(l: Layout, f: TomlLayoutFile) -> bool {
    &&& l.source == LayoutSource::Toml
    &&& match f.layout {
        Some(meta) => {
            &&& (l.name is Some <==> meta.name is Some)
            &&& (meta.name is Some ==> l.name->0@ == meta.name->0@)
            &&& match meta.chip_size {
                Some(text) => l.chip_size == Some(spec_parse_size(text@)->Ok_0),
                None => l.chip_size is None,
            }
        },
        None => l.name is None && l.chip_size is None,
    }
    &&& exists|u: Seq<Region>| #[trigger] regions_of_tables(u, f.region@) && stably_sorted_by_start(u, l.regions@)
}

impl Layout {
    /// The layout that a parsed TOML layout file describes.
    ///
    /// A chip size that does not parse is a parse error.
    pub fn from_toml_file_data(file: TomlLayoutFile) -> (r: Result<Layout, LayoutError>)
        ensures
            match r {
                Ok(l) => !toml_size_invalid(file) && toml_layout(l, file),
                Err(e) => e == LayoutError::ParseError && toml_size_invalid(file),
            },
    {
        let ghost f = file;
        let TomlLayoutFile { layout: meta, region: tables } = file;
        let mut layout = Layout::with_source(LayoutSource::Toml);
        match meta {
            Some(meta) => {
                let TomlLayoutMeta { name, chip_size } = meta;
                layout.name = name;
                match chip_size {
                    Some(text) => match parse_size(text.as_str()) {
                        Ok(size) => {
                            layout.chip_size = Some(size);
                        },
                        Err(_) => {
                            return Err(LayoutError::ParseError);
                        },
                    },
                    None => {},
                }
            },
            None => {},
        }
        let tables = tables;
        let ghost ts = tables@;
        let ghost name0 = layout.name;
        let ghost size0 = layout.chip_size;
        let mut k: usize = 0;
        while k < tables.len()
            invariant
                ts == tables@,
                k <= ts.len(),
                layout.regions@.len() == k,
                forall|j: int| 0 <= j < k ==> #[trigger] region_of_table(layout.regions@[j], ts[j]),
                layout.source == LayoutSource::Toml,
                layout.name == name0,
                layout.chip_size == size0,
            decreases ts.len() - k,
        {
            let t = &tables[k];
            let region = Region {
                name: t.name.clone(),
                start: t.start,
                end: t.end,
                readonly: t.readonly,
                dangerous: t.dangerous,
                included: false,
            };
            let ghost before = layout.regions@;
            layout.add_region(region);
            proof {
                assert forall|j: int| 0 <= j < k + 1 implies #[trigger] region_of_table(layout.regions@[j], ts[j]) by {
                    if j < k {
                        assert(layout.regions@[j] == before[j]);
                    }
                }
            }
            k += 1;
        }
        let ghost unsorted = layout.regions@;
        assert(regions_of_tables(unsorted, f.region@));
        layout.sort_by_address();
        Ok(layout)
    }
}

} // verus!

verus! {

/// `string.push_str`: `t` appended to `s`.
#[verifier::external_body]
pub(crate) fn push_str(s: &mut String, t: &str)
    ensures
        final(s)@ == old(s)@ + t@,
{
    s.push_str(t)
}

/// The decimal notation of `n`, formatted.
#[verifier::external_body]
pub(crate) fn format_decimal(n: u32) -> (r: String)
    ensures
        r@ == decimal(n as nat),
{
    format!("{}", n)
}

/// Sixteen to the power `k`.
pub open spec fn pow16(k: nat) -> nat
    decreases k,
{
    if k == 0 { 1 } else { 16 * pow16((k - 1) as nat) }
}

/// The upper-case hexadecimal digit of `d` (0 to 15).
pub open spec fn hex_digit_char(d: int) -> char {
    if d < 10 { (48 + d) as char } else { (55 + d) as char }
}

/// `n` as eight upper-case hexadecimal digits, zero-padded.
pub open spec fn hex8(n: u32) -> Seq<char> {
    Seq::new(8, |k: int| hex_digit_char(((n as nat) / pow16((7 - k) as nat)) as int % 16))
}

/// `n` formatted as eight upper-case hexadecimal digits (`{:08X}`).
#[verifier::external_body]
fn format_hex8(n: u32) -> (r: String)
    ensures
        r@ == hex8(n),
{
    format!("{:08X}", n)
}

/// A size as text: whole MiB as `<n> MiB`, else whole KiB as `<n> KiB`,
/// else the number of bytes.
pub open spec fn size_text(size: u32) -> Seq<char> {
    if size >= 1048576 && size % 1048576 == 0 {
        decimal((size / 1048576) as nat) + " MiB"@
    } else if size >= 1024 && size % 1024 == 0 {
        decimal((size / 1024) as nat) + " KiB"@
    } else {
        decimal(size as nat)
    }
}

/// Format a size as human-readable string
pub fn format_size(size: u32) -> (r: String)
    ensures
        r@ == size_text(size),
{
    if size >= 1024 * 1024 && size % (1024 * 1024) == 0 {
        let mut s = format_decimal(size / (1024 * 1024));
        push_str(&mut s, " MiB");
        s
    } else if size >= 1024 && size % 1024 == 0 {
        let mut s = format_decimal(size / 1024);
        push_str(&mut s, " KiB");
        s
    } else {
        format_decimal(size)
    }
}

/// The `[[region]]` table of a region.
pub open spec fn region_toml(r: Region) -> Seq<char> {
    "[[region]]\n"@ + "name = \""@ + r.name@ + "\"\n"@ + "start = 0x"@ + hex8(r.start) + "\n"@
        + "end = 0x"@ + hex8(r.end) + "\n"@
        + (if r.readonly { "readonly = true\n"@ } else { Seq::<char>::empty() })
        + (if r.dangerous { "dangerous = true\n"@ } else { Seq::<char>::empty() }) + "\n"@
}

/// The `[[region]]` tables of the regions, in order.
pub open spec fn regions_toml(rs: Seq<Region>) -> Seq<char>
    decreases rs.len(),
{
    if rs.len() == 0 {
        Seq::empty()
    } else {
        regions_toml(rs.drop_last()) + region_toml(rs.last())
    }
}

/// The `[layout]` table of a layout.
pub open spec fn layout_meta_toml(l: Layout) -> Seq<char> {
    "[layout]\n"@ + (match l.name {
        Some(n) => "name = \""@ + n@ + "\"\n"@,
        None => Seq::empty(),
    }) + (match l.chip_size {
        Some(size) => "chip_size = \""@ + size_text(size) + "\"\n"@,
        None => Seq::empty(),
    }) + "\n"@
}

/// The TOML text a layout is saved as.
pub open spec fn layout_toml(l: Layout) -> Seq<char> {
    layout_meta_toml(l) + regions_toml(l.regions@)
}

/// Append the `[[region]]` table of `r`.
fn push_region_toml(out: &mut String, r: &Region)
    ensures
        final(out)@ == old(out)@ + region_toml(*r),
{
    let ghost start = out@;
    push_str(out, "[[region]]\n");
    push_str(out, "name = \"");
    push_str(out, r.name.as_str());
    push_str(out, "\"\n");
    push_str(out, "start = 0x");
    let start_hex = format_hex8(r.start);
    push_str(out, start_hex.as_str());
    push_str(out, "\n");
    push_str(out, "end = 0x");
    let end_hex = format_hex8(r.end);
    push_str(out, end_hex.as_str());
    push_str(out, "\n");
    let ghost before_flags = out@;
    if r.readonly {
        push_str(out, "readonly = true\n");
    } else {
        assert(out@ =~= before_flags + Seq::<char>::empty());
    }
    let ghost before_dangerous = out@;
    if r.dangerous {
        push_str(out, "dangerous = true\n");
    } else {
        assert(out@ =~= before_dangerous + Seq::<char>::empty());
    }
    push_str(out, "\n");
    assert(out@ =~= start + region_toml(*r));
}

impl Layout {
    /// Convert layout to TOML string
    pub fn to_toml_string(&self) -> (r: Result<String, LayoutError>)
        ensures
            r matches Ok(text) && text@ == layout_toml(*self),
    {
        let mut out = String::new();
        push_str(&mut out, "[layout]\n");
        let ghost after_header = out@;
        match &self.name {
            Some(name) => {
                push_str(&mut out, "name = \"");
                push_str(&mut out, name.as_str());
                push_str(&mut out, "\"\n");
            },
            None => {
                assert(out@ =~= after_header + Seq::<char>::empty());
            },
        }
        let ghost after_name = out@;
        match self.chip_size {
            Some(size) => {
                push_str(&mut out, "chip_size = \"");
                let text = format_size(size);
                push_str(&mut out, text.as_str());
                push_str(&mut out, "\"\n");
            },
            None => {
                assert(out@ =~= after_name + Seq::<char>::empty());
            },
        }
        push_str(&mut out, "\n");
        let ghost meta = out@;
        assert(meta =~= layout_meta_toml(*self));
        let mut k: usize = 0;
        while k < self.regions.len()
            invariant
                k <= self.regions@.len(),
                meta == layout_meta_toml(*self),
                out@ == meta + regions_toml(self.regions@.take(k as int)),
            decreases self.regions@.len() - k,
        {
            let ghost before = out@;
            push_region_toml(&mut out, &self.regions[k]);
            proof {
                let rs = self.regions@.take(k + 1);
                assert(rs.drop_last() =~= self.regions@.take(k as int));
                assert(rs.last() == self.regions@[k as int]);
                assert(out@ =~= meta + regions_toml(rs));
            }
            k += 1;
        }
        assert(self.regions@.take(k as int) =~= self.regions@);
        Ok(out)
    }
}

} // verus!
