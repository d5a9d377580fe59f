//! Typed SVG attribute values.
//!
//! Most attributes stay opaque strings; `transform`, `viewBox`, `d`, `fill`
//! and `stroke` are parsed into canonical forms so that differently written
//! but equal values compare equal.

pub mod matrix;
pub mod path;
pub mod view_box;

use vstd::prelude::*;

use crate::errors::SvgError;
use crate::hasher::Fnv;
use crate::hasher::fnv_fold;
use crate::hasher::le_bytes;
use crate::svg_data::attributes::matrix::MatrixValue;
use crate::svg_data::attributes::path::PathSeg;
use crate::svg_data::attributes::path::PathValue;
use crate::svg_data::attributes::view_box::ViewBoxValue;
use crate::text::chars_of;
use crate::text::cmp_chars;
use crate::text::cp_eq;
use crate::text::string_from_chars;
use crate::tokens::tokens_of;

verus! {

/// A typed attribute value.  Colours (`fill`, `stroke`) are already
/// canonicalised to lowercase hex at parse time and stored as strings.
#[derive(Debug, Clone)]
pub enum SVGAttValue {
    String(String),
    Matrix(MatrixValue),
    Path(PathValue),
    ViewBox(ViewBoxValue),
}

/// Structural equality of two attribute values, with strings compared by
/// their characters.
pub open spec fn att_eq(a: SVGAttValue, b: SVGAttValue) -> bool {
    match (a, b) {
        (SVGAttValue::String(x), SVGAttValue::String(y)) => x@ == y@,
        (SVGAttValue::Matrix(x), SVGAttValue::Matrix(y)) => x == y,
        (SVGAttValue::Path(x), SVGAttValue::Path(y)) => x.segments@ == y.segments@,
        (SVGAttValue::ViewBox(x), SVGAttValue::ViewBox(y)) => x == y,
        _ => false,
    }
}

/// The value can be serialised back (its numbers are storable).
pub open spec fn att_wf(a: SVGAttValue) -> bool {
    match a {
        SVGAttValue::String(_) => true,
        SVGAttValue::Matrix(m) => matrix::matrix_wf(m),
        SVGAttValue::Path(p) => path::path_norm_wf(p.segments@) && path::path_printable(
            p.segments@,
        ),
        SVGAttValue::ViewBox(v) => view_box::view_box_wf(v),
    }
}

/// The canonical serialisation of an attribute value.
pub open spec fn att_str(a: SVGAttValue) -> Seq<char> {
    match a {
        SVGAttValue::String(s) => s@,
        SVGAttValue::Matrix(m) => matrix::matrix_str(m),
        SVGAttValue::Path(p) => path::path_str(p.segments@),
        SVGAttValue::ViewBox(v) => view_box::view_box_str(v),
    }
}

// ------------------------------------------------------------------
// colours

/// An ASCII space character as the colour grammar skips it.
pub open spec fn is_space(c: char) -> bool {
    c == ' ' || c == '\t' || c == '\n' || c == '\r'
}

/// `s` without leading spaces.
pub open spec fn trim_left(s: Seq<char>) -> Seq<char>
    decreases s.len(),
{
    if s.len() > 0 && is_space(s[0]) {
        trim_left(s.drop_first())
    } else {
        s
    }
}

/// `s` without trailing spaces.
pub open spec fn trim_right(s: Seq<char>) -> Seq<char>
    decreases s.len(),
{
    if s.len() > 0 && is_space(s.last()) {
        trim_right(s.drop_last())
    } else {
        s
    }
}

/// `s` without surrounding spaces.
pub open spec fn trimmed(s: Seq<char>) -> Seq<char> {
    trim_right(trim_left(s))
}

/// A hexadecimal digit.
pub open spec fn is_hex_digit(c: char) -> bool {
    (48 <= c as u32 <= 57) || (97 <= c as u32 <= 102) || (65 <= c as u32 <= 70)
}

/// The value of a hexadecimal digit.
pub open spec fn hex_val(c: char) -> int {
    if 48 <= c as u32 <= 57 {
        c as u32 - 48
    } else if 97 <= c as u32 <= 102 {
        c as u32 - 87
    } else {
        c as u32 - 55
    }
}

/// The channel value of a digit pair.
pub open spec fn hex_pair_val(h: char, l: char) -> int {
    hex_val(h) * 16 + hex_val(l)
}

/// The channel value of one digit in short notation: `f` means `ff`.
pub open spec fn short_hex_val(c: char) -> int {
    hex_val(c) * 17
}

/// The colour denoted by a hex colour string (already trimmed): `#` followed
/// by three, four, six or eight hex digits.
pub open spec fn hex_color_of(s: Seq<char>) -> Option<(u8, u8, u8, u8)> {
    if s.len() > 0 && s[0] == '#' && (forall|i: int|
        1 <= i < s.len() ==> is_hex_digit(#[trigger] s[i])) {
        if s.len() == 7 {
            Some(
                (
                    hex_pair_val(s[1], s[2]) as u8,
                    hex_pair_val(s[3], s[4]) as u8,
                    hex_pair_val(s[5], s[6]) as u8,
                    255u8,
                ),
            )
        } else if s.len() == 9 {
            Some(
                (
                    hex_pair_val(s[1], s[2]) as u8,
                    hex_pair_val(s[3], s[4]) as u8,
                    hex_pair_val(s[5], s[6]) as u8,
                    hex_pair_val(s[7], s[8]) as u8,
                ),
            )
        } else if s.len() == 4 {
            Some(
                (
                    short_hex_val(s[1]) as u8,
                    short_hex_val(s[2]) as u8,
                    short_hex_val(s[3]) as u8,
                    255u8,
                ),
            )
        } else if s.len() == 5 {
            Some(
                (
                    short_hex_val(s[1]) as u8,
                    short_hex_val(s[2]) as u8,
                    short_hex_val(s[3]) as u8,
                    short_hex_val(s[4]) as u8,
                ),
            )
        } else {
            None
        }
    } else {
        None
    }
}

/// What the outside colour parser makes of a non-hex colour string (a named
/// colour, `rgb(...)`, ...).  The result is a function of the string alone;
/// `None` when the string is not a colour.
pub uninterp spec fn color_of(s: Seq<char>) -> Option<(u8, u8, u8, u8)>;

/// Relies on `svgtypes::Color::from_str`: parses a CSS colour into its four
/// channels.  The result depends on the input string alone.
#[verifier::external_body]
fn parse_color_outside(s: &str) -> (r: Option<(u8, u8, u8, u8)>)
    ensures
        r == color_of(s@),
{
    match <svgtypes::Color as std::str::FromStr>::from_str(s) {
        Ok(c) => Some((c.red, c.green, c.blue, c.alpha)),
        Err(_) => None,
    }
}

/// The colour a `fill`/`stroke` value denotes: hex strings go through the
/// library's own parser, everything else through the outside one.
pub open spec fn color_result(s: Seq<char>) -> Option<(u8, u8, u8, u8)> {
    if trimmed(s).len() > 0 && trimmed(s)[0] == '#' {
        hex_color_of(trimmed(s))
    } else {
        color_of(s)
    }
}

/// The lowercase hex character of one digit value.
pub open spec fn hex_char(d: int) -> char {
    if d == 0 { '0' }
    else if d == 1 { '1' }
    else if d == 2 { '2' }
    else if d == 3 { '3' }
    else if d == 4 { '4' }
    else if d == 5 { '5' }
    else if d == 6 { '6' }
    else if d == 7 { '7' }
    else if d == 8 { '8' }
    else if d == 9 { '9' }
    else if d == 10 { 'a' }
    else if d == 11 { 'b' }
    else if d == 12 { 'c' }
    else if d == 13 { 'd' }
    else if d == 14 { 'e' }
    else { 'f' }
}

/// The two lowercase hex characters of one channel.
pub open spec fn hex_pair_str(v: u8) -> Seq<char> {
    seq![hex_char(v as int / 16), hex_char(v as int % 16)]
}

/// The canonical serialisation of a colour: lowercase `#rrggbb`, with `aa`
/// appended when the alpha channel is not 255.
pub open spec fn color_str(c: (u8, u8, u8, u8)) -> Seq<char> {
    seq!['#'] + hex_pair_str(c.0) + hex_pair_str(c.1) + hex_pair_str(c.2) + (if c.3 == 255 {
        Seq::<char>::empty()
    } else {
        hex_pair_str(c.3)
    })
}

fn hex_char_exec(d: u8) -> (r: char)
    requires
        d < 16,
    ensures
        r == hex_char(d as int),
{
    match d {
        0 => '0',
        1 => '1',
        2 => '2',
        3 => '3',
        4 => '4',
        5 => '5',
        6 => '6',
        7 => '7',
        8 => '8',
        9 => '9',
        10 => 'a',
        11 => 'b',
        12 => 'c',
        13 => 'd',
        14 => 'e',
        _ => 'f',
    }
}

fn push_hex_pair(out: &mut Vec<char>, v: u8)
    ensures
        final(out)@ == old(out)@ + hex_pair_str(v),
{
    out.push(hex_char_exec(v / 16));
    out.push(hex_char_exec(v % 16));
    proof {
        assert(final(out)@ =~= old(out)@ + hex_pair_str(v));
    }
}

/// The canonical colour string.
pub fn color_to_string(c: (u8, u8, u8, u8)) -> (r: String)
    ensures
        r@ == color_str(c),
{
    let mut out: Vec<char> = Vec::new();
    out.push('#');
    push_hex_pair(&mut out, c.0);
    push_hex_pair(&mut out, c.1);
    push_hex_pair(&mut out, c.2);
    if c.3 != 255 {
        push_hex_pair(&mut out, c.3);
    }
    proof {
        assert(out@ =~= color_str(c));
    }
    string_from_chars(&out)
}

fn is_hex_digit_exec(c: char) -> (r: bool)
    ensures
        r == is_hex_digit(c),
{
    let u = c as u32;
    (48 <= u && u <= 57) || (97 <= u && u <= 102) || (65 <= u && u <= 70)
}

fn hex_val_exec(c: char) -> (r: u8)
    requires
        is_hex_digit(c),
    ensures
        r as int == hex_val(c),
        r < 16,
{
    let u = c as u32;
    if 48 <= u && u <= 57 {
        (u - 48) as u8
    } else if 97 <= u && u <= 102 {
        (u - 87) as u8
    } else {
        (u - 55) as u8
    }
}

fn is_space_exec(c: char) -> (r: bool)
    ensures
        r == is_space(c),
{
    c == ' ' || c == '\t' || c == '\n' || c == '\r'
}

/// The characters without surrounding spaces.
fn trim_chars(v: &Vec<char>) -> (r: Vec<char>)
    ensures
        r@ == trimmed(v@),
{
    let n = v.len();
    let mut lo: usize = 0;
    proof {
        assert(v@.skip(0) =~= v@);
    }
    while lo < n && is_space_exec(v[lo])
        invariant
            lo <= n,
            n == v@.len(),
            trim_left(v@) == trim_left(v@.skip(lo as int)),
        decreases n - lo,
    {
        proof {
            assert(v@.skip(lo as int).drop_first() =~= v@.skip(lo + 1));
        }
        lo = lo + 1;
    }
    proof {
        if lo < n {
            assert(trim_left(v@.skip(lo as int)) == v@.skip(lo as int));
        } else {
            assert(v@.skip(lo as int) =~= Seq::<char>::empty());
        }
    }
    let mut hi: usize = n;
    proof {
        assert(v@.skip(lo as int).take(n - lo) =~= v@.skip(lo as int));
    }
    while hi > lo && is_space_exec(v[hi - 1])
        invariant
            lo <= hi <= n,
            n == v@.len(),
            trim_left(v@) == trim_left(v@.skip(lo as int)),
            trim_left(v@) == v@.skip(lo as int),
            trim_right(v@.skip(lo as int)) == trim_right(
                v@.skip(lo as int).take(hi - lo),
            ),
        decreases hi,
    {
        proof {
            let cur = v@.skip(lo as int).take(hi - lo);
            assert(cur.last() == v@[hi - 1]);
            assert(cur.drop_last() =~= v@.skip(lo as int).take(hi - 1 - lo));
        }
        hi = hi - 1;
    }
    proof {
        let cur = v@.skip(lo as int).take(hi - lo);
        if hi > lo {
            assert(cur.last() == v@[hi - 1]);
            assert(trim_right(cur) == cur);
        } else {
            assert(cur =~= Seq::<char>::empty());
        }
    }
    let mut r: Vec<char> = Vec::new();
    let mut i: usize = lo;
    while i < hi
        invariant
            lo <= i <= hi <= n,
            n == v@.len(),
            r@ == v@.subrange(lo as int, i as int),
        decreases hi - i,
    {
        r.push(v[i]);
        i = i + 1;
        proof {
            assert(r@ =~= v@.subrange(lo as int, i as int));
        }
    }
    proof {
        assert(v@.subrange(lo as int, hi as int) =~= v@.skip(lo as int).take(hi - lo));
        assert(r@ == trimmed(v@));
    }
    r
}

/// Parses a trimmed hex colour string exactly as the colour grammar does.
fn parse_hex_color(t: &Vec<char>) -> (r: Option<(u8, u8, u8, u8)>)
    ensures
        r == hex_color_of(t@),
{
    let n = t.len();
    if n == 0 || t[0] != '#' {
        return None;
    }
    let mut i: usize = 1;
    while i < n
        invariant
            1 <= i <= n,
            n == t@.len(),
            forall|k: int| 1 <= k < i ==> is_hex_digit(#[trigger] t@[k]),
        decreases n - i,
    {
        if !is_hex_digit_exec(t[i]) {
            return None;
        }
        i = i + 1;
    }
    if n == 7 {
        let r1 = hex_val_exec(t[1]) * 16 + hex_val_exec(t[2]);
        let g = hex_val_exec(t[3]) * 16 + hex_val_exec(t[4]);
        let b = hex_val_exec(t[5]) * 16 + hex_val_exec(t[6]);
        Some((r1, g, b, 255))
    } else if n == 9 {
        let r1 = hex_val_exec(t[1]) * 16 + hex_val_exec(t[2]);
        let g = hex_val_exec(t[3]) * 16 + hex_val_exec(t[4]);
        let b = hex_val_exec(t[5]) * 16 + hex_val_exec(t[6]);
        let a = hex_val_exec(t[7]) * 16 + hex_val_exec(t[8]);
        Some((r1, g, b, a))
    } else if n == 4 {
        let r1 = hex_val_exec(t[1]) * 17;
        let g = hex_val_exec(t[2]) * 17;
        let b = hex_val_exec(t[3]) * 17;
        Some((r1, g, b, 255))
    } else if n == 5 {
        let r1 = hex_val_exec(t[1]) * 17;
        let g = hex_val_exec(t[2]) * 17;
        let b = hex_val_exec(t[3]) * 17;
        let a = hex_val_exec(t[4]) * 17;
        Some((r1, g, b, a))
    } else {
        None
    }
}

/// Parses a colour value to its canonical hex string.
pub fn parse_color_value(value: &str) -> (r: Option<String>)
    ensures
        match r {
            Some(s) => color_result(value@) is Some && s@ == color_str(color_result(value@)->0),
            None => color_result(value@) is None,
        },
{
    let cs = chars_of(value);
    let t = trim_chars(&cs);
    let c = if t.len() > 0 && t[0] == '#' {
        parse_hex_color(&t)
    } else {
        parse_color_outside(value)
    };
    match c {
        Some(c) => Some(color_to_string(c)),
        None => None,
    }
}

// ------------------------------------------------------------------
// parsing and serialising attribute values

/// The property names with a typed grammar (compared by code points).
pub open spec fn is_typed_prop(prop: Seq<char>) -> bool {
    cp_eq(prop, "transform"@) || cp_eq(prop, "viewBox"@) || cp_eq(prop, "d"@) || cp_eq(
        prop,
        "fill"@,
    ) || cp_eq(prop, "stroke"@)
}

/// The parsed value belongs to the property and the raw text.
pub open spec fn attr_parsed(prop: Seq<char>, raw: Seq<char>, v: SVGAttValue) -> bool {
    if cp_eq(prop, "transform"@) {
        &&& v is Matrix
        &&& matrix::transform_accepted(raw)
        &&& matrix::matrix_wf(v->Matrix_0)
    } else if cp_eq(prop, "viewBox"@) {
        &&& v is ViewBox
        &&& view_box::view_box_ok(tokens_of(raw))
        &&& view_box::view_box_matches(tokens_of(raw), v->ViewBox_0)
    } else if cp_eq(prop, "d"@) {
        &&& v is Path
        &&& path::path_norm_wf(v->Path_0.segments@)
    } else if cp_eq(prop, "fill"@) || cp_eq(prop, "stroke"@) {
        &&& v is String
        &&& color_result(raw) is Some
        &&& v->String_0@ == color_str(color_result(raw)->0)
    } else {
        &&& v is String
        &&& v->String_0@ == raw
    }
}

/// The inputs on which parsing the property may fail.
pub open spec fn attr_may_fail(prop: Seq<char>, raw: Seq<char>) -> bool {
    if cp_eq(prop, "transform"@) {
        // a composed entry can leave the storable range even when the list
        // is accepted, and the entries carry no name
        true
    } else if cp_eq(prop, "viewBox"@) {
        !view_box::view_box_ok(tokens_of(raw))
    } else if cp_eq(prop, "d"@) {
        true
    } else if cp_eq(prop, "fill"@) || cp_eq(prop, "stroke"@) {
        color_result(raw) is None
    } else {
        false
    }
}

/// Compares two string slices by code points.
pub fn cp_eq_str(a: &str, b: &str) -> (r: bool)
    ensures
        r == cp_eq(a@, b@),
{
    let ca = chars_of(a);
    let cb = chars_of(b);
    cmp_chars(&ca, &cb) == 0
}

/// Compares two string slices by their characters.
pub fn str_eq(a: &str, b: &str) -> (r: bool)
    ensures
        r == (a@ == b@),
{
    let na = a.unicode_len();
    let nb = b.unicode_len();
    if na != nb {
        return false;
    }
    let mut i: usize = 0;
    while i < na
        invariant
            i <= na,
            na == a@.len(),
            na == b@.len(),
            forall|k: int| 0 <= k < i ==> a@[k] == b@[k],
        decreases na - i,
    {
        if a.get_char(i) != b.get_char(i) {
            return false;
        }
        i = i + 1;
    }
    proof {
        assert(a@ =~= b@);
    }
    true
}

impl SVGAttValue {
    /// Parses one attribute.  Typed properties (`transform`, `viewBox`,
    /// `d`, `fill`, `stroke`) go through their grammars and fail with
    /// `AttributeParse` on malformed input; any other property becomes an
    /// opaque string.
    pub fn from_prop(prop: &str, value: &str) -> (r: Result<SVGAttValue, SvgError>)
        ensures
            match r {
                Ok(v) => attr_parsed(prop@, value@, v) && att_wf(v),
                Err(e) => e == SvgError::AttributeParse && attr_may_fail(prop@, value@),
            },
    {
        if cp_eq_str(prop, "transform") {
            match MatrixValue::from_string(value) {
                Ok(m) => Ok(SVGAttValue::Matrix(m)),
                Err(e) => Err(e),
            }
        } else if cp_eq_str(prop, "viewBox") {
            let cs = chars_of(value);
            match ViewBoxValue::from_string(&cs) {
                Ok(v) => Ok(SVGAttValue::ViewBox(v)),
                Err(e) => Err(e),
            }
        } else if cp_eq_str(prop, "d") {
            let cs = chars_of(value);
            match PathValue::from_string(&cs) {
                Ok(p) => Ok(SVGAttValue::Path(p)),
                Err(e) => Err(e),
            }
        } else if cp_eq_str(prop, "fill") || cp_eq_str(prop, "stroke") {
            match parse_color_value(value) {
                Some(s) => Ok(SVGAttValue::String(s)),
                None => Err(SvgError::AttributeParse),
            }
        } else {
            Ok(SVGAttValue::String(value.to_owned()))
        }
    }

    /// The canonical serialisation, as emitted back into SVG output.
    pub fn to_string(&self) -> (r: String)
        requires
            att_wf(*self),
        ensures
            r@ == att_str(*self),
    {
        match self {
            SVGAttValue::String(s) => s.clone(),
            SVGAttValue::Matrix(m) => m.to_string(),
            SVGAttValue::Path(p) => p.to_string(),
            SVGAttValue::ViewBox(v) => v.to_string(),
        }
    }

    /// Structural equality, with strings compared by characters.
    pub fn eq_value(&self, other: &SVGAttValue) -> (r: bool)
        ensures
            r == att_eq(*self, *other),
    {
        match (self, other) {
            (SVGAttValue::String(a), SVGAttValue::String(b)) => *a == *b,
            (SVGAttValue::Matrix(a), SVGAttValue::Matrix(b)) => *a == *b,
            (SVGAttValue::ViewBox(a), SVGAttValue::ViewBox(b)) => *a == *b,
            (SVGAttValue::Path(a), SVGAttValue::Path(b)) => segs_eq(&a.segments, &b.segments),
            _ => false,
        }
    }

    /// Feeds the value's canonical bytes into the fingerprint hasher.
    /// `with_pos == false` makes a path's leading absolute move invisible;
    /// `with_style` is reserved.
    pub fn hash_with_modifier(&self, with_pos: bool, with_style: bool, hasher: &mut Fnv)
        ensures
            final(hasher).digest() == fnv_fold(
                old(hasher).digest(),
                att_bytes(*self, with_pos),
            ),
    {
        match self {
            SVGAttValue::String(s) => {
                hasher.write_u8(0);
                hasher.write_bytes(s.as_str().as_bytes());
                hasher.write_u8(0xff);
                proof {
                    lemma_fnv_fold_concat3(
                        old(hasher).digest(),
                        seq![0u8],
                        vstd::utf8::encode_utf8(s@),
                        seq![0xffu8],
                    );
                    assert(att_bytes(*self, with_pos) == seq![0u8] + vstd::utf8::encode_utf8(s@)
                        + seq![0xffu8]);
                }
            },
            SVGAttValue::Matrix(m) => {
                hasher.write_u8(1);
                hasher.write_u64(m.a as u64);
                hasher.write_u64(m.b as u64);
                hasher.write_u64(m.c as u64);
                hasher.write_u64(m.d as u64);
                hasher.write_u64(m.e as u64);
                hasher.write_u64(m.f as u64);
                proof {
                    let h0 = old(hasher).digest();
                    crate::hasher::lemma_fnv_fold_concat(h0, seq![1u8], le_bytes(m.a as u64));
                    crate::hasher::lemma_fnv_fold_concat(h0, (seq![1u8] + le_bytes(m.a as u64)), le_bytes(m.b as u64));
                    crate::hasher::lemma_fnv_fold_concat(h0, ((seq![1u8] + le_bytes(m.a as u64)) + le_bytes(m.b as u64)), le_bytes(m.c as u64));
                    crate::hasher::lemma_fnv_fold_concat(h0, (((seq![1u8] + le_bytes(m.a as u64)) + le_bytes(m.b as u64)) + le_bytes(m.c as u64)), le_bytes(m.d as u64));
                    crate::hasher::lemma_fnv_fold_concat(h0, ((((seq![1u8] + le_bytes(m.a as u64)) + le_bytes(m.b as u64)) + le_bytes(m.c as u64)) + le_bytes(m.d as u64)), le_bytes(m.e as u64));
                    crate::hasher::lemma_fnv_fold_concat(h0, (((((seq![1u8] + le_bytes(m.a as u64)) + le_bytes(m.b as u64)) + le_bytes(m.c as u64)) + le_bytes(m.d as u64)) + le_bytes(m.e as u64)), le_bytes(m.f as u64));
                    assert(att_bytes(*self, with_pos) =~= ((((((seq![1u8] + le_bytes(m.a as u64)) + le_bytes(m.b as u64)) + le_bytes(m.c as u64)) + le_bytes(m.d as u64)) + le_bytes(m.e as u64)) + le_bytes(m.f as u64)));
                }
            },
            SVGAttValue::ViewBox(v) => {
                hasher.write_u8(3);
                hasher.write_u64(v.x as u64);
                hasher.write_u64(v.y as u64);
                hasher.write_u64(v.w as u64);
                hasher.write_u64(v.h as u64);
                proof {
                    let h0 = old(hasher).digest();
                    crate::hasher::lemma_fnv_fold_concat(h0, seq![3u8], le_bytes(v.x as u64));
                    crate::hasher::lemma_fnv_fold_concat(h0, (seq![3u8] + le_bytes(v.x as u64)), le_bytes(v.y as u64));
                    crate::hasher::lemma_fnv_fold_concat(h0, ((seq![3u8] + le_bytes(v.x as u64)) + le_bytes(v.y as u64)), le_bytes(v.w as u64));
                    crate::hasher::lemma_fnv_fold_concat(h0, (((seq![3u8] + le_bytes(v.x as u64)) + le_bytes(v.y as u64)) + le_bytes(v.w as u64)), le_bytes(v.h as u64));
                    assert(att_bytes(*self, with_pos) =~= ((((seq![3u8] + le_bytes(v.x as u64)) + le_bytes(v.y as u64)) + le_bytes(v.w as u64)) + le_bytes(v.h as u64)));
                }
            },
            SVGAttValue::Path(p) => {
                hasher.write_u8(2);
                let start: usize = if with_pos {
                    0
                } else {
                    if p.segments.len() > 0 {
                        1
                    } else {
                        0
                    }
                };
                let ghost segs = if with_pos {
                    p.segments@
                } else {
                    skip_lead(p.segments@)
                };
                let mut i: usize = start;
                proof {
                    if !with_pos && p.segments@.len() > 0 {
                        assert(segs =~= p.segments@.skip(1));
                    }
                    assert(segs.take(0) =~= Seq::<PathSeg>::empty());
                    assert(segs_bytes(segs.take(0)) =~= Seq::<u8>::empty());
                    assert(fnv_fold(self_digest_after_tag(old(hasher).digest()), Seq::<u8>::empty())
                        == self_digest_after_tag(old(hasher).digest()));
                }
                while i < p.segments.len()
                    invariant
                        start <= i <= p.segments@.len(),
                        start == (if with_pos || p.segments@.len() == 0 {
                            0int
                        } else {
                            1int
                        }),
                        segs == (if with_pos {
                            p.segments@
                        } else {
                            skip_lead(p.segments@)
                        }),
                        hasher.digest() == fnv_fold(
                            self_digest_after_tag(old(hasher).digest()),
                            segs_bytes(segs.take(i - start)),
                        ),
                    decreases p.segments@.len() - i,
                {
                    let seg = p.segments[i];
                    write_seg(hasher, seg);
                    i = i + 1;
                    proof {
                        let pre = segs.take(i - 1 - start);
                        let cur = segs.take(i - start);
                        assert(cur.drop_last() =~= pre);
                        assert(cur.last() == seg);
                        lemma_segs_bytes_snoc(cur);
                        crate::hasher::lemma_fnv_fold_concat(
                            self_digest_after_tag(old(hasher).digest()),
                            segs_bytes(pre),
                            seg_bytes(seg),
                        );
                    }
                }
                proof {
                    assert(segs.take(p.segments@.len() - start) =~= segs);
                    crate::hasher::lemma_fnv_fold_concat(
                        old(hasher).digest(),
                        seq![2u8],
                        segs_bytes(segs),
                    );
                    assert(seq![2u8] + segs_bytes(segs) =~= att_bytes(*self, with_pos));
                }
            },
        }
    }
}

/// Whether two segment lists are equal.
fn segs_eq(x: &Vec<PathSeg>, y: &Vec<PathSeg>) -> (r: bool)
    ensures
        r == (x@ == y@),
{
    if x.len() != y.len() {
        proof {
            assert(x@ != y@);
        }
        return false;
    }
    let n = x.len();
    let mut i: usize = 0;
    while i < n
        invariant
            i <= n,
            n == x@.len(),
            n == y@.len(),
            forall|k: int| 0 <= k < i ==> x@[k] == y@[k],
        decreases n - i,
    {
        if !(x[i] == y[i]) {
            proof {
                assert(x@[i as int] != y@[i as int]);
                assert(x@ != y@);
            }
            return false;
        }
        i = i + 1;
    }
    proof {
        assert(x@ =~= y@);
    }
    true
}

/// The digest state after the path tag byte.
pub open spec fn self_digest_after_tag(h: u64) -> u64 {
    fnv_fold(h, seq![2u8])
}

/// The segments without the leading one (the whole list when empty).
pub open spec fn skip_lead(s: Seq<PathSeg>) -> Seq<PathSeg> {
    if s.len() > 0 {
        s.drop_first()
    } else {
        s
    }
}

/// The canonical fingerprint bytes of an attribute value.  A tag byte keeps
/// the variants apart; strings end with a sentinel as the standard hasher
/// does.
pub open spec fn att_bytes(a: SVGAttValue, with_pos: bool) -> Seq<u8> {
    match a {
        SVGAttValue::String(s) => seq![0u8] + vstd::utf8::encode_utf8(s@) + seq![0xffu8],
        SVGAttValue::Matrix(m) => seq![1u8] + le_bytes(m.a as u64) + le_bytes(m.b as u64)
            + le_bytes(m.c as u64) + le_bytes(m.d as u64) + le_bytes(m.e as u64) + le_bytes(
            m.f as u64,
        ),
        SVGAttValue::Path(p) => seq![2u8] + segs_bytes(
            if with_pos {
                p.segments@
            } else {
                skip_lead(p.segments@)
            },
        ),
        SVGAttValue::ViewBox(v) => seq![3u8] + le_bytes(v.x as u64) + le_bytes(v.y as u64)
            + le_bytes(v.w as u64) + le_bytes(v.h as u64),
    }
}

/// The fingerprint bytes of one segment.
pub open spec fn seg_bytes(s: PathSeg) -> Seq<u8> {
    match s {
        PathSeg::MoveTo { abs, x, y } => seq![10u8, (if abs { 1u8 } else { 0u8 })] + le_bytes(
            x as u64,
        ) + le_bytes(y as u64),
        PathSeg::LineTo { abs, x, y } => seq![11u8, (if abs { 1u8 } else { 0u8 })] + le_bytes(
            x as u64,
        ) + le_bytes(y as u64),
        PathSeg::HorizontalLineTo { abs, x } => seq![12u8, (if abs { 1u8 } else { 0u8 })]
            + le_bytes(x as u64),
        PathSeg::VerticalLineTo { abs, y } => seq![13u8, (if abs { 1u8 } else { 0u8 })] + le_bytes(
            y as u64,
        ),
        PathSeg::CurveTo { abs, x1, y1, x2, y2, x, y } => seq![
            14u8,
            (if abs { 1u8 } else { 0u8 }),
        ] + le_bytes(x1 as u64) + le_bytes(y1 as u64) + le_bytes(x2 as u64) + le_bytes(y2 as u64)
            + le_bytes(x as u64) + le_bytes(y as u64),
        PathSeg::SmoothCurveTo { abs, x2, y2, x, y } => seq![15u8, (if abs { 1u8 } else { 0u8 })]
            + le_bytes(x2 as u64) + le_bytes(y2 as u64) + le_bytes(x as u64) + le_bytes(y as u64),
        PathSeg::Quadratic { abs, x1, y1, x, y } => seq![16u8, (if abs { 1u8 } else { 0u8 })]
            + le_bytes(x1 as u64) + le_bytes(y1 as u64) + le_bytes(x as u64) + le_bytes(y as u64),
        PathSeg::SmoothQuadratic { abs, x, y } => seq![17u8, (if abs { 1u8 } else { 0u8 })]
            + le_bytes(x as u64) + le_bytes(y as u64),
        PathSeg::EllipticalArc { abs, rx, ry, x_axis_rotation, large_arc, sweep, x, y } => seq![
            18u8,
            (if abs { 1u8 } else { 0u8 }),
            (if large_arc { 1u8 } else { 0u8 }),
            (if sweep { 1u8 } else { 0u8 }),
        ] + le_bytes(rx as u64) + le_bytes(ry as u64) + le_bytes(x_axis_rotation as u64) + le_bytes(
            x as u64,
        ) + le_bytes(y as u64),
        PathSeg::ClosePath { abs } => seq![19u8, (if abs { 1u8 } else { 0u8 })],
    }
}

/// The fingerprint bytes of a segment list.
pub open spec fn segs_bytes(s: Seq<PathSeg>) -> Seq<u8>
    decreases s.len(),
{
    if s.len() == 0 {
        Seq::empty()
    } else {
        segs_bytes(s.drop_last()) + seg_bytes(s.last())
    }
}

proof fn lemma_segs_bytes_snoc(s: Seq<PathSeg>)
    requires
        s.len() > 0,
    ensures
        segs_bytes(s) == segs_bytes(s.drop_last()) + seg_bytes(s.last()),
{
}

/// Feeds one segment.
#[verifier::rlimit(100)]
fn write_seg(hasher: &mut Fnv, s: PathSeg)
    ensures
        final(hasher).digest() == fnv_fold(old(hasher).digest(), seg_bytes(s)),
{
    match s {
        PathSeg::MoveTo { abs, x, y } => {
            hasher.write_u8(10);
            hasher.write_u8(if abs { 1 } else { 0 });
            hasher.write_u64(x as u64);
            hasher.write_u64(y as u64);
            proof {
                let h0 = old(hasher).digest();
                crate::hasher::lemma_fnv_fold_concat(h0, seq![10u8], seq![(if abs { 1u8 } else { 0u8 })]);
                crate::hasher::lemma_fnv_fold_concat(h0, (seq![10u8] + seq![(if abs { 1u8 } else { 0u8 })]), le_bytes(x as u64));
                crate::hasher::lemma_fnv_fold_concat(h0, ((seq![10u8] + seq![(if abs { 1u8 } else { 0u8 })]) + le_bytes(x as u64)), le_bytes(y as u64));
                assert(seg_bytes(s) =~= (((seq![10u8] + seq![(if abs { 1u8 } else { 0u8 })]) + le_bytes(x as u64)) + le_bytes(y as u64)));
            }
        },
        PathSeg::LineTo { abs, x, y } => {
            hasher.write_u8(11);
            hasher.write_u8(if abs { 1 } else { 0 });
            hasher.write_u64(x as u64);
            hasher.write_u64(y as u64);
            proof {
                let h0 = old(hasher).digest();
                crate::hasher::lemma_fnv_fold_concat(h0, seq![11u8], seq![(if abs { 1u8 } else { 0u8 })]);
                crate::hasher::lemma_fnv_fold_concat(h0, (seq![11u8] + seq![(if abs { 1u8 } else { 0u8 })]), le_bytes(x as u64));
                crate::hasher::lemma_fnv_fold_concat(h0, ((seq![11u8] + seq![(if abs { 1u8 } else { 0u8 })]) + le_bytes(x as u64)), le_bytes(y as u64));
                assert(seg_bytes(s) =~= (((seq![11u8] + seq![(if abs { 1u8 } else { 0u8 })]) + le_bytes(x as u64)) + le_bytes(y as u64)));
            }
        },
        PathSeg::HorizontalLineTo { abs, x } => {
            hasher.write_u8(12);
            hasher.write_u8(if abs { 1 } else { 0 });
            hasher.write_u64(x as u64);
            proof {
                let h0 = old(hasher).digest();
                crate::hasher::lemma_fnv_fold_concat(h0, seq![12u8], seq![(if abs { 1u8 } else { 0u8 })]);
                crate::hasher::lemma_fnv_fold_concat(h0, (seq![12u8] + seq![(if abs { 1u8 } else { 0u8 })]), le_bytes(x as u64));
                assert(seg_bytes(s) =~= ((seq![12u8] + seq![(if abs { 1u8 } else { 0u8 })]) + le_bytes(x as u64)));
            }
        },
        PathSeg::VerticalLineTo { abs, y } => {
            hasher.write_u8(13);
            hasher.write_u8(if abs { 1 } else { 0 });
            hasher.write_u64(y as u64);
            proof {
                let h0 = old(hasher).digest();
                crate::hasher::lemma_fnv_fold_concat(h0, seq![13u8], seq![(if abs { 1u8 } else { 0u8 })]);
                crate::hasher::lemma_fnv_fold_concat(h0, (seq![13u8] + seq![(if abs { 1u8 } else { 0u8 })]), le_bytes(y as u64));
                assert(seg_bytes(s) =~= ((seq![13u8] + seq![(if abs { 1u8 } else { 0u8 })]) + le_bytes(y as u64)));
            }
        },
        PathSeg::CurveTo { abs, x1, y1, x2, y2, x, y } => {
            hasher.write_u8(14);
            hasher.write_u8(if abs { 1 } else { 0 });
            hasher.write_u64(x1 as u64);
            hasher.write_u64(y1 as u64);
            hasher.write_u64(x2 as u64);
            hasher.write_u64(y2 as u64);
            hasher.write_u64(x as u64);
            hasher.write_u64(y as u64);
            proof {
                let h0 = old(hasher).digest();
                crate::hasher::lemma_fnv_fold_concat(h0, seq![14u8], seq![(if abs { 1u8 } else { 0u8 })]);
                crate::hasher::lemma_fnv_fold_concat(h0, (seq![14u8] + seq![(if abs { 1u8 } else { 0u8 })]), le_bytes(x1 as u64));
                crate::hasher::lemma_fnv_fold_concat(h0, ((seq![14u8] + seq![(if abs { 1u8 } else { 0u8 })]) + le_bytes(x1 as u64)), le_bytes(y1 as u64));
                crate::hasher::lemma_fnv_fold_concat(h0, (((seq![14u8] + seq![(if abs { 1u8 } else { 0u8 })]) + le_bytes(x1 as u64)) + le_bytes(y1 as u64)), le_bytes(x2 as u64));
                crate::hasher::lemma_fnv_fold_concat(h0, ((((seq![14u8] + seq![(if abs { 1u8 } else { 0u8 })]) + le_bytes(x1 as u64)) + le_bytes(y1 as u64)) + le_bytes(x2 as u64)), le_bytes(y2 as u64));
                crate::hasher::lemma_fnv_fold_concat(h0, (((((seq![14u8] + seq![(if abs { 1u8 } else { 0u8 })]) + le_bytes(x1 as u64)) + le_bytes(y1 as u64)) + le_bytes(x2 as u64)) + le_bytes(y2 as u64)), le_bytes(x as u64));
                crate::hasher::lemma_fnv_fold_concat(h0, ((((((seq![14u8] + seq![(if abs { 1u8 } else { 0u8 })]) + le_bytes(x1 as u64)) + le_bytes(y1 as u64)) + le_bytes(x2 as u64)) + le_bytes(y2 as u64)) + le_bytes(x as u64)), le_bytes(y as u64));
                assert(seg_bytes(s) =~= (((((((seq![14u8] + seq![(if abs { 1u8 } else { 0u8 })]) + le_bytes(x1 as u64)) + le_bytes(y1 as u64)) + le_bytes(x2 as u64)) + le_bytes(y2 as u64)) + le_bytes(x as u64)) + le_bytes(y as u64)));
            }
        },
        PathSeg::SmoothCurveTo { abs, x2, y2, x, y } => {
            hasher.write_u8(15);
            hasher.write_u8(if abs { 1 } else { 0 });
            hasher.write_u64(x2 as u64);
            hasher.write_u64(y2 as u64);
            hasher.write_u64(x as u64);
            hasher.write_u64(y as u64);
            proof {
                let h0 = old(hasher).digest();
                crate::hasher::lemma_fnv_fold_concat(h0, seq![15u8], seq![(if abs { 1u8 } else { 0u8 })]);
                crate::hasher::lemma_fnv_fold_concat(h0, (seq![15u8] + seq![(if abs { 1u8 } else { 0u8 })]), le_bytes(x2 as u64));
                crate::hasher::lemma_fnv_fold_concat(h0, ((seq![15u8] + seq![(if abs { 1u8 } else { 0u8 })]) + le_bytes(x2 as u64)), le_bytes(y2 as u64));
                crate::hasher::lemma_fnv_fold_concat(h0, (((seq![15u8] + seq![(if abs { 1u8 } else { 0u8 })]) + le_bytes(x2 as u64)) + le_bytes(y2 as u64)), le_bytes(x as u64));
                crate::hasher::lemma_fnv_fold_concat(h0, ((((seq![15u8] + seq![(if abs { 1u8 } else { 0u8 })]) + le_bytes(x2 as u64)) + le_bytes(y2 as u64)) + le_bytes(x as u64)), le_bytes(y as u64));
                assert(seg_bytes(s) =~= (((((seq![15u8] + seq![(if abs { 1u8 } else { 0u8 })]) + le_bytes(x2 as u64)) + le_bytes(y2 as u64)) + le_bytes(x as u64)) + le_bytes(y as u64)));
            }
        },
        PathSeg::Quadratic { abs, x1, y1, x, y } => {
            hasher.write_u8(16);
            hasher.write_u8(if abs { 1 } else { 0 });
            hasher.write_u64(x1 as u64);
            hasher.write_u64(y1 as u64);
            hasher.write_u64(x as u64);
            hasher.write_u64(y as u64);
            proof {
                let h0 = old(hasher).digest();
                crate::hasher::lemma_fnv_fold_concat(h0, seq![16u8], seq![(if abs { 1u8 } else { 0u8 })]);
                crate::hasher::lemma_fnv_fold_concat(h0, (seq![16u8] + seq![(if abs { 1u8 } else { 0u8 })]), le_bytes(x1 as u64));
                crate::hasher::lemma_fnv_fold_concat(h0, ((seq![16u8] + seq![(if abs { 1u8 } else { 0u8 })]) + le_bytes(x1 as u64)), le_bytes(y1 as u64));
                crate::hasher::lemma_fnv_fold_concat(h0, (((seq![16u8] + seq![(if abs { 1u8 } else { 0u8 })]) + le_bytes(x1 as u64)) + le_bytes(y1 as u64)), le_bytes(x as u64));
                crate::hasher::lemma_fnv_fold_concat(h0, ((((seq![16u8] + seq![(if abs { 1u8 } else { 0u8 })]) + le_bytes(x1 as u64)) + le_bytes(y1 as u64)) + le_bytes(x as u64)), le_bytes(y as u64));
                assert(seg_bytes(s) =~= (((((seq![16u8] + seq![(if abs { 1u8 } else { 0u8 })]) + le_bytes(x1 as u64)) + le_bytes(y1 as u64)) + le_bytes(x as u64)) + le_bytes(y as u64)));
            }
        },
        PathSeg::SmoothQuadratic { abs, x, y } => {
            hasher.write_u8(17);
            hasher.write_u8(if abs { 1 } else { 0 });
            hasher.write_u64(x as u64);
            hasher.write_u64(y as u64);
            proof {
                let h0 = old(hasher).digest();
                crate::hasher::lemma_fnv_fold_concat(h0, seq![17u8], seq![(if abs { 1u8 } else { 0u8 })]);
                crate::hasher::lemma_fnv_fold_concat(h0, (seq![17u8] + seq![(if abs { 1u8 } else { 0u8 })]), le_bytes(x as u64));
                crate::hasher::lemma_fnv_fold_concat(h0, ((seq![17u8] + seq![(if abs { 1u8 } else { 0u8 })]) + le_bytes(x as u64)), le_bytes(y as u64));
                assert(seg_bytes(s) =~= (((seq![17u8] + seq![(if abs { 1u8 } else { 0u8 })]) + le_bytes(x as u64)) + le_bytes(y as u64)));
            }
        },
        PathSeg::EllipticalArc { abs, rx, ry, x_axis_rotation, large_arc, sweep, x, y } => {
            hasher.write_u8(18);
            hasher.write_u8(if abs { 1 } else { 0 });
            hasher.write_u8(if large_arc { 1 } else { 0 });
            hasher.write_u8(if sweep { 1 } else { 0 });
            hasher.write_u64(rx as u64);
            hasher.write_u64(ry as u64);
            hasher.write_u64(x_axis_rotation as u64);
            hasher.write_u64(x as u64);
            hasher.write_u64(y as u64);
            proof {
                let h0 = old(hasher).digest();
                crate::hasher::lemma_fnv_fold_concat(h0, seq![18u8], seq![(if abs { 1u8 } else { 0u8 })]);
                crate::hasher::lemma_fnv_fold_concat(h0, (seq![18u8] + seq![(if abs { 1u8 } else { 0u8 })]), seq![(if large_arc { 1u8 } else { 0u8 })]);
                crate::hasher::lemma_fnv_fold_concat(h0, ((seq![18u8] + seq![(if abs { 1u8 } else { 0u8 })]) + seq![(if large_arc { 1u8 } else { 0u8 })]), seq![(if sweep { 1u8 } else { 0u8 })]);
                crate::hasher::lemma_fnv_fold_concat(h0, (((seq![18u8] + seq![(if abs { 1u8 } else { 0u8 })]) + seq![(if large_arc { 1u8 } else { 0u8 })]) + seq![(if sweep { 1u8 } else { 0u8 })]), le_bytes(rx as u64));
                crate::hasher::lemma_fnv_fold_concat(h0, ((((seq![18u8] + seq![(if abs { 1u8 } else { 0u8 })]) + seq![(if large_arc { 1u8 } else { 0u8 })]) + seq![(if sweep { 1u8 } else { 0u8 })]) + le_bytes(rx as u64)), le_bytes(ry as u64));
                crate::hasher::lemma_fnv_fold_concat(h0, (((((seq![18u8] + seq![(if abs { 1u8 } else { 0u8 })]) + seq![(if large_arc { 1u8 } else { 0u8 })]) + seq![(if sweep { 1u8 } else { 0u8 })]) + le_bytes(rx as u64)) + le_bytes(ry as u64)), le_bytes(x_axis_rotation as u64));
                crate::hasher::lemma_fnv_fold_concat(h0, ((((((seq![18u8] + seq![(if abs { 1u8 } else { 0u8 })]) + seq![(if large_arc { 1u8 } else { 0u8 })]) + seq![(if sweep { 1u8 } else { 0u8 })]) + le_bytes(rx as u64)) + le_bytes(ry as u64)) + le_bytes(x_axis_rotation as u64)), le_bytes(x as u64));
                crate::hasher::lemma_fnv_fold_concat(h0, (((((((seq![18u8] + seq![(if abs { 1u8 } else { 0u8 })]) + seq![(if large_arc { 1u8 } else { 0u8 })]) + seq![(if sweep { 1u8 } else { 0u8 })]) + le_bytes(rx as u64)) + le_bytes(ry as u64)) + le_bytes(x_axis_rotation as u64)) + le_bytes(x as u64)), le_bytes(y as u64));
                assert(seg_bytes(s) =~= ((((((((seq![18u8] + seq![(if abs { 1u8 } else { 0u8 })]) + seq![(if large_arc { 1u8 } else { 0u8 })]) + seq![(if sweep { 1u8 } else { 0u8 })]) + le_bytes(rx as u64)) + le_bytes(ry as u64)) + le_bytes(x_axis_rotation as u64)) + le_bytes(x as u64)) + le_bytes(y as u64)));
            }
        },
        PathSeg::ClosePath { abs } => {
            hasher.write_u8(19);
            hasher.write_u8(if abs { 1 } else { 0 });
            proof {
                let h0 = old(hasher).digest();
                crate::hasher::lemma_fnv_fold_concat(h0, seq![19u8], seq![(if abs { 1u8 } else { 0u8 })]);
                assert(seg_bytes(s) =~= (seq![19u8] + seq![(if abs { 1u8 } else { 0u8 })]));
            }
        },
    }
}

proof fn lemma_fnv_fold_concat3(h: u64, a: Seq<u8>, b: Seq<u8>, c: Seq<u8>)
    ensures
        fnv_fold(h, a + b + c) == fnv_fold(fnv_fold(fnv_fold(h, a), b), c),
{
    crate::hasher::lemma_fnv_fold_concat(h, a + b, c);
    crate::hasher::lemma_fnv_fold_concat(h, a, b);
}


/// A hex digit character denotes its value, is a hex digit, and is no
/// space.
proof fn lemma_hex_char(d: int)
    requires
        0 <= d < 16,
    ensures
        hex_val(hex_char(d)) == d,
        is_hex_digit(hex_char(d)),
        !is_space(hex_char(d)),
{
}

/// Normalisation idempotence for colours: the canonical colour string
/// parses back to the same colour, so parsing and serialising a second time
/// is byte-equal (`color_str(color_result(color_str(c))->0) == color_str(c)`).
pub proof fn lemma_color_round_trip(c: (u8, u8, u8, u8))
    ensures
        color_result(color_str(c)) == Some(c),
{
    let s = color_str(c);
    lemma_hex_char(c.0 as int / 16);
    lemma_hex_char(c.0 as int % 16);
    lemma_hex_char(c.1 as int / 16);
    lemma_hex_char(c.1 as int % 16);
    lemma_hex_char(c.2 as int / 16);
    lemma_hex_char(c.2 as int % 16);
    lemma_hex_char(c.3 as int / 16);
    lemma_hex_char(c.3 as int % 16);
    assert(s[0] == '#');
    if c.3 == 255 {
        assert(s.len() == 7);
        assert(s[1] == hex_char(c.0 as int / 16) && s[2] == hex_char(c.0 as int % 16));
        assert(s[3] == hex_char(c.1 as int / 16) && s[4] == hex_char(c.1 as int % 16));
        assert(s[5] == hex_char(c.2 as int / 16) && s[6] == hex_char(c.2 as int % 16));
        assert(trim_left(s) == s);
        assert(!is_space(s.last()));
        assert(trim_right(s) == s);
        assert(trimmed(s) == s);
        assert forall|i: int| 1 <= i < s.len() implies is_hex_digit(#[trigger] s[i]) by {}
        assert(hex_pair_val(s[1], s[2]) == c.0) by {
            assert(c.0 as int == (c.0 as int / 16) * 16 + (c.0 as int % 16));
        }
        assert(hex_pair_val(s[3], s[4]) == c.1) by {
            assert(c.1 as int == (c.1 as int / 16) * 16 + (c.1 as int % 16));
        }
        assert(hex_pair_val(s[5], s[6]) == c.2) by {
            assert(c.2 as int == (c.2 as int / 16) * 16 + (c.2 as int % 16));
        }
        assert(hex_color_of(s) == Some(c));
    } else {
        assert(s.len() == 9);
        assert(s[1] == hex_char(c.0 as int / 16) && s[2] == hex_char(c.0 as int % 16));
        assert(s[3] == hex_char(c.1 as int / 16) && s[4] == hex_char(c.1 as int % 16));
        assert(s[5] == hex_char(c.2 as int / 16) && s[6] == hex_char(c.2 as int % 16));
        assert(s[7] == hex_char(c.3 as int / 16) && s[8] == hex_char(c.3 as int % 16));
        assert(trim_left(s) == s);
        assert(!is_space(s.last()));
        assert(trim_right(s) == s);
        assert(trimmed(s) == s);
        assert forall|i: int| 1 <= i < s.len() implies is_hex_digit(#[trigger] s[i]) by {}
        assert(hex_pair_val(s[1], s[2]) == c.0) by {
            assert(c.0 as int == (c.0 as int / 16) * 16 + (c.0 as int % 16));
        }
        assert(hex_pair_val(s[3], s[4]) == c.1) by {
            assert(c.1 as int == (c.1 as int / 16) * 16 + (c.1 as int % 16));
        }
        assert(hex_pair_val(s[5], s[6]) == c.2) by {
            assert(c.2 as int == (c.2 as int / 16) * 16 + (c.2 as int % 16));
        }
        assert(hex_pair_val(s[7], s[8]) == c.3) by {
            assert(c.3 as int == (c.3 as int / 16) * 16 + (c.3 as int % 16));
        }
        assert(hex_color_of(s) == Some(c));
    }
}

} // verus!
