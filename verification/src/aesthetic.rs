use vstd::prelude::*;
use crate::text::{char_boundary, is_char_boundary, utf8_count, utf8_size};

verus! {

/// An aesthetic channel that maps data to a visual property.
#[derive(Debug, Clone, Copy, PartialEq, Eq, Structural, Hash)]
pub enum Aesthetic {
    X,
    Y,
    Color,
    Fill,
    Group,
    Alpha,
}

/// Aesthetic families group related aesthetics that share a scale.
#[derive(Debug, Clone, Copy, PartialEq, Eq, Structural, Hash)]
pub enum AestheticFamily {
    HorizontalPosition,
    VerticalPosition,
    Color,
    Fill,
    Group,
    Alpha,
}

/// The family of each aesthetic: every aesthetic has a family of its own.
pub open spec fn spec_family(a: Aesthetic) -> AestheticFamily {
    match a {
        Aesthetic::X => AestheticFamily::HorizontalPosition,
        Aesthetic::Y => AestheticFamily::VerticalPosition,
        Aesthetic::Color => AestheticFamily::Color,
        Aesthetic::Fill => AestheticFamily::Fill,
        Aesthetic::Group => AestheticFamily::Group,
        Aesthetic::Alpha => AestheticFamily::Alpha,
    }
}

impl Aesthetic {
    /// All aesthetics, in declaration order.
    pub fn all() -> (r: [Aesthetic; 6])
        ensures
            r@ == seq![Aesthetic::X, Aesthetic::Y, Aesthetic::Color, Aesthetic::Fill, Aesthetic::Group, Aesthetic::Alpha],
    {
        [Aesthetic::X, Aesthetic::Y, Aesthetic::Color, Aesthetic::Fill, Aesthetic::Group, Aesthetic::Alpha]
    }

    /// The family whose scale this aesthetic shares.
    pub fn family(&self) -> (r: AestheticFamily)
        ensures
            r == spec_family(*self),
    {
        match self {
            Aesthetic::X => AestheticFamily::HorizontalPosition,
            Aesthetic::Y => AestheticFamily::VerticalPosition,
            Aesthetic::Color => AestheticFamily::Color,
            Aesthetic::Fill => AestheticFamily::Fill,
            Aesthetic::Group => AestheticFamily::Group,
            Aesthetic::Alpha => AestheticFamily::Alpha,
        }
    }
}


/// The name of each aesthetic, as written in GQL and in data columns.
pub open spec fn spec_name(a: Aesthetic) -> Seq<char> {
    match a {
        Aesthetic::X => "x"@,
        Aesthetic::Y => "y"@,
        Aesthetic::Color => "color"@,
        Aesthetic::Fill => "fill"@,
        Aesthetic::Group => "group"@,
        Aesthetic::Alpha => "alpha"@,
    }
}

impl Aesthetic {
    /// The aesthetic's name, as written in GQL and in data columns.
    pub fn name(&self) -> (r: &'static str)
        ensures
            r@ == spec_name(*self),
    {
        match self {
            Aesthetic::X => "x",
            Aesthetic::Y => "y",
            Aesthetic::Color => "color",
            Aesthetic::Fill => "fill",
            Aesthetic::Group => "group",
            Aesthetic::Alpha => "alpha",
        }
    }
}

/// A mapping from a data variable to an aesthetic channel.
pub struct Mapping {
    pub aesthetic: Aesthetic,
    pub variable: String,
}

/// The mathematical value of a mapping.
pub struct SMapping {
    pub aesthetic: Aesthetic,
    pub variable: Seq<char>,
}

impl DeepView for Mapping {
    type V = SMapping;

    open spec fn deep_view(&self) -> SMapping {
        SMapping { aesthetic: self.aesthetic, variable: self.variable@ }
    }
}

impl Clone for Mapping {
    fn clone(&self) -> (r: Self)
        ensures
            r.deep_view() == self.deep_view(),
    {
        Mapping { aesthetic: self.aesthetic, variable: self.variable.clone() }
    }
}

/// A constant (hardcoded) visual value for an aesthetic channel: a color as
/// its three 8-bit channels (red, green, blue), or a number as written.
pub enum ConstantValue {
    Color([u8; 3]),
    Float(String),
}

pub enum SConstantValue {
    Color([u8; 3]),
    Float(Seq<char>),
}

impl DeepView for ConstantValue {
    type V = SConstantValue;

    open spec fn deep_view(&self) -> SConstantValue {
        match self {
            ConstantValue::Color(c) => SConstantValue::Color(*c),
            ConstantValue::Float(s) => SConstantValue::Float(s@),
        }
    }
}

impl Clone for ConstantValue {
    fn clone(&self) -> (r: Self)
        ensures
            r.deep_view() == self.deep_view(),
    {
        match self {
            ConstantValue::Color(c) => ConstantValue::Color(*c),
            ConstantValue::Float(s) => ConstantValue::Float(s.clone()),
        }
    }
}

// ---------------------------------------------------------------------------
// Hex colors

/// The value of a hexadecimal digit.
pub open spec fn hex_digit_value(c: char) -> Option<u8> {
    if '0' <= c && c <= '9' {
        Some((c as int - '0' as int) as u8)
    } else if 'a' <= c && c <= 'f' {
        Some((c as int - 'a' as int + 10) as u8)
    } else if 'A' <= c && c <= 'F' {
        Some((c as int - 'A' as int + 10) as u8)
    } else {
        None
    }
}

/// The byte that two characters spell in base 16, as `u8::from_str_radix`
/// reads them: two hex digits, or `+` and one hex digit.
pub open spec fn hex_byte(a: char, b: char) -> Option<u8> {
    if a == '+' {
        hex_digit_value(b)
    } else {
        match (hex_digit_value(a), hex_digit_value(b)) {
            (Some(x), Some(y)) => Some((x * 16 + y) as u8),
            _ => None,
        }
    }
}

/// The text without its leading `#` characters.
pub open spec fn trim_hashes(s: Seq<char>) -> Seq<char>
    decreases s.len(),
{
    if s.len() > 0 && s[0] == '#' {
        trim_hashes(s.drop_first())
    } else {
        s
    }
}

/// The channels that `#RRGGBB` spells (any number of leading `#`).
pub open spec fn spec_hex_rgb(s: Seq<char>) -> Option<[u8; 3]> {
    let t = trim_hashes(s);
    if t.len() == 6 {
        match (hex_byte(t[0], t[1]), hex_byte(t[2], t[3]), hex_byte(t[4], t[5])) {
            (Some(r), Some(g), Some(b)) => Some([r, g, b]),
            _ => None,
        }
    } else {
        None
    }
}

/// Hex digits (and `+`) are ASCII.
pub proof fn lemma_hex_byte_ascii(a: char, b: char)
    requires
        hex_byte(a, b) is Some,
    ensures
        (a as u32) < 0x80,
        (b as u32) < 0x80,
{
}

/// An ASCII text takes a byte per character, and every offset up to its
/// length falls between characters.
pub proof fn lemma_ascii_text(t: Seq<char>)
    requires
        forall|i: int| 0 <= i < t.len() ==> (#[trigger] t[i] as u32) < 0x80,
    ensures
        utf8_size(t) == t.len(),
        forall|b: nat| b <= t.len() ==> #[trigger] is_char_boundary(t, b),
{
    assert forall|b: nat| b <= t.len() implies #[trigger] is_char_boundary(t, b) by {
        lemma_ascii_prefix(t, b as int);
    }
    lemma_ascii_prefix(t, t.len() as int);
    assert(t.take(t.len() as int) =~= t);
}

proof fn lemma_ascii_prefix(t: Seq<char>, k: int)
    requires
        0 <= k <= t.len(),
        forall|i: int| 0 <= i < t.len() ==> (#[trigger] t[i] as u32) < 0x80,
    ensures
        utf8_size(t.take(k)) == k,
    decreases k,
{
    if k > 0 {
        lemma_ascii_prefix(t, k - 1);
        assert(t.take(k).drop_last() =~= t.take(k - 1));
        assert(t.take(k).last() == t[k - 1]);
    }
}

/// A `#RRGGBB` color is ASCII after its `#`: six bytes, readable in pairs.
pub proof fn lemma_hex_rgb_ascii(s: Seq<char>)
    requires
        spec_hex_rgb(s) is Some,
    ensures
        utf8_size(trim_hashes(s)) == 6,
        hex_pairs_whole(s, 6),
{
    let t = trim_hashes(s);
    lemma_hex_byte_ascii(t[0], t[1]);
    lemma_hex_byte_ascii(t[2], t[3]);
    lemma_hex_byte_ascii(t[4], t[5]);
    assert forall|i: int| 0 <= i < t.len() implies (#[trigger] t[i] as u32) < 0x80 by {
        assert(i == 0 || i == 1 || i == 2 || i == 3 || i == 4 || i == 5);
    }
    lemma_ascii_text(t);
}

fn hex_digit(c: char) -> (r: Option<u8>)
    ensures
        r == hex_digit_value(c),
{
    if '0' <= c && c <= '9' {
        Some((c as u32 - '0' as u32) as u8)
    } else if 'a' <= c && c <= 'f' {
        Some((c as u32 - 'a' as u32 + 10) as u8)
    } else if 'A' <= c && c <= 'F' {
        Some((c as u32 - 'A' as u32 + 10) as u8)
    } else {
        None
    }
}

/// Reads two characters as a base-16 byte (see `hex_byte`).
pub fn read_hex_byte(a: char, b: char) -> (r: Option<u8>)
    ensures
        r == hex_byte(a, b),
{
    if a == '+' {
        hex_digit(b)
    } else {
        match (hex_digit(a), hex_digit(b)) {
            (Some(x), Some(y)) => Some(x * 16 + y),
            _ => None,
        }
    }
}

/// The characters of `s` after its leading `#` characters.
pub fn strip_hashes(s: &str) -> (r: Vec<char>)
    ensures
        r@ == trim_hashes(s@),
{
    let cs = crate::text::chars_of(s);
    let mut k: usize = 0;
    assert(cs@.skip(0) =~= cs@);
    while k < cs.len() && cs[k] == '#'
        invariant
            k <= cs.len(),
            cs@ == s@,
            trim_hashes(s@) == trim_hashes(cs@.skip(k as int)),
        decreases cs.len() - k,
    {
        assert(cs@.skip(k as int).drop_first() =~= cs@.skip(k as int + 1));
        k = k + 1;
    }
    let mut r: Vec<char> = Vec::new();
    let mut m = k;
    while m < cs.len()
        invariant
            k <= m <= cs.len(),
            r@ == cs@.subrange(k as int, m as int),
        decreases cs.len() - m,
    {
        r.push(cs[m]);
        m = m + 1;
    }
    assert(r@ =~= cs@.skip(k as int));
    r
}

/// Why a text is not a `#RRGGBB` color: after its leading `#`, not six
/// bytes long (as `str::len` counts, in UTF-8), or six bytes that are not
/// three pairs of hex digits.
pub open spec fn spec_hex_refusal(s: Seq<char>) -> Seq<char> {
    let t = trim_hashes(s);
    if utf8_size(t) != 6 {
        "Expected 6-digit hex color, got: #"@ + t
    } else {
        "invalid digit found in string"@
    }
}

/// Whether the digits of a color can be read two bytes at a time: where the
/// text after its leading `#` is `n` bytes long (six or eight), byte offsets
/// 2, 4, ... below `n` fall between characters.
pub open spec fn hex_pairs_whole(s: Seq<char>, n: nat) -> bool {
    let t = trim_hashes(s);
    utf8_size(t) == n ==> forall|b: nat| 0 < b < n && b % 2 == 0 ==> #[trigger] is_char_boundary(t, b)
}

/// Whether the digits of a color can be read two bytes at a time (see
/// `hex_pairs_whole`).
pub fn hex_pairs_readable(s: &str, n: u128) -> (r: bool)
    requires
        n == 6 || n == 8,
    ensures
        r == hex_pairs_whole(s@, n as nat),
{
    let t = strip_hashes(s);
    if utf8_count(&t) != n {
        return true;
    }
    let ok2 = char_boundary(&t, 2);
    let ok4 = char_boundary(&t, 4);
    let ok6 = n == 6 || char_boundary(&t, 6);
    proof {
        if ok2 && ok4 && ok6 {
            assert forall|b: nat| 0 < b < n && b % 2 == 0 implies #[trigger] is_char_boundary(t@, b) by {
                assert(b == 2 || b == 4 || b == 6);
            }
        } else if !ok2 {
            assert(!is_char_boundary(t@, 2));
        } else if !ok4 {
            assert(!is_char_boundary(t@, 4));
        } else {
            assert(!is_char_boundary(t@, 6));
        }
    }
    ok2 && ok4 && ok6
}

/// Parses a `#RRGGBB` hex string into its red, green and blue channels
/// (0 to 255 each; a renderer divides by 255 for the unit range).
/// Fails on anything else. The digits are read two bytes at a time, so a
/// six-byte text whose characters straddle those pairs is left out.
pub fn parse_hex_color(s: &str) -> (r: Result<[u8; 3], String>)
    requires
        hex_pairs_whole(s@, 6),
    ensures
        match r {
            Ok(c) => spec_hex_rgb(s@) == Some(c),
            Err(m) => spec_hex_rgb(s@) is None && m@ == spec_hex_refusal(s@),
        },
{
    let t = strip_hashes(s);
    if utf8_count(&t) != 6 {
        proof {
            if spec_hex_rgb(s@) is Some {
                lemma_hex_rgb_ascii(s@);
            }
        }
        let mut m = "Expected 6-digit hex color, got: #".to_owned();
        m.append(crate::text::string_of(&t).as_str());
        return Err(m);
    }
    if t.len() != 6 {
        return Err("invalid digit found in string".to_owned());
    }
    match (read_hex_byte(t[0], t[1]), read_hex_byte(t[2], t[3]), read_hex_byte(t[4], t[5])) {
        (Some(r), Some(g), Some(b)) => Ok([r, g, b]),
        _ => Err("invalid digit found in string".to_owned()),
    }
}

/// The position of each aesthetic in `Aesthetic::all()`.
pub open spec fn spec_aes_index(a: Aesthetic) -> int {
    match a {
        Aesthetic::X => 0,
        Aesthetic::Y => 1,
        Aesthetic::Color => 2,
        Aesthetic::Fill => 3,
        Aesthetic::Group => 4,
        Aesthetic::Alpha => 5,
    }
}

impl Aesthetic {
    /// The aesthetic's position in `Aesthetic::all()`.
    pub fn index(&self) -> (r: usize)
        ensures
            r as int == spec_aes_index(*self),
            r < 6,
    {
        match self {
            Aesthetic::X => 0,
            Aesthetic::Y => 1,
            Aesthetic::Color => 2,
            Aesthetic::Fill => 3,
            Aesthetic::Group => 4,
            Aesthetic::Alpha => 5,
        }
    }
}

} // verus!
