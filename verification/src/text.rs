//! Character-level helpers shared by the lexer, the CSV reader and the SVG text code.
use vstd::prelude::*;

verus! {

/// Appends one character to a string.
///
/// Trusted: calls `String::push`, whose documentation says it appends the
/// given `char` to the end of the string; the contract states exactly that.
#[verifier::external_body]
pub(crate) fn push_char(s: &mut String, c: char)
    ensures
        final(s)@ == old(s)@.push(c),
{
    s.push(c);
}

/// The characters of a string slice, in order.
pub fn chars_of(s: &str) -> (r: Vec<char>)
    ensures
        r@ == s@,
{
    broadcast use vstd::string::group_string_axioms;
    let mut r: Vec<char> = Vec::new();
    for c in it: s.chars()
        invariant
            r@ == it.seq().take(it.index() as int),
    {
        r.push(c);
    }
    r
}

} // verus!

verus! {

/// A string made of the given characters.
pub fn string_of(v: &Vec<char>) -> (r: String)
    ensures
        r@ == v@,
{
    let mut r = String::new();
    let mut k: usize = 0;
    while k < v.len()
        invariant
            k <= v.len(),
            r@ == v@.take(k as int),
        decreases v.len() - k,
    {
        push_char(&mut r, v[k]);
        proof {
            assert(v@.take(k as int + 1) =~= v@.take(k as int).push(v@[k as int]));
        }
        k = k + 1;
    }
    proof {
        assert(v@.take(v@.len() as int) =~= v@);
    }
    r
}

/// Whether the characters `v` spell out the string `s`.
pub fn chars_equal(v: &Vec<char>, s: &str) -> (r: bool)
    ensures
        r == (v@ == s@),
{
    let w = chars_of(s);
    if v.len() != w.len() {
        return false;
    }
    let mut k: usize = 0;
    while k < v.len()
        invariant
            k <= v.len(),
            v.len() == w.len(),
            w@ == s@,
            forall|m: int| 0 <= m < k ==> v@[m] == w@[m],
        decreases v.len() - k,
    {
        if v[k] != w[k] {
            return false;
        }
        k = k + 1;
    }
    proof {
        assert(v@ =~= w@);
    }
    true
}

} // verus!

verus! {

/// Whether a character is white space: Unicode's `White_Space` property, as
/// `char::is_whitespace` and `str::trim` have it.
pub open spec fn is_white(c: char) -> bool {
    ||| c == '\t'
    ||| c == '\n'
    ||| c == '\u{0B}'
    ||| c == '\u{0C}'
    ||| c == '\r'
    ||| c == ' '
    ||| c == '\u{85}'
    ||| c == '\u{A0}'
    ||| c == '\u{1680}'
    ||| ('\u{2000}' <= c && c <= '\u{200A}')
    ||| c == '\u{2028}'
    ||| c == '\u{2029}'
    ||| c == '\u{202F}'
    ||| c == '\u{205F}'
    ||| c == '\u{3000}'
}

/// Whether a character is white space (see `is_white`).
pub fn is_white_char(c: char) -> (r: bool)
    ensures
        r == is_white(c),
{
    c == '\t' || c == '\n' || c == '\u{0B}' || c == '\u{0C}' || c == '\r' || c == ' ' || c == '\u{85}'
        || c == '\u{A0}' || c == '\u{1680}' || ('\u{2000}' <= c && c <= '\u{200A}') || c == '\u{2028}'
        || c == '\u{2029}' || c == '\u{202F}' || c == '\u{205F}' || c == '\u{3000}'
}

/// The text without its leading white space.
pub open spec fn trim_start(s: Seq<char>) -> Seq<char>
    decreases s.len(),
{
    if s.len() > 0 && is_white(s[0]) {
        trim_start(s.drop_first())
    } else {
        s
    }
}

/// The text without its trailing white space.
pub open spec fn trim_end(s: Seq<char>) -> Seq<char>
    decreases s.len(),
{
    if s.len() > 0 && is_white(s.last()) {
        trim_end(s.drop_last())
    } else {
        s
    }
}

/// The text without its leading and trailing white space, as `str::trim` gives it.
pub open spec fn trim(s: Seq<char>) -> Seq<char> {
    trim_end(trim_start(s))
}

/// The characters of `v` without leading and trailing white space.
pub fn trim_chars(v: &Vec<char>) -> (r: Vec<char>)
    ensures
        r@ == trim(v@),
{
    let mut a: usize = 0;
    assert(v@.skip(0) =~= v@);
    while a < v.len() && is_white_char(v[a])
        invariant
            a <= v.len(),
            trim_start(v@) == trim_start(v@.skip(a as int)),
        decreases v.len() - a,
    {
        assert(v@.skip(a as int).drop_first() =~= v@.skip(a as int + 1));
        a = a + 1;
    }
    let ghost t = v@.skip(a as int);
    assert(trim_start(t) == t);
    let mut b: usize = v.len();
    assert(t =~= v@.subrange(a as int, b as int));
    while b > a && is_white_char(v[b - 1])
        invariant
            a <= b <= v.len(),
            trim_end(t) == trim_end(v@.subrange(a as int, b as int)),
        decreases b - a,
    {
        assert(v@.subrange(a as int, b as int).drop_last() =~= v@.subrange(a as int, b as int - 1));
        b = b - 1;
    }
    let mut r: Vec<char> = Vec::new();
    let mut k = a;
    while k < b
        invariant
            a <= k <= b <= v.len(),
            r@ == v@.subrange(a as int, k as int),
        decreases b - k,
    {
        r.push(v[k]);
        assert(v@.subrange(a as int, k as int + 1) =~= v@.subrange(a as int, k as int).push(v@[k as int]));
        k = k + 1;
    }
    r
}

/// The pieces of `s` between separators, as `str::split` gives them: one
/// more than there are separators, some of them possibly empty.
pub open spec fn split_on(s: Seq<char>, sep: char) -> Seq<Seq<char>>
    decreases s.len(),
{
    if s.len() == 0 {
        seq![seq![]]
    } else {
        let pre = split_on(s.drop_last(), sep);
        if s.last() == sep {
            pre.push(seq![])
        } else {
            pre.update(pre.len() - 1, pre.last().push(s.last()))
        }
    }
}

proof fn lemma_split_on_nonempty(s: Seq<char>, sep: char)
    ensures
        split_on(s, sep).len() >= 1,
    decreases s.len(),
{
    if s.len() > 0 {
        lemma_split_on_nonempty(s.drop_last(), sep);
    }
}

/// The pieces of `v` between separators (see `split_on`).
pub fn split_chars(v: &Vec<char>, sep: char) -> (r: Vec<Vec<char>>)
    ensures
        r.deep_view() == split_on(v@, sep),
        r.len() >= 1,
{
    let mut pieces: Vec<Vec<char>> = Vec::new();
    let mut cur: Vec<char> = Vec::new();
    let mut k: usize = 0;
    assert(v@.take(0) =~= Seq::<char>::empty());
    assert(pieces.deep_view().push(cur@) =~= split_on(v@.take(0), sep));
    while k < v.len()
        invariant
            k <= v.len(),
            pieces.deep_view().push(cur@) == split_on(v@.take(k as int), sep),
        decreases v.len() - k,
    {
        let ghost pre = pieces.deep_view();
        let ghost cv = cur@;
        assert(v@.take(k as int + 1).drop_last() =~= v@.take(k as int));
        assert(v@.take(k as int + 1).last() == v@[k as int]);
        if v[k] == sep {
            let done = cur;
            assert(done.deep_view() =~= cv);
            pieces.push(done);
            cur = Vec::new();
            assert(pieces.deep_view() =~= pre.push(cv));
            assert(pieces.deep_view().push(cur@) =~= pre.push(cv).push(Seq::<char>::empty()));
        } else {
            cur.push(v[k]);
            assert(pieces.deep_view().push(cur@) =~= pre.push(cv).update(pre.len() as int, cv.push(v@[k as int])));
        }
        k = k + 1;
    }
    assert(v@.take(k as int) =~= v@);
    let ghost pre = pieces.deep_view();
    let ghost cv = cur@;
    assert(cur.deep_view() =~= cv);
    pieces.push(cur);
    assert(pieces.deep_view() =~= pre.push(cv));
    pieces
}

/// The bytes that a character takes in UTF-8.
pub open spec fn utf8_len(c: char) -> nat {
    if (c as u32) < 0x80 {
        1
    } else if (c as u32) < 0x800 {
        2
    } else if (c as u32) < 0x10000 {
        3
    } else {
        4
    }
}

/// The bytes that a text takes in UTF-8 (what `str::len` counts).
pub open spec fn utf8_size(s: Seq<char>) -> nat
    decreases s.len(),
{
    if s.len() == 0 {
        0
    } else {
        utf8_size(s.drop_last()) + utf8_len(s.last())
    }
}

/// The bytes that a character takes in UTF-8 (see `utf8_len`).
pub fn char_size(c: char) -> (r: usize)
    ensures
        r == utf8_len(c),
{
    let v = c as u32;
    if v < 0x80 {
        1
    } else if v < 0x800 {
        2
    } else if v < 0x10000 {
        3
    } else {
        4
    }
}

/// Byte offsets grow by at least one per character.
pub proof fn lemma_utf8_size_grows(t: Seq<char>, j: int, k: int)
    requires
        0 <= j <= k <= t.len(),
    ensures
        utf8_size(t.take(j)) + (k - j) <= utf8_size(t.take(k)),
        utf8_size(t.take(k)) <= utf8_size(t.take(j)) + 4 * (k - j),
    decreases k - j,
{
    if j < k {
        lemma_utf8_size_grows(t, j, k - 1);
        assert(t.take(k).drop_last() =~= t.take(k - 1));
        assert(t.take(k).last() == t[k - 1]);
    }
}

/// Whether byte offset `b` of a text falls between two of its characters
/// (or at either end), as `str::is_char_boundary` says.
pub open spec fn is_char_boundary(t: Seq<char>, b: nat) -> bool {
    exists|k: int| 0 <= k <= t.len() && #[trigger] utf8_size(t.take(k)) == b
}

/// The bytes that a text takes in UTF-8.
pub fn utf8_count(t: &Vec<char>) -> (r: u128)
    ensures
        r == utf8_size(t@),
{
    let mut acc: u128 = 0;
    let mut k: usize = 0;
    assert(t@.take(0) =~= Seq::<char>::empty());
    while k < t.len()
        invariant
            k <= t.len(),
            acc == utf8_size(t@.take(k as int)),
            acc <= 4 * k,
        decreases t.len() - k,
    {
        assert(t@.take(k as int + 1).drop_last() =~= t@.take(k as int));
        assert(t@.take(k as int + 1).last() == t@[k as int]);
        acc = acc + char_size(t[k]) as u128;
        k = k + 1;
    }
    assert(t@.take(k as int) =~= t@);
    acc
}

/// Whether byte offset `b` falls on a character boundary (see `is_char_boundary`).
pub fn char_boundary(t: &Vec<char>, b: u128) -> (r: bool)
    ensures
        r == is_char_boundary(t@, b as nat),
{
    let mut acc: u128 = 0;
    let mut k: usize = 0;
    assert(t@.take(0) =~= Seq::<char>::empty());
    while k < t.len()
        invariant
            k <= t.len(),
            acc == utf8_size(t@.take(k as int)),
            acc <= 4 * k,
            forall|j: int| 0 <= j < k ==> #[trigger] utf8_size(t@.take(j)) != b,
        decreases t.len() - k,
    {
        if acc == b {
            return true;
        }
        if acc > b {
            proof {
                assert forall|j: int| 0 <= j <= t@.len() implies #[trigger] utf8_size(t@.take(j)) != b by {
                    if j > k {
                        lemma_utf8_size_grows(t@, k as int, j);
                    }
                }
            }
            return false;
        }
        assert(t@.take(k as int + 1).drop_last() =~= t@.take(k as int));
        assert(t@.take(k as int + 1).last() == t@[k as int]);
        acc = acc + char_size(t[k]) as u128;
        k = k + 1;
    }
    if acc == b {
        return true;
    }
    proof {
        assert forall|j: int| 0 <= j <= t@.len() implies #[trigger] utf8_size(t@.take(j)) != b by {
            if j == k {
            }
        }
    }
    false
}

/// The digit character of a number below ten.
pub open spec fn digit_char(d: nat) -> char {
    ((d + 48) as u8) as char
}

/// The decimal numeral of a number.
pub open spec fn decimal(n: nat) -> Seq<char>
    decreases n,
{
    if n < 10 {
        seq![digit_char(n)]
    } else {
        decimal(n / 10).push(digit_char(n % 10))
    }
}

/// The decimal numeral of a number, as `format!("{}", n)` writes it.
pub fn decimal_string(n: usize) -> (r: String)
    ensures
        r@ == decimal(n as nat),
    decreases n,
{
    if n < 10 {
        let mut r = String::new();
        let c = ((n as u8) + 48) as char;
        push_char(&mut r, c);
        assert(r@ =~= seq![digit_char(n as nat)]);
        r
    } else {
        let mut r = decimal_string(n / 10);
        let c = (((n % 10) as u8) + 48) as char;
        push_char(&mut r, c);
        r
    }
}

} // verus!
