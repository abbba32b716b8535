//! Splitting GQL source text into tokens.
//!
//! Tokens are separated by blanks (space, tab, carriage return, newline):
//! - a word: a letter or `_`, then letters, digits and `_`;
//! - a number: an optional `-`, digits, then optionally `.` and digits;
//! - a string: `"`, any characters but `"`, `"` (there are no escapes);
//! - one of the symbols `=`, `:`, `,`, `{`, `}`.
//! Any other character, an unterminated string or a `-` without digits is an error.
use vstd::prelude::*;

verus! {

/// A token, with the text of words, numbers and strings as characters.
pub enum Token {
    Word(Vec<char>),
    Num(Vec<char>),
    Str(Vec<char>),
    Eq,
    Colon,
    Comma,
    LBrace,
    RBrace,
}

/// The mathematical value of a token.
pub enum SToken {
    Word(Seq<char>),
    Num(Seq<char>),
    Str(Seq<char>),
    Eq,
    Colon,
    Comma,
    LBrace,
    RBrace,
}

impl DeepView for Token {
    type V = SToken;

    open spec fn deep_view(&self) -> SToken {
        match self {
            Token::Word(w) => SToken::Word(w@),
            Token::Num(w) => SToken::Num(w@),
            Token::Str(w) => SToken::Str(w@),
            Token::Eq => SToken::Eq,
            Token::Colon => SToken::Colon,
            Token::Comma => SToken::Comma,
            Token::LBrace => SToken::LBrace,
            Token::RBrace => SToken::RBrace,
        }
    }
}

pub open spec fn is_blank(c: char) -> bool {
    c == ' ' || c == '\t' || c == '\r' || c == '\n'
}

pub open spec fn is_digit(c: char) -> bool {
    '0' <= c && c <= '9'
}

pub open spec fn is_word_start(c: char) -> bool {
    ('a' <= c && c <= 'z') || ('A' <= c && c <= 'Z') || c == '_'
}

pub open spec fn is_word_char(c: char) -> bool {
    is_word_start(c) || is_digit(c)
}

/// The end of the run of word characters that starts at `i`.
pub open spec fn word_end(s: Seq<char>, i: int) -> int
    decreases s.len() - i,
{
    if 0 <= i < s.len() && is_word_char(s[i]) {
        word_end(s, i + 1)
    } else {
        i
    }
}

/// The end of the run of digits that starts at `i`.
pub open spec fn digits_end(s: Seq<char>, i: int) -> int
    decreases s.len() - i,
{
    if 0 <= i < s.len() && is_digit(s[i]) {
        digits_end(s, i + 1)
    } else {
        i
    }
}

/// The position of the first `"` at or after `i`, or the length if there is none.
pub open spec fn quote_end(s: Seq<char>, i: int) -> int
    decreases s.len() - i,
{
    if 0 <= i < s.len() && s[i] != '"' {
        quote_end(s, i + 1)
    } else {
        i
    }
}

/// The end of the number that starts at `i`, if a number starts there.
pub open spec fn number_end(s: Seq<char>, i: int) -> Option<int> {
    let j = if 0 <= i < s.len() && s[i] == '-' { i + 1 } else { i };
    if 0 <= j < s.len() && is_digit(s[j]) {
        let d = digits_end(s, j);
        if d < s.len() && d + 1 < s.len() && s[d] == '.' && is_digit(s[d + 1]) {
            Some(digits_end(s, d + 1))
        } else {
            Some(d)
        }
    } else {
        None
    }
}

pub proof fn lemma_word_end(s: Seq<char>, i: int)
    requires
        0 <= i,
    ensures
        i <= word_end(s, i),
        word_end(s, i) <= i || word_end(s, i) <= s.len(),
        forall|k: int| i <= k < word_end(s, i) ==> is_word_char(#[trigger] s[k]),
        word_end(s, i) < s.len() ==> !is_word_char(s[word_end(s, i)]),
    decreases s.len() - i,
{
    if 0 <= i < s.len() && is_word_char(s[i]) {
        lemma_word_end(s, i + 1);
    }
}

pub proof fn lemma_digits_end(s: Seq<char>, i: int)
    requires
        0 <= i,
    ensures
        i <= digits_end(s, i),
        digits_end(s, i) <= i || digits_end(s, i) <= s.len(),
        forall|k: int| i <= k < digits_end(s, i) ==> is_digit(#[trigger] s[k]),
        digits_end(s, i) < s.len() ==> !is_digit(s[digits_end(s, i)]),
    decreases s.len() - i,
{
    if 0 <= i < s.len() && is_digit(s[i]) {
        lemma_digits_end(s, i + 1);
    }
}

pub proof fn lemma_quote_end(s: Seq<char>, i: int)
    requires
        0 <= i,
    ensures
        i <= quote_end(s, i),
        quote_end(s, i) <= i || quote_end(s, i) <= s.len(),
        forall|k: int| i <= k < quote_end(s, i) ==> #[trigger] s[k] != '"',
        quote_end(s, i) < s.len() ==> s[quote_end(s, i)] == '"',
    decreases s.len() - i,
{
    if 0 <= i < s.len() && s[i] != '"' {
        lemma_quote_end(s, i + 1);
    }
}

pub proof fn lemma_number_end(s: Seq<char>, i: int)
    requires
        0 <= i,
    ensures
        number_end(s, i) matches Some(j) ==> i < j <= s.len(),
{
    let j = if 0 <= i < s.len() && s[i] == '-' { i + 1 } else { i };
    if 0 <= j < s.len() && is_digit(s[j]) {
        lemma_digits_end(s, j);
        let d = digits_end(s, j);
        if d < s.len() && d + 1 < s.len() && s[d] == '.' && is_digit(s[d + 1]) {
            lemma_digits_end(s, d + 1);
        }
    }
}

/// Puts a token in front of a token sequence, if there is one.
pub open spec fn prepend(t: SToken, rest: Option<Seq<SToken>>) -> Option<Seq<SToken>> {
    match rest {
        Some(r) => Some(seq![t] + r),
        None => None,
    }
}

/// Puts a sequence of tokens in front of a token sequence, if there is one.
pub open spec fn prepend_all(ts: Seq<SToken>, rest: Option<Seq<SToken>>) -> Option<Seq<SToken>> {
    match rest {
        Some(r) => Some(ts + r),
        None => None,
    }
}

/// The tokens of `s` from position `i` on, or `None` where the text has no tokenization.
pub open spec fn lex_from(s: Seq<char>, i: int) -> Option<Seq<SToken>>
    decreases s.len() - i,
{
    if i < 0 || i >= s.len() {
        Some(seq![])
    } else {
        let c = s[i];
        if is_blank(c) {
            lex_from(s, i + 1)
        } else if is_word_start(c) {
            let j = word_end(s, i + 1);
            proof {
                lemma_word_end(s, i + 1);
            }
            prepend(SToken::Word(s.subrange(i, j)), lex_from(s, j))
        } else if is_digit(c) || c == '-' {
            match number_end(s, i) {
                Some(j) => {
                    proof {
                        lemma_number_end(s, i);
                    }
                    prepend(SToken::Num(s.subrange(i, j)), lex_from(s, j))
                },
                None => None,
            }
        } else if c == '"' {
            let k = quote_end(s, i + 1);
            proof {
                lemma_quote_end(s, i + 1);
            }
            if k < s.len() {
                prepend(SToken::Str(s.subrange(i + 1, k)), lex_from(s, k + 1))
            } else {
                None
            }
        } else if c == '=' {
            prepend(SToken::Eq, lex_from(s, i + 1))
        } else if c == ':' {
            prepend(SToken::Colon, lex_from(s, i + 1))
        } else if c == ',' {
            prepend(SToken::Comma, lex_from(s, i + 1))
        } else if c == '{' {
            prepend(SToken::LBrace, lex_from(s, i + 1))
        } else if c == '}' {
            prepend(SToken::RBrace, lex_from(s, i + 1))
        } else {
            None
        }
    }
}

/// The tokens of the text `s`, or `None` where it has none.
pub open spec fn spec_lex(s: Seq<char>) -> Option<Seq<SToken>> {
    lex_from(s, 0)
}

fn scan_word(s: &Vec<char>, i: usize) -> (r: usize)
    ensures
        r as int == word_end(s@, i as int),
{
    let mut j = i;
    while j < s.len() && (('a' <= s[j] && s[j] <= 'z') || ('A' <= s[j] && s[j] <= 'Z') || s[j] == '_' || ('0' <= s[j] && s[j] <= '9'))
        invariant
            i <= j,
            j <= i || j <= s.len(),
            word_end(s@, i as int) == word_end(s@, j as int),
        decreases s.len() - j,
    {
        j = j + 1;
    }
    j
}

pub fn scan_digits(s: &Vec<char>, i: usize) -> (r: usize)
    ensures
        r as int == digits_end(s@, i as int),
{
    let mut j = i;
    while j < s.len() && '0' <= s[j] && s[j] <= '9'
        invariant
            i <= j,
            j <= i || j <= s.len(),
            digits_end(s@, i as int) == digits_end(s@, j as int),
        decreases s.len() - j,
    {
        j = j + 1;
    }
    j
}

fn scan_quote(s: &Vec<char>, i: usize) -> (r: usize)
    ensures
        r as int == quote_end(s@, i as int),
{
    let mut j = i;
    while j < s.len() && s[j] != '"'
        invariant
            i <= j,
            j <= i || j <= s.len(),
            quote_end(s@, i as int) == quote_end(s@, j as int),
        decreases s.len() - j,
    {
        j = j + 1;
    }
    j
}

fn scan_number(s: &Vec<char>, i: usize) -> (r: Option<usize>)
    requires
        i < s.len(),
    ensures
        match r {
            Some(j) => number_end(s@, i as int) == Some(j as int),
            None => number_end(s@, i as int) is None,
        },
{
    let j = if s[i] == '-' { i + 1 } else { i };
    if j < s.len() && '0' <= s[j] && s[j] <= '9' {
        let d = scan_digits(s, j);
        proof {
            lemma_digits_end(s@, j as int);
        }
        if d < s.len() && d + 1 < s.len() && s[d] == '.' && '0' <= s[d + 1] && s[d + 1] <= '9' {
            Some(scan_digits(s, d + 1))
        } else {
            Some(d)
        }
    } else {
        None
    }
}

fn slice_chars(s: &Vec<char>, lo: usize, hi: usize) -> (r: Vec<char>)
    requires
        lo <= hi <= s.len(),
    ensures
        r@ == s@.subrange(lo as int, hi as int),
{
    let mut r: Vec<char> = Vec::new();
    let mut k = lo;
    while k < hi
        invariant
            lo <= k <= hi <= s.len(),
            r@ == s@.subrange(lo as int, k as int),
        decreases hi - k,
    {
        r.push(s[k]);
        k = k + 1;
    }
    r
}

/// Splits source text into tokens; `None` where the text has no tokenization.
pub fn lex(s: &Vec<char>) -> (r: Option<Vec<Token>>)
    ensures
        match r {
            Some(ts) => spec_lex(s@) == Some(ts.deep_view()),
            None => spec_lex(s@) is None,
        },
{
    let mut out: Vec<Token> = Vec::new();
    let mut i: usize = 0;
    while i < s.len()
        invariant
            i <= s.len(),
            spec_lex(s@) == prepend_all(out.deep_view(), lex_from(s@, i as int)),
        decreases s.len() - i,
    {
        let c = s[i];
        let ghost before = out.deep_view();
        if c == ' ' || c == '\t' || c == '\r' || c == '\n' {
            i = i + 1;
        } else if ('a' <= c && c <= 'z') || ('A' <= c && c <= 'Z') || c == '_' {
            let j = scan_word(s, i + 1);
            proof {
                lemma_word_end(s@, i as int + 1);
            }
            out.push(Token::Word(slice_chars(s, i, j)));
            assert(out.deep_view() =~= before + seq![SToken::Word(s@.subrange(i as int, j as int))]);
            i = j;
        } else if ('0' <= c && c <= '9') || c == '-' {
            match scan_number(s, i) {
                Some(j) => {
                    proof {
                        lemma_number_end(s@, i as int);
                    }
                    out.push(Token::Num(slice_chars(s, i, j)));
                    assert(out.deep_view() =~= before + seq![SToken::Num(s@.subrange(i as int, j as int))]);
                    i = j;
                },
                None => {
                    return None;
                },
            }
        } else if c == '"' {
            let k = scan_quote(s, i + 1);
            proof {
                lemma_quote_end(s@, i as int + 1);
            }
            if k < s.len() {
                out.push(Token::Str(slice_chars(s, i + 1, k)));
                assert(out.deep_view() =~= before + seq![SToken::Str(s@.subrange(i as int + 1, k as int))]);
                i = k + 1;
            } else {
                return None;
            }
        } else {
            let t = if c == '=' {
                Token::Eq
            } else if c == ':' {
                Token::Colon
            } else if c == ',' {
                Token::Comma
            } else if c == '{' {
                Token::LBrace
            } else if c == '}' {
                Token::RBrace
            } else {
                return None;
            };
            let ghost tv = t.deep_view();
            out.push(t);
            assert(out.deep_view() =~= before + seq![tv]);
            i = i + 1;
        }
    }
    assert(out.deep_view() + seq![] =~= out.deep_view());
    Some(out)
}

} // verus!
