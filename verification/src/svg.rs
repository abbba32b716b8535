//! Text for SVG output: escaping, and greedy word wrapping.
use vstd::prelude::*;
use crate::text::{char_size, chars_of, is_white, is_white_char, string_of, utf8_len, utf8_size};

verus! {

/// What a character becomes in XML text and attribute values.
pub open spec fn escaped(c: char) -> Seq<char> {
    if c == '&' {
        "&amp;"@
    } else if c == '<' {
        "&lt;"@
    } else if c == '>' {
        "&gt;"@
    } else if c == '"' {
        "&quot;"@
    } else {
        seq![c]
    }
}

/// A text with `&`, `<`, `>` and `"` replaced by their XML entities.
pub open spec fn spec_escape_xml(s: Seq<char>) -> Seq<char>
    decreases s.len(),
{
    if s.len() == 0 {
        seq![]
    } else {
        spec_escape_xml(s.drop_last()) + escaped(s.last())
    }
}

/// Escapes a text for XML (see `spec_escape_xml`).
pub fn escape_xml(s: &str) -> (r: String)
    ensures
        r@ == spec_escape_xml(s@),
{
    let cs = chars_of(s);
    let mut r = String::new();
    let mut k: usize = 0;
    while k < cs.len()
        invariant
            k <= cs.len(),
            cs@ == s@,
            r@ == spec_escape_xml(cs@.take(k as int)),
        decreases cs.len() - k,
    {
        assert(cs@.take(k as int + 1).drop_last() =~= cs@.take(k as int));
        assert(cs@.take(k as int + 1).last() == cs@[k as int]);
        let c = cs[k];
        if c == '&' {
            r.append("&amp;");
        } else if c == '<' {
            r.append("&lt;");
        } else if c == '>' {
            r.append("&gt;");
        } else if c == '"' {
            r.append("&quot;");
        } else {
            crate::text::push_char(&mut r, c);
            assert(r@ =~= spec_escape_xml(cs@.take(k as int)) + seq![c]);
        }
        k = k + 1;
    }
    assert(cs@.take(k as int) =~= cs@);
    r
}

/// Reads XML-escaped text back, left to right: each of the entities
/// `&amp;`, `&lt;`, `&gt;` and `&quot;` becomes its character, and every
/// other character stays as it is.
pub open spec fn unescape_xml(t: Seq<char>) -> Seq<char>
    decreases t.len(),
{
    if t.len() == 0 {
        seq![]
    } else if t.len() >= 5 && t.take(5) == "&amp;"@ {
        seq!['&'] + unescape_xml(t.skip(5))
    } else if t.len() >= 4 && t.take(4) == "&lt;"@ {
        seq!['<'] + unescape_xml(t.skip(4))
    } else if t.len() >= 4 && t.take(4) == "&gt;"@ {
        seq!['>'] + unescape_xml(t.skip(4))
    } else if t.len() >= 6 && t.take(6) == "&quot;"@ {
        seq!['"'] + unescape_xml(t.skip(6))
    } else {
        seq![t[0]] + unescape_xml(t.skip(1))
    }
}

proof fn lemma_escape_concat(a: Seq<char>, b: Seq<char>)
    ensures
        spec_escape_xml(a + b) == spec_escape_xml(a) + spec_escape_xml(b),
    decreases b.len(),
{
    if b.len() == 0 {
        assert(a + b =~= a);
        assert(spec_escape_xml(a) + spec_escape_xml(b) =~= spec_escape_xml(a));
    } else {
        lemma_escape_concat(a, b.drop_last());
        assert((a + b).drop_last() =~= a + b.drop_last());
        assert((a + b).last() == b.last());
        assert(spec_escape_xml(a) + spec_escape_xml(b) =~= spec_escape_xml(a) + spec_escape_xml(b.drop_last()) + escaped(b.last()));
    }
}

proof fn lemma_escape_front(s: Seq<char>)
    requires
        s.len() > 0,
    ensures
        spec_escape_xml(s) == escaped(s[0]) + spec_escape_xml(s.skip(1)),
{
    let c = seq![s[0]];
    assert(c + s.skip(1) =~= s);
    lemma_escape_concat(c, s.skip(1));
    assert(c.drop_last() =~= Seq::<char>::empty());
    assert(c.last() == s[0]);
    assert(spec_escape_xml(c.drop_last()) =~= Seq::<char>::empty());
    assert(spec_escape_xml(c) == spec_escape_xml(c.drop_last()) + escaped(c.last()));
    assert(spec_escape_xml(c) =~= escaped(s[0]));
}

proof fn lemma_escaped_has_no_markup(c: char)
    ensures
        !escaped(c).contains('<'),
        !escaped(c).contains('>'),
        !escaped(c).contains('"'),
{
    reveal_strlit("&amp;");
    reveal_strlit("&lt;");
    reveal_strlit("&gt;");
    reveal_strlit("&quot;");
    assert forall|i: int| 0 <= i < escaped(c).len() implies escaped(c)[i] != '<' && escaped(c)[i] != '>' && escaped(c)[i] != '"' by {
    }
}

proof fn lemma_escape_has_no_markup(s: Seq<char>)
    ensures
        !spec_escape_xml(s).contains('<'),
        !spec_escape_xml(s).contains('>'),
        !spec_escape_xml(s).contains('"'),
    decreases s.len(),
{
    if s.len() > 0 {
        lemma_escape_has_no_markup(s.drop_last());
        lemma_escaped_has_no_markup(s.last());
        let a = spec_escape_xml(s.drop_last());
        let b = escaped(s.last());
        assert forall|i: int| 0 <= i < (a + b).len() implies (a + b)[i] != '<' && (a + b)[i] != '>' && (a + b)[i] != '"' by {
            if i < a.len() {
                assert((a + b)[i] == a[i]);
            } else {
                assert((a + b)[i] == b[i - a.len()]);
            }
        }
    }
}

proof fn lemma_unescape_escaped_front(c: char, rest: Seq<char>)
    ensures
        unescape_xml(escaped(c) + rest) == seq![c] + unescape_xml(rest),
{
    reveal_strlit("&amp;");
    reveal_strlit("&lt;");
    reveal_strlit("&gt;");
    reveal_strlit("&quot;");
    let t = escaped(c) + rest;
    if c == '&' {
        assert(t.take(5) =~= "&amp;"@);
        assert(t.skip(5) =~= rest);
    } else if c == '<' {
        assert(t[1] == 'l');
        assert(t.len() >= 5 ==> t.take(5)[1] == 'l');
        assert(t.take(4) =~= "&lt;"@);
        assert(t.skip(4) =~= rest);
    } else if c == '>' {
        assert(t[1] == 'g');
        assert(t.len() >= 5 ==> t.take(5)[1] == 'g');
        assert(t.take(4)[1] == 'g');
        assert(t.take(4) =~= "&gt;"@);
        assert(t.skip(4) =~= rest);
    } else if c == '"' {
        assert(t[1] == 'q');
        assert(t.take(5)[1] == 'q');
        assert(t.take(4)[1] == 'q');
        assert(t.take(6) =~= "&quot;"@);
        assert(t.skip(6) =~= rest);
    } else {
        assert(t[0] == c);
        assert(t.len() >= 5 ==> t.take(5)[0] == c);
        assert(t.len() >= 4 ==> t.take(4)[0] == c);
        assert(t.len() >= 6 ==> t.take(6)[0] == c);
        assert(t.skip(1) =~= rest);
    }
}

/// Escaping is safe and loses nothing: the escaped text holds no `<`, `>`
/// or `"`, and reading its entities back gives the text that was escaped.
pub proof fn law_escape_xml_reversible(s: Seq<char>)
    ensures
        !spec_escape_xml(s).contains('<'),
        !spec_escape_xml(s).contains('>'),
        !spec_escape_xml(s).contains('"'),
        unescape_xml(spec_escape_xml(s)) == s,
    decreases s.len(),
{
    lemma_escape_has_no_markup(s);
    if s.len() == 0 {
    } else {
        lemma_escape_front(s);
        law_escape_xml_reversible(s.skip(1));
        lemma_unescape_escaped_front(s[0], spec_escape_xml(s.skip(1)));
        assert(seq![s[0]] + s.skip(1) =~= s);
    }
}

// ---------------------------------------------------------------------------
// Word wrapping

/// The words of a text: its maximal runs of characters that are not white
/// space, in order (what `str::split_whitespace` gives).
pub open spec fn words(s: Seq<char>) -> Seq<Seq<char>>
    decreases s.len(),
{
    if s.len() == 0 {
        seq![]
    } else {
        let w = words(s.drop_last());
        if is_white(s.last()) {
            w
        } else if s.len() > 1 && !is_white(s[s.len() - 2]) {
            w.update(w.len() - 1, w.last().push(s.last()))
        } else {
            w.push(seq![s.last()])
        }
    }
}

/// Greedy wrapping of words: the finished lines, and the line being filled.
/// A word joins the current line, after a space, while the line stays
/// within `limit` bytes; otherwise it starts a new line.
pub open spec fn wrap_state(ws: Seq<Seq<char>>, limit: nat) -> (Seq<Seq<char>>, Seq<char>)
    decreases ws.len(),
{
    if ws.len() == 0 {
        (seq![], seq![])
    } else {
        let (lines, cur) = wrap_state(ws.drop_last(), limit);
        let w = ws.last();
        if cur.len() == 0 {
            (lines, w)
        } else if utf8_size(cur) + 1 + utf8_size(w) <= limit {
            (lines, cur + seq![' '] + w)
        } else {
            (lines.push(cur), w)
        }
    }
}

/// The lines of a text wrapped to `limit` bytes per line: words are never
/// split, so a longer word stands on a line of its own; a text without
/// words gives one empty line.
pub open spec fn spec_wrap(s: Seq<char>, limit: nat) -> Seq<Seq<char>> {
    let (lines, cur) = wrap_state(words(s), limit);
    let all = if cur.len() > 0 { lines.push(cur) } else { lines };
    if all.len() == 0 { seq![seq![]] } else { all }
}

proof fn lemma_utf8_size_concat(a: Seq<char>, b: Seq<char>)
    ensures
        utf8_size(a + b) == utf8_size(a) + utf8_size(b),
    decreases b.len(),
{
    if b.len() == 0 {
        assert(a + b =~= a);
    } else {
        lemma_utf8_size_concat(a, b.drop_last());
        assert((a + b).drop_last() =~= a + b.drop_last());
        assert((a + b).last() == b.last());
    }
}

proof fn lemma_utf8_size_bound(a: Seq<char>)
    ensures
        utf8_size(a) <= 4 * a.len(),
        a.len() > 0 ==> utf8_size(a) >= 1,
    decreases a.len(),
{
    if a.len() > 0 {
        lemma_utf8_size_bound(a.drop_last());
    }
}

fn words_of(cs: &Vec<char>) -> (r: Vec<Vec<char>>)
    ensures
        r.deep_view() == words(cs@),
        forall|i: int| 0 <= i < r.len() ==> (#[trigger] r.deep_view()[i]).len() > 0,
{
    let mut done: Vec<Vec<char>> = Vec::new();
    let mut cur: Vec<char> = Vec::new();
    let mut k: usize = 0;
    assert(cs@.take(0) =~= Seq::<char>::empty());
    assert(done.deep_view() =~= Seq::<Seq<char>>::empty());
    while k < cs.len()
        invariant
            k <= cs.len(),
            (cur.len() > 0) == (k > 0 && !is_white(cs@[k - 1])),
            words(cs@.take(k as int)) == if cur.len() > 0 { done.deep_view().push(cur@) } else { done.deep_view() },
            forall|i: int| 0 <= i < done.len() ==> (#[trigger] done.deep_view()[i]).len() > 0,
        decreases cs.len() - k,
    {
        let ghost pre = cs@.take(k as int);
        let ghost nxt = cs@.take(k as int + 1);
        let ghost dv = done.deep_view();
        let ghost cv = cur@;
        assert(nxt.drop_last() =~= pre);
        assert(nxt.last() == cs@[k as int]);
        if k > 0 {
            assert(nxt[nxt.len() - 2] == cs@[k - 1]);
        }
        let c = cs[k];
        if is_white_char(c) {
            if cur.len() > 0 {
                let w = cur;
                assert(w.deep_view() =~= cv);
                done.push(w);
                cur = Vec::new();
                assert(done.deep_view() =~= dv.push(cv));
            }
        } else {
            cur.push(c);
            proof {
                if cv.len() > 0 {
                    assert(dv.push(cur@) =~= dv.push(cv).update(dv.len() as int, cv.push(c)));
                } else {
                    assert(cur@ =~= seq![c]);
                }
            }
        }
        k = k + 1;
    }
    assert(cs@.take(k as int) =~= cs@);
    if cur.len() > 0 {
        let ghost dv = done.deep_view();
        let ghost cv = cur@;
        assert(cur.deep_view() =~= cv);
        done.push(cur);
        assert(done.deep_view() =~= dv.push(cv));
    }
    done
}

/// Wraps a text greedily into lines of at most `limit` bytes where its words
/// allow it (see `spec_wrap`).
pub fn wrap_words(text: &str, limit: usize) -> (r: Vec<String>)
    ensures
        r.deep_view() == spec_wrap(text@, limit as nat),
{
    let cs = chars_of(text);
    let ws = words_of(&cs);
    let ghost wd = ws.deep_view();
    let mut lines: Vec<String> = Vec::new();
    let mut cur: Vec<char> = Vec::new();
    let mut cur_size: u128 = 0;
    let mut k: usize = 0;
    assert(wd.take(0) =~= Seq::<Seq<char>>::empty());
    assert(lines.deep_view() =~= Seq::<Seq<char>>::empty());
    while k < ws.len()
        invariant
            k <= ws.len(),
            wd == ws.deep_view(),
            wd == words(cs@),
            cs@ == text@,
            forall|i: int| 0 <= i < ws.len() ==> (#[trigger] wd[i]).len() > 0,
            wrap_state(wd.take(k as int), limit as nat) == (lines.deep_view(), cur@),
            cur_size == utf8_size(cur@),
            cur_size <= 4 * (usize::MAX as u128),
        decreases ws.len() - k,
    {
        let w = &ws[k];
        let ghost wv = w@;
        assert(wd[k as int] =~= wv);
        assert(wd.take(k as int + 1).drop_last() =~= wd.take(k as int));
        assert(wd.take(k as int + 1).last() == wv);
        let mut w_size: u128 = 0;
        let mut m: usize = 0;
        while m < w.len()
            invariant
                m <= w.len(),
                w_size == utf8_size(w@.take(m as int)),
                w_size <= 4 * m,
            decreases w.len() - m,
        {
            assert(w@.take(m as int + 1).drop_last() =~= w@.take(m as int));
            w_size = w_size + char_size(w[m]) as u128;
            m = m + 1;
        }
        assert(w@.take(m as int) =~= w@);
        assert(w_size <= 4 * (usize::MAX as u128));
        if cur.len() == 0 {
            cur = copy_chars(w);
            cur_size = w_size;
        } else if cur_size + 1 + w_size <= limit as u128 {
            let ghost before = cur@;
            cur.push(' ');
            let mut m: usize = 0;
            while m < w.len()
                invariant
                    m <= w.len(),
                    cur@ == before + seq![' '] + w@.take(m as int),
                decreases w.len() - m,
            {
                cur.push(w[m]);
                assert(w@.take(m as int + 1) =~= w@.take(m as int).push(w@[m as int]));
                m = m + 1;
            }
            assert(w@.take(m as int) =~= w@);
            proof {
                lemma_utf8_size_concat(before + seq![' '], wv);
                lemma_utf8_size_concat(before, seq![' ']);
                assert(seq![' '].drop_last() =~= Seq::<char>::empty());
                assert(utf8_len(' ') == 1);
                assert(utf8_size(Seq::<char>::empty()) == 0);
                assert(seq![' '].last() == ' ');
                assert(utf8_size(seq![' ']) == 1);
                assert(utf8_size(before + seq![' '] + wv) == utf8_size(before) + 1 + utf8_size(wv));
            }
            cur_size = cur_size + 1 + w_size;
        } else {
            let ghost before = lines.deep_view();
            let line = string_of(&cur);
            lines.push(line);
            assert(lines.deep_view() =~= before.push(cur@));
            cur = copy_chars(w);
            cur_size = w_size;
        }
        k = k + 1;
    }
    assert(wd.take(k as int) =~= wd);
    if cur.len() > 0 {
        let ghost before = lines.deep_view();
        let line = string_of(&cur);
        lines.push(line);
        assert(lines.deep_view() =~= before.push(cur@));
    }
    if lines.len() == 0 {
        lines.push(String::new());
        assert(lines.deep_view() =~= seq![Seq::<char>::empty()]);
    }
    lines
}

fn copy_chars(v: &Vec<char>) -> (r: Vec<char>)
    ensures
        r@ == v@,
{
    let mut r: Vec<char> = Vec::new();
    let mut k: usize = 0;
    while k < v.len()
        invariant
            k <= v.len(),
            r@ == v@.take(k as int),
        decreases v.len() - k,
    {
        r.push(v[k]);
        assert(v@.take(k as int + 1) =~= v@.take(k as int).push(v@[k as int]));
        k = k + 1;
    }
    assert(v@.take(k as int) =~= v@);
    r
}

} // verus!
