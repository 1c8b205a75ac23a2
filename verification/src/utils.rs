//! Escaping, slugs, paths, reading time and date formatting.
use vstd::prelude::*;
use crate::text::{
    chars_of, dec, dec2, lemma_join_push, dec_int, find, find_in, is_whitespace, is_ws, join, lowercase, parse_i32_range, parse_int,
    parse_uint, parse_uint_range, push_char, push_dec, push_dec2, push_dec_i64, push_range, push_str, range_eq,
    match_at, replace, replace_from, replace_str, split_char, split_ranges, string_of, to_lowercase, trim, trim_range,
};

verus! {

// ---------------------------------------------------------------------------
// Escaping
// ---------------------------------------------------------------------------

/// `s` with each character replaced by `f` of it, written one after another.
pub open spec fn map_chars(s: Seq<char>, f: spec_fn(char) -> Seq<char>) -> Seq<char>
    decreases s.len(),
{
    if s.len() == 0 {
        Seq::empty()
    } else {
        map_chars(s.drop_last(), f) + f(s.last())
    }
}

/// How `html_escape` writes one character.
pub open spec fn html_escape_char(c: char) -> Seq<char> {
    if c == '&' {
        "&amp;"@
    } else if c == '<' {
        "&lt;"@
    } else if c == '>' {
        "&gt;"@
    } else if c == '"' {
        "&quot;"@
    } else {
        seq![c]
    }
}

/// How `xml_escape` writes one character.
pub open spec fn xml_escape_char(c: char) -> Seq<char> {
    if c == '&' {
        "&amp;"@
    } else if c == '<' {
        "&lt;"@
    } else if c == '>' {
        "&gt;"@
    } else {
        seq![c]
    }
}

/// How `json_escape` writes one character.
pub open spec fn json_escape_char(c: char) -> Seq<char> {
    if c == '\\' {
        "\\\\"@
    } else if c == '"' {
        "\\\""@
    } else if c == '\n' {
        "\\n"@
    } else if c == '\r' {
        "\\r"@
    } else if c == '\t' {
        "\\t"@
    } else {
        seq![c]
    }
}

pub open spec fn spec_html_escape(s: Seq<char>) -> Seq<char> {
    map_chars(s, |c: char| html_escape_char(c))
}

pub open spec fn spec_xml_escape(s: Seq<char>) -> Seq<char> {
    map_chars(s, |c: char| xml_escape_char(c))
}

pub open spec fn spec_json_escape(s: Seq<char>) -> Seq<char> {
    map_chars(s, |c: char| json_escape_char(c))
}

/// The five entity replacements of `html_decode`, applied one after another.
pub open spec fn spec_html_decode(s: Seq<char>) -> Seq<char> {
    replace(
        replace(replace(replace(replace(s, "&amp;"@, "&"@), "&lt;"@, "<"@), "&gt;"@, ">"@), "&quot;"@, "\""@),
        "&#39;"@,
        "'"@,
    )
}

/// Which escaping table a call uses.
enum Table {
    Html,
    Xml,
    Json,
}

spec fn table_char(t: Table, c: char) -> Seq<char> {
    match t {
        Table::Html => html_escape_char(c),
        Table::Xml => xml_escape_char(c),
        Table::Json => json_escape_char(c),
    }
}

spec fn table_map(t: Table, s: Seq<char>) -> Seq<char> {
    match t {
        Table::Html => spec_html_escape(s),
        Table::Xml => spec_xml_escape(s),
        Table::Json => spec_json_escape(s),
    }
}

proof fn lemma_table_map_push(t: Table, s: Seq<char>, c: char)
    ensures
        table_map(t, s.push(c)) == table_map(t, s) + table_char(t, c),
{
    assert(s.push(c).drop_last() == s);
}

/// Appends `v[lo..hi]` escaped with table `t`.
fn push_escaped(out: &mut String, v: &Vec<char>, lo: usize, hi: usize, t: Table)
    requires
        lo <= hi <= v.len(),
    ensures
        final(out)@ == old(out)@ + table_map(t, v@.subrange(lo as int, hi as int)),
{
    let mut i = lo;
    assert(v@.subrange(lo as int, lo as int) == Seq::<char>::empty());
    while i < hi
        invariant
            lo <= i <= hi <= v.len(),
            out@ == old(out)@ + table_map(t, v@.subrange(lo as int, i as int)),
        decreases hi - i,
    {
        let c = v[i];
        proof {
            assert(v@.subrange(lo as int, i + 1) == v@.subrange(lo as int, i as int).push(c));
            lemma_table_map_push(t, v@.subrange(lo as int, i as int), c);
        }
        match t {
            Table::Html => {
                if c == '&' {
                    push_str(out, "&amp;");
                } else if c == '<' {
                    push_str(out, "&lt;");
                } else if c == '>' {
                    push_str(out, "&gt;");
                } else if c == '"' {
                    push_str(out, "&quot;");
                } else {
                    push_char(out, c);
                }
            },
            Table::Xml => {
                if c == '&' {
                    push_str(out, "&amp;");
                } else if c == '<' {
                    push_str(out, "&lt;");
                } else if c == '>' {
                    push_str(out, "&gt;");
                } else {
                    push_char(out, c);
                }
            },
            Table::Json => {
                if c == '\\' {
                    push_str(out, "\\\\");
                } else if c == '"' {
                    push_str(out, "\\\"");
                } else if c == '\n' {
                    push_str(out, "\\n");
                } else if c == '\r' {
                    push_str(out, "\\r");
                } else if c == '\t' {
                    push_str(out, "\\t");
                } else {
                    push_char(out, c);
                }
            },
        }
        i += 1;
    }
}

/// Appends `v[lo..hi]` HTML-escaped.
pub fn push_html_escaped(out: &mut String, v: &Vec<char>, lo: usize, hi: usize)
    requires
        lo <= hi <= v.len(),
    ensures
        final(out)@ == old(out)@ + spec_html_escape(v@.subrange(lo as int, hi as int)),
{
    push_escaped(out, v, lo, hi, Table::Html);
}

/// Appends `v[lo..hi]` XML-escaped.
pub fn push_xml_escaped(out: &mut String, v: &Vec<char>, lo: usize, hi: usize)
    requires
        lo <= hi <= v.len(),
    ensures
        final(out)@ == old(out)@ + spec_xml_escape(v@.subrange(lo as int, hi as int)),
{
    push_escaped(out, v, lo, hi, Table::Xml);
}

/// Appends `v[lo..hi]` JSON-string-escaped.
pub fn push_json_escaped(out: &mut String, v: &Vec<char>, lo: usize, hi: usize)
    requires
        lo <= hi <= v.len(),
    ensures
        final(out)@ == old(out)@ + spec_json_escape(v@.subrange(lo as int, hi as int)),
{
    push_escaped(out, v, lo, hi, Table::Json);
}

/// Appends `s` HTML-escaped.
pub fn push_html_escaped_str(out: &mut String, s: &str)
    ensures
        final(out)@ == old(out)@ + spec_html_escape(s@),
{
    let v = chars_of(s);
    push_html_escaped(out, &v, 0, v.len());
    assert(v@.subrange(0, v.len() as int) == v@);
}

/// Appends `s` XML-escaped.
pub fn push_xml_escaped_str(out: &mut String, s: &str)
    ensures
        final(out)@ == old(out)@ + spec_xml_escape(s@),
{
    let v = chars_of(s);
    push_xml_escaped(out, &v, 0, v.len());
    assert(v@.subrange(0, v.len() as int) == v@);
}

/// Appends `s` JSON-string-escaped.
pub fn push_json_escaped_str(out: &mut String, s: &str)
    ensures
        final(out)@ == old(out)@ + spec_json_escape(s@),
{
    let v = chars_of(s);
    push_json_escaped(out, &v, 0, v.len());
    assert(v@.subrange(0, v.len() as int) == v@);
}

/// Escapes `&`, `<`, `>` and `"` for HTML text and attributes.
pub fn html_escape(s: &str) -> (r: String)
    ensures
        r@ == spec_html_escape(s@),
{
    let mut r = String::new();
    push_html_escaped_str(&mut r, s);
    r
}

/// Turns the entities `&amp;`, `&lt;`, `&gt;`, `&quot;` and `&#39;` back into
/// characters, one entity after another in that order.
pub fn html_decode(s: &str) -> (r: String)
    ensures
        r@ == spec_html_decode(s@),
{
    proof {
        reveal_strlit("&amp;");
        reveal_strlit("&lt;");
        reveal_strlit("&gt;");
        reveal_strlit("&quot;");
        reveal_strlit("&#39;");
    }
    let a = replace_str(s, "&amp;", "&");
    let b = replace_str(a.as_str(), "&lt;", "<");
    let c = replace_str(b.as_str(), "&gt;", ">");
    let d = replace_str(c.as_str(), "&quot;", "\"");
    replace_str(d.as_str(), "&#39;", "'")
}

/// Escapes `&`, `<` and `>` for XML text.
pub fn xml_escape(s: &str) -> (r: String)
    ensures
        r@ == spec_xml_escape(s@),
{
    let mut r = String::new();
    push_xml_escaped_str(&mut r, s);
    r
}

/// Escapes backslash, double quote, newline, carriage return and tab for a
/// JSON string.
pub fn json_escape(s: &str) -> (r: String)
    ensures
        r@ == spec_json_escape(s@),
{
    let mut r = String::new();
    push_json_escaped_str(&mut r, s);
    r
}

/// If no character is written as a piece holding a `bad` character, no
/// `bad` character is in the whole.
proof fn lemma_map_chars_avoids(s: Seq<char>, f: spec_fn(char) -> Seq<char>, bad: spec_fn(char) -> bool)
    requires
        forall|c: char, k: int| 0 <= k < f(c).len() ==> !bad(#[trigger] f(c)[k]),
    ensures
        forall|k: int| 0 <= k < map_chars(s, f).len() ==> !bad(#[trigger] map_chars(s, f)[k]),
    decreases s.len(),
{
    if s.len() > 0 {
        lemma_map_chars_avoids(s.drop_last(), f, bad);
        let a = map_chars(s.drop_last(), f);
        let b = f(s.last());
        assert forall|k: int| 0 <= k < map_chars(s, f).len() implies !bad(#[trigger] map_chars(s, f)[k]) by {
            if k < a.len() {
                assert(map_chars(s, f)[k] == a[k]);
            } else {
                assert(map_chars(s, f)[k] == b[k - a.len()]);
            }
        }
    }
}

/// HTML-escaped text holds no `<`, `>` or `"`: it cannot open or close a
/// tag, nor end a quoted attribute value.
pub proof fn law_html_escape_is_inert(s: Seq<char>)
    ensures
        forall|k: int|
            0 <= k < spec_html_escape(s).len() ==> #[trigger] spec_html_escape(s)[k] != '<'
                && spec_html_escape(s)[k] != '>' && spec_html_escape(s)[k] != '"',
{
    reveal_strlit("&amp;");
    reveal_strlit("&lt;");
    reveal_strlit("&gt;");
    reveal_strlit("&quot;");
    let f = |c: char| html_escape_char(c);
    let bad = |c: char| c == '<' || c == '>' || c == '"';
    assert forall|c: char, k: int| 0 <= k < f(c).len() implies !bad(#[trigger] f(c)[k]) by {}
    lemma_map_chars_avoids(s, f, bad);
    assert forall|k: int| 0 <= k < spec_html_escape(s).len() implies #[trigger] spec_html_escape(s)[k] != '<'
        && spec_html_escape(s)[k] != '>' && spec_html_escape(s)[k] != '"' by {
        assert(!bad(map_chars(s, f)[k]));
    }
}

/// XML-escaped text holds no `<` or `>`: it cannot open or close an element.
pub proof fn law_xml_escape_is_inert(s: Seq<char>)
    ensures
        forall|k: int|
            0 <= k < spec_xml_escape(s).len() ==> #[trigger] spec_xml_escape(s)[k] != '<'
                && spec_xml_escape(s)[k] != '>',
{
    reveal_strlit("&amp;");
    reveal_strlit("&lt;");
    reveal_strlit("&gt;");
    let f = |c: char| xml_escape_char(c);
    let bad = |c: char| c == '<' || c == '>';
    assert forall|c: char, k: int| 0 <= k < f(c).len() implies !bad(#[trigger] f(c)[k]) by {}
    lemma_map_chars_avoids(s, f, bad);
    assert forall|k: int| 0 <= k < spec_xml_escape(s).len() implies #[trigger] spec_xml_escape(s)[k] != '<'
        && spec_xml_escape(s)[k] != '>' by {
        assert(!bad(map_chars(s, f)[k]));
    }
}

/// JSON-escaped text holds no raw newline, carriage return or tab, so it
/// stays on one line of a JSON string.
pub proof fn law_json_escape_is_one_line(s: Seq<char>)
    ensures
        forall|k: int|
            0 <= k < spec_json_escape(s).len() ==> #[trigger] spec_json_escape(s)[k] != '\n'
                && spec_json_escape(s)[k] != '\r' && spec_json_escape(s)[k] != '\t',
{
    reveal_strlit("\\\\");
    reveal_strlit("\\\"");
    reveal_strlit("\\n");
    reveal_strlit("\\r");
    reveal_strlit("\\t");
    let f = |c: char| json_escape_char(c);
    let bad = |c: char| c == '\n' || c == '\r' || c == '\t';
    assert forall|c: char, k: int| 0 <= k < f(c).len() implies !bad(#[trigger] f(c)[k]) by {}
    lemma_map_chars_avoids(s, f, bad);
    assert forall|k: int| 0 <= k < spec_json_escape(s).len() implies #[trigger] spec_json_escape(s)[k] != '\n'
        && spec_json_escape(s)[k] != '\r' && spec_json_escape(s)[k] != '\t' by {
        assert(!bad(map_chars(s, f)[k]));
    }
}

/// The character that JSON's two-character escape `\e` stands for.
pub open spec fn json_short_escape(e: char) -> Option<char> {
    if e == '"' {
        Some('"')
    } else if e == '\\' {
        Some('\\')
    } else if e == '/' {
        Some('/')
    } else if e == 'b' {
        Some('\u{8}')
    } else if e == 'f' {
        Some('\u{c}')
    } else if e == 'n' {
        Some('\n')
    } else if e == 'r' {
        Some('\r')
    } else if e == 't' {
        Some('\t')
    } else {
        None
    }
}

/// What the text between the quotes of a JSON string literal stands for,
/// when it is made of characters JSON takes as they are (no `"`, no `\`,
/// nothing below U+0020) and two-character escapes; `None` otherwise.
pub open spec fn json_unescape(x: Seq<char>) -> Option<Seq<char>>
    decreases x.len(),
{
    if x.len() == 0 {
        Some(Seq::empty())
    } else if x[0] == '\\' {
        if x.len() < 2 {
            None
        } else {
            match json_short_escape(x[1]) {
                Some(c) => match json_unescape(x.skip(2)) {
                    Some(r) => Some(seq![c] + r),
                    None => None,
                },
                None => None,
            }
        }
    } else if x[0] == '"' || (x[0] as u32) < 32 {
        None
    } else {
        match json_unescape(x.drop_first()) {
            Some(r) => Some(seq![x[0]] + r),
            None => None,
        }
    }
}

/// Put between quotes, the JSON-escaped text is a JSON string literal that
/// stands for the text itself, provided the text has no control character
/// other than newline, carriage return and tab (those `json_escape` keeps).
pub proof fn law_json_escape_reads_back(s: Seq<char>)
    requires
        forall|k: int|
            0 <= k < s.len() ==> (#[trigger] s[k] as u32) >= 32 || s[k] == '\n' || s[k] == '\r' || s[k] == '\t',
    ensures
        json_unescape(spec_json_escape(s)) == Some(s),
    decreases s.len(),
{
    reveal_strlit("\\\\");
    reveal_strlit("\\\"");
    reveal_strlit("\\n");
    reveal_strlit("\\r");
    reveal_strlit("\\t");
    if s.len() > 0 {
        let f = |c: char| json_escape_char(c);
        let t = s.drop_first();
        assert forall|k: int| 0 <= k < t.len() implies (#[trigger] t[k] as u32) >= 32 || t[k] == '\n' || t[k] == '\r'
            || t[k] == '\t' by {
            assert(t[k] == s[k + 1]);
        }
        law_json_escape_reads_back(t);
        lemma_map_chars_front(s, f);
        let rest = spec_json_escape(t);
        let x = spec_json_escape(s);
        assert(x == json_escape_char(s[0]) + rest);
        let c = s[0];
        assert((c as u32) >= 32 || c == '\n' || c == '\r' || c == '\t');
        if json_escape_char(c).len() == 2 {
            assert(x.skip(2) =~= rest);
        } else {
            assert(x.drop_first() =~= rest);
        }
        assert(s =~= seq![c] + t);
    } else {
        assert(spec_json_escape(s) == Seq::<char>::empty());
    }
}

/// How a character looks after `html_escape` and the first `k` entity
/// replacements of `html_decode` (`&amp;`, `&lt;`, `&gt;`, `&quot;`, in its
/// order).
spec fn stage_char(k: nat, c: char) -> Seq<char> {
    if c == '&' {
        if k == 0 {
            "&amp;"@
        } else {
            seq!['&']
        }
    } else if c == '<' {
        if k <= 1 {
            "&lt;"@
        } else {
            seq!['<']
        }
    } else if c == '>' {
        if k <= 2 {
            "&gt;"@
        } else {
            seq!['>']
        }
    } else if c == '"' {
        if k <= 3 {
            "&quot;"@
        } else {
            seq!['"']
        }
    } else {
        seq![c]
    }
}

spec fn stage(s: Seq<char>, k: nat) -> Seq<char> {
    map_chars(s, |c: char| stage_char(k, c))
}

proof fn lemma_map_chars_ext(s: Seq<char>, f: spec_fn(char) -> Seq<char>, g: spec_fn(char) -> Seq<char>)
    requires
        forall|c: char| #[trigger] f(c) == g(c),
    ensures
        map_chars(s, f) == map_chars(s, g),
    decreases s.len(),
{
    if s.len() > 0 {
        lemma_map_chars_ext(s.drop_last(), f, g);
    }
}

/// Mapping the characters of `c` then `t`.
proof fn lemma_map_chars_front(s: Seq<char>, f: spec_fn(char) -> Seq<char>)
    requires
        s.len() > 0,
    ensures
        map_chars(s, f) == f(s[0]) + map_chars(s.drop_first(), f),
    decreases s.len(),
{
    if s.len() == 1 {
        assert(s.drop_last() == Seq::<char>::empty());
        assert(s.drop_first() == Seq::<char>::empty());
        assert(s.last() == s[0]);
        assert(map_chars(Seq::<char>::empty(), f) == Seq::<char>::empty());
        assert(f(s[0]) + Seq::<char>::empty() == f(s[0]));
        assert(Seq::<char>::empty() + f(s[0]) == f(s[0]));
    } else {
        lemma_map_chars_front(s.drop_last(), f);
        assert(s.drop_last()[0] == s[0]);
        assert(s.drop_last().drop_first() == s.drop_first().drop_last());
        assert(s.drop_first().last() == s.last());
    }
}

proof fn lemma_stage_len(s: Seq<char>, k: nat)
    ensures
        stage(s, k).len() >= s.len(),
    decreases s.len(),
{
    reveal_strlit("&amp;");
    reveal_strlit("&lt;");
    reveal_strlit("&gt;");
    reveal_strlit("&quot;");
    if s.len() > 0 {
        lemma_stage_len(s.drop_last(), k);
    }
}

/// Text that does not hold `&`, `<`, `>` or `"` begins a staged text only
/// where it begins the text itself.
proof fn lemma_stage_prefix(t: Seq<char>, k: nat, q: Seq<char>)
    requires
        forall|i: int| 0 <= i < q.len() ==> #[trigger] q[i] != '&' && q[i] != '<' && q[i] != '>' && q[i] != '"',
        q.len() <= stage(t, k).len(),
        stage(t, k).take(q.len() as int) == q,
    ensures
        q.len() <= t.len(),
        t.take(q.len() as int) == q,
    decreases q.len(),
{
    reveal_strlit("&amp;");
    reveal_strlit("&lt;");
    reveal_strlit("&gt;");
    reveal_strlit("&quot;");
    if q.len() > 0 {
        if t.len() == 0 {
            assert(stage(t, k).len() == 0);
        }
        lemma_map_chars_front(t, |c: char| stage_char(k, c));
        let b = stage_char(k, t[0]);
        let y = stage(t.drop_first(), k);
        assert(stage(t, k) == b + y);
        assert(stage(t, k)[0] == q[0]);
        assert(b[0] == q[0]);
        assert(b == seq![t[0]]);
        let q2 = q.drop_first();
        assert(y.take(q2.len() as int) =~= q2) by {
            assert forall|i: int| 0 <= i < q2.len() implies y[i] == q2[i] by {
                assert(stage(t, k)[i + 1] == y[i]);
                assert(stage(t, k).take(q.len() as int)[i + 1] == q[i + 1]);
            }
        }
        lemma_stage_prefix(t.drop_first(), k, q2);
        assert(t.take(q.len() as int) =~= seq![t[0]] + t.drop_first().take(q2.len() as int));
    }
}

/// The entity decoded by step `k`, and what it becomes.
spec fn step_entity(k: nat) -> Seq<char> {
    if k == 0 {
        "&amp;"@
    } else if k == 1 {
        "&lt;"@
    } else if k == 2 {
        "&gt;"@
    } else {
        "&quot;"@
    }
}

spec fn step_char(k: nat) -> Seq<char> {
    if k == 0 {
        seq!['&']
    } else if k == 1 {
        seq!['<']
    } else if k == 2 {
        seq!['>']
    } else {
        seq!['"']
    }
}

proof fn lemma_stage_char_step(k: nat, c: char)
    requires
        k < 4,
    ensures
        stage_char(k, c) == step_entity(k) ==> stage_char(k + 1, c) == step_char(k),
        stage_char(k, c) != step_entity(k) ==> stage_char(k + 1, c) == stage_char(k, c),
        step_entity(k).len() >= 4,
        step_entity(k)[0] == '&',
        forall|i: int| 1 <= i < step_entity(k).len() ==> #[trigger] step_entity(k)[i] != '&' && step_entity(k)[i]
            != '<' && step_entity(k)[i] != '>' && step_entity(k)[i] != '"',
        stage_char(k, c).len() == 1 || (stage_char(k, c)[0] == '&' && stage_char(k, c).len() >= 2 && (forall|i: int|
            1 <= i < stage_char(k, c).len() ==> #[trigger] stage_char(k, c)[i] != '&') && (stage_char(k, c)
            != step_entity(k) ==> stage_char(k, c)[1] != step_entity(k)[1])),
        stage_char(k, c).len() == 1 && stage_char(k, c)[0] == '&' ==> c == '&' && k >= 1,
{
    reveal_strlit("&amp;");
    reveal_strlit("&lt;");
    reveal_strlit("&gt;");
    reveal_strlit("&quot;");
    if stage_char(k, c) == step_entity(k) {
        assert(stage_char(k, c).len() == step_entity(k).len());
        assert(stage_char(k, c)[1] == step_entity(k)[1]);
        if k == 0 {
            assert(c == '&');
        } else if k == 1 {
            assert(c == '<');
        } else if k == 2 {
            assert(c == '>');
        } else {
            assert(c == '"');
        }
    }
}

/// Step `k` of `html_decode` turns the text staged `k` into the text staged
/// `k + 1`, unless the text itself holds the entity of that step.
#[verifier::rlimit(40)]
proof fn lemma_stage_step(s: Seq<char>, k: nat)
    requires
        k < 4,
        k >= 1 ==> forall|i: int| 0 <= i ==> !match_at(s, step_entity(k), i),
    ensures
        replace(stage(s, k), step_entity(k), step_char(k)) == stage(s, k + 1),
    decreases s.len(),
{
    reveal_strlit("&amp;");
    reveal_strlit("&lt;");
    reveal_strlit("&gt;");
    reveal_strlit("&quot;");
    let p = step_entity(k);
    let r = step_char(k);
    if s.len() == 0 {
        assert(stage(s, k) == Seq::<char>::empty());
        assert(stage(s, k + 1) == Seq::<char>::empty());
    } else {
        let c = s[0];
        let t = s.drop_first();
        assert(k >= 1 ==> forall|i: int| 0 <= i ==> !match_at(t, p, i)) by {
            if k >= 1 {
                assert forall|i: int| 0 <= i implies !match_at(t, p, i) by {
                    if match_at(t, p, i) {
                        assert(s.subrange(i + 1, i + 1 + p.len()) =~= t.subrange(i, i + p.len()));
                        assert(match_at(s, p, i + 1));
                    }
                }
            }
        }
        lemma_stage_step(t, k);
        lemma_map_chars_front(s, |c: char| stage_char(k, c));
        lemma_map_chars_front(s, |c: char| stage_char(k + 1, c));
        let a = stage_char(k, c);
        let x = stage(t, k);
        let whole = a + x;
        assert(stage(s, k) == whole);
        assert(stage(s, k + 1) == stage_char(k + 1, c) + stage(t, k + 1));
        crate::text::lemma_replace_shift(a, x, p, r, 0);
        lemma_stage_char_step(k, c);
        if a == p {
            assert(whole.subrange(0, p.len() as int) =~= p);
            assert(stage_char(k + 1, c) == r);
        } else {
            assert(stage_char(k + 1, c) == a);
            assert forall|j: int| 0 <= j < a.len() implies !match_at(whole, p, j) by {
                if match_at(whole, p, j) {
                    assert(whole.subrange(j, j + p.len())[0] == whole[j]);
                    assert(whole[j] == a[j]);
                    if j == 0 && a.len() >= 2 {
                        assert(whole.subrange(j, j + p.len())[1] == whole[1]);
                        assert(whole[1] == a[1]);
                    }
                    if j == 0 && a.len() == 1 {
                        assert(c == '&' && k >= 1);
                        let q = p.drop_first();
                        assert(x.take(q.len() as int) =~= q) by {
                            assert forall|i: int| 0 <= i < q.len() implies x[i] == q[i] by {
                                assert(whole.subrange(0, p.len() as int)[i + 1] == whole[i + 1]);
                                assert(whole[i + 1] == x[i]);
                            }
                        }
                        lemma_stage_prefix(t, k, q);
                        assert(s[0] == '&');
                        assert(p =~= seq!['&'] + q);
                        assert(s.subrange(0, p.len() as int) =~= seq!['&'] + t.take(q.len() as int));
                        assert(match_at(s, p, 0));
                    }
                }
            }
            crate::text::lemma_replace_copy(whole, p, r, 0, a.len());
            assert(whole.subrange(0, a.len() as int) =~= a);
        }
    }
}

proof fn lemma_stage_identity(s: Seq<char>)
    ensures
        stage(s, 4) == s,
    decreases s.len(),
{
    if s.len() > 0 {
        lemma_stage_identity(s.drop_last());
        assert(stage_char(4, s.last()) == seq![s.last()]);
        assert(s.drop_last().push(s.last()) == s);
    }
}

/// Decoding undoes escaping: `html_decode` gives back what `html_escape` was
/// given, unless that text already holds one of the entities `&lt;`, `&gt;`,
/// `&quot;` or `&#39;` (which decoding turns into characters of their own).
pub proof fn law_html_decode_undoes_escape(s: Seq<char>)
    requires
        find(s, "&lt;"@) is None,
        find(s, "&gt;"@) is None,
        find(s, "&quot;"@) is None,
        find(s, "&#39;"@) is None,
    ensures
        spec_html_decode(spec_html_escape(s)) == s,
{
    reveal_strlit("&amp;");
    reveal_strlit("&");
    reveal_strlit("&lt;");
    reveal_strlit("<");
    reveal_strlit("&gt;");
    reveal_strlit(">");
    reveal_strlit("&quot;");
    reveal_strlit("\"");
    crate::text::lemma_find(s, "&lt;"@);
    crate::text::lemma_find(s, "&gt;"@);
    crate::text::lemma_find(s, "&quot;"@);
    crate::text::lemma_find(s, "&#39;"@);
    assert(spec_html_escape(s) == stage(s, 0)) by {
        assert forall|c: char| #[trigger] html_escape_char(c) == stage_char(0, c) by {}
        lemma_map_chars_ext(s, |c: char| html_escape_char(c), |c: char| stage_char(0, c));
    }
    assert("&"@ =~= step_char(0));
    lemma_stage_step(s, 0);
    assert("<"@ =~= step_char(1));
    lemma_stage_step(s, 1);
    assert(">"@ =~= step_char(2));
    lemma_stage_step(s, 2);
    assert("\""@ =~= step_char(3));
    lemma_stage_step(s, 3);
    lemma_stage_identity(s);
    crate::text::lemma_replace_from_no_match(s, "&#39;"@, "'"@, 0);
    assert(s.skip(0) == s);
}

// ---------------------------------------------------------------------------
// Images, slugs and paths
// ---------------------------------------------------------------------------

/// The `src` attribute of the first `<img` tag: the text after the first
/// `src="` that follows it, up to the next `"`.
pub open spec fn spec_first_image_src(s: Seq<char>) -> Option<Seq<char>> {
    match find(s, "<img"@) {
        None => None,
        Some(i) => {
            let after_img = s.skip(i);
            match find(after_img, "src=\""@) {
                None => None,
                Some(j) => {
                    let after_src = after_img.skip(j + 5);
                    match find(after_src, "\""@) {
                        None => None,
                        Some(k) => Some(after_src.take(k)),
                    }
                },
            }
        },
    }
}

/// The source of the first image in `html`, if it has one.
pub fn extract_first_image_src(html: &str) -> (r: Option<String>)
    ensures
        match r {
            Some(x) => spec_first_image_src(html@) == Some(x@),
            None => spec_first_image_src(html@) is None,
        },
{
    let v = chars_of(html);
    let n = v.len();
    let ghost s = v@;
    assert(v@.subrange(0, n as int) == s);
    proof {
        reveal_strlit("<img");
        reveal_strlit("src=\"");
        reveal_strlit("\"");
    }
    let img_pos = match find_in(&v, 0, n, &chars_of("<img")) {
        Some(i) => i,
        None => return None,
    };
    assert(v@.subrange(img_pos as int, n as int) == s.skip(img_pos as int));
    let src_pos = match find_in(&v, img_pos, n, &chars_of("src=\"")) {
        Some(j) => j,
        None => return None,
    };
    let start = src_pos + 5;
    assert(v@.subrange(start as int, n as int) == s.skip(img_pos as int).skip(src_pos - img_pos + 5));
    let end = match find_in(&v, start, n, &chars_of("\"")) {
        Some(k) => k,
        None => return None,
    };
    assert(v@.subrange(start as int, end as int) == s.skip(img_pos as int).skip(src_pos - img_pos + 5).take(
        end - start,
    ));
    Some(string_of(&v, start, end))
}

/// `r` holds no `"` and stands in `html` as one piece.
pub open spec fn quote_free_piece(html: Seq<char>, r: Seq<char>) -> bool {
    &&& forall|k: int| 0 <= k < r.len() ==> #[trigger] r[k] != '"'
    &&& exists|i: int| 0 <= i && i + r.len() <= html.len() && #[trigger] html.subrange(i, i + r.len()) == r
}

/// The source found for the first image is a piece of the page's text
/// that holds no `"`: it ends where the attribute value's closing quote is.
pub proof fn law_first_image_src_has_no_quote(html: Seq<char>)
    ensures
        spec_first_image_src(html) matches Some(r) ==> quote_free_piece(html, r),
{
    reveal_strlit("<img");
    reveal_strlit("src=\"");
    reveal_strlit("\"");
    crate::text::lemma_find(html, "<img"@);
    if let Some(i) = find(html, "<img"@) {
        let after_img = html.skip(i);
        crate::text::lemma_find(after_img, "src=\""@);
        if let Some(j) = find(after_img, "src=\""@) {
            let after_src = after_img.skip(j + 5);
            crate::text::lemma_find(after_src, "\""@);
            if let Some(k) = find(after_src, "\""@) {
                let r = after_src.take(k);
                assert forall|m: int| 0 <= m < r.len() implies #[trigger] r[m] != '"' by {
                    assert(!crate::text::match_at(after_src, "\""@, m));
                    if r[m] == '"' {
                        assert(after_src.subrange(m, m + 1) =~= "\""@);
                    }
                }
                let start = i + j + 5;
                assert(html.subrange(start, start + r.len()) =~= r);
                assert(quote_free_piece(html, r));
            }
        }
    }
}

/// Trimmed, lowercased, with spaces turned into hyphens.
pub open spec fn spec_slugify(s: Seq<char>) -> Seq<char> {
    replace(lowercase(trim(s)), " "@, "-"@)
}

/// A slug holds no space.
pub proof fn law_slug_has_no_space(s: Seq<char>)
    ensures
        forall|k: int| 0 <= k < spec_slugify(s).len() ==> #[trigger] spec_slugify(s)[k] != ' ',
{
    reveal_strlit(" ");
    reveal_strlit("-");
    assert(" "@ == seq![' ']);
    crate::text::lemma_replace_char_removes(lowercase(trim(s)), ' ', "-"@, 0);
}

/// A URL slug for `s`.
pub fn slugify(s: &str) -> (r: String)
    ensures
        r@ == spec_slugify(s@),
{
    let v = chars_of(s);
    let (a, b) = trim_range(&v, 0, v.len());
    assert(v@.subrange(0, v.len() as int) == v@);
    let t = string_of(&v, a, b);
    let lower = to_lowercase(t.as_str());
    proof {
        reveal_strlit(" ");
    }
    replace_str(lower.as_str(), " ", "-")
}

/// The pieces of a path between separators that name something: empty
/// pieces and `.` are dropped.
pub open spec fn named_parts(ps: Seq<Seq<char>>) -> Seq<Seq<char>>
    decreases ps.len(),
{
    if ps.len() == 0 {
        Seq::empty()
    } else {
        let init = named_parts(ps.drop_last());
        if ps.last().len() > 0 && ps.last() != "."@ {
            init.push(ps.last())
        } else {
            init
        }
    }
}

/// The components of a `/`-separated path as `Path::components` yields them,
/// each written as text: a leading `/` is the root, a leading `.` the current
/// directory, and further empty pieces and `.` pieces are dropped.
pub open spec fn path_components(s: Seq<char>) -> Seq<Seq<char>> {
    let pieces = split_char(s, '/');
    if s.len() > 0 && s[0] == '/' {
        seq!["/"@] + named_parts(pieces.drop_first())
    } else if pieces[0] == "."@ {
        seq!["."@] + named_parts(pieces.drop_first())
    } else {
        named_parts(pieces)
    }
}

/// The components of a path joined with `/`.
pub open spec fn spec_path_to_url(s: Seq<char>) -> Seq<char> {
    join(path_components(s), "/"@)
}

/// The components of the path `v[lo..hi]`, as bounds.
pub fn component_ranges(v: &Vec<char>, lo: usize, hi: usize) -> (r: Vec<(usize, usize)>)
    requires
        lo <= hi <= v.len(),
    ensures
        r.len() == path_components(v@.subrange(lo as int, hi as int)).len(),
        forall|k: int|
            0 <= k < r.len() ==> lo <= (#[trigger] r[k]).0 <= r[k].1 <= hi && v@.subrange(r[k].0 as int, r[k].1 as int)
                == path_components(v@.subrange(lo as int, hi as int))[k],
{
    let ghost s = v@.subrange(lo as int, hi as int);
    let pieces = split_ranges(v, lo, hi, '/');
    let ghost ps = split_char(s, '/');
    proof {
        crate::text::lemma_split_char_len(s, '/');
    }
    let dot = chars_of(".");
    let mut r: Vec<(usize, usize)> = Vec::new();
    let mut k: usize = 0;
    let rooted = lo < hi && v[lo] == '/';
    let (a0, b0) = pieces[0];
    let cur = !rooted && range_eq(v, a0, b0, &dot);
    if rooted {
        assert(s[0] == v@[lo as int]);
        assert(v@.subrange(lo as int, lo + 1) == "/"@) by {
            reveal_strlit("/");
        }
        r.push((lo, lo + 1));
        k = 1;
    } else if cur {
        r.push((a0, b0));
        k = 1;
    }
    let ghost head: Seq<Seq<char>> = if rooted {
        seq!["/"@]
    } else if cur {
        seq!["."@]
    } else {
        Seq::empty()
    };
    let ghost rest = if rooted || cur {
        ps.drop_first()
    } else {
        ps
    };
    assert(s.len() > 0 && s[0] == '/' <==> rooted);
    assert(path_components(s) == head + named_parts(rest));
    let ghost start = k as int;
    assert(rest.subrange(0, (k - start) as int) == Seq::<Seq<char>>::empty());
    while k < pieces.len()
        invariant
            0 <= start <= k <= pieces.len(),
            lo <= hi <= v.len(),
            dot@ == "."@,
            pieces.len() == ps.len(),
            rest == ps.subrange(start, ps.len() as int),
            forall|j: int|
                0 <= j < pieces.len() ==> lo <= (#[trigger] pieces[j]).0 <= pieces[j].1 <= hi && v@.subrange(
                    pieces[j].0 as int,
                    pieces[j].1 as int,
                ) == ps[j],
            r.len() == head.len() + named_parts(rest.subrange(0, k - start)).len(),
            forall|j: int|
                0 <= j < r.len() ==> lo <= (#[trigger] r[j]).0 <= r[j].1 <= hi && v@.subrange(r[j].0 as int, r[j].1 as int)
                    == (head + named_parts(rest.subrange(0, k - start)))[j],
        decreases pieces.len() - k,
    {
        let (a, b) = pieces[k];
        let ghost prev = rest.subrange(0, k - start);
        assert(rest.subrange(0, k - start + 1).drop_last() == prev);
        assert(rest.subrange(0, k - start + 1).last() == ps[k as int]);
        let keep = b > a && !range_eq(v, a, b, &dot);
        assert(v@.subrange(a as int, b as int) == ps[k as int]);
        assert(keep == (ps[k as int].len() > 0 && ps[k as int] != "."@));
        assert(named_parts(rest.subrange(0, k - start + 1)) == if keep {
            named_parts(prev).push(ps[k as int])
        } else {
            named_parts(prev)
        });
        if keep {
            r.push((a, b));
            assert(head + named_parts(prev).push(ps[k as int]) == (head + named_parts(prev)).push(ps[k as int]));
        }
        k += 1;
    }
    assert(rest.subrange(0, k - start) == rest);
    r
}

/// The path's components joined with `/`, as `path_to_url` writes a page's
/// directory into a URL.
pub fn path_to_url(path: &str) -> (r: String)
    ensures
        r@ == spec_path_to_url(path@),
{
    let v = chars_of(path);
    let parts = component_ranges(&v, 0, v.len());
    assert(v@.subrange(0, v.len() as int) == v@);
    let ghost cs = path_components(v@);
    let mut r = String::new();
    let mut k: usize = 0;
    assert(cs.subrange(0, 0) == Seq::<Seq<char>>::empty());
    while k < parts.len()
        invariant
            k <= parts.len(),
            parts.len() == cs.len(),
            forall|j: int|
                0 <= j < parts.len() ==> (#[trigger] parts[j]).0 <= parts[j].1 <= v.len() && v@.subrange(
                    parts[j].0 as int,
                    parts[j].1 as int,
                ) == cs[j],
            r@ == join(cs.subrange(0, k as int), "/"@),
        decreases parts.len() - k,
    {
        let (a, b) = parts[k];
        proof {
            assert(cs.subrange(0, k + 1) == cs.subrange(0, k as int).push(cs[k as int]));
            lemma_join_push(cs.subrange(0, k as int), "/"@, cs[k as int]);
        }
        if k > 0 {
            push_char(&mut r, '/');
            assert("/"@ == seq!['/']) by {
                reveal_strlit("/");
            }
        }
        push_range(&mut r, &v, a, b);
        k += 1;
    }
    assert(cs.subrange(0, k as int) == cs);
    r
}

// ---------------------------------------------------------------------------
// Reading time
// ---------------------------------------------------------------------------

/// Number of maximal runs of non-whitespace characters (what
/// `split_whitespace().count()` counts).
pub open spec fn word_count(s: Seq<char>) -> nat
    decreases s.len(),
{
    if s.len() == 0 {
        0
    } else {
        let starts = !is_ws(s.last()) && (s.len() == 1 || is_ws(s[s.len() - 2]));
        word_count(s.drop_last()) + if starts {
            1nat
        } else {
            0nat
        }
    }
}

/// Minutes to read `w` words at 200 words a minute, rounded up, at least one.
pub open spec fn read_minutes(w: nat) -> nat {
    if w == 0 {
        1
    } else {
        ((w + 199) / 200) as nat
    }
}

/// Every page is at least a minute's read.
pub proof fn law_read_time_at_least_one_minute(body: Seq<char>)
    ensures
        read_minutes(word_count(body)) >= 1,
{
}

/// Estimated minutes to read `body`.
pub fn estimate_read_time(body: &str) -> (r: usize)
    ensures
        r == read_minutes(word_count(body@)),
{
    let v = chars_of(body);
    let mut words: usize = 0;
    let mut i: usize = 0;
    while i < v.len()
        invariant
            i <= v.len(),
            words == word_count(v@.subrange(0, i as int)),
            words <= i,
        decreases v.len() - i,
    {
        assert(v@.subrange(0, i + 1).drop_last() == v@.subrange(0, i as int));
        if !is_whitespace(v[i]) && (i == 0 || is_whitespace(v[i - 1])) {
            words += 1;
        }
        i += 1;
    }
    assert(v@.subrange(0, v.len() as int) == v@);
    if words == 0 {
        1
    } else {
        words / 200 + if words % 200 == 0 {
            0
        } else {
            1
        }
    }
}

// ---------------------------------------------------------------------------
// Dates
// ---------------------------------------------------------------------------

/// English month name for `m` in `1..=12`.
pub open spec fn month_name(m: int) -> Seq<char> {
    if m == 1 {
        "January"@
    } else if m == 2 {
        "February"@
    } else if m == 3 {
        "March"@
    } else if m == 4 {
        "April"@
    } else if m == 5 {
        "May"@
    } else if m == 6 {
        "June"@
    } else if m == 7 {
        "July"@
    } else if m == 8 {
        "August"@
    } else if m == 9 {
        "September"@
    } else if m == 10 {
        "October"@
    } else if m == 11 {
        "November"@
    } else {
        "December"@
    }
}

/// Three-letter month abbreviation for `m` in `1..=12`.
pub open spec fn month_abbr(m: int) -> Seq<char> {
    if m == 1 {
        "Jan"@
    } else if m == 2 {
        "Feb"@
    } else if m == 3 {
        "Mar"@
    } else if m == 4 {
        "Apr"@
    } else if m == 5 {
        "May"@
    } else if m == 6 {
        "Jun"@
    } else if m == 7 {
        "Jul"@
    } else if m == 8 {
        "Aug"@
    } else if m == 9 {
        "Sep"@
    } else if m == 10 {
        "Oct"@
    } else if m == 11 {
        "Nov"@
    } else {
        "Dec"@
    }
}

/// Three-letter weekday abbreviation, `0` being Sunday.
pub open spec fn day_abbr(d: int) -> Seq<char> {
    if d == 0 {
        "Sun"@
    } else if d == 1 {
        "Mon"@
    } else if d == 2 {
        "Tue"@
    } else if d == 3 {
        "Wed"@
    } else if d == 4 {
        "Thu"@
    } else if d == 5 {
        "Fri"@
    } else {
        "Sat"@
    }
}

/// `YYYY-MM-DD` written as `D Month YYYY`; text that is not three
/// `-`-separated parts with a month in `1..=12` and a non-zero day comes back
/// unchanged (a part that does not parse counts as zero).
pub open spec fn spec_format_date(s: Seq<char>) -> Seq<char> {
    let parts = split_char(s, '-');
    if parts.len() != 3 {
        s
    } else {
        let m: nat = match parse_uint(parts[1], usize::MAX as nat) {
            Some(m) => m,
            None => 0,
        };
        let d: nat = match parse_uint(parts[2], u32::MAX as nat) {
            Some(d) => d,
            None => 0,
        };
        if m == 0 || m > 12 || d == 0 {
            s
        } else {
            dec(d) + " "@ + month_name(m as int) + " "@ + parts[0]
        }
    }
}

fn push_month_name(out: &mut String, m: u64)
    requires
        1 <= m <= 12,
    ensures
        final(out)@ == old(out)@ + month_name(m as int),
{
    let name = if m == 1 {
        "January"
    } else if m == 2 {
        "February"
    } else if m == 3 {
        "March"
    } else if m == 4 {
        "April"
    } else if m == 5 {
        "May"
    } else if m == 6 {
        "June"
    } else if m == 7 {
        "July"
    } else if m == 8 {
        "August"
    } else if m == 9 {
        "September"
    } else if m == 10 {
        "October"
    } else if m == 11 {
        "November"
    } else {
        "December"
    };
    push_str(out, name);
}

fn push_month_abbr(out: &mut String, m: u64)
    requires
        1 <= m <= 12,
    ensures
        final(out)@ == old(out)@ + month_abbr(m as int),
{
    let name = if m == 1 {
        "Jan"
    } else if m == 2 {
        "Feb"
    } else if m == 3 {
        "Mar"
    } else if m == 4 {
        "Apr"
    } else if m == 5 {
        "May"
    } else if m == 6 {
        "Jun"
    } else if m == 7 {
        "Jul"
    } else if m == 8 {
        "Aug"
    } else if m == 9 {
        "Sep"
    } else if m == 10 {
        "Oct"
    } else if m == 11 {
        "Nov"
    } else {
        "Dec"
    };
    push_str(out, name);
}

fn push_day_abbr(out: &mut String, d: u64)
    requires
        d <= 6,
    ensures
        final(out)@ == old(out)@ + day_abbr(d as int),
{
    let name = if d == 0 {
        "Sun"
    } else if d == 1 {
        "Mon"
    } else if d == 2 {
        "Tue"
    } else if d == 3 {
        "Wed"
    } else if d == 4 {
        "Thu"
    } else if d == 5 {
        "Fri"
    } else {
        "Sat"
    };
    push_str(out, name);
}

/// Appends `format_date` of `v[lo..hi]`.
pub fn push_formatted_date(out: &mut String, v: &Vec<char>, lo: usize, hi: usize)
    requires
        lo <= hi <= v.len(),
    ensures
        final(out)@ == old(out)@ + spec_format_date(v@.subrange(lo as int, hi as int)),
{
    let ghost s = v@.subrange(lo as int, hi as int);
    let parts = split_ranges(v, lo, hi, '-');
    if parts.len() != 3 {
        push_range(out, v, lo, hi);
        return ;
    }
    let ghost ps = split_char(s, '-');
    let (a1, b1) = parts[1];
    let (a2, b2) = parts[2];
    let (a0, b0) = parts[0];
    let m: u64 = match parse_uint_range(v, a1, b1, usize::MAX as u64) {
        Some(m) => m,
        None => 0,
    };
    let d: u64 = match parse_uint_range(v, a2, b2, u32::MAX as u64) {
        Some(d) => d,
        None => 0,
    };
    if m == 0 || m > 12 || d == 0 {
        push_range(out, v, lo, hi);
        return ;
    }
    push_dec(out, d);
    push_str(out, " ");
    push_month_name(out, m);
    push_str(out, " ");
    push_range(out, v, a0, b0);
}

/// A `YYYY-MM-DD` date written as `D Month YYYY`, or the text unchanged when
/// it is not such a date.
pub fn format_date(date: &str) -> (r: String)
    ensures
        r@ == spec_format_date(date@),
{
    let v = chars_of(date);
    let mut r = String::new();
    push_formatted_date(&mut r, &v, 0, v.len());
    assert(v@.subrange(0, v.len() as int) == v@);
    r
}

/// Division rounding toward zero, as Rust's `/` on integers.
pub open spec fn tdiv(a: int, b: int) -> int {
    if a >= 0 {
        a / b
    } else {
        -((-a) / b)
    }
}

pub open spec fn fits_i32(x: int) -> bool {
    i32::MIN <= x <= i32::MAX
}

/// The month offsets of Sakamoto's weekday method.
pub open spec fn sakamoto(m: int) -> int {
    if m == 1 {
        0
    } else if m == 2 {
        3
    } else if m == 3 {
        2
    } else if m == 4 {
        5
    } else if m == 5 {
        0
    } else if m == 6 {
        3
    } else if m == 7 {
        5
    } else if m == 8 {
        1
    } else if m == 9 {
        4
    } else if m == 10 {
        6
    } else if m == 11 {
        2
    } else {
        4
    }
}

/// The year used in the weekday sum: one less for January and February.
pub open spec fn weekday_year(y: int, m: int) -> int {
    if m < 3 {
        y - 1
    } else {
        y
    }
}

/// The running sums of the weekday computation, in the order `i32`
/// arithmetic forms them.
pub open spec fn weekday_sums(yr: int, m: int, d: int) -> Seq<int> {
    let a1 = yr + tdiv(yr, 4);
    let a2 = a1 - tdiv(yr, 100);
    let a3 = a2 + tdiv(yr, 400);
    let a4 = a3 + sakamoto(m);
    let a5 = a4 + d;
    seq![a1, a2, a3, a4, a5]
}

/// Weekday of `y-m-d` in the proleptic Gregorian calendar, `0` being Sunday.
pub open spec fn weekday(y: int, m: int, d: int) -> int {
    weekday_sums(weekday_year(y, m), m, d)[4] % 7
}

/// Leap years of the Gregorian calendar.
pub open spec fn is_leap_year(y: int) -> bool {
    y % 4 == 0 && (y % 100 != 0 || y % 400 == 0)
}

/// The number of days of month `m` of year `y`.
pub open spec fn month_length(y: int, m: int) -> int {
    if m == 2 {
        if is_leap_year(y) {
            29
        } else {
            28
        }
    } else if m == 4 || m == 6 || m == 9 || m == 11 {
        30
    } else {
        31
    }
}

/// The calendar day after `y-m-d`.
pub open spec fn next_day(y: int, m: int, d: int) -> (int, int, int) {
    if d < month_length(y, m) {
        (y, m, d + 1)
    } else if m < 12 {
        (y, m + 1, 1)
    } else {
        (y + 1, 1, 1)
    }
}

proof fn lemma_div4_step(y: int)
    requires
        y >= 1,
    ensures
        y / 4 - (y - 1) / 4 == if y % 4 == 0 { 1int } else { 0 },
{
}

proof fn lemma_div100_step(y: int)
    requires
        y >= 1,
    ensures
        y / 100 - (y - 1) / 100 == if y % 100 == 0 { 1int } else { 0 },
{
}

proof fn lemma_div400_step(y: int)
    requires
        y >= 1,
    ensures
        y / 400 - (y - 1) / 400 == if y % 400 == 0 { 1int } else { 0 },
        y % 400 == 0 ==> y % 100 == 0,
        y % 100 == 0 ==> y % 4 == 0,
{
}

/// The year term of the weekday sum grows by one from one year to the
/// next, and by two into a leap year.
proof fn lemma_year_term_step(y: int)
    requires
        y >= 1,
    ensures
        weekday_sums(y, 1, 0)[2] == weekday_sums(y - 1, 1, 0)[2] + 1 + if is_leap_year(y) {
            1int
        } else {
            0
        },
{
    lemma_div4_step(y);
    lemma_div100_step(y);
    lemma_div400_step(y);
}

/// The weekday `format_rfc822` names is the Gregorian one: 1 January 1970
/// was a Thursday, and from one date to the next the weekday moves on by
/// one (counting from year 1 on, where the calendar has no gaps).
pub proof fn law_weekday_follows_the_calendar(y: int, m: int, d: int)
    requires
        y >= 1,
        1 <= m <= 12,
        1 <= d <= month_length(y, m),
    ensures
        weekday(1970, 1, 1) == 4,
        weekday(next_day(y, m, d).0, next_day(y, m, d).1, next_day(y, m, d).2) == (weekday(y, m, d) + 1) % 7,
{
    let len = month_length(y, m);
    if d < len {
    } else if m < 12 {
        if m == 2 {
            lemma_year_term_step(y);
        }
    } else {
        lemma_year_term_step(y);
    }
}

/// The parsed `(year, month, day)` of a `YYYY-MM-DD` text that
/// `format_rfc822` accepts: three parts, an `i32` year, a month in `1..=12`
/// and a day in `1..=31`.
pub open spec fn rfc822_fields(s: Seq<char>) -> Option<(int, int, int)> {
    let parts = split_char(s, '-');
    if parts.len() != 3 {
        None
    } else {
        match (
            parse_int(parts[0], i32::MIN as int, i32::MAX as int),
            parse_uint(parts[1], u32::MAX as nat),
            parse_uint(parts[2], u32::MAX as nat),
        ) {
            (Some(y), Some(m), Some(d)) => if m == 0 || m > 12 || d == 0 || d > 31 {
                None
            } else {
                Some((y, m as int, d as int))
            },
            _ => None,
        }
    }
}

/// The weekday computation stays within `i32` for this date (it overflows
/// only for years within about a fifth of `i32::MAX` of the limits).
pub open spec fn rfc822_in_range(s: Seq<char>) -> bool {
    match rfc822_fields(s) {
        Some((y, m, d)) => {
            let yr = weekday_year(y, m);
            let sums = weekday_sums(yr, m, d);
            &&& fits_i32(yr)
            &&& fits_i32(sums[0])
            &&& fits_i32(sums[1])
            &&& fits_i32(sums[2])
            &&& fits_i32(sums[3])
            &&& fits_i32(sums[4])
        },
        None => true,
    }
}

/// A `YYYY-MM-DD` date as an RFC 822 timestamp at midnight UTC, or the text
/// unchanged when it is not such a date.
pub open spec fn spec_format_rfc822(s: Seq<char>) -> Seq<char> {
    match rfc822_fields(s) {
        Some((y, m, d)) => day_abbr(weekday(y, m, d)) + ", "@ + dec2(d as nat) + " "@ + month_abbr(m) + " "@
            + dec_int(y) + " 00:00:00 +0000"@,
        None => s,
    }
}

proof fn lemma_euclid_mod_7(x: int, n: int, r: int)
    requires
        x < 0,
        n == -x,
        r == n % 7,
    ensures
        x % 7 == if r == 0 {
            0
        } else {
            7 - r
        },
{
    assert(x % 7 == if n % 7 == 0 {
        0
    } else {
        7 - n % 7
    }) by (nonlinear_arith)
        requires
            x < 0,
            n == -x,
    ;
}

/// `y / q` rounded toward zero, for `y` within `i32`.
fn tdiv_i64(y: i64, q: u64) -> (r: i64)
    requires
        fits_i32(y as int),
        1 <= q <= 400,
    ensures
        r == tdiv(y as int, q as int),
        fits_i32(r as int),
{
    if y >= 0 {
        ((y as u64) / q) as i64
    } else {
        let n: u64 = (-y) as u64;
        -((n / q) as i64)
    }
}

/// The weekday of `y-m-d`, computed as `format_rfc822` computes it.
fn weekday_exec(y: i32, m: u64, d: u64) -> (dow: u64)
    requires
        1 <= m <= 12,
        1 <= d <= 31,
        fits_i32(weekday_year(y as int, m as int)),
        fits_i32(weekday_sums(weekday_year(y as int, m as int), m as int, d as int)[0]),
        fits_i32(weekday_sums(weekday_year(y as int, m as int), m as int, d as int)[1]),
        fits_i32(weekday_sums(weekday_year(y as int, m as int), m as int, d as int)[2]),
        fits_i32(weekday_sums(weekday_year(y as int, m as int), m as int, d as int)[3]),
        fits_i32(weekday_sums(weekday_year(y as int, m as int), m as int, d as int)[4]),
    ensures
        dow == weekday(y as int, m as int, d as int),
        dow <= 6,
{
    let t: i64 = if m == 1 {
        0
    } else if m == 2 {
        3
    } else if m == 3 {
        2
    } else if m == 4 {
        5
    } else if m == 5 {
        0
    } else if m == 6 {
        3
    } else if m == 7 {
        5
    } else if m == 8 {
        1
    } else if m == 9 {
        4
    } else if m == 10 {
        6
    } else if m == 11 {
        2
    } else {
        4
    };
    let yr: i64 = if m < 3 {
        y as i64 - 1
    } else {
        y as i64
    };
    let ghost sums = weekday_sums(yr as int, m as int, d as int);
    let q4 = tdiv_i64(yr, 4);
    let q100 = tdiv_i64(yr, 100);
    let q400 = tdiv_i64(yr, 400);
    let a1 = yr + q4;
    assert(a1 == sums[0]);
    let a2 = a1 - q100;
    assert(a2 == sums[1]);
    let a3 = a2 + q400;
    assert(a3 == sums[2]);
    let a4 = a3 + t;
    assert(a4 == sums[3]);
    let total = a4 + d as i64;
    assert(total == sums[4]);
    if total >= 0 {
        (total as u64) % 7
    } else {
        let n: u64 = (-total) as u64;
        let r = n % 7;
        proof {
            lemma_euclid_mod_7(total as int, n as int, r as int);
        }
        if r == 0 {
            0
        } else {
            7 - r
        }
    }
}

/// Appends `format_rfc822` of `v[lo..hi]`.
pub fn push_rfc822(out: &mut String, v: &Vec<char>, lo: usize, hi: usize)
    requires
        lo <= hi <= v.len(),
        rfc822_in_range(v@.subrange(lo as int, hi as int)),
    ensures
        final(out)@ == old(out)@ + spec_format_rfc822(v@.subrange(lo as int, hi as int)),
{
    let ghost s = v@.subrange(lo as int, hi as int);
    let parts = split_ranges(v, lo, hi, '-');
    if parts.len() != 3 {
        push_range(out, v, lo, hi);
        return ;
    }
    let (a0, b0) = parts[0];
    let (a1, b1) = parts[1];
    let (a2, b2) = parts[2];
    let y = match parse_i32_range(v, a0, b0) {
        Some(y) => y,
        None => {
            push_range(out, v, lo, hi);
            return ;
        },
    };
    let m = match parse_uint_range(v, a1, b1, u32::MAX as u64) {
        Some(m) => m,
        None => {
            push_range(out, v, lo, hi);
            return ;
        },
    };
    let d = match parse_uint_range(v, a2, b2, u32::MAX as u64) {
        Some(d) => d,
        None => {
            push_range(out, v, lo, hi);
            return ;
        },
    };
    if m == 0 || m > 12 || d == 0 || d > 31 {
        push_range(out, v, lo, hi);
        return ;
    }
    assert(rfc822_fields(s) == Some((y as int, m as int, d as int)));
    proof {
        let yr = weekday_year(y as int, m as int);
        assert(fits_i32(yr));
        assert(fits_i32(weekday_sums(yr, m as int, d as int)[0]));
        assert(fits_i32(weekday_sums(yr, m as int, d as int)[1]));
        assert(fits_i32(weekday_sums(yr, m as int, d as int)[2]));
        assert(fits_i32(weekday_sums(yr, m as int, d as int)[3]));
        assert(fits_i32(weekday_sums(yr, m as int, d as int)[4]));
    }
    let dow = weekday_exec(y, m, d);
    push_day_abbr(out, dow);
    push_str(out, ", ");
    push_dec2(out, d);
    push_str(out, " ");
    push_month_abbr(out, m);
    push_str(out, " ");
    push_dec_i64(out, y as i64);
    push_str(out, " 00:00:00 +0000");
}

/// Whether `format_rfc822` can take the date: its weekday computation stays
/// within `i32`.
pub fn rfc822_date_in_range(date: &str) -> (b: bool)
    ensures
        b == rfc822_in_range(date@),
{
    let v = chars_of(date);
    let n = v.len();
    assert(v@.subrange(0, n as int) == v@);
    let parts = split_ranges(&v, 0, n, '-');
    if parts.len() != 3 {
        return true;
    }
    let (a0, b0) = parts[0];
    let (a1, b1) = parts[1];
    let (a2, b2) = parts[2];
    let y = match parse_i32_range(&v, a0, b0) {
        Some(y) => y,
        None => return true,
    };
    let m = match parse_uint_range(&v, a1, b1, u32::MAX as u64) {
        Some(m) => m,
        None => return true,
    };
    let d = match parse_uint_range(&v, a2, b2, u32::MAX as u64) {
        Some(d) => d,
        None => return true,
    };
    if m == 0 || m > 12 || d == 0 || d > 31 {
        return true;
    }
    assert(rfc822_fields(v@) == Some((y as int, m as int, d as int)));
    let t: i64 = if m == 1 {
        0
    } else if m == 2 {
        3
    } else if m == 3 {
        2
    } else if m == 4 {
        5
    } else if m == 5 {
        0
    } else if m == 6 {
        3
    } else if m == 7 {
        5
    } else if m == 8 {
        1
    } else if m == 9 {
        4
    } else if m == 10 {
        6
    } else if m == 11 {
        2
    } else {
        4
    };
    let yr: i64 = if m < 3 {
        y as i64 - 1
    } else {
        y as i64
    };
    let lo: i64 = -2147483648;
    let hi: i64 = 2147483647;
    if yr < lo {
        return false;
    }
    let q4 = tdiv_i64(yr, 4);
    let q100 = tdiv_i64(yr, 100);
    let q400 = tdiv_i64(yr, 400);
    let ghost sums = weekday_sums(yr as int, m as int, d as int);
    let a1 = yr + q4;
    let a2 = a1 - q100;
    let a3 = a2 + q400;
    let a4 = a3 + t;
    let a5 = a4 + d as i64;
    assert(sums[0] == a1 && sums[1] == a2 && sums[2] == a3 && sums[3] == a4 && sums[4] == a5);
    lo <= a1 && a1 <= hi && lo <= a2 && a2 <= hi && lo <= a3 && a3 <= hi && lo <= a4 && a4 <= hi && lo <= a5 && a5
        <= hi
}

/// A `YYYY-MM-DD` date as an RFC 822 timestamp at midnight UTC (for RSS), or
/// the text unchanged when it is not such a date.
pub fn format_rfc822(date: &str) -> (r: String)
    requires
        rfc822_in_range(date@),
    ensures
        r@ == spec_format_rfc822(date@),
{
    let v = chars_of(date);
    assert(v@.subrange(0, v.len() as int) == v@);
    let mut r = String::new();
    push_rfc822(&mut r, &v, 0, v.len());
    r
}

// ---------------------------------------------------------------------------
// Clock
// ---------------------------------------------------------------------------

/// Seconds since the Unix epoch by the system clock
/// (`SystemTime::now().duration_since(UNIX_EPOCH)`), or `None` when the clock
/// reads before the epoch. Nothing is stated of the value: it is the time.
#[verifier::external_body]
fn clock_seconds() -> (r: Option<u64>) {
    std::time::SystemTime::now().duration_since(std::time::UNIX_EPOCH).ok().map(|d| d.as_secs())
}

/// Seconds since the Unix epoch at the time of the call; `None` when the
/// clock reads before the epoch, where the caller cannot date the build.
/// What the clock reads is not stated.
pub fn build_timestamp() -> (r: Option<u64>) {
    clock_seconds()
}

/// The year that `ts` seconds after the epoch falls in, counting Julian years
/// of 365.25 days, truncated to 32 bits.
pub open spec fn spec_year_of_timestamp(ts: nat) -> u32 {
    (1970 + ts / 31_557_600) as u32
}

/// The year of a timestamp, as `current_year` computes it.
pub fn year_of_timestamp(ts: u64) -> (r: u32)
    ensures
        r == spec_year_of_timestamp(ts as nat),
{
    #[verifier::truncate]
    let r = (1970 + ts / 31_557_600) as u32;
    r
}

/// The current year by the system clock: the year of some timestamp, or
/// `None` when the clock reads before the epoch.
pub fn current_year() -> (r: Option<u32>)
    ensures
        r matches Some(y) ==> exists|ts: nat| y == spec_year_of_timestamp(ts),
{
    match build_timestamp() {
        Some(ts) => Some(year_of_timestamp(ts)),
        None => None,
    }
}

} // verus!
