//! Callout blocks and syntax-highlighted code blocks in rendered HTML.
use vstd::prelude::*;
use crate::text::{
    chars_of, find, find_in, lowercase, push_char, push_range, push_str, starts_with, starts_with_at, string_of,
    to_lowercase, trim, trim_range,
};
use crate::utils::{html_decode, spec_html_decode};
use syntect::highlighting::{Theme, ThemeSet};
use syntect::html::ClassedHTMLGenerator;
use syntect::parsing::SyntaxSet;

verus! {

/// The script that copies a code block's text when its button is clicked.
pub const CODE_COPY_SCRIPT: &'static str = "<script>\
document.querySelectorAll('.code-block__copy').forEach(function(btn){\
  btn.addEventListener('click',function(){\
    var code=btn.closest('.code-block').querySelector('code');\
    navigator.clipboard.writeText(code.innerText).then(function(){\
      btn.textContent='Copied!';\
      setTimeout(function(){btn.textContent='Copy';},2000);\
    });\
  });\
});\
</script>";

// ---------------------------------------------------------------------------
// Callouts
// ---------------------------------------------------------------------------

/// The title of a callout: the first line of its first paragraph, trimmed.
pub open spec fn callout_title(first_p: Seq<char>) -> Seq<char> {
    match find(first_p, "\n"@) {
        Some(nl) => trim(first_p.take(nl)),
        None => first_p,
    }
}

/// The rest of a callout's first paragraph after its title line, trimmed.
pub open spec fn callout_inline_body(first_p: Seq<char>) -> Seq<char> {
    match find(first_p, "\n"@) {
        Some(nl) => trim(first_p.skip(nl + 1)),
        None => Seq::empty(),
    }
}

pub open spec fn callout_title_html(title: Seq<char>) -> Seq<char> {
    if title.len() > 0 {
        "<span class=\"callout__title\">"@ + title + "</span>"@
    } else {
        Seq::empty()
    }
}

/// The body of a callout: the rest of the first paragraph as a paragraph,
/// then what followed that paragraph; nothing when both are empty.
pub open spec fn callout_body_html(inline_body: Seq<char>, rest: Seq<char>) -> Seq<char> {
    let body_parts = (if inline_body.len() > 0 {
        "<p>"@ + inline_body + "</p>"@
    } else {
        Seq::empty()
    }) + rest;
    if body_parts.len() > 0 {
        "<div class=\"callout__body\">"@ + body_parts + "</div>"@
    } else {
        Seq::empty()
    }
}

/// The HTML of a callout of type `ty` whose first paragraph is `first_p` and
/// which continues with `rest`: the first line of the paragraph is the title,
/// further lines open the body.
pub open spec fn callout_html(ty: Seq<char>, first_p: Seq<char>, rest: Seq<char>) -> Seq<char> {
    "<div class=\"callout callout--"@ + lowercase(ty) + "\"><div class=\"callout__header\"><span class=\"callout__type\">"@
        + ty + "</span>"@ + callout_title_html(callout_title(first_p)) + "</div>"@ + callout_body_html(
        callout_inline_body(first_p),
        rest,
    ) + "</div>"@
}

/// What a blockquote with inside `raw` becomes: a callout when it starts
/// with a paragraph `<p>[!TYPE] ...</p>`, otherwise the blockquote itself.
pub open spec fn callout_block(raw: Seq<char>) -> Seq<char> {
    let plain = "<blockquote>"@ + raw + "</blockquote>"@;
    let inner = trim(raw);
    if !starts_with(inner, "<p>[!"@) {
        plain
    } else {
        let after_type = inner.skip(5);
        match find(after_type, "]"@) {
            None => plain,
            Some(b) => {
                let after_bracket = after_type.skip(b + 1);
                match find(after_bracket, "</p>"@) {
                    None => plain,
                    Some(pc) => callout_html(
                        trim(after_type.take(b)),
                        trim(after_bracket.take(pc)),
                        trim(after_bracket.skip(pc + 4)),
                    ),
                }
            },
        }
    }
}

/// The blockquotes of `s` from `pos` on turned into callouts where they are
/// ones; text up to an unclosed blockquote and after the last one is kept.
pub open spec fn callouts_from(s: Seq<char>, pos: nat) -> Seq<char>
    decreases s.len() - pos,
{
    let rest = s.skip(pos as int);
    if pos > s.len() {
        Seq::empty()
    } else {
        match find(rest, "<blockquote>"@) {
            None => rest,
            Some(i) => match find(rest.skip(i + 12), "</blockquote>"@) {
                None => rest,
                Some(j) => {
                    proof {
                        crate::text::lemma_find(rest, "<blockquote>"@);
                        crate::text::lemma_find(rest.skip(i + 12), "</blockquote>"@);
                        reveal_strlit("<blockquote>");
                        reveal_strlit("</blockquote>");
                    }
                    rest.take(i) + callout_block(rest.subrange(i + 12, i + 12 + j)) + callouts_from(
                        s,
                        (pos + i + 12 + j + 13) as nat,
                    )
                },
            },
        }
    }
}

/// Every blockquote of `s` whose first paragraph starts `[!TYPE]` rendered
/// as a callout.
pub open spec fn spec_convert_callouts(s: Seq<char>) -> Seq<char> {
    callouts_from(s, 0)
}

/// No blockquote of `s` that opens at or after `pos` is a callout: each one
/// that is closed holds text that, trimmed, does not start with `<p>[!`.
pub open spec fn no_callout_from(s: Seq<char>, pos: int) -> bool {
    forall|i: int|
        #![trigger crate::text::match_at(s, "<blockquote>"@, i)]
        pos <= i && crate::text::match_at(s, "<blockquote>"@, i) ==> match find(s.skip(i + 12), "</blockquote>"@) {
            Some(j) => !starts_with(trim(s.subrange(i + 12, i + 12 + j)), "<p>[!"@),
            None => true,
        }
}

proof fn lemma_callouts_from_plain(s: Seq<char>, pos: nat)
    requires
        pos <= s.len(),
        no_callout_from(s, pos as int),
    ensures
        callouts_from(s, pos) == s.skip(pos as int),
    decreases s.len() - pos,
{
    reveal_strlit("<blockquote>");
    reveal_strlit("</blockquote>");
    let bq = "<blockquote>"@;
    let bq_end = "</blockquote>"@;
    let rest = s.skip(pos as int);
    crate::text::lemma_find(rest, bq);
    if let Some(i) = find(rest, bq) {
        crate::text::lemma_find(rest.skip(i + 12), bq_end);
        if let Some(j) = find(rest.skip(i + 12), bq_end) {
            assert(s.subrange(pos + i, pos + i + 12) =~= rest.subrange(i, i + 12));
            assert(crate::text::match_at(s, bq, pos + i));
            assert(rest.skip(i + 12) =~= s.skip(pos + i + 12));
            let raw = rest.subrange(i + 12, i + 12 + j);
            assert(raw =~= s.subrange(pos + i + 12, pos + i + 12 + j));
            assert(callout_block(raw) == bq + raw + bq_end);
            let next = (pos + i + 12 + j + 13) as nat;
            assert(rest.skip(i + 12).subrange(j, j + 13) == bq_end);
            lemma_callouts_from_plain(s, next);
            assert(s.skip(next as int) =~= rest.skip(i + 12 + j + 13));
            assert(rest =~= rest.take(i) + (bq + raw + bq_end) + s.skip(next as int));
        }
    }
}

/// HTML without callouts comes back as it was: plain blockquotes, an
/// unclosed `<blockquote>` and all the text around them are copied.
pub proof fn law_html_without_callouts_is_unchanged(s: Seq<char>)
    requires
        no_callout_from(s, 0),
    ensures
        spec_convert_callouts(s) == s,
{
    lemma_callouts_from_plain(s, 0);
    assert(s.skip(0) =~= s);
}

/// What `<blockquote><p>[!TYPE]</p></blockquote>` becomes when `t`, the type,
/// is a trimmed word: the callout's class names the type lowercased, its
/// label shows the type as written, and it has neither title nor body.
#[verifier::rlimit(80)]
#[verifier::spinoff_prover]
pub proof fn law_bare_callout(t: Seq<char>)
    requires
        t.len() > 0,
        trim(t) == t,
        !t.contains(']'),
        find(t, "</blockquote>"@) is None,
    ensures
        spec_convert_callouts("<blockquote><p>[!"@ + t + "]</p></blockquote>"@)
            == "<div class=\"callout callout--"@ + lowercase(t)
            + "\"><div class=\"callout__header\"><span class=\"callout__type\">"@ + t + "</span></div></div>"@,
{
    reveal_strlit("<blockquote><p>[!");
    reveal_strlit("]</p></blockquote>");
    reveal_strlit("<blockquote>");
    reveal_strlit("</blockquote>");
    reveal_strlit("<p>[!");
    reveal_strlit("]");
    reveal_strlit("</p>");
    reveal_strlit("]</p>");
    reveal_strlit("\n");
    reveal_strlit("</span>");
    reveal_strlit("</div>");
    reveal_strlit("</span></div></div>");
    let bq = "<blockquote>"@;
    let bq_end = "</blockquote>"@;
    let s = "<blockquote><p>[!"@ + t + "]</p></blockquote>"@;
    let n = t.len() as int;
    let u = "<p>[!"@ + t + "]</p></blockquote>"@;
    assert(s.subrange(0, 12) =~= bq);
    crate::text::lemma_find_at(s, bq, 0);
    assert(s.skip(0) =~= s);
    assert(s.skip(12) =~= u);
    let j = n + 10;
    assert(u.subrange(j, j + 13) =~= bq_end);
    crate::text::lemma_find(t, bq_end);
    assert forall|k: int| 0 <= k < j implies !crate::text::match_at(u, bq_end, k) by {
        if crate::text::match_at(u, bq_end, k) {
            let w = u.subrange(k, k + 13);
            if k < 5 {
                assert(w[0] == u[k] && w[1] == u[k + 1]);
            } else if k + 13 <= 5 + n {
                assert(t.subrange(k - 5, k - 5 + 13) =~= w);
                assert(crate::text::match_at(t, bq_end, k - 5));
            } else if k < 5 + n {
                let o = 5 + n - k;
                assert(w[o] == u[5 + n]);
            } else {
                assert(w[0] == u[k] && w[1] == u[k + 1] && w[2] == u[k + 2]);
            }
        }
    }
    crate::text::lemma_find_at(u, bq_end, j);
    let raw = "<p>[!"@ + t + "]</p>"@;
    assert(s.subrange(12, 12 + j) =~= raw);
    assert(raw[0] == '<' && raw.last() == '>');
    assert(crate::text::trim_start(raw) == raw);
    assert(trim(raw) == raw);
    assert(raw.take(5) =~= "<p>[!"@);
    let after_type = raw.skip(5);
    assert(after_type =~= t + "]"@ + "</p>"@);
    assert(after_type.subrange(n, n + 1) =~= "]"@);
    assert forall|k: int| 0 <= k < n implies !crate::text::match_at(after_type, "]"@, k) by {
        if crate::text::match_at(after_type, "]"@, k) {
            assert(after_type.subrange(k, k + 1)[0] == t[k]);
        }
    }
    crate::text::lemma_find_at(after_type, "]"@, n);
    let after_bracket = after_type.skip(n + 1);
    assert(after_bracket =~= "</p>"@);
    assert(after_bracket.subrange(0, 4) =~= "</p>"@);
    crate::text::lemma_find_at(after_bracket, "</p>"@, 0);
    assert(after_type.take(n) =~= t);
    assert(after_bracket.take(0) =~= Seq::<char>::empty());
    assert(after_bracket.skip(4) =~= Seq::<char>::empty());
    let e = Seq::<char>::empty();
    assert(trim(e) == e);
    assert(find(e, "\n"@) is None);
    assert(callout_title(e) == e);
    assert(callout_title_html(e) == e);
    assert(callout_inline_body(e) == e);
    assert(callout_body_html(e, e) == e);
    assert(callout_block(raw) == callout_html(t, e, e));
    assert(s.len() == 12 + j + 13);
    assert(s.skip(s.len() as int) =~= e);
    assert(find(e, bq) is None);
    assert(callouts_from(s, s.len()) == e);
    assert(spec_convert_callouts(s) == s.take(0) + callout_block(raw) + e);
    assert(callout_html(t, e, e) =~= "<div class=\"callout callout--"@ + lowercase(t)
        + "\"><div class=\"callout__header\"><span class=\"callout__type\">"@ + t + "</span></div></div>"@);
}

/// The bounds of the title and of the inline body of the first paragraph `v[fa..fb]`.
fn callout_parts(v: &Vec<char>, fa: usize, fb: usize) -> (r: (usize, usize, usize, usize))
    requires
        fa <= fb <= v.len(),
    ensures
        r.0 <= r.1 <= v.len(),
        r.2 <= r.3 <= v.len(),
        v@.subrange(r.0 as int, r.1 as int) == callout_title(v@.subrange(fa as int, fb as int)),
        v@.subrange(r.2 as int, r.3 as int) == callout_inline_body(v@.subrange(fa as int, fb as int)),
{
    let ghost first_p = v@.subrange(fa as int, fb as int);
    proof {
        reveal_strlit("\n");
    }
    match find_in(v, fa, fb, &chars_of("\n")) {
        Some(nl) => {
            let (ha, hb) = trim_range(v, fa, nl);
            let (ia, ib) = trim_range(v, nl + 1, fb);
            assert(first_p.take(nl - fa) == v@.subrange(fa as int, nl as int));
            assert(first_p.skip(nl - fa + 1) == v@.subrange(nl + 1, fb as int));
            (ha, hb, ia, ib)
        },
        None => {
            assert(v@.subrange(fb as int, fb as int) == Seq::<char>::empty());
            (fa, fb, fb, fb)
        },
    }
}

fn push_callout_title(out: &mut String, v: &Vec<char>, ha: usize, hb: usize)
    requires
        ha <= hb <= v.len(),
    ensures
        final(out)@ == old(out)@ + callout_title_html(v@.subrange(ha as int, hb as int)),
{
    if hb > ha {
        push_str(out, "<span class=\"callout__title\">");
        push_range(out, v, ha, hb);
        push_str(out, "</span>");
    }
}

fn push_callout_body(out: &mut String, v: &Vec<char>, ia: usize, ib: usize, ra: usize, rb: usize)
    requires
        ia <= ib <= v.len(),
        ra <= rb <= v.len(),
    ensures
        final(out)@ == old(out)@ + callout_body_html(
            v@.subrange(ia as int, ib as int),
            v@.subrange(ra as int, rb as int),
        ),
{
    let ghost start = old(out)@;
    if ib > ia || rb > ra {
        push_str(out, "<div class=\"callout__body\">");
        if ib > ia {
            push_str(out, "<p>");
            push_range(out, v, ia, ib);
            push_str(out, "</p>");
        }
        push_range(out, v, ra, rb);
        push_str(out, "</div>");
        assert(out@ =~= start + callout_body_html(
            v@.subrange(ia as int, ib as int),
            v@.subrange(ra as int, rb as int),
        ));
    } else {
        assert(out@ =~= start + callout_body_html(
            v@.subrange(ia as int, ib as int),
            v@.subrange(ra as int, rb as int),
        ));
    }
}

/// Appends the callout for type `v[ta..tb]`, first paragraph `v[fa..fb]`
/// and rest `v[ra..rb]`.
fn push_callout_html(
    out: &mut String,
    v: &Vec<char>,
    ta: usize,
    tb: usize,
    fa: usize,
    fb: usize,
    ra: usize,
    rb: usize,
)
    requires
        ta <= tb <= v.len(),
        fa <= fb <= v.len(),
        ra <= rb <= v.len(),
    ensures
        final(out)@ == old(out)@ + callout_html(
            v@.subrange(ta as int, tb as int),
            v@.subrange(fa as int, fb as int),
            v@.subrange(ra as int, rb as int),
        ),
{
    let ghost start = old(out)@;
    let (ha, hb, ia, ib) = callout_parts(v, fa, fb);
    let ty = string_of(v, ta, tb);
    let lower = to_lowercase(ty.as_str());
    push_str(out, "<div class=\"callout callout--");
    push_str(out, lower.as_str());
    push_str(out, "\"><div class=\"callout__header\"><span class=\"callout__type\">");
    push_str(out, ty.as_str());
    push_str(out, "</span>");
    push_callout_title(out, v, ha, hb);
    push_str(out, "</div>");
    push_callout_body(out, v, ia, ib, ra, rb);
    push_str(out, "</div>");
    assert(out@ =~= start + callout_html(
        v@.subrange(ta as int, tb as int),
        v@.subrange(fa as int, fb as int),
        v@.subrange(ra as int, rb as int),
    ));
}

/// Appends what the blockquote with inside `v[lo..hi]` becomes.
fn push_callout_block(out: &mut String, v: &Vec<char>, lo: usize, hi: usize)
    requires
        lo <= hi <= v.len(),
    ensures
        final(out)@ == old(out)@ + callout_block(v@.subrange(lo as int, hi as int)),
{
    let ghost raw = v@.subrange(lo as int, hi as int);
    let (a, b) = trim_range(v, lo, hi);
    let ghost inner = v@.subrange(a as int, b as int);
    proof {
        reveal_strlit("<p>[!");
        reveal_strlit("]");
        reveal_strlit("</p>");
    }
    if !starts_with_at(v, a, b, &chars_of("<p>[!")) {
        push_str(out, "<blockquote>");
        push_range(out, v, lo, hi);
        push_str(out, "</blockquote>");
        return ;
    }
    assert(inner.skip(5) == v@.subrange(a + 5, b as int));
    let bk = match find_in(v, a + 5, b, &chars_of("]")) {
        Some(bk) => bk,
        None => {
            push_str(out, "<blockquote>");
            push_range(out, v, lo, hi);
            push_str(out, "</blockquote>");
            return ;
        },
    };
    let ghost after_type = inner.skip(5);
    assert(after_type.take(bk - a - 5) == v@.subrange(a + 5, bk as int));
    assert(after_type.skip(bk - a - 5 + 1) == v@.subrange(bk + 1, b as int));
    let pc = match find_in(v, bk + 1, b, &chars_of("</p>")) {
        Some(pc) => pc,
        None => {
            push_str(out, "<blockquote>");
            push_range(out, v, lo, hi);
            push_str(out, "</blockquote>");
            return ;
        },
    };
    let ghost after_bracket = after_type.skip(bk - a - 5 + 1);
    assert(after_bracket.take(pc - bk - 1) == v@.subrange(bk + 1, pc as int));
    assert(after_bracket.skip(pc - bk - 1 + 4) == v@.subrange(pc + 4, b as int));
    let (ta, tb) = trim_range(v, a + 5, bk);
    let (fa, fb) = trim_range(v, bk + 1, pc);
    let (ra, rb) = trim_range(v, pc + 4, b);
    push_callout_html(out, v, ta, tb, fa, fb, ra, rb);
}

/// Renders Obsidian-style callouts: a blockquote whose first paragraph
/// starts with `[!TYPE] title` becomes a titled `callout--type` block.
#[verifier::loop_isolation(false)]
pub fn convert_callouts(html: &str) -> (r: String)
    ensures
        r@ == spec_convert_callouts(html@),
{
    let v = chars_of(html);
    let n = v.len();
    let ghost s = v@;
    let bq = chars_of("<blockquote>");
    let bq_end = chars_of("</blockquote>");
    proof {
        reveal_strlit("<blockquote>");
        reveal_strlit("</blockquote>");
    }
    let mut r = String::new();
    let mut pos: usize = 0;
    loop
        invariant
            pos <= n,
            n == v.len(),
            s == v@,
            bq@ == "<blockquote>"@,
            bq_end@ == "</blockquote>"@,
            spec_convert_callouts(s) == r@ + callouts_from(s, pos as nat),
        decreases n - pos,
    {
        let ghost rest = s.skip(pos as int);
        assert(v@.subrange(pos as int, n as int) == rest);
        let i = match find_in(&v, pos, n, &bq) {
            Some(i) => i,
            None => {
                push_range(&mut r, &v, pos, n);
                return r;
            },
        };
        assert(v@.subrange(i + 12, n as int) == rest.skip(i - pos + 12));
        let j = match find_in(&v, i + 12, n, &bq_end) {
            Some(j) => j,
            None => {
                push_range(&mut r, &v, pos, n);
                return r;
            },
        };
        assert(rest.take(i - pos) == v@.subrange(pos as int, i as int));
        assert(rest.subrange(i - pos + 12, i - pos + 12 + (j - i - 12)) == v@.subrange(i + 12, j as int));
        push_range(&mut r, &v, pos, i);
        push_callout_block(&mut r, &v, i + 12, j);
        pos = j + 13;
    }
}

// ---------------------------------------------------------------------------
// Code blocks
// ---------------------------------------------------------------------------

/// First position at or after `i` of a quote character.
pub open spec fn find_quote_from(s: Seq<char>, i: nat) -> Option<int>
    decreases s.len() - i,
{
    if i >= s.len() {
        None
    } else if s[i as int] == '"' || s[i as int] == '\'' {
        Some(i as int)
    } else {
        find_quote_from(s, i + 1)
    }
}

/// The language named by a `language-` class in a code block's opening tag:
/// the text after the first `language-` up to the next quote.
pub open spec fn spec_extract_language(tag: Seq<char>) -> Option<Seq<char>> {
    match find(tag, "language-"@) {
        None => None,
        Some(i) => {
            let rest = tag.skip(i + 9);
            match find_quote_from(rest, 0) {
                None => None,
                Some(e) => Some(rest.take(e)),
            }
        },
    }
}

/// The language of the code block whose opening tag is `v[lo..hi]`, as bounds.
#[verifier::loop_isolation(false)]
fn language_range(v: &Vec<char>, lo: usize, hi: usize) -> (r: Option<(usize, usize)>)
    requires
        lo <= hi <= v.len(),
    ensures
        match r {
            Some((a, b)) => lo <= a <= b <= hi && spec_extract_language(v@.subrange(lo as int, hi as int)) == Some(
                v@.subrange(a as int, b as int),
            ),
            None => spec_extract_language(v@.subrange(lo as int, hi as int)) is None,
        },
{
    let ghost tag = v@.subrange(lo as int, hi as int);
    proof {
        reveal_strlit("language-");
    }
    let i = match find_in(v, lo, hi, &chars_of("language-")) {
        Some(i) => i,
        None => return None,
    };
    let start = i + 9;
    let ghost rest = tag.skip(i - lo + 9);
    assert(rest == v@.subrange(start as int, hi as int));
    let mut k = start;
    while k < hi
        invariant
            start <= k <= hi <= v.len(),
            rest == v@.subrange(start as int, hi as int),
            find_quote_from(rest, 0) == find_quote_from(rest, (k - start) as nat),
        decreases hi - k,
    {
        if v[k] == '"' || v[k] == '\'' {
            assert(rest.take(k - start) == v@.subrange(start as int, k as int));
            return Some((start, k));
        }
        k += 1;
    }
    None
}

/// The language of a code block's opening tag, if it names one.
pub fn extract_language(opening_tag: &str) -> (r: Option<String>)
    ensures
        match r {
            Some(l) => spec_extract_language(opening_tag@) == Some(l@),
            None => spec_extract_language(opening_tag@) is None,
        },
{
    let v = chars_of(opening_tag);
    assert(v@.subrange(0, v.len() as int) == v@);
    match language_range(&v, 0, v.len()) {
        Some((a, b)) => Some(string_of(&v, a, b)),
        None => None,
    }
}

/// A code block found in rendered HTML: the language of its opening tag and
/// the HTML-escaped code between the tag and `</code></pre>`.
pub struct CodeBlockView {
    pub lang: Option<Seq<char>>,
    pub code_html: Seq<char>,
}

/// Where the next code block starting at or after `pos` lies: the position
/// of `<pre><code`, the end of its opening tag and the position of the
/// following `</code></pre>` (all relative to `pos`), when the tag and the
/// close are both found.
pub open spec fn next_code_block(s: Seq<char>, pos: nat) -> Option<(int, int, int)> {
    let rest = s.skip(pos as int);
    match find(rest, "<pre><code"@) {
        None => None,
        Some(st) => {
            let r2 = rest.skip(st);
            match find(r2.skip(5), ">"@) {
                None => None,
                Some(gi) => match find(r2, "</code></pre>"@) {
                    None => None,
                    Some(e) => Some((st, 5 + gi + 1, e)),
                },
            }
        },
    }
}

/// The code blocks of `s` from `pos` on; a block whose opening tag is not
/// closed by `>` before its `</code></pre>` makes the result meaningless
/// (see `code_blocks_well_formed`).
pub open spec fn code_blocks_from(s: Seq<char>, pos: nat) -> Seq<CodeBlockView>
    decreases s.len() - pos,
{
    if pos > s.len() {
        Seq::empty()
    } else {
        match next_code_block(s, pos) {
            None => Seq::empty(),
            Some((st, te, e)) => {
                proof {
                    lemma_next_code_block(s, pos);
                }
                let r2 = s.skip(pos as int).skip(st);
                seq![
                    CodeBlockView {
                        lang: spec_extract_language(r2.take(te)),
                        code_html: r2.subrange(te, e),
                    },
                ] + code_blocks_from(s, (pos + st + e + 13) as nat)
            },
        }
    }
}

/// Every code block's opening tag ends before its `</code></pre>`.
pub open spec fn code_blocks_well_formed_from(s: Seq<char>, pos: nat) -> bool
    decreases s.len() - pos,
{
    if pos > s.len() {
        true
    } else {
        match next_code_block(s, pos) {
            None => true,
            Some((st, te, e)) => {
                proof {
                    lemma_next_code_block(s, pos);
                }
                te <= e && code_blocks_well_formed_from(s, (pos + st + e + 13) as nat)
            },
        }
    }
}

pub open spec fn code_blocks_well_formed(s: Seq<char>) -> bool {
    code_blocks_well_formed_from(s, 0)
}

/// The code blocks of `s`.
pub open spec fn spec_code_blocks(s: Seq<char>) -> Seq<CodeBlockView> {
    code_blocks_from(s, 0)
}

pub proof fn lemma_next_code_block(s: Seq<char>, pos: nat)
    requires
        pos <= s.len(),
    ensures
        match next_code_block(s, pos) {
            Some((st, te, e)) => 0 <= st && 6 <= te && 0 <= e && pos + st + e + 13 <= s.len() && pos + st + te
                <= s.len(),
            None => true,
        },
{
    reveal_strlit("<pre><code");
    reveal_strlit(">");
    reveal_strlit("</code></pre>");
    let rest = s.skip(pos as int);
    crate::text::lemma_find(rest, "<pre><code"@);
    match find(rest, "<pre><code"@) {
        None => {},
        Some(st) => {
            let r2 = rest.skip(st);
            crate::text::lemma_find(r2.skip(5), ">"@);
            crate::text::lemma_find(r2, "</code></pre>"@);
        },
    }
}

/// The wrapper of a code block: a header with the language and a copy
/// button, then the code.
pub open spec fn code_block_html(lang: Option<Seq<char>>, code: Seq<char>) -> Seq<char> {
    let label = match lang {
        Some(l) => l,
        None => Seq::empty(),
    };
    "<div class=\"code-block\"><div class=\"code-block__header\"><span class=\"code-block__lang\">"@ + label
        + "</span><button class=\"code-block__copy\">Copy</button></div><pre><code>"@ + code
        + "</code></pre></div>"@
}

/// The code shown for block `b` given its highlighting `h`: the highlighted
/// code when the block names a language and highlighting produced some,
/// otherwise the block's code as it was.
pub open spec fn shown_code(b: CodeBlockView, h: Option<Seq<char>>) -> Seq<char> {
    match (b.lang, h) {
        (Some(_), Some(x)) => x,
        _ => b.code_html,
    }
}

/// `s` from `pos` on with its code blocks wrapped, block `k` onward shown
/// with highlighting `hs[k..]`.
pub open spec fn render_code_from(s: Seq<char>, pos: nat, hs: Seq<Option<Seq<char>>>, k: nat) -> Seq<char>
    decreases s.len() - pos,
{
    if pos > s.len() {
        Seq::empty()
    } else {
        match next_code_block(s, pos) {
            None => s.skip(pos as int),
            Some((st, te, e)) => {
                proof {
                    lemma_next_code_block(s, pos);
                }
                let rest = s.skip(pos as int);
                let r2 = rest.skip(st);
                let b = CodeBlockView { lang: spec_extract_language(r2.take(te)), code_html: r2.subrange(te, e) };
                rest.take(st) + code_block_html(b.lang, shown_code(b, hs[k as int])) + render_code_from(
                    s,
                    (pos + st + e + 13) as nat,
                    hs,
                    k + 1,
                )
            },
        }
    }
}

/// `s` with its code blocks wrapped and shown with highlighting `hs`.
pub open spec fn spec_render_code_blocks(s: Seq<char>, hs: Seq<Option<Seq<char>>>) -> Seq<char> {
    render_code_from(s, 0, hs, 0)
}

/// A code block request: its language and its code with entities decoded.
pub struct CodeRequest {
    pub lang: Option<String>,
    pub code: String,
}

/// Finds the next code block of `v` from `pos`: the bounds of its opening
/// tag's end, of its close, and of its start.
fn next_block(v: &Vec<char>, pos: usize) -> (r: Option<(usize, usize, usize)>)
    requires
        pos <= v.len(),
    ensures
        match r {
            Some((st, te, e)) => next_code_block(v@, pos as nat) == Some(
                ((st - pos) as int, (te - st) as int, (e - st) as int),
            ) && pos <= st && st <= te <= v.len() && st <= e && e + 13 <= v.len(),
            None => next_code_block(v@, pos as nat) is None,
        },
{
    let n = v.len();
    let ghost rest = v@.skip(pos as int);
    assert(v@.subrange(pos as int, n as int) == rest);
    proof {
        reveal_strlit("<pre><code");
        reveal_strlit(">");
        reveal_strlit("</code></pre>");
    }
    let st = match find_in(v, pos, n, &chars_of("<pre><code")) {
        Some(st) => st,
        None => return None,
    };
    let ghost r2 = rest.skip(st - pos);
    assert(v@.subrange(st as int, n as int) == r2);
    assert(v@.subrange(st + 5, n as int) == r2.skip(5));
    let gi = match find_in(v, st + 5, n, &chars_of(">")) {
        Some(g) => g,
        None => return None,
    };
    let e = match find_in(v, st, n, &chars_of("</code></pre>")) {
        Some(e) => e,
        None => return None,
    };
    Some((st, gi + 1, e))
}

/// The code blocks of `html`, each with its language and decoded code.
#[verifier::loop_isolation(false)]
pub fn code_block_requests(html: &str) -> (r: Vec<CodeRequest>)
    requires
        code_blocks_well_formed(html@),
    ensures
        r.len() == spec_code_blocks(html@).len(),
        forall|k: int|
            0 <= k < r.len() ==> crate::frontmatter::opt_view((#[trigger] r[k]).lang) == spec_code_blocks(html@)[k].lang
                && r[k].code@ == spec_html_decode(spec_code_blocks(html@)[k].code_html),
{
    let v = chars_of(html);
    let n = v.len();
    let ghost s = v@;
    let mut r: Vec<CodeRequest> = Vec::new();
    let mut pos: usize = 0;
    loop
        invariant
            pos <= n,
            n == v.len(),
            s == v@,
            code_blocks_well_formed_from(s, pos as nat),
            forall|k: int|
                0 <= k < r.len() ==> crate::frontmatter::opt_view((#[trigger] r[k]).lang) == spec_code_blocks(s)[k].lang
                    && r[k].code@ == spec_html_decode(spec_code_blocks(s)[k].code_html),
            spec_code_blocks(s).len() == r.len() + code_blocks_from(s, pos as nat).len(),
            forall|k: int|
                0 <= k < code_blocks_from(s, pos as nat).len() ==> spec_code_blocks(s)[r.len() + k]
                    == #[trigger] code_blocks_from(s, pos as nat)[k],
        decreases n - pos,
    {
        proof {
            lemma_next_code_block(s, pos as nat);
        }
        match next_block(&v, pos) {
            None => {
                return r;
            },
            Some((st, te, e)) => {
                let ghost rest = s.skip(pos as int);
                let ghost r2 = rest.skip(st - pos);
                assert(r2.take(te - st) == v@.subrange(st as int, te as int));
                assert(r2.subrange(te - st, e - st) == v@.subrange(te as int, e as int));
                let lang = match language_range(&v, st, te) {
                    Some((a, b)) => Some(string_of(&v, a, b)),
                    None => None,
                };
                let code_html = string_of(&v, te, e);
                let code = html_decode(code_html.as_str());
                let ghost tail = code_blocks_from(s, pos as nat);
                let ghost next = code_blocks_from(s, (e + 13) as nat);
                assert(tail == seq![tail[0]] + next);
                r.push(CodeRequest { lang, code });
                proof {
                    assert forall|k: int| 0 <= k < next.len() implies spec_code_blocks(s)[r.len() + k] == #[trigger] next[k] by {
                        assert(tail[k + 1] == next[k]);
                    }
                }
                pos = e + 13;
            },
        }
    }
}

/// Whether every code block's opening tag ends before its `</code></pre>`,
/// which `highlight_code_blocks` needs.
pub fn code_blocks_ok(html: &str) -> (b: bool)
    ensures
        b == code_blocks_well_formed(html@),
{
    let v = chars_of(html);
    let n = v.len();
    let ghost s = v@;
    let mut pos: usize = 0;
    loop
        invariant
            pos <= n,
            n == v.len(),
            s == v@,
            s == html@,
            code_blocks_well_formed(s) == code_blocks_well_formed_from(s, pos as nat),
        decreases n - pos,
    {
        proof {
            lemma_next_code_block(s, pos as nat);
        }
        match next_block(&v, pos) {
            None => {
                return true;
            },
            Some((st, te, e)) => {
                if te > e {
                    return false;
                }
                pos = e + 13;
            },
        }
    }
}

/// Appends `html` with its code blocks wrapped, each shown with
/// `highlighted[k]` where it names a language and that is `Some`.
#[verifier::loop_isolation(false)]
pub fn render_code_blocks(html: &str, highlighted: &Vec<Option<String>>) -> (r: String)
    requires
        code_blocks_well_formed(html@),
        highlighted.len() == spec_code_blocks(html@).len(),
    ensures
        r@ == spec_render_code_blocks(html@, highlighted@.map_values(|h: Option<String>| crate::frontmatter::opt_view(h))),
{
    let ghost hs = highlighted@.map_values(|h: Option<String>| crate::frontmatter::opt_view(h));
    let v = chars_of(html);
    let n = v.len();
    let ghost s = v@;
    let mut r = String::new();
    let mut pos: usize = 0;
    let mut k: usize = 0;
    loop
        invariant
            pos <= n,
            n == v.len(),
            s == v@,
            hs == highlighted@.map_values(|h: Option<String>| crate::frontmatter::opt_view(h)),
            code_blocks_well_formed_from(s, pos as nat),
            highlighted.len() == k + code_blocks_from(s, pos as nat).len(),
            spec_render_code_blocks(s, hs) == r@ + render_code_from(s, pos as nat, hs, k as nat),
        decreases n - pos,
    {
        proof {
            lemma_next_code_block(s, pos as nat);
        }
        match next_block(&v, pos) {
            None => {
                push_range(&mut r, &v, pos, n);
                assert(v@.subrange(pos as int, n as int) == s.skip(pos as int));
                return r;
            },
            Some((st, te, e)) => {
                let ghost rest = s.skip(pos as int);
                let ghost r2 = rest.skip(st - pos);
                assert(r2.take(te - st) == v@.subrange(st as int, te as int));
                assert(r2.subrange(te - st, e - st) == v@.subrange(te as int, e as int));
                assert(rest.take(st - pos) == v@.subrange(pos as int, st as int));
                let ghost before = r@;
                push_range(&mut r, &v, pos, st);
                let lang = language_range(&v, st, te);
                push_str(
                    &mut r,
                    "<div class=\"code-block\"><div class=\"code-block__header\"><span class=\"code-block__lang\">",
                );
                match lang {
                    Some((a, b)) => push_range(&mut r, &v, a, b),
                    None => {},
                }
                push_str(&mut r, "</span><button class=\"code-block__copy\">Copy</button></div><pre><code>");
                match (lang, &highlighted[k]) {
                    (Some(_), Some(h)) => push_str(&mut r, h.as_str()),
                    _ => push_range(&mut r, &v, te, e),
                }
                push_str(&mut r, "</code></pre></div>");
                proof {
                    let b = CodeBlockView {
                        lang: spec_extract_language(r2.take(te - st)),
                        code_html: r2.subrange(te - st, e - st),
                    };
                    assert(hs[k as int] == crate::frontmatter::opt_view(highlighted@[k as int]));
                    assert(r@ =~= before + rest.take(st - pos) + code_block_html(b.lang, shown_code(b, hs[k as int])));
                }
                pos = e + 13;
                k += 1;
            },
        }
    }
}

/// The HTML syntect writes for `code` highlighted as the language `token`
/// names in the syntax set `ss`, or `None` when the set knows no such
/// language.
pub uninterp spec fn syntect_html(ss: SyntaxSet, token: Seq<char>, code: Seq<char>) -> Option<Seq<char>>;

/// Highlights `code` with syntect as the language `token` names: the syntax
/// that `SyntaxSet::find_syntax_by_token` finds, a `ClassedHTMLGenerator`
/// with spaced class names fed each line of `code` (as `LinesWithEndings`
/// splits it, a line the parser rejects being skipped), then `finalize`;
/// `None` when the set has no syntax for `token`. The result is a function
/// of the set, the token and the code, named by `syntect_html`.
#[verifier::external_body]
fn syntect_highlight(ss: &SyntaxSet, token: &str, code: &str) -> (r: Option<String>)
    ensures
        crate::frontmatter::opt_view(r) == syntect_html(*ss, token@, code@),
{
    let syntax = ss.find_syntax_by_token(token)?;
    let mut generator = ClassedHTMLGenerator::new_with_class_style(syntax, ss, syntect::html::ClassStyle::Spaced);
    for line in syntect::util::LinesWithEndings::from(code) {
        let _ = generator.parse_html_for_line_which_includes_newline(line);
    }
    Some(generator.finalize())
}

/// How each code block of `s` is shown: syntect's highlighting of its
/// decoded code where it names a language, `None` (its code as written)
/// where it names none.
pub open spec fn block_highlights(ss: SyntaxSet, s: Seq<char>) -> Seq<Option<Seq<char>>> {
    spec_code_blocks(s).map_values(
        |b: CodeBlockView|
            match b.lang {
                Some(l) => syntect_html(ss, l, spec_html_decode(b.code_html)),
                None => None,
            },
    )
}

/// Wraps every code block of rendered HTML in a header with its language
/// and a copy button, highlighting the code where `ss` knows the language.
/// What the highlighter writes is the syntax set's; the rest is exact.
pub fn highlight_code_blocks(html: &str, ss: &SyntaxSet) -> (r: String)
    requires
        code_blocks_well_formed(html@),
    ensures
        r@ == spec_render_code_blocks(html@, block_highlights(*ss, html@)),
{
    let requests = code_block_requests(html);
    let ghost want = block_highlights(*ss, html@);
    let mut highlighted: Vec<Option<String>> = Vec::new();
    let mut k: usize = 0;
    while k < requests.len()
        invariant
            k <= requests.len(),
            highlighted.len() == k,
            requests.len() == spec_code_blocks(html@).len(),
            want == block_highlights(*ss, html@),
            forall|j: int|
                0 <= j < requests.len() ==> crate::frontmatter::opt_view((#[trigger] requests[j]).lang)
                    == spec_code_blocks(html@)[j].lang && requests[j].code@ == spec_html_decode(
                    spec_code_blocks(html@)[j].code_html,
                ),
            forall|j: int| 0 <= j < k ==> crate::frontmatter::opt_view(#[trigger] highlighted[j]) == want[j],
        decreases requests.len() - k,
    {
        let h = match &requests[k].lang {
            Some(l) => syntect_highlight(ss, l.as_str(), requests[k].code.as_str()),
            None => None,
        };
        highlighted.push(h);
        k += 1;
    }
    let r = render_code_blocks(html, &highlighted);
    let ghost hs = highlighted@.map_values(|h: Option<String>| crate::frontmatter::opt_view(h));
    assert(hs =~= want);
    r
}

// ---------------------------------------------------------------------------
// Syntax highlighting through syntect
// ---------------------------------------------------------------------------

#[verifier::external_type_specification]
#[verifier::external_body]
pub struct ExSyntaxSet(SyntaxSet);

#[verifier::external_type_specification]
#[verifier::external_body]
pub struct ExThemeSet(ThemeSet);

#[verifier::external_type_specification]
#[verifier::external_body]
pub struct ExTheme(Theme);

/// The theme a theme set holds under `name`, if any.
pub uninterp spec fn theme_in(ts: ThemeSet, name: Seq<char>) -> Option<Theme>;

/// The CSS syntect writes for a theme with spaced class names, or `None`
/// where it fails.
pub uninterp spec fn theme_css_of(theme: Theme) -> Option<Seq<char>>;

/// The theme of that name in the set (`ThemeSet::themes`, a `BTreeMap`,
/// `get`): a function of the set and the name, named by `theme_in`.
#[verifier::external_body]
fn find_theme<'a>(ts: &'a ThemeSet, name: &str) -> (r: Option<&'a Theme>)
    ensures
        match r {
            Some(t) => theme_in(*ts, name@) == Some(*t),
            None => theme_in(*ts, name@) is None,
        },
{
    ts.themes.get(name)
}

/// `css_for_theme_with_class_style` with spaced class names, `None` where it
/// returns an error: a function of the theme, named by `theme_css_of`.
#[verifier::external_body]
fn theme_css(theme: &Theme) -> (r: Option<String>)
    ensures
        crate::frontmatter::opt_view(r) == theme_css_of(*theme),
{
    syntect::html::css_for_theme_with_class_style(theme, syntect::html::ClassStyle::Spaced).ok()
}

/// The CSS of the theme of that name in the set, empty when the set lacks it
/// or syntect writes none for it.
pub open spec fn css_or_empty(ts: ThemeSet, name: Seq<char>) -> Seq<char> {
    match theme_in(ts, name) {
        Some(t) => match theme_css_of(t) {
            Some(css) => css,
            None => Seq::empty(),
        },
        None => Seq::empty(),
    }
}

/// The style block for code blocks around the light and dark theme CSS.
pub open spec fn spec_highlight_style(light: Seq<char>, dark: Seq<char>) -> Seq<char> {
    "<style>pre code{background:none;padding:0;}.code-block{margin:1.5rem 0;}.code-block pre{margin:0;border-radius:0 0 4px 4px;}.code-block__header{display:flex;justify-content:space-between;align-items:center;background:#e8e8e8;padding:0.3rem 0.75rem;border-radius:4px 4px 0 0;font-size:0.8rem;}.code-block__lang{color:#666;text-transform:uppercase;font-size:0.75rem;letter-spacing:0.05em;}.code-block__copy{all:unset;cursor:pointer;color:#666;padding:0.15rem 0.5rem;border:1px solid #aaa;border-radius:3px;font-size:0.75rem;}.code-block__copy:hover{color:var(--button-bg,#b5a642);border-color:var(--button-bg,#b5a642);}"@
        + light + "@media(prefers-color-scheme:dark){"@ + dark
        + ".code-block__header{background:#2d3035;}.code-block__lang,.code-block__copy{color:#ccc;}}#theme:checked ~ * .code-block__header{background:#2d3035;}#theme:checked ~ * .code-block__lang,#theme:checked ~ * .code-block__copy{color:#ccc;}@media(prefers-color-scheme:dark){#theme:checked ~ * .code-block__header{background:#e8e8e8;}#theme:checked ~ * .code-block__lang,#theme:checked ~ * .code-block__copy{color:#666;}}</style>"@
}

/// The style block for code blocks, given the CSS of the light and dark themes.
pub fn highlight_style(light: &str, dark: &str) -> (r: String)
    ensures
        r@ == spec_highlight_style(light@, dark@),
{
    let mut r = String::new();
    push_str(
        &mut r,
        "<style>pre code{background:none;padding:0;}.code-block{margin:1.5rem 0;}.code-block pre{margin:0;border-radius:0 0 4px 4px;}.code-block__header{display:flex;justify-content:space-between;align-items:center;background:#e8e8e8;padding:0.3rem 0.75rem;border-radius:4px 4px 0 0;font-size:0.8rem;}.code-block__lang{color:#666;text-transform:uppercase;font-size:0.75rem;letter-spacing:0.05em;}.code-block__copy{all:unset;cursor:pointer;color:#666;padding:0.15rem 0.5rem;border:1px solid #aaa;border-radius:3px;font-size:0.75rem;}.code-block__copy:hover{color:var(--button-bg,#b5a642);border-color:var(--button-bg,#b5a642);}",
    );
    push_str(&mut r, light);
    push_str(&mut r, "@media(prefers-color-scheme:dark){");
    push_str(&mut r, dark);
    push_str(
        &mut r,
        ".code-block__header{background:#2d3035;}.code-block__lang,.code-block__copy{color:#ccc;}}#theme:checked ~ * .code-block__header{background:#2d3035;}#theme:checked ~ * .code-block__lang,#theme:checked ~ * .code-block__copy{color:#ccc;}@media(prefers-color-scheme:dark){#theme:checked ~ * .code-block__header{background:#e8e8e8;}#theme:checked ~ * .code-block__lang,#theme:checked ~ * .code-block__copy{color:#666;}}</style>",
    );
    r
}

/// The CSS of the named theme, empty when the set lacks it or it has none.
fn named_theme_css(ts: &ThemeSet, name: &str) -> (r: String)
    ensures
        r@ == css_or_empty(*ts, name@),
{
    match find_theme(ts, name) {
        Some(t) => match theme_css(t) {
            Some(css) => css,
            None => String::new(),
        },
        None => String::new(),
    }
}

/// The style block for code blocks with the `InspiredGitHub` theme for light
/// mode and `base16-ocean.dark` for dark mode; the theme CSS is the set's.
pub fn syntax_highlight_css(ts: &ThemeSet) -> (r: String)
    ensures
        r@ == spec_highlight_style(
            css_or_empty(*ts, "InspiredGitHub"@),
            css_or_empty(*ts, "base16-ocean.dark"@),
        ),
{
    let light = named_theme_css(ts, "InspiredGitHub");
    let dark = named_theme_css(ts, "base16-ocean.dark");
    highlight_style(light.as_str(), dark.as_str())
}

} // verus!
