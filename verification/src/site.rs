//! Turning the pages of a site into published documents.
use vstd::prelude::*;
use pulldown_cmark::{html, Options, Parser};
use crate::frontmatter::{opt_view, strings_view, PageInfo, PageView};
use crate::highlight::{
    block_highlights, code_blocks_ok, code_blocks_well_formed, convert_callouts, highlight_code_blocks,
    spec_convert_callouts, spec_render_code_blocks, CODE_COPY_SCRIPT,
};
use syntect::parsing::SyntaxSet;
use crate::images::{rewrite_image_refs, spec_rewrite_image_refs};
use crate::render::{clean_base, date_lt, opt_str_view, push_clean_base, push_date_text, str_eq, text_lt};
use crate::text::{
    chars_of, dec, find, find_in, join, line_ranges, lines, push_dec, push_range, push_str, replace, replace_str,
    starts_with, starts_with_at,
};
use crate::utils::{
    estimate_read_time, html_escape, path_to_url, read_minutes, spec_format_date, spec_html_escape,
    spec_path_to_url, word_count,
};

verus! {

/// The HTML that pulldown-cmark renders for Markdown `md` with tables,
/// strikethrough and task lists enabled.
pub uninterp spec fn markdown_html(md: Seq<char>) -> Seq<char>;

/// Markdown to HTML through pulldown-cmark (`Parser::new_ext` with tables,
/// strikethrough and task lists, then `html::push_html`); the result is a
/// function of the text alone, named by `markdown_html`.
#[verifier::external_body]
pub(crate) fn convert_md_to_html(md_content: &str) -> (r: String)
    ensures
        r@ == markdown_html(md_content@),
{
    let opts = Options::ENABLE_TABLES | Options::ENABLE_STRIKETHROUGH | Options::ENABLE_TASKLISTS;
    let parser = Parser::new_ext(md_content, opts);
    let mut html_output = String::new();
    html::push_html(&mut html_output, parser);
    html_output
}

/// The HTML a page's body becomes before its code blocks are highlighted:
/// Markdown is rendered, HTML is kept.
pub open spec fn source_html(body: Seq<char>, is_md: bool) -> Seq<char> {
    if is_md {
        markdown_html(body)
    } else {
        body
    }
}

/// The content of a page with body `body`: its source HTML with code blocks
/// highlighted by syntect with `ss`, then, for Markdown, callouts converted.
pub open spec fn spec_page_content(ss: SyntaxSet, body: Seq<char>, is_md: bool) -> Seq<char> {
    let highlighted = spec_render_code_blocks(
        source_html(body, is_md),
        block_highlights(ss, source_html(body, is_md)),
    );
    if is_md {
        spec_convert_callouts(highlighted)
    } else {
        highlighted
    }
}

/// The content of a page: Markdown rendered to HTML, code blocks
/// highlighted with `ss`, and, for Markdown, callouts converted. `None`
/// when a code block's opening tag does not end before its close, on which
/// the highlighter cannot cut the block out.
pub fn page_content(body: &str, is_md: bool, ss: &SyntaxSet) -> (r: Option<String>)
    ensures
        r is None <==> !code_blocks_well_formed(source_html(body@, is_md)),
        r matches Some(c) ==> c@ == spec_page_content(*ss, body@, is_md),
{
    let html = if is_md {
        convert_md_to_html(body)
    } else {
        let mut h = String::new();
        push_str(&mut h, body);
        h
    };
    assert(html@ == source_html(body@, is_md));
    if !code_blocks_ok(html.as_str()) {
        return None;
    }
    let highlighted = highlight_code_blocks(html.as_str(), ss);
    if is_md {
        let c = convert_callouts(highlighted.as_str());
        Some(c)
    } else {
        Some(highlighted)
    }
}

/// The URL of a page from its directory (relative to `pages/`) and file
/// stem: a section's `index` page is the section's URL, any other page
/// has a URL of its own below its section.
pub open spec fn spec_page_url(relative_dir: Seq<char>, stem: Seq<char>) -> Seq<char> {
    if stem == "index"@ {
        if relative_dir.len() == 0 {
            "/"@
        } else {
            "/"@ + spec_path_to_url(relative_dir) + "/"@
        }
    } else if relative_dir.len() == 0 {
        "/"@ + stem + "/"@
    } else {
        "/"@ + spec_path_to_url(relative_dir) + "/"@ + stem + "/"@
    }
}

/// The URL path of a page.
pub fn page_url(relative_dir: &str, stem: &str) -> (r: String)
    ensures
        r@ == spec_page_url(relative_dir@, stem@),
{
    let dir_empty = chars_of(relative_dir).len() == 0;
    let mut r = String::new();
    push_str(&mut r, "/");
    if !dir_empty {
        push_str(&mut r, path_to_url(relative_dir).as_str());
        push_str(&mut r, "/");
    }
    if !str_eq(stem, "index") {
        push_str(&mut r, stem);
        push_str(&mut r, "/");
    }
    assert(r@ =~= spec_page_url(relative_dir@, stem@));
    r
}

/// The absolute URL of a path on the site: the base URL trimmed and
/// without trailing slashes, then the path.
pub fn full_url(base_url: &str, path: &str) -> (r: String)
    ensures
        r@ == clean_base(base_url@) + path@,
{
    let mut r = String::new();
    push_clean_base(&mut r, base_url, false);
    push_str(&mut r, path);
    r
}

/// The Open Graph image of a page: its own or else the site's, made
/// absolute under the base URL unless it starts with `http`; empty when
/// there is none.
pub open spec fn spec_og_image(page: Option<Seq<char>>, site: Option<Seq<char>>, base_url: Seq<char>) -> Seq<char> {
    let chosen = match page {
        Some(p) => Some(p),
        None => site,
    };
    match chosen {
        Some(p) => if starts_with(p, "http"@) {
            p
        } else {
            clean_base(base_url) + p
        },
        None => Seq::empty(),
    }
}

/// The Open Graph image URL of a page.
pub fn og_image_url(page: Option<&str>, site: Option<&str>, base_url: &str) -> (r: String)
    ensures
        r@ == spec_og_image(opt_str_view(page), opt_str_view(site), base_url@),
{
    let chosen = match page {
        Some(p) => Some(p),
        None => site,
    };
    let mut r = String::new();
    match chosen {
        Some(p) => {
            let v = chars_of(p);
            assert(v@.subrange(0, v.len() as int) == v@);
            if starts_with_at(&v, 0, v.len(), &chars_of("http")) {
                push_str(&mut r, p);
            } else {
                push_clean_base(&mut r, base_url, false);
                push_str(&mut r, p);
            }
        },
        None => {},
    }
    r
}

/// The dates of a post: the publication date, and the last edit when it
/// differs, side by side.
pub open spec fn post_dates(date: Option<Seq<char>>, last_edited: Option<Seq<char>>) -> Seq<char> {
    let date_html = match date {
        Some(d) => "<time class=\"post-date\" datetime=\""@ + d + "\">"@ + spec_format_date(d) + "</time>"@,
        None => Seq::empty(),
    };
    let edited_html = match last_edited {
        Some(e) => if Some(e) != date {
            "<time class=\"post-updated\" datetime=\""@ + e + "\">Updated: "@ + spec_format_date(e) + "</time>"@
        } else {
            Seq::empty()
        },
        None => Seq::empty(),
    };
    if edited_html.len() == 0 {
        date_html
    } else {
        "<div class=\"post-dates\">"@ + date_html + edited_html + "</div>"@
    }
}

/// A page's content with a header of its dates, reading time and location
/// in front when it has a date or a location.
pub open spec fn spec_with_post_header(
    content: Seq<char>,
    date: Option<Seq<char>>,
    last_edited: Option<Seq<char>>,
    location: Option<Seq<char>>,
    body: Seq<char>,
) -> Seq<char> {
    let location_html = match location {
        Some(l) => "<span class=\"post-location\">"@ + l + "</span>"@,
        None => Seq::empty(),
    };
    if date is Some || location_html.len() > 0 {
        "<div class=\"post-header\">"@ + post_dates(date, last_edited) + "<span class=\"post-read-time\">"@ + dec(
            read_minutes(word_count(body)),
        ) + " min read</span>"@ + location_html + "</div>\n"@ + content
    } else {
        content
    }
}

fn push_post_dates(out: &mut String, date: Option<&str>, last_edited: Option<&str>)
    ensures
        final(out)@ == old(out)@ + post_dates(opt_str_view(date), opt_str_view(last_edited)),
{
    let ghost start = old(out)@;
    let mut date_html = String::new();
    match date {
        Some(d) => {
            push_str(&mut date_html, "<time class=\"post-date\" datetime=\"");
            push_str(&mut date_html, d);
            push_str(&mut date_html, "\">");
            push_date_text(&mut date_html, d);
            push_str(&mut date_html, "</time>");
        },
        None => {},
    }
    let mut edited_html = String::new();
    match last_edited {
        Some(e) => {
            let same = match date {
                Some(d) => str_eq(e, d),
                None => false,
            };
            if !same {
                push_str(&mut edited_html, "<time class=\"post-updated\" datetime=\"");
                push_str(&mut edited_html, e);
                push_str(&mut edited_html, "\">Updated: ");
                push_date_text(&mut edited_html, e);
                push_str(&mut edited_html, "</time>");
            }
        },
        None => {},
    }
    if chars_of(edited_html.as_str()).len() == 0 {
        push_str(out, date_html.as_str());
    } else {
        push_str(out, "<div class=\"post-dates\">");
        push_str(out, date_html.as_str());
        push_str(out, edited_html.as_str());
        push_str(out, "</div>");
    }
    assert(out@ =~= start + post_dates(opt_str_view(date), opt_str_view(last_edited)));
}

/// A page's content with its post header.
pub fn with_post_header(
    content: &str,
    date: Option<&str>,
    last_edited: Option<&str>,
    location: Option<&str>,
    body: &str,
) -> (r: String)
    ensures
        r@ == spec_with_post_header(
            content@,
            opt_str_view(date),
            opt_str_view(last_edited),
            opt_str_view(location),
            body@,
        ),
{
    let mut location_html = String::new();
    match location {
        Some(l) => {
            push_str(&mut location_html, "<span class=\"post-location\">");
            push_str(&mut location_html, l);
            push_str(&mut location_html, "</span>");
        },
        None => {},
    }
    let mut r = String::new();
    if date.is_some() || chars_of(location_html.as_str()).len() > 0 {
        push_str(&mut r, "<div class=\"post-header\">");
        push_post_dates(&mut r, date, last_edited);
        push_str(&mut r, "<span class=\"post-read-time\">");
        let minutes = estimate_read_time(body);
        push_dec(&mut r, minutes as u64);
        push_str(&mut r, " min read</span>");
        push_str(&mut r, location_html.as_str());
        push_str(&mut r, "</div>\n");
        push_str(&mut r, content);
    } else {
        push_str(&mut r, content);
    }
    assert(r@ =~= spec_with_post_header(
        content@,
        opt_str_view(date),
        opt_str_view(last_edited),
        opt_str_view(location),
        body@,
    ));
    r
}

/// Posts on a listing page: the configured number, at least one.
pub fn effective_posts_per_page(configured: usize) -> (r: usize)
    ensures
        r == if configured == 0 {
            1
        } else {
            configured
        },
{
    if configured == 0 {
        1
    } else {
        configured
    }
}

/// `n` divided by `per_page`, rounded up.
pub open spec fn page_count(n: nat, per_page: nat) -> nat {
    n / per_page + if n % per_page == 0 {
        0nat
    } else {
        1nat
    }
}

/// The listing pages hold every post, and none is left empty: the last of
/// them starts before the last post and reaches it.
pub proof fn law_listing_pages_cover_posts(n: nat, per_page: nat)
    requires
        per_page > 0,
        n > 0,
    ensures
        page_count(n, per_page) >= 1,
        (page_count(n, per_page) - 1) * per_page < n <= page_count(n, per_page) * per_page,
{
    let q = n / per_page;
    let rem = n % per_page;
    assert(q * per_page + rem == n && 0 <= rem < per_page) by (nonlinear_arith)
        requires
            per_page > 0,
            q == n / per_page,
            rem == n % per_page,
    ;
    if rem == 0 {
        assert(q >= 1) by (nonlinear_arith)
            requires
                q * per_page == n,
                n > 0,
                per_page > 0,
        ;
        assert((q - 1) * per_page == q * per_page - per_page) by (nonlinear_arith);
    } else {
        assert((q + 1) * per_page == q * per_page + per_page) by (nonlinear_arith);
    }
}

/// How many listing pages `n` posts need at `per_page` a page (rounded up).
pub fn listing_page_count(n: usize, per_page: usize) -> (r: usize)
    requires
        per_page > 0,
    ensures
        r == page_count(n as nat, per_page as nat),
{
    let q = n / per_page;
    let rem = n % per_page;
    assert(q * per_page + rem == n && rem < per_page) by (nonlinear_arith)
        requires
            per_page > 0,
            q == n / per_page,
            rem == n % per_page,
    ;
    if rem == 0 {
        q
    } else {
        assert(q < usize::MAX) by (nonlinear_arith)
            requires
                q * per_page + rem == n,
                rem >= 1,
                rem < per_page,
                n <= usize::MAX,
        ;
        q + 1
    }
}

/// The title of page `n` of a listing.
pub open spec fn spec_paged_title(title: Seq<char>, n: nat) -> Seq<char> {
    title + " — Page "@ + dec(n)
}

/// The title of a later page of a listing.
pub fn paged_title(title: &str, n: usize) -> (r: String)
    ensures
        r@ == spec_paged_title(title@, n as nat),
{
    let mut r = String::new();
    push_str(&mut r, title);
    push_str(&mut r, " — Page ");
    push_dec(&mut r, n as u64);
    r
}

/// The URL of page `n` of a listing at `url`: the listing itself for the
/// first page, `n/` below it otherwise.
pub open spec fn spec_paged_url(url: Seq<char>, n: nat) -> Seq<char> {
    if n == 1 {
        url
    } else {
        url + dec(n) + "/"@
    }
}

/// The URL of a page of a listing.
pub fn paged_url(url: &str, n: usize) -> (r: String)
    ensures
        r@ == spec_paged_url(url@, n as nat),
{
    let mut r = String::new();
    push_str(&mut r, url);
    if n != 1 {
        push_dec(&mut r, n as u64);
        push_str(&mut r, "/");
    }
    r
}

/// The lines of the template kept for the not-found page: those naming no
/// `og:url` and no `canonical` link.
pub open spec fn kept_lines(ls: Seq<Seq<char>>) -> Seq<Seq<char>>
    decreases ls.len(),
{
    if ls.len() == 0 {
        Seq::empty()
    } else {
        let init = kept_lines(ls.drop_last());
        let l = ls.last();
        if find(l, "og:url"@) is None && find(l, "canonical"@) is None {
            init.push(l)
        } else {
            init
        }
    }
}

/// The template of the not-found page: the site template without the lines
/// that name the page's own URL.
pub open spec fn spec_not_found_template(template: Seq<char>) -> Seq<char> {
    join(kept_lines(lines(template)), "\n"@)
}

/// The template of the not-found page.
#[verifier::loop_isolation(false)]
pub fn not_found_template(template: &str) -> (r: String)
    ensures
        r@ == spec_not_found_template(template@),
{
    let v = chars_of(template);
    let n = v.len();
    assert(v@.subrange(0, n as int) == v@);
    let ghost ls = lines(v@);
    let rs = line_ranges(&v, 0, n);
    let og = chars_of("og:url");
    let canon = chars_of("canonical");
    let mut r = String::new();
    let mut count: usize = 0;
    let mut k: usize = 0;
    assert(ls.take(0) == Seq::<Seq<char>>::empty());
    while k < rs.len()
        invariant
            k <= rs.len(),
            count <= k,
            count == kept_lines(ls.take(k as int)).len(),
            r@ == join(kept_lines(ls.take(k as int)), "\n"@),
        decreases rs.len() - k,
    {
        let (a, b) = rs[k];
        assert(ls.take(k + 1).drop_last() == ls.take(k as int));
        assert(ls.take(k + 1).last() == ls[k as int]);
        if find_in(&v, a, b, &og).is_none() && find_in(&v, a, b, &canon).is_none() {
            let ghost before = r@;
            if count > 0 {
                push_str(&mut r, "\n");
            }
            push_range(&mut r, &v, a, b);
            proof {
                crate::text::lemma_join_push(kept_lines(ls.take(k as int)), "\n"@, ls[k as int]);
                if count > 0 {
                    assert(r@ =~= before + "\n"@ + ls[k as int]);
                }
            }
            count += 1;
        }
        k += 1;
    }
    assert(ls.take(rs.len() as int) == ls);
    r
}

/// The site template prepared once per build: the cache-busting stamp, the
/// year, the escaped author and the base URL filled in, the highlighting
/// style before `</head>`, the copy script before `</body>`, and image
/// references pointed at converted images.
pub open spec fn spec_prepare_template(
    template: Seq<char>,
    refresh: nat,
    year: nat,
    author: Seq<char>,
    base_url: Seq<char>,
    highlight_css: Seq<char>,
    converted: Seq<Seq<char>>,
) -> Seq<char> {
    let t = replace(
        replace(
            replace(
                replace(
                    replace(replace(template, "{{refresh_cache}}"@, dec(refresh)), "{{year}}"@, dec(year)),
                    "{{author}}"@,
                    spec_html_escape(author),
                ),
                "{{base_url}}"@,
                clean_base(base_url),
            ),
            "</head>"@,
            highlight_css + "</head>"@,
        ),
        "</body>"@,
        CODE_COPY_SCRIPT@ + "</body>"@,
    );
    spec_rewrite_image_refs(t, converted)
}

/// The site template as every page of a build uses it.
pub fn prepare_template(
    template: &str,
    refresh: u64,
    year: u32,
    author: &str,
    base_url: &str,
    highlight_css: &str,
    converted: &[String],
) -> (r: String)
    ensures
        r@ == spec_prepare_template(
            template@,
            refresh as nat,
            year as nat,
            author@,
            base_url@,
            highlight_css@,
            strings_view(converted@),
        ),
{
    proof {
        reveal_strlit("{{refresh_cache}}");
        reveal_strlit("{{year}}");
        reveal_strlit("{{author}}");
        reveal_strlit("{{base_url}}");
        reveal_strlit("</head>");
        reveal_strlit("</body>");
    }
    let mut base = String::new();
    push_clean_base(&mut base, base_url, false);
    let mut css = String::new();
    push_str(&mut css, highlight_css);
    push_str(&mut css, "</head>");
    let mut script = String::new();
    push_str(&mut script, CODE_COPY_SCRIPT);
    push_str(&mut script, "</body>");
    let a = replace_str(template, "{{refresh_cache}}", crate::text::dec_string(refresh).as_str());
    let b = replace_str(a.as_str(), "{{year}}", crate::text::dec_string(year as u64).as_str());
    let c = replace_str(b.as_str(), "{{author}}", html_escape(author).as_str());
    let d = replace_str(c.as_str(), "{{base_url}}", base.as_str());
    let e = replace_str(d.as_str(), "</head>", css.as_str());
    let f = replace_str(e.as_str(), "</body>", script.as_str());
    rewrite_image_refs(f.as_str(), converted)
}

/// The keywords of a page: its tags, comma-separated, HTML-escaped.
pub open spec fn spec_keywords(tags: Seq<Seq<char>>) -> Seq<char> {
    spec_html_escape(join(tags, ", "@))
}

/// The keywords meta content of a page.
pub fn keywords(tags: &Vec<String>) -> (r: String)
    ensures
        r@ == spec_keywords(strings_view(tags@)),
{
    let ghost ts = strings_view(tags@);
    let mut joined = String::new();
    let mut k: usize = 0;
    assert(ts.take(0) == Seq::<Seq<char>>::empty());
    while k < tags.len()
        invariant
            k <= tags.len(),
            ts == strings_view(tags@),
            joined@ == join(ts.take(k as int), ", "@),
        decreases tags.len() - k,
    {
        let ghost before = joined@;
        if k > 0 {
            push_str(&mut joined, ", ");
        }
        push_str(&mut joined, tags[k].as_str());
        proof {
            assert(ts.take(k + 1) == ts.take(k as int).push(tags@[k as int]@));
            crate::text::lemma_join_push(ts.take(k as int), ", "@, tags@[k as int]@);
            if k > 0 {
                assert(joined@ =~= before + ", "@ + tags@[k as int]@);
            }
        }
        k += 1;
    }
    assert(ts.take(tags.len() as int) == ts);
    html_escape(joined.as_str())
}

/// Pages `x` goes before in the date order: those with an earlier date
/// (no date counting as earliest).
pub open spec fn newer(x: PageView, y: PageView) -> bool {
    date_lt(y.meta.date, x.meta.date)
}

/// `x` inserted into the date-ordered list before the first page it is newer than.
pub open spec fn insert_by_date(sorted: Seq<PageView>, x: PageView) -> Seq<PageView>
    decreases sorted.len(),
{
    if sorted.len() == 0 {
        seq![x]
    } else if newer(x, sorted[0]) {
        seq![x] + sorted
    } else {
        seq![sorted[0]] + insert_by_date(sorted.drop_first(), x)
    }
}

/// The pages ordered newest first, undated pages last, keeping their order
/// among equal dates (a stable sort).
pub open spec fn sort_by_date(ps: Seq<PageView>) -> Seq<PageView>
    decreases ps.len(),
{
    if ps.len() == 0 {
        Seq::empty()
    } else {
        insert_by_date(sort_by_date(ps.drop_last()), ps.last())
    }
}

proof fn lemma_insert_by_date_at(sorted: Seq<PageView>, x: PageView, p: int)
    requires
        0 <= p <= sorted.len(),
        forall|j: int| 0 <= j < p ==> !newer(x, #[trigger] sorted[j]),
        p < sorted.len() ==> newer(x, sorted[p]),
    ensures
        insert_by_date(sorted, x) == sorted.insert(p, x),
    decreases p,
{
    if p == 0 {
        if sorted.len() == 0 {
            assert(sorted.insert(0, x) == seq![x]);
        } else {
            assert(sorted.insert(0, x) == seq![x] + sorted);
        }
    } else {
        let rest = sorted.drop_first();
        assert forall|j: int| 0 <= j < p - 1 implies !newer(x, #[trigger] rest[j]) by {
            assert(rest[j] == sorted[j + 1]);
        }
        if p - 1 < rest.len() {
            assert(rest[p - 1] == sorted[p]);
        }
        lemma_insert_by_date_at(rest, x, p - 1);
        assert(seq![sorted[0]] + rest.insert(p - 1, x) == sorted.insert(p, x));
    }
}

/// Where `insert_by_date` puts `x`: after every page it is not newer than,
/// before the first one it is.
proof fn lemma_insert_by_date_pos(sorted: Seq<PageView>, x: PageView) -> (p: int)
    ensures
        0 <= p <= sorted.len(),
        forall|j: int| 0 <= j < p ==> !newer(x, #[trigger] sorted[j]),
        p < sorted.len() ==> newer(x, sorted[p]),
        insert_by_date(sorted, x) == sorted.insert(p, x),
    decreases sorted.len(),
{
    if sorted.len() == 0 || newer(x, sorted[0]) {
        lemma_insert_by_date_at(sorted, x, 0);
        0
    } else {
        let rest = sorted.drop_first();
        let q = lemma_insert_by_date_pos(rest, x);
        assert forall|j: int| 0 <= j < q + 1 implies !newer(x, #[trigger] sorted[j]) by {
            if j > 0 {
                assert(sorted[j] == rest[j - 1]);
            }
        }
        if q + 1 < sorted.len() {
            assert(sorted[q + 1] == rest[q]);
        }
        lemma_insert_by_date_at(sorted, x, q + 1);
        q + 1
    }
}

/// No page of `s` is newer than one before it: newest first, undated last.
pub open spec fn sorted_by_date(s: Seq<PageView>) -> bool {
    forall|i: int, j: int| 0 <= i < j < s.len() ==> !newer(#[trigger] s[j], #[trigger] s[i])
}

#[verifier::rlimit(40)]
proof fn lemma_insert_keeps_sorted(s: Seq<PageView>, x: PageView)
    requires
        sorted_by_date(s),
    ensures
        sorted_by_date(insert_by_date(s, x)),
        insert_by_date(s, x).to_multiset() == s.to_multiset().insert(x),
{
    let p = lemma_insert_by_date_pos(s, x);
    let r = s.insert(p, x);
    vstd::seq_lib::to_multiset_insert(s, p, x);
    assert forall|i: int, j: int| 0 <= i < j < r.len() implies !newer(#[trigger] r[j], #[trigger] r[i]) by {
        if j < p {
            assert(r[i] == s[i] && r[j] == s[j]);
        } else if j == p {
            assert(r[i] == s[i]);
        } else if i == p {
            assert(r[j] == s[j - 1]);
            crate::render::lemma_date_lt_order(s[p].meta.date, x.meta.date, s[j - 1].meta.date);
            crate::render::lemma_date_lt_order(x.meta.date, s[j - 1].meta.date, x.meta.date);
            if j - 1 > p {
                assert(!newer(s[j - 1], s[p]));
            }
        } else if i < p {
            assert(r[i] == s[i] && r[j] == s[j - 1]);
        } else {
            assert(r[i] == s[i - 1] && r[j] == s[j - 1]);
        }
    }
}

/// Ordering pages by date keeps every page exactly as often as it was
/// given, and puts them newest first with the undated ones last.
pub proof fn law_sort_by_date(ps: Seq<PageView>)
    ensures
        sort_by_date(ps).to_multiset() == ps.to_multiset(),
        sorted_by_date(sort_by_date(ps)),
        forall|i: int, j: int|
            0 <= i < j < sort_by_date(ps).len() && (#[trigger] sort_by_date(ps)[i]).meta.date is None
                ==> (#[trigger] sort_by_date(ps)[j]).meta.date is None,
    decreases ps.len(),
{
    let r = sort_by_date(ps);
    if ps.len() == 0 {
        assert(r =~= ps);
    } else {
        law_sort_by_date(ps.drop_last());
        lemma_insert_keeps_sorted(sort_by_date(ps.drop_last()), ps.last());
        vstd::seq_lib::to_multiset_build(ps.drop_last(), ps.last());
        assert(ps.drop_last().push(ps.last()) == ps);
    }
    assert forall|i: int, j: int|
        0 <= i < j < r.len() && (#[trigger] r[i]).meta.date is None implies (#[trigger] r[j]).meta.date is None by {
        assert(!newer(r[j], r[i]));
    }
}

/// The pages of `ps` with date `d`, in their order.
pub open spec fn with_date(ps: Seq<PageView>, d: Option<Seq<char>>) -> Seq<PageView>
    decreases ps.len(),
{
    if ps.len() == 0 {
        Seq::empty()
    } else if ps.last().meta.date == d {
        with_date(ps.drop_last(), d).push(ps.last())
    } else {
        with_date(ps.drop_last(), d)
    }
}

proof fn lemma_with_date_concat(a: Seq<PageView>, b: Seq<PageView>, d: Option<Seq<char>>)
    ensures
        with_date(a + b, d) == with_date(a, d) + with_date(b, d),
    decreases b.len(),
{
    if b.len() == 0 {
        assert(a + b == a);
        assert(with_date(a, d) + with_date(b, d) == with_date(a, d));
    } else {
        lemma_with_date_concat(a, b.drop_last(), d);
        assert((a + b).drop_last() == a + b.drop_last());
        assert((a + b).last() == b.last());
    }
}

proof fn lemma_with_date_none(s: Seq<PageView>, d: Option<Seq<char>>)
    requires
        forall|j: int| 0 <= j < s.len() ==> (#[trigger] s[j]).meta.date != d,
    ensures
        with_date(s, d) == Seq::<PageView>::empty(),
    decreases s.len(),
{
    if s.len() > 0 {
        assert(s.last() == s[s.len() - 1]);
        lemma_with_date_none(s.drop_last(), d);
    }
}

proof fn lemma_insert_by_date_stable(s: Seq<PageView>, x: PageView, d: Option<Seq<char>>)
    requires
        sorted_by_date(s),
    ensures
        with_date(insert_by_date(s, x), d) == if x.meta.date == d {
            with_date(s, d).push(x)
        } else {
            with_date(s, d)
        },
{
    let p = lemma_insert_by_date_pos(s, x);
    let pre = s.take(p);
    let post = s.skip(p);
    assert(s.insert(p, x) == pre + seq![x] + post);
    assert(s == pre + post);
    lemma_with_date_concat(pre + seq![x], post, d);
    lemma_with_date_concat(pre, seq![x], d);
    lemma_with_date_concat(pre, post, d);
    assert(seq![x].drop_last() == Seq::<PageView>::empty());
    assert(with_date(Seq::<PageView>::empty(), d) == Seq::<PageView>::empty());
    let wpre = with_date(pre, d);
    let wpost = with_date(post, d);
    if x.meta.date == d {
        assert(with_date(seq![x], d) == seq![x]);
    } else {
        assert(with_date(seq![x], d) == Seq::<PageView>::empty());
        assert(wpre + Seq::<PageView>::empty() == wpre);
    }
    if x.meta.date == d {
        assert forall|j: int| 0 <= j < post.len() implies (#[trigger] post[j]).meta.date != d by {
            assert(post[j] == s[p + j]);
            crate::render::lemma_date_lt_order(s[p].meta.date, s[p].meta.date, s[p].meta.date);
            if j > 0 {
                assert(!newer(s[p + j], s[p]));
            }
        }
        lemma_with_date_none(post, d);
        assert(wpre + seq![x] + wpost =~= wpre.push(x));
        assert(wpre + wpost =~= wpre);
    }
}

/// Ordering pages by date keeps the order of pages with the same date: the
/// pages with any one date come out in the order they were given.
pub proof fn law_sort_by_date_is_stable(ps: Seq<PageView>, d: Option<Seq<char>>)
    ensures
        with_date(sort_by_date(ps), d) == with_date(ps, d),
    decreases ps.len(),
{
    if ps.len() > 0 {
        law_sort_by_date_is_stable(ps.drop_last(), d);
        law_sort_by_date(ps.drop_last());
        lemma_insert_by_date_stable(sort_by_date(ps.drop_last()), ps.last(), d);
    }
}

/// Whether page `a` is newer than page `b`.
fn is_newer(a: &PageInfo, b: &PageInfo) -> (r: bool)
    ensures
        r == newer(a@, b@),
{
    crate::render::date_less(&b.meta.date, &a.meta.date)
}

/// Orders pages newest first, undated pages last, keeping the order of pages
/// with equal dates.
pub fn sort_pages_by_date(pages: Vec<PageInfo>) -> (r: Vec<PageInfo>)
    ensures
        crate::render::page_views(r@) == sort_by_date(crate::render::page_views(pages@)),
{
    let ghost ps = crate::render::page_views(pages@);
    let mut rest = pages;
    let mut sorted: Vec<PageInfo> = Vec::new();
    let mut k: usize = 0;
    let n = rest.len();
    assert(ps.take(0) == Seq::<PageView>::empty());
    assert(crate::render::page_views(sorted@) == Seq::<PageView>::empty());
    while rest.len() > 0
        invariant
            k + rest.len() == n,
            n == ps.len(),
            k <= n,
            crate::render::page_views(rest@) == ps.skip(k as int),
            crate::render::page_views(sorted@) == sort_by_date(ps.take(k as int)),
        decreases rest.len(),
    {
        let ghost rv = crate::render::page_views(rest@);
        let x = rest.remove(0);
        assert(x@ == rv[0]);
        assert(crate::render::page_views(rest@) == rv.drop_first());
        assert(ps.skip(k as int).drop_first() == ps.skip(k + 1));
        assert(ps.take(k + 1).drop_last() == ps.take(k as int));
        assert(ps.take(k + 1).last() == ps[k as int]);
        assert(ps[k as int] == rv[0]);
        let ghost sv = crate::render::page_views(sorted@);
        let mut pos: usize = 0;
        while pos < sorted.len()
            invariant
                pos <= sorted.len(),
                sv == crate::render::page_views(sorted@),
                forall|j: int| 0 <= j < pos ==> !newer(x@, #[trigger] sv[j]),
            ensures
                pos <= sorted.len(),
                forall|j: int| 0 <= j < pos ==> !newer(x@, #[trigger] sv[j]),
                pos < sorted.len() ==> newer(x@, sv[pos as int]),
            decreases sorted.len() - pos,
        {
            assert(sv[pos as int] == sorted@[pos as int]@);
            if is_newer(&x, &sorted[pos]) {
                break;
            }
            pos += 1;
        }
        proof {
            if pos < sorted.len() {
                assert(newer(x@, sv[pos as int]));
            }
            lemma_insert_by_date_at(sv, x@, pos as int);
        }
        sorted.insert(pos, x);
        assert(crate::render::page_views(sorted@) == sv.insert(pos as int, x@));
        k += 1;
    }
    assert(ps.take(n as int) == ps);
    sorted
}

/// `x` added to the ordered list of distinct tags `l`, in code point order.
pub open spec fn insert_tag(l: Seq<Seq<char>>, x: Seq<char>) -> Seq<Seq<char>>
    decreases l.len(),
{
    if l.len() == 0 {
        seq![x]
    } else if l[0] == x {
        l
    } else if text_lt(x, l[0]) {
        seq![x] + l
    } else {
        seq![l[0]] + insert_tag(l.drop_first(), x)
    }
}

/// The distinct tags of a list, in code point order.
pub open spec fn tag_set(tags: Seq<Seq<char>>) -> Seq<Seq<char>>
    decreases tags.len(),
{
    if tags.len() == 0 {
        Seq::empty()
    } else {
        insert_tag(tag_set(tags.drop_last()), tags.last())
    }
}

/// All tags of the pages, in page order.
pub open spec fn all_tags(ps: Seq<PageView>) -> Seq<Seq<char>>
    decreases ps.len(),
{
    if ps.len() == 0 {
        Seq::empty()
    } else {
        all_tags(ps.drop_last()) + ps.last().meta.tags
    }
}

/// Each text comes before the next, so none is repeated.
pub open spec fn strictly_ordered(l: Seq<Seq<char>>) -> bool {
    forall|i: int, j: int| 0 <= i < j < l.len() ==> text_lt(#[trigger] l[i], #[trigger] l[j])
}

#[verifier::rlimit(40)]
proof fn lemma_insert_tag(l: Seq<Seq<char>>, x: Seq<char>)
    requires
        strictly_ordered(l),
    ensures
        strictly_ordered(insert_tag(l, x)),
        forall|t: Seq<char>| #[trigger] insert_tag(l, x).contains(t) <==> (l.contains(t) || t == x),
    decreases l.len(),
{
    let r = insert_tag(l, x);
    if l.len() == 0 {
        assert(r[0] == x);
    } else if l[0] == x {
    } else if text_lt(x, l[0]) {
        assert forall|i: int, j: int| 0 <= i < j < r.len() implies text_lt(#[trigger] r[i], #[trigger] r[j]) by {
            if i == 0 {
                assert(r[j] == l[j - 1]);
                if j > 1 {
                    crate::render::lemma_text_lt_transitive(x, l[0], l[j - 1]);
                }
            } else {
                assert(r[i] == l[i - 1] && r[j] == l[j - 1]);
            }
        }
        assert forall|t: Seq<char>| r.contains(t) <==> (l.contains(t) || t == x) by {
            if r.contains(t) {
                let k = choose|k: int| 0 <= k < r.len() && r[k] == t;
                if k > 0 {
                    assert(l[k - 1] == t);
                }
            }
            if l.contains(t) {
                let k = choose|k: int| 0 <= k < l.len() && l[k] == t;
                assert(r[k + 1] == t);
            }
            if t == x {
                assert(r[0] == t);
            }
        }
    } else {
        let rest = l.drop_first();
        assert forall|i: int, j: int| 0 <= i < j < rest.len() implies text_lt(#[trigger] rest[i], #[trigger] rest[j]) by {
            assert(rest[i] == l[i + 1] && rest[j] == l[j + 1]);
        }
        lemma_insert_tag(rest, x);
        let ins = insert_tag(rest, x);
        crate::render::lemma_text_lt_total(x, l[0]);
        assert(r == seq![l[0]] + ins);
        assert forall|t: Seq<char>| r.contains(t) <==> (l.contains(t) || t == x) by {
            if r.contains(t) {
                let k = choose|k: int| 0 <= k < r.len() && r[k] == t;
                if k > 0 {
                    assert(ins[k - 1] == t);
                    assert(ins.contains(t));
                    if rest.contains(t) {
                        let m = choose|m: int| 0 <= m < rest.len() && rest[m] == t;
                        assert(l[m + 1] == t);
                    }
                } else {
                    assert(l[0] == t);
                }
            }
            if l.contains(t) {
                let k = choose|k: int| 0 <= k < l.len() && l[k] == t;
                if k > 0 {
                    assert(rest[k - 1] == t);
                    assert(rest.contains(t));
                    assert(ins.contains(t));
                    let m = choose|m: int| 0 <= m < ins.len() && ins[m] == t;
                    assert(r[m + 1] == t);
                } else {
                    assert(r[0] == t);
                }
            }
            if t == x {
                assert(ins.contains(t));
                let m = choose|m: int| 0 <= m < ins.len() && ins[m] == t;
                assert(r[m + 1] == t);
            }
        }
        assert forall|i: int, j: int| 0 <= i < j < r.len() implies text_lt(#[trigger] r[i], #[trigger] r[j]) by {
            if i == 0 {
                assert(r[j] == ins[j - 1]);
                assert(ins.contains(ins[j - 1]));
                if rest.contains(ins[j - 1]) {
                    let m = choose|m: int| 0 <= m < rest.len() && rest[m] == ins[j - 1];
                    assert(l[m + 1] == ins[j - 1]);
                }
            } else {
                assert(r[i] == ins[i - 1] && r[j] == ins[j - 1]);
            }
        }
    }
}

proof fn lemma_all_tags_contains(ps: Seq<PageView>, t: Seq<char>)
    ensures
        all_tags(ps).contains(t) <==> exists|i: int| 0 <= i < ps.len() && (#[trigger] ps[i]).meta.tags.contains(t),
    decreases ps.len(),
{
    if ps.len() > 0 {
        let init = ps.drop_last();
        let a = all_tags(init);
        let b = ps.last().meta.tags;
        lemma_all_tags_contains(init, t);
        if all_tags(ps).contains(t) {
            let k = choose|k: int| 0 <= k < all_tags(ps).len() && all_tags(ps)[k] == t;
            if k < a.len() {
                assert(a[k] == t);
                let i = choose|i: int| 0 <= i < init.len() && (#[trigger] init[i]).meta.tags.contains(t);
                assert(ps[i] == init[i]);
            } else {
                assert(b[k - a.len()] == t);
                assert(ps[ps.len() - 1].meta.tags.contains(t));
            }
        }
        if exists|i: int| 0 <= i < ps.len() && (#[trigger] ps[i]).meta.tags.contains(t) {
            let i = choose|i: int| 0 <= i < ps.len() && (#[trigger] ps[i]).meta.tags.contains(t);
            if i < init.len() {
                assert(init[i] == ps[i]);
                assert(a.contains(t));
                let k = choose|k: int| 0 <= k < a.len() && a[k] == t;
                assert(all_tags(ps)[k] == t);
            } else {
                let k = choose|k: int| 0 <= k < b.len() && b[k] == t;
                assert(all_tags(ps)[a.len() + k] == t);
            }
        }
    }
}

proof fn lemma_tag_set(tags: Seq<Seq<char>>)
    ensures
        strictly_ordered(tag_set(tags)),
        forall|t: Seq<char>| #[trigger] tag_set(tags).contains(t) <==> tags.contains(t),
    decreases tags.len(),
{
    if tags.len() > 0 {
        lemma_tag_set(tags.drop_last());
        lemma_insert_tag(tag_set(tags.drop_last()), tags.last());
        assert forall|t: Seq<char>| tags.contains(t) <==> (tags.drop_last().contains(t) || t == tags.last()) by {
            if tags.contains(t) {
                let k = choose|k: int| 0 <= k < tags.len() && tags[k] == t;
                if k < tags.len() - 1 {
                    assert(tags.drop_last()[k] == t);
                }
            }
            if tags.drop_last().contains(t) {
                let k = choose|k: int| 0 <= k < tags.len() - 1 && tags.drop_last()[k] == t;
                assert(tags[k] == t);
            }
        }
    }
}

/// The tags listed for a section come in code point order, each once, and
/// are exactly the tags that its pages carry.
pub proof fn law_sorted_unique_tags(ps: Seq<PageView>)
    ensures
        strictly_ordered(tag_set(all_tags(ps))),
        forall|t: Seq<char>|
            #[trigger] tag_set(all_tags(ps)).contains(t) <==> exists|i: int|
                0 <= i < ps.len() && (#[trigger] ps[i]).meta.tags.contains(t),
{
    lemma_tag_set(all_tags(ps));
    assert forall|t: Seq<char>|
        #[trigger] tag_set(all_tags(ps)).contains(t) <==> exists|i: int|
            0 <= i < ps.len() && (#[trigger] ps[i]).meta.tags.contains(t) by {
        lemma_all_tags_contains(ps, t);
    }
}

/// Whether text `a` comes before `b`.
pub fn text_less(a: &str, b: &str) -> (r: bool)
    ensures
        r == text_lt(a@, b@),
{
    let sa = Some(a.to_owned());
    let sb = Some(b.to_owned());
    crate::render::date_less(&sa, &sb)
}

proof fn lemma_insert_tag_at(l: Seq<Seq<char>>, x: Seq<char>, p: int)
    requires
        0 <= p <= l.len(),
        forall|j: int| 0 <= j < p ==> #[trigger] l[j] != x && !text_lt(x, l[j]),
        p < l.len() ==> l[p] == x || text_lt(x, l[p]),
    ensures
        insert_tag(l, x) == if p < l.len() && l[p] == x {
            l
        } else {
            l.insert(p, x)
        },
    decreases p,
{
    if p == 0 {
        if l.len() == 0 {
            assert(l.insert(0, x) == seq![x]);
        } else if l[0] != x {
            assert(l.insert(0, x) == seq![x] + l);
        }
    } else {
        let rest = l.drop_first();
        assert forall|j: int| 0 <= j < p - 1 implies #[trigger] rest[j] != x && !text_lt(x, rest[j]) by {
            assert(rest[j] == l[j + 1]);
        }
        if p - 1 < rest.len() {
            assert(rest[p - 1] == l[p]);
        }
        lemma_insert_tag_at(rest, x, p - 1);
        if p < l.len() && l[p] == x {
            assert(seq![l[0]] + rest == l);
        } else {
            assert(seq![l[0]] + rest.insert(p - 1, x) == l.insert(p, x));
        }
    }
}

/// The distinct tags of the pages, in code point order (as a `BTreeSet`
/// of `String`s orders them).
pub fn sorted_unique_tags(pages: &[&PageInfo]) -> (r: Vec<String>)
    ensures
        strings_view(r@) == tag_set(all_tags(crate::render::ref_views(pages@))),
{
    let ghost ps = crate::render::ref_views(pages@);
    let mut r: Vec<String> = Vec::new();
    let mut i: usize = 0;
    let ghost mut seen: Seq<Seq<char>> = Seq::empty();
    assert(ps.take(0) == Seq::<PageView>::empty());
    assert(strings_view(r@) == Seq::<Seq<char>>::empty());
    while i < pages.len()
        invariant
            i <= pages.len(),
            ps == crate::render::ref_views(pages@),
            seen == all_tags(ps.take(i as int)),
            strings_view(r@) == tag_set(seen),
        decreases pages.len() - i,
    {
        let tags = &pages[i].meta.tags;
        let ghost ts = strings_view(tags@);
        assert(ps.take(i + 1).drop_last() == ps.take(i as int));
        assert(ps.take(i + 1).last().meta.tags == ts);
        let mut k: usize = 0;
        let ghost base = seen;
        assert(base + ts.take(0) == base);
        while k < tags.len()
            invariant
                k <= tags.len(),
                ts == strings_view(tags@),
                seen == base + ts.take(k as int),
                strings_view(r@) == tag_set(seen),
            decreases tags.len() - k,
        {
            let t = tags[k].as_str();
            let ghost rv = strings_view(r@);
            let mut p: usize = 0;
            let mut dup = false;
            while p < r.len()
                invariant
                    p <= r.len(),
                    rv == strings_view(r@),
                    forall|j: int| 0 <= j < p ==> #[trigger] rv[j] != t@ && !text_lt(t@, rv[j]),
                    dup ==> p < r.len() && rv[p as int] == t@,
                ensures
                    p <= r.len(),
                    forall|j: int| 0 <= j < p ==> #[trigger] rv[j] != t@ && !text_lt(t@, rv[j]),
                    p < r.len() ==> rv[p as int] == t@ || text_lt(t@, rv[p as int]),
                    dup ==> p < r.len() && rv[p as int] == t@,
                    !dup && p < r.len() ==> rv[p as int] != t@,
                decreases r.len() - p,
            {
                assert(rv[p as int] == r@[p as int]@);
                if str_eq(r[p].as_str(), t) {
                    dup = true;
                    break;
                }
                if text_less(t, r[p].as_str()) {
                    break;
                }
                p += 1;
            }
            proof {
                lemma_insert_tag_at(rv, t@, p as int);
                assert(seen.push(t@) == base + ts.take(k + 1));
                assert((base + ts.take(k + 1)).drop_last() == seen);
            }
            if !dup {
                r.insert(p, tags[k].clone());
                assert(strings_view(r@) == rv.insert(p as int, t@));
            }
            proof {
                let ns = seen.push(t@);
                assert(ns.drop_last() == seen);
                assert(ns.last() == t@);
                assert(tag_set(ns) == insert_tag(tag_set(seen), t@));
                assert(strings_view(r@) == tag_set(ns));
                seen = ns;
            }
            k += 1;
        }
        assert(ts.take(tags.len() as int) == ts);
        i += 1;
    }
    assert(ps.take(pages.len() as int) == ps);
    r
}

} // verus!
