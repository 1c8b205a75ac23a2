//! What a build publishes: which pages, the document written for each page,
//! each listing page and each tag page, where each is written, and the
//! sitemap's entries.
use vstd::prelude::*;
use crate::frontmatter::{opt_view, strings_view, PageInfo, PageView, SiteConfig};
use crate::highlight::syntect_html;
use crate::images::{rewrite_image_refs, spec_rewrite_image_refs};
use crate::listing::{
    listing_siblings, siblings_of,
    all_tag_slugs, chunk_bounds, chunk_end, chunk_start, distinct, first_section_key, section_members,
    section_tags, spec_first_section, tag_slugs, tagged, tagged_pages,
};
use crate::render::{
    dates_in_range, generate_robots_txt, generate_rss, generate_sitemap, spec_robots_txt, spec_rss, spec_sitemap,
    apply_article_meta, clean_base, generate_pagination_nav, generate_post_list, generate_tag_nav,
    opt_str_view, page_views, ref_views, render_page, section_url_for_pages, spec_apply_article_meta,
    spec_pagination_nav, spec_post_list, spec_render_page, spec_section_url, spec_tag_nav, str_eq, url_views,
};
use crate::site::{
    all_tags, full_url, keywords, og_image_url, page_content, page_count, paged_title, paged_url,
    not_found_template, sorted_unique_tags, spec_keywords, spec_not_found_template, spec_og_image,
    spec_page_content, spec_paged_title, spec_paged_url, spec_with_post_header, tag_set, with_post_header,
};
use crate::text::{chars_of, dec, ends_with, push_dec, push_range, push_str};
use crate::utils::{component_ranges, html_escape, path_components, path_to_url, spec_html_escape, spec_path_to_url};
use syntect::parsing::SyntaxSet;

verus! {

// ---------------------------------------------------------------------------
// The pages a build publishes
// ---------------------------------------------------------------------------

/// The pages that are not drafts, in order.
pub open spec fn drop_drafts(ps: Seq<PageView>) -> Seq<PageView>
    decreases ps.len(),
{
    if ps.len() == 0 {
        Seq::empty()
    } else if ps.last().meta.draft {
        drop_drafts(ps.drop_last())
    } else {
        drop_drafts(ps.drop_last()).push(ps.last())
    }
}

/// The pages a build publishes: all but the drafts, in the order given.
pub fn published(pages: Vec<PageInfo>) -> (r: Vec<PageInfo>)
    ensures
        page_views(r@) == drop_drafts(page_views(pages@)),
{
    let ghost ps = page_views(pages@);
    let n = pages.len();
    let mut rest = pages;
    let mut kept: Vec<PageInfo> = Vec::new();
    let mut k: usize = 0;
    assert(ps.take(0) == Seq::<PageView>::empty());
    assert(ps.skip(0) == ps);
    while rest.len() > 0
        invariant
            k + rest.len() == n,
            n == ps.len(),
            page_views(rest@) == ps.skip(k as int),
            page_views(kept@) == drop_drafts(ps.take(k as int)),
        decreases rest.len(),
    {
        let ghost rv = page_views(rest@);
        let p = rest.remove(0);
        assert(p@ == rv[0]);
        assert(page_views(rest@) == rv.drop_first());
        assert(ps.skip(k as int).drop_first() == ps.skip(k + 1));
        assert(ps.take(k + 1).drop_last() == ps.take(k as int));
        assert(ps.take(k + 1).last() == ps[k as int]);
        assert(ps[k as int] == rv[0]);
        if !p.meta.draft {
            let ghost before = kept@;
            kept.push(p);
            assert(page_views(kept@) == page_views(before).push(rv[0]));
        }
        k += 1;
    }
    assert(ps.take(n as int) == ps);
    kept
}

/// A build publishes exactly the pages that are not drafts.
pub proof fn law_drafts_are_not_published(ps: Seq<PageView>, p: PageView)
    ensures
        drop_drafts(ps).contains(p) <==> ps.contains(p) && !p.meta.draft,
    decreases ps.len(),
{
    if ps.len() > 0 {
        let init = ps.drop_last();
        law_drafts_are_not_published(init, p);
        let d = drop_drafts(init);
        if drop_drafts(ps).contains(p) {
            let k = choose|k: int| 0 <= k < drop_drafts(ps).len() && drop_drafts(ps)[k] == p;
            if k < d.len() {
                assert(d[k] == p);
                let m = choose|m: int| 0 <= m < init.len() && init[m] == p;
                assert(ps[m] == p);
            } else {
                assert(ps[ps.len() - 1] == p);
            }
        }
        if ps.contains(p) && !p.meta.draft {
            let m = choose|m: int| 0 <= m < ps.len() && ps[m] == p;
            if m < init.len() {
                assert(init[m] == p);
                let k = choose|k: int| 0 <= k < d.len() && d[k] == p;
                assert(drop_drafts(ps)[k] == p);
            } else {
                assert(drop_drafts(ps)[d.len() as int] == p);
            }
        }
    }
}

// ---------------------------------------------------------------------------
// What each page shows
// ---------------------------------------------------------------------------

/// The content of a page as published: its body rendered and highlighted,
/// with the post header of a dated or located page.
pub open spec fn spec_page_body(ss: SyntaxSet, p: PageView) -> Seq<char> {
    spec_with_post_header(
        spec_page_content(ss, p.body, p.is_md),
        p.meta.date,
        p.meta.last_edited,
        p.meta.location,
        p.body,
    )
}

fn as_str_opt(o: &Option<String>) -> (r: Option<&str>)
    ensures
        opt_str_view(r) == opt_view(*o),
{
    match o {
        Some(s) => Some(s.as_str()),
        None => None,
    }
}

/// The content of a page as published; `None` when one of its code blocks
/// is malformed (see `page_content`).
pub fn page_body(page: &PageInfo, ss: &SyntaxSet) -> (r: Option<String>)
    ensures
        r is None <==> !crate::highlight::code_blocks_well_formed(crate::site::source_html(page.body@, page.is_md)),
        r matches Some(c) ==> c@ == spec_page_body(*ss, page@),
{
    match page_content(page.body.as_str(), page.is_md, ss) {
        Some(c) => Some(
            with_post_header(
                c.as_str(),
                as_str_opt(&page.meta.date),
                as_str_opt(&page.meta.last_edited),
                as_str_opt(&page.meta.location),
                page.body.as_str(),
            ),
        ),
        None => None,
    }
}

/// Posts on a listing page: the configured number, at least one.
pub open spec fn per_page(c: SiteConfig) -> nat {
    if c.posts_per_page == 0 {
        1
    } else {
        c.posts_per_page as nat
    }
}

/// A page's title as shown: its own or the site's, escaped.
pub open spec fn shown_title(c: SiteConfig, p: PageView) -> Seq<char> {
    spec_html_escape(
        match p.meta.title {
            Some(t) => t,
            None => c.title@,
        },
    )
}

/// A page's description as shown: its own or the site's, escaped.
pub open spec fn shown_description(c: SiteConfig, p: PageView) -> Seq<char> {
    spec_html_escape(
        match p.meta.description {
            Some(d) => d,
            None => c.description@,
        },
    )
}

/// A page's language: its own, `en` by default.
pub open spec fn page_lang(p: PageView) -> Seq<char> {
    match p.meta.language {
        Some(l) => l,
        None => "en"@,
    }
}

/// The last component of a directory (what `Path::file_name` gives), or
/// nothing: the navigation entry a page marks as active.
pub open spec fn dir_name(dir: Seq<char>) -> Seq<char> {
    let cs = path_components(dir);
    if cs.len() > 0 && cs.last() != "/"@ && cs.last() != "."@ && cs.last() != ".."@ {
        cs.last()
    } else {
        Seq::empty()
    }
}

/// The template filled in for page `p` with the given title, URL and
/// content, and its image references pointing to the converted images.
pub open spec fn site_page(
    c: SiteConfig,
    template: Seq<char>,
    p: PageView,
    title: Seq<char>,
    url: Seq<char>,
    content: Seq<char>,
    converted: Seq<Seq<char>>,
) -> Seq<char> {
    spec_rewrite_image_refs(
        spec_render_page(
            template,
            title,
            shown_description(c, p),
            spec_keywords(p.meta.tags),
            url,
            spec_og_image(p.meta.og_image, opt_view(c.og_image), c.base_url@),
            dir_name(p.relative_dir),
            content,
            page_lang(p),
        ),
        converted,
    )
}

fn directory_name(dir: &str) -> (r: String)
    ensures
        r@ == dir_name(dir@),
{
    let v = chars_of(dir);
    assert(v@.subrange(0, v.len() as int) == v@);
    let comps = component_ranges(&v, 0, v.len());
    let mut r = String::new();
    if comps.len() > 0 {
        let (a, b) = comps[comps.len() - 1];
        let last = crate::text::string_of(&v, a, b);
        proof {
            reveal_strlit("/");
            reveal_strlit(".");
            reveal_strlit("..");
        }
        if !str_eq(last.as_str(), "/") && !str_eq(last.as_str(), ".") && !str_eq(last.as_str(), "..") {
            push_str(&mut r, last.as_str());
        }
    }
    r
}

fn fill_page(
    config: &SiteConfig,
    template: &str,
    page: &PageInfo,
    title: &str,
    url: &str,
    content: &str,
    converted: &[String],
) -> (r: String)
    ensures
        r@ == site_page(*config, template@, page@, title@, url@, content@, strings_view(converted@)),
{
    let t = match &page.meta.description {
        Some(d) => html_escape(d.as_str()),
        None => html_escape(config.description.as_str()),
    };
    let kw = keywords(&page.meta.tags);
    let og = og_image_url(as_str_opt(&page.meta.og_image), as_str_opt(&config.og_image), config.base_url.as_str());
    let name = directory_name(page.relative_dir.as_str());
    let lang = match &page.meta.language {
        Some(l) => l.as_str(),
        None => "en",
    };
    let html = render_page(template, title, t.as_str(), kw.as_str(), url, og.as_str(), name.as_str(), content, lang);
    rewrite_image_refs(html.as_str(), converted)
}

fn title_of(config: &SiteConfig, page: &PageInfo) -> (r: String)
    ensures
        r@ == shown_title(*config, page@),
{
    match &page.meta.title {
        Some(t) => html_escape(t.as_str()),
        None => html_escape(config.title.as_str()),
    }
}

// ---------------------------------------------------------------------------
// Documents
// ---------------------------------------------------------------------------

/// The document of a page that is not a section index: the page, marked as
/// an article with its dates when it is dated.
pub open spec fn spec_article_document(
    c: SiteConfig,
    template: Seq<char>,
    p: PageView,
    content: Seq<char>,
    converted: Seq<Seq<char>>,
) -> Seq<char> {
    let html = site_page(c, template, p, shown_title(c, p), p.full_url, content, converted);
    match p.meta.date {
        Some(d) => spec_apply_article_meta(html, d, p.meta.last_edited, c.author@),
        None => html,
    }
}

/// The document written for a page that is not a section index.
pub fn article_document(
    config: &SiteConfig,
    template: &str,
    page: &PageInfo,
    content: &str,
    converted: &[String],
) -> (r: String)
    ensures
        r@ == spec_article_document(*config, template@, page@, content@, strings_view(converted@)),
{
    let title = title_of(config, page);
    let html = fill_page(config, template, page, title.as_str(), page.full_url.as_str(), content, converted);
    match &page.meta.date {
        Some(d) => apply_article_meta(
            html.as_str(),
            d.as_str(),
            as_str_opt(&page.meta.last_edited),
            config.author.as_str(),
        ),
        None => html,
    }
}

/// How many listing pages a section index has: one even without posts.
pub open spec fn index_page_count(n: nat, per: nat) -> nat {
    if n == 0 {
        1
    } else {
        page_count(n, per)
    }
}

/// How many listing pages a section index with `n` posts has.
pub fn index_pages(config: &SiteConfig, n: usize) -> (r: usize)
    ensures
        r == index_page_count(n as nat, per_page(*config)),
{
    if n == 0 {
        1
    } else {
        crate::site::listing_page_count(n, crate::site::effective_posts_per_page(config.posts_per_page))
    }
}

/// How many pages the tag page for `slug` has.
pub fn tag_pages(config: &SiteConfig, pages: &[PageInfo], slug: &str) -> (r: usize)
    ensures
        r == page_count(tagged(page_views(pages@), slug@).len(), per_page(*config)),
{
    let t = tagged_pages(pages, slug);
    assert(t@.map_values(|j: usize| j as int).len() == t.len());
    crate::site::listing_page_count(t.len(), crate::site::effective_posts_per_page(config.posts_per_page))
}

/// The tag filter, the posts and the pagination of listing page `n` of
/// posts `posts`, whose first page is at `url`.
pub open spec fn listing_tail(
    posts: Seq<PageView>,
    filter: Seq<char>,
    per: nat,
    total: nat,
    n: nat,
    url: Seq<char>,
) -> Seq<char> {
    filter + spec_post_list(
        posts.subrange(
            chunk_start(posts.len(), per, n) as int,
            chunk_end(posts.len(), per, n) as int,
        ),
    ) + spec_pagination_nav(n, total, url)
}

/// Listing page `n` of the section index `p` listing `posts`: its content,
/// then the tag filter, posts and pagination on the first page; the listing
/// alone, under a numbered title and URL, on later pages.
pub open spec fn spec_index_document(
    c: SiteConfig,
    template: Seq<char>,
    p: PageView,
    content: Seq<char>,
    posts: Seq<PageView>,
    n: nat,
    converted: Seq<Seq<char>>,
) -> Seq<char> {
    let per = per_page(c);
    let total = index_page_count(posts.len(), per);
    let filter = spec_tag_nav(tag_set(all_tags(posts)), None, p.page_url, "/tags/"@);
    let tail = listing_tail(posts, filter, per, total, n, p.page_url);
    if n == 1 {
        site_page(c, template, p, shown_title(c, p), p.full_url, content + tail, converted)
    } else {
        site_page(
            c,
            template,
            p,
            spec_paged_title(shown_title(c, p), n),
            clean_base(c.base_url@) + spec_paged_url(p.page_url, n),
            tail,
            converted,
        )
    }
}

fn post_chunk<'a>(posts: &[&'a PageInfo], per: usize, n: usize) -> (r: Vec<&'a PageInfo>)
    requires
        per > 0,
        n >= 1,
    ensures
        ref_views(r@) == ref_views(posts@).subrange(
            chunk_start(posts.len() as nat, per as nat, n as nat) as int,
            chunk_end(posts.len() as nat, per as nat, n as nat) as int,
        ),
{
    let (start, end) = chunk_bounds(posts.len(), per, n);
    let mut r: Vec<&PageInfo> = Vec::new();
    let mut i = start;
    while i < end
        invariant
            start <= i <= end <= posts.len(),
            ref_views(r@) == ref_views(posts@).subrange(start as int, i as int),
        decreases end - i,
    {
        let ghost before = r@;
        r.push(posts[i]);
        assert(ref_views(r@) =~= ref_views(before).push(posts@[i as int]@));
        assert(ref_views(posts@).subrange(start as int, i + 1) =~= ref_views(posts@).subrange(
            start as int,
            i as int,
        ).push(posts@[i as int]@));
        i += 1;
    }
    r
}

/// Listing page `n` of the section index `page`, which lists `posts`.
pub fn index_document(
    config: &SiteConfig,
    template: &str,
    page: &PageInfo,
    content: &str,
    posts: &[&PageInfo],
    n: usize,
    converted: &[String],
) -> (r: String)
    requires
        n >= 1,
    ensures
        r@ == spec_index_document(*config, template@, page@, content@, ref_views(posts@), n as nat, strings_view(converted@)),
{
    let per = crate::site::effective_posts_per_page(config.posts_per_page);
    let total = index_pages(config, posts.len());
    let filter_tags = sorted_unique_tags(posts);
    proof {
        reveal_strlit("/tags/");
    }
    let filter = generate_tag_nav(filter_tags.as_slice(), None, page.page_url.as_str(), "/tags/");
    let chunk = post_chunk(posts, per, n);
    let mut tail = String::new();
    push_str(&mut tail, filter.as_str());
    push_str(&mut tail, generate_post_list(chunk.as_slice()).as_str());
    push_str(&mut tail, generate_pagination_nav(n, total, page.page_url.as_str()).as_str());
    let title = title_of(config, page);
    if n == 1 {
        let mut body = String::new();
        push_str(&mut body, content);
        push_str(&mut body, tail.as_str());
        fill_page(config, template, page, title.as_str(), page.full_url.as_str(), body.as_str(), converted)
    } else {
        let numbered = paged_title(title.as_str(), n);
        let url = full_url(config.base_url.as_str(), paged_url(page.page_url.as_str(), n).as_str());
        fill_page(config, template, page, numbered.as_str(), url.as_str(), tail.as_str(), converted)
    }
}

/// The pages on the tag page for `slug`, in order.
pub open spec fn tagged_posts(ps: Seq<PageView>, slug: Seq<char>) -> Seq<PageView> {
    tagged(ps, slug).map_values(|i: int| ps[i])
}

/// Page `n` of the tag page for `slug`: the filter of the section of its
/// posts with the tag marked, the posts and the pagination, under the tag
/// as title (numbered after the first page), described as the site.
pub open spec fn spec_tag_document(
    c: SiteConfig,
    template: Seq<char>,
    ps: Seq<PageView>,
    slug: Seq<char>,
    n: nat,
    converted: Seq<Seq<char>>,
) -> Seq<char> {
    let posts = tagged_posts(ps, slug);
    let per = per_page(c);
    let total = page_count(posts.len(), per);
    let url = "/tags/"@ + slug + "/"@;
    let filter = spec_tag_nav(
        tag_set(all_tags(section_members(ps, spec_first_section(posts)))),
        Some(slug),
        spec_section_url(posts),
        "/tags/"@,
    );
    let title = if n == 1 {
        spec_html_escape(slug)
    } else {
        spec_paged_title(spec_html_escape(slug), n)
    };
    spec_rewrite_image_refs(
        spec_render_page(
            template,
            title,
            c.description@,
            Seq::empty(),
            clean_base(c.base_url@) + spec_paged_url(url, n),
            Seq::empty(),
            Seq::empty(),
            listing_tail(posts, filter, per, total, n, url),
            "en"@,
        ),
        converted,
    )
}

fn tagged_refs<'a>(pages: &'a [PageInfo], slug: &str) -> (r: Vec<&'a PageInfo>)
    ensures
        ref_views(r@) == tagged_posts(page_views(pages@), slug@),
{
    let idx = tagged_pages(pages, slug);
    let ghost ps = page_views(pages@);
    let ghost t = tagged(ps, slug@);
    let mut r: Vec<&PageInfo> = Vec::new();
    let mut k: usize = 0;
    assert(idx@.map_values(|j: usize| j as int) == t);
    proof {
        crate::listing::lemma_tagged_in_range(ps, slug@);
    }
    while k < idx.len()
        invariant
            k <= idx.len(),
            ps == page_views(pages@),
            idx@.map_values(|j: usize| j as int) == t,
            forall|a: int| 0 <= a < t.len() ==> 0 <= #[trigger] t[a] < ps.len(),
            ref_views(r@) == t.take(k as int).map_values(|i: int| ps[i]),
        decreases idx.len() - k,
    {
        assert(t[k as int] == idx@[k as int] as int);
        let j = idx[k];
        let ghost before = r@;
        r.push(&pages[j]);
        assert(ref_views(r@) =~= ref_views(before).push(ps[j as int]));
        assert(t.take(k + 1).map_values(|i: int| ps[i]) =~= t.take(k as int).map_values(|i: int| ps[i]).push(
            ps[j as int],
        ));
        k += 1;
    }
    assert(t.take(idx.len() as int) == t);
    r
}

/// Page `n` of the tag page for `slug`.
pub fn tag_document(
    config: &SiteConfig,
    template: &str,
    pages: &[PageInfo],
    slug: &str,
    n: usize,
    converted: &[String],
) -> (r: String)
    requires
        n >= 1,
    ensures
        r@ == spec_tag_document(*config, template@, page_views(pages@), slug@, n as nat, strings_view(converted@)),
{
    let posts = tagged_refs(pages, slug);
    let per = crate::site::effective_posts_per_page(config.posts_per_page);
    let total = crate::site::listing_page_count(posts.len(), per);
    let mut url = String::new();
    push_str(&mut url, "/tags/");
    push_str(&mut url, slug);
    push_str(&mut url, "/");
    let key = first_section_key(posts.as_slice());
    let filter_tags = section_tags(pages, key.as_str());
    let section_url = section_url_for_pages(posts.as_slice());
    proof {
        reveal_strlit("/tags/");
    }
    let filter = generate_tag_nav(filter_tags.as_slice(), Some(slug), section_url.as_str(), "/tags/");
    let chunk = post_chunk(posts.as_slice(), per, n);
    let mut tail = String::new();
    push_str(&mut tail, filter.as_str());
    push_str(&mut tail, generate_post_list(chunk.as_slice()).as_str());
    push_str(&mut tail, generate_pagination_nav(n, total, url.as_str()).as_str());
    let escaped = html_escape(slug);
    let title = if n == 1 {
        escaped
    } else {
        paged_title(escaped.as_str(), n)
    };
    let page_url = full_url(config.base_url.as_str(), paged_url(url.as_str(), n).as_str());
    proof {
        reveal_strlit("");
    }
    assert(""@ =~= Seq::<char>::empty());
    let html = render_page(template, title.as_str(), config.description.as_str(), "", page_url.as_str(), "", "", tail.as_str(), "en");
    rewrite_image_refs(html.as_str(), converted)
}

/// The page for addresses that lead nowhere.
pub open spec fn spec_not_found_document(template: Seq<char>, converted: Seq<Seq<char>>) -> Seq<char> {
    spec_rewrite_image_refs(
        spec_render_page(
            spec_not_found_template(template),
            "404 - Page Not Found"@,
            "The page you are looking for does not exist."@,
            Seq::empty(),
            Seq::empty(),
            Seq::empty(),
            Seq::empty(),
            "<h1>404</h1><p>Page not found.</p>"@,
            "en"@,
        ),
        converted,
    )
}

/// The document written as `404.html`.
pub fn not_found_document(template: &str, converted: &[String]) -> (r: String)
    ensures
        r@ == spec_not_found_document(template@, strings_view(converted@)),
{
    proof {
        reveal_strlit("");
    }
    assert(""@ =~= Seq::<char>::empty());
    let nf = not_found_template(template);
    let html = render_page(
        nf.as_str(),
        "404 - Page Not Found",
        "The page you are looking for does not exist.",
        "",
        "",
        "",
        "",
        "<h1>404</h1><p>Page not found.</p>",
        "en",
    );
    rewrite_image_refs(html.as_str(), converted)
}

// ---------------------------------------------------------------------------
// Where documents are written
// ---------------------------------------------------------------------------

/// `s` without its trailing run of `p` (`str::trim_end_matches` with text).
pub open spec fn trim_end_text(s: Seq<char>, p: Seq<char>) -> Seq<char>
    decreases s.len(),
{
    if p.len() > 0 && ends_with(s, p) {
        trim_end_text(s.take(s.len() - p.len()), p)
    } else {
        s
    }
}

fn trim_end_html(v: &Vec<char>) -> (r: usize)
    ensures
        r <= v.len(),
        v@.take(r as int) == trim_end_text(v@, ".html"@),
{
    let p = chars_of(".html");
    proof {
        reveal_strlit(".html");
    }
    let mut e = v.len();
    assert(v@.take(e as int) == v@);
    while e >= 5 && crate::text::ends_with_at(v, 0, e, &p)
        invariant
            e <= v.len(),
            p@ == ".html"@,
            trim_end_text(v@, ".html"@) == trim_end_text(v@.take(e as int), ".html"@),
        decreases e,
    {
        assert(v@.subrange(0, e as int) == v@.take(e as int));
        proof {
            reveal_strlit(".html");
        }
        assert(".html"@.len() == 5);
        assert(ends_with(v@.take(e as int), ".html"@));
        assert(v@.take(e as int).take(v@.take(e as int).len() - ".html"@.len()) == v@.take(e - 5));
        e = e - 5;
    }
    proof {
        reveal_strlit(".html");
        assert(v@.subrange(0, e as int) == v@.take(e as int));
        if e < 5 {
            assert(!ends_with(v@.take(e as int), ".html"@));
        }
    }
    e
}

/// The directory of the document of a page that is not a section index:
/// its stem below its directory under `dist/`.
pub open spec fn spec_article_dir(p: PageView) -> Seq<char> {
    let stem = trim_end_text(p.out_filename, ".html"@);
    if p.relative_dir.len() == 0 {
        "dist/"@ + stem
    } else {
        "dist/"@ + spec_path_to_url(p.relative_dir) + "/"@ + stem
    }
}

/// Where the document of a page that is not a section index is written
/// (as `index.html` in this directory).
pub fn article_dir(page: &PageInfo) -> (r: String)
    ensures
        r@ == spec_article_dir(page@),
{
    let v = chars_of(page.out_filename.as_str());
    let e = trim_end_html(&v);
    let mut r = String::new();
    push_str(&mut r, "dist/");
    if chars_of(page.relative_dir.as_str()).len() > 0 {
        push_str(&mut r, path_to_url(page.relative_dir.as_str()).as_str());
        push_str(&mut r, "/");
    }
    push_range(&mut r, &v, 0, e);
    assert(v@.subrange(0, e as int) == v@.take(e as int));
    r
}

/// The directory of listing page `n` of the section index `p`.
pub open spec fn spec_listing_dir(p: PageView, n: nat) -> Seq<char> {
    if n == 1 {
        "dist/"@ + spec_path_to_url(p.relative_dir)
    } else {
        "dist/"@ + spec_path_to_url(p.relative_dir) + "/"@ + dec(n)
    }
}

/// Where listing page `n` of a section index is written.
pub fn listing_dir(page: &PageInfo, n: usize) -> (r: String)
    ensures
        r@ == spec_listing_dir(page@, n as nat),
{
    let mut r = String::new();
    push_str(&mut r, "dist/");
    push_str(&mut r, path_to_url(page.relative_dir.as_str()).as_str());
    if n != 1 {
        push_str(&mut r, "/");
        push_dec(&mut r, n as u64);
    }
    r
}

/// The directory of page `n` of the tag page for `slug`.
pub open spec fn spec_tag_dir(slug: Seq<char>, n: nat) -> Seq<char> {
    if n == 1 {
        "dist/tags/"@ + slug
    } else {
        "dist/tags/"@ + slug + "/"@ + dec(n)
    }
}

/// Where page `n` of a tag page is written.
pub fn tag_dir(slug: &str, n: usize) -> (r: String)
    ensures
        r@ == spec_tag_dir(slug@, n as nat),
{
    let mut r = String::new();
    push_str(&mut r, "dist/tags/");
    push_str(&mut r, slug);
    if n != 1 {
        push_str(&mut r, "/");
        push_dec(&mut r, n as u64);
    }
    r
}

// ---------------------------------------------------------------------------
// The sitemap
// ---------------------------------------------------------------------------

/// A page's sitemap entry: its URL, with the date it was last edited, or
/// else published, as `lastmod`; a section index has none.
pub open spec fn sitemap_page_entry(p: PageView) -> (Seq<char>, Option<Seq<char>>) {
    (
        p.page_url,
        if p.out_filename == "index.html"@ {
            None
        } else {
            match p.meta.last_edited {
                Some(e) => Some(e),
                None => p.meta.date,
            }
        },
    )
}

/// The sitemap's entries: every page in order, then the first page of
/// every tag page, without `lastmod`.
pub open spec fn spec_sitemap_urls(ps: Seq<PageView>) -> Seq<(Seq<char>, Option<Seq<char>>)> {
    ps.map_values(|p: PageView| sitemap_page_entry(p)) + distinct(all_tag_slugs(ps)).map_values(
        |s: Seq<char>| ("/tags/"@ + s + "/"@, None::<Seq<char>>),
    )
}

/// The sitemap's entries for the published pages.
pub fn sitemap_urls(pages: &[PageInfo]) -> (r: Vec<(String, Option<String>)>)
    ensures
        url_views(r@) == spec_sitemap_urls(page_views(pages@)),
{
    let ghost ps = page_views(pages@);
    let mut r: Vec<(String, Option<String>)> = Vec::new();
    let mut k: usize = 0;
    while k < pages.len()
        invariant
            k <= pages.len(),
            ps == page_views(pages@),
            url_views(r@) == ps.take(k as int).map_values(|p: PageView| sitemap_page_entry(p)),
        decreases pages.len() - k,
    {
        proof {
            reveal_strlit("index.html");
        }
        let p = &pages[k];
        assert(ps[k as int] == p@);
        let lastmod = if str_eq(p.out_filename.as_str(), "index.html") {
            None
        } else {
            match &p.meta.last_edited {
                Some(e) => Some(e.clone()),
                None => p.meta.date.clone(),
            }
        };
        let mut url = String::new();
        push_str(&mut url, p.page_url.as_str());
        let ghost before = r@;
        r.push((url, lastmod));
        assert(url_views(r@) =~= url_views(before).push(sitemap_page_entry(ps[k as int])));
        assert(ps.take(k + 1).map_values(|p: PageView| sitemap_page_entry(p)) =~= ps.take(k as int).map_values(
            |p: PageView| sitemap_page_entry(p),
        ).push(sitemap_page_entry(ps[k as int])));
        k += 1;
    }
    assert(ps.take(pages.len() as int) == ps);
    let ghost head = url_views(r@);
    let slugs = tag_slugs(pages);
    let ghost ss = strings_view(slugs@);
    let mut m: usize = 0;
    while m < slugs.len()
        invariant
            m <= slugs.len(),
            ss == strings_view(slugs@),
            ss == distinct(all_tag_slugs(ps)),
            head == ps.map_values(|p: PageView| sitemap_page_entry(p)),
            url_views(r@) == head + ss.take(m as int).map_values(
                |s: Seq<char>| ("/tags/"@ + s + "/"@, None::<Seq<char>>),
            ),
        decreases slugs.len() - m,
    {
        let mut url = String::new();
        push_str(&mut url, "/tags/");
        push_str(&mut url, slugs[m].as_str());
        push_str(&mut url, "/");
        assert(ss[m as int] == slugs@[m as int]@);
        let ghost before = r@;
        r.push((url, None));
        assert(url_views(r@) =~= url_views(before).push(("/tags/"@ + ss[m as int] + "/"@, None::<Seq<char>>)));
        assert(ss.take(m + 1).map_values(|s: Seq<char>| ("/tags/"@ + s + "/"@, None::<Seq<char>>)) =~= ss.take(
            m as int,
        ).map_values(|s: Seq<char>| ("/tags/"@ + s + "/"@, None::<Seq<char>>)).push(
            ("/tags/"@ + ss[m as int] + "/"@, None::<Seq<char>>),
        ));
        m += 1;
    }
    assert(ss.take(slugs.len() as int) == ss);
    r
}

// ---------------------------------------------------------------------------
// The whole site
// ---------------------------------------------------------------------------

/// Documents as (path, text) pairs of plain texts.
pub open spec fn doc_views(d: Seq<(String, String)>) -> Seq<(Seq<char>, Seq<char>)> {
    d.map_values(|x: (String, String)| (x.0@, x.1@))
}

/// The documents of page `i`: every listing page of a section index, or
/// the one document of any other page, each as `index.html` in its
/// directory.
pub open spec fn page_documents(
    c: SiteConfig,
    template: Seq<char>,
    ss: SyntaxSet,
    ps: Seq<PageView>,
    i: int,
    converted: Seq<Seq<char>>,
) -> Seq<(Seq<char>, Seq<char>)> {
    let p = ps[i];
    let content = spec_page_body(ss, p);
    if p.out_filename == "index.html"@ {
        index_documents_spec(c, template, p, content, siblings_of(ps, i).map_values(|j: int| ps[j]), converted)
    } else {
        seq![(spec_article_dir(p) + "/index.html"@, spec_article_document(c, template, p, content, converted))]
    }
}

/// Every listing page of the section index `p`, which lists `posts`.
pub open spec fn index_documents_spec(
    c: SiteConfig,
    template: Seq<char>,
    p: PageView,
    content: Seq<char>,
    posts: Seq<PageView>,
    converted: Seq<Seq<char>>,
) -> Seq<(Seq<char>, Seq<char>)> {
    Seq::new(
        index_page_count(posts.len(), per_page(c)),
        |k: int|
            (
                spec_listing_dir(p, (k + 1) as nat) + "/index.html"@,
                spec_index_document(c, template, p, content, posts, (k + 1) as nat, converted),
            ),
    )
}

fn index_documents(
    config: &SiteConfig,
    template: &str,
    page: &PageInfo,
    content: &str,
    posts: &[&PageInfo],
    converted: &[String],
) -> (r: Vec<(String, String)>)
    ensures
        doc_views(r@) == index_documents_spec(*config, template@, page@, content@, ref_views(posts@), strings_view(converted@)),
{
    let ghost want = index_documents_spec(*config, template@, page@, content@, ref_views(posts@), strings_view(converted@));
    let total = index_pages(config, posts.len());
    let mut docs: Vec<(String, String)> = Vec::new();
    let mut n: usize = 0;
    while n < total
        invariant
            n <= total,
            total == want.len(),
            want == index_documents_spec(*config, template@, page@, content@, ref_views(posts@), strings_view(converted@)),
            doc_views(docs@) == want.take(n as int),
        decreases total - n,
    {
        let num = n + 1;
        let dir = in_index(listing_dir(page, num));
        let doc = index_document(config, template, page, content, posts, num, converted);
        let ghost db = docs@;
        docs.push((dir, doc));
        assert(want[n as int] == (dir@, doc@));
        assert(doc_views(docs@) =~= doc_views(db).push(want[n as int]));
        assert(want.take(n + 1) =~= want.take(n as int).push(want[n as int]));
        n = num;
    }
    assert(want.take(total as int) == want);
    docs
}

fn tag_documents_exec(
    config: &SiteConfig,
    template: &str,
    pages: &[PageInfo],
    slug: &str,
    converted: &[String],
) -> (r: Vec<(String, String)>)
    ensures
        doc_views(r@) == tag_documents(*config, template@, page_views(pages@), slug@, strings_view(converted@)),
{
    let ghost want = tag_documents(*config, template@, page_views(pages@), slug@, strings_view(converted@));
    let total = tag_pages(config, pages, slug);
    assert(tagged_posts(page_views(pages@), slug@).len() == tagged(page_views(pages@), slug@).len());
    let mut docs: Vec<(String, String)> = Vec::new();
    let mut n: usize = 0;
    while n < total
        invariant
            n <= total,
            total == want.len(),
            want == tag_documents(*config, template@, page_views(pages@), slug@, strings_view(converted@)),
            doc_views(docs@) == want.take(n as int),
        decreases total - n,
    {
        let num = n + 1;
        let dir = in_index(tag_dir(slug, num));
        let doc = tag_document(config, template, pages, slug, num, converted);
        let ghost db = docs@;
        docs.push((dir, doc));
        assert(want[n as int] == (dir@, doc@));
        assert(doc_views(docs@) =~= doc_views(db).push(want[n as int]));
        assert(want.take(n + 1) =~= want.take(n as int).push(want[n as int]));
        n = num;
    }
    assert(want.take(total as int) == want);
    docs
}

fn append_docs(docs: &mut Vec<(String, String)>, more: Vec<(String, String)>)
    ensures
        doc_views(final(docs)@) == doc_views(old(docs)@) + doc_views(more@),
{
    let ghost start = doc_views(docs@);
    let mut rest = more;
    let ghost all = doc_views(rest@);
    let mut k: usize = 0;
    let n = rest.len();
    assert(all.take(0) == Seq::<(Seq<char>, Seq<char>)>::empty());
    while rest.len() > 0
        invariant
            k + rest.len() == n,
            n == all.len(),
            doc_views(rest@) == all.skip(k as int),
            doc_views(docs@) == start + all.take(k as int),
        decreases rest.len(),
    {
        let ghost rv = doc_views(rest@);
        let x = rest.remove(0);
        assert((x.0@, x.1@) == rv[0]);
        assert(doc_views(rest@) == rv.drop_first());
        assert(all.skip(k as int).drop_first() == all.skip(k + 1));
        let ghost db = docs@;
        docs.push(x);
        assert(doc_views(docs@) =~= doc_views(db).push(all[k as int]));
        assert(all.take(k + 1) =~= all.take(k as int).push(all[k as int]));
        k += 1;
    }
    assert(all.take(n as int) == all);
}

/// The documents of the first `n` pages, in order.
pub open spec fn pages_documents(
    c: SiteConfig,
    template: Seq<char>,
    ss: SyntaxSet,
    ps: Seq<PageView>,
    n: nat,
    converted: Seq<Seq<char>>,
) -> Seq<(Seq<char>, Seq<char>)>
    decreases n,
{
    if n == 0 {
        Seq::empty()
    } else {
        pages_documents(c, template, ss, ps, (n - 1) as nat, converted) + page_documents(
            c,
            template,
            ss,
            ps,
            n - 1,
            converted,
        )
    }
}

/// The pages of the tag page for `slug`.
pub open spec fn tag_documents(
    c: SiteConfig,
    template: Seq<char>,
    ps: Seq<PageView>,
    slug: Seq<char>,
    converted: Seq<Seq<char>>,
) -> Seq<(Seq<char>, Seq<char>)> {
    Seq::new(
        page_count(tagged_posts(ps, slug).len(), per_page(c)),
        |k: int|
            (spec_tag_dir(slug, (k + 1) as nat) + "/index.html"@, spec_tag_document(c, template, ps, slug, (k + 1) as nat, converted)),
    )
}

/// The tag pages of the first `m` slugs, in order.
pub open spec fn tags_documents(
    c: SiteConfig,
    template: Seq<char>,
    ps: Seq<PageView>,
    slugs: Seq<Seq<char>>,
    m: nat,
    converted: Seq<Seq<char>>,
) -> Seq<(Seq<char>, Seq<char>)>
    decreases m,
{
    if m == 0 {
        Seq::empty()
    } else {
        tags_documents(c, template, ps, slugs, (m - 1) as nat, converted) + tag_documents(
            c,
            template,
            ps,
            slugs[m - 1],
            converted,
        )
    }
}

/// Everything a build writes under `dist/` but the static files: each page's
/// documents in page order, the tag pages, the sitemap, the feed, the page
/// for missing addresses and `robots.txt`.
pub open spec fn spec_site_documents(
    c: SiteConfig,
    template: Seq<char>,
    ss: SyntaxSet,
    ps: Seq<PageView>,
    converted: Seq<Seq<char>>,
) -> Seq<(Seq<char>, Seq<char>)> {
    let slugs = distinct(all_tag_slugs(ps));
    pages_documents(c, template, ss, ps, ps.len(), converted) + tags_documents(
        c,
        template,
        ps,
        slugs,
        slugs.len(),
        converted,
    ) + seq![
        ("dist/sitemap.xml"@, spec_sitemap(c.base_url@, spec_sitemap_urls(ps))),
        ("dist/feed.xml"@, spec_rss(c.title@, c.description@, c.base_url@, ps)),
        ("dist/404.html"@, spec_not_found_document(template, converted)),
        ("dist/robots.txt"@, spec_robots_txt(c.base_url@)),
    ]
}

/// Some page has a code block that its opening tag does not close.
pub open spec fn some_block_malformed(ps: Seq<PageView>) -> bool {
    exists|i: int|
        0 <= i < ps.len() && !crate::highlight::code_blocks_well_formed(
            crate::site::source_html(#[trigger] ps[i].body, ps[i].is_md),
        )
}

fn in_index(dir: String) -> (r: String)
    ensures
        r@ == dir@ + "/index.html"@,
{
    let mut r = dir;
    push_str(&mut r, "/index.html");
    r
}

/// Every document a build writes for the published pages (sorted as the
/// site shows them), with where it goes; `None` when some page has a
/// malformed code block.
pub fn site_documents(
    config: &SiteConfig,
    template: &str,
    pages: &[PageInfo],
    ss: &SyntaxSet,
    converted: &[String],
) -> (r: Option<Vec<(String, String)>>)
    requires
        dates_in_range(page_views(pages@)),
    ensures
        r is None <==> some_block_malformed(page_views(pages@)),
        r matches Some(d) ==> doc_views(d@) == spec_site_documents(
            *config,
            template@,
            *ss,
            page_views(pages@),
            strings_view(converted@),
        ),
{
    let ghost ps = page_views(pages@);
    let ghost c = *config;
    let ghost t = template@;
    let ghost cv = strings_view(converted@);
    let mut docs: Vec<(String, String)> = Vec::new();
    let mut i: usize = 0;
    while i < pages.len()
        invariant
            i <= pages.len(),
            ps == page_views(pages@),
            c == *config,
            t == template@,
            cv == strings_view(converted@),
            doc_views(docs@) == pages_documents(c, t, *ss, ps, i as nat, cv),
            forall|j: int|
                0 <= j < i ==> crate::highlight::code_blocks_well_formed(
                    crate::site::source_html(#[trigger] ps[j].body, ps[j].is_md),
                ),
        decreases pages.len() - i,
    {
        let page = &pages[i];
        assert(ps[i as int] == page@);
        let content = match page_body(page, ss) {
            Some(x) => x,
            None => {
                assert(!crate::highlight::code_blocks_well_formed(
                    crate::site::source_html(ps[i as int].body, ps[i as int].is_md),
                ));
                return None;
            },
        };
        let ghost before = doc_views(docs@);
        let ghost mine = page_documents(c, t, *ss, ps, i as int, cv);
        proof {
            reveal_strlit("index.html");
        }
        if str_eq(page.out_filename.as_str(), "index.html") {
            let idx = listing_siblings(pages, i);
            let mut posts: Vec<&PageInfo> = Vec::new();
            let mut k: usize = 0;
            let ghost sib = siblings_of(ps, i as int);
            proof {
                crate::listing::lemma_siblings_in_range(ps, i as int);
            }
            while k < idx.len()
                invariant
                    k <= idx.len(),
                    ps == page_views(pages@),
                    idx@.map_values(|j: usize| j as int) == sib,
                    forall|a: int| 0 <= a < sib.len() ==> 0 <= #[trigger] sib[a] < ps.len(),
                    ref_views(posts@) == sib.take(k as int).map_values(|j: int| ps[j]),
                decreases idx.len() - k,
            {
                assert(sib[k as int] == idx@[k as int] as int);
                let j = idx[k];
                let ghost pb = posts@;
                posts.push(&pages[j]);
                assert(ref_views(posts@) =~= ref_views(pb).push(ps[j as int]));
                assert(sib.take(k + 1).map_values(|j: int| ps[j]) =~= sib.take(k as int).map_values(|j: int| ps[j]).push(
                    ps[j as int],
                ));
                k += 1;
            }
            assert(sib.take(idx.len() as int) == sib);
            let more = index_documents(config, template, page, content.as_str(), posts.as_slice(), converted);
            append_docs(&mut docs, more);
        } else {
            let dir = in_index(article_dir(page));
            let doc = article_document(config, template, page, content.as_str(), converted);
            let ghost db = docs@;
            docs.push((dir, doc));
            assert(doc_views(docs@) =~= doc_views(db).push(mine[0]));
            assert(mine =~= seq![mine[0]]);
        }
        i += 1;
    }
    let ghost head = doc_views(docs@);
    let slugs = tag_slugs(pages);
    let ghost sl = strings_view(slugs@);
    let mut m: usize = 0;
    while m < slugs.len()
        invariant
            m <= slugs.len(),
            ps == page_views(pages@),
            c == *config,
            t == template@,
            cv == strings_view(converted@),
            sl == strings_view(slugs@),
            doc_views(docs@) == head + tags_documents(c, t, ps, sl, m as nat, cv),
        decreases slugs.len() - m,
    {
        let slug = slugs[m].as_str();
        assert(sl[m as int] == slug@);
        let more = tag_documents_exec(config, template, pages, slug, converted);
        append_docs(&mut docs, more);
        m += 1;
    }
    proof {
        assert(!some_block_malformed(ps));
    }
    let ghost body = doc_views(docs@);
    let mut path = String::new();
    push_str(&mut path, "dist/sitemap.xml");
    docs.push((path, generate_sitemap(config.base_url.as_str(), sitemap_urls(pages).as_slice())));
    let mut path = String::new();
    push_str(&mut path, "dist/feed.xml");
    docs.push((path, generate_rss(config, pages)));
    let mut path = String::new();
    push_str(&mut path, "dist/404.html");
    docs.push((path, not_found_document(template, converted)));
    let mut path = String::new();
    push_str(&mut path, "dist/robots.txt");
    docs.push((path, generate_robots_txt(config.base_url.as_str())));
    assert(doc_views(docs@) =~= spec_site_documents(c, t, *ss, ps, cv));
    Some(docs)
}

} // verus!
