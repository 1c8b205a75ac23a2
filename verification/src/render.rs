//! The generated documents: page HTML, post lists, navigation, JSON-LD,
//! sitemap, `robots.txt` and the RSS feed.
use vstd::prelude::*;
use crate::frontmatter::{PageInfo, PageView, SiteConfig};
use crate::text::{
    chars_of, dec, join, lemma_join_push, push_all, push_char, push_dec, push_range, push_replaced, push_str,
    replace, replace_str, seq_eq, string_of, trim, trim_end_char, trim_end_char_range, trim_range,
};
use crate::highlight::{convert_callouts, spec_convert_callouts};
use crate::site::{convert_md_to_html, markdown_html};
use crate::utils::{
    push_rfc822, rfc822_in_range, spec_format_rfc822, component_ranges, path_components, push_formatted_date, push_html_escaped_str, push_json_escaped_str,
    push_xml_escaped, push_xml_escaped_str, slugify, spec_format_date, spec_html_escape, spec_json_escape,
    spec_slugify, spec_xml_escape,
};

verus! {

/// The views of a list of page references.
pub open spec fn ref_views(pages: Seq<&PageInfo>) -> Seq<PageView> {
    pages.map_values(|p: &PageInfo| p@)
}

/// The views of a list of pages.
pub open spec fn page_views(pages: Seq<PageInfo>) -> Seq<PageView> {
    pages.map_values(|p: PageInfo| p@)
}

// ---------------------------------------------------------------------------
// Breadcrumbs
// ---------------------------------------------------------------------------

/// One `ListItem` of a breadcrumb list, at 1-based `position`.
pub open spec fn crumb_entry(position: nat, name: Seq<char>, url: Seq<char>) -> Seq<char> {
    "{\"@type\":\"ListItem\",\"position\":"@ + dec(position) + ",\"name\":\""@ + spec_json_escape(name)
        + "\",\"item\":\""@ + spec_json_escape(url) + "\"}"@
}

/// The entries of the first `n` crumbs, comma-separated.
pub open spec fn crumb_entries(crumbs: Seq<(Seq<char>, Seq<char>)>) -> Seq<char>
    decreases crumbs.len(),
{
    if crumbs.len() == 0 {
        Seq::empty()
    } else if crumbs.len() == 1 {
        crumb_entry(1, crumbs[0].0, crumbs[0].1)
    } else {
        crumb_entries(crumbs.drop_last()) + ","@ + crumb_entry(crumbs.len(), crumbs.last().0, crumbs.last().1)
    }
}

/// A `BreadcrumbList` JSON-LD script, empty for fewer than two crumbs.
pub open spec fn spec_breadcrumb(crumbs: Seq<(Seq<char>, Seq<char>)>) -> Seq<char> {
    if crumbs.len() < 2 {
        Seq::empty()
    } else {
        "<script type=\"application/ld+json\">{\"@context\":\"https://schema.org\",\"@type\":\"BreadcrumbList\",\"itemListElement\":["@
            + crumb_entries(crumbs) + "]}</script>"@
    }
}

/// A trail of fewer than two crumbs gets no breadcrumb script.
pub proof fn law_short_trail_has_no_breadcrumb(crumbs: Seq<(Seq<char>, Seq<char>)>)
    ensures
        crumbs.len() < 2 <==> spec_breadcrumb(crumbs).len() == 0,
{
    reveal_strlit("<script type=\"application/ld+json\">{\"@context\":\"https://schema.org\",\"@type\":\"BreadcrumbList\",\"itemListElement\":[");
}

pub open spec fn crumb_views(crumbs: Seq<(&str, &str)>) -> Seq<(Seq<char>, Seq<char>)> {
    crumbs.map_values(|c: (&str, &str)| (c.0@, c.1@))
}

/// Structured data naming the trail of `(name, url)` pairs to a page.
pub fn generate_breadcrumb_json_ld(crumbs: &[(&str, &str)]) -> (r: String)
    ensures
        r@ == spec_breadcrumb(crumb_views(crumbs@)),
{
    let ghost cs = crumb_views(crumbs@);
    let mut r = String::new();
    if crumbs.len() < 2 {
        return r;
    }
    push_str(
        &mut r,
        "<script type=\"application/ld+json\">{\"@context\":\"https://schema.org\",\"@type\":\"BreadcrumbList\",\"itemListElement\":[",
    );
    let ghost base = r@;
    let mut i: usize = 0;
    assert(cs.take(0) == Seq::<(Seq<char>, Seq<char>)>::empty());
    while i < crumbs.len()
        invariant
            i <= crumbs.len(),
            cs == crumb_views(crumbs@),
            r@ == base + crumb_entries(cs.take(i as int)),
        decreases crumbs.len() - i,
    {
        let ghost before = r@;
        let (name, url) = crumbs[i];
        if i > 0 {
            push_str(&mut r, ",");
        }
        push_str(&mut r, "{\"@type\":\"ListItem\",\"position\":");
        push_dec(&mut r, i as u64 + 1);
        push_str(&mut r, ",\"name\":\"");
        push_json_escaped_str(&mut r, name);
        push_str(&mut r, "\",\"item\":\"");
        push_json_escaped_str(&mut r, url);
        push_str(&mut r, "\"}");
        proof {
            let t = cs.take(i + 1);
            assert(t.drop_last() == cs.take(i as int));
            assert(t.last() == (name@, url@));
            let e = crumb_entry((i + 1) as nat, name@, url@);
            if i == 0 {
                assert(r@ =~= before + e);
            } else {
                assert(r@ =~= before + ","@ + e);
            }
        }
        i += 1;
    }
    assert(cs.take(crumbs.len() as int) == cs);
    push_str(&mut r, "]}</script>");
    r
}

// ---------------------------------------------------------------------------
// Article metadata
// ---------------------------------------------------------------------------

/// A modification date that differs from the publication date.
pub open spec fn changed_date(modified: Option<Seq<char>>, published: Seq<char>) -> Option<Seq<char>> {
    match modified {
        Some(m) => if m != published {
            Some(m)
        } else {
            None
        },
        None => None,
    }
}

pub open spec fn opt_str_view(o: Option<&str>) -> Option<Seq<char>> {
    match o {
        Some(s) => Some(s@),
        None => None,
    }
}

/// A `BlogPosting` JSON-LD script; `dateModified` only when it differs from
/// the publication date and `image` only when one is given.
pub open spec fn spec_article_json_ld(
    title: Seq<char>,
    description: Seq<char>,
    url: Seq<char>,
    image: Seq<char>,
    published: Seq<char>,
    modified: Option<Seq<char>>,
    author: Seq<char>,
) -> Seq<char> {
    let modified_field = match changed_date(modified, published) {
        Some(m) => ",\"dateModified\":\""@ + spec_json_escape(m) + "\""@,
        None => Seq::empty(),
    };
    let image_field = if image.len() > 0 {
        ",\"image\":\""@ + spec_json_escape(image) + "\""@
    } else {
        Seq::empty()
    };
    "<script type=\"application/ld+json\">{\"@context\":\"https://schema.org\",\"@type\":\"BlogPosting\",\"headline\":\""@
        + spec_json_escape(title) + "\",\"description\":\""@ + spec_json_escape(description) + "\",\"url\":\""@
        + spec_json_escape(url) + "\",\"datePublished\":\""@ + spec_json_escape(published) + "\""@ + modified_field
        + image_field + ",\"author\":{\"@type\":\"Person\",\"name\":\""@ + spec_json_escape(author) + "\"}}</script>"@
}

/// Whether two texts are equal.
pub fn str_eq(a: &str, b: &str) -> (r: bool)
    ensures
        r == (a@ == b@),
{
    seq_eq(&chars_of(a), &chars_of(b))
}

/// Structured data describing a dated article.
pub fn generate_article_json_ld(
    title: &str,
    description: &str,
    url: &str,
    image: &str,
    published: &str,
    modified: Option<&str>,
    author: &str,
) -> (r: String)
    ensures
        r@ == spec_article_json_ld(
            title@,
            description@,
            url@,
            image@,
            published@,
            opt_str_view(modified),
            author@,
        ),
{
    let mut r = String::new();
    push_str(
        &mut r,
        "<script type=\"application/ld+json\">{\"@context\":\"https://schema.org\",\"@type\":\"BlogPosting\",\"headline\":\"",
    );
    push_json_escaped_str(&mut r, title);
    push_str(&mut r, "\",\"description\":\"");
    push_json_escaped_str(&mut r, description);
    push_str(&mut r, "\",\"url\":\"");
    push_json_escaped_str(&mut r, url);
    push_str(&mut r, "\",\"datePublished\":\"");
    push_json_escaped_str(&mut r, published);
    push_str(&mut r, "\"");
    let ghost before_fields = r@;
    match modified {
        Some(m) => {
            if !str_eq(m, published) {
                push_str(&mut r, ",\"dateModified\":\"");
                push_json_escaped_str(&mut r, m);
                push_str(&mut r, "\"");
            }
        },
        None => {},
    }
    let ghost before_image = r@;
    if chars_of(image).len() > 0 {
        push_str(&mut r, ",\"image\":\"");
        push_json_escaped_str(&mut r, image);
        push_str(&mut r, "\"");
    }
    let ghost after_image = r@;
    push_str(&mut r, ",\"author\":{\"@type\":\"Person\",\"name\":\"");
    push_json_escaped_str(&mut r, author);
    push_str(&mut r, "\"}}</script>");
    assert(r@ =~= spec_article_json_ld(
        title@,
        description@,
        url@,
        image@,
        published@,
        opt_str_view(modified),
        author@,
    ));
    r
}

/// The Open Graph tags of an article: its type, publication time, a
/// modification time when it differs, and its author.
pub open spec fn article_tags(published: Seq<char>, modified: Option<Seq<char>>, author: Seq<char>) -> Seq<char> {
    let modified_tag = match changed_date(modified, published) {
        Some(m) => "<meta property=\"article:modified_time\" content=\""@ + m + "\" />\n"@,
        None => Seq::empty(),
    };
    "<meta property=\"og:type\" content=\"article\" />\n<meta property=\"article:published_time\" content=\""@
        + published + "\" />\n"@ + modified_tag + "<meta property=\"article:author\" content=\""@ + author
        + "\" />"@
}

/// The page's `og:type` website tag replaced by the article tags.
pub open spec fn spec_apply_article_meta(
    html: Seq<char>,
    published: Seq<char>,
    modified: Option<Seq<char>>,
    author: Seq<char>,
) -> Seq<char> {
    replace(html, "<meta property=\"og:type\" content=\"website\" />"@, article_tags(published, modified, author))
}

/// A page without the website `og:type` tag is left as it is.
pub proof fn law_article_meta_needs_the_website_tag(
    html: Seq<char>,
    published: Seq<char>,
    modified: Option<Seq<char>>,
    author: Seq<char>,
)
    requires
        crate::text::find(html, "<meta property=\"og:type\" content=\"website\" />"@) is None,
    ensures
        spec_apply_article_meta(html, published, modified, author) == html,
{
    crate::text::lemma_find(html, "<meta property=\"og:type\" content=\"website\" />"@);
    crate::text::lemma_replace_from_no_match(
        html,
        "<meta property=\"og:type\" content=\"website\" />"@,
        article_tags(published, modified, author),
        0,
    );
    assert(html.skip(0) =~= html);
}

/// Marks a rendered page as an article in its Open Graph tags.
pub fn apply_article_meta(html: &str, published: &str, modified: Option<&str>, author: &str) -> (r: String)
    ensures
        r@ == spec_apply_article_meta(html@, published@, opt_str_view(modified), author@),
{
    let mut tags = String::new();
    push_str(
        &mut tags,
        "<meta property=\"og:type\" content=\"article\" />\n<meta property=\"article:published_time\" content=\"",
    );
    push_str(&mut tags, published);
    push_str(&mut tags, "\" />\n");
    match modified {
        Some(m) => {
            if !str_eq(m, published) {
                push_str(&mut tags, "<meta property=\"article:modified_time\" content=\"");
                push_str(&mut tags, m);
                push_str(&mut tags, "\" />\n");
            }
        },
        None => {},
    }
    push_str(&mut tags, "<meta property=\"article:author\" content=\"");
    push_str(&mut tags, author);
    push_str(&mut tags, "\" />");
    assert(tags@ =~= article_tags(published@, opt_str_view(modified), author@));
    proof {
        reveal_strlit("<meta property=\"og:type\" content=\"website\" />");
    }
    replace_str(html, "<meta property=\"og:type\" content=\"website\" />", tags.as_str())
}

// ---------------------------------------------------------------------------
// Page template
// ---------------------------------------------------------------------------

/// The navigation link to `/page_name/`, marked as the active one.
pub open spec fn spec_add_active_id(html: Seq<char>, page_name: Seq<char>) -> Seq<char> {
    replace(html, "href=\"/"@ + page_name + "/\""@, "href=\"/"@ + page_name + "/\" id=\"active\""@)
}

/// Marks the navigation link to `/page_name/` as active.
pub fn add_active_id_to_navbar(html: &str, page_name: &str) -> (r: String)
    ensures
        r@ == spec_add_active_id(html@, page_name@),
{
    let mut search = String::new();
    push_str(&mut search, "href=\"/");
    push_str(&mut search, page_name);
    push_str(&mut search, "/\"");
    let mut rep = String::new();
    push_str(&mut rep, "href=\"/");
    push_str(&mut rep, page_name);
    push_str(&mut rep, "/\" id=\"active\"");
    proof {
        reveal_strlit("href=\"/");
    }
    replace_str(html, search.as_str(), rep.as_str())
}

/// The template with its placeholders filled in, the current page's
/// navigation link marked, and the content placed in `<main>`.
pub open spec fn spec_render_page(
    template: Seq<char>,
    title: Seq<char>,
    description: Seq<char>,
    keywords: Seq<char>,
    full_url: Seq<char>,
    og_image: Seq<char>,
    current_page_name: Seq<char>,
    content: Seq<char>,
    lang: Seq<char>,
) -> Seq<char> {
    let filled = replace(
        replace(
            replace(
                replace(
                    replace(replace(template, "{{title}}"@, title), "{{description}}"@, description),
                    "{{keywords}}"@,
                    keywords,
                ),
                "{{page_url}}"@,
                full_url,
            ),
            "{{og_image}}"@,
            og_image,
        ),
        "{{lang}}"@,
        lang,
    );
    replace(
        spec_add_active_id(filled, current_page_name),
        "<main></main>"@,
        "<main><div class=\"content\">"@ + content + "</div></main>"@,
    )
}

/// Renders a page from the site template.
pub fn render_page(
    base_template: &str,
    title: &str,
    description: &str,
    keywords: &str,
    full_url: &str,
    og_image: &str,
    current_page_name: &str,
    content: &str,
    lang: &str,
) -> (r: String)
    ensures
        r@ == spec_render_page(
            base_template@,
            title@,
            description@,
            keywords@,
            full_url@,
            og_image@,
            current_page_name@,
            content@,
            lang@,
        ),
{
    proof {
        reveal_strlit("{{title}}");
        reveal_strlit("{{description}}");
        reveal_strlit("{{keywords}}");
        reveal_strlit("{{page_url}}");
        reveal_strlit("{{og_image}}");
        reveal_strlit("{{lang}}");
        reveal_strlit("<main></main>");
    }
    let a = replace_str(base_template, "{{title}}", title);
    let b = replace_str(a.as_str(), "{{description}}", description);
    let c = replace_str(b.as_str(), "{{keywords}}", keywords);
    let d = replace_str(c.as_str(), "{{page_url}}", full_url);
    let e = replace_str(d.as_str(), "{{og_image}}", og_image);
    let f = replace_str(e.as_str(), "{{lang}}", lang);
    let g = add_active_id_to_navbar(f.as_str(), current_page_name);
    let mut main = String::new();
    push_str(&mut main, "<main><div class=\"content\">");
    push_str(&mut main, content);
    push_str(&mut main, "</div></main>");
    replace_str(g.as_str(), "<main></main>", main.as_str())
}

// ---------------------------------------------------------------------------
// Tag navigation and section URLs
// ---------------------------------------------------------------------------

pub open spec fn tag_class(active: bool) -> Seq<char> {
    if active {
        "tag-filter__btn tag-filter__btn--active"@
    } else {
        "tag-filter__btn"@
    }
}

/// The filter link of one tag.
pub open spec fn tag_link(tag: Seq<char>, active_tag: Option<Seq<char>>, tag_base_url: Seq<char>) -> Seq<char> {
    let slug = spec_slugify(tag);
    "<a href=\""@ + tag_base_url + slug + "/\" class=\""@ + tag_class(active_tag == Some(slug)) + "\">"@
        + spec_html_escape(tag) + "</a>"@
}

pub open spec fn tag_links(tags: Seq<Seq<char>>, active_tag: Option<Seq<char>>, tag_base_url: Seq<char>) -> Seq<
    char,
>
    decreases tags.len(),
{
    if tags.len() == 0 {
        Seq::empty()
    } else {
        tag_links(tags.drop_last(), active_tag, tag_base_url) + tag_link(tags.last(), active_tag, tag_base_url)
    }
}

/// Tag filter navigation: an "all" link to the section, active when no tag
/// is, then a link per tag to `tag_base_url` + its slug, active when the
/// slug is the active tag; empty when there are no tags.
pub open spec fn spec_tag_nav(
    tags: Seq<Seq<char>>,
    active_tag: Option<Seq<char>>,
    section_url: Seq<char>,
    tag_base_url: Seq<char>,
) -> Seq<char> {
    if tags.len() == 0 {
        Seq::empty()
    } else {
        "<nav class=\"tag-filters\"><a href=\""@ + section_url + "\" class=\""@ + tag_class(active_tag is None)
            + "\">all</a>"@ + tag_links(tags, active_tag, tag_base_url) + "</nav>"@
    }
}

fn push_tag_class(out: &mut String, active: bool)
    ensures
        final(out)@ == old(out)@ + tag_class(active),
{
    if active {
        push_str(out, "tag-filter__btn tag-filter__btn--active");
    } else {
        push_str(out, "tag-filter__btn");
    }
}

/// Tag filter navigation for a section.
pub fn generate_tag_nav(all_tags: &[String], active_tag: Option<&str>, section_url: &str, tag_base_url: &str) -> (r:
    String)
    ensures
        r@ == spec_tag_nav(
            crate::frontmatter::strings_view(all_tags@),
            opt_str_view(active_tag),
            section_url@,
            tag_base_url@,
        ),
{
    let ghost tags = crate::frontmatter::strings_view(all_tags@);
    let ghost active = opt_str_view(active_tag);
    let mut r = String::new();
    if all_tags.len() == 0 {
        return r;
    }
    push_str(&mut r, "<nav class=\"tag-filters\"><a href=\"");
    push_str(&mut r, section_url);
    push_str(&mut r, "\" class=\"");
    push_tag_class(&mut r, active_tag.is_none());
    push_str(&mut r, "\">all</a>");
    let ghost base = r@;
    let mut i: usize = 0;
    assert(tags.take(0) == Seq::<Seq<char>>::empty());
    while i < all_tags.len()
        invariant
            i <= all_tags.len(),
            tags == crate::frontmatter::strings_view(all_tags@),
            active == opt_str_view(active_tag),
            r@ == base + tag_links(tags.take(i as int), active, tag_base_url@),
        decreases all_tags.len() - i,
    {
        let ghost before = r@;
        let tag = &all_tags[i];
        let slug = slugify(tag.as_str());
        let is_active = match active_tag {
            Some(a) => str_eq(a, slug.as_str()),
            None => false,
        };
        push_str(&mut r, "<a href=\"");
        push_str(&mut r, tag_base_url);
        push_str(&mut r, slug.as_str());
        push_str(&mut r, "/\" class=\"");
        push_tag_class(&mut r, is_active);
        push_str(&mut r, "\">");
        push_html_escaped_str(&mut r, tag.as_str());
        push_str(&mut r, "</a>");
        proof {
            let t = tags.take(i + 1);
            assert(t.drop_last() == tags.take(i as int));
            assert(t.last() == tag@);
            assert(is_active == (active == Some(spec_slugify(tag@))));
            assert(r@ =~= before + tag_link(tag@, active, tag_base_url@));
        }
        i += 1;
    }
    assert(tags.take(all_tags.len() as int) == tags);
    push_str(&mut r, "</nav>");
    assert(r@ =~= spec_tag_nav(tags, active, section_url@, tag_base_url@));
    r
}

/// The URL of the section the first page with a directory lies in: `/` +
/// the first component of its directory + `/`, or `/` when no page has one.
pub open spec fn spec_section_url(pages: Seq<PageView>) -> Seq<char>
    decreases pages.len(),
{
    if pages.len() == 0 {
        "/"@
    } else if path_components(pages[0].relative_dir).len() > 0 {
        "/"@ + path_components(pages[0].relative_dir)[0] + "/"@
    } else {
        spec_section_url(pages.drop_first())
    }
}

/// The section URL of a list of pages.
pub fn section_url_for_pages(pages: &[&PageInfo]) -> (r: String)
    ensures
        r@ == spec_section_url(ref_views(pages@)),
{
    let ghost ps = ref_views(pages@);
    let mut i: usize = 0;
    assert(ps.skip(0) == ps);
    while i < pages.len()
        invariant
            i <= pages.len(),
            ps == ref_views(pages@),
            spec_section_url(ps) == spec_section_url(ps.skip(i as int)),
        decreases pages.len() - i,
    {
        let v = chars_of(pages[i].relative_dir.as_str());
        let comps = component_ranges(&v, 0, v.len());
        assert(v@.subrange(0, v.len() as int) == v@);
        assert(ps.skip(i as int)[0] == pages@[i as int]@);
        if comps.len() > 0 {
            let (a, b) = comps[0];
            let mut r = String::new();
            push_str(&mut r, "/");
            push_range(&mut r, &v, a, b);
            push_str(&mut r, "/");
            return r;
        }
        assert(ps.skip(i as int).drop_first() == ps.skip(i + 1));
        i += 1;
    }
    let mut r = String::new();
    push_str(&mut r, "/");
    r
}

// ---------------------------------------------------------------------------
// Post lists and pagination
// ---------------------------------------------------------------------------

pub open spec fn tag_badges(tags: Seq<Seq<char>>) -> Seq<char>
    decreases tags.len(),
{
    if tags.len() == 0 {
        Seq::empty()
    } else {
        tag_badges(tags.drop_last()) + "<span class=\"post-list__tag\">"@ + spec_html_escape(tags.last())
            + "</span>"@
    }
}

/// The title a listing shows for a page: its own, or its file name.
pub open spec fn shown_title(p: PageView) -> Seq<char> {
    match p.meta.title {
        Some(t) => t,
        None => p.out_filename,
    }
}

pub open spec fn post_date(p: PageView) -> Seq<char> {
    match p.meta.date {
        Some(d) => "<time class=\"post-list__date\">"@ + spec_format_date(d) + "</time>"@,
        None => Seq::empty(),
    }
}

pub open spec fn post_location(p: PageView) -> Seq<char> {
    match p.meta.location {
        Some(l) => "<span class=\"post-list__location\">"@ + spec_html_escape(l) + "</span>"@,
        None => Seq::empty(),
    }
}

pub open spec fn post_badges(p: PageView) -> Seq<char> {
    if p.meta.tags.len() == 0 {
        Seq::empty()
    } else {
        "<div class=\"post-list__tags\">"@ + tag_badges(p.meta.tags) + "</div>"@
    }
}

/// One entry of a post list: title, formatted date, tags and location.
pub open spec fn post_item(p: PageView) -> Seq<char> {
    "<li class=\"post-list__item\"><a href=\""@ + p.page_url + "\"><div class=\"post-list__headline\"><h2>"@
        + spec_html_escape(shown_title(p)) + "</h2>"@ + post_date(p) + "</div><div class=\"post-list__meta\">"@
        + post_badges(p) + post_location(p) + "</div></a></li>"@
}

pub open spec fn post_items(pages: Seq<PageView>) -> Seq<char>
    decreases pages.len(),
{
    if pages.len() == 0 {
        Seq::empty()
    } else {
        post_items(pages.drop_last()) + post_item(pages.last())
    }
}

/// A post list, empty when there are no pages.
pub open spec fn spec_post_list(pages: Seq<PageView>) -> Seq<char> {
    if pages.len() == 0 {
        Seq::empty()
    } else {
        "<ul class=\"post-list\">"@ + post_items(pages) + "</ul>"@
    }
}

/// The post list is empty exactly when there are no pages to list.
pub proof fn law_post_list_empty_iff_no_pages(pages: Seq<PageView>)
    ensures
        spec_post_list(pages).len() == 0 <==> pages.len() == 0,
{
    reveal_strlit("<ul class=\"post-list\">");
}

/// Appends the title a listing shows for `p`, HTML-escaped.
fn push_shown_title(out: &mut String, p: &PageInfo)
    ensures
        final(out)@ == old(out)@ + spec_html_escape(shown_title(p@)),
{
    match &p.meta.title {
        Some(t) => push_html_escaped_str(out, t.as_str()),
        None => push_html_escaped_str(out, p.out_filename.as_str()),
    }
}

/// Appends `format_date` of `d`.
pub fn push_date_text(out: &mut String, d: &str)
    ensures
        final(out)@ == old(out)@ + spec_format_date(d@),
{
    let v = chars_of(d);
    push_formatted_date(out, &v, 0, v.len());
    assert(v@.subrange(0, v.len() as int) == v@);
}

fn push_post_date(out: &mut String, p: &PageInfo)
    ensures
        final(out)@ == old(out)@ + post_date(p@),
{
    match &p.meta.date {
        Some(d) => {
            push_str(out, "<time class=\"post-list__date\">");
            push_date_text(out, d.as_str());
            push_str(out, "</time>");
        },
        None => {},
    }
}

fn push_post_location(out: &mut String, p: &PageInfo)
    ensures
        final(out)@ == old(out)@ + post_location(p@),
{
    match &p.meta.location {
        Some(l) => {
            push_str(out, "<span class=\"post-list__location\">");
            push_html_escaped_str(out, l.as_str());
            push_str(out, "</span>");
        },
        None => {},
    }
}

fn push_post_badges(out: &mut String, p: &PageInfo)
    ensures
        final(out)@ == old(out)@ + post_badges(p@),
{
    if p.meta.tags.len() == 0 {
        return ;
    }
    push_str(out, "<div class=\"post-list__tags\">");
    let ghost tags = crate::frontmatter::strings_view(p.meta.tags@);
    let ghost base = out@;
    let mut i: usize = 0;
    assert(tags.take(0) == Seq::<Seq<char>>::empty());
    while i < p.meta.tags.len()
        invariant
            i <= p.meta.tags.len(),
            tags == crate::frontmatter::strings_view(p.meta.tags@),
            out@ == base + tag_badges(tags.take(i as int)),
        decreases p.meta.tags.len() - i,
    {
        let ghost before = out@;
        push_str(out, "<span class=\"post-list__tag\">");
        push_html_escaped_str(out, p.meta.tags[i].as_str());
        push_str(out, "</span>");
        proof {
            let t = tags.take(i + 1);
            assert(t.drop_last() == tags.take(i as int));
            assert(t.last() == p.meta.tags@[i as int]@);
            assert(out@ =~= before + "<span class=\"post-list__tag\">"@ + spec_html_escape(t.last()) + "</span>"@);
        }
        i += 1;
    }
    assert(tags.take(p.meta.tags.len() as int) == tags);
    push_str(out, "</div>");
}

fn push_post_item(out: &mut String, p: &PageInfo)
    ensures
        final(out)@ == old(out)@ + post_item(p@),
{
    let ghost start = old(out)@;
    push_str(out, "<li class=\"post-list__item\"><a href=\"");
    push_str(out, p.page_url.as_str());
    push_str(out, "\"><div class=\"post-list__headline\"><h2>");
    push_shown_title(out, p);
    push_str(out, "</h2>");
    push_post_date(out, p);
    push_str(out, "</div><div class=\"post-list__meta\">");
    push_post_badges(out, p);
    push_post_location(out, p);
    push_str(out, "</div></a></li>");
    assert(out@ =~= start + post_item(p@));
}

/// A list of posts with their titles, dates, tags and locations.
pub fn generate_post_list(pages: &[&PageInfo]) -> (r: String)
    ensures
        r@ == spec_post_list(ref_views(pages@)),
{
    let ghost ps = ref_views(pages@);
    let mut r = String::new();
    if pages.len() == 0 {
        return r;
    }
    push_str(&mut r, "<ul class=\"post-list\">");
    let ghost base = r@;
    let mut i: usize = 0;
    assert(ps.take(0) == Seq::<PageView>::empty());
    while i < pages.len()
        invariant
            i <= pages.len(),
            ps == ref_views(pages@),
            r@ == base + post_items(ps.take(i as int)),
        decreases pages.len() - i,
    {
        let ghost before = r@;
        push_post_item(&mut r, pages[i]);
        proof {
            let t = ps.take(i + 1);
            assert(t.drop_last() == ps.take(i as int));
            assert(t.last() == pages@[i as int]@);
            assert(r@ =~= before + post_item(t.last()));
        }
        i += 1;
    }
    assert(ps.take(pages.len() as int) == ps);
    push_str(&mut r, "</ul>");
    r
}

/// The link (or, for the current page, the marker) of page `n` of a
/// paginated section; page 1 is the section itself, page `n` is `n/` below it.
pub open spec fn page_number_link(n: nat, current: nat, section_url: Seq<char>) -> Seq<char> {
    if n == current {
        "<span class=\"pagination__num pagination__num--current\">"@ + dec(n) + "</span>"@
    } else {
        let url = if n == 1 {
            section_url
        } else {
            section_url + dec(n) + "/"@
        };
        "<a href=\""@ + url + "\" class=\"pagination__num\">"@ + dec(n) + "</a>"@
    }
}

/// The links of pages `1..=n`.
pub open spec fn page_number_links(n: nat, current: nat, section_url: Seq<char>) -> Seq<char>
    decreases n,
{
    if n == 0 {
        Seq::empty()
    } else {
        page_number_links((n - 1) as nat, current, section_url) + page_number_link(n, current, section_url)
    }
}

/// Pagination links for `total` pages, empty when there is at most one.
pub open spec fn spec_pagination_nav(current: nat, total: nat, section_url: Seq<char>) -> Seq<char> {
    if total <= 1 {
        Seq::empty()
    } else {
        "<nav class=\"pagination\">"@ + page_number_links(total, current, section_url) + "</nav>"@
    }
}

/// A section that fits on one page gets no pagination, one that does not
/// always gets it.
pub proof fn law_pagination_only_for_several_pages(current: nat, total: nat, section_url: Seq<char>)
    ensures
        spec_pagination_nav(current, total, section_url).len() == 0 <==> total <= 1,
{
    reveal_strlit("<nav class=\"pagination\">");
}

/// Pagination links of a section, marking the current page.
pub fn generate_pagination_nav(current: usize, total: usize, section_url: &str) -> (r: String)
    ensures
        r@ == spec_pagination_nav(current as nat, total as nat, section_url@),
{
    let mut r = String::new();
    if total <= 1 {
        return r;
    }
    push_str(&mut r, "<nav class=\"pagination\">");
    let ghost base = r@;
    let mut n: usize = 0;
    while n < total
        invariant
            n <= total,
            r@ == base + page_number_links(n as nat, current as nat, section_url@),
        decreases total - n,
    {
        n += 1;
        let ghost before = r@;
        if n == current {
            push_str(&mut r, "<span class=\"pagination__num pagination__num--current\">");
            push_dec(&mut r, n as u64);
            push_str(&mut r, "</span>");
        } else {
            push_str(&mut r, "<a href=\"");
            push_str(&mut r, section_url);
            if n != 1 {
                push_dec(&mut r, n as u64);
                push_str(&mut r, "/");
            }
            push_str(&mut r, "\" class=\"pagination__num\">");
            push_dec(&mut r, n as u64);
            push_str(&mut r, "</a>");
        }
        assert(r@ =~= before + page_number_link(n as nat, current as nat, section_url@));
    }
    push_str(&mut r, "</nav>");
    r
}

// ---------------------------------------------------------------------------
// robots.txt and sitemap
// ---------------------------------------------------------------------------

/// The base URL trimmed and without trailing slashes.
pub open spec fn clean_base(base_url: Seq<char>) -> Seq<char> {
    trim_end_char(trim(base_url), '/')
}

proof fn lemma_trim_end_char_ends(s: Seq<char>, c: char)
    ensures
        trim_end_char(s, c).len() == 0 || trim_end_char(s, c).last() != c,
    decreases s.len(),
{
    if s.len() > 0 && s.last() == c {
        lemma_trim_end_char_ends(s.drop_last(), c);
    }
}

/// A cleaned base URL does not end with `/`, so a path that starts with
/// `/` joins it with a single slash.
pub proof fn law_clean_base_has_no_trailing_slash(base_url: Seq<char>)
    ensures
        clean_base(base_url).len() == 0 || clean_base(base_url).last() != '/',
{
    lemma_trim_end_char_ends(trim(base_url), '/');
}

/// `robots.txt` allowing everything and pointing to the sitemap.
pub open spec fn spec_robots_txt(base_url: Seq<char>) -> Seq<char> {
    "User-agent: *\nAllow: /\nSitemap: "@ + clean_base(base_url) + "/sitemap.xml\n"@
}

/// Appends the base URL trimmed and without trailing slashes.
pub fn push_clean_base(out: &mut String, base_url: &str, escape: bool)
    ensures
        final(out)@ == old(out)@ + if escape {
            spec_xml_escape(clean_base(base_url@))
        } else {
            clean_base(base_url@)
        },
{
    let v = chars_of(base_url);
    let (a, b) = trim_range(&v, 0, v.len());
    assert(v@.subrange(0, v.len() as int) == v@);
    let e = trim_end_char_range(&v, a, b, '/');
    if escape {
        push_xml_escaped(out, &v, a, e);
    } else {
        push_range(out, &v, a, e);
    }
}

/// The site's `robots.txt`.
pub fn generate_robots_txt(base_url: &str) -> (r: String)
    ensures
        r@ == spec_robots_txt(base_url@),
{
    let mut r = String::new();
    push_str(&mut r, "User-agent: *\nAllow: /\nSitemap: ");
    push_clean_base(&mut r, base_url, false);
    push_str(&mut r, "/sitemap.xml\n");
    r
}

pub open spec fn url_views(urls: Seq<(String, Option<String>)>) -> Seq<(Seq<char>, Option<Seq<char>>)> {
    urls.map_values(|u: (String, Option<String>)| (u.0@, crate::frontmatter::opt_view(u.1)))
}

/// One `<url>` entry: the escaped location under the base, and the date as
/// `<lastmod>` when there is one.
pub open spec fn sitemap_entry(base: Seq<char>, url: Seq<char>, date: Option<Seq<char>>) -> Seq<char> {
    let lastmod = match date {
        Some(d) => "<lastmod>"@ + d + "</lastmod>"@,
        None => Seq::empty(),
    };
    "<url><loc>"@ + base + spec_xml_escape(url) + "</loc>"@ + lastmod + "</url>"@
}

pub open spec fn sitemap_entries(base: Seq<char>, urls: Seq<(Seq<char>, Option<Seq<char>>)>) -> Seq<char>
    decreases urls.len(),
{
    if urls.len() == 0 {
        Seq::empty()
    } else if urls.len() == 1 {
        sitemap_entry(base, urls[0].0, urls[0].1)
    } else {
        sitemap_entries(base, urls.drop_last()) + "\n"@ + sitemap_entry(base, urls.last().0, urls.last().1)
    }
}

/// The sitemap: one entry per URL, newline-separated.
pub open spec fn spec_sitemap(base_url: Seq<char>, urls: Seq<(Seq<char>, Option<Seq<char>>)>) -> Seq<char> {
    "<?xml version=\"1.0\" encoding=\"UTF-8\"?>\n<urlset xmlns=\"http://www.sitemaps.org/schemas/sitemap/0.9\">\n"@
        + sitemap_entries(spec_xml_escape(clean_base(base_url)), urls) + "\n</urlset>"@
}

/// The site's `sitemap.xml` for pages given by URL and last modification date.
pub fn generate_sitemap(base_url: &str, urls: &[(String, Option<String>)]) -> (r: String)
    ensures
        r@ == spec_sitemap(base_url@, url_views(urls@)),
{
    let ghost us = url_views(urls@);
    let mut base = String::new();
    push_clean_base(&mut base, base_url, true);
    let mut r = String::new();
    push_str(
        &mut r,
        "<?xml version=\"1.0\" encoding=\"UTF-8\"?>\n<urlset xmlns=\"http://www.sitemaps.org/schemas/sitemap/0.9\">\n",
    );
    let ghost head = r@;
    let mut i: usize = 0;
    assert(us.take(0) == Seq::<(Seq<char>, Option<Seq<char>>)>::empty());
    while i < urls.len()
        invariant
            i <= urls.len(),
            us == url_views(urls@),
            r@ == head + sitemap_entries(base@, us.take(i as int)),
        decreases urls.len() - i,
    {
        let ghost before = r@;
        if i > 0 {
            push_str(&mut r, "\n");
        }
        let ghost before_entry = r@;
        let (url, date) = &urls[i];
        push_str(&mut r, "<url><loc>");
        push_str(&mut r, base.as_str());
        push_xml_escaped_str(&mut r, url.as_str());
        push_str(&mut r, "</loc>");
        match date {
            Some(d) => {
                push_str(&mut r, "<lastmod>");
                push_str(&mut r, d.as_str());
                push_str(&mut r, "</lastmod>");
            },
            None => {},
        }
        push_str(&mut r, "</url>");
        proof {
            let t = us.take(i + 1);
            assert(t.drop_last() == us.take(i as int));
            assert(t.last() == (url@, crate::frontmatter::opt_view(*date)));
            assert(r@ =~= before_entry + sitemap_entry(base@, url@, crate::frontmatter::opt_view(*date)));
        }
        i += 1;
    }
    assert(us.take(urls.len() as int) == us);
    push_str(&mut r, "\n</urlset>");
    r
}

// ---------------------------------------------------------------------------
// RSS
// ---------------------------------------------------------------------------

/// A page appears in the feed when it is dated and not a section index.
pub open spec fn in_feed(p: PageView) -> bool {
    p.meta.date is Some && p.out_filename != "index.html"@
}

/// The HTML of a page's body: Markdown rendered with callouts, or HTML as is.
pub open spec fn body_html(p: PageView) -> Seq<char> {
    if p.is_md {
        spec_convert_callouts(markdown_html(p.body))
    } else {
        p.body
    }
}

/// The start of a feed item: title and description (the site's when the
/// page has none) and link.
pub open spec fn rss_item_head(site_title: Seq<char>, site_description: Seq<char>, p: PageView) -> Seq<char> {
    let title = match p.meta.title {
        Some(t) => t,
        None => site_title,
    };
    let desc = match p.meta.description {
        Some(d) => d,
        None => site_description,
    };
    "<item><title>"@ + spec_xml_escape(title) + "</title><link>"@ + spec_xml_escape(p.full_url)
        + "</link><description>"@ + spec_xml_escape(desc) + "</description><pubDate>"@
}

/// The rest of a feed item: publication date, permalink, and the body in a
/// CDATA section, any `]]>` in it split across two sections.
pub open spec fn rss_item_tail(p: PageView) -> Seq<char> {
    let date = match p.meta.date {
        Some(d) => spec_format_rfc822(d),
        None => Seq::empty(),
    };
    date + "</pubDate><guid isPermaLink=\"true\">"@ + spec_xml_escape(p.full_url)
        + "</guid><content:encoded><![CDATA["@ + replace(body_html(p), "]]>"@, "]]>]]><![CDATA["@)
        + "]]></content:encoded></item>"@
}

/// One feed item.
pub open spec fn rss_item(site_title: Seq<char>, site_description: Seq<char>, p: PageView) -> Seq<char> {
    rss_item_head(site_title, site_description, p) + rss_item_tail(p)
}

/// The items of the pages that appear in the feed, in order.
pub open spec fn rss_items(site_title: Seq<char>, site_description: Seq<char>, ps: Seq<PageView>) -> Seq<Seq<char>>
    decreases ps.len(),
{
    if ps.len() == 0 {
        Seq::empty()
    } else {
        let init = rss_items(site_title, site_description, ps.drop_last());
        if in_feed(ps.last()) {
            init.push(rss_item(site_title, site_description, ps.last()))
        } else {
            init
        }
    }
}

/// The date of the first page that has one.
pub open spec fn first_date(ps: Seq<PageView>) -> Option<Seq<char>>
    decreases ps.len(),
{
    if ps.len() == 0 {
        None
    } else if ps[0].meta.date is Some {
        ps[0].meta.date
    } else {
        first_date(ps.drop_first())
    }
}

/// The RSS 2.0 feed of the site: channel title, link and description, the
/// first page's date as build date, and one item per dated non-index page.
pub open spec fn spec_rss(
    site_title: Seq<char>,
    site_description: Seq<char>,
    base_url: Seq<char>,
    ps: Seq<PageView>,
) -> Seq<char> {
    let last_build = match first_date(ps) {
        Some(d) => spec_format_rfc822(d),
        None => Seq::empty(),
    };
    "<?xml version=\"1.0\" encoding=\"UTF-8\"?><rss version=\"2.0\" xmlns:content=\"http://purl.org/rss/1.1/modules/content/\"><channel><title>"@
        + spec_xml_escape(site_title) + "</title><link>"@ + spec_xml_escape(clean_base(base_url))
        + "</link><description>"@ + spec_xml_escape(site_description)
        + "</description><language>en</language><lastBuildDate>"@ + last_build + "</lastBuildDate>"@ + join(
        rss_items(site_title, site_description, ps),
        "\n"@,
    ) + "</channel></rss>"@
}

/// The pages the feed lists: the dated non-index pages, in order.
pub open spec fn feed_pages(ps: Seq<PageView>) -> Seq<PageView>
    decreases ps.len(),
{
    if ps.len() == 0 {
        Seq::empty()
    } else if in_feed(ps.last()) {
        feed_pages(ps.drop_last()).push(ps.last())
    } else {
        feed_pages(ps.drop_last())
    }
}

/// The feed has one item for each dated non-index page and no other, in
/// the order of the pages; so when the pages come newest first, so do the
/// items.
pub proof fn law_feed_lists_dated_posts_in_order(site_title: Seq<char>, site_description: Seq<char>, ps: Seq<PageView>)
    ensures
        rss_items(site_title, site_description, ps) == feed_pages(ps).map_values(
            |p: PageView| rss_item(site_title, site_description, p),
        ),
        forall|p: PageView| #[trigger] feed_pages(ps).contains(p) <==> ps.contains(p) && in_feed(p),
        crate::site::sorted_by_date(ps) ==> crate::site::sorted_by_date(feed_pages(ps)),
    decreases ps.len(),
{
    if ps.len() > 0 {
        let init = ps.drop_last();
        let x = ps.last();
        law_feed_lists_dated_posts_in_order(site_title, site_description, init);
        let f = feed_pages(init);
        assert(rss_items(site_title, site_description, ps) =~= feed_pages(ps).map_values(
            |p: PageView| rss_item(site_title, site_description, p),
        ));
        assert forall|p: PageView| #[trigger] feed_pages(ps).contains(p) <==> ps.contains(p) && in_feed(p) by {
            if feed_pages(ps).contains(p) {
                let k = choose|k: int| 0 <= k < feed_pages(ps).len() && feed_pages(ps)[k] == p;
                if k < f.len() {
                    assert(f[k] == p);
                    assert(f.contains(p));
                    let m = choose|m: int| 0 <= m < init.len() && init[m] == p;
                    assert(ps[m] == p);
                } else {
                    assert(p == x);
                    assert(ps[ps.len() - 1] == p);
                }
            }
            if ps.contains(p) && in_feed(p) {
                let m = choose|m: int| 0 <= m < ps.len() && ps[m] == p;
                if m < init.len() {
                    assert(init[m] == p);
                    assert(f.contains(p));
                    let k = choose|k: int| 0 <= k < f.len() && f[k] == p;
                    assert(feed_pages(ps)[k] == p);
                } else {
                    assert(p == x);
                    assert(feed_pages(ps)[f.len() as int] == p);
                }
            }
        }
        if crate::site::sorted_by_date(ps) {
            assert(crate::site::sorted_by_date(init)) by {
                assert forall|i: int, j: int| 0 <= i < j < init.len() implies !crate::site::newer(
                    #[trigger] init[j],
                    #[trigger] init[i],
                ) by {
                    assert(init[i] == ps[i] && init[j] == ps[j]);
                }
            }
            let g = feed_pages(ps);
            assert forall|i: int, j: int| 0 <= i < j < g.len() implies !crate::site::newer(
                #[trigger] g[j],
                #[trigger] g[i],
            ) by {
                if j < f.len() {
                    assert(g[i] == f[i] && g[j] == f[j]);
                } else {
                    assert(g[j] == x);
                    assert(g[i] == f[i]);
                    assert(f.contains(f[i]));
                    let m = choose|m: int| 0 <= m < init.len() && init[m] == f[i];
                    assert(ps[m] == f[i]);
                    assert(ps[ps.len() - 1] == x);
                }
            }
        }
    }
}

/// Every page's date is one whose weekday `format_rfc822` can compute.
pub open spec fn dates_in_range(ps: Seq<PageView>) -> bool {
    forall|i: int|
        0 <= i < ps.len() ==> match (#[trigger] ps[i]).meta.date {
            Some(d) => rfc822_in_range(d),
            None => true,
        }
}

/// Appends `format_rfc822` of `d`.
fn push_rfc822_str(out: &mut String, d: &str)
    requires
        rfc822_in_range(d@),
    ensures
        final(out)@ == old(out)@ + spec_format_rfc822(d@),
{
    let v = chars_of(d);
    assert(v@.subrange(0, v.len() as int) == v@);
    push_rfc822(out, &v, 0, v.len());
}

/// Appends the HTML of a page's body.
fn push_body_cdata(out: &mut String, p: &PageInfo)
    ensures
        final(out)@ == old(out)@ + replace(body_html(p@), "]]>"@, "]]>]]><![CDATA["@),
{
    let body = if p.is_md {
        let html = convert_md_to_html(p.body.as_str());
        convert_callouts(html.as_str())
    } else {
        p.body.clone()
    };
    let v = chars_of(body.as_str());
    proof {
        reveal_strlit("]]>");
    }
    push_replaced(out, &v, 0, v.len(), &chars_of("]]>"), "]]>]]><![CDATA[");
    assert(v@.subrange(0, v.len() as int) == v@);
}

fn push_rss_item_head(out: &mut String, config: &SiteConfig, p: &PageInfo)
    ensures
        final(out)@ == old(out)@ + rss_item_head(config.title@, config.description@, p@),
{
    let ghost start = old(out)@;
    push_str(out, "<item><title>");
    match &p.meta.title {
        Some(t) => push_xml_escaped_str(out, t.as_str()),
        None => push_xml_escaped_str(out, config.title.as_str()),
    }
    push_str(out, "</title><link>");
    push_xml_escaped_str(out, p.full_url.as_str());
    push_str(out, "</link><description>");
    match &p.meta.description {
        Some(d) => push_xml_escaped_str(out, d.as_str()),
        None => push_xml_escaped_str(out, config.description.as_str()),
    }
    push_str(out, "</description><pubDate>");
    assert(out@ =~= start + rss_item_head(config.title@, config.description@, p@));
}

fn push_rss_item_tail(out: &mut String, p: &PageInfo)
    requires
        p@.meta.date is Some,
        rfc822_in_range(p@.meta.date->0),
    ensures
        final(out)@ == old(out)@ + rss_item_tail(p@),
{
    let ghost start = old(out)@;
    match &p.meta.date {
        Some(d) => push_rfc822_str(out, d.as_str()),
        None => {},
    }
    push_str(out, "</pubDate><guid isPermaLink=\"true\">");
    push_xml_escaped_str(out, p.full_url.as_str());
    push_str(out, "</guid><content:encoded><![CDATA[");
    push_body_cdata(out, p);
    push_str(out, "]]></content:encoded></item>");
    assert(out@ =~= start + rss_item_tail(p@));
}

fn push_rss_item(out: &mut String, config: &SiteConfig, p: &PageInfo)
    requires
        p@.meta.date is Some,
        rfc822_in_range(p@.meta.date->0),
    ensures
        final(out)@ == old(out)@ + rss_item(config.title@, config.description@, p@),
{
    let ghost start = old(out)@;
    push_rss_item_head(out, config, p);
    push_rss_item_tail(out, p);
    assert(out@ =~= start + rss_item(config.title@, config.description@, p@));
}

/// Whether `s` is `index.html`.
fn is_index_html(s: &str) -> (b: bool)
    ensures
        b == (s@ == "index.html"@),
{
    str_eq(s, "index.html")
}

/// The site's RSS feed.
#[verifier::loop_isolation(false)]
#[verifier::spinoff_prover]
#[verifier::rlimit(40)]
pub fn generate_rss(config: &SiteConfig, pages: &[PageInfo]) -> (r: String)
    requires
        dates_in_range(page_views(pages@)),
    ensures
        r@ == spec_rss(config.title@, config.description@, config.base_url@, page_views(pages@)),
{
    let ghost ps = page_views(pages@);
    let mut r = String::new();
    push_str(
        &mut r,
        "<?xml version=\"1.0\" encoding=\"UTF-8\"?><rss version=\"2.0\" xmlns:content=\"http://purl.org/rss/1.1/modules/content/\"><channel><title>",
    );
    push_xml_escaped_str(&mut r, config.title.as_str());
    push_str(&mut r, "</title><link>");
    push_clean_base(&mut r, config.base_url.as_str(), true);
    push_str(&mut r, "</link><description>");
    push_xml_escaped_str(&mut r, config.description.as_str());
    push_str(&mut r, "</description><language>en</language><lastBuildDate>");
    let ghost before_date = r@;
    let mut i: usize = 0;
    assert(ps.skip(0) == ps);
    while i < pages.len()
        invariant
            i <= pages.len(),
            first_date(ps) == first_date(ps.skip(i as int)),
            r@ == before_date,
        decreases pages.len() - i,
    {
        assert(ps.skip(i as int)[0] == pages@[i as int]@);
        match &pages[i].meta.date {
            Some(d) => {
                assert(ps[i as int] == pages@[i as int]@);
                push_rfc822_str(&mut r, d.as_str());
                break;
            },
            None => {},
        }
        assert(ps.skip(i as int).drop_first() == ps.skip(i + 1));
        i += 1;
    }
    push_str(&mut r, "</lastBuildDate>");
    let ghost head = r@;
    let mut count: usize = 0;
    let mut j: usize = 0;
    assert(ps.take(0) == Seq::<PageView>::empty());
    while j < pages.len()
        invariant
            j <= pages.len(),
            count <= j,
            count == rss_items(config.title@, config.description@, ps.take(j as int)).len(),
            r@ == head + join(rss_items(config.title@, config.description@, ps.take(j as int)), "\n"@),
        decreases pages.len() - j,
    {
        let p = &pages[j];
        let ghost items = rss_items(config.title@, config.description@, ps.take(j as int));
        proof {
            assert(ps.take(j + 1).drop_last() == ps.take(j as int));
            assert(ps.take(j + 1).last() == p@);
            assert(ps[j as int] == p@);
        }
        if p.meta.date.is_some() && !is_index_html(p.out_filename.as_str()) {
            let ghost before = r@;
            if count > 0 {
                push_str(&mut r, "\n");
            }
            push_rss_item(&mut r, config, p);
            proof {
                crate::text::lemma_join_push(items, "\n"@, rss_item(config.title@, config.description@, p@));
                if count > 0 {
                    assert(r@ =~= before + "\n"@ + rss_item(config.title@, config.description@, p@));
                }
            }
            count += 1;
        }
        j += 1;
    }
    assert(ps.take(pages.len() as int) == ps);
    push_str(&mut r, "</channel></rss>");
    assert(r@ =~= spec_rss(config.title@, config.description@, config.base_url@, ps));
    r
}

// ---------------------------------------------------------------------------
// Related articles
// ---------------------------------------------------------------------------

/// How many of `tags` (counted with repetition) are among `current_tags`.
pub open spec fn shared_tags(tags: Seq<Seq<char>>, current_tags: Seq<Seq<char>>) -> nat
    decreases tags.len(),
{
    if tags.len() == 0 {
        0
    } else {
        shared_tags(tags.drop_last(), current_tags) + if current_tags.contains(tags.last()) {
            1nat
        } else {
            0nat
        }
    }
}

/// A page may be suggested beside `current`: it is not a section index, not
/// `current` itself (by URL), and shares at least one tag with it.
pub open spec fn is_related(current: PageView, p: PageView) -> bool {
    p.out_filename != "index.html"@ && p.page_url != current.page_url && shared_tags(
        p.meta.tags,
        current.meta.tags,
    ) > 0
}

/// The related pages, as (shared tag count, position in `ps`), in page order.
pub open spec fn related_candidates(current: PageView, ps: Seq<PageView>) -> Seq<(nat, int)>
    decreases ps.len(),
{
    if ps.len() == 0 {
        Seq::empty()
    } else {
        let init = related_candidates(current, ps.drop_last());
        let p = ps.last();
        if is_related(current, p) {
            init.push((shared_tags(p.meta.tags, current.meta.tags), ps.len() - 1))
        } else {
            init
        }
    }
}

/// `a` comes before `b` in code point order.
pub open spec fn text_lt(a: Seq<char>, b: Seq<char>) -> bool
    decreases a.len(),
{
    if b.len() == 0 {
        false
    } else if a.len() == 0 {
        true
    } else if a[0] != b[0] {
        a[0] < b[0]
    } else {
        text_lt(a.drop_first(), b.drop_first())
    }
}

/// No text comes before itself.
pub proof fn lemma_text_lt_irreflexive(a: Seq<char>)
    ensures
        !text_lt(a, a),
    decreases a.len(),
{
    if a.len() > 0 {
        lemma_text_lt_irreflexive(a.drop_first());
    }
}

/// Code point order is transitive.
pub proof fn lemma_text_lt_transitive(a: Seq<char>, b: Seq<char>, c: Seq<char>)
    requires
        text_lt(a, b),
        text_lt(b, c),
    ensures
        text_lt(a, c),
    decreases a.len(),
{
    if a.len() > 0 && a[0] == b[0] && b[0] == c[0] {
        lemma_text_lt_transitive(a.drop_first(), b.drop_first(), c.drop_first());
    }
}

/// Of two different texts, one comes before the other.
pub proof fn lemma_text_lt_total(a: Seq<char>, b: Seq<char>)
    requires
        a != b,
    ensures
        text_lt(a, b) || text_lt(b, a),
    decreases a.len(),
{
    if a.len() > 0 && b.len() > 0 && a[0] == b[0] {
        if a.drop_first() == b.drop_first() {
            assert(a == seq![a[0]] + a.drop_first());
            assert(b == seq![b[0]] + b.drop_first());
        }
        lemma_text_lt_total(a.drop_first(), b.drop_first());
    } else if a.len() == 0 && b.len() == 0 {
        assert(a == b);
    }
}

/// The date order is a strict order: irreflexive and transitive.
pub proof fn lemma_date_lt_order(a: Option<Seq<char>>, b: Option<Seq<char>>, c: Option<Seq<char>>)
    ensures
        !date_lt(a, a),
        date_lt(a, b) && date_lt(b, c) ==> date_lt(a, c),
{
    if let Some(x) = a {
        lemma_text_lt_irreflexive(x);
    }
    if date_lt(a, b) && date_lt(b, c) {
        if let (Some(x), Some(y), Some(z)) = (a, b, c) {
            lemma_text_lt_transitive(x, y, z);
        }
    }
}

/// `a` comes before `b` as optional dates compare: no date first.
pub open spec fn date_lt(a: Option<Seq<char>>, b: Option<Seq<char>>) -> bool {
    match (a, b) {
        (None, Some(_)) => true,
        (Some(x), Some(y)) => text_lt(x, y),
        _ => false,
    }
}

/// Candidate `x` ranks strictly before `y`: more shared tags, or as many and
/// a later date.
pub open spec fn ranks_before(ps: Seq<PageView>, x: (nat, int), y: (nat, int)) -> bool {
    x.0 > y.0 || (x.0 == y.0 && date_lt(ps[y.1].meta.date, ps[x.1].meta.date))
}

/// `x` inserted into the ranked list `sorted` before the first entry it
/// ranks before.
pub open spec fn insert_ranked(ps: Seq<PageView>, sorted: Seq<(nat, int)>, x: (nat, int)) -> Seq<(nat, int)>
    decreases sorted.len(),
{
    if sorted.len() == 0 {
        seq![x]
    } else if ranks_before(ps, x, sorted[0]) {
        seq![x] + sorted
    } else {
        seq![sorted[0]] + insert_ranked(ps, sorted.drop_first(), x)
    }
}

/// The candidates ranked by shared tags, then date, both descending, keeping
/// page order among equals (a stable sort).
pub open spec fn rank(ps: Seq<PageView>, cs: Seq<(nat, int)>) -> Seq<(nat, int)>
    decreases cs.len(),
{
    if cs.len() == 0 {
        Seq::empty()
    } else {
        insert_ranked(ps, rank(ps, cs.drop_last()), cs.last())
    }
}

/// The (at most three) pages suggested beside `current`.
pub open spec fn related_selection(current: PageView, ps: Seq<PageView>) -> Seq<(nat, int)> {
    let ranked = rank(ps, related_candidates(current, ps));
    if ranked.len() > 3 {
        ranked.take(3)
    } else {
        ranked
    }
}

/// One suggestion: a link to the page with its title, and its date.
pub open spec fn related_item(p: PageView) -> Seq<char> {
    let date = match p.meta.date {
        Some(d) => " - <span class=\"related__date\">"@ + spec_format_date(d) + "</span>"@,
        None => Seq::empty(),
    };
    "<li><a href=\""@ + p.page_url + "\">"@ + spec_html_escape(shown_title(p)) + "</a>"@ + date + "</li>"@
}

pub open spec fn related_items(ps: Seq<PageView>, sel: Seq<(nat, int)>) -> Seq<char>
    decreases sel.len(),
{
    if sel.len() == 0 {
        Seq::empty()
    } else {
        related_items(ps, sel.drop_last()) + related_item(ps[sel.last().1])
    }
}

/// The "Related Articles" section of a page: empty when the page has no
/// tags or nothing is related.
pub open spec fn spec_related_articles(current: PageView, ps: Seq<PageView>) -> Seq<char> {
    let sel = related_selection(current, ps);
    if current.meta.tags.len() == 0 || sel.len() == 0 {
        Seq::empty()
    } else {
        "<hr class=\"divider\" /><h3>Related Articles</h3><ul>"@ + related_items(ps, sel) + "</ul>"@
    }
}

/// Inserting at the first entry that `x` ranks before.
proof fn lemma_insert_ranked_at(ps: Seq<PageView>, sorted: Seq<(nat, int)>, x: (nat, int), p: int)
    requires
        0 <= p <= sorted.len(),
        forall|j: int| 0 <= j < p ==> !ranks_before(ps, x, #[trigger] sorted[j]),
        p < sorted.len() ==> ranks_before(ps, x, sorted[p]),
    ensures
        insert_ranked(ps, sorted, x) == sorted.insert(p, x),
    decreases p,
{
    if p == 0 {
        if sorted.len() == 0 {
            assert(sorted.insert(0, x) == seq![x]);
        } else {
            assert(sorted.insert(0, x) == seq![x] + sorted);
        }
    } else {
        let rest = sorted.drop_first();
        assert forall|j: int| 0 <= j < p - 1 implies !ranks_before(ps, x, #[trigger] rest[j]) by {
            assert(rest[j] == sorted[j + 1]);
        }
        if p - 1 < rest.len() {
            assert(rest[p - 1] == sorted[p]);
        }
        lemma_insert_ranked_at(ps, rest, x, p - 1);
        assert(seq![sorted[0]] + rest.insert(p - 1, x) == sorted.insert(p, x));
    }
}

/// Where `insert_ranked` puts `x`: after every entry it does not rank
/// before, before the first one it does.
proof fn lemma_insert_ranked_pos(ps: Seq<PageView>, sorted: Seq<(nat, int)>, x: (nat, int)) -> (p: int)
    ensures
        0 <= p <= sorted.len(),
        forall|j: int| 0 <= j < p ==> !ranks_before(ps, x, #[trigger] sorted[j]),
        p < sorted.len() ==> ranks_before(ps, x, sorted[p]),
        insert_ranked(ps, sorted, x) == sorted.insert(p, x),
    decreases sorted.len(),
{
    if sorted.len() == 0 || ranks_before(ps, x, sorted[0]) {
        lemma_insert_ranked_at(ps, sorted, x, 0);
        0
    } else {
        let rest = sorted.drop_first();
        let q = lemma_insert_ranked_pos(ps, rest, x);
        assert forall|j: int| 0 <= j < q + 1 implies !ranks_before(ps, x, #[trigger] sorted[j]) by {
            if j > 0 {
                assert(sorted[j] == rest[j - 1]);
            }
        }
        if q + 1 < sorted.len() {
            assert(sorted[q + 1] == rest[q]);
        }
        lemma_insert_ranked_at(ps, sorted, x, q + 1);
        q + 1
    }
}

/// No entry of `s` ranks before an earlier one.
pub open spec fn ranked(ps: Seq<PageView>, s: Seq<(nat, int)>) -> bool {
    forall|i: int, j: int| 0 <= i < j < s.len() ==> !ranks_before(ps, #[trigger] s[j], #[trigger] s[i])
}

/// Ranking is a strict order.
proof fn lemma_ranks_before_order(ps: Seq<PageView>, a: (nat, int), b: (nat, int), c: (nat, int))
    ensures
        !ranks_before(ps, a, a),
        ranks_before(ps, a, b) && ranks_before(ps, b, c) ==> ranks_before(ps, a, c),
{
    lemma_date_lt_order(ps[a.1].meta.date, ps[a.1].meta.date, ps[a.1].meta.date);
    lemma_date_lt_order(ps[c.1].meta.date, ps[b.1].meta.date, ps[a.1].meta.date);
}

#[verifier::rlimit(40)]
proof fn lemma_rank_props(ps: Seq<PageView>, cs: Seq<(nat, int)>)
    ensures
        rank(ps, cs).to_multiset() == cs.to_multiset(),
        ranked(ps, rank(ps, cs)),
    decreases cs.len(),
{
    let r = rank(ps, cs);
    if cs.len() == 0 {
        assert(r =~= cs);
    } else {
        let s = rank(ps, cs.drop_last());
        let x = cs.last();
        lemma_rank_props(ps, cs.drop_last());
        let p = lemma_insert_ranked_pos(ps, s, x);
        vstd::seq_lib::to_multiset_insert(s, p, x);
        vstd::seq_lib::to_multiset_build(cs.drop_last(), x);
        assert(cs.drop_last().push(x) == cs);
        assert forall|i: int, j: int| 0 <= i < j < r.len() implies !ranks_before(ps, #[trigger] r[j], #[trigger] r[i]) by {
            if j < p {
                assert(r[i] == s[i] && r[j] == s[j]);
            } else if j == p {
                assert(r[i] == s[i]);
            } else if i == p {
                assert(r[j] == s[j - 1]);
                lemma_ranks_before_order(ps, s[j - 1], x, s[p]);
                if j - 1 > p {
                    assert(!ranks_before(ps, s[j - 1], s[p]));
                }
            } else if i < p {
                assert(r[i] == s[i] && r[j] == s[j - 1]);
            } else {
                assert(r[i] == s[i - 1] && r[j] == s[j - 1]);
            }
        }
    }
}

/// Every candidate is a related page of the list, with its shared tag
/// count, and candidates come in page order.
proof fn lemma_candidates_props(current: PageView, ps: Seq<PageView>)
    ensures
        forall|k: int|
            0 <= k < related_candidates(current, ps).len() ==> {
                let e = #[trigger] related_candidates(current, ps)[k];
                &&& 0 <= e.1 < ps.len()
                &&& is_related(current, ps[e.1])
                &&& e.0 == shared_tags(ps[e.1].meta.tags, current.meta.tags)
            },
        forall|i: int, j: int|
            0 <= i < j < related_candidates(current, ps).len() ==> (#[trigger] related_candidates(current, ps)[i]).1
                < (#[trigger] related_candidates(current, ps)[j]).1,
    decreases ps.len(),
{
    if ps.len() > 0 {
        let init = ps.drop_last();
        lemma_candidates_props(current, init);
        let c = related_candidates(current, init);
        let r = related_candidates(current, ps);
        assert forall|k: int| 0 <= k < c.len() implies ps[(#[trigger] c[k]).1] == init[c[k].1] by {}
    }
}

/// At most three pages are suggested beside a page, none twice. Each is a
/// page of the list that is not a section index, is not the page itself,
/// and shares a tag with it; the suggestions come with the most shared tags
/// first, and among as many shared tags, newest first.
#[verifier::rlimit(40)]
pub proof fn law_related_selection(current: PageView, ps: Seq<PageView>)
    ensures
        related_selection(current, ps).len() <= 3,
        forall|k: int|
            0 <= k < related_selection(current, ps).len() ==> {
                let e = #[trigger] related_selection(current, ps)[k];
                &&& 0 <= e.1 < ps.len()
                &&& is_related(current, ps[e.1])
                &&& e.0 == shared_tags(ps[e.1].meta.tags, current.meta.tags)
            },
        forall|i: int, j: int|
            0 <= i < j < related_selection(current, ps).len() ==> (#[trigger] related_selection(current, ps)[i]).1
                != (#[trigger] related_selection(current, ps)[j]).1,
        ranked(ps, related_selection(current, ps)),
{
    let cs = related_candidates(current, ps);
    let r = rank(ps, cs);
    let sel = related_selection(current, ps);
    lemma_candidates_props(current, ps);
    lemma_rank_props(ps, cs);
    assert(cs.no_duplicates()) by {
        assert forall|i: int, j: int| 0 <= i < cs.len() && 0 <= j < cs.len() && i != j implies cs[i] != cs[j] by {
            if i < j {
                assert(cs[i].1 < cs[j].1);
            } else {
                assert(cs[j].1 < cs[i].1);
            }
        }
    }
    cs.lemma_multiset_has_no_duplicates();
    r.lemma_multiset_has_no_duplicates_conv();
    assert forall|k: int| 0 <= k < r.len() implies cs.contains(#[trigger] r[k]) by {
        vstd::seq_lib::to_multiset_contains(r, r[k]);
        vstd::seq_lib::to_multiset_contains(cs, r[k]);
    }
    assert forall|k: int| 0 <= k < sel.len() implies sel[k] == #[trigger] r[k] by {}
    assert forall|k: int|
        0 <= k < sel.len() implies {
            let e = #[trigger] sel[k];
            &&& 0 <= e.1 < ps.len()
            &&& is_related(current, ps[e.1])
            &&& e.0 == shared_tags(ps[e.1].meta.tags, current.meta.tags)
        } by {
        assert(cs.contains(r[k]));
        let m = choose|m: int| 0 <= m < cs.len() && cs[m] == r[k];
        assert(cs[m] == sel[k]);
    }
    assert forall|i: int, j: int| 0 <= i < j < sel.len() implies (#[trigger] sel[i]).1 != (#[trigger] sel[j]).1 by {
        assert(r[i] != r[j]);
        assert(cs.contains(r[i]) && cs.contains(r[j]));
        let a = choose|m: int| 0 <= m < cs.len() && cs[m] == r[i];
        let b = choose|m: int| 0 <= m < cs.len() && cs[m] == r[j];
        assert(cs[a] == r[i] && cs[b] == r[j]);
    }
    assert forall|i: int, j: int| 0 <= i < j < sel.len() implies !ranks_before(ps, #[trigger] sel[j], #[trigger] sel[i]) by {
        assert(sel[i] == r[i] && sel[j] == r[j]);
    }
}

/// Every related page of the list is a candidate.
proof fn lemma_candidates_complete(current: PageView, ps: Seq<PageView>, q: int)
    requires
        0 <= q < ps.len(),
        is_related(current, ps[q]),
    ensures
        related_candidates(current, ps).contains((shared_tags(ps[q].meta.tags, current.meta.tags), q)),
    decreases ps.len(),
{
    let x = (shared_tags(ps[q].meta.tags, current.meta.tags), q);
    let init = ps.drop_last();
    let c = related_candidates(current, init);
    let r = related_candidates(current, ps);
    if q == ps.len() - 1 {
        assert(r == c.push(x));
        assert(r[r.len() - 1] == x);
    } else {
        assert(init[q] == ps[q]);
        lemma_candidates_complete(current, init, q);
        let m = choose|m: int| 0 <= m < c.len() && c[m] == x;
        if is_related(current, ps.last()) {
            assert(r[m] == x);
        } else {
            assert(r[m] == x);
        }
    }
}

/// The suggestions are the best-ranked related pages: a related page that
/// is left out is left out because three pages rank at least as high.
#[verifier::rlimit(40)]
pub proof fn law_related_selection_is_the_top(current: PageView, ps: Seq<PageView>, q: int)
    requires
        0 <= q < ps.len(),
        is_related(current, ps[q]),
        forall|k: int| 0 <= k < related_selection(current, ps).len() ==> (#[trigger] related_selection(current, ps)[k]).1 != q,
    ensures
        related_selection(current, ps).len() == 3,
        forall|k: int|
            0 <= k < 3 ==> !ranks_before(
                ps,
                (shared_tags(ps[q].meta.tags, current.meta.tags), q),
                #[trigger] related_selection(current, ps)[k],
            ),
{
    let x = (shared_tags(ps[q].meta.tags, current.meta.tags), q);
    let cs = related_candidates(current, ps);
    let r = rank(ps, cs);
    let sel = related_selection(current, ps);
    lemma_candidates_complete(current, ps, q);
    lemma_rank_props(ps, cs);
    vstd::seq_lib::to_multiset_contains(cs, x);
    vstd::seq_lib::to_multiset_contains(r, x);
    assert(r.contains(x));
    let m = choose|m: int| 0 <= m < r.len() && r[m] == x;
    if r.len() <= 3 {
        assert(sel[m] == x);
    } else {
        if m < 3 {
            assert(sel[m] == r[m]);
        }
        assert forall|k: int| 0 <= k < 3 implies !ranks_before(ps, x, #[trigger] sel[k]) by {
            assert(sel[k] == r[k]);
            assert(!ranks_before(ps, r[m], r[k]));
        }
    }
}

/// How many tags of `tags` are among `current`.
fn count_shared(tags: &Vec<String>, current: &Vec<String>) -> (n: usize)
    ensures
        n == shared_tags(crate::frontmatter::strings_view(tags@), crate::frontmatter::strings_view(current@)),
{
    let ghost ts = crate::frontmatter::strings_view(tags@);
    let ghost cs = crate::frontmatter::strings_view(current@);
    let mut n: usize = 0;
    let mut i: usize = 0;
    assert(ts.take(0) == Seq::<Seq<char>>::empty());
    while i < tags.len()
        invariant
            i <= tags.len(),
            n <= i,
            ts == crate::frontmatter::strings_view(tags@),
            cs == crate::frontmatter::strings_view(current@),
            n == shared_tags(ts.take(i as int), cs),
        decreases tags.len() - i,
    {
        let t = chars_of(tags[i].as_str());
        let mut found = false;
        let mut k: usize = 0;
        while k < current.len()
            invariant
                k <= current.len(),
                i < tags.len(),
                t@ == tags@[i as int]@,
                cs == crate::frontmatter::strings_view(current@),
                found == exists|j: int| 0 <= j < k && cs[j] == t@,
            decreases current.len() - k,
        {
            if !found && seq_eq(&chars_of(current[k].as_str()), &t) {
                found = true;
            }
            proof {
                assert(cs[k as int] == current@[k as int]@);
                if !found {
                    assert forall|j: int| 0 <= j < k + 1 implies cs[j] != t@ by {
                        if j < k {
                            assert(!(exists|j: int| 0 <= j < k && cs[j] == t@));
                        }
                    }
                }
            }
            k += 1;
        }
        proof {
            assert(ts.take(i + 1).drop_last() == ts.take(i as int));
            assert(ts.take(i + 1).last() == t@);
            if found {
                let j = choose|j: int| 0 <= j < k && cs[j] == t@;
                assert(cs.contains(t@));
            } else {
                assert(!cs.contains(t@));
            }
        }
        if found {
            n += 1;
        }
        i += 1;
    }
    assert(ts.take(tags.len() as int) == ts);
    n
}

/// Whether optional date `a` comes before `b` (no date first).
pub fn date_less(a: &Option<String>, b: &Option<String>) -> (r: bool)
    ensures
        r == date_lt(crate::frontmatter::opt_view(*a), crate::frontmatter::opt_view(*b)),
{
    match (a, b) {
        (None, Some(_)) => true,
        (Some(x), Some(y)) => {
            let xv = chars_of(x.as_str());
            let yv = chars_of(y.as_str());
            let mut i: usize = 0;
            assert(xv@.skip(0) == xv@);
            assert(yv@.skip(0) == yv@);
            while i < xv.len() && i < yv.len() && xv[i] == yv[i]
                invariant
                    i <= xv.len(),
                    i <= yv.len(),
                    text_lt(xv@, yv@) == text_lt(xv@.skip(i as int), yv@.skip(i as int)),
                decreases xv.len() - i,
            {
                assert(xv@.skip(i as int).drop_first() == xv@.skip(i + 1));
                assert(yv@.skip(i as int).drop_first() == yv@.skip(i + 1));
                i += 1;
            }
            if i == yv.len() {
                false
            } else if i == xv.len() {
                true
            } else {
                xv[i] < yv[i]
            }
        },
        _ => false,
    }
}

/// The candidates as plain values.
pub open spec fn pairs_view(v: Seq<(usize, usize)>) -> Seq<(nat, int)> {
    v.map_values(|q: (usize, usize)| (q.0 as nat, q.1 as int))
}

/// The related candidates of `current` among `all_pages`.
fn candidates_of(current: &PageInfo, all_pages: &[PageInfo]) -> (r: Vec<(usize, usize)>)
    ensures
        pairs_view(r@) == related_candidates(current@, page_views(all_pages@)),
        forall|j: int| 0 <= j < r.len() ==> (#[trigger] r[j]).1 < all_pages.len(),
{
    let ghost ps = page_views(all_pages@);
    let mut cands: Vec<(usize, usize)> = Vec::new();
    let mut i: usize = 0;
    assert(ps.take(0) == Seq::<PageView>::empty());
    assert(pairs_view(cands@) == Seq::<(nat, int)>::empty());
    while i < all_pages.len()
        invariant
            i <= all_pages.len(),
            ps == page_views(all_pages@),
            pairs_view(cands@) == related_candidates(current@, ps.take(i as int)),
            forall|j: int| 0 <= j < cands.len() ==> (#[trigger] cands[j]).1 < i,
        decreases all_pages.len() - i,
    {
        let p = &all_pages[i];
        proof {
            assert(ps.take(i + 1).drop_last() == ps.take(i as int));
            assert(ps.take(i + 1).last() == p@);
        }
        if !is_index_html(p.out_filename.as_str()) && !str_eq(p.page_url.as_str(), current.page_url.as_str()) {
            let shared = count_shared(&p.meta.tags, &current.meta.tags);
            if shared > 0 {
                let ghost old_c = cands@;
                cands.push((shared, i));
                assert(pairs_view(cands@) == pairs_view(old_c).push((shared as nat, i as int)));
            }
        }
        i += 1;
    }
    assert(ps.take(all_pages.len() as int) == ps);
    cands
}

/// Where `x` goes in the ranked list `sorted`: before the first entry it
/// ranks before.
fn rank_position(all_pages: &[PageInfo], sorted: &Vec<(usize, usize)>, x: (usize, usize)) -> (pos: usize)
    requires
        x.1 < all_pages.len(),
        forall|j: int| 0 <= j < sorted.len() ==> (#[trigger] sorted[j]).1 < all_pages.len(),
    ensures
        pos <= sorted.len(),
        forall|j: int|
            0 <= j < pos ==> !ranks_before(
                page_views(all_pages@),
                (x.0 as nat, x.1 as int),
                #[trigger] pairs_view(sorted@)[j],
            ),
        pos < sorted.len() ==> ranks_before(
            page_views(all_pages@),
            (x.0 as nat, x.1 as int),
            pairs_view(sorted@)[pos as int],
        ),
{
    let ghost ps = page_views(all_pages@);
    let ghost xs = (x.0 as nat, x.1 as int);
    let ghost sv = pairs_view(sorted@);
    let mut pos: usize = 0;
    while pos < sorted.len()
        invariant
            pos <= sorted.len(),
            x.1 < all_pages.len(),
            forall|j: int| 0 <= j < sorted.len() ==> (#[trigger] sorted[j]).1 < all_pages.len(),
            ps == page_views(all_pages@),
            sv == pairs_view(sorted@),
            xs == (x.0 as nat, x.1 as int),
            forall|j: int| 0 <= j < pos ==> !ranks_before(ps, xs, #[trigger] sv[j]),
        decreases sorted.len() - pos,
    {
        let y = sorted[pos];
        let before = x.0 > y.0 || (x.0 == y.0 && date_less(&all_pages[y.1].meta.date, &all_pages[x.1].meta.date));
        assert(sv[pos as int] == (y.0 as nat, y.1 as int));
        assert(ps[y.1 as int] == all_pages@[y.1 as int]@);
        assert(ps[x.1 as int] == all_pages@[x.1 as int]@);
        if before {
            return pos;
        }
        pos += 1;
    }
    pos
}

/// The candidates ranked (a stable insertion sort).
fn rank_candidates(all_pages: &[PageInfo], cands: &Vec<(usize, usize)>) -> (sorted: Vec<(usize, usize)>)
    requires
        forall|j: int| 0 <= j < cands.len() ==> (#[trigger] cands[j]).1 < all_pages.len(),
    ensures
        pairs_view(sorted@) == rank(page_views(all_pages@), pairs_view(cands@)),
        forall|j: int| 0 <= j < sorted.len() ==> (#[trigger] sorted[j]).1 < all_pages.len(),
{
    let ghost ps = page_views(all_pages@);
    let ghost cs = pairs_view(cands@);
    let mut sorted: Vec<(usize, usize)> = Vec::new();
    let mut k: usize = 0;
    assert(cs.take(0) == Seq::<(nat, int)>::empty());
    assert(pairs_view(sorted@) == Seq::<(nat, int)>::empty());
    while k < cands.len()
        invariant
            k <= cands.len(),
            ps == page_views(all_pages@),
            cs == pairs_view(cands@),
            forall|j: int| 0 <= j < cands.len() ==> (#[trigger] cands[j]).1 < all_pages.len(),
            pairs_view(sorted@) == rank(ps, cs.take(k as int)),
            forall|j: int| 0 <= j < sorted.len() ==> (#[trigger] sorted[j]).1 < all_pages.len(),
        decreases cands.len() - k,
    {
        let x = cands[k];
        let ghost xs = (x.0 as nat, x.1 as int);
        let ghost prev = pairs_view(sorted@);
        assert(cs.take(k + 1).drop_last() == cs.take(k as int));
        assert(cs.take(k + 1).last() == xs);
        let pos = rank_position(all_pages, &sorted, x);
        proof {
            lemma_insert_ranked_at(ps, prev, xs, pos as int);
        }
        let ghost old_s = sorted@;
        sorted.insert(pos, x);
        assert(pairs_view(sorted@) == prev.insert(pos as int, xs));
        k += 1;
    }
    assert(cs.take(cands.len() as int) == cs);
    sorted
}

/// Appends the suggestions `sel[..n]`.
fn push_related_items(out: &mut String, all_pages: &[PageInfo], sel: &Vec<(usize, usize)>, n: usize)
    requires
        n <= sel.len(),
        forall|j: int| 0 <= j < sel.len() ==> (#[trigger] sel[j]).1 < all_pages.len(),
    ensures
        final(out)@ == old(out)@ + related_items(page_views(all_pages@), pairs_view(sel@).take(n as int)),
{
    let ghost ps = page_views(all_pages@);
    let ghost sv = pairs_view(sel@).take(n as int);
    let ghost head = old(out)@;
    let mut m: usize = 0;
    assert(sv.take(0) == Seq::<(nat, int)>::empty());
    while m < n
        invariant
            m <= n <= sel.len(),
            forall|j: int| 0 <= j < sel.len() ==> (#[trigger] sel[j]).1 < all_pages.len(),
            ps == page_views(all_pages@),
            sv == pairs_view(sel@).take(n as int),
            out@ == head + related_items(ps, sv.take(m as int)),
        decreases n - m,
    {
        let idx = sel[m].1;
        let p = &all_pages[idx];
        let ghost before = out@;
        assert(sv[m as int] == (sel@[m as int].0 as nat, idx as int));
        assert(ps[idx as int] == p@);
        push_str(out, "<li><a href=\"");
        push_str(out, p.page_url.as_str());
        push_str(out, "\">");
        push_shown_title(out, p);
        push_str(out, "</a>");
        match &p.meta.date {
            Some(d) => {
                push_str(out, " - <span class=\"related__date\">");
                push_date_text(out, d.as_str());
                push_str(out, "</span>");
            },
            None => {},
        }
        push_str(out, "</li>");
        proof {
            assert(sv.take(m + 1).drop_last() == sv.take(m as int));
            assert(sv.take(m + 1).last() == sv[m as int]);
            assert(out@ =~= before + related_item(p@));
        }
        m += 1;
    }
    assert(sv.take(n as int) == sv);
}

/// The "Related Articles" section of a page: up to three other non-index
/// pages sharing tags with it, most shared tags first, then newest first.
pub fn generate_related_articles(current: &PageInfo, all_pages: &[PageInfo]) -> (r: String)
    ensures
        r@ == spec_related_articles(current@, page_views(all_pages@)),
{
    let ghost ps = page_views(all_pages@);
    let mut r = String::new();
    if current.meta.tags.len() == 0 {
        assert(current@.meta.tags.len() == 0);
        return r;
    }
    let cands = candidates_of(current, all_pages);
    let sorted = rank_candidates(all_pages, &cands);
    let ghost ranked = rank(ps, related_candidates(current@, ps));
    let ghost sel = related_selection(current@, ps);
    let n = if sorted.len() > 3 {
        3
    } else {
        sorted.len()
    };
    assert(sel == pairs_view(sorted@).take(n as int));
    if n == 0 {
        return r;
    }
    push_str(&mut r, "<hr class=\"divider\" /><h3>Related Articles</h3><ul>");
    push_related_items(&mut r, all_pages, &sorted, n);
    push_str(&mut r, "</ul>");
    r
}

// ---------------------------------------------------------------------------
// What the generated pieces say about their inputs
// ---------------------------------------------------------------------------

/// The entries of a post list, one per page, in the order of the pages.
pub open spec fn post_entries(pages: Seq<PageView>) -> Seq<Seq<char>> {
    Seq::new(pages.len(), |k: int| post_item(pages[k]))
}

proof fn lemma_post_items_flatten(pages: Seq<PageView>)
    ensures
        post_items(pages) == post_entries(pages).flatten(),
    decreases pages.len(),
{
    if pages.len() == 0 {
        assert(post_entries(pages) =~= Seq::<Seq<char>>::empty());
    } else {
        let init = pages.drop_last();
        lemma_post_items_flatten(init);
        assert(post_entries(pages) =~= post_entries(init).push(post_item(pages.last())));
        post_entries(init).lemma_flatten_push(post_item(pages.last()));
    }
}

/// A post list shows its pages in the order it is given them: the list
/// opens, then come the entries of the first page, the second, and so on
/// to the last, and the list closes. A listing sorted newest first is shown
/// newest first.
pub proof fn law_post_list_keeps_page_order(pages: Seq<PageView>)
    requires
        pages.len() > 0,
    ensures
        spec_post_list(pages) == "<ul class=\"post-list\">"@ + post_entries(pages).flatten() + "</ul>"@,
{
    lemma_post_items_flatten(pages);
}

/// A text without `c` has no occurrence of a pattern holding `c`, so
/// replacing that pattern keeps it.
proof fn lemma_replace_absent(s: Seq<char>, p: Seq<char>, r: Seq<char>, c: char)
    requires
        p.contains(c),
        !s.contains(c),
    ensures
        replace(s, p, r) == s,
{
    let m = choose|m: int| 0 <= m < p.len() && p[m] == c;
    assert forall|k: int| 0 <= k implies !crate::text::match_at(s, p, k) by {
        if crate::text::match_at(s, p, k) {
            assert(s.subrange(k, k + p.len())[m] == s[k + m]);
        }
    }
    crate::text::lemma_replace_from_no_match(s, p, r, 0);
    assert(s.skip(0) =~= s);
}

/// Replacing a whole text by itself gives the replacement.
proof fn lemma_replace_whole(p: Seq<char>, r: Seq<char>)
    requires
        p.len() > 0,
    ensures
        replace(p, p, r) == r,
{
    assert(p.subrange(0, p.len() as int) =~= p);
    assert(crate::text::replace_from(p, p, r, p.len()) == Seq::<char>::empty());
    assert(r + Seq::<char>::empty() =~= r);
}

/// The placeholders after `{{description}}`, the navigation link and
/// `<main></main>` leave a text without `{`, `<` and `"` alone.
proof fn lemma_render_tail_keeps(
    x: Seq<char>,
    keywords: Seq<char>,
    full_url: Seq<char>,
    og_image: Seq<char>,
    current_page_name: Seq<char>,
    content: Seq<char>,
    lang: Seq<char>,
)
    requires
        !x.contains('{'),
        !x.contains('<'),
        !x.contains('"'),
    ensures
        replace(
            spec_add_active_id(
                replace(
                    replace(replace(replace(x, "{{keywords}}"@, keywords), "{{page_url}}"@, full_url), "{{og_image}}"@, og_image),
                    "{{lang}}"@,
                    lang,
                ),
                current_page_name,
            ),
            "<main></main>"@,
            "<main><div class=\"content\">"@ + content + "</div></main>"@,
        ) == x,
{
    reveal_strlit("{{keywords}}");
    reveal_strlit("{{page_url}}");
    reveal_strlit("{{og_image}}");
    reveal_strlit("{{lang}}");
    reveal_strlit("<main></main>");
    reveal_strlit("href=\"/");
    assert("{{keywords}}"@[0] == '{');
    assert("{{page_url}}"@[0] == '{');
    assert("{{og_image}}"@[0] == '{');
    assert("{{lang}}"@[0] == '{');
    assert("<main></main>"@[0] == '<');
    lemma_replace_absent(x, "{{keywords}}"@, keywords, '{');
    lemma_replace_absent(x, "{{page_url}}"@, full_url, '{');
    lemma_replace_absent(x, "{{og_image}}"@, og_image, '{');
    lemma_replace_absent(x, "{{lang}}"@, lang, '{');
    let nav = "href=\"/"@ + current_page_name + "/\""@;
    assert(nav[5] == '"');
    lemma_replace_absent(x, nav, "href=\"/"@ + current_page_name + "/\" id=\"active\""@, '"');
    lemma_replace_absent(x, "<main></main>"@, "<main><div class=\"content\">"@ + content + "</div></main>"@, '<');
}

/// The `{{description}}` placeholder is filled with the description, not
/// with another field: a template that is only that placeholder renders as
/// the description, whatever the title and the other fields, when the
/// description itself holds no `{`, `<` or `"` (which would open another
/// placeholder, `<main>` or a navigation link).
pub proof fn law_description_fills_its_placeholder(
    title: Seq<char>,
    description: Seq<char>,
    keywords: Seq<char>,
    full_url: Seq<char>,
    og_image: Seq<char>,
    current_page_name: Seq<char>,
    content: Seq<char>,
    lang: Seq<char>,
)
    requires
        !description.contains('{'),
        !description.contains('<'),
        !description.contains('"'),
    ensures
        spec_render_page(
            "{{description}}"@,
            title,
            description,
            keywords,
            full_url,
            og_image,
            current_page_name,
            content,
            lang,
        ) == description,
{
    reveal_strlit("{{description}}");
    reveal_strlit("{{title}}");
    assert("{{title}}"@[5] == 'l');
    assert(!"{{description}}"@.contains('l')) by {
        if "{{description}}"@.contains('l') {
            let k = choose|k: int| 0 <= k < "{{description}}"@.len() && "{{description}}"@[k] == 'l';
            assert(0 <= k < 15);
        }
    }
    lemma_replace_absent("{{description}}"@, "{{title}}"@, title, 'l');
    lemma_replace_whole("{{description}}"@, description);
    lemma_render_tail_keeps(description, keywords, full_url, og_image, current_page_name, content, lang);
}

/// The `{{title}}` placeholder is filled with the title: a template that is
/// only that placeholder renders as the title, whatever the other fields,
/// when the title holds no `{`, `<` or `"`.
pub proof fn law_title_fills_its_placeholder(
    title: Seq<char>,
    description: Seq<char>,
    keywords: Seq<char>,
    full_url: Seq<char>,
    og_image: Seq<char>,
    current_page_name: Seq<char>,
    content: Seq<char>,
    lang: Seq<char>,
)
    requires
        !title.contains('{'),
        !title.contains('<'),
        !title.contains('"'),
    ensures
        spec_render_page("{{title}}"@, title, description, keywords, full_url, og_image, current_page_name, content, lang)
            == title,
{
    reveal_strlit("{{description}}");
    reveal_strlit("{{title}}");
    assert("{{description}}"@[0] == '{');
    lemma_replace_whole("{{title}}"@, title);
    lemma_replace_absent(title, "{{description}}"@, description, '{');
    lemma_render_tail_keeps(title, keywords, full_url, og_image, current_page_name, content, lang);
}

/// Whatever the site description `d`, the feed begins with `head` and then
/// a `<description>` element holding `d`, XML-escaped.
pub open spec fn opens_with_description(head: Seq<char>, site_title: Seq<char>, base_url: Seq<char>, ps: Seq<PageView>) -> bool {
    forall|d: Seq<char>|
        #![trigger spec_rss(site_title, d, base_url, ps)]
        (head + "<description>"@ + spec_xml_escape(d) + "</description>"@).is_prefix_of(
            spec_rss(site_title, d, base_url, ps),
        )
}

/// The feed's channel carries the site description: for given site title,
/// base URL and pages, the feed begins with the same head whatever the
/// description, followed by a `<description>` element holding the
/// XML-escaped description.
pub proof fn law_feed_channel_describes_the_site(site_title: Seq<char>, base_url: Seq<char>, ps: Seq<PageView>)
    ensures
        exists|head: Seq<char>| #[trigger] opens_with_description(head, site_title, base_url, ps),
{
    reveal_strlit("</link><description>");
    reveal_strlit("</link>");
    reveal_strlit("<description>");
    reveal_strlit("</description><language>en</language><lastBuildDate>");
    reveal_strlit("</description>");
    let head = "<?xml version=\"1.0\" encoding=\"UTF-8\"?><rss version=\"2.0\" xmlns:content=\"http://purl.org/rss/1.1/modules/content/\"><channel><title>"@
        + spec_xml_escape(site_title) + "</title><link>"@ + spec_xml_escape(clean_base(base_url)) + "</link>"@;
    assert forall|d: Seq<char>| #![trigger spec_rss(site_title, d, base_url, ps)]
        (head + "<description>"@ + spec_xml_escape(d) + "</description>"@).is_prefix_of(
            spec_rss(site_title, d, base_url, ps),
        ) by {
        let x = head + "<description>"@ + spec_xml_escape(d) + "</description>"@;
        let f = spec_rss(site_title, d, base_url, ps);
        assert("</link><description>"@ =~= "</link>"@ + "<description>"@);
        assert("</description><language>en</language><lastBuildDate>"@.take(14) =~= "</description>"@);
        assert(f.subrange(0, x.len() as int) =~= x);
    }
    assert(opens_with_description(head, site_title, base_url, ps));
}

proof fn lemma_tag_links_hold(tags: Seq<Seq<char>>, active_tag: Option<Seq<char>>, tag_base_url: Seq<char>, k: int)
    requires
        0 <= k < tags.len(),
    ensures
        crate::text::occurs_in(tag_links(tags, active_tag, tag_base_url), tag_link(tags[k], active_tag, tag_base_url)),
    decreases tags.len(),
{
    let init = tags.drop_last();
    let last = tag_link(tags.last(), active_tag, tag_base_url);
    if k == tags.len() - 1 {
        crate::text::lemma_occurs_mid(tag_links(init, active_tag, tag_base_url), last, Seq::empty());
        assert(tag_links(init, active_tag, tag_base_url) + last + Seq::<char>::empty() =~= tag_links(
            tags,
            active_tag,
            tag_base_url,
        ));
    } else {
        lemma_tag_links_hold(init, active_tag, tag_base_url, k);
        assert(init[k] == tags[k]);
        crate::text::lemma_occurs_around(
            Seq::empty(),
            tag_links(init, active_tag, tag_base_url),
            last,
            tag_link(tags[k], active_tag, tag_base_url),
        );
        assert(Seq::<char>::empty() + tag_links(init, active_tag, tag_base_url) + last =~= tag_links(
            tags,
            active_tag,
            tag_base_url,
        ));
    }
}

/// Every tag of the filter navigation links to its tag page: the link to
/// `tag_base_url` followed by the tag's slug, the directory its page is
/// written to.
pub proof fn law_tag_filters_link_to_tag_pages(
    tags: Seq<Seq<char>>,
    active_tag: Option<Seq<char>>,
    section_url: Seq<char>,
    tag_base_url: Seq<char>,
    k: int,
)
    requires
        0 <= k < tags.len(),
    ensures
        crate::text::occurs_in(
            spec_tag_nav(tags, active_tag, section_url, tag_base_url),
            "<a href=\""@ + tag_base_url + spec_slugify(tags[k]) + "/\""@,
        ),
{
    reveal_strlit("/\" class=\"");
    reveal_strlit("/\"");
    let tag = tags[k];
    let w = "<a href=\""@ + tag_base_url + spec_slugify(tag) + "/\""@;
    let link = tag_link(tag, active_tag, tag_base_url);
    let rest = " class=\""@ + tag_class(active_tag == Some(spec_slugify(tag))) + "\">"@ + spec_html_escape(tag)
        + "</a>"@;
    reveal_strlit(" class=\"");
    assert(link =~= Seq::<char>::empty() + w + rest);
    crate::text::lemma_occurs_mid(Seq::empty(), w, rest);
    lemma_tag_links_hold(tags, active_tag, tag_base_url, k);
    crate::text::lemma_occurs_trans(tag_links(tags, active_tag, tag_base_url), link, w);
    let pre = "<nav class=\"tag-filters\"><a href=\""@ + section_url + "\" class=\""@ + tag_class(active_tag is None)
        + "\">all</a>"@;
    crate::text::lemma_occurs_around(pre, tag_links(tags, active_tag, tag_base_url), "</nav>"@, w);
    assert(pre + tag_links(tags, active_tag, tag_base_url) + "</nav>"@ =~= spec_tag_nav(
        tags,
        active_tag,
        section_url,
        tag_base_url,
    ));
}

proof fn lemma_related_items_hold(ps: Seq<PageView>, sel: Seq<(nat, int)>, k: int)
    requires
        0 <= k < sel.len(),
    ensures
        crate::text::occurs_in(related_items(ps, sel), related_item(ps[sel[k].1])),
    decreases sel.len(),
{
    let init = sel.drop_last();
    let last = related_item(ps[sel.last().1]);
    if k == sel.len() - 1 {
        crate::text::lemma_occurs_mid(related_items(ps, init), last, Seq::empty());
        assert(related_items(ps, init) + last + Seq::<char>::empty() =~= related_items(ps, sel));
    } else {
        lemma_related_items_hold(ps, init, k);
        assert(init[k] == sel[k]);
        crate::text::lemma_occurs_around(Seq::empty(), related_items(ps, init), last, related_item(ps[sel[k].1]));
        assert(Seq::<char>::empty() + related_items(ps, init) + last =~= related_items(ps, sel));
    }
}

/// Each suggested article is shown by a link to its page whose text is the
/// page's title, HTML-escaped, or its file name when it has no title.
pub proof fn law_related_articles_show_titles(current: PageView, ps: Seq<PageView>, k: int)
    requires
        current.meta.tags.len() > 0,
        0 <= k < related_selection(current, ps).len(),
    ensures
        ({
            let p = ps[related_selection(current, ps)[k].1];
            let name = match p.meta.title {
                Some(t) => t,
                None => p.out_filename,
            };
            crate::text::occurs_in(
                spec_related_articles(current, ps),
                "<li><a href=\""@ + p.page_url + "\">"@ + spec_html_escape(name) + "</a>"@,
            )
        }),
{
    let sel = related_selection(current, ps);
    let p = ps[sel[k].1];
    let name = match p.meta.title {
        Some(t) => t,
        None => p.out_filename,
    };
    let w = "<li><a href=\""@ + p.page_url + "\">"@ + spec_html_escape(name) + "</a>"@;
    let date = match p.meta.date {
        Some(d) => " - <span class=\"related__date\">"@ + spec_format_date(d) + "</span>"@,
        None => Seq::empty(),
    };
    assert(related_item(p) =~= Seq::<char>::empty() + w + (date + "</li>"@));
    crate::text::lemma_occurs_mid(Seq::empty(), w, date + "</li>"@);
    lemma_related_items_hold(ps, sel, k);
    crate::text::lemma_occurs_trans(related_items(ps, sel), related_item(p), w);
    let pre = "<hr class=\"divider\" /><h3>Related Articles</h3><ul>"@;
    crate::text::lemma_occurs_around(pre, related_items(ps, sel), "</ul>"@, w);
}

} // verus!
