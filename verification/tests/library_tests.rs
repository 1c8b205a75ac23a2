use rssg::frontmatter::{
    front_matter_overlaps, front_matter_warning, parse_front_matter, parse_meta_lines, PageInfo, PageMeta,
};
use rssg::highlight::{
    code_blocks_ok, convert_callouts, extract_language, highlight_code_blocks, highlight_style,
    syntax_highlight_css,
};
use rssg::images::{is_raster_extension, rewrite_image_refs, static_rel_path, webp_file_name};
use rssg::listing::{chunk_bounds, first_section_key, listing_siblings, section_key, section_tags, tag_slugs, tagged_pages};
use rssg::publish::{
    article_dir, article_document, index_document, index_pages, listing_dir, not_found_document, page_body,
    published, sitemap_urls, tag_dir, tag_document, tag_pages,
};
use rssg::init::{new_page_content, new_page_path, sanitise_string, section_dir_names, toml_escape};
use rssg::render::{
    date_less, generate_post_list, generate_related_articles, generate_robots_txt, section_url_for_pages,
};
use rssg::serve::{inject_reload_script, is_reload_request, mime_type, names_directory, relative_request, request_path};
use rssg::site::{
    effective_posts_per_page, full_url, keywords, listing_page_count, not_found_template, og_image_url,
    page_content, page_url, paged_title, paged_url, prepare_template, sort_pages_by_date, sorted_unique_tags,
    text_less, with_post_header,
};
use rssg::utils::{
    build_timestamp, current_year, estimate_read_time, format_date, format_rfc822, html_decode, html_escape, json_escape,
    rfc822_date_in_range, slugify, xml_escape, year_of_timestamp,
};

fn page(url: &str, dir: &str, file: &str, date: Option<&str>, tags: &[&str]) -> PageInfo {
    PageInfo {
        relative_dir: dir.to_string(),
        out_filename: file.to_string(),
        page_url: url.to_string(),
        full_url: format!("https://example.com{url}"),
        meta: PageMeta {
            title: Some(url.to_string()),
            date: date.map(|d| d.to_string()),
            tags: tags.iter().map(|t| t.to_string()).collect(),
            ..Default::default()
        },
        body: String::new(),
        is_md: false,
    }
}

// --- ordering by date ---

#[test]
fn sort_puts_newest_first_and_undated_last() {
    let pages = vec![
        page("/a/", "", "a.html", None, &[]),
        page("/b/", "", "b.html", Some("2023-05-01"), &[]),
        page("/c/", "", "c.html", Some("2024-01-01"), &[]),
        page("/d/", "", "d.html", None, &[]),
        page("/e/", "", "e.html", Some("2023-12-31"), &[]),
    ];
    let sorted = sort_pages_by_date(pages);
    let urls: Vec<&str> = sorted.iter().map(|p| p.page_url.as_str()).collect();
    assert_eq!(urls, vec!["/c/", "/e/", "/b/", "/a/", "/d/"]);
}

#[test]
fn sort_keeps_order_of_equal_dates() {
    let pages = vec![
        page("/x/", "", "x.html", Some("2024-02-02"), &[]),
        page("/y/", "", "y.html", Some("2024-02-02"), &[]),
        page("/z/", "", "z.html", Some("2024-02-02"), &[]),
    ];
    let sorted = sort_pages_by_date(pages);
    let urls: Vec<&str> = sorted.iter().map(|p| p.page_url.as_str()).collect();
    assert_eq!(urls, vec!["/x/", "/y/", "/z/"]);
}

#[test]
fn sort_of_nothing_is_nothing() {
    assert!(sort_pages_by_date(Vec::new()).is_empty());
}

#[test]
fn date_order_compares_text_and_puts_none_first() {
    let none: Option<String> = None;
    let a = Some("2024-01-01".to_string());
    let b = Some("2024-01-02".to_string());
    assert!(date_less(&none, &a));
    assert!(!date_less(&a, &none));
    assert!(date_less(&a, &b));
    assert!(!date_less(&b, &a));
    assert!(!date_less(&a, &a));
    assert!(text_less("ab", "abc"));
    assert!(!text_less("abc", "ab"));
    assert!(text_less("B", "a"));
}

// --- escaping ---

#[test]
fn escaped_text_cannot_open_tags() {
    let nasty = "<script>alert(\"x\")</script> & 'q'";
    let h = html_escape(nasty);
    assert!(!h.contains('<') && !h.contains('>') && !h.contains('"'));
    assert_eq!(h, "&lt;script&gt;alert(&quot;x&quot;)&lt;/script&gt; &amp; 'q'");
    let x = xml_escape(nasty);
    assert!(!x.contains('<') && !x.contains('>'));
    let j = json_escape("a\nb\rc\td");
    assert!(!j.contains('\n') && !j.contains('\r') && !j.contains('\t'));
    assert_eq!(j, "a\\nb\\rc\\td");
}

#[test]
fn decoding_undoes_escaping() {
    let text = "if a < b && c > d { say(\"hi\") }";
    let no_amp = "x < y > \"z\" 'w'";
    assert_eq!(html_decode(&html_escape(no_amp)), no_amp);
    assert_eq!(html_decode(&html_escape(text)), text);
    assert_eq!(html_decode(&html_escape("a & b &amp; c")), "a & b &amp; c");
    // Text that already holds an entity is decoded one step too far.
    assert_eq!(html_decode(&html_escape("&lt;")), "<");
}

#[test]
fn slugs_and_names_have_no_spaces() {
    assert_eq!(slugify("  Rust Tips and Tricks "), "rust-tips-and-tricks");
    assert!(!slugify("a b  c").contains(' '));
    assert_eq!(sanitise_string(" My  New Page "), "my__new_page");
    assert!(!sanitise_string("x y").contains(' '));
}

#[test]
fn slug_lowercases_beyond_ascii() {
    assert_eq!(slugify("Ünïcode Tag"), "ünïcode-tag");
}

#[test]
fn toml_escape_quotes_and_backslashes() {
    assert_eq!(toml_escape("a \"b\" \\ c"), "a \\\"b\\\" \\\\ c");
}

// --- dates and reading time ---

#[test]
fn rfc822_formats_exactly() {
    assert_eq!(format_rfc822("2024-01-15"), "Mon, 15 Jan 2024 00:00:00 +0000");
    assert_eq!(format_rfc822("2000-02-29"), "Tue, 29 Feb 2000 00:00:00 +0000");
    assert_eq!(format_rfc822("2024-3-5"), "Tue, 05 Mar 2024 00:00:00 +0000");
    assert_eq!(format_rfc822("2024-13-01"), "2024-13-01");
    assert_eq!(format_rfc822("not a date"), "not a date");
    assert!(rfc822_date_in_range("2024-01-15"));
}

#[test]
fn format_date_spells_the_month() {
    assert_eq!(format_date("2024-03-07"), "7 March 2024");
    assert_eq!(format_date("2024-00-07"), "2024-00-07");
    assert_eq!(format_date("2024-03"), "2024-03");
}

#[test]
fn read_time_rounds_up_and_is_at_least_a_minute() {
    assert_eq!(estimate_read_time(""), 1);
    assert_eq!(estimate_read_time("   \n\t "), 1);
    let two_hundred = "word ".repeat(200);
    assert_eq!(estimate_read_time(&two_hundred), 1);
    let two_hundred_one = "word ".repeat(201);
    assert_eq!(estimate_read_time(&two_hundred_one), 2);
}

#[test]
fn year_of_timestamp_counts_from_1970() {
    assert_eq!(year_of_timestamp(0), 1970);
    assert_eq!(year_of_timestamp(31_536_000), 1970);
    assert_eq!(year_of_timestamp(31_557_600), 1971);
}

#[test]
fn clock_gives_a_current_time() {
    assert!(build_timestamp().unwrap() > 1_600_000_000);
    assert!(current_year().unwrap() >= 2024);
}

// --- front matter ---

#[test]
fn parsed_tags_are_never_empty() {
    let m = parse_meta_lines("tags: , Rust ,, web ,");
    assert_eq!(m.tags, vec!["rust".to_string(), "web".to_string()]);
    assert!(m.tags.iter().all(|t| !t.is_empty()));
}

#[test]
fn later_lines_override_earlier_ones() {
    let m = parse_meta_lines("title: One\ntitle: Two\ndraft: TRUE");
    assert_eq!(m.title.as_deref(), Some("Two"));
    assert!(m.draft);
}

#[test]
fn unclosed_front_matter_is_warned_about() {
    assert_eq!(
        front_matter_warning("---\ntitle: x\nbody"),
        Some("[WARNING] Front matter opening '---' found but closing '---' is missing")
    );
    assert_eq!(
        front_matter_warning("<!--\ntitle: x"),
        Some("[WARNING] Front matter opening '<!--' found but closing '-->' is missing")
    );
    assert_eq!(front_matter_warning("---\ntitle: x\n---\nbody"), None);
    assert_eq!(front_matter_warning("plain"), None);
}

#[test]
fn overlapping_comment_is_detected() {
    assert!(front_matter_overlaps("<!-->body"));
    assert!(!front_matter_overlaps("<!--\ntitle: x\n-->body"));
    assert!(!front_matter_overlaps("no comment"));
}

#[test]
fn new_page_front_matter_reads_back() {
    let md = new_page_content("md", "My Title", "About it", "a, b");
    assert_eq!(md, "---\ntitle: My Title\ndescription: About it\nkeywords: a, b\n---\n\n# My Title\n");
    let (meta, body) = parse_front_matter(&md);
    assert_eq!(meta.title.as_deref(), Some("My Title"));
    assert_eq!(meta.description.as_deref(), Some("About it"));
    assert!(meta.tags.is_empty());
    assert_eq!(body, "# My Title\n");

    let html = new_page_content("html", "A <b>", "D", "k");
    let (meta, body) = parse_front_matter(&html);
    assert_eq!(meta.title.as_deref(), Some("A <b>"));
    assert_eq!(body, "<h1>A &lt;b&gt;</h1>\n");
}

#[test]
fn new_page_path_sanitises_and_picks_extension() {
    assert_eq!(new_page_path("My Post", "html"), "my_post.html");
    assert_eq!(new_page_path("My Post", "txt"), "my_post.md");
}

#[test]
fn section_directories_from_navbar_items() {
    assert_eq!(section_dir_names("Blog, About Me"), vec!["blog".to_string(), "about_me".to_string()]);
}

// --- site structure ---

#[test]
fn page_urls_follow_directories() {
    assert_eq!(page_url("", "index"), "/");
    assert_eq!(page_url("writing", "index"), "/writing/");
    assert_eq!(page_url("", "about"), "/about/");
    assert_eq!(page_url("writing/2024", "post"), "/writing/2024/post/");
    assert_eq!(full_url(" https://example.com// ", "/a/"), "https://example.com/a/");
}

#[test]
fn og_image_prefers_page_then_site() {
    assert_eq!(og_image_url(Some("/static/p.png"), Some("/static/s.png"), "https://e.com/"), "https://e.com/static/p.png");
    assert_eq!(og_image_url(None, Some("http://cdn/s.png"), "https://e.com"), "http://cdn/s.png");
    assert_eq!(og_image_url(None, None, "https://e.com"), "");
}

#[test]
fn post_header_shows_dates_read_time_and_location() {
    let h = with_post_header("<p>x</p>", Some("2024-01-15"), Some("2024-02-01"), Some("Oslo"), "one two");
    assert_eq!(
        h,
        "<div class=\"post-header\"><div class=\"post-dates\"><time class=\"post-date\" datetime=\"2024-01-15\">15 January 2024</time><time class=\"post-updated\" datetime=\"2024-02-01\">Updated: 1 February 2024</time></div><span class=\"post-read-time\">1 min read</span><span class=\"post-location\">Oslo</span></div>\n<p>x</p>"
    );
    assert_eq!(with_post_header("<p>x</p>", None, None, None, "b"), "<p>x</p>");
    let same = with_post_header("c", Some("2024-01-15"), Some("2024-01-15"), None, "");
    assert!(!same.contains("Updated"));
}

#[test]
fn listing_pages_cover_every_post() {
    assert_eq!(effective_posts_per_page(0), 1);
    assert_eq!(effective_posts_per_page(7), 7);
    assert_eq!(listing_page_count(10, 3), 4);
    assert_eq!(listing_page_count(9, 3), 3);
    assert_eq!(listing_page_count(1, 10), 1);
    assert_eq!(listing_page_count(0, 10), 0);
    assert_eq!(paged_url("/writing/", 1), "/writing/");
    assert_eq!(paged_url("/writing/", 3), "/writing/3/");
    assert_eq!(paged_title("Blog", 2), "Blog — Page 2");
}

#[test]
fn keywords_join_and_escape_tags() {
    assert_eq!(keywords(&vec!["a&b".to_string(), "c".to_string()]), "a&amp;b, c");
    assert_eq!(keywords(&Vec::new()), "");
}

#[test]
fn section_tags_are_sorted_and_unique() {
    let a = page("/w/a/", "w", "a.html", None, &["rust", "web"]);
    let b = page("/w/b/", "w", "b.html", None, &["css", "rust", "Web"]);
    let tags = sorted_unique_tags(&[&a, &b]);
    assert_eq!(tags, vec!["Web".to_string(), "css".to_string(), "rust".to_string(), "web".to_string()]);
}

#[test]
fn section_url_comes_from_first_directory() {
    let root = page("/a/", "", "a.html", None, &[]);
    let deep = page("/w/x/b/", "w/x", "b.html", None, &[]);
    assert_eq!(section_url_for_pages(&[&root, &deep]), "/w/");
    assert_eq!(section_url_for_pages(&[&root]), "/");
}

#[test]
fn post_list_lists_pages_in_order() {
    let mut a = page("/a/", "", "a.html", Some("2024-01-15"), &["x"]);
    a.meta.location = Some("Rome".to_string());
    let out = generate_post_list(&[&a]);
    assert_eq!(
        out,
        "<ul class=\"post-list\"><li class=\"post-list__item\"><a href=\"/a/\"><div class=\"post-list__headline\"><h2>/a/</h2><time class=\"post-list__date\">15 January 2024</time></div><div class=\"post-list__meta\"><div class=\"post-list__tags\"><span class=\"post-list__tag\">x</span></div><span class=\"post-list__location\">Rome</span></div></a></li></ul>"
    );
    assert_eq!(generate_post_list(&[]), "");
}

#[test]
fn related_articles_rank_by_shared_tags_then_date() {
    let current = page("/cur/", "", "cur.html", None, &["a", "b"]);
    let all = vec![
        current.clone(),
        page("/one/", "", "one.html", Some("2024-01-01"), &["a"]),
        page("/two/", "", "two.html", Some("2023-01-01"), &["a", "b"]),
        page("/three/", "", "three.html", Some("2024-06-01"), &["b"]),
        page("/idx/", "", "index.html", Some("2025-01-01"), &["a", "b"]),
        page("/none/", "", "none.html", Some("2025-01-01"), &["z"]),
    ];
    let html = generate_related_articles(&current, &all);
    let two = html.find("/two/").unwrap();
    let three = html.find("/three/").unwrap();
    let one = html.find("/one/").unwrap();
    assert!(two < three && three < one);
    assert!(!html.contains("/cur/") && !html.contains("/idx/") && !html.contains("/none/"));
}

#[test]
fn robots_points_to_sitemap_under_clean_base() {
    assert_eq!(
        generate_robots_txt("  https://example.com/// "),
        "User-agent: *\nAllow: /\nSitemap: https://example.com/sitemap.xml\n"
    );
}

#[test]
fn template_gets_placeholders_filled() {
    let t = "<html><head></head><body>{{year}} {{author}} {{base_url}} {{refresh_cache}}</body></html>";
    let out = prepare_template(t, 42, 2025, "A&B", "https://e.com/", "<style></style>", &[]);
    assert!(out.starts_with("<html><head><style></style></head><body>2025 A&amp;B https://e.com 42<script>"));
    assert!(out.ends_with("</script></body></html>"));
}

#[test]
fn not_found_template_drops_canonical_lines() {
    let t = "<head>\n<link rel=\"canonical\" href=\"x\">\n<meta property=\"og:url\" content=\"x\">\n<title>t</title>\n</head>";
    assert_eq!(not_found_template(t), "<head>\n<title>t</title>\n</head>");
}

#[test]
fn not_found_template_strips_carriage_returns_before_newlines_only() {
    let t = "<head>\r\n<link rel=\"canonical\">\r\n</head>\r";
    assert_eq!(not_found_template(t), "<head>\n</head>\r");
}

// --- images ---

#[test]
fn image_references_point_to_webp() {
    let html = "<img src=\"/static/a/b.png\"><img src=\"/static/c.jpg\"><img src=\"/static/keep.gif\">";
    let out = rewrite_image_refs(html, &["a/b.png".to_string(), "c.jpg".to_string(), "noext".to_string()]);
    assert_eq!(out, "<img src=\"/static/a/b.webp\"><img src=\"/static/c.webp\"><img src=\"/static/keep.gif\">");
}

#[test]
fn raster_extensions_in_any_case() {
    assert!(is_raster_extension("PNG"));
    assert!(is_raster_extension("jpeg"));
    assert!(!is_raster_extension("gif"));
    assert!(!is_raster_extension(""));
    assert_eq!(static_rel_path("", "a.png"), "a.png");
    assert_eq!(static_rel_path("img", "a.png"), "img/a.png");
    assert_eq!(webp_file_name("photo"), "photo.webp");
}

// --- serving ---

#[test]
fn content_types_by_extension() {
    assert_eq!(mime_type("index.html"), "text/html; charset=utf-8");
    assert_eq!(mime_type("a.b.css"), "text/css");
    assert_eq!(mime_type("photo.JPG"), "application/octet-stream");
    assert_eq!(mime_type("photo.jpeg"), "image/jpeg");
    assert_eq!(mime_type("photo.webp"), "image/webp");
    assert_eq!(mime_type(".htaccess"), "application/octet-stream");
    assert_eq!(mime_type("README"), "application/octet-stream");
}

#[test]
fn request_paths_and_reload() {
    assert_eq!(request_path("/a/b?x=1?y"), "/a/b");
    assert_eq!(relative_request("///a/b"), "a/b");
    assert!(names_directory("/a/"));
    assert!(!names_directory("/a"));
    assert!(is_reload_request("/__reload__"));
    assert!(!is_reload_request("/__reload__/"));
    let page = inject_reload_script("<body>x</body>");
    assert!(page.starts_with("<body>x<script>"));
    assert!(page.ends_with("</script></body>"));
    assert_eq!(inject_reload_script("no body"), "no body");
}

// --- content through the outside crates ---

#[test]
fn markdown_content_is_rendered_with_callouts() {
    let ss = syntect::parsing::SyntaxSet::load_defaults_newlines();
    let out = page_content("# Hi\n\n> [!NOTE] Title\n> body text\n", true, &ss).unwrap();
    assert!(out.starts_with("<h1>Hi</h1>"));
    assert!(out.contains("<div class=\"callout callout--note\">"));
    assert!(out.contains("<span class=\"callout__title\">Title</span>"));
    assert!(!out.contains("<blockquote>"));
}

#[test]
fn html_content_is_kept_apart_from_code_blocks() {
    let ss = syntect::parsing::SyntaxSet::load_defaults_newlines();
    let out = page_content("<p># not markdown</p>", false, &ss).unwrap();
    assert_eq!(out, "<p># not markdown</p>");
}

#[test]
fn code_blocks_are_highlighted_when_the_language_is_known() {
    let ss = syntect::parsing::SyntaxSet::load_defaults_newlines();
    let html = "<pre><code class=\"language-rust\">fn main() {}\n</code></pre>";
    let out = highlight_code_blocks(html, &ss);
    assert!(out.starts_with("<div class=\"code-block\"><div class=\"code-block__header\"><span class=\"code-block__lang\">rust</span>"));
    assert!(out.contains("<span class=\""));
    assert!(out.ends_with("</code></pre></div>"));

    let plain = highlight_code_blocks("<pre><code>a &lt; b</code></pre>", &ss);
    assert_eq!(
        plain,
        "<div class=\"code-block\"><div class=\"code-block__header\"><span class=\"code-block__lang\"></span><button class=\"code-block__copy\">Copy</button></div><pre><code>a &lt; b</code></pre></div>"
    );
}

#[test]
fn malformed_code_block_is_refused() {
    let ss = syntect::parsing::SyntaxSet::load_defaults_newlines();
    let bad = "<pre><code</code></pre> tail";
    assert!(!code_blocks_ok(bad));
    assert!(page_content(bad, false, &ss).is_none());
    assert!(code_blocks_ok("<pre><code>x</code></pre>"));
    assert!(code_blocks_ok("no code"));
}

#[test]
fn language_of_a_code_tag() {
    assert_eq!(extract_language("<code class=\"language-python\">").as_deref(), Some("python"));
    assert_eq!(extract_language("<code class='language-js'>").as_deref(), Some("js"));
    assert_eq!(extract_language("<code>"), None);
    assert_eq!(extract_language("<code class=\"language-x"), None);
}

#[test]
fn callout_without_marker_stays_a_quote() {
    assert_eq!(convert_callouts("<blockquote><p>x</p></blockquote>"), "<blockquote><p>x</p></blockquote>");
    assert_eq!(convert_callouts("<blockquote>open"), "<blockquote>open");
}

#[test]
fn text_around_plain_quotes_is_kept() {
    let html = "<h1>A</h1><blockquote> <p>[x]</p> </blockquote><p>b</p><blockquote><p>c";
    assert_eq!(convert_callouts(html), html);
}

#[test]
fn bare_callout_has_type_label_only() {
    assert_eq!(
        convert_callouts("<blockquote><p>[!Warning]</p></blockquote>"),
        "<div class=\"callout callout--warning\"><div class=\"callout__header\"><span class=\"callout__type\">Warning</span></div></div>"
    );
}

#[test]
fn theme_css_is_wrapped_in_the_style_block() {
    let ts = syntect::highlighting::ThemeSet::load_defaults();
    let css = syntax_highlight_css(&ts);
    let empty = highlight_style("", "");
    assert!(css.starts_with("<style>pre code{background:none;padding:0;}"));
    assert!(css.ends_with("</style>"));
    assert!(css.len() > empty.len());
}

// --- listings ---

#[test]
fn index_page_lists_its_directory_posts_in_order() {
    let pages = vec![
        page("/w/", "w", "index.html", None, &[]),
        page("/w/a/", "w", "a.html", Some("2024-02-01"), &[]),
        page("/x/b/", "x", "b.html", Some("2024-01-01"), &[]),
        page("/w/c/", "w", "c.html", None, &[]),
        page("/w/sub/", "w", "index.html", None, &[]),
    ];
    assert_eq!(listing_siblings(&pages, 0), vec![1, 3]);
    assert_eq!(listing_siblings(&pages, 2), Vec::<usize>::new());
}

#[test]
fn listing_pages_cut_posts_in_order() {
    assert_eq!(chunk_bounds(7, 3, 1), (0, 3));
    assert_eq!(chunk_bounds(7, 3, 2), (3, 6));
    assert_eq!(chunk_bounds(7, 3, 3), (6, 7));
    assert_eq!(chunk_bounds(7, 3, 4), (7, 7));
    assert_eq!(chunk_bounds(0, 3, 1), (0, 0));
    assert_eq!(chunk_bounds(5, usize::MAX, usize::MAX), (5, 5));
}

#[test]
fn tag_pages_group_posts_by_slug() {
    let pages = vec![
        page("/a/", "w", "a.html", None, &["Rust", "web dev"]),
        page("/b/", "w", "b.html", None, &["rust", "Rust"]),
        page("/i/", "w", "index.html", None, &["hidden"]),
        page("/c/", "x/y", "c.html", None, &["Web Dev"]),
    ];
    assert_eq!(tag_slugs(&pages), vec!["rust".to_string(), "web-dev".to_string()]);
    assert_eq!(tagged_pages(&pages, "rust"), vec![0, 1, 1]);
    assert_eq!(tagged_pages(&pages, "web-dev"), vec![0, 3]);
    assert_eq!(tagged_pages(&pages, "hidden"), Vec::<usize>::new());
}

#[test]
fn sections_and_their_tags() {
    let pages = vec![
        page("/a/", "w", "a.html", None, &["b", "a"]),
        page("/b/", "w/deep", "b.html", None, &["c", "a"]),
        page("/i/", "w", "index.html", None, &["z"]),
        page("/c/", "x", "c.html", None, &["q"]),
    ];
    assert_eq!(section_key("w/deep"), "w");
    assert_eq!(section_key(""), "");
    assert_eq!(section_tags(&pages, "w"), vec!["a".to_string(), "b".to_string(), "c".to_string()]);
    let root = page("/r/", "", "r.html", None, &[]);
    assert_eq!(first_section_key(&[&root, &pages[3]]), "x");
    assert_eq!(first_section_key(&[&root]), "");
}

// --- what a build publishes ---

fn site() -> rssg::frontmatter::SiteConfig {
    rssg::frontmatter::SiteConfig {
        title: "Site".to_string(),
        base_url: "https://e.com/".to_string(),
        author: "Ann".to_string(),
        description: "About".to_string(),
        posts_per_page: 1,
        optimize_images: false,
        webp_quality: 80,
        max_image_width: None,
        og_image: None,
        locale: "en_US".to_string(),
    }
}

const TEMPLATE: &str = "<title>{{title}}</title><meta property=\"og:type\" content=\"website\" /><link href=\"{{page_url}}\"><main></main>";

#[test]
fn drafts_are_not_published() {
    let mut draft = page("/d/", "", "d.html", None, &[]);
    draft.meta.draft = true;
    let kept = published(vec![page("/a/", "", "a.html", None, &[]), draft, page("/b/", "", "b.html", None, &[])]);
    let urls: Vec<&str> = kept.iter().map(|p| p.page_url.as_str()).collect();
    assert_eq!(urls, vec!["/a/", "/b/"]);
}

#[test]
fn sitemap_lists_pages_then_tags() {
    let mut a = page("/w/a/", "w", "a.html", Some("2024-01-01"), &["Rust"]);
    a.meta.last_edited = Some("2024-02-02".to_string());
    let b = page("/w/b/", "w", "b.html", Some("2024-01-05"), &[]);
    let idx = page("/w/", "w", "index.html", Some("2024-03-03"), &["x"]);
    let urls = sitemap_urls(&[a, b, idx]);
    assert_eq!(
        urls,
        vec![
            ("/w/a/".to_string(), Some("2024-02-02".to_string())),
            ("/w/b/".to_string(), Some("2024-01-05".to_string())),
            ("/w/".to_string(), None),
            ("/tags/rust/".to_string(), None),
        ]
    );
}

#[test]
fn documents_and_where_they_go() {
    let config = site();
    let a = page("/w/a/", "w", "a.html", Some("2024-01-01"), &["t"]);
    let doc = article_document(&config, TEMPLATE, &a, "<p>x</p>", &[]);
    assert!(doc.contains("<title>/w/a/</title>"));
    assert!(doc.contains("article:published_time"));
    assert!(doc.contains("<main><div class=\"content\"><p>x</p></div></main>"));
    assert_eq!(article_dir(&a), "dist/w/a");
    let root = page("/r/", "", "r.html.html", None, &[]);
    assert_eq!(article_dir(&root), "dist/r");

    let idx = page("/w/", "w", "index.html", None, &[]);
    let b = page("/w/b/", "w", "b.html", None, &[]);
    assert_eq!(index_pages(&config, 2), 2);
    assert_eq!(index_pages(&config, 0), 1);
    let first = index_document(&config, TEMPLATE, &idx, "<p>intro</p>", &[&a, &b], 1, &[]);
    assert!(first.contains("<p>intro</p><nav class=\"tag-filters\">"));
    assert!(first.contains("/w/a/") && !first.contains("href=\"/w/b/\""));
    let second = index_document(&config, TEMPLATE, &idx, "<p>intro</p>", &[&a, &b], 2, &[]);
    assert!(second.contains("<title>/w/ — Page 2</title>"));
    assert!(second.contains("https://e.com/w/2/"));
    assert!(!second.contains("intro"));
    assert_eq!(listing_dir(&idx, 1), "dist/w");
    assert_eq!(listing_dir(&idx, 3), "dist/w/3");

    let pages = vec![a.clone(), b.clone()];
    assert_eq!(tag_pages(&config, &pages, "t"), 1);
    let tag = tag_document(&config, TEMPLATE, &pages, "t", 1, &[]);
    assert!(tag.contains("<title>t</title>"));
    assert!(tag.contains("https://e.com/tags/t/"));
    assert_eq!(tag_dir("t", 1), "dist/tags/t");
    assert_eq!(tag_dir("t", 2), "dist/tags/t/2");

    let nf = not_found_document("<link rel=\"canonical\">\n<title>{{title}}</title><main></main>", &[]);
    assert_eq!(nf, "<title>404 - Page Not Found</title><main><div class=\"content\"><h1>404</h1><p>Page not found.</p></div></main>");
}

#[test]
fn page_body_adds_the_post_header() {
    let ss = syntect::parsing::SyntaxSet::load_defaults_newlines();
    let mut a = page("/a/", "", "a.html", Some("2024-01-15"), &[]);
    a.body = "<p>hi</p>".to_string();
    let body = page_body(&a, &ss).unwrap();
    assert!(body.starts_with("<div class=\"post-header\">"));
    assert!(body.ends_with("</div>\n<p>hi</p>"));
}

#[test]
fn whole_site_documents() {
    let ss = syntect::parsing::SyntaxSet::load_defaults_newlines();
    let config = site();
    let idx = page("/w/", "w", "index.html", None, &[]);
    let a = page("/w/a/", "w", "a.html", Some("2024-01-01"), &["t"]);
    let b = page("/w/b/", "w", "b.html", None, &[]);
    let docs = rssg::publish::site_documents(&config, TEMPLATE, &[a, idx, b], &ss, &[]).unwrap();
    let paths: Vec<&str> = docs.iter().map(|d| d.0.as_str()).collect();
    assert_eq!(
        paths,
        vec![
            "dist/w/a/index.html",
            "dist/w/index.html",
            "dist/w/2/index.html",
            "dist/w/b/index.html",
            "dist/tags/t/index.html",
            "dist/sitemap.xml",
            "dist/feed.xml",
            "dist/404.html",
            "dist/robots.txt",
        ]
    );
    let mut bad = page("/x/", "", "x.html", None, &[]);
    bad.body = "<pre><code</code></pre>".to_string();
    assert!(rssg::publish::site_documents(&config, TEMPLATE, &[bad], &ss, &[]).is_none());
}
