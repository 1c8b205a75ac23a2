//! Site configuration, page metadata and the front matter that carries it.
use vstd::prelude::*;
use crate::text::{
    chars_of, eq_ignore_ascii_case, eq_ignore_ascii_case_range, find, find_in, line_ranges, lines, lowercase,
    range_eq, split_char, split_ranges, starts_with, starts_with_at, string_of, to_lowercase, trim, trim_range,
    trim_start_char, trim_start_char_range,
};

verus! {

/// Site-wide settings (`rssg.toml`).
pub struct SiteConfig {
    pub title: String,
    pub base_url: String,
    pub author: String,
    pub description: String,
    pub posts_per_page: usize,
    pub optimize_images: bool,
    pub webp_quality: u8,
    pub max_image_width: Option<u32>,
    pub og_image: Option<String>,
    pub locale: String,
}

/// Posts on one listing page when the configuration names none.
pub fn default_posts_per_page() -> (r: usize)
    ensures
        r == 10,
{
    10
}

/// WebP quality when the configuration names none.
pub fn default_webp_quality() -> (r: u8)
    ensures
        r == 80,
{
    80
}

/// Open Graph locale when the configuration names none.
pub fn default_locale() -> (r: String)
    ensures
        r@ == "en_US"@,
{
    let mut r = String::new();
    crate::text::push_str(&mut r, "en_US");
    r
}

/// Per-page settings read from front matter.
#[derive(Clone)]
pub struct PageMeta {
    pub title: Option<String>,
    pub description: Option<String>,
    pub date: Option<String>,
    pub last_edited: Option<String>,
    pub tags: Vec<String>,
    pub location: Option<String>,
    pub language: Option<String>,
    pub og_image: Option<String>,
    pub draft: bool,
}

/// A page found under `pages/`, with where it is published.
#[derive(Clone)]
pub struct PageInfo {
    /// The page's directory relative to `pages/`, `/`-separated.
    pub relative_dir: String,
    pub out_filename: String,
    pub page_url: String,
    pub full_url: String,
    pub meta: PageMeta,
    pub body: String,
    pub is_md: bool,
}

/// The text of an optional string.
pub open spec fn opt_view(o: Option<String>) -> Option<Seq<char>> {
    match o {
        Some(s) => Some(s@),
        None => None,
    }
}

/// The texts of a list of strings.
pub open spec fn strings_view(v: Seq<String>) -> Seq<Seq<char>> {
    v.map_values(|s: String| s@)
}

/// Page metadata as plain values.
pub struct MetaView {
    pub title: Option<Seq<char>>,
    pub description: Option<Seq<char>>,
    pub date: Option<Seq<char>>,
    pub last_edited: Option<Seq<char>>,
    pub tags: Seq<Seq<char>>,
    pub location: Option<Seq<char>>,
    pub language: Option<Seq<char>>,
    pub og_image: Option<Seq<char>>,
    pub draft: bool,
}

impl View for PageMeta {
    type V = MetaView;

    open spec fn view(&self) -> MetaView {
        MetaView {
            title: opt_view(self.title),
            description: opt_view(self.description),
            date: opt_view(self.date),
            last_edited: opt_view(self.last_edited),
            tags: strings_view(self.tags@),
            location: opt_view(self.location),
            language: opt_view(self.language),
            og_image: opt_view(self.og_image),
            draft: self.draft,
        }
    }
}

/// A page as plain values.
pub struct PageView {
    pub relative_dir: Seq<char>,
    pub out_filename: Seq<char>,
    pub page_url: Seq<char>,
    pub full_url: Seq<char>,
    pub meta: MetaView,
    pub body: Seq<char>,
    pub is_md: bool,
}

impl View for PageInfo {
    type V = PageView;

    open spec fn view(&self) -> PageView {
        PageView {
            relative_dir: self.relative_dir@,
            out_filename: self.out_filename@,
            page_url: self.page_url@,
            full_url: self.full_url@,
            meta: self.meta@,
            body: self.body@,
            is_md: self.is_md,
        }
    }
}

/// Metadata with nothing set.
pub open spec fn empty_meta() -> MetaView {
    MetaView {
        title: None,
        description: None,
        date: None,
        last_edited: None,
        tags: Seq::empty(),
        location: None,
        language: None,
        og_image: None,
        draft: false,
    }
}

impl Default for PageMeta {
    fn default() -> (r: PageMeta)
        ensures
            r@ == empty_meta(),
    {
        let r = PageMeta {
            title: None,
            description: None,
            date: None,
            last_edited: None,
            tags: Vec::new(),
            location: None,
            language: None,
            og_image: None,
            draft: false,
        };
        assert(strings_view(r.tags@) == Seq::<Seq<char>>::empty());
        r
    }
}

/// The tags of a `tags:` value: split at commas, each trimmed and lowercased,
/// empty ones dropped.
pub open spec fn keep_tags(ps: Seq<Seq<char>>) -> Seq<Seq<char>>
    decreases ps.len(),
{
    if ps.len() == 0 {
        Seq::empty()
    } else {
        let init = keep_tags(ps.drop_last());
        let t = lowercase(trim(ps.last()));
        if t.len() > 0 {
            init.push(t)
        } else {
            init
        }
    }
}

pub open spec fn parse_tags(value: Seq<char>) -> Seq<Seq<char>> {
    keep_tags(split_char(value, ','))
}

/// No tag read from front matter is empty.
pub proof fn law_parsed_tags_nonempty(value: Seq<char>)
    ensures
        forall|k: int| 0 <= k < parse_tags(value).len() ==> (#[trigger] parse_tags(value)[k]).len() > 0,
{
    lemma_keep_tags_nonempty(split_char(value, ','));
}

proof fn lemma_keep_tags_nonempty(ps: Seq<Seq<char>>)
    ensures
        forall|k: int| 0 <= k < keep_tags(ps).len() ==> (#[trigger] keep_tags(ps)[k]).len() > 0,
    decreases ps.len(),
{
    if ps.len() > 0 {
        lemma_keep_tags_nonempty(ps.drop_last());
        let init = keep_tags(ps.drop_last());
        assert forall|k: int| 0 <= k < keep_tags(ps).len() implies (#[trigger] keep_tags(ps)[k]).len() > 0 by {
            if k < init.len() {
                assert(keep_tags(ps)[k] == init[k]);
            }
        }
    }
}

/// The effect of one front matter line `key: value` on the metadata; lines
/// without `:` and unknown keys change nothing.
pub open spec fn apply_meta_line(m: MetaView, line: Seq<char>) -> MetaView {
    match find(line, ":"@) {
        None => m,
        Some(i) => {
            let key = trim(line.take(i));
            let value = trim(line.skip(i + 1));
            if key == "title"@ {
                MetaView { title: Some(value), ..m }
            } else if key == "description"@ {
                MetaView { description: Some(value), ..m }
            } else if key == "date"@ {
                MetaView { date: Some(value), ..m }
            } else if key == "last_edited"@ {
                MetaView { last_edited: Some(value), ..m }
            } else if key == "location"@ {
                MetaView { location: Some(value), ..m }
            } else if key == "language"@ {
                MetaView { language: Some(value), ..m }
            } else if key == "og_image"@ {
                MetaView { og_image: Some(value), ..m }
            } else if key == "draft"@ {
                MetaView { draft: eq_ignore_ascii_case(value, "true"@), ..m }
            } else if key == "tags"@ {
                MetaView { tags: parse_tags(value), ..m }
            } else {
                m
            }
        },
    }
}

/// A line ending in `v` keeps everything before `v` when its carriage
/// return is removed.
proof fn lemma_strip_cr_after(x: Seq<char>, v: Seq<char>)
    requires
        x.len() > 0,
        x.last() != '\r',
    ensures
        crate::text::strip_cr(x + v) == x + crate::text::strip_cr(v),
{
    if v.len() > 0 {
        assert((x + v).last() == v.last());
        assert((x + v).drop_last() == x + v.drop_last());
    } else {
        assert(x + v == x);
    }
}

/// The line `key: v` (its carriage return removed) has its first `:` right
/// after the key, and reads as that key with the value `v` trimmed.
#[verifier::spinoff_prover]
#[verifier::rlimit(40)]
pub proof fn lemma_key_line(key: Seq<char>, v: Seq<char>)
    requires
        key.len() > 0,
        !key.contains(':'),
        !crate::text::is_ws(key[0]),
        !crate::text::is_ws(key.last()),
    ensures
        find(crate::text::strip_cr(key + ": "@ + v), ":"@) == Some(key.len() as int),
        trim(crate::text::strip_cr(key + ": "@ + v).take(key.len() as int)) == key,
        trim(crate::text::strip_cr(key + ": "@ + v).skip(key.len() + 1int)) == trim(v),
{
    let w = crate::text::strip_cr(v);
    let line = key + (seq![':'] + (seq![' '] + w));
    assert(crate::text::strip_cr(key + ": "@ + v) == line) by {
        reveal_strlit(": ");
        lemma_strip_cr_after(key + ": "@, v);
        assert(key + ": "@ + w =~= line);
    }
    assert(find(line, ":"@) == Some(key.len() as int)) by {
        reveal_strlit(":");
        assert(":"@ =~= seq![':']);
        crate::text::lemma_find(line, ":"@);
        assert(line.subrange(key.len() as int, key.len() + 1int) =~= seq![':']);
        assert(crate::text::match_at(line, ":"@, key.len() as int));
        assert forall|k: int| 0 <= k < key.len() implies !crate::text::match_at(line, ":"@, k) by {
            if crate::text::match_at(line, ":"@, k) {
                assert(line.subrange(k, k + 1)[0] == ':');
                assert(line[k] == key[k]);
            }
        }
    }
    assert(trim(line.take(key.len() as int)) == key) by {
        assert(line.take(key.len() as int) =~= key);
        assert(crate::text::trim_start(key) == key);
        assert(crate::text::trim_end(key) == key);
    }
    assert(trim(line.skip(key.len() + 1int)) == trim(v)) by {
        assert(line.skip(key.len() + 1int) =~= seq![' '] + w);
        crate::text::lemma_trim_ws_front(' ', w);
        if v.len() > 0 && v.last() == '\r' {
            assert(v =~= w.push('\r'));
            crate::text::lemma_trim_ws_back(w, '\r');
        }
    }
}

/// The metadata of lines, applied first to last.
pub open spec fn meta_of_lines(ls: Seq<Seq<char>>) -> MetaView
    decreases ls.len(),
{
    if ls.len() == 0 {
        empty_meta()
    } else {
        apply_meta_line(meta_of_lines(ls.drop_last()), ls.last())
    }
}

/// The three lines that `new` writes into front matter: they set the
/// title and description, trimmed, and nothing else (`keywords` is not a
/// key the reader knows).
pub open spec fn new_page_lines(t: Seq<char>, d: Seq<char>, k: Seq<char>) -> Seq<Seq<char>> {
    seq![
        crate::text::strip_cr("title"@ + ": "@ + t),
        crate::text::strip_cr("description"@ + ": "@ + d),
        crate::text::strip_cr("keywords"@ + ": "@ + k),
    ]
}

proof fn lemma_literal_keys()
    ensures
        !"title"@.contains(':') && !crate::text::is_ws("title"@[0]) && !crate::text::is_ws("title"@.last()),
        !"description"@.contains(':') && !crate::text::is_ws("description"@[0]) && !crate::text::is_ws(
            "description"@.last(),
        ),
        !"keywords"@.contains(':') && !crate::text::is_ws("keywords"@[0]) && !crate::text::is_ws(
            "keywords"@.last(),
        ),
        "title"@.len() == 5 && "description"@.len() == 11 && "keywords"@.len() == 8,
        "description"@ != "title"@,
        "keywords"@ != "title"@ && "keywords"@ != "description"@ && "keywords"@ != "date"@ && "keywords"@
            != "last_edited"@ && "keywords"@ != "location"@ && "keywords"@ != "language"@ && "keywords"@
            != "og_image"@ && "keywords"@ != "draft"@ && "keywords"@ != "tags"@,
{
    reveal_strlit("title");
    reveal_strlit("description");
    reveal_strlit("keywords");
    reveal_strlit("date");
    reveal_strlit("last_edited");
    reveal_strlit("location");
    reveal_strlit("language");
    reveal_strlit("og_image");
    reveal_strlit("draft");
    reveal_strlit("tags");
    assert("keywords"@[0] != "location"@[0]);
    assert("keywords"@[0] != "language"@[0]);
    assert("keywords"@[0] != "og_image"@[0]);
}

/// The front matter lines of a new page read as its trimmed title and
/// description.
#[verifier::spinoff_prover]
#[verifier::rlimit(40)]
pub proof fn lemma_new_page_lines(t: Seq<char>, d: Seq<char>, k: Seq<char>)
    ensures
        meta_of_lines(new_page_lines(t, d, k)) == (MetaView {
            title: Some(trim(t)),
            description: Some(trim(d)),
            ..empty_meta()
        }),
        meta_of_lines(seq![Seq::<char>::empty()] + new_page_lines(t, d, k)) == (MetaView {
            title: Some(trim(t)),
            description: Some(trim(d)),
            ..empty_meta()
        }),
{
    lemma_literal_keys();
    lemma_key_line("title"@, t);
    lemma_key_line("description"@, d);
    lemma_key_line("keywords"@, k);
    let ls = new_page_lines(t, d, k);
    let m1 = MetaView { title: Some(trim(t)), ..empty_meta() };
    let m2 = MetaView { title: Some(trim(t)), description: Some(trim(d)), ..empty_meta() };
    assert(apply_meta_line(empty_meta(), ls[0]) == m1);
    assert(apply_meta_line(m1, ls[1]) == m2);
    assert(apply_meta_line(m2, ls[2]) == m2);
    assert(apply_meta_line(empty_meta(), Seq::<char>::empty()) == empty_meta()) by {
        reveal_strlit(":");
    }
    assert(meta_of_lines(Seq::<Seq<char>>::empty()) == empty_meta());
    assert(ls.drop_last() == seq![ls[0], ls[1]]);
    assert(seq![ls[0], ls[1]].drop_last() == seq![ls[0]]);
    assert(seq![ls[0]].drop_last() == Seq::<Seq<char>>::empty());
    assert(meta_of_lines(seq![ls[0]]) == m1);
    assert(meta_of_lines(seq![ls[0], ls[1]]) == m2);
    let hs = seq![Seq::<char>::empty()] + ls;
    assert(hs.drop_last() == seq![Seq::<char>::empty(), ls[0], ls[1]]);
    assert(seq![Seq::<char>::empty(), ls[0], ls[1]].drop_last() == seq![Seq::<char>::empty(), ls[0]]);
    assert(seq![Seq::<char>::empty(), ls[0]].drop_last() == seq![Seq::<char>::empty()]);
    assert(seq![Seq::<char>::empty()].drop_last() == Seq::<Seq<char>>::empty());
    assert(meta_of_lines(seq![Seq::<char>::empty()]) == empty_meta());
    assert(meta_of_lines(seq![Seq::<char>::empty(), ls[0]]) == m1);
    assert(meta_of_lines(seq![Seq::<char>::empty(), ls[0], ls[1]]) == m2);
}

/// The metadata written by the lines of `text`.
pub open spec fn spec_parse_meta(text: Seq<char>) -> MetaView {
    meta_of_lines(lines(text))
}

/// The tags of `v[lo..hi]`.
fn tags_of(v: &Vec<char>, lo: usize, hi: usize) -> (r: Vec<String>)
    requires
        lo <= hi <= v.len(),
    ensures
        strings_view(r@) == parse_tags(v@.subrange(lo as int, hi as int)),
{
    let ghost ps = split_char(v@.subrange(lo as int, hi as int), ',');
    let pieces = split_ranges(v, lo, hi, ',');
    let mut r: Vec<String> = Vec::new();
    let mut k: usize = 0;
    assert(ps.subrange(0, 0) == Seq::<Seq<char>>::empty());
    assert(strings_view(r@) == Seq::<Seq<char>>::empty());
    while k < pieces.len()
        invariant
            k <= pieces.len(),
            lo <= hi <= v.len(),
            pieces.len() == ps.len(),
            forall|j: int|
                0 <= j < pieces.len() ==> lo <= (#[trigger] pieces[j]).0 <= pieces[j].1 <= hi && v@.subrange(
                    pieces[j].0 as int,
                    pieces[j].1 as int,
                ) == ps[j],
            strings_view(r@) == keep_tags(ps.subrange(0, k as int)),
        decreases pieces.len() - k,
    {
        let (a, b) = pieces[k];
        let (ta, tb) = trim_range(v, a, b);
        let t = string_of(v, ta, tb);
        let low = to_lowercase(t.as_str());
        assert(ps.subrange(0, k + 1).drop_last() == ps.subrange(0, k as int));
        assert(ps.subrange(0, k + 1).last() == ps[k as int]);
        let keep = chars_of(low.as_str()).len() > 0;
        if keep {
            let ghost old_r = r@;
            r.push(low);
            assert(strings_view(r@) == strings_view(old_r).push(r@.last()@));
        }
        k += 1;
    }
    assert(ps.subrange(0, pieces.len() as int) == ps);
    r
}

/// `meta` after the front matter line `v[lo..hi]`.
fn apply_line(meta: &mut PageMeta, v: &Vec<char>, lo: usize, hi: usize)
    requires
        lo <= hi <= v.len(),
    ensures
        final(meta)@ == apply_meta_line(old(meta)@, v@.subrange(lo as int, hi as int)),
{
    let ghost line = v@.subrange(lo as int, hi as int);
    let colon = match find_in(v, lo, hi, &chars_of(":")) {
        Some(i) => i,
        None => return ,
    };
    proof {
        reveal_strlit(":");
    }
    let (ka, kb) = trim_range(v, lo, colon);
    let (va, vb) = trim_range(v, colon + 1, hi);
    assert(line.take(colon - lo) == v@.subrange(lo as int, colon as int));
    assert(line.skip(colon - lo + 1) == v@.subrange(colon + 1, hi as int));
    if range_eq(v, ka, kb, &chars_of("title")) {
        meta.title = Some(string_of(v, va, vb));
    } else if range_eq(v, ka, kb, &chars_of("description")) {
        meta.description = Some(string_of(v, va, vb));
    } else if range_eq(v, ka, kb, &chars_of("date")) {
        meta.date = Some(string_of(v, va, vb));
    } else if range_eq(v, ka, kb, &chars_of("last_edited")) {
        meta.last_edited = Some(string_of(v, va, vb));
    } else if range_eq(v, ka, kb, &chars_of("location")) {
        meta.location = Some(string_of(v, va, vb));
    } else if range_eq(v, ka, kb, &chars_of("language")) {
        meta.language = Some(string_of(v, va, vb));
    } else if range_eq(v, ka, kb, &chars_of("og_image")) {
        meta.og_image = Some(string_of(v, va, vb));
    } else if range_eq(v, ka, kb, &chars_of("draft")) {
        meta.draft = eq_ignore_ascii_case_range(v, va, vb, &chars_of("true"));
    } else if range_eq(v, ka, kb, &chars_of("tags")) {
        meta.tags = tags_of(v, va, vb);
    }
}

/// The metadata written by the lines of `v[lo..hi]`.
fn meta_of(v: &Vec<char>, lo: usize, hi: usize) -> (m: PageMeta)
    requires
        lo <= hi <= v.len(),
    ensures
        m@ == spec_parse_meta(v@.subrange(lo as int, hi as int)),
{
    let ghost ls = lines(v@.subrange(lo as int, hi as int));
    let rs = line_ranges(v, lo, hi);
    let mut m = PageMeta::default();
    let mut k: usize = 0;
    assert(ls.subrange(0, 0) == Seq::<Seq<char>>::empty());
    while k < rs.len()
        invariant
            k <= rs.len(),
            lo <= hi <= v.len(),
            rs.len() == ls.len(),
            forall|j: int|
                0 <= j < rs.len() ==> lo <= (#[trigger] rs[j]).0 <= rs[j].1 <= hi && v@.subrange(
                    rs[j].0 as int,
                    rs[j].1 as int,
                ) == ls[j],
            m@ == meta_of_lines(ls.subrange(0, k as int)),
        decreases rs.len() - k,
    {
        let (a, b) = rs[k];
        assert(ls.subrange(0, k + 1).drop_last() == ls.subrange(0, k as int));
        assert(ls.subrange(0, k + 1).last() == ls[k as int]);
        apply_line(&mut m, v, a, b);
        k += 1;
    }
    assert(ls.subrange(0, rs.len() as int) == ls);
    m
}

/// Reads `key: value` lines into page metadata: `title`, `description`,
/// `date`, `last_edited`, `location`, `language` and `og_image` take the
/// trimmed value, `draft` is whether the value is `true` in any case, and
/// `tags` is a comma-separated list; a later line overrides an earlier one.
pub fn parse_meta_lines(text: &str) -> (m: PageMeta)
    ensures
        m@ == spec_parse_meta(text@),
{
    let v = chars_of(text);
    assert(v@.subrange(0, v.len() as int) == v@);
    meta_of(&v, 0, v.len())
}

/// Front matter in an HTML comment, or none.
pub open spec fn comment_front_matter(s: Seq<char>) -> (MetaView, Seq<char>) {
    if starts_with(s, "<!--"@) {
        match find(s, "-->"@) {
            Some(e) => (spec_parse_meta(s.subrange(4, e)), trim_start_char(s.skip(e + 3), '\n')),
            None => (empty_meta(), s),
        }
    } else {
        (empty_meta(), s)
    }
}

/// The metadata and body of a page: front matter between `---` lines (for
/// Markdown) or in a leading `<!-- ... -->` comment (for HTML), the body
/// being what follows it without leading newlines; without front matter the
/// metadata is empty and the body is the whole text.
pub open spec fn spec_front_matter(s: Seq<char>) -> (MetaView, Seq<char>) {
    if starts_with(s, "---"@) {
        let rest = trim_start_char(s.skip(3), '\n');
        match find(rest, "\n---"@) {
            Some(e) => (spec_parse_meta(rest.take(e)), trim_start_char(rest.skip(e + 4), '\n')),
            None => comment_front_matter(s),
        }
    } else {
        comment_front_matter(s)
    }
}

/// The text starts an HTML comment whose first `-->` overlaps the opening
/// `<!--` (as in `<!-->`), where the comment's inside would end before it
/// begins.
pub open spec fn comment_overlaps(s: Seq<char>) -> bool {
    starts_with(s, "<!--"@) && match find(s, "-->"@) {
        Some(e) => e < 4,
        None => false,
    }
}

/// Splits a page into its front matter metadata and its body.
pub fn parse_front_matter(content: &str) -> (r: (PageMeta, String))
    requires
        !comment_overlaps(content@),
    ensures
        (r.0@, r.1@) == spec_front_matter(content@),
{
    let v = chars_of(content);
    let n = v.len();
    let ghost s = v@;
    assert(v@.subrange(0, n as int) == s);
    proof {
        reveal_strlit("---");
        reveal_strlit("\n---");
        reveal_strlit("<!--");
        reveal_strlit("-->");
    }
    if starts_with_at(&v, 0, n, &chars_of("---")) {
        let a = trim_start_char_range(&v, 3, n, '\n');
        assert(v@.subrange(3, n as int) == s.skip(3));
        let ghost rest = v@.subrange(a as int, n as int);
        match find_in(&v, a, n, &chars_of("\n---")) {
            Some(e) => {
                let meta = meta_of(&v, a, e);
                let b = trim_start_char_range(&v, e + 4, n, '\n');
                assert(rest.take(e - a) == v@.subrange(a as int, e as int));
                assert(rest.skip(e - a + 4) == v@.subrange(e + 4, n as int));
                return (meta, string_of(&v, b, n));
            },
            None => {},
        }
    }
    if starts_with_at(&v, 0, n, &chars_of("<!--")) {
        match find_in(&v, 0, n, &chars_of("-->")) {
            Some(e) => {
                let meta = meta_of(&v, 4, e);
                let b = trim_start_char_range(&v, e + 3, n, '\n');
                assert(s.skip(e + 3) == v@.subrange(e + 3, n as int));
                return (meta, string_of(&v, b, n));
            },
            None => {},
        }
    }
    (PageMeta::default(), string_of(&v, 0, n))
}

/// The warning to print for a page whose front matter is opened but never
/// closed: a `---` start without a `\n---` end, or a `<!--` start without
/// `-->`.
pub open spec fn spec_front_matter_warning(s: Seq<char>) -> Option<Seq<char>> {
    if starts_with(s, "---"@) && find(trim_start_char(s.skip(3), '\n'), "\n---"@) is None {
        Some("[WARNING] Front matter opening '---' found but closing '---' is missing"@)
    } else if starts_with(s, "<!--"@) && find(s, "-->"@) is None {
        Some("[WARNING] Front matter opening '<!--' found but closing '-->' is missing"@)
    } else {
        None
    }
}

/// The warning `parse_front_matter`'s caller prints for unclosed front matter.
pub fn front_matter_warning(content: &str) -> (r: Option<&'static str>)
    ensures
        match r {
            Some(w) => spec_front_matter_warning(content@) == Some(w@),
            None => spec_front_matter_warning(content@) is None,
        },
{
    let v = chars_of(content);
    let n = v.len();
    let ghost s = v@;
    assert(v@.subrange(0, n as int) == s);
    proof {
        reveal_strlit("---");
        reveal_strlit("<!--");
    }
    if starts_with_at(&v, 0, n, &chars_of("---")) {
        let a = trim_start_char_range(&v, 3, n, '\n');
        assert(v@.subrange(3, n as int) == s.skip(3));
        if find_in(&v, a, n, &chars_of("\n---")).is_none() {
            return Some("[WARNING] Front matter opening '---' found but closing '---' is missing");
        }
    }
    if starts_with_at(&v, 0, n, &chars_of("<!--")) && find_in(&v, 0, n, &chars_of("-->")).is_none() {
        return Some("[WARNING] Front matter opening '<!--' found but closing '-->' is missing");
    }
    None
}

/// Whether `parse_front_matter` cannot take the page: its opening `<!--`
/// overlaps the first `-->` (as in `<!-->`).
pub fn front_matter_overlaps(content: &str) -> (b: bool)
    ensures
        b == comment_overlaps(content@),
{
    let v = chars_of(content);
    let n = v.len();
    assert(v@.subrange(0, n as int) == v@);
    if !starts_with_at(&v, 0, n, &chars_of("<!--")) {
        return false;
    }
    match find_in(&v, 0, n, &chars_of("-->")) {
        Some(e) => e < 4,
        None => false,
    }
}

} // verus!
