//! What `init` and `new` write: names, the navigation bar, the
//! configuration file, the page template and new pages.
use vstd::prelude::*;
use crate::text::{
    chars_of, join, lowercase, push_char, push_range, push_str, replace, replace_str, split_char, split_ranges,
    string_of, to_lowercase, trim, trim_range,
};
use crate::utils::{map_chars, push_html_escaped_str, spec_html_escape};
use crate::frontmatter::{comment_overlaps, empty_meta, new_page_lines, spec_front_matter, MetaView};
use crate::text::{find, match_at, strip_cr, trim_start_char};

verus! {

/// Trimmed, lowercased, with spaces turned into underscores.
pub open spec fn spec_sanitise(s: Seq<char>) -> Seq<char> {
    replace(lowercase(trim(s)), " "@, "_"@)
}

/// A name made by `sanitise_string` holds no space.
pub proof fn law_sanitised_has_no_space(s: Seq<char>)
    ensures
        forall|k: int| 0 <= k < spec_sanitise(s).len() ==> #[trigger] spec_sanitise(s)[k] != ' ',
{
    reveal_strlit(" ");
    reveal_strlit("_");
    assert(" "@ == seq![' ']);
    crate::text::lemma_replace_char_removes(lowercase(trim(s)), ' ', "_"@, 0);
}

/// A file or directory name made from user input.
pub fn sanitise_string(page_name: &str) -> (r: String)
    ensures
        r@ == spec_sanitise(page_name@),
{
    let v = chars_of(page_name);
    let (a, b) = trim_range(&v, 0, v.len());
    assert(v@.subrange(0, v.len() as int) == v@);
    let t = string_of(&v, a, b);
    let lower = to_lowercase(t.as_str());
    proof {
        reveal_strlit(" ");
    }
    replace_str(lower.as_str(), " ", "_")
}

/// How `toml_escape` writes one character.
pub open spec fn toml_escape_char(c: char) -> Seq<char> {
    if c == '\\' {
        "\\\\"@
    } else if c == '"' {
        "\\\""@
    } else {
        seq![c]
    }
}

pub open spec fn spec_toml_escape(s: Seq<char>) -> Seq<char> {
    map_chars(s, |c: char| toml_escape_char(c))
}

/// Escapes backslashes and double quotes for a TOML basic string.
pub fn toml_escape(s: &str) -> (r: String)
    ensures
        r@ == spec_toml_escape(s@),
{
    let v = chars_of(s);
    let mut r = String::new();
    let mut i: usize = 0;
    assert(v@.subrange(0, 0) == Seq::<char>::empty());
    while i < v.len()
        invariant
            i <= v.len(),
            r@ == spec_toml_escape(v@.subrange(0, i as int)),
        decreases v.len() - i,
    {
        let c = v[i];
        assert(v@.subrange(0, i + 1).drop_last() == v@.subrange(0, i as int));
        if c == '\\' {
            push_str(&mut r, "\\\\");
        } else if c == '"' {
            push_str(&mut r, "\\\"");
        } else {
            push_char(&mut r, c);
        }
        i += 1;
    }
    assert(v@.subrange(0, v.len() as int) == v@);
    r
}

/// One navigation link: to `/` + the item's sanitised name, labelled with it.
pub open spec fn navbar_item(item: Seq<char>) -> Seq<char> {
    "<li class=\"navbar__link\"><a href=\"/"@ + spec_sanitise(item) + "\">"@ + item + "</a></li>"@
}

pub open spec fn navbar_entries(pieces: Seq<Seq<char>>) -> Seq<Seq<char>>
    decreases pieces.len(),
{
    if pieces.len() == 0 {
        Seq::empty()
    } else {
        navbar_entries(pieces.drop_last()).push(navbar_item(trim(pieces.last())))
    }
}

/// The navigation links of the comma-separated items, one per line.
pub open spec fn spec_navbar_list(items: Seq<char>) -> Seq<char> {
    join(navbar_entries(split_char(items, ',')), "\n"@)
}

/// The navigation bar's links for comma-separated page names.
#[verifier::loop_isolation(false)]
pub fn generate_navbar_list(navbar_items: &str) -> (r: String)
    ensures
        r@ == spec_navbar_list(navbar_items@),
{
    let v = chars_of(navbar_items);
    assert(v@.subrange(0, v.len() as int) == v@);
    let ghost ps = split_char(v@, ',');
    let pieces = split_ranges(&v, 0, v.len(), ',');
    let mut r = String::new();
    let mut k: usize = 0;
    assert(ps.take(0) == Seq::<Seq<char>>::empty());
    while k < pieces.len()
        invariant
            k <= pieces.len(),
            r@ == join(navbar_entries(ps.take(k as int)), "\n"@),
        decreases pieces.len() - k,
    {
        let (a, b) = pieces[k];
        let (ta, tb) = trim_range(&v, a, b);
        let item = string_of(&v, ta, tb);
        let ghost before = r@;
        if k > 0 {
            push_str(&mut r, "\n");
        }
        push_str(&mut r, "<li class=\"navbar__link\"><a href=\"/");
        let name = sanitise_string(item.as_str());
        push_str(&mut r, name.as_str());
        push_str(&mut r, "\">");
        push_str(&mut r, item.as_str());
        push_str(&mut r, "</a></li>");
        proof {
            assert(ps.take(k + 1).drop_last() == ps.take(k as int));
            assert(ps.take(k + 1).last() == ps[k as int]);
            assert(navbar_entries(ps.take(k as int)).len() == k) by {
                lemma_navbar_items_len(ps.take(k as int));
            }
            crate::text::lemma_join_push(navbar_entries(ps.take(k as int)), "\n"@, navbar_item(trim(ps[k as int])));
            if k > 0 {
                assert(r@ =~= before + "\n"@ + navbar_item(trim(ps[k as int])));
            } else {
                assert(r@ =~= before + navbar_item(trim(ps[k as int])));
            }
        }
        k += 1;
    }
    assert(ps.take(pieces.len() as int) == ps);
    r
}

proof fn lemma_navbar_items_len(ps: Seq<Seq<char>>)
    ensures
        navbar_entries(ps).len() == ps.len(),
    decreases ps.len(),
{
    if ps.len() > 0 {
        lemma_navbar_items_len(ps.drop_last());
    }
}

/// The directory names of the comma-separated sections, sanitised.
pub open spec fn spec_section_dirs(pages: Seq<char>) -> Seq<Seq<char>> {
    split_char(pages, ',').map_values(|p: Seq<char>| spec_sanitise(p))
}

/// The directories `init` creates under `pages/` for comma-separated section names.
pub fn section_dir_names(pages: &str) -> (r: Vec<String>)
    ensures
        crate::frontmatter::strings_view(r@) == spec_section_dirs(pages@),
{
    let v = chars_of(pages);
    assert(v@.subrange(0, v.len() as int) == v@);
    let ghost ps = split_char(v@, ',');
    let pieces = split_ranges(&v, 0, v.len(), ',');
    let mut r: Vec<String> = Vec::new();
    let mut k: usize = 0;
    while k < pieces.len()
        invariant
            k <= pieces.len(),
            pieces.len() == ps.len(),
            ps == split_char(v@, ','),
            forall|j: int|
                0 <= j < pieces.len() ==> (#[trigger] pieces[j]).0 <= pieces[j].1 <= v.len() && v@.subrange(
                    pieces[j].0 as int,
                    pieces[j].1 as int,
                ) == ps[j],
            r.len() == k,
            forall|j: int| 0 <= j < k ==> (#[trigger] r@[j])@ == spec_sanitise(ps[j]),
        decreases pieces.len() - k,
    {
        let (a, b) = pieces[k];
        let piece = string_of(&v, a, b);
        r.push(sanitise_string(piece.as_str()));
        k += 1;
    }
    assert(crate::frontmatter::strings_view(r@) =~= spec_section_dirs(pages@));
    r
}

/// `rssg.toml` for a new project.
pub open spec fn spec_site_config_toml(
    title: Seq<char>,
    base_url: Seq<char>,
    author: Seq<char>,
    description: Seq<char>,
    keywords: Seq<char>,
) -> Seq<char> {
    "title = \""@ + spec_toml_escape(title) + "\"\nbase_url = \""@ + spec_toml_escape(base_url) + "\"\nauthor = \""@
        + spec_toml_escape(author) + "\"\ndescription = \""@ + spec_toml_escape(description)
        + "\"\nkeywords = \""@ + spec_toml_escape(keywords) + "\"\n"@
}

/// The configuration file `init` writes.
pub fn site_config_toml(title: &str, base_url: &str, author: &str, description: &str, keywords: &str) -> (r:
    String)
    ensures
        r@ == spec_site_config_toml(title@, base_url@, author@, description@, keywords@),
{
    let mut r = String::new();
    push_str(&mut r, "title = \"");
    push_str(&mut r, toml_escape(title).as_str());
    push_str(&mut r, "\"\nbase_url = \"");
    push_str(&mut r, toml_escape(base_url).as_str());
    push_str(&mut r, "\"\nauthor = \"");
    push_str(&mut r, toml_escape(author).as_str());
    push_str(&mut r, "\"\ndescription = \"");
    push_str(&mut r, toml_escape(description).as_str());
    push_str(&mut r, "\"\nkeywords = \"");
    push_str(&mut r, toml_escape(keywords).as_str());
    push_str(&mut r, "\"\n");
    r
}

/// The extension of a new page: `html` when asked for, `md` otherwise.
pub open spec fn spec_page_extension(ext: Seq<char>) -> Seq<char> {
    if ext == "html"@ {
        "html"@
    } else {
        "md"@
    }
}

/// The file `new` creates: the sanitised name with the page's extension.
pub open spec fn spec_new_page_path(filename: Seq<char>, ext: Seq<char>) -> Seq<char> {
    spec_sanitise(filename) + "."@ + spec_page_extension(ext)
}

/// The path of a new page.
pub fn new_page_path(filename: &str, ext: &str) -> (r: String)
    ensures
        r@ == spec_new_page_path(filename@, ext@),
{
    let mut r = sanitise_string(filename);
    push_str(&mut r, ".");
    if crate::render::str_eq(ext, "html") {
        push_str(&mut r, "html");
    } else {
        push_str(&mut r, "md");
    }
    r
}

/// The text of a new page: front matter with its title, description and
/// keywords, then a heading with the title (escaped in HTML).
pub open spec fn spec_new_page_content(
    ext: Seq<char>,
    title: Seq<char>,
    description: Seq<char>,
    keywords: Seq<char>,
) -> Seq<char> {
    if spec_page_extension(ext) == "html"@ {
        "<!--\ntitle: "@ + title + "\ndescription: "@ + description + "\nkeywords: "@ + keywords
            + "\n-->\n\n<h1>"@ + spec_html_escape(title) + "</h1>\n"@
    } else {
        "---\ntitle: "@ + title + "\ndescription: "@ + description + "\nkeywords: "@ + keywords + "\n---\n\n# "@
            + title + "\n"@
    }
}

/// Two texts without `c` joined hold no `c`.
proof fn lemma_concat_lacks(a: Seq<char>, b: Seq<char>, c: char)
    requires
        !a.contains(c),
        !b.contains(c),
    ensures
        !(a + b).contains(c),
{
    if (a + b).contains(c) {
        let i = choose|i: int| 0 <= i < (a + b).len() && (a + b)[i] == c;
        if i < a.len() {
            assert(a[i] == c);
        } else {
            assert(b[i - a.len()] == c);
        }
    }
}

/// The front matter `new` writes for a Markdown page, as lines joined by newlines.
spec fn md_front(t: Seq<char>, d: Seq<char>, k: Seq<char>) -> Seq<char> {
    ("title"@ + ": "@ + t) + seq!['\n'] + (("description"@ + ": "@ + d) + seq!['\n'] + ("keywords"@ + ": "@ + k))
}

#[verifier::spinoff_prover]
#[verifier::rlimit(40)]
proof fn lemma_front_lines(t: Seq<char>, d: Seq<char>, k: Seq<char>)
    requires
        !t.contains('\n'),
        !d.contains('\n'),
        !k.contains('\n'),
    ensures
        !("title"@ + ": "@ + t).contains('\n'),
        !("description"@ + ": "@ + d).contains('\n'),
        !("keywords"@ + ": "@ + k).contains('\n'),
        crate::text::lines(md_front(t, d, k)) == new_page_lines(t, d, k.push('\r')),
        split_char(md_front(t, d, k), '\n') == seq![
            "title"@ + ": "@ + t,
            "description"@ + ": "@ + d,
            "keywords"@ + ": "@ + k,
        ],
        md_front(t, d, k).len() > 0,
        md_front(t, d, k)[0] == 't',
        md_front(t, d, k).last() != '\n',
{
    reveal_strlit("title");
    reveal_strlit("description");
    reveal_strlit("keywords");
    reveal_strlit(": ");
    let x1 = "title"@ + ": "@ + t;
    let x2 = "description"@ + ": "@ + d;
    let x3 = "keywords"@ + ": "@ + k;
    assert(!"title"@.contains('\n') && !"description"@.contains('\n') && !"keywords"@.contains('\n')
        && !": "@.contains('\n'));
    lemma_concat_lacks("title"@, ": "@, '\n');
    lemma_concat_lacks("title"@ + ": "@, t, '\n');
    lemma_concat_lacks("description"@, ": "@, '\n');
    lemma_concat_lacks("description"@ + ": "@, d, '\n');
    lemma_concat_lacks("keywords"@, ": "@, '\n');
    lemma_concat_lacks("keywords"@ + ": "@, k, '\n');
    crate::text::lemma_split_char_none(x1, '\n');
    crate::text::lemma_split_char_none(x2, '\n');
    crate::text::lemma_split_char_none(x3, '\n');
    crate::text::lemma_split_char_concat(x2, x3, '\n');
    crate::text::lemma_split_char_concat(x1, x2 + seq!['\n'] + x3, '\n');
    let a = md_front(t, d, k);
    assert(a.last() == x3.last());
    assert(x3.last() != '\n') by {
        assert(x3[x3.len() - 1] == x3.last());
    }
    assert(crate::text::split_char(a, '\n') =~= seq![x1, x2, x3]);
    assert("keywords"@ + ": "@ + k.push('\r') =~= x3.push('\r'));
    assert(x3.push('\r').drop_last() =~= x3);
    assert(crate::text::lines(a) =~= new_page_lines(t, d, k.push('\r')));
    assert(a[0] == x1[0]);
}

/// In three newline-free pieces joined by newlines, followed by anything,
/// no `\n---` starts before the end of the pieces when the second and third
/// do not start with `-`.
#[verifier::rlimit(40)]
proof fn lemma_no_rule_before(x1: Seq<char>, x2: Seq<char>, x3: Seq<char>, q: Seq<char>)
    requires
        !x1.contains('\n'),
        !x2.contains('\n'),
        !x3.contains('\n'),
        x2.len() > 0 && x2[0] != '-',
        x3.len() > 0 && x3[0] != '-',
    ensures
        forall|j: int|
            0 <= j < (x1 + seq!['\n'] + (x2 + seq!['\n'] + x3)).len() ==> !match_at(
                x1 + seq!['\n'] + (x2 + seq!['\n'] + x3) + q,
                seq!['\n', '-', '-', '-'],
                j,
            ),
{
    let a = x1 + seq!['\n'] + (x2 + seq!['\n'] + x3);
    let rest = a + q;
    let p = seq!['\n', '-', '-', '-'];
    let i2 = x1.len() + 1 + x2.len();
    assert forall|j: int| 0 <= j < a.len() implies !match_at(rest, p, j) by {
        if j < x1.len() {
            assert(rest[j] == x1[j]);
        } else if j == x1.len() {
            assert(rest[j + 1] == x2[0]);
        } else if j < i2 {
            assert(rest[j] == x2[j - x1.len() - 1]);
        } else if j == i2 {
            assert(rest[j + 1] == x3[0]);
        } else {
            assert(rest[j] == x3[j - i2 - 1]);
        }
        if j + 1 < rest.len() {
            crate::text::lemma_no_match_at(rest, p, j);
        }
    }
}

/// In the text after a Markdown page's opening `---`, the closing `\n---`
/// comes right after the front matter.
#[verifier::spinoff_prover]
#[verifier::rlimit(40)]
proof fn lemma_md_close(t: Seq<char>, d: Seq<char>, k: Seq<char>, tail: Seq<char>)
    requires
        !t.contains('\n'),
        !d.contains('\n'),
        !k.contains('\n'),
    ensures
        find(md_front(t, d, k) + "\n---"@ + tail, "\n---"@) == Some(md_front(t, d, k).len() as int),
{
    lemma_front_lines(t, d, k);
    let x1 = "title"@ + ": "@ + t;
    let x2 = "description"@ + ": "@ + d;
    let x3 = "keywords"@ + ": "@ + k;
    let a = md_front(t, d, k);
    let p = "\n---"@;
    assert(p =~= seq!['\n', '-', '-', '-']) by {
        reveal_strlit("\n---");
    }
    assert(x2.len() > 0 && x2[0] == 'd' && x3.len() > 0 && x3[0] == 'k') by {
        reveal_strlit("description");
        reveal_strlit("keywords");
    }
    let q = p + tail;
    assert(a + p + tail =~= a + q);
    lemma_no_rule_before(x1, x2, x3, q);
    let rest = a + q;
    assert(rest.subrange(a.len() as int, a.len() + 4int) =~= p);
    crate::text::lemma_find_at(rest, p, a.len() as int);
}

/// A pattern does not start where the text differs from its first three
/// characters.
proof fn lemma_no_match_at3(s: Seq<char>, p: Seq<char>, k: int)
    requires
        p.len() == 3,
        0 <= k,
        k + 2 < s.len(),
        s[k] != p[0] || s[k + 1] != p[1] || s[k + 2] != p[2],
    ensures
        !match_at(s, p, k),
{
    if match_at(s, p, k) {
        assert(s.subrange(k, k + 3)[0] == s[k]);
        assert(s.subrange(k, k + 3)[1] == s[k + 1]);
        assert(s.subrange(k, k + 3)[2] == s[k + 2]);
    }
}

/// No `-->` starts inside a piece `s` of `c` that holds none and is followed
/// by a newline.
proof fn lemma_no_close_in(c: Seq<char>, s: Seq<char>, off: int)
    requires
        0 <= off,
        off + s.len() < c.len(),
        c.subrange(off, off + s.len()) == s,
        c[off + s.len()] == '\n',
        find(s, "-->"@) is None,
    ensures
        forall|j: int| off <= j < off + s.len() ==> !match_at(c, "-->"@, j),
{
    reveal_strlit("-->");
    let p = "-->"@;
    crate::text::lemma_find(s, p);
    assert forall|j: int| off <= j < off + s.len() implies !match_at(c, p, j) by {
        let u = j - off;
        if u + 3 <= s.len() {
            if match_at(c, p, j) {
                assert(c.subrange(j, j + 3) =~= s.subrange(u, u + 3));
                assert(match_at(s, p, u));
            }
        } else if u + 1 == s.len() {
            if j + 2 < c.len() {
                lemma_no_match_at3(c, p, j);
            }
        } else {
            assert(j + 2 == off + s.len());
            if j + 2 < c.len() {
                lemma_no_match_at3(c, p, j);
            }
        }
    }
}

/// In a new HTML page, the first `-->` is the one closing the front matter.
#[verifier::spinoff_prover]
#[verifier::rlimit(40)]
proof fn lemma_html_close(t: Seq<char>, d: Seq<char>, k: Seq<char>, tail: Seq<char>)
    requires
        find(t, "-->"@) is None,
        find(d, "-->"@) is None,
        find(k, "-->"@) is None,
    ensures
        find(
            "<!--\ntitle: "@ + t + "\ndescription: "@ + d + "\nkeywords: "@ + k + "\n-->\n\n<h1>"@ + tail,
            "-->"@,
        ) == Some(12 + t.len() + 14 + d.len() + 11 + k.len() + 1int),
{
    reveal_strlit("-->");
    reveal_strlit("<!--\ntitle: ");
    reveal_strlit("\ndescription: ");
    reveal_strlit("\nkeywords: ");
    reveal_strlit("\n-->\n\n<h1>");
    let p = "-->"@;
    let p0 = "<!--\ntitle: "@;
    let p1 = "\ndescription: "@;
    let p2 = "\nkeywords: "@;
    let p3 = "\n-->\n\n<h1>"@;
    let c = p0 + t + p1 + d + p2 + k + p3 + tail;
    let ot = 12int;
    let o1 = ot + t.len();
    let od = o1 + 14;
    let o2 = od + d.len();
    let ok = o2 + 11;
    let o3 = ok + k.len();
    let e = o3 + 1;
    crate::text::lemma_find(c, p);
    assert(c.subrange(e, e + 3) =~= p);
    assert(match_at(c, p, e));
    assert(c.subrange(ot, ot + t.len()) =~= t);
    assert(c.subrange(od, od + d.len()) =~= d);
    assert(c.subrange(ok, ok + k.len()) =~= k);
    lemma_no_close_in(c, t, ot);
    lemma_no_close_in(c, d, od);
    lemma_no_close_in(c, k, ok);
    assert(!p1.contains('-') && !p2.contains('-'));
    assert forall|j: int| 0 <= j < e implies !match_at(c, p, j) by {
        if j < ot {
            assert(c[j] == p0[j]);
            if j + 2 < ot {
                assert(c[j + 1] == p0[j + 1]);
                assert(c[j + 2] == p0[j + 2]);
            } else {
                assert(c[j] != '-');
            }
            lemma_no_match_at3(c, p, j);
        } else if o1 <= j < od {
            assert(c[j] == p1[j - o1]);
            lemma_no_match_at3(c, p, j);
        } else if o2 <= j < ok {
            assert(c[j] == p2[j - o2]);
            lemma_no_match_at3(c, p, j);
        } else if j == o3 {
            assert(c[j] == '\n');
            lemma_no_match_at3(c, p, j);
        }
    }
}

/// A new Markdown page reads back as its title and description, with the
/// heading as its body.
#[verifier::spinoff_prover]
#[verifier::rlimit(40)]
proof fn lemma_new_md_page(t: Seq<char>, d: Seq<char>, k: Seq<char>)
    requires
        !t.contains('\n'),
        !d.contains('\n'),
        !k.contains('\n'),
    ensures
        !comment_overlaps(spec_new_page_content("md"@, t, d, k)),
        spec_front_matter(spec_new_page_content("md"@, t, d, k)) == (
            MetaView { title: Some(trim(t)), description: Some(trim(d)), ..empty_meta() },
            "# "@ + t + "\n"@,
        ),
{
    let c = spec_new_page_content("md"@, t, d, k);
    let a = md_front(t, d, k);
    let r = "\n\n# "@ + t + "\n"@;
    let rest = a + "\n---"@ + r;
    assert(c =~= "---"@ + (seq!['\n'] + rest)) by {
        reveal_strlit("html");
        reveal_strlit("md");
        assert("md"@ != "html"@) by {
            assert("md"@.len() != "html"@.len());
        }
        reveal_strlit("---\ntitle: ");
        reveal_strlit("\ndescription: ");
        reveal_strlit("\nkeywords: ");
        reveal_strlit("\n---\n\n# ");
        reveal_strlit("---");
        reveal_strlit("\n---");
        reveal_strlit("\n\n# ");
        reveal_strlit("title");
        reveal_strlit("description");
        reveal_strlit("keywords");
        reveal_strlit(": ");
    }
    lemma_front_lines(t, d, k);
    lemma_md_close(t, d, k, r);
    crate::frontmatter::lemma_new_page_lines(t, d, k.push('\r'));
    assert(crate::text::starts_with(c, "---"@)) by {
        reveal_strlit("---");
        assert(c.take(3) =~= "---"@);
    }
    assert(c.skip(3) =~= seq!['\n'] + rest) by {
        reveal_strlit("---");
    }
    assert(trim_start_char(c.skip(3), '\n') == rest) by {
        assert((seq!['\n'] + rest).drop_first() =~= rest);
        assert(rest[0] == 't');
        assert(trim_start_char(rest, '\n') == rest);
    }
    assert(rest.take(a.len() as int) =~= a);
    assert(rest.skip(a.len() + 4int) =~= r) by {
        reveal_strlit("\n---");
    }
    assert(trim_start_char(r, '\n') == "# "@ + t + "\n"@) by {
        reveal_strlit("\n\n# ");
        reveal_strlit("# ");
        reveal_strlit("\n");
        assert(r.drop_first().drop_first() =~= "# "@ + t + "\n"@);
        assert(r[0] == '\n');
        assert(r.drop_first()[0] == '\n');
        assert(r.drop_first().drop_first()[0] == '#');
        assert(trim_start_char(r.drop_first().drop_first(), '\n') == r.drop_first().drop_first());
        assert(trim_start_char(r.drop_first(), '\n') == r.drop_first().drop_first());
    }
    assert(!crate::text::starts_with(c, "<!--"@)) by {
        reveal_strlit("<!--");
        reveal_strlit("---");
        assert(c[0] == '-');
        assert(c.take(4)[0] == '-');
    }
}

/// A new HTML page reads back as its title and description, with the
/// heading as its body.
#[verifier::spinoff_prover]
#[verifier::rlimit(40)]
proof fn lemma_new_html_page(t: Seq<char>, d: Seq<char>, k: Seq<char>)
    requires
        !t.contains('\n'),
        !d.contains('\n'),
        !k.contains('\n'),
        find(t, "-->"@) is None,
        find(d, "-->"@) is None,
        find(k, "-->"@) is None,
    ensures
        !comment_overlaps(spec_new_page_content("html"@, t, d, k)),
        spec_front_matter(spec_new_page_content("html"@, t, d, k)) == (
            MetaView { title: Some(trim(t)), description: Some(trim(d)), ..empty_meta() },
            "<h1>"@ + spec_html_escape(t) + "</h1>\n"@,
        ),
{
    reveal_strlit("html");
    reveal_strlit("<!--\ntitle: ");
    reveal_strlit("\ndescription: ");
    reveal_strlit("\nkeywords: ");
    reveal_strlit("\n-->\n\n<h1>");
    reveal_strlit("</h1>\n");
    reveal_strlit("<h1>");
    reveal_strlit("---");
    reveal_strlit("<!--");
    reveal_strlit("title");
    reveal_strlit("description");
    reveal_strlit("keywords");
    reveal_strlit(": ");
    let tail = spec_html_escape(t) + "</h1>\n"@;
    let c = spec_new_page_content("html"@, t, d, k);
    let e = 12 + t.len() + 14 + d.len() + 11 + k.len() + 1int;
    let a = md_front(t, d, k);
    assert(c =~= "<!--\ntitle: "@ + t + "\ndescription: "@ + d + "\nkeywords: "@ + k + "\n-->\n\n<h1>"@ + tail);
    lemma_html_close(t, d, k, tail);
    lemma_front_lines(t, d, k);
    crate::frontmatter::lemma_new_page_lines(t, d, k);
    assert(c.take(3)[0] == '<');
    assert(!crate::text::starts_with(c, "---"@));
    assert(c.take(4) =~= "<!--"@);
    let h = c.subrange(4, e);
    assert(h =~= Seq::<char>::empty() + seq!['\n'] + (a + seq!['\n'] + Seq::<char>::empty()));
    crate::text::lemma_split_char_concat(a, Seq::<char>::empty(), '\n');
    crate::text::lemma_split_char_concat(Seq::<char>::empty(), a + seq!['\n'] + Seq::<char>::empty(), '\n');
    assert(split_char(Seq::<char>::empty(), '\n') == seq![Seq::<char>::empty()]);
    assert(h.last() == '\n');
    assert(crate::text::lines(h) =~= seq![Seq::<char>::empty()] + new_page_lines(t, d, k));
    let r = c.skip(e + 3);
    assert(r =~= "\n\n<h1>"@ + tail) by {
        reveal_strlit("\n\n<h1>");
    }
    assert(trim_start_char(r, '\n') == "<h1>"@ + tail) by {
        reveal_strlit("\n\n<h1>");
        assert(r[0] == '\n');
        assert(r.drop_first()[0] == '\n');
        assert(r.drop_first().drop_first()[0] == '<');
        assert(r.drop_first().drop_first() =~= "<h1>"@ + tail);
        assert(trim_start_char(r.drop_first().drop_first(), '\n') == r.drop_first().drop_first());
        assert(trim_start_char(r.drop_first(), '\n') == r.drop_first().drop_first());
    }
    assert("<h1>"@ + tail =~= "<h1>"@ + spec_html_escape(t) + "</h1>\n"@);
}

/// What `new` writes, the build reads back: a new page's front matter gives
/// its title and description, trimmed, and no other metadata (the keywords
/// are written under `keywords`, a key the reader does not know, so the page
/// starts without tags), and the page's body is its heading. This holds when
/// the title, description and keywords are one line each and, for an HTML
/// page, none of them holds `-->`, which would close the comment early.
pub proof fn law_new_page_reads_back(ext: Seq<char>, title: Seq<char>, description: Seq<char>, keywords: Seq<char>)
    requires
        !title.contains('\n'),
        !description.contains('\n'),
        !keywords.contains('\n'),
        spec_page_extension(ext) == "html"@ ==> find(title, "-->"@) is None && find(description, "-->"@) is None
            && find(keywords, "-->"@) is None,
    ensures
        !comment_overlaps(spec_new_page_content(ext, title, description, keywords)),
        spec_front_matter(spec_new_page_content(ext, title, description, keywords)).0 == (MetaView {
            title: Some(trim(title)),
            description: Some(trim(description)),
            ..empty_meta()
        }),
        spec_front_matter(spec_new_page_content(ext, title, description, keywords)).1 == if spec_page_extension(ext)
            == "html"@ {
            "<h1>"@ + spec_html_escape(title) + "</h1>\n"@
        } else {
            "# "@ + title + "\n"@
        },
{
    reveal_strlit("html");
    reveal_strlit("md");
    assert("md"@ != "html"@) by {
        assert("md"@.len() != "html"@.len());
    }
    if spec_page_extension(ext) == "html"@ {
        lemma_new_html_page(title, description, keywords);
        assert(spec_new_page_content(ext, title, description, keywords) == spec_new_page_content(
            "html"@,
            title,
            description,
            keywords,
        ));
    } else {
        lemma_new_md_page(title, description, keywords);
        assert(spec_new_page_content(ext, title, description, keywords) == spec_new_page_content(
            "md"@,
            title,
            description,
            keywords,
        ));
    }
}

/// What `new` writes into a new page.
pub fn new_page_content(ext: &str, title: &str, description: &str, keywords: &str) -> (r: String)
    ensures
        r@ == spec_new_page_content(ext@, title@, description@, keywords@),
{
    let mut r = String::new();
    let is_html = crate::render::str_eq(ext, "html");
    proof {
        reveal_strlit("html");
        reveal_strlit("md");
    }
    if is_html {
        push_str(&mut r, "<!--\ntitle: ");
        push_str(&mut r, title);
        push_str(&mut r, "\ndescription: ");
        push_str(&mut r, description);
        push_str(&mut r, "\nkeywords: ");
        push_str(&mut r, keywords);
        push_str(&mut r, "\n-->\n\n<h1>");
        push_html_escaped_str(&mut r, title);
        push_str(&mut r, "</h1>\n");
        assert(r@ =~= spec_new_page_content(ext@, title@, description@, keywords@));
    } else {
        push_str(&mut r, "---\ntitle: ");
        push_str(&mut r, title);
        push_str(&mut r, "\ndescription: ");
        push_str(&mut r, description);
        push_str(&mut r, "\nkeywords: ");
        push_str(&mut r, keywords);
        push_str(&mut r, "\n---\n\n# ");
        push_str(&mut r, title);
        push_str(&mut r, "\n");
        assert("md"@ != "html"@) by {
            reveal_strlit("html");
            reveal_strlit("md");
            assert("md"@.len() != "html"@.len());
        }
        assert(r@ =~= spec_new_page_content(ext@, title@, description@, keywords@));
    }
    r
}

/// The site template `init` writes, before its navigation list is filled in.
pub const PROJECT_TEMPLATE: &'static str = "<!DOCTYPE html>
        <html lang=\"en\">
        <head>
            <meta http-equiv=\"content-type\" content=\"text/html; charset=utf-8\" />
            <meta name=\"viewport\" content=\"width=device-width, initial-scale=1.0\" />
            <meta http-equiv=\"X-UA-Compatible\" content=\"ie=edge\" />
            <meta http-equiv=\"cache-control\" content=\"no-cache, must-revalidate, post-check=0, pre-check=0\" />
            <meta http-equiv=\"cache-control\" content=\"max-age=0\" />
            <meta http-equiv=\"expires\" content=\"0\" />
            <meta http-equiv=\"expires\" content=\"Tue, 01 Jan 1980 1:00:00 GMT\" />
            <meta http-equiv=\"pragma\" content=\"no-cache\" />
            <link rel=\"stylesheet\" href=\"/static/styles.css?v={{refresh_cache}}\" />
            <link rel=\"shortcut icon\" type=\"image/x-icon\" href=\"/static/logo.png?v={{refresh_cache}}\" />
            <title>{{title}}</title>
            <meta name=\"description\" content=\"{{description}}\" />
            <meta name=\"author\" content=\"{{author}}\" />
            <meta name=\"keywords\" content=\"{{keywords}}\" />
            <meta property=\"og:title\" content=\"{{title}}\" />
            <meta property=\"og:description\" content=\"{{description}}\" />
            <meta property=\"og:url\" content=\"{{page_url}}\" />
            <meta property=\"og:type\" content=\"website\" />
            <meta name=\"twitter:card\" content=\"summary\" />
            <meta name=\"twitter:title\" content=\"{{title}}\" />
            <meta name=\"twitter:description\" content=\"{{description}}\" />
            <link rel=\"canonical\" href=\"{{page_url}}\" />
        </head>
        <body>
            <input id=\"theme\" type=\"checkbox\" />
            <div class=\"scheme-wrapper\">
                <div class=\"container\">
                    <header>
                        <nav class=\"navbar\">
                            <a class=\"navbar__left\" href=\"/\">
                                <img
                                    class=\"navbar__logo\"
                                    title=\"rssg\"
                                    src=\"/static/logo.png\"
                                />
                            </a>
                            <ul class=\"navbar__right\">
                                {{navbar_list}}
                            </ul>
                        </nav>
                    </header>
                    <main></main>
                    <footer class=\"footer\">
                        <p>&copy; {{year}} {{author}}. All Rights Reserved.</p>
                    </footer>
                </div>
            </div>
        </body>
        </html>";

/// The site template with `{{navbar_list}}` replaced by the navigation links.
pub open spec fn spec_project_template(navbar_list: Seq<char>) -> Seq<char> {
    replace(PROJECT_TEMPLATE@, "{{navbar_list}}"@, navbar_list)
}

/// The site template for a new project.
pub fn project_template(navbar_list: &str) -> (r: String)
    ensures
        r@ == spec_project_template(navbar_list@),
{
    proof {
        reveal_strlit("{{navbar_list}}");
    }
    replace_str(PROJECT_TEMPLATE, "{{navbar_list}}", navbar_list)
}

} // verus!
