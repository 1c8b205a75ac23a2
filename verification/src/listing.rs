//! Which pages each listing of a site shows: the posts on a section's index
//! page, the pages of a tag, and how a listing is cut into pages.
use vstd::prelude::*;
use crate::frontmatter::{strings_view, PageInfo, PageView};
use crate::render::{page_views, ref_views, str_eq};
use crate::site::{all_tags, newer, page_count, sorted_by_date, sorted_unique_tags, tag_set};
use crate::text::{chars_of, push_range};
use crate::utils::{component_ranges, path_components, slugify, spec_slugify};

verus! {

// ---------------------------------------------------------------------------
// Sections
// ---------------------------------------------------------------------------

/// The section of a directory: its first component, or nothing at the root.
pub open spec fn spec_section_key(dir: Seq<char>) -> Seq<char> {
    if path_components(dir).len() > 0 {
        path_components(dir)[0]
    } else {
        Seq::empty()
    }
}

/// The section a page's directory lies in.
pub fn section_key(relative_dir: &str) -> (r: String)
    ensures
        r@ == spec_section_key(relative_dir@),
{
    let v = chars_of(relative_dir);
    assert(v@.subrange(0, v.len() as int) == v@);
    let comps = component_ranges(&v, 0, v.len());
    let mut r = String::new();
    if comps.len() > 0 {
        let (a, b) = comps[0];
        push_range(&mut r, &v, a, b);
    }
    r
}

// ---------------------------------------------------------------------------
// The posts of a section
// ---------------------------------------------------------------------------

/// Page `j` is listed on the index page `i`: another page of the same
/// directory that is not itself an index page.
pub open spec fn is_sibling(ps: Seq<PageView>, i: int, j: int) -> bool {
    j != i && ps[j].relative_dir == ps[i].relative_dir && ps[j].out_filename != "index.html"@
}

/// The positions among the first `n` pages of those listed on page `i`.
pub open spec fn siblings_upto(ps: Seq<PageView>, i: int, n: nat) -> Seq<int>
    decreases n,
{
    if n == 0 {
        Seq::empty()
    } else if is_sibling(ps, i, n - 1) {
        siblings_upto(ps, i, (n - 1) as nat).push(n - 1)
    } else {
        siblings_upto(ps, i, (n - 1) as nat)
    }
}

/// The positions of the pages listed on the index page `i`, in page order.
pub open spec fn siblings_of(ps: Seq<PageView>, i: int) -> Seq<int> {
    siblings_upto(ps, i, ps.len())
}

/// The positions of the pages the index page `i` lists: the other pages of
/// its directory that are not index pages, in the order given.
pub fn listing_siblings(pages: &[PageInfo], i: usize) -> (r: Vec<usize>)
    requires
        i < pages.len(),
    ensures
        r@.map_values(|j: usize| j as int) == siblings_of(page_views(pages@), i as int),
{
    let ghost ps = page_views(pages@);
    let mut r: Vec<usize> = Vec::new();
    let mut k: usize = 0;
    assert(r@.map_values(|j: usize| j as int) == siblings_upto(ps, i as int, 0));
    while k < pages.len()
        invariant
            k <= pages.len(),
            i < pages.len(),
            ps == page_views(pages@),
            r@.map_values(|j: usize| j as int) == siblings_upto(ps, i as int, k as nat),
        decreases pages.len() - k,
    {
        let ghost before = r@;
        proof {
            reveal_strlit("index.html");
        }
        assert(ps[k as int] == pages@[k as int]@);
        assert(ps[i as int] == pages@[i as int]@);
        if k != i && str_eq(pages[k].relative_dir.as_str(), pages[i].relative_dir.as_str()) && !str_eq(
            pages[k].out_filename.as_str(),
            "index.html",
        ) {
            r.push(k);
            assert(r@.map_values(|j: usize| j as int) =~= before.map_values(|j: usize| j as int).push(k as int));
        }
        k += 1;
    }
    r
}

proof fn lemma_siblings_increasing(ps: Seq<PageView>, i: int, n: nat)
    ensures
        forall|a: int| 0 <= a < siblings_upto(ps, i, n).len() ==> 0 <= #[trigger] siblings_upto(ps, i, n)[a] < n,
        forall|a: int, b: int|
            0 <= a < b < siblings_upto(ps, i, n).len() ==> #[trigger] siblings_upto(ps, i, n)[a]
                < #[trigger] siblings_upto(ps, i, n)[b],
    decreases n,
{
    if n > 0 {
        lemma_siblings_increasing(ps, i, (n - 1) as nat);
        let init = siblings_upto(ps, i, (n - 1) as nat);
        let s = siblings_upto(ps, i, n);
        assert forall|a: int| 0 <= a < s.len() implies 0 <= #[trigger] s[a] < n by {
            if a < init.len() {
                assert(s[a] == init[a]);
            }
        }
        assert forall|a: int, b: int| 0 <= a < b < s.len() implies #[trigger] s[a] < #[trigger] s[b] by {
            assert(s[a] == init[a]);
            if b < init.len() {
                assert(s[b] == init[b]);
            }
        }
    }
}

/// The positions an index page lists are positions of pages.
pub proof fn lemma_siblings_in_range(ps: Seq<PageView>, i: int)
    ensures
        forall|a: int| 0 <= a < siblings_of(ps, i).len() ==> 0 <= #[trigger] siblings_of(ps, i)[a] < ps.len(),
{
    lemma_siblings_increasing(ps, i, ps.len());
}

/// Each listed page is another non-index page of the index page's directory,
/// and every such page is listed.
pub proof fn law_siblings_are_the_section_posts(ps: Seq<PageView>, i: int, j: int)
    requires
        0 <= i < ps.len(),
        0 <= j < ps.len(),
    ensures
        siblings_of(ps, i).contains(j) <==> is_sibling(ps, i, j),
{
    lemma_siblings_contains(ps, i, j, ps.len());
}

proof fn lemma_siblings_contains(ps: Seq<PageView>, i: int, j: int, n: nat)
    requires
        0 <= j,
    ensures
        siblings_upto(ps, i, n).contains(j) <==> (j < n && is_sibling(ps, i, j)),
    decreases n,
{
    if n > 0 {
        lemma_siblings_contains(ps, i, j, (n - 1) as nat);
        let init = siblings_upto(ps, i, (n - 1) as nat);
        let s = siblings_upto(ps, i, n);
        if s.contains(j) {
            let a = choose|a: int| 0 <= a < s.len() && s[a] == j;
            if a < init.len() {
                assert(init[a] == j);
            }
        }
        if j < n && is_sibling(ps, i, j) {
            if j < n - 1 {
                let a = choose|a: int| 0 <= a < init.len() && init[a] == j;
                assert(s[a] == j);
            } else {
                assert(s[s.len() - 1] == j);
            }
        }
    }
}

/// A section's post list keeps the pages' date order: when the pages come
/// newest first with undated pages last, so do the posts an index page lists.
pub proof fn law_post_list_in_date_order(ps: Seq<PageView>, i: int)
    requires
        sorted_by_date(ps),
    ensures
        forall|a: int, b: int|
            0 <= a < b < siblings_of(ps, i).len() ==> !newer(
                ps[#[trigger] siblings_of(ps, i)[b]],
                ps[#[trigger] siblings_of(ps, i)[a]],
            ),
{
    lemma_siblings_increasing(ps, i, ps.len());
    let s = siblings_of(ps, i);
    assert forall|a: int, b: int| 0 <= a < b < s.len() implies !newer(ps[#[trigger] s[b]], ps[#[trigger] s[a]]) by {
        assert(s[a] < s[b]);
    }
}

// ---------------------------------------------------------------------------
// Listing pages
// ---------------------------------------------------------------------------

/// Where page `n` (from 1) of a listing of `len` posts at `per_page` a page
/// starts.
pub open spec fn chunk_start(len: nat, per_page: nat, n: nat) -> nat {
    if (n - 1) * per_page < len {
        ((n - 1) * per_page) as nat
    } else {
        len
    }
}

/// Where page `n` of a listing ends.
pub open spec fn chunk_end(len: nat, per_page: nat, n: nat) -> nat {
    if chunk_start(len, per_page, n) + per_page < len {
        chunk_start(len, per_page, n) + per_page
    } else {
        len
    }
}

/// The posts on page `n` of a listing: those from its start to its end.
pub fn chunk_bounds(len: usize, per_page: usize, n: usize) -> (r: (usize, usize))
    requires
        per_page > 0,
        n >= 1,
    ensures
        r.0 == chunk_start(len as nat, per_page as nat, n as nat),
        r.1 == chunk_end(len as nat, per_page as nat, n as nat),
{
    let q = n - 1;
    let start = if q > len / per_page {
        assert(q * per_page >= len) by (nonlinear_arith)
            requires
                q > len / per_page,
                per_page > 0,
        ;
        len
    } else {
        assert(q * per_page <= len) by (nonlinear_arith)
            requires
                q <= len / per_page,
                per_page > 0,
        ;
        q * per_page
    };
    let end = if len - start > per_page {
        start + per_page
    } else {
        len
    };
    (start, end)
}

/// The listing pages show every post once, in order: the first page starts
/// at the first post, each page ends where the next one starts, the last
/// ends at the last post, and none is empty.
pub proof fn law_listing_pages_partition_posts(len: nat, per_page: nat)
    requires
        per_page > 0,
        len > 0,
    ensures
        chunk_start(len, per_page, 1) == 0,
        forall|n: nat|
            1 <= n < page_count(len, per_page) ==> #[trigger] chunk_end(len, per_page, n) == chunk_start(
                len,
                per_page,
                n + 1,
            ),
        chunk_end(len, per_page, page_count(len, per_page)) == len,
        forall|n: nat|
            1 <= n <= page_count(len, per_page) ==> #[trigger] chunk_start(len, per_page, n) < chunk_end(
                len,
                per_page,
                n,
            ),
{
    let c = page_count(len, per_page);
    crate::site::law_listing_pages_cover_posts(len, per_page);
    assert(0 * per_page == 0) by (nonlinear_arith);
    assert forall|n: nat| 1 <= n <= c implies #[trigger] chunk_start(len, per_page, n) < chunk_end(len, per_page, n) by {
        assert((n - 1) * per_page <= (c - 1) * per_page) by (nonlinear_arith)
            requires
                1 <= n <= c,
                per_page > 0,
        ;
    }
    assert forall|n: nat| 1 <= n < c implies #[trigger] chunk_end(len, per_page, n) == chunk_start(len, per_page, n + 1) by {
        assert((n - 1) * per_page + per_page == n * per_page) by (nonlinear_arith);
        assert(n * per_page <= (c - 1) * per_page) by (nonlinear_arith)
            requires
                1 <= n < c,
                per_page > 0,
        ;
        assert(((n + 1) - 1) as nat == n);
    }
    assert((c - 1) * per_page + per_page == c * per_page) by (nonlinear_arith);
}

// ---------------------------------------------------------------------------
// Tags
// ---------------------------------------------------------------------------

/// The slugs of a page's tags, when it is not an index page.
pub open spec fn page_tag_slugs(p: PageView) -> Seq<Seq<char>> {
    if p.out_filename != "index.html"@ {
        p.meta.tags.map_values(|t: Seq<char>| spec_slugify(t))
    } else {
        Seq::empty()
    }
}

/// The slugs of the tags of the pages, in page order.
pub open spec fn all_tag_slugs(ps: Seq<PageView>) -> Seq<Seq<char>>
    decreases ps.len(),
{
    if ps.len() == 0 {
        Seq::empty()
    } else {
        all_tag_slugs(ps.drop_last()) + page_tag_slugs(ps.last())
    }
}

/// The texts of `l`, each once, in order of first appearance.
pub open spec fn distinct(l: Seq<Seq<char>>) -> Seq<Seq<char>>
    decreases l.len(),
{
    if l.len() == 0 {
        Seq::empty()
    } else if distinct(l.drop_last()).contains(l.last()) {
        distinct(l.drop_last())
    } else {
        distinct(l.drop_last()).push(l.last())
    }
}

/// Whether `r` holds `t`.
fn holds(r: &Vec<String>, t: &str) -> (b: bool)
    ensures
        b == strings_view(r@).contains(t@),
{
    let ghost rs = strings_view(r@);
    let mut k: usize = 0;
    while k < r.len()
        invariant
            k <= r.len(),
            rs == strings_view(r@),
            forall|j: int| 0 <= j < k ==> rs[j] != t@,
        decreases r.len() - k,
    {
        assert(rs[k as int] == r@[k as int]@);
        if str_eq(r[k].as_str(), t) {
            return true;
        }
        k += 1;
    }
    false
}

/// The slugs of all tags of non-index pages, each once, in order of first
/// appearance: one tag page each.
pub fn tag_slugs(pages: &[PageInfo]) -> (r: Vec<String>)
    ensures
        strings_view(r@) == distinct(all_tag_slugs(page_views(pages@))),
{
    let ghost ps = page_views(pages@);
    let mut r: Vec<String> = Vec::new();
    let mut k: usize = 0;
    assert(ps.take(0) == Seq::<PageView>::empty());
    assert(strings_view(r@) == distinct(all_tag_slugs(ps.take(0))));
    while k < pages.len()
        invariant
            k <= pages.len(),
            ps == page_views(pages@),
            strings_view(r@) == distinct(all_tag_slugs(ps.take(k as int))),
        decreases pages.len() - k,
    {
        let ghost done = all_tag_slugs(ps.take(k as int));
        let ghost mine = page_tag_slugs(ps[k as int]);
        assert(ps[k as int] == pages@[k as int]@);
        proof {
            reveal_strlit("index.html");
        }
        if !str_eq(pages[k].out_filename.as_str(), "index.html") {
            let tags = &pages[k].meta.tags;
            let mut m: usize = 0;
            assert(done + mine.take(0) == done);
            while m < tags.len()
                invariant
                    m <= tags.len(),
                    k < pages.len(),
                    tags == pages@[k as int].meta.tags,
                    mine == tags@.map_values(|t: String| t@).map_values(|t: Seq<char>| spec_slugify(t)),
                    strings_view(r@) == distinct(done + mine.take(m as int)),
                decreases tags.len() - m,
            {
                let slug = slugify(tags[m].as_str());
                assert(mine[m as int] == slug@);
                let ghost prev = done + mine.take(m as int);
                assert(done + mine.take(m + 1) == prev.push(slug@));
                assert(prev.push(slug@).drop_last() == prev);
                assert(prev.push(slug@).last() == slug@);
                if !holds(&r, slug.as_str()) {
                    let ghost old_r = r@;
                    r.push(slug);
                    assert(strings_view(r@) == strings_view(old_r).push(slug@));
                }
                m += 1;
            }
            assert(mine.take(tags.len() as int) == mine);
        } else {
            assert(mine == Seq::<Seq<char>>::empty());
            assert(done + mine == done);
        }
        assert(ps.take(k + 1).drop_last() == ps.take(k as int));
        assert(ps.take(k + 1).last() == ps[k as int]);
        k += 1;
    }
    assert(ps.take(pages.len() as int) == ps);
    r
}

/// How many of `tags` have the slug `slug`.
pub open spec fn slug_count(tags: Seq<Seq<char>>, slug: Seq<char>) -> nat
    decreases tags.len(),
{
    if tags.len() == 0 {
        0
    } else {
        slug_count(tags.drop_last(), slug) + if spec_slugify(tags.last()) == slug {
            1nat
        } else {
            0nat
        }
    }
}

/// The positions among the first `n` pages of those on the tag page for
/// `slug`: each non-index page once for each of its tags with that slug.
pub open spec fn tagged_upto(ps: Seq<PageView>, slug: Seq<char>, n: nat) -> Seq<int>
    decreases n,
{
    if n == 0 {
        Seq::empty()
    } else if ps[n - 1].out_filename != "index.html"@ {
        tagged_upto(ps, slug, (n - 1) as nat) + Seq::new(slug_count(ps[n - 1].meta.tags, slug), |_j: int| n - 1)
    } else {
        tagged_upto(ps, slug, (n - 1) as nat)
    }
}

/// The positions of the pages on the tag page for `slug`, in page order.
pub open spec fn tagged(ps: Seq<PageView>, slug: Seq<char>) -> Seq<int> {
    tagged_upto(ps, slug, ps.len())
}

/// The positions of the pages the tag page for `slug` lists: each non-index
/// page as often as it has a tag with that slug, in the order given.
pub fn tagged_pages(pages: &[PageInfo], slug: &str) -> (r: Vec<usize>)
    ensures
        r@.map_values(|j: usize| j as int) == tagged(page_views(pages@), slug@),
{
    let ghost ps = page_views(pages@);
    let mut r: Vec<usize> = Vec::new();
    let mut k: usize = 0;
    assert(r@.map_values(|j: usize| j as int) == tagged_upto(ps, slug@, 0));
    while k < pages.len()
        invariant
            k <= pages.len(),
            ps == page_views(pages@),
            r@.map_values(|j: usize| j as int) == tagged_upto(ps, slug@, k as nat),
        decreases pages.len() - k,
    {
        let ghost done = tagged_upto(ps, slug@, k as nat);
        assert(ps[k as int] == pages@[k as int]@);
        proof {
            reveal_strlit("index.html");
        }
        if !str_eq(pages[k].out_filename.as_str(), "index.html") {
            let tags = &pages[k].meta.tags;
            let ghost ts = tags@.map_values(|t: String| t@);
            let mut m: usize = 0;
            assert(ts.take(0) == Seq::<Seq<char>>::empty());
            assert(done + Seq::new(slug_count(ts.take(0), slug@), |_j: int| k as int) == done);
            while m < tags.len()
                invariant
                    m <= tags.len(),
                    k < pages.len(),
                    tags == pages@[k as int].meta.tags,
                    ts == tags@.map_values(|t: String| t@),
                    r@.map_values(|j: usize| j as int) == done + Seq::new(
                        slug_count(ts.take(m as int), slug@),
                        |_j: int| k as int,
                    ),
                decreases tags.len() - m,
            {
                let ghost before = r@;
                let slug_m = slugify(tags[m].as_str());
                assert(ts.take(m + 1).drop_last() == ts.take(m as int));
                assert(ts.take(m + 1).last() == ts[m as int]);
                assert(ts[m as int] == tags@[m as int]@);
                if str_eq(slug_m.as_str(), slug) {
                    r.push(k);
                    assert(r@.map_values(|j: usize| j as int) =~= before.map_values(|j: usize| j as int).push(k as int));
                    assert(Seq::new(slug_count(ts.take(m + 1), slug@), |_j: int| k as int) =~= Seq::new(
                        slug_count(ts.take(m as int), slug@),
                        |_j: int| k as int,
                    ).push(k as int));
                }
                m += 1;
            }
            assert(ts.take(tags.len() as int) == ts);
        }
        k += 1;
    }
    r
}

proof fn lemma_tagged_nondecreasing(ps: Seq<PageView>, slug: Seq<char>, n: nat)
    requires
        n <= ps.len(),
    ensures
        forall|a: int| 0 <= a < tagged_upto(ps, slug, n).len() ==> 0 <= #[trigger] tagged_upto(ps, slug, n)[a] < n,
        forall|a: int, b: int|
            0 <= a < b < tagged_upto(ps, slug, n).len() ==> #[trigger] tagged_upto(ps, slug, n)[a]
                <= #[trigger] tagged_upto(ps, slug, n)[b],
    decreases n,
{
    if n > 0 {
        lemma_tagged_nondecreasing(ps, slug, (n - 1) as nat);
        let init = tagged_upto(ps, slug, (n - 1) as nat);
        let s = tagged_upto(ps, slug, n);
        assert forall|a: int| 0 <= a < s.len() implies 0 <= #[trigger] s[a] < n by {
            if a < init.len() {
                assert(s[a] == init[a]);
            }
        }
        assert forall|a: int, b: int| 0 <= a < b < s.len() implies #[trigger] s[a] <= #[trigger] s[b] by {
            if b < init.len() {
                assert(s[a] == init[a] && s[b] == init[b]);
            } else if a < init.len() {
                assert(s[a] == init[a]);
            }
        }
    }
}

/// The positions a tag page lists are positions of pages.
pub proof fn lemma_tagged_in_range(ps: Seq<PageView>, slug: Seq<char>)
    ensures
        forall|a: int| 0 <= a < tagged(ps, slug).len() ==> 0 <= #[trigger] tagged(ps, slug)[a] < ps.len(),
{
    lemma_tagged_nondecreasing(ps, slug, ps.len());
}

/// A page has a tag with slug `slug` exactly when some tag of its slugs to it.
proof fn lemma_slug_count_pos(tags: Seq<Seq<char>>, slug: Seq<char>)
    ensures
        slug_count(tags, slug) > 0 <==> exists|k: int| 0 <= k < tags.len() && spec_slugify(#[trigger] tags[k]) == slug,
    decreases tags.len(),
{
    if tags.len() > 0 {
        lemma_slug_count_pos(tags.drop_last(), slug);
        let init = tags.drop_last();
        if exists|k: int| 0 <= k < tags.len() && spec_slugify(#[trigger] tags[k]) == slug {
            let k = choose|k: int| 0 <= k < tags.len() && spec_slugify(#[trigger] tags[k]) == slug;
            if k < init.len() {
                assert(init[k] == tags[k]);
            }
        }
        if exists|k: int| 0 <= k < init.len() && spec_slugify(#[trigger] init[k]) == slug {
            let k = choose|k: int| 0 <= k < init.len() && spec_slugify(#[trigger] init[k]) == slug;
            assert(tags[k] == init[k]);
        }
        assert(spec_slugify(tags[tags.len() - 1]) == spec_slugify(tags.last()));
    }
}

proof fn lemma_tagged_contains(ps: Seq<PageView>, slug: Seq<char>, j: int, n: nat)
    requires
        n <= ps.len(),
        0 <= j,
    ensures
        tagged_upto(ps, slug, n).contains(j) <==> (j < n && ps[j].out_filename != "index.html"@ && slug_count(
            ps[j].meta.tags,
            slug,
        ) > 0),
    decreases n,
{
    if n > 0 {
        lemma_tagged_contains(ps, slug, j, (n - 1) as nat);
        let init = tagged_upto(ps, slug, (n - 1) as nat);
        let s = tagged_upto(ps, slug, n);
        if s.contains(j) {
            let a = choose|a: int| 0 <= a < s.len() && s[a] == j;
            if a < init.len() {
                assert(init[a] == j);
            }
        }
        if j < n && ps[j].out_filename != "index.html"@ && slug_count(ps[j].meta.tags, slug) > 0 {
            if j < n - 1 {
                let a = choose|a: int| 0 <= a < init.len() && init[a] == j;
                assert(s[a] == j);
            } else {
                assert(s[init.len() as int] == j);
            }
        }
    }
}

/// A tag page lists exactly the non-index pages that carry a tag with its
/// slug, and, when the pages come newest first, lists them newest first.
pub proof fn law_tag_page_lists_tagged_posts(ps: Seq<PageView>, slug: Seq<char>, j: int)
    requires
        0 <= j < ps.len(),
    ensures
        tagged(ps, slug).contains(j) <==> (ps[j].out_filename != "index.html"@ && exists|k: int|
            0 <= k < ps[j].meta.tags.len() && spec_slugify(#[trigger] ps[j].meta.tags[k]) == slug),
        sorted_by_date(ps) ==> forall|a: int, b: int|
            0 <= a < b < tagged(ps, slug).len() ==> !newer(
                ps[#[trigger] tagged(ps, slug)[b]],
                ps[#[trigger] tagged(ps, slug)[a]],
            ),
{
    lemma_tagged_contains(ps, slug, j, ps.len());
    lemma_slug_count_pos(ps[j].meta.tags, slug);
    lemma_tagged_nondecreasing(ps, slug, ps.len());
    let t = tagged(ps, slug);
    if sorted_by_date(ps) {
        assert forall|a: int, b: int| 0 <= a < b < t.len() implies !newer(ps[#[trigger] t[b]], ps[#[trigger] t[a]]) by {
            if t[a] == t[b] {
                crate::render::lemma_date_lt_order(ps[t[a]].meta.date, ps[t[a]].meta.date, ps[t[a]].meta.date);
            }
        }
    }
}

/// The tag pages: one for each slug of a tag of a non-index page, and none
/// twice.
pub proof fn law_tag_slugs_are_distinct(l: Seq<Seq<char>>)
    ensures
        forall|t: Seq<char>| #[trigger] distinct(l).contains(t) <==> l.contains(t),
        distinct(l).no_duplicates(),
    decreases l.len(),
{
    if l.len() > 0 {
        let init = l.drop_last();
        law_tag_slugs_are_distinct(init);
        let d = distinct(init);
        assert forall|t: Seq<char>| #[trigger] distinct(l).contains(t) <==> l.contains(t) by {
            if l.contains(t) {
                let k = choose|k: int| 0 <= k < l.len() && l[k] == t;
                if k < init.len() {
                    assert(init[k] == t);
                    assert(init.contains(t));
                } else {
                    assert(t == l.last());
                }
                if !d.contains(l.last()) {
                    if d.contains(t) {
                        let m = choose|m: int| 0 <= m < d.len() && d[m] == t;
                        assert(d.push(l.last())[m] == t);
                    } else {
                        assert(d.push(l.last())[d.len() as int] == t);
                    }
                }
            }
            if distinct(l).contains(t) {
                if d.contains(t) {
                    assert(init.contains(t));
                    let k = choose|k: int| 0 <= k < init.len() && init[k] == t;
                    assert(l[k] == t);
                } else {
                    assert(!d.contains(l.last()));
                    let m = choose|m: int| 0 <= m < d.push(l.last()).len() && d.push(l.last())[m] == t;
                    if m < d.len() {
                        assert(d[m] == t);
                    }
                    assert(t == l.last());
                    assert(l[l.len() - 1] == t);
                }
            }
        }
        if !d.contains(l.last()) {
            let r = d.push(l.last());
            assert forall|a: int, b: int| 0 <= a < r.len() && 0 <= b < r.len() && a != b implies r[a] != r[b] by {
                if a < d.len() && b < d.len() {
                } else if a < d.len() {
                    assert(r[a] == d[a]);
                } else {
                    assert(r[b] == d[b]);
                }
            }
        }
    }
}

// ---------------------------------------------------------------------------
// The tags of a section
// ---------------------------------------------------------------------------

/// The non-index pages of section `key`, in order.
pub open spec fn section_members(ps: Seq<PageView>, key: Seq<char>) -> Seq<PageView>
    decreases ps.len(),
{
    if ps.len() == 0 {
        Seq::empty()
    } else if ps.last().out_filename != "index.html"@ && spec_section_key(ps.last().relative_dir) == key {
        section_members(ps.drop_last(), key).push(ps.last())
    } else {
        section_members(ps.drop_last(), key)
    }
}

/// The tags of the non-index pages of section `key`, each once, in code
/// point order: the tag filter of that section's tag pages.
pub fn section_tags(pages: &[PageInfo], key: &str) -> (r: Vec<String>)
    ensures
        strings_view(r@) == tag_set(all_tags(section_members(page_views(pages@), key@))),
{
    let ghost ps = page_views(pages@);
    let mut members: Vec<&PageInfo> = Vec::new();
    let mut k: usize = 0;
    assert(ps.take(0) == Seq::<PageView>::empty());
    assert(ref_views(members@) == section_members(ps.take(0), key@));
    while k < pages.len()
        invariant
            k <= pages.len(),
            ps == page_views(pages@),
            ref_views(members@) == section_members(ps.take(k as int), key@),
        decreases pages.len() - k,
    {
        assert(ps[k as int] == pages@[k as int]@);
        assert(ps.take(k + 1).drop_last() == ps.take(k as int));
        assert(ps.take(k + 1).last() == ps[k as int]);
        proof {
            reveal_strlit("index.html");
        }
        if !str_eq(pages[k].out_filename.as_str(), "index.html") && str_eq(
            section_key(pages[k].relative_dir.as_str()).as_str(),
            key,
        ) {
            let ghost before = members@;
            members.push(&pages[k]);
            assert(ref_views(members@) =~= ref_views(before).push(ps[k as int]));
        }
        k += 1;
    }
    assert(ps.take(pages.len() as int) == ps);
    sorted_unique_tags(&members)
}

/// The section of the first page that lies in a directory, or nothing.
pub open spec fn spec_first_section(ps: Seq<PageView>) -> Seq<char>
    decreases ps.len(),
{
    if ps.len() == 0 {
        Seq::empty()
    } else if path_components(ps[0].relative_dir).len() > 0 {
        path_components(ps[0].relative_dir)[0]
    } else {
        spec_first_section(ps.drop_first())
    }
}

/// The section a tag page belongs to: that of the first of its pages that
/// lies in a directory.
pub fn first_section_key(pages: &[&PageInfo]) -> (r: String)
    ensures
        r@ == spec_first_section(ref_views(pages@)),
{
    let ghost ps = ref_views(pages@);
    let mut i: usize = 0;
    assert(ps.skip(0) == ps);
    while i < pages.len()
        invariant
            i <= pages.len(),
            ps == ref_views(pages@),
            spec_first_section(ps) == spec_first_section(ps.skip(i as int)),
        decreases pages.len() - i,
    {
        assert(ps.skip(i as int)[0] == pages@[i as int]@);
        let v = chars_of(pages[i].relative_dir.as_str());
        assert(v@.subrange(0, v.len() as int) == v@);
        let comps = component_ranges(&v, 0, v.len());
        if comps.len() > 0 {
            let (a, b) = comps[0];
            let mut r = String::new();
            push_range(&mut r, &v, a, b);
            return r;
        }
        assert(ps.skip(i as int).drop_first() == ps.skip(i + 1));
        i += 1;
    }
    String::new()
}

} // verus!
