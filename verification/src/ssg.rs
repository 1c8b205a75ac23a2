//! The first project layout: a template with the site's details written in.
use vstd::prelude::*;
use crate::text::{chars_of, join, push_str, split_char, split_ranges, string_of, trim, trim_range};

verus! {

/// One navigation link of the first layout.
pub open spec fn ssg_navbar_item(item: Seq<char>) -> Seq<char> {
    "<li><a href='/"@ + item + "'>"@ + item + "</a></li>"@
}

pub open spec fn ssg_navbar_items(pieces: Seq<Seq<char>>) -> Seq<Seq<char>>
    decreases pieces.len(),
{
    if pieces.len() == 0 {
        Seq::empty()
    } else {
        ssg_navbar_items(pieces.drop_last()).push(ssg_navbar_item(trim(pieces.last())))
    }
}

/// The links of the comma-separated items, trimmed, one per line.
pub open spec fn spec_ssg_navbar_list(items: Seq<char>) -> Seq<char> {
    join(ssg_navbar_items(split_char(items, ',')), "\n"@)
}

proof fn lemma_ssg_navbar_items_len(ps: Seq<Seq<char>>)
    ensures
        ssg_navbar_items(ps).len() == ps.len(),
    decreases ps.len(),
{
    if ps.len() > 0 {
        lemma_ssg_navbar_items_len(ps.drop_last());
    }
}

/// The navigation links of the first layout.
#[verifier::loop_isolation(false)]
pub fn generate_navbar_list(navbar_items: String) -> (r: String)
    ensures
        r@ == spec_ssg_navbar_list(navbar_items@),
{
    let v = chars_of(navbar_items.as_str());
    assert(v@.subrange(0, v.len() as int) == v@);
    let ghost ps = split_char(v@, ',');
    let pieces = split_ranges(&v, 0, v.len(), ',');
    let mut r = String::new();
    let mut k: usize = 0;
    assert(ps.take(0) == Seq::<Seq<char>>::empty());
    while k < pieces.len()
        invariant
            k <= pieces.len(),
            r@ == join(ssg_navbar_items(ps.take(k as int)), "\n"@),
        decreases pieces.len() - k,
    {
        let (a, b) = pieces[k];
        let (ta, tb) = trim_range(&v, a, b);
        let item = string_of(&v, ta, tb);
        let ghost before = r@;
        if k > 0 {
            push_str(&mut r, "\n");
        }
        push_str(&mut r, "<li><a href='/");
        push_str(&mut r, item.as_str());
        push_str(&mut r, "'>");
        push_str(&mut r, item.as_str());
        push_str(&mut r, "</a></li>");
        proof {
            assert(ps.take(k + 1).drop_last() == ps.take(k as int));
            assert(ps.take(k + 1).last() == ps[k as int]);
            lemma_ssg_navbar_items_len(ps.take(k as int));
            crate::text::lemma_join_push(ssg_navbar_items(ps.take(k as int)), "\n"@, ssg_navbar_item(trim(ps[k as int])));
            if k > 0 {
                assert(r@ =~= before + "\n"@ + ssg_navbar_item(trim(ps[k as int])));
            } else {
                assert(r@ =~= before + ssg_navbar_item(trim(ps[k as int])));
            }
        }
        k += 1;
    }
    assert(ps.take(pieces.len() as int) == ps);
    r
}

/// The first layout's page template with the site's details written in.
pub open spec fn spec_template_html(
    title: Seq<char>,
    description: Seq<char>,
    author: Seq<char>,
    keywords: Seq<char>,
    navbar_list: Seq<char>,
) -> Seq<char> {
    "<!DOCTYPE html>
        <html lang=\"en\">
        <head>
            <meta http-equiv=\"content-type\" content=\"text/html; charset=utf-8\" />
            <meta name=\"viewport\" content=\"width=device-width, initial-scale=1.0\" />
            <meta http-equiv=\"X-UA-Compatible\" content=\"ie=edge\" />
            <meta http-equiv=\"cache-control\" content=\"no-cache, must-revalidate, post-check=0, pre-check=0\" />
            <meta http-equiv=\"cache-control\" content=\"max-age=0\" />
            <meta http-equiv=\"expires\" content=\"0\" />
            <meta http-equiv=\"expires\" content=\"Tue, 01 Jan 1980 1:00:00 GMT\" />
            <meta http-equiv=\"pragma\" content=\"no-cache\" />
            <link rel=\"stylesheet\" href=\"./assets/styles.css\" />
            <link rel=\"shortcut icon\" type=\"image/x-icon\" href=\"./assets/favicon.png\" />
            <title>"@
        + title
        + "</title>
            <meta name=\"description\" content=\""@
        + description
        + "\" />
            <meta name=\"author\" content=\""@
        + author
        + "\" />
            <meta name=\"keywords\" content=\""@
        + keywords
        + "\" />
            <!-- Add more fields here as needed -->
        </head>
        <body>
            <header>
                <nav>
                    <ul>
                        "@
        + navbar_list
        + "
                    </ul>
                </nav>
            </header>
            <main></main>
            <footer>
                <p>&copy; "@
        + author
        + ". </p>
            </footer>
        </body>
        </html>"@
}

/// The page template of the first layout.
pub fn template_html(title: &str, description: &str, author: &str, keywords: &str, navbar_list: &str) -> (r: String)
    ensures
        r@ == spec_template_html(title@, description@, author@, keywords@, navbar_list@),
{
    let mut r = String::new();
    push_str(&mut r, "<!DOCTYPE html>
        <html lang=\"en\">
        <head>
            <meta http-equiv=\"content-type\" content=\"text/html; charset=utf-8\" />
            <meta name=\"viewport\" content=\"width=device-width, initial-scale=1.0\" />
            <meta http-equiv=\"X-UA-Compatible\" content=\"ie=edge\" />
            <meta http-equiv=\"cache-control\" content=\"no-cache, must-revalidate, post-check=0, pre-check=0\" />
            <meta http-equiv=\"cache-control\" content=\"max-age=0\" />
            <meta http-equiv=\"expires\" content=\"0\" />
            <meta http-equiv=\"expires\" content=\"Tue, 01 Jan 1980 1:00:00 GMT\" />
            <meta http-equiv=\"pragma\" content=\"no-cache\" />
            <link rel=\"stylesheet\" href=\"./assets/styles.css\" />
            <link rel=\"shortcut icon\" type=\"image/x-icon\" href=\"./assets/favicon.png\" />
            <title>");
    push_str(&mut r, title);
    push_str(&mut r, "</title>
            <meta name=\"description\" content=\"");
    push_str(&mut r, description);
    push_str(&mut r, "\" />
            <meta name=\"author\" content=\"");
    push_str(&mut r, author);
    push_str(&mut r, "\" />
            <meta name=\"keywords\" content=\"");
    push_str(&mut r, keywords);
    push_str(&mut r, "\" />
            <!-- Add more fields here as needed -->
        </head>
        <body>
            <header>
                <nav>
                    <ul>
                        ");
    push_str(&mut r, navbar_list);
    push_str(&mut r, "
                    </ul>
                </nav>
            </header>
            <main></main>
            <footer>
                <p>&copy; ");
    push_str(&mut r, author);
    push_str(&mut r, ". </p>
            </footer>
        </body>
        </html>");
    assert(r@ =~= spec_template_html(title@, description@, author@, keywords@, navbar_list@));
    r
}

} // verus!
