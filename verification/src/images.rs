//! Image references after raster images have been converted to WebP.
use vstd::prelude::*;
use crate::text::{
    chars_of, lowercase, push_range, push_str, replace, replace_str, rfind_char, rfind_char_in, string_of, to_lowercase,
};

verus! {

/// `html` with each reference `/static/<rel>` to a converted image `rel`
/// (one with an extension) pointing to `/static/<stem>.webp` instead, the
/// images taken in order.
pub open spec fn spec_rewrite_image_refs(html: Seq<char>, converted: Seq<Seq<char>>) -> Seq<char>
    decreases converted.len(),
{
    if converted.len() == 0 {
        html
    } else {
        let prev = spec_rewrite_image_refs(html, converted.drop_last());
        let rel = converted.last();
        match rfind_char(rel, '.') {
            Some(i) => replace(prev, "/static/"@ + rel, "/static/"@ + rel.take(i) + ".webp"@),
            None => prev,
        }
    }
}

/// Points references to converted images at their WebP versions.
pub fn rewrite_image_refs(html: &str, converted: &[String]) -> (r: String)
    ensures
        r@ == spec_rewrite_image_refs(html@, crate::frontmatter::strings_view(converted@)),
{
    let ghost cs = crate::frontmatter::strings_view(converted@);
    let mut result = String::new();
    push_str(&mut result, html);
    assert(result@ == html@);
    let mut k: usize = 0;
    assert(cs.take(0) == Seq::<Seq<char>>::empty());
    while k < converted.len()
        invariant
            k <= converted.len(),
            cs == crate::frontmatter::strings_view(converted@),
            result@ == spec_rewrite_image_refs(html@, cs.take(k as int)),
        decreases converted.len() - k,
    {
        let rel = converted[k].as_str();
        let v = chars_of(rel);
        assert(v@.subrange(0, v.len() as int) == v@);
        assert(cs.take(k + 1).drop_last() == cs.take(k as int));
        assert(cs.take(k + 1).last() == rel@);
        match rfind_char_in(&v, 0, v.len(), '.') {
            Some(i) => {
                let mut from = String::new();
                push_str(&mut from, "/static/");
                push_str(&mut from, rel);
                let mut to = String::new();
                push_str(&mut to, "/static/");
                push_range(&mut to, &v, 0, i);
                push_str(&mut to, ".webp");
                assert(v@.subrange(0, i as int) == rel@.take(i as int));
                proof {
                    reveal_strlit("/static/");
                }
                result = replace_str(result.as_str(), from.as_str(), to.as_str());
            },
            None => {},
        }
        k += 1;
    }
    assert(cs.take(converted.len() as int) == cs);
    result
}

/// The raster formats converted to WebP.
pub open spec fn is_raster(ext: Seq<char>) -> bool {
    ext == "png"@ || ext == "jpg"@ || ext == "jpeg"@ || ext == "bmp"@
}

/// Whether a file extension, in any case, names a raster format that is
/// converted.
pub fn is_raster_extension(ext: &str) -> (b: bool)
    ensures
        b == is_raster(lowercase(ext@)),
{
    let lower = to_lowercase(ext);
    let e = lower.as_str();
    crate::render::str_eq(e, "png") || crate::render::str_eq(e, "jpg") || crate::render::str_eq(e, "jpeg")
        || crate::render::str_eq(e, "bmp")
}

/// The path of an entry below `static/`: its name, after the parent's path
/// and a `/` when there is a parent.
pub open spec fn spec_static_rel_path(prefix: Seq<char>, name: Seq<char>) -> Seq<char> {
    if prefix.len() == 0 {
        name
    } else {
        prefix + "/"@ + name
    }
}

/// The path of an entry below `static/`.
pub fn static_rel_path(prefix: &str, name: &str) -> (r: String)
    ensures
        r@ == spec_static_rel_path(prefix@, name@),
{
    let mut r = String::new();
    if chars_of(prefix).len() == 0 {
        push_str(&mut r, name);
    } else {
        push_str(&mut r, prefix);
        push_str(&mut r, "/");
        push_str(&mut r, name);
    }
    r
}

/// The name of a converted image: its stem with the `.webp` extension.
pub fn webp_file_name(stem: &str) -> (r: String)
    ensures
        r@ == stem@ + ".webp"@,
{
    let mut r = String::new();
    push_str(&mut r, stem);
    push_str(&mut r, ".webp");
    r
}

} // verus!
