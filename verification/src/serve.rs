//! The development server's decisions: content types, request paths and
//! the live-reload script.
use vstd::prelude::*;
use crate::text::{
    chars_of, ends_with, ends_with_at, find_in, push_range, push_str, replace, replace_str, rfind_char,
    rfind_char_in, split_char, split_ranges, string_of, trim_start_char, trim_start_char_range,
};

verus! {

/// The script that reloads the page when the site has been rebuilt.
pub const RELOAD_SCRIPT: &'static str = "<script>\
(function(){var t=null;\
setInterval(function(){\
fetch('/__reload__')\
.then(function(r){return r.text();})\
.then(function(v){if(t===null){t=v;}else if(t!==v){location.reload();}});\
},500);})();\
</script>";

/// The extension of a file name as `Path::extension` finds it: the text after
/// the last `.`, unless that dot starts the name or the name is `..`.
pub open spec fn spec_extension(name: Seq<char>) -> Option<Seq<char>> {
    if name == ".."@ {
        None
    } else {
        match rfind_char(name, '.') {
            None => None,
            Some(i) => if i == 0 {
                None
            } else {
                Some(name.skip(i + 1))
            },
        }
    }
}

/// The content type served for an extension.
pub open spec fn mime_for(ext: Option<Seq<char>>) -> Seq<char> {
    match ext {
        Some(e) => if e == "html"@ {
            "text/html; charset=utf-8"@
        } else if e == "css"@ {
            "text/css"@
        } else if e == "js"@ {
            "application/javascript"@
        } else if e == "png"@ {
            "image/png"@
        } else if e == "jpg"@ || e == "jpeg"@ {
            "image/jpeg"@
        } else if e == "svg"@ {
            "image/svg+xml"@
        } else if e == "xml"@ {
            "application/xml"@
        } else if e == "txt"@ {
            "text/plain"@
        } else if e == "ico"@ {
            "image/x-icon"@
        } else if e == "webp"@ {
            "image/webp"@
        } else {
            "application/octet-stream"@
        },
        None => "application/octet-stream"@,
    }
}

/// The content type of a file, by the extension of its name.
pub fn mime_type(file_name: &str) -> (r: &'static str)
    ensures
        r@ == mime_for(spec_extension(file_name@)),
{
    let v = chars_of(file_name);
    let n = v.len();
    assert(v@.subrange(0, n as int) == v@);
    if crate::render::str_eq(file_name, "..") {
        return "application/octet-stream";
    }
    let dot = match rfind_char_in(&v, 0, n, '.') {
        Some(i) => i,
        None => return "application/octet-stream",
    };
    if dot == 0 {
        return "application/octet-stream";
    }
    let ext = string_of(&v, dot + 1, n);
    assert(v@.skip(dot + 1) == v@.subrange(dot + 1, n as int));
    let e = ext.as_str();
    if crate::render::str_eq(e, "html") {
        "text/html; charset=utf-8"
    } else if crate::render::str_eq(e, "css") {
        "text/css"
    } else if crate::render::str_eq(e, "js") {
        "application/javascript"
    } else if crate::render::str_eq(e, "png") {
        "image/png"
    } else if crate::render::str_eq(e, "jpg") || crate::render::str_eq(e, "jpeg") {
        "image/jpeg"
    } else if crate::render::str_eq(e, "svg") {
        "image/svg+xml"
    } else if crate::render::str_eq(e, "xml") {
        "application/xml"
    } else if crate::render::str_eq(e, "txt") {
        "text/plain"
    } else if crate::render::str_eq(e, "ico") {
        "image/x-icon"
    } else if crate::render::str_eq(e, "webp") {
        "image/webp"
    } else {
        "application/octet-stream"
    }
}

/// The path of a request URL: what precedes the first `?`.
pub open spec fn spec_request_path(url: Seq<char>) -> Seq<char> {
    split_char(url, '?')[0]
}

/// The path part of a request URL.
pub fn request_path(url: &str) -> (r: String)
    ensures
        r@ == spec_request_path(url@),
{
    let v = chars_of(url);
    assert(v@.subrange(0, v.len() as int) == v@);
    let pieces = split_ranges(&v, 0, v.len(), '?');
    proof {
        crate::text::lemma_split_char_len(v@, '?');
    }
    let (a, b) = pieces[0];
    string_of(&v, a, b)
}

/// The file a request path names below the served directory: the path
/// without its leading slashes.
pub open spec fn spec_relative_request(path: Seq<char>) -> Seq<char> {
    trim_start_char(path, '/')
}

/// The request path without its leading slashes.
pub fn relative_request(path: &str) -> (r: String)
    ensures
        r@ == spec_relative_request(path@),
{
    let v = chars_of(path);
    assert(v@.subrange(0, v.len() as int) == v@);
    let a = trim_start_char_range(&v, 0, v.len(), '/');
    string_of(&v, a, v.len())
}

/// Whether a request path names a directory (ends with `/`), whose
/// `index.html` is served.
pub fn names_directory(path: &str) -> (b: bool)
    ensures
        b == ends_with(path@, "/"@),
{
    let v = chars_of(path);
    assert(v@.subrange(0, v.len() as int) == v@);
    ends_with_at(&v, 0, v.len(), &chars_of("/"))
}

/// Whether a request path asks for the current build's identity.
pub fn is_reload_request(path: &str) -> (b: bool)
    ensures
        b == (path@ == "/__reload__"@),
{
    crate::render::str_eq(path, "/__reload__")
}

/// A served HTML page with the live-reload script before `</body>`.
pub open spec fn spec_inject_reload(html: Seq<char>) -> Seq<char> {
    replace(html, "</body>"@, RELOAD_SCRIPT@ + "</body>"@)
}

/// Adds the live-reload script to a served HTML page.
pub fn inject_reload_script(html: &str) -> (r: String)
    ensures
        r@ == spec_inject_reload(html@),
{
    let mut tail = String::new();
    push_str(&mut tail, RELOAD_SCRIPT);
    push_str(&mut tail, "</body>");
    proof {
        reveal_strlit("</body>");
    }
    replace_str(html, "</body>", tail.as_str())
}

} // verus!
