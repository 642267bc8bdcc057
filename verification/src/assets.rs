//! Serving album assets: the width a resized cover is asked at and the
//! type an image file is served as.
use vstd::prelude::*;
use crate::targets::{extension_of, path_extension};
use crate::text::{chars_of, copy_range, parse_u32, parse_unsigned, str_eq, str_to_string, string_of};

verus! {

/// `str::strip_suffix("px")`, or the text itself when it does not end so.
pub open spec fn without_px(s: Seq<char>) -> Seq<char> {
    if s.len() >= 2 && s[s.len() - 2] == 'p' && s[s.len() - 1] == 'x' {
        s.subrange(0, s.len() - 2)
    } else {
        s
    }
}

/// The width a cover is asked at: the number before an optional `px`, 200
/// when that does not read as a `u32`, kept between 16 and 2048.
pub open spec fn cover_width_of(s: Seq<char>) -> int {
    let w = match parse_unsigned(without_px(s), u32::MAX as nat) {
        Some(v) => v as int,
        None => 200,
    };
    if w < 16 {
        16
    } else if w > 2048 {
        2048
    } else {
        w
    }
}

/// The width of the square a cover is resized to, from the text of the
/// request's path.
pub fn cover_width(text: &str) -> (r: u32)
    ensures
        r == cover_width_of(text@),
        16 <= r <= 2048,
{
    let v = chars_of(text);
    let n = v.len();
    let body: Vec<char> = if n >= 2 && v[n - 2] == 'p' && v[n - 1] == 'x' {
        copy_range(v.as_slice(), 0, n - 2)
    } else {
        v
    };
    let w: u32 = match parse_u32(body.as_slice()) {
        Some(x) => x,
        None => 200,
    };
    if w < 16 {
        16
    } else if w > 2048 {
        2048
    } else {
        w
    }
}

/// The type an image is served as: PNG for a `.png` file, JPEG otherwise.
pub open spec fn image_mime_of(path: Seq<char>) -> Seq<char> {
    if path_extension(path) == Some("png"@) {
        "image/png"@
    } else {
        "image/jpeg"@
    }
}

pub fn image_mime(path: &str) -> (r: String)
    ensures
        r@ == image_mime_of(path@),
{
    match extension_of(path) {
        Some(e) => {
            if str_eq(e.as_str(), "png") {
                str_to_string("image/png")
            } else {
                str_to_string("image/jpeg")
            }
        },
        None => str_to_string("image/jpeg"),
    }
}


/// The type an interface's asset is served as, by its extension.
pub open spec fn asset_mime_of(path: Seq<char>) -> Seq<char> {
    match path_extension(path) {
        Some(e) => if e == "css"@ {
            "text/css"@
        } else if e == "frag"@ || e == "glsl"@ || e == "vert"@ {
            "text/plain"@
        } else if e == "js"@ {
            "application/javascript"@
        } else if e == "json"@ {
            "application/json"@
        } else if e == "png"@ {
            "image/png"@
        } else if e == "jpg"@ || e == "jpeg"@ {
            "image/jpeg"@
        } else if e == "svg"@ {
            "image/svg+xml"@
        } else if e == "woff2"@ {
            "font/woff2"@
        } else {
            "application/octet-stream"@
        },
        None => "application/octet-stream"@,
    }
}

pub fn asset_mime(path: &str) -> (r: String)
    ensures
        r@ == asset_mime_of(path@),
{
    match extension_of(path) {
        Some(e) => {
            let e = e.as_str();
            if str_eq(e, "css") {
                str_to_string("text/css")
            } else if str_eq(e, "frag") || str_eq(e, "glsl") || str_eq(e, "vert") {
                str_to_string("text/plain")
            } else if str_eq(e, "js") {
                str_to_string("application/javascript")
            } else if str_eq(e, "json") {
                str_to_string("application/json")
            } else if str_eq(e, "png") {
                str_to_string("image/png")
            } else if str_eq(e, "jpg") || str_eq(e, "jpeg") {
                str_to_string("image/jpeg")
            } else if str_eq(e, "svg") {
                str_to_string("image/svg+xml")
            } else if str_eq(e, "woff2") {
                str_to_string("font/woff2")
            } else {
                str_to_string("application/octet-stream")
            }
        },
        None => str_to_string("application/octet-stream"),
    }
}

/// `splitn(2, '/')` of an asset request: the asset's key, and what follows
/// the first `/` when there is one.
pub open spec fn asset_parts(s: Seq<char>) -> (Seq<char>, Option<Seq<char>>)
    decreases s.len(),
{
    if s.len() == 0 {
        (s, None)
    } else if s[0] == '/' {
        (Seq::empty(), Some(s.skip(1)))
    } else {
        let rest = asset_parts(s.skip(1));
        (seq![s[0]] + rest.0, rest.1)
    }
}

proof fn lemma_asset_parts_prefix(s: Seq<char>, i: int)
    requires
        0 <= i <= s.len(),
        forall|m: int| 0 <= m < i ==> s[m] != '/',
    ensures
        asset_parts(s) == (s.take(i) + asset_parts(s.skip(i)).0, asset_parts(s.skip(i)).1),
    decreases i,
{
    if i == 0 {
        assert(s.skip(0) =~= s);
        assert(s.take(0) + asset_parts(s).0 =~= asset_parts(s).0);
    } else {
        lemma_asset_parts_prefix(s.skip(1), i - 1);
        assert(s.skip(1).skip(i - 1) =~= s.skip(i));
        assert(seq![s[0]] + s.skip(1).take(i - 1) =~= s.take(i));
        assert(s[0] != '/');
    }
}

/// The key of the asset an interface asks for, and the path inside it.
pub fn split_asset_path(path: &str) -> (r: (String, Option<String>))
    ensures
        (r.0@, match r.1 {
            Some(p) => Some(p@),
            None => None,
        }) == asset_parts(path@),
{
    let v = chars_of(path);
    let mut i: usize = 0;
    while i < v.len() && v[i] != '/'
        invariant
            0 <= i <= v@.len(),
            v@ == path@,
            forall|m: int| 0 <= m < i ==> v@[m] != '/',
        decreases v@.len() - i,
    {
        i = i + 1;
    }
    proof {
        lemma_asset_parts_prefix(v@, i as int);
    }
    let key = string_of(copy_range(v.as_slice(), 0, i).as_slice());
    if i < v.len() {
        let rest = string_of(copy_range(v.as_slice(), i + 1, v.len()).as_slice());
        assert(v@.skip(i as int)[0] == '/');
        assert(v@.skip(i as int).skip(1) =~= v@.subrange(i + 1, v@.len() as int));
        assert(v@.take(i as int) + Seq::<char>::empty() =~= v@.subrange(0, i as int));
        (key, Some(rest))
    } else {
        assert(v@.skip(i as int) =~= Seq::<char>::empty());
        assert(v@.take(i as int) + Seq::<char>::empty() =~= v@.subrange(0, i as int));
        (key, None)
    }
}

} // verus!
