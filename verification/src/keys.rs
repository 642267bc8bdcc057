//! The standard keys of an album and of a track in the lock file, each read
//! from the manifest with its fallbacks and default.
use vstd::prelude::*;
use crate::album::{comment_defined, comment_text, resolve_comment};
use crate::json::{Json, JsonV};
use crate::resolve::{
    generic_list, generic_string, generic_string_fallback, resolve_generic_list, resolve_generic_string,
    resolve_generic_string_fallback,
};
use crate::text::{str_eq, str_to_string};

verus! {

/// A standard album key: the title, artist and date as strings with their
/// fallbacks and defaults, the genres as a list (`["Unknown"]` when there
/// is none), the comment; `null` for any other key.  The `original_date`
/// and `release_date` keys are resolved elsewhere and read `null` here.
pub open spec fn album_key_value(key: Seq<char>, source: JsonV) -> JsonV {
    if key == "album"@ {
        generic_string(source, "album"@, Seq::empty(), "Untitled"@)
    } else if key == "albumartist"@ {
        generic_string(source, "albumartist"@, "artistartist"@, "Unknown"@)
    } else if key == "date"@ {
        generic_string(source, "date"@, "year,originalyear"@, "0000"@)
    } else if key == "genre"@ {
        let l = generic_list(source, "genre"@, Seq::empty());
        if l == JsonV::Array(Seq::empty()) {
            JsonV::Array(seq![JsonV::Str("Unknown"@)])
        } else {
            l
        }
    } else if key == "comment"@ {
        JsonV::Str(comment_text(source))
    } else {
        JsonV::Null
    }
}

pub fn resolve_top_level_album_key(key: &str, source: &Json) -> (r: Json)
    requires
        key@ == "comment"@ ==> comment_defined(source@),
    ensures
        r@ == album_key_value(key@, source@),
{
    proof {
        reveal_strlit("");
        assert(""@ =~= Seq::<char>::empty());
    }
    if str_eq(key, "album") {
        resolve_generic_string(source, "album", "", "Untitled")
    } else if str_eq(key, "albumartist") {
        resolve_generic_string(source, "albumartist", "artistartist", "Unknown")
    } else if str_eq(key, "date") {
        resolve_generic_string(source, "date", "year,originalyear", "0000")
    } else if str_eq(key, "genre") {
        let l = resolve_generic_list(source, "genre", "");
        let empty = match &l {
            Json::Array(items) => {
                proof {
                    l.lemma_array_view();
                    if items@.len() == 0 {
                        assert(items@.map_values(|x: Json| x@) =~= Seq::<JsonV>::empty());
                    } else {
                        assert(l@->Array_0.len() > 0);
                    }
                }
                items.len() == 0
            },
            _ => false,
        };
        assert(empty == (l@ == JsonV::Array(Seq::empty())));
        if empty {
            let mut v: Vec<Json> = Vec::new();
            v.push(Json::Str(str_to_string("Unknown")));
            let ghost vv = v@;
            let r = crate::lockbuild::array(v);
            assert(vv.map_values(|x: Json| x@) =~= seq![JsonV::Str("Unknown"@)]);
            r
        } else {
            l
        }
    } else if str_eq(key, "comment") {
        Json::Str(resolve_comment(source))
    } else {
        Json::Null
    }
}

/// A standard track key: the title (`Untitled` by default) and the artist
/// (the album's artist, else `Unknown`); `null` for any other key.
pub open spec fn track_key_value(key: Seq<char>, source: JsonV, album_source: JsonV) -> JsonV {
    if key == "title"@ {
        generic_string(source, "title"@, Seq::empty(), "Untitled"@)
    } else if key == "artist"@ {
        generic_string_fallback(source, album_source, "artist"@, "albumartist"@, "Unknown"@)
    } else {
        JsonV::Null
    }
}

pub fn resolve_top_level_track_key(key: &str, source: &Json, album_source: &Json) -> (r: Json)
    ensures
        r@ == track_key_value(key@, source@, album_source@),
{
    proof {
        reveal_strlit("");
        assert(""@ =~= Seq::<char>::empty());
    }
    if str_eq(key, "title") {
        resolve_generic_string(source, "title", "", "Untitled")
    } else if str_eq(key, "artist") {
        resolve_generic_string_fallback(source, album_source, "artist", "albumartist", "Unknown")
    } else {
        Json::Null
    }
}

} // verus!
