//! The album colour scheme: hexadecimal colours, checked and normalised.
use vstd::prelude::*;
use crate::json::{Json, JsonV, jget, jstr, jstring};
use crate::text::{is_hex_digit, is_ascii_hexdigit, chars_of, dec, push_decimal, string_of, str_to_string};

verus! {

/// `is_valid_hex_color`: `#` followed by 3, 4, 6 or 8 hexadecimal digits.
pub open spec fn hex_color(s: Seq<char>) -> bool {
    &&& s.len() > 0
    &&& s[0] == '#'
    &&& (s.len() - 1 == 3 || s.len() - 1 == 4 || s.len() - 1 == 6 || s.len() - 1 == 8)
    &&& forall|i: int| 1 <= i < s.len() ==> is_hex_digit(#[trigger] s[i])
}

/// Whether a text is a hexadecimal colour.
pub fn is_valid_hex_color(s: &str) -> (r: bool)
    ensures
        r == hex_color(s@),
{
    let c = chars_of(s);
    if c.len() == 0 || c[0] != '#' {
        return false;
    }
    let n = c.len() - 1;
    if n != 3 && n != 4 && n != 6 && n != 8 {
        return false;
    }
    let mut i: usize = 1;
    while i < c.len()
        invariant
            1 <= i <= c@.len(),
            c@ == s@,
            c@[0] == '#',
            c@.len() - 1 == 3 || c@.len() - 1 == 4 || c@.len() - 1 == 6 || c@.len() - 1 == 8,
            forall|k: int| 1 <= k < i ==> is_hex_digit(#[trigger] c@[k]),
        decreases c@.len() - i,
    {
        if !is_ascii_hexdigit(c[i]) {
            return false;
        }
        i = i + 1;
    }
    true
}

/// A colour that is not a hexadecimal colour, and where it was found.
pub struct ColorError {
    /// `foreground`, `background`, or `background[<index>]`.
    pub key: String,
    /// The text found there.
    pub found: String,
}

/// A string that is not a colour.
pub open spec fn bad_color(x: JsonV) -> bool {
    x matches JsonV::Str(s) && !hex_color(s)
}

/// The index of the first background entry that is a string but not a
/// colour.
pub open spec fn first_bad_color(items: Seq<JsonV>) -> Option<int> {
    if exists|i: int| 0 <= i < items.len() && bad_color(items[i]) {
        Some(
            choose|i: int|
                0 <= i < items.len() && bad_color(items[i]) && forall|
                    k: int,
                | 0 <= k < i ==> !bad_color(items[k]),
        )
    } else {
        None
    }
}

/// The strings of a list, in order.
pub open spec fn color_strings(items: Seq<JsonV>) -> Seq<JsonV> {
    items.filter(is_str_fn())
}

pub open spec fn is_str_fn() -> spec_fn(JsonV) -> bool {
    |x: JsonV| x is Str
}

/// `validate_and_format_colors`: a foreground string and a background
/// string or list of strings, each checked; the first that is not a colour
/// is the error.  The result holds `background` (always a list) and then
/// `foreground`, each only when given.
pub open spec fn colors_result(colors: JsonV) -> Result<JsonV, (Seq<char>, Seq<char>)> {
    let fg = jstr(jget(colors, "foreground"@));
    match fg {
        Some(f) if !hex_color(f) => Err(("foreground"@, f)),
        _ => {
            let bg: Option<Result<JsonV, (Seq<char>, Seq<char>)>> = match jget(colors, "background"@) {
                Some(JsonV::Array(items)) => match first_bad_color(items) {
                    Some(i) => Some(
                        Err(("background["@ + dec(i as nat) + "]"@, items[i]->Str_0)),
                    ),
                    None => Some(Ok(JsonV::Array(color_strings(items)))),
                },
                Some(JsonV::Str(s)) => if hex_color(s) {
                    Some(Ok(JsonV::Array(seq![JsonV::Str(s)])))
                } else {
                    Some(Err(("background"@, s)))
                },
                _ => None,
            };
            let fg_entries: Seq<(Seq<char>, JsonV)> = match fg {
                Some(f) => seq![("foreground"@, JsonV::Str(f))],
                None => Seq::empty(),
            };
            match bg {
                Some(Err(e)) => Err(e),
                Some(Ok(b)) => Ok(JsonV::Object(seq![("background"@, b)] + fg_entries)),
                None => Ok(JsonV::Object(fg_entries)),
            }
        },
    }
}

/// Checks and normalises an album's colours.
pub fn validate_and_format_colors(colors: &Json) -> (r: Result<Json, ColorError>)
    ensures
        match r {
            Ok(v) => colors_result(colors@) == Ok::<JsonV, (Seq<char>, Seq<char>)>(v@),
            Err(e) => colors_result(colors@) == Err::<JsonV, (Seq<char>, Seq<char>)>((e.key@, e.found@)),
        },
{
    let mut fg: Option<String> = None;
    match colors.get("foreground") {
        Some(f) => match f.as_str() {
            Some(s) => {
                if !is_valid_hex_color(s.as_str()) {
                    return Err(ColorError { key: str_to_string("foreground"), found: s.clone() });
                }
                fg = Some(s.clone());
            },
            None => {},
        },
        None => {},
    }
    let ghost fgv: Seq<(Seq<char>, JsonV)> = match jstr(jget(colors@, "foreground"@)) {
        Some(f) => seq![("foreground"@, JsonV::Str(f))],
        None => Seq::empty(),
    };
    let mut out: Vec<(String, Json)> = Vec::new();
    match colors.get("background") {
        Some(b) => match b {
            Json::Array(items) => {
                proof {
                    b.lemma_array_view();
                }
                let ghost iv = items@.map_values(|x: Json| x@);
                let ghost isstr = is_str_fn();
                let mut arr: Vec<Json> = Vec::new();
                let mut i: usize = 0;
                while i < items.len()
                    invariant
                        0 <= i <= items@.len(),
                        iv == items@.map_values(|x: Json| x@),
                        isstr == is_str_fn(),
                        jget(colors@, "background"@) == Some(JsonV::Array(iv)),
                        match jstr(jget(colors@, "foreground"@)) {
                            Some(f) => hex_color(f),
                            None => true,
                        },
                        forall|k: int| 0 <= k < i ==> !bad_color(iv[k]),
                        arr@.map_values(|x: Json| x@) == iv.take(i as int).filter(isstr),
                    decreases items@.len() - i,
                {
                    let ghost before = arr@.map_values(|x: Json| x@);
                    proof {
                        reveal(Seq::filter);
                        assert(iv.take(i + 1).drop_last() =~= iv.take(i as int));
                        assert(iv.take(i + 1).last() == items@[i as int]@);
                    }
                    match items[i].as_str() {
                        Some(s) => {
                            if !is_valid_hex_color(s.as_str()) {
                                let mut key: Vec<char> = Vec::new();
                                key.push('b');
                                key.push('a');
                                key.push('c');
                                key.push('k');
                                key.push('g');
                                key.push('r');
                                key.push('o');
                                key.push('u');
                                key.push('n');
                                key.push('d');
                                key.push('[');
                                push_decimal(&mut key, i as u64);
                                key.push(']');
                                proof {
                                    reveal_strlit("background[");
                                    reveal_strlit("]");
                                    assert(key@ =~= "background["@ + dec(i as nat) + "]"@);
                                    let j = choose|j: int|
                                        0 <= j < iv.len() && bad_color(iv[j]) && forall|
                                            k: int,
                                        | 0 <= k < j ==> !bad_color(iv[k]);
                                    assert(bad_color(iv[i as int]));
                                    if j > i {
                                        assert(!bad_color(iv[i as int]));
                                    }
                                    assert(j == i);
                                }
                                return Err(ColorError { key: string_of(key.as_slice()), found: s.clone() });
                            }
                            arr.push(jstring(s.clone()));
                            assert(arr@.map_values(|x: Json| x@) =~= before.push(iv[i as int]));
                        },
                        None => {},
                    }
                    i = i + 1;
                    assert(arr@.map_values(|x: Json| x@) =~= iv.take(i as int).filter(isstr));
                }
                assert(iv.take(i as int) =~= iv);
                let a = Json::Array(arr);
                proof {
                    a.lemma_array_view();
                    assert(!(exists|j: int| 0 <= j < iv.len() && bad_color(iv[j])));
                    assert(first_bad_color(iv) is None);
                    assert(a@ == JsonV::Array(color_strings(iv)));
                }
                out.push((str_to_string("background"), a));
            },
            Json::Str(s) => {
                if !is_valid_hex_color(s.as_str()) {
                    return Err(ColorError { key: str_to_string("background"), found: s.clone() });
                }
                let mut arr: Vec<Json> = Vec::new();
                arr.push(jstring(s.clone()));
                let a = Json::Array(arr);
                proof {
                    a.lemma_array_view();
                    assert(a@->Array_0 =~= seq![JsonV::Str(s@)]);
                }
                out.push((str_to_string("background"), a));
            },
            _ => {},
        },
        None => {},
    }
    let ghost outv = out@.map_values(|e: (String, Json)| (e.0@, e.1@));
    let ghost bgp: Seq<(Seq<char>, JsonV)> = match jget(colors@, "background"@) {
        Some(JsonV::Array(items)) => seq![("background"@, JsonV::Array(color_strings(items)))],
        Some(JsonV::Str(s)) => seq![("background"@, JsonV::Array(seq![JsonV::Str(s)]))],
        _ => Seq::empty(),
    };
    assert(outv =~= bgp);
    assert(match jstr(jget(colors@, "foreground"@)) {
        Some(f) => hex_color(f),
        None => true,
    });
    match fg {
        Some(f) => {
            out.push((str_to_string("foreground"), jstring(f)));
        },
        None => {},
    }
    assert(out@.map_values(|e: (String, Json)| (e.0@, e.1@)) =~= outv + fgv);
    let r = Json::Object(out);
    proof {
        r.lemma_object_view();
        assert(r@ == JsonV::Object(bgp + fgv));
    }
    Ok(r)
}

} // verus!
