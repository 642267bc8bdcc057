//! Album-level values the compiler derives from harvested tags: the number
//! of discs, the comment line, the release month, paths relative to the
//! album folder, and which lyrics file belongs to a track.
use vstd::prelude::*;
use crate::json::{Json, JsonV, jget, jstr};
use crate::resolve::{generic_string, resolve_generic_string};
use crate::text::{before, parse_unsigned, chars_of, string_of, split_chars, parse_u64, parse_u32, lemma_split_nonempty, is_digit, is_ascii_digit, str_to_string};
use crate::collate::{lower, to_lower};
use crate::watch::path_has_prefix;

verus! {

// ---------------------------------------------------------------------------
// Discs
// ---------------------------------------------------------------------------

/// The disc number a track states: a number, or the part of a string before
/// any `/`; 0 when it states none that reads as a number.
pub open spec fn disc_of(t: JsonV) -> u64 {
    match jget(t, "discnumber"@) {
        Some(JsonV::Number(_, _, u)) => match u {
            Some(n) => n,
            None => 0,
        },
        Some(JsonV::Str(s)) => match parse_unsigned(before(s, '/'), u64::MAX as nat) {
            Some(n) => n as u64,
            None => 0,
        },
        _ => 0,
    }
}

/// The distinct positive disc numbers of the tracks.
pub open spec fn disc_set(tracks: Seq<JsonV>) -> Set<u64> {
    Set::new(|d: u64| d > 0 && exists|i: int| 0 <= i < tracks.len() && disc_of(tracks[i]) == d)
}

fn disc_number(t: &Json) -> (r: u64)
    ensures
        r == disc_of(t@),
{
    match t.get("discnumber") {
        Some(v) => match v {
            Json::Number(n) => match n.unsigned {
                Some(x) => x,
                None => 0,
            },
            Json::Str(s) => {
                let c = chars_of(s.as_str());
                let parts = split_chars(c.as_slice(), '/');
                proof {
                    lemma_split_nonempty(s@, '/');
                }
                match parse_u64(parts[0].as_slice()) {
                    Some(x) => x,
                    None => 0,
                }
            },
            _ => 0,
        },
        None => 0,
    }
}

/// `calculate_total_discs`: how many distinct positive disc numbers the
/// tracks state (saturating at `u32::MAX`), or 1 when they state none.
pub fn calculate_total_discs(tracks: &[Json]) -> (r: u32)
    ensures
        disc_set(tracks@.map_values(|t: Json| t@)).finite(),
        r == (if disc_set(tracks@.map_values(|t: Json| t@)).len() == 0 {
            1
        } else if disc_set(tracks@.map_values(|t: Json| t@)).len() > u32::MAX {
            u32::MAX as nat
        } else {
            disc_set(tracks@.map_values(|t: Json| t@)).len()
        }),
{
    let ghost tv = tracks@.map_values(|t: Json| t@);
    let mut seen: Vec<u64> = Vec::new();
    let mut i: usize = 0;
    while i < tracks.len()
        invariant
            0 <= i <= tracks@.len(),
            tv == tracks@.map_values(|t: Json| t@),
            seen@.no_duplicates(),
            forall|d: u64| seen@.contains(d) <==> d > 0 && exists|k: int| 0 <= k < i && disc_of(tv[k]) == d,
        decreases tracks@.len() - i,
    {
        let d = disc_number(&tracks[i]);
        let mut found = false;
        let mut j: usize = 0;
        while j < seen.len()
            invariant
                0 <= j <= seen@.len(),
                found == exists|k: int| 0 <= k < j && seen@[k] == d,
            decreases seen@.len() - j,
        {
            if seen[j] == d {
                found = true;
            }
            j = j + 1;
        }
        let ghost before_seen = seen@;
        if d > 0 && !found {
            seen.push(d);
        }
        i = i + 1;
        proof {
            assert forall|x: u64| seen@.contains(x) <==> x > 0 && exists|k: int| 0 <= k < i && disc_of(tv[k]) == x by {
                if x == d && x > 0 {
                    assert(disc_of(tv[i - 1]) == x);
                }
                if seen@.contains(x) && x != d {
                    assert(before_seen.contains(x));
                }
                if x > 0 && exists|k: int| 0 <= k < i && disc_of(tv[k]) == x {
                    let k = choose|k: int| 0 <= k < i && disc_of(tv[k]) == x;
                    if k < i - 1 {
                        assert(before_seen.contains(x));
                        if d > 0 && !found {
                            assert(seen@[before_seen.len() as int] == d);
                            let m = choose|m: int| 0 <= m < before_seen.len() && before_seen[m] == x;
                            assert(seen@[m] == x);
                        }
                    } else if d > 0 && !found {
                        assert(seen@[before_seen.len() as int] == d);
                    } else {
                        let m = choose|m: int| 0 <= m < j && before_seen[m] == d;
                        assert(seen@[m] == x);
                    }
                }
            }
        }
    }
    proof {
        assert(disc_set(tv) =~= seen@.to_set());
        seen@.unique_seq_to_set();
        vstd::seq_lib::seq_to_set_is_finite(seen@);
    }
    if seen.len() == 0 {
        1
    } else if seen.len() > u32::MAX as usize {
        u32::MAX
    } else {
        seen.len() as u32
    }
}

// ---------------------------------------------------------------------------
// Byte prefixes
// ---------------------------------------------------------------------------

/// How many bytes a character takes in UTF-8.
pub open spec fn utf8_width(c: char) -> nat {
    if (c as u32) < 0x80 {
        1
    } else if (c as u32) < 0x800 {
        2
    } else if (c as u32) < 0x10000 {
        3
    } else {
        4
    }
}

/// The length of a text in UTF-8 bytes (`str::len`).
pub open spec fn utf8_len(s: Seq<char>) -> nat
    decreases s.len(),
{
    if s.len() == 0 {
        0
    } else {
        utf8_width(s[0]) + utf8_len(s.drop_first())
    }
}

/// The characters that make up the first `n` bytes of a text, when `n` falls
/// on a character boundary within it.
pub open spec fn byte_prefix(s: Seq<char>, n: nat) -> Option<Seq<char>>
    decreases s.len(),
{
    if n == 0 {
        Some(Seq::empty())
    } else if s.len() == 0 || utf8_width(s[0]) > n {
        None
    } else {
        match byte_prefix(s.drop_first(), (n - utf8_width(s[0])) as nat) {
            Some(p) => Some(seq![s[0]] + p),
            None => None,
        }
    }
}

fn width_of(c: char) -> (r: u64)
    ensures
        r == utf8_width(c),
{
    if (c as u32) < 0x80 {
        1
    } else if (c as u32) < 0x800 {
        2
    } else if (c as u32) < 0x10000 {
        3
    } else {
        4
    }
}

/// Whether the text is at least four bytes long.
fn at_least_four_bytes(s: &[char]) -> (r: bool)
    ensures
        r == (utf8_len(s@) >= 4),
{
    let mut acc: u64 = 0;
    let mut i: usize = 0;
    assert(s@.skip(0) =~= s@);
    while i < s.len()
        invariant
            0 <= i <= s@.len(),
            acc < 4,
            utf8_len(s@) == acc + utf8_len(s@.skip(i as int)),
        decreases s@.len() - i,
    {
        proof {
            assert(s@.skip(i as int).drop_first() =~= s@.skip(i + 1));
        }
        acc = acc + width_of(s[i]);
        i = i + 1;
        if acc >= 4 {
            return true;
        }
    }
    assert(s@.skip(i as int) =~= Seq::<char>::empty());
    false
}

/// The first four bytes of a text that is at least that long, when they end
/// on a character boundary (`&s[0..4]`).
fn first_four_bytes(s: &[char]) -> (r: Option<Vec<char>>)
    ensures
        match r {
            Some(p) => byte_prefix(s@, 4) == Some(p@),
            None => byte_prefix(s@, 4) is None,
        },
{
    let mut rem: u64 = 4;
    let mut i: usize = 0;
    assert(s@.skip(0) =~= s@);
    assert(s@.take(0) + s@ =~= s@);
    proof {
        match byte_prefix(s@, 4) {
            Some(p) => {
                assert(s@.take(0) + p =~= p);
            },
            None => {},
        }
    }
    while rem > 0
        invariant
            0 <= i <= s@.len(),
            rem <= 4,
            byte_prefix(s@, 4) == match byte_prefix(s@.skip(i as int), rem as nat) {
                Some(p) => Some(s@.take(i as int) + p),
                None => None,
            },
        decreases rem,
    {
        if i >= s.len() {
            assert(s@.skip(i as int).len() == 0);
            return None;
        }
        let w = width_of(s[i]);
        if w > rem {
            assert(s@.skip(i as int)[0] == s@[i as int]);
            return None;
        }
        proof {
            let t = s@.skip(i as int);
            assert(t[0] == s@[i as int]);
            assert(t.drop_first() =~= s@.skip(i + 1));
            assert(s@.take(i + 1) =~= s@.take(i as int) + seq![s@[i as int]]);
            match byte_prefix(s@.skip(i + 1), (rem - w) as nat) {
                Some(p) => {
                    assert(s@.take(i as int) + (seq![s@[i as int]] + p) =~= s@.take(i + 1) + p);
                },
                None => {},
            }
        }
        rem = rem - w;
        i = i + 1;
    }
    let mut p: Vec<char> = Vec::new();
    let mut k: usize = 0;
    while k < i
        invariant
            0 <= k <= i <= s@.len(),
            p@ == s@.take(k as int),
        decreases i - k,
    {
        p.push(s[k]);
        k = k + 1;
        assert(p@ =~= s@.take(k as int));
    }
    assert(s@.take(i as int) + Seq::<char>::empty() =~= s@.take(i as int));
    Some(p)
}

// ---------------------------------------------------------------------------
// Comment and release month
// ---------------------------------------------------------------------------

/// The text of a string value, or the empty text.
pub open spec fn str_or_empty(v: JsonV) -> Seq<char> {
    match v {
        JsonV::Str(s) => s,
        _ => Seq::empty(),
    }
}

/// The album's date, as `resolve_generic_string` reads it.
pub open spec fn date_text(source: JsonV) -> Seq<char> {
    str_or_empty(generic_string(source, "date"@, "year,originalyear"@, "0000"@))
}

/// `resolve_yyyy_mm` panics exactly when the date is at least four bytes
/// long and its fourth byte ends inside a character.
pub open spec fn yyyy_mm_defined(source: JsonV, key: Seq<char>) -> bool {
    jstr(jget(source, key)) is None && utf8_len(date_text(source)) >= 4 ==> byte_prefix(
        date_text(source),
        4,
    ) is Some
}

/// `resolve_yyyy_mm`: the value under `key` when it is a string; else the
/// first four bytes of the date followed by `-00`, or `0000-00`.
pub open spec fn yyyy_mm(source: JsonV, key: Seq<char>) -> Seq<char> {
    match jstr(jget(source, key)) {
        Some(v) => v,
        None => if utf8_len(date_text(source)) >= 4 {
            match byte_prefix(date_text(source), 4) {
                Some(p) => p + "-00"@,
                None => Seq::empty(),
            }
        } else {
            "0000-00"@
        },
    }
}

/// `resolve_yyyy_mm`.
pub fn resolve_yyyy_mm(source: &Json, key: &str) -> (r: String)
    requires
        yyyy_mm_defined(source@, key@),
    ensures
        r@ == yyyy_mm(source@, key@),
{
    match source.get(key) {
        Some(v) => match v.as_str() {
            Some(s) => {
                return s.clone();
            },
            None => {},
        },
        None => {},
    }
    let d = resolve_generic_string(source, "date", "year,originalyear", "0000");
    let dt = match &d {
        Json::Str(s) => s.clone(),
        _ => String::new(),
    };
    assert(dt@ == date_text(source@));
    let c = chars_of(dt.as_str());
    if at_least_four_bytes(c.as_slice()) {
        match first_four_bytes(c.as_slice()) {
            Some(p) => {
                let mut out = p;
                out.push('-');
                out.push('0');
                out.push('0');
                proof {
                    reveal_strlit("-00");
                    assert(out@ =~= p@ + "-00"@);
                }
                string_of(out.as_slice())
            },
            None => String::new(),
        }
    } else {
        str_to_string("0000-00")
    }
}

/// The year of a release month: its first four bytes, or nothing when it
/// is shorter.
pub open spec fn year_of(ym: Seq<char>) -> Seq<char> {
    if utf8_len(ym) >= 4 {
        match byte_prefix(ym, 4) {
            Some(p) => p,
            None => Seq::empty(),
        }
    } else {
        Seq::empty()
    }
}

/// The string a generic resolver gives for `key` with no fallback.
pub open spec fn plain_tag(source: JsonV, key: Seq<char>) -> Seq<char> {
    str_or_empty(generic_string(source, key, Seq::empty(), Seq::empty()))
}

/// Whether `resolve_comment` runs without panicking: when it has to build
/// the comment, the release month it reads must cut at four bytes.
pub open spec fn comment_defined(source: JsonV) -> bool {
    let own = jstr(jget(source, "comment"@));
    let built = !(own matches Some(c) && c.len() > 0) && !(plain_tag(source, "country"@).len() == 0
        && plain_tag(source, "label"@).len() == 0 && plain_tag(source, "catalognumber"@).len() == 0);
    built ==> yyyy_mm_defined(source, "release_yyyy_mm"@) && (utf8_len(
        yyyy_mm(source, "release_yyyy_mm"@),
    ) >= 4 ==> byte_prefix(yyyy_mm(source, "release_yyyy_mm"@), 4) is Some)
}

/// `resolve_comment`: the album's comment, or else a line made of the
/// release year, country, label and catalogue number, the blank ones left
/// out.
pub open spec fn comment_text(source: JsonV) -> Seq<char> {
    match jstr(jget(source, "comment"@)) {
        Some(c) if c.len() > 0 => c,
        _ => {
            let country = plain_tag(source, "country"@);
            let label = plain_tag(source, "label"@);
            let cat = plain_tag(source, "catalognumber"@);
            if country.len() == 0 && label.len() == 0 && cat.len() == 0 {
                Seq::empty()
            } else {
                crate::text::join(
                    crate::resolve::nonblank4(year_of(yyyy_mm(source, "release_yyyy_mm"@)), country, label, cat),
                    seq![' '],
                )
            }
        },
    }
}

fn plain_tag_of(source: &Json, key: &str) -> (r: Vec<char>)
    ensures
        r@ == plain_tag(source@, key@),
{
    let v = resolve_generic_string(source, key, "", "");
    proof {
        reveal_strlit("");
    }
    match &v {
        Json::Str(s) => chars_of(s.as_str()),
        _ => Vec::new(),
    }
}

proof fn lemma_filter_nonempty4(a: Seq<char>, b: Seq<char>, c: Seq<char>, d: Seq<char>)
    ensures
        seq![a, b, c, d].filter(|p: Seq<char>| p.len() > 0) == crate::resolve::nonblank4(a, b, c, d),
{
    reveal(Seq::filter);
    let p = |p: Seq<char>| p.len() > 0;
    let s4 = seq![a, b, c, d];
    let s3 = seq![a, b, c];
    let s2 = seq![a, b];
    let s1 = seq![a];
    let s0 = Seq::<Seq<char>>::empty();
    assert(s4.drop_last() =~= s3);
    assert(s3.drop_last() =~= s2);
    assert(s2.drop_last() =~= s1);
    assert(s1.drop_last() =~= s0);
    assert(s0.filter(p) =~= s0);
    let f1 = if a.len() > 0 { seq![a] } else { Seq::<Seq<char>>::empty() };
    let f2 = if b.len() > 0 { f1.push(b) } else { f1 };
    let f3 = if c.len() > 0 { f2.push(c) } else { f2 };
    assert(s1.filter(p) =~= f1);
    assert(s2.filter(p) =~= f2);
    assert(s3.filter(p) =~= f3);
    assert(s4.filter(p) =~= crate::resolve::nonblank4(a, b, c, d));
}

/// `resolve_comment`.
pub fn resolve_comment(source: &Json) -> (r: String)
    requires
        comment_defined(source@),
    ensures
        r@ == comment_text(source@),
{
    match source.get("comment") {
        Some(v) => match v.as_str() {
            Some(s) => {
                if !s.as_str().is_empty() {
                    return s.clone();
                }
            },
            None => {},
        },
        None => {},
    }
    let country = plain_tag_of(source, "country");
    let label = plain_tag_of(source, "label");
    let cat = plain_tag_of(source, "catalognumber");
    if country.len() == 0 && label.len() == 0 && cat.len() == 0 {
        return String::new();
    }
    let ym = resolve_yyyy_mm(source, "release_yyyy_mm");
    let ymc = chars_of(ym.as_str());
    let year: Vec<char> = if at_least_four_bytes(ymc.as_slice()) {
        match first_four_bytes(ymc.as_slice()) {
            Some(p) => p,
            None => Vec::new(),
        }
    } else {
        Vec::new()
    };
    let ghost parts = seq![year@, country@, label@, cat@];
    let mut kept: Vec<Vec<char>> = Vec::new();
    if year.len() > 0 {
        kept.push(year);
    }
    if country.len() > 0 {
        kept.push(country);
    }
    if label.len() > 0 {
        kept.push(label);
    }
    if cat.len() > 0 {
        kept.push(cat);
    }
    proof {
        lemma_filter_nonempty4(year@, country@, label@, cat@);
        assert(kept@.map_values(|v: Vec<char>| v@) =~= crate::resolve::nonblank4(year@, country@, label@, cat@));
    }
    let sep: Vec<char> = vec![' '];
    let joined = crate::text::join_chars(&kept, sep.as_slice());
    assert(sep@ =~= seq![' ']);
    string_of(joined.as_slice())
}

// ---------------------------------------------------------------------------
// Paths relative to the album
// ---------------------------------------------------------------------------

/// What `Path::strip_prefix` leaves of `target` once the leading components
/// that make up `base` are taken off, written back as text; `None` when
/// `base` is not a prefix of `target`.
pub uninterp spec fn path_strip_prefix(target: Seq<char>, base: Seq<char>) -> Option<Seq<char>>;

/// `Path::strip_prefix`, with the rest written back through
/// `to_string_lossy`.  Component matching is not written out here; the
/// result is named `path_strip_prefix` of the two paths.  It fails exactly
/// when `target` does not start with `base` (`Path::starts_with`).
#[verifier::external_body]
pub(crate) fn strip_path_prefix(target: &str, base: &str) -> (r: Option<String>)
    ensures
        match r {
            Some(p) => path_strip_prefix(target@, base@) == Some(p@),
            None => path_strip_prefix(target@, base@) is None,
        },
        r is Some <==> path_has_prefix(target@, base@),
{
    std::path::Path::new(target).strip_prefix(base).ok().map(|p| p.to_string_lossy().to_string())
}

/// `rel_path`: `target` relative to `base`, or `target` itself when it is
/// not under `base`.
pub fn rel_path(target: &str, base: &str) -> (r: String)
    ensures
        r@ == match path_strip_prefix(target@, base@) {
            Some(p) => p,
            None => target@,
        },
        !path_has_prefix(target@, base@) ==> r@ == target@,
{
    match strip_path_prefix(target, base) {
        Some(p) => p,
        None => str_to_string(target),
    }
}

// ---------------------------------------------------------------------------
// Lyrics files
// ---------------------------------------------------------------------------

/// The ASCII digits a text starts with.
pub open spec fn leading_digits(s: Seq<char>) -> Seq<char>
    decreases s.len(),
{
    if s.len() > 0 && is_digit(s[0]) {
        seq![s[0]] + leading_digits(s.drop_first())
    } else {
        Seq::empty()
    }
}

/// The index of the first `c` in a text.
pub open spec fn first_index(s: Seq<char>, c: char) -> Option<int>
    decreases s.len(),
{
    if s.len() == 0 {
        None
    } else if s[0] == c {
        Some(0)
    } else {
        match first_index(s.drop_first(), c) {
            Some(i) => Some(i + 1),
            None => None,
        }
    }
}

/// Whether a lyrics file name belongs to a track: `<disc>.<track>...` on a
/// release of several discs, `<track>...` otherwise.
pub open spec fn lyrics_name_matches(name: Seq<char>, track: u32, disc: u32, total_discs: u32) -> bool {
    if total_discs > 1 {
        match first_index(name, '.') {
            Some(d) => parse_unsigned(name.take(d), u32::MAX as nat) == Some(disc as nat)
                && parse_unsigned(leading_digits(name.skip(d + 1)), u32::MAX as nat) == Some(
                track as nat,
            ),
            None => false,
        }
    } else {
        parse_unsigned(leading_digits(name), u32::MAX as nat) == Some(track as nat)
    }
}

fn leading_digits_of(s: &[char], from: usize) -> (r: Vec<char>)
    requires
        from <= s@.len(),
    ensures
        r@ == leading_digits(s@.skip(from as int)),
{
    let mut i = from;
    while i < s.len() && is_ascii_digit(s[i])
        invariant
            from <= i <= s@.len(),
            forall|k: int| from <= k < i ==> is_digit(s@[k]),
        decreases s@.len() - i,
    {
        i = i + 1;
    }
    proof {
        lemma_leading_digits(s@, from as int, i as int);
    }
    let mut r: Vec<char> = Vec::new();
    let mut k = from;
    while k < i
        invariant
            from <= k <= i <= s@.len(),
            r@ == s@.subrange(from as int, k as int),
        decreases i - k,
    {
        r.push(s[k]);
        k = k + 1;
        assert(r@ =~= s@.subrange(from as int, k as int));
    }
    r
}

proof fn lemma_leading_digits(s: Seq<char>, from: int, i: int)
    requires
        0 <= from <= i <= s.len(),
        forall|k: int| from <= k < i ==> is_digit(s[k]),
        i == s.len() || !is_digit(s[i]),
    ensures
        leading_digits(s.skip(from)) == s.subrange(from, i),
    decreases i - from,
{
    let t = s.skip(from);
    if from < i {
        lemma_leading_digits(s, from + 1, i);
        assert(t.drop_first() =~= s.skip(from + 1));
        assert(seq![s[from]] + s.subrange(from + 1, i) =~= s.subrange(from, i));
    } else {
        assert(s.subrange(from, i) =~= Seq::<char>::empty());
        if i < s.len() {
            assert(t[0] == s[i]);
        }
    }
}

fn first_index_of(s: &[char], c: char) -> (r: Option<usize>)
    ensures
        match r {
            Some(i) => first_index(s@, c) == Some(i as int) && i < s@.len(),
            None => first_index(s@, c) is None,
        },
{
    let mut i: usize = 0;
    assert(s@.skip(0) =~= s@);
    while i < s.len()
        invariant
            0 <= i <= s@.len(),
            first_index(s@, c) == match first_index(s@.skip(i as int), c) {
                Some(j) => Some(j + i),
                None => None,
            },
        decreases s@.len() - i,
    {
        assert(s@.skip(i as int)[0] == s@[i as int]);
        if s[i] == c {
            return Some(i);
        }
        assert(s@.skip(i as int).drop_first() =~= s@.skip(i + 1));
        i = i + 1;
    }
    assert(s@.skip(i as int) =~= Seq::<char>::empty());
    None
}

/// Whether a file named `name` with extension `ext` is a lyrics file of the
/// given track: its extension, lowered, is `lrc` or `txt`, and its name
/// matches the track (see `lyrics_name_matches`).
pub fn is_lyrics_candidate(name: &str, ext: &str, track: u32, disc: u32, total_discs: u32) -> (r: Option<String>)
    ensures
        match r {
            Some(e) => e@ == lower(ext@) && (e@ == "lrc"@ || e@ == "txt"@) && lyrics_name_matches(
                name@,
                track,
                disc,
                total_discs,
            ),
            None => !((lower(ext@) == "lrc"@ || lower(ext@) == "txt"@) && lyrics_name_matches(
                name@,
                track,
                disc,
                total_discs,
            )),
        },
{
    let e = to_lower(ext);
    let lrc = str_to_string("lrc");
    let txt = str_to_string("txt");
    if !(e == lrc || e == txt) {
        return None;
    }
    let n = chars_of(name);
    let matched = if total_discs > 1 {
        match first_index_of(n.as_slice(), '.') {
            Some(d) => {
                assert(d < n.len());
                let disc_part = crate::text::copy_range(n.as_slice(), 0, d);
                let track_part = leading_digits_of(n.as_slice(), d + 1);
                assert(disc_part@ =~= n@.take(d as int));
                let dm = match parse_u32(disc_part.as_slice()) {
                    Some(x) => x == disc,
                    None => false,
                };
                let tm = match parse_u32(track_part.as_slice()) {
                    Some(x) => x == track,
                    None => false,
                };
                dm && tm
            },
            None => false,
        }
    } else {
        let track_part = leading_digits_of(n.as_slice(), 0);
        assert(n@.skip(0) =~= n@);
        match parse_u32(track_part.as_slice()) {
            Some(x) => x == track,
            None => false,
        }
    };
    if matched {
        Some(e)
    } else {
        None
    }
}

/// The lyrics file chosen among the candidates, given as (path, lowered
/// extension) in the order found: the first `lrc` file, else the first.
pub open spec fn chosen_lyrics(cands: Seq<(Seq<char>, Seq<char>)>) -> Option<Seq<char>> {
    if exists|i: int| 0 <= i < cands.len() && cands[i].1 == "lrc"@ {
        let i = choose|i: int|
            0 <= i < cands.len() && cands[i].1 == "lrc"@ && forall|k: int|
                0 <= k < i ==> cands[k].1 != "lrc"@;
        Some(cands[i].0)
    } else if cands.len() > 0 {
        Some(cands[0].0)
    } else {
        None
    }
}

/// Picks the lyrics file among the candidates: the first `lrc` file, else
/// the first candidate.
pub fn choose_lyrics(cands: &Vec<(String, String)>) -> (r: Option<String>)
    ensures
        match r {
            Some(p) => chosen_lyrics(cands@.map_values(|c: (String, String)| (c.0@, c.1@))) == Some(p@),
            None => chosen_lyrics(cands@.map_values(|c: (String, String)| (c.0@, c.1@))) is None,
        },
{
    let ghost cv = cands@.map_values(|c: (String, String)| (c.0@, c.1@));
    let lrc = str_to_string("lrc");
    let mut i: usize = 0;
    while i < cands.len()
        invariant
            0 <= i <= cands@.len(),
            cv == cands@.map_values(|c: (String, String)| (c.0@, c.1@)),
            lrc@ == "lrc"@,
            forall|k: int| 0 <= k < i ==> cv[k].1 != "lrc"@,
        decreases cands@.len() - i,
    {
        if cands[i].1 == lrc {
            proof {
                let j = choose|j: int|
                    0 <= j < cv.len() && cv[j].1 == "lrc"@ && forall|k: int|
                        0 <= k < j ==> cv[k].1 != "lrc"@;
                assert(cv[i as int].1 == "lrc"@);
                if j < i {
                    assert(cv[j].1 != "lrc"@);
                }
                if j > i {
                    assert(cv[i as int].1 != "lrc"@);
                }
            }
            return Some(cands[i].0.clone());
        }
        i = i + 1;
    }
    if cands.len() > 0 {
        Some(cands[0].0.clone())
    } else {
        None
    }
}

} // verus!
