//! Lyrics fetched from a web search: the search reply, the cleaning of the
//! scraped text, and the name of the file each track's lyrics go to.
use vstd::prelude::*;
use crate::text::{occurs_at, trim, starts_with, ends_with, contains_text, join, replace, is_digit, chars_of, string_of, trim_chars, join_chars, replace_chars, contains_chars, pad2, dec, push_pad2, push_decimal, is_ascii_digit};

verus! {

/// The reply to a song search.
pub struct SearchResponse {
    pub response: SearchResponseBody,
}

/// The body of a search reply.
pub struct SearchResponseBody {
    pub hits: Vec<Hit>,
}

/// One search hit.
pub struct Hit {
    pub result: SongResult,
}

/// The song a hit names.
pub struct SongResult {
    pub url: String,
}

/// The song of the first hit of a search reply, if any.
pub fn first_song(res: SearchResponse) -> (r: Option<SongResult>)
    ensures
        match r {
            Some(s) => res.response.hits@.len() > 0 && s.url@ == res.response.hits@[0].result.url@,
            None => res.response.hits@.len() == 0,
        },
{
    let mut hits = res.response.hits;
    if hits.len() == 0 {
        None
    } else {
        let h = hits.remove(0);
        Some(h.result)
    }
}

// ---------------------------------------------------------------------------
// File names
// ---------------------------------------------------------------------------

/// A character that file names may not hold.
pub open spec fn forbidden_char(c: char) -> bool {
    c == '<' || c == '>' || c == ':' || c == '"' || c == '/' || c == '\\' || c == '|' || c == '?'
        || c == '*'
}

/// `sanitize_filename`: each forbidden character replaced by `_`.
pub open spec fn sanitized(s: Seq<char>) -> Seq<char> {
    s.map_values(|c: char| if forbidden_char(c) { '_' } else { c })
}

/// A text made safe to use as a file name.
pub fn sanitize_filename(name: &str) -> (r: String)
    ensures
        r@ == sanitized(name@),
{
    let c = chars_of(name);
    let mut out: Vec<char> = Vec::new();
    let mut i: usize = 0;
    while i < c.len()
        invariant
            0 <= i <= c@.len(),
            c@ == name@,
            out@ == sanitized(name@).take(i as int),
        decreases c@.len() - i,
    {
        let x = c[i];
        let y = if x == '<' || x == '>' || x == ':' || x == '"' || x == '/' || x == '\\' || x == '|'
            || x == '?' || x == '*' {
            '_'
        } else {
            x
        };
        out.push(y);
        i = i + 1;
        assert(out@ =~= sanitized(name@).take(i as int));
    }
    assert(sanitized(name@).take(i as int) =~= sanitized(name@));
    string_of(out.as_slice())
}

/// The file a track's lyrics are saved to: `<disc>.<track> - <title>.txt`
/// on a release of several discs, `<track> - <title>.txt` otherwise, with
/// the track number written with at least two digits.
pub open spec fn lyrics_file_name(title: Seq<char>, track: u32, disc: u32, total_discs: u32) -> Seq<char> {
    if total_discs > 1 {
        dec(disc as nat) + seq!['.'] + pad2(track as nat) + " - "@ + sanitized(title) + ".txt"@
    } else {
        pad2(track as nat) + " - "@ + sanitized(title) + ".txt"@
    }
}

/// The file name for a track's lyrics.
pub fn lyrics_filename(title: &str, track: u32, disc: u32, total_discs: u32) -> (r: String)
    ensures
        r@ == lyrics_file_name(title@, track, disc, total_discs),
{
    let mut out: Vec<char> = Vec::new();
    if total_discs > 1 {
        push_decimal(&mut out, disc as u64);
        out.push('.');
    }
    push_pad2(&mut out, track as u64);
    out.push(' ');
    out.push('-');
    out.push(' ');
    let safe = chars_of(sanitize_filename(title).as_str());
    crate::text::extend_chars(&mut out, safe.as_slice());
    out.push('.');
    out.push('t');
    out.push('x');
    out.push('t');
    proof {
        reveal_strlit(" - ");
        reveal_strlit(".txt");
    }
    assert(out@ =~= lyrics_file_name(title@, track, disc, total_discs));
    string_of(out.as_slice())
}

// ---------------------------------------------------------------------------
// Cleaning scraped text
// ---------------------------------------------------------------------------

/// A section heading such as `[Chorus]`.
pub open spec fn bracketed(t: Seq<char>) -> bool {
    starts_with(t, seq!['[']) && ends_with(t, seq![']'])
}

/// The lines kept: each trimmed, headings dropped, and the first line
/// dropped too when it is the contributors banner.
pub open spec fn kept_lines(lines: Seq<Seq<char>>) -> Seq<Seq<char>> {
    if lines.len() == 0 {
        Seq::empty()
    } else {
        let first = if !contains_text(lines[0], "Contributors"@) && !bracketed(trim(lines[0])) {
            seq![trim(lines[0])]
        } else {
            Seq::empty()
        };
        first + lines.drop_first().map_values(|l: Seq<char>| trim(l)).filter(
            |t: Seq<char>| !bracketed(t),
        )
    }
}

/// Runs of line breaks cut to at most two, `run` breaks having come just
/// before.
pub open spec fn collapse_breaks(s: Seq<char>, run: nat) -> Seq<char>
    decreases s.len(),
{
    if s.len() == 0 {
        Seq::empty()
    } else if s[0] == '\n' {
        if run + 1 <= 2 {
            seq!['\n'] + collapse_breaks(s.drop_first(), run + 1)
        } else {
            collapse_breaks(s.drop_first(), run + 1)
        }
    } else {
        seq![s[0]] + collapse_breaks(s.drop_first(), 0)
    }
}

/// A text without its trailing ASCII digits.
pub open spec fn drop_trailing_digits(s: Seq<char>) -> Seq<char>
    decreases s.len(),
{
    if s.len() > 0 && is_digit(s.last()) {
        drop_trailing_digits(s.drop_last())
    } else {
        s
    }
}

/// `clean_lyrics`: the kept lines joined, line breaks next to parentheses
/// removed, runs of blank lines shortened, and a trailing `<n>Embed`
/// marker dropped.
pub open spec fn cleaned_lyrics(lines: Seq<Seq<char>>) -> Seq<char> {
    let joined = join(kept_lines(lines), seq!['\n']);
    let c = replace(replace(joined, "(\n"@, "("@), "\n)"@, ")"@);
    let t = trim(collapse_breaks(c, 0));
    if ends_with(t, "Embed"@) {
        trim(drop_trailing_digits(t.take(t.len() - 5)))
    } else {
        trim(t)
    }
}

fn is_bracketed(t: &Vec<char>) -> (r: bool)
    ensures
        r == bracketed(t@),
{
    let open: Vec<char> = vec!['['];
    let close: Vec<char> = vec![']'];
    assert(open@ =~= seq!['[']);
    assert(close@ =~= seq![']']);
    crate::text::starts_with_chars(t.as_slice(), open.as_slice()) && crate::text::ends_with_chars(
        t.as_slice(),
        close.as_slice(),
    )
}

fn collapse_all(s: &Vec<char>) -> (r: Vec<char>)
    ensures
        r@ == collapse_breaks(s@, 0),
{
    let mut out: Vec<char> = Vec::new();
    let mut run: u64 = 0;
    let mut i: usize = 0;
    assert(s@.skip(0) =~= s@);
    while i < s.len()
        invariant
            0 <= i <= s@.len(),
            run <= i,
            collapse_breaks(s@, 0) == out@ + collapse_breaks(s@.skip(i as int), run as nat),
        decreases s@.len() - i,
    {
        let c = s[i];
        proof {
            assert(s@.skip(i as int)[0] == c);
            assert(s@.skip(i as int).drop_first() =~= s@.skip(i + 1));
        }
        if c == '\n' {
            if run + 1 <= 2 {
                out.push('\n');
                assert(out@ + collapse_breaks(s@.skip(i + 1), (run + 1) as nat) =~= (out@.drop_last()
                    + seq!['\n']) + collapse_breaks(s@.skip(i + 1), (run + 1) as nat));
                assert(out@.drop_last() + (seq!['\n'] + collapse_breaks(s@.skip(i + 1), (run + 1) as nat))
                    =~= out@ + collapse_breaks(s@.skip(i + 1), (run + 1) as nat));
            }
            run = run + 1;
        } else {
            out.push(c);
            assert(out@.drop_last() + (seq![c] + collapse_breaks(s@.skip(i + 1), 0)) =~= out@
                + collapse_breaks(s@.skip(i + 1), 0));
            run = 0;
        }
        i = i + 1;
    }
    assert(s@.skip(i as int) =~= Seq::<char>::empty());
    assert(out@ + Seq::<char>::empty() =~= out@);
    out
}

fn drop_digits_at_end(s: Vec<char>) -> (r: Vec<char>)
    ensures
        r@ == drop_trailing_digits(s@),
{
    let mut t = s;
    while t.len() > 0 && is_ascii_digit(t[t.len() - 1])
        invariant
            drop_trailing_digits(s@) == drop_trailing_digits(t@),
        decreases t@.len(),
    {
        let ghost before = t@;
        t.pop();
        assert(t@ =~= before.drop_last());
    }
    t
}

/// Cleans the lines scraped from a lyrics page.
pub fn clean_lyrics(lyrics_lines: &Vec<String>) -> (r: String)
    ensures
        r@ == cleaned_lyrics(lyrics_lines@.map_values(|s: String| s@)),
{
    let ghost lv = lyrics_lines@.map_values(|s: String| s@);
    let mut filtered: Vec<Vec<char>> = Vec::new();
    if lyrics_lines.len() > 0 {
        let first = chars_of(lyrics_lines[0].as_str());
        let banner: Vec<char> = chars_of("Contributors");
        if !contains_chars(first.as_slice(), banner.as_slice()) {
            let t = trim_chars(first.as_slice());
            if !is_bracketed(&t) {
                filtered.push(t);
            }
        }
        let ghost rest = lv.drop_first().map_values(|l: Seq<char>| trim(l));
        let ghost keep = |t: Seq<char>| !bracketed(t);
        let ghost head = filtered@.map_values(|v: Vec<char>| v@);
        assert(lv[0] == lyrics_lines@[0]@);
        let mut i: usize = 1;
        while i < lyrics_lines.len()
            invariant
                1 <= i <= lyrics_lines@.len(),
                lv == lyrics_lines@.map_values(|s: String| s@),
                rest == lv.drop_first().map_values(|l: Seq<char>| trim(l)),
                keep == (|t: Seq<char>| !bracketed(t)),
                filtered@.map_values(|v: Vec<char>| v@) == head + rest.take(i - 1).filter(keep),
            decreases lyrics_lines@.len() - i,
        {
            let t = trim_chars(chars_of(lyrics_lines[i].as_str()).as_slice());
            let ghost before = filtered@.map_values(|v: Vec<char>| v@);
            proof {
                reveal(Seq::filter);
                assert(rest.take(i as int).drop_last() =~= rest.take(i - 1));
                assert(rest[i - 1] == trim(lv[i as int]));
                assert(rest.take(i as int).last() == t@);
            }
            if !is_bracketed(&t) {
                filtered.push(t);
                assert(filtered@.map_values(|v: Vec<char>| v@) =~= before.push(rest[i - 1]));
                assert(head + rest.take(i as int).filter(keep) =~= (head + rest.take(i - 1).filter(keep)).push(rest[i - 1]));
            }
            i = i + 1;
        }
        assert(rest.take(i - 1) =~= rest);
        proof {
            reveal_strlit("Contributors");
        }
        assert(filtered@.map_values(|v: Vec<char>| v@) =~= kept_lines(lv));
    } else {
        assert(filtered@.map_values(|v: Vec<char>| v@) =~= kept_lines(lv));
    }
    let nl: Vec<char> = vec!['\n'];
    assert(nl@ =~= seq!['\n']);
    let joined = join_chars(&filtered, nl.as_slice());
    let p1 = chars_of("(\n");
    let r1 = chars_of("(");
    let p2 = chars_of("\n)");
    let r2 = chars_of(")");
    proof {
        reveal_strlit("(\n");
        reveal_strlit("\n)");
    }
    let c1 = replace_chars(joined.as_slice(), p1.as_slice(), r1.as_slice());
    let c2 = replace_chars(c1.as_slice(), p2.as_slice(), r2.as_slice());
    let collapsed = collapse_all(&c2);
    let t = trim_chars(collapsed.as_slice());
    let embed = chars_of("Embed");
    proof {
        reveal_strlit("Embed");
    }
    if crate::text::ends_with_chars(t.as_slice(), embed.as_slice()) {
        let cut = crate::text::copy_range(t.as_slice(), 0, t.len() - 5);
        assert(cut@ =~= t@.take(t@.len() - 5));
        let d = drop_digits_at_end(cut);
        let f = trim_chars(d.as_slice());
        string_of(f.as_slice())
    } else {
        let f = trim_chars(t.as_slice());
        string_of(f.as_slice())
    }
}

/// A page's HTML with every line-break tag turned into a line break.
pub open spec fn breaks_as_newlines(html: Seq<char>) -> Seq<char> {
    replace(
        replace(
            replace(
                replace(replace(replace(html, "<br>"@, "\n"@), "<br/>"@, "\n"@), "<br />"@, "\n"@),
                "<BR>"@,
                "\n"@,
            ),
            "<BR/>"@,
            "\n"@,
        ),
        "<BR />"@,
        "\n"@,
    )
}

fn replace_str(s: &Vec<char>, pat: &str, rep: &str) -> (r: Vec<char>)
    requires
        pat@.len() > 0,
    ensures
        r@ == replace(s@, pat@, rep@),
{
    let p = chars_of(pat);
    let q = chars_of(rep);
    replace_chars(s.as_slice(), p.as_slice(), q.as_slice())
}

/// Turns the line-break tags of a page into line breaks.
pub fn html_breaks_to_newlines(html: &str) -> (r: String)
    ensures
        r@ == breaks_as_newlines(html@),
{
    proof {
        reveal_strlit("<br>");
        reveal_strlit("<br/>");
        reveal_strlit("<br />");
        reveal_strlit("<BR>");
        reveal_strlit("<BR/>");
        reveal_strlit("<BR />");
    }
    let s0 = chars_of(html);
    let s1 = replace_str(&s0, "<br>", "\n");
    let s2 = replace_str(&s1, "<br/>", "\n");
    let s3 = replace_str(&s2, "<br />", "\n");
    let s4 = replace_str(&s3, "<BR>", "\n");
    let s5 = replace_str(&s4, "<BR/>", "\n");
    let s6 = replace_str(&s5, "<BR />", "\n");
    string_of(s6.as_slice())
}

/// Whether a text holds no `<`.
pub open spec fn no_open_angle(s: Seq<char>) -> bool {
    forall|i: int| 0 <= i < s.len() ==> s[i] != '<'
}

/// The six line-break tags a page may hold.
pub open spec fn break_tag(t: Seq<char>) -> bool {
    t == "<br>"@ || t == "<br/>"@ || t == "<br />"@ || t == "<BR>"@ || t == "<BR/>"@ || t == "<BR />"@
}

proof fn lemma_replace_plain(s: Seq<char>, pat: Seq<char>, rep: Seq<char>)
    requires
        pat.len() > 0,
        pat[0] == '<',
        no_open_angle(s),
    ensures
        replace(s, pat, rep) == s,
    decreases s.len(),
{
    if s.len() >= pat.len() {
        assert(s.take(pat.len() as int)[0] == s[0]);
        assert(s.take(pat.len() as int) != pat);
        let t = s.skip(1);
        assert forall|i: int| 0 <= i < t.len() implies t[i] != '<' by {
            assert(t[i] == s[i + 1]);
        }
        lemma_replace_plain(t, pat, rep);
        assert(seq![s[0]] + t =~= s);
    }
}

proof fn lemma_replace_after_plain(a: Seq<char>, t: Seq<char>, pat: Seq<char>, rep: Seq<char>)
    requires
        pat.len() > 0,
        pat[0] == '<',
        no_open_angle(a),
    ensures
        replace(a + t, pat, rep) == a + replace(t, pat, rep),
    decreases a.len(),
{
    if a.len() > 0 {
        let s = a + t;
        let a1 = a.skip(1);
        assert forall|i: int| 0 <= i < a1.len() implies a1[i] != '<' by {
            assert(a1[i] == a[i + 1]);
        }
        lemma_replace_after_plain(a1, t, pat, rep);
        assert(s.skip(1) =~= a1 + t);
        if s.len() < pat.len() {
            assert(t.len() < pat.len());
            assert(replace(t, pat, rep) == t);
            assert(seq![a[0]] + a1 =~= a);
            assert(replace(a1 + t, pat, rep) == a1 + t);
        } else {
            assert(s.take(pat.len() as int)[0] == a[0]);
            assert(s.take(pat.len() as int) != pat);
            assert(seq![s[0]] + (a1 + replace(t, pat, rep)) =~= a + replace(t, pat, rep));
        }
    } else {
        assert(a + t =~= t);
        assert(a + replace(t, pat, rep) =~= replace(t, pat, rep));
    }
}

proof fn lemma_replace_tag(a: Seq<char>, tag: Seq<char>, b: Seq<char>, pat: Seq<char>, rep: Seq<char>)
    requires
        no_open_angle(a),
        no_open_angle(b),
        no_open_angle(rep),
        tag.len() >= 4,
        pat.len() >= 4,
        tag[0] == '<',
        pat[0] == '<',
        forall|i: int| 1 <= i < tag.len() ==> tag[i] != '<',
        pat == tag || tag[1] != pat[1] || tag[3] != pat[3],
    ensures
        replace(a + tag + b, pat, rep) == if pat == tag {
            a + rep + b
        } else {
            a + tag + b
        },
        pat != tag ==> replace(a + rep + b, pat, rep) == a + rep + b,
{
    lemma_replace_after_plain(a, tag + b, pat, rep);
    assert(a + tag + b =~= a + (tag + b));
    let s = tag + b;
    let rest = tag.skip(1) + b;
    assert forall|i: int| 0 <= i < rest.len() implies rest[i] != '<' by {
        if i < tag.len() - 1 {
            assert(rest[i] == tag[i + 1]);
        } else {
            assert(rest[i] == b[i - (tag.len() - 1)]);
        }
    }
    if pat == tag {
        assert(s.take(pat.len() as int) =~= pat);
        assert(s.skip(pat.len() as int) =~= b);
        lemma_replace_plain(b, pat, rep);
        assert(a + (rep + b) =~= a + rep + b);
    } else {
        if s.len() >= pat.len() {
            assert(s.take(pat.len() as int)[1] == tag[1]);
            assert(s.take(pat.len() as int)[3] == tag[3]);
            assert(s.take(pat.len() as int) != pat);
            assert(s.skip(1) =~= rest);
            lemma_replace_plain(rest, pat, rep);
            assert(seq![s[0]] + rest =~= s);
        }
        assert(a + (tag + b) =~= a + tag + b);
        let plain = a + rep + b;
        assert forall|i: int| 0 <= i < plain.len() implies plain[i] != '<' by {
            if i < a.len() {
                assert(plain[i] == a[i]);
            } else if i < a.len() + rep.len() {
                assert(plain[i] == rep[i - a.len()]);
            } else {
                assert(plain[i] == b[i - a.len() - rep.len()]);
            }
        }
        lemma_replace_plain(plain, pat, rep);
    }
}

/// A page's text between tags is left as it is, and every line-break tag,
/// in any of its six spellings, becomes exactly one line break: for any
/// texts `a` and `b` without a `<`, `a`, a tag, `b` becomes `a`, a line
/// break, `b`; and a text without a `<` is unchanged.
pub proof fn law_break_tags_become_newlines(a: Seq<char>, tag: Seq<char>, b: Seq<char>)
    requires
        no_open_angle(a),
        no_open_angle(b),
        break_tag(tag),
    ensures
        breaks_as_newlines(a + tag + b) == a + "\n"@ + b,
        breaks_as_newlines(a) == a,
{
    reveal_strlit("<br>");
    reveal_strlit("<br/>");
    reveal_strlit("<br />");
    reveal_strlit("<BR>");
    reveal_strlit("<BR/>");
    reveal_strlit("<BR />");
    reveal_strlit("\n");
    let nl = "\n"@;
    assert(no_open_angle(nl));
    assert forall|i: int| 1 <= i < tag.len() implies tag[i] != '<' by {}
    let s0 = a + tag + b;
    let s1 = replace(s0, "<br>"@, nl);
    let s2 = replace(s1, "<br/>"@, nl);
    let s3 = replace(s2, "<br />"@, nl);
    let s4 = replace(s3, "<BR>"@, nl);
    let s5 = replace(s4, "<BR/>"@, nl);
    let s6 = replace(s5, "<BR />"@, nl);
    lemma_replace_tag(a, tag, b, "<br>"@, nl);
    lemma_replace_tag(a, tag, b, "<br/>"@, nl);
    lemma_replace_tag(a, tag, b, "<br />"@, nl);
    lemma_replace_tag(a, tag, b, "<BR>"@, nl);
    lemma_replace_tag(a, tag, b, "<BR/>"@, nl);
    lemma_replace_tag(a, tag, b, "<BR />"@, nl);
    let t = a + nl + b;
    if tag == "<br>"@ {
        assert(s1 == t);
        assert(s2 == t);
        assert(s3 == t);
        assert(s4 == t);
        assert(s5 == t);
        assert(s6 == t);
    } else if tag == "<br/>"@ {
        assert(s1 == s0);
        assert(s2 == t);
        assert(s3 == t);
        assert(s4 == t);
        assert(s5 == t);
        assert(s6 == t);
    } else if tag == "<br />"@ {
        assert(s1 == s0);
        assert(s2 == s0);
        assert(s3 == t);
        assert(s4 == t);
        assert(s5 == t);
        assert(s6 == t);
    } else if tag == "<BR>"@ {
        assert(s1 == s0);
        assert(s2 == s0);
        assert(s3 == s0);
        assert(s4 == t);
        assert(s5 == t);
        assert(s6 == t);
    } else if tag == "<BR/>"@ {
        assert(s1 == s0);
        assert(s2 == s0);
        assert(s3 == s0);
        assert(s4 == s0);
        assert(s5 == t);
        assert(s6 == t);
    } else {
        assert(s1 == s0);
        assert(s2 == s0);
        assert(s3 == s0);
        assert(s4 == s0);
        assert(s5 == s0);
        assert(s6 == t);
    }
    assert(s6 == breaks_as_newlines(a + tag + b));
    let e = Seq::<char>::empty();
    assert(a + e + e =~= a);
    assert(no_open_angle(e));
    lemma_replace_plain(a, "<br>"@, nl);
    lemma_replace_plain(a, "<br/>"@, nl);
    lemma_replace_plain(a, "<br />"@, nl);
    lemma_replace_plain(a, "<BR>"@, nl);
    lemma_replace_plain(a, "<BR/>"@, nl);
    lemma_replace_plain(a, "<BR />"@, nl);
}

/// Whether a text holds no line break.
pub open spec fn no_newline(s: Seq<char>) -> bool {
    forall|i: int| 0 <= i < s.len() ==> s[i] != '\n'
}

proof fn lemma_replace_prefix_copy(t: Seq<char>, pat: Seq<char>, w: Seq<char>)
    requires
        pat.len() > 0,
        no_newline(w),
        w.len() <= replace(t, pat, seq!['\n']).len(),
        replace(t, pat, seq!['\n']).take(w.len() as int) == w,
    ensures
        w.len() <= t.len(),
        t.take(w.len() as int) == w,
    decreases t.len(),
{
    let nl = seq!['\n'];
    let r = replace(t, pat, nl);
    if w.len() == 0 {
        assert(t.take(0) =~= w);
    } else if t.len() < pat.len() {
    } else if t.take(pat.len() as int) == pat {
        assert(r == nl + replace(t.skip(pat.len() as int), pat, nl));
        assert(r.take(w.len() as int)[0] == '\n');
        assert(w[0] == '\n');
    } else {
        let r1 = replace(t.skip(1), pat, nl);
        assert(r == seq![t[0]] + r1);
        let w1 = w.skip(1);
        assert(r1.take(w1.len() as int) =~= r.take(w.len() as int).skip(1));
        assert forall|k: int| 0 <= k < w1.len() implies w1[k] != '\n' by {
            assert(w1[k] == w[k + 1]);
        }
        lemma_replace_prefix_copy(t.skip(1), pat, w1);
        assert(w[0] == r.take(w.len() as int)[0]);
        assert(t.take(w.len() as int) =~= seq![t[0]] + t.skip(1).take(w1.len() as int));
        assert(w =~= seq![w[0]] + w1);
    }
}

/// What `replace` with a line break leaves holds no copy of the pattern it
/// replaced, and any other text without a line break found in it was in
/// the text already.
proof fn lemma_replace_occurs(s: Seq<char>, pat: Seq<char>, q: Seq<char>, i: int)
    requires
        pat.len() > 0,
        q.len() > 0,
        no_newline(q),
        occurs_at(replace(s, pat, seq!['\n']), q, i),
    ensures
        q != pat,
        contains_text(s, q),
    decreases s.len(),
{
    let nl = seq!['\n'];
    let r = replace(s, pat, nl);
    let n = q.len() as int;
    if s.len() < pat.len() {
        assert(r == s);
        assert(occurs_at(s, q, i));
    } else if s.take(pat.len() as int) == pat {
        let p = pat.len() as int;
        let rest = s.skip(p);
        let r1 = replace(rest, pat, nl);
        assert(r == nl + r1);
        if i == 0 {
            assert(r.subrange(0, n)[0] == r[0]);
            assert(q[0] == '\n');
        } else {
            assert(r1.subrange(i - 1, i - 1 + n) =~= r.subrange(i, i + n));
            lemma_replace_occurs(rest, pat, q, i - 1);
            let j = choose|j: int| occurs_at(rest, q, j);
            assert(s.subrange(j + p, j + p + n) =~= rest.subrange(j, j + n));
            assert(occurs_at(s, q, j + p));
        }
    } else {
        let rest = s.skip(1);
        let r1 = replace(rest, pat, nl);
        assert(r == seq![s[0]] + r1);
        if i == 0 {
            let w = q.skip(1);
            assert(r1.take(w.len() as int) =~= r.subrange(0, n).skip(1));
            assert forall|k: int| 0 <= k < w.len() implies w[k] != '\n' by {
                assert(w[k] == q[k + 1]);
            }
            lemma_replace_prefix_copy(rest, pat, w);
            assert(q[0] == r.subrange(0, n)[0]);
            assert(s.subrange(0, n) =~= seq![s[0]] + rest.take(w.len() as int));
            assert(q =~= seq![q[0]] + w);
            assert(occurs_at(s, q, 0));
            if q == pat {
                assert(s.take(pat.len() as int) =~= s.subrange(0, n));
            }
        } else {
            assert(r1.subrange(i - 1, i - 1 + n) =~= r.subrange(i, i + n));
            lemma_replace_occurs(rest, pat, q, i - 1);
            let j = choose|j: int| occurs_at(rest, q, j);
            assert(s.subrange(j + 1, j + 1 + n) =~= rest.subrange(j, j + n));
            assert(occurs_at(s, q, j + 1));
        }
    }
}

/// No line-break tag, in any of its six spellings, is left in a page once
/// its breaks are turned into line breaks.
pub proof fn law_no_break_tag_remains(html: Seq<char>, tag: Seq<char>)
    requires
        break_tag(tag),
    ensures
        !contains_text(breaks_as_newlines(html), tag),
{
    reveal_strlit("<br>");
    reveal_strlit("<br/>");
    reveal_strlit("<br />");
    reveal_strlit("<BR>");
    reveal_strlit("<BR/>");
    reveal_strlit("<BR />");
    reveal_strlit("\n");
    let nl = "\n"@;
    assert(nl =~= seq!['\n']);
    assert(no_newline(tag));
    let p1 = "<br>"@;
    let p2 = "<br/>"@;
    let p3 = "<br />"@;
    let p4 = "<BR>"@;
    let p5 = "<BR/>"@;
    let p6 = "<BR />"@;
    let s1 = replace(html, p1, nl);
    let s2 = replace(s1, p2, nl);
    let s3 = replace(s2, p3, nl);
    let s4 = replace(s3, p4, nl);
    let s5 = replace(s4, p5, nl);
    let s6 = replace(s5, p6, nl);
    assert(s6 == breaks_as_newlines(html));
    if contains_text(s6, tag) {
        let i6 = choose|i: int| occurs_at(s6, tag, i);
        lemma_replace_occurs(s5, p6, tag, i6);
        let i5 = choose|i: int| occurs_at(s5, tag, i);
        lemma_replace_occurs(s4, p5, tag, i5);
        let i4 = choose|i: int| occurs_at(s4, tag, i);
        lemma_replace_occurs(s3, p4, tag, i4);
        let i3 = choose|i: int| occurs_at(s3, tag, i);
        lemma_replace_occurs(s2, p3, tag, i3);
        let i2 = choose|i: int| occurs_at(s2, tag, i);
        lemma_replace_occurs(s1, p2, tag, i2);
        let i1 = choose|i: int| occurs_at(s1, tag, i);
        lemma_replace_occurs(html, p1, tag, i1);
    }
}

} // verus!
