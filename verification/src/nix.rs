//! Nix packaging of albums: source names, store hashes, path templates, the
//! selection of torrent files, and where the source disk lives.
use vstd::prelude::*;
use globset::{Glob, GlobSet, GlobSetBuilder};
use crate::assoc::{distinct, skeys, smap, sfind, lemma_smap_at};
use crate::text::{
    trim, split, join, replace, contains_text, starts_with, chars_of, string_of, trim_chars,
    split_chars, join_chars, replace_chars, contains_chars, starts_with_chars, str_to_string,
    map_char, copy_range,
};
use crate::collate::{ascii_lowered, ascii_text, ascii_upper, lower, no_ascii_upper, to_lower};
use crate::paths::{trim_leading, trim_leading_str};

verus! {

// ---------------------------------------------------------------------------
// Source names
// ---------------------------------------------------------------------------

/// Whether `char::is_alphanumeric` holds of a character.
pub uninterp spec fn alphanumeric(c: char) -> bool;

/// Whether a character is an ASCII letter or digit.
pub open spec fn ascii_alnum(c: char) -> bool {
    (48 <= (c as u32) && (c as u32) <= 57) || (65 <= (c as u32) && (c as u32) <= 90) || (97 <= (c as u32) && (c
        as u32) <= 122)
}

/// `char::is_alphanumeric`: whether the character is alphabetic or numeric
/// in Unicode.  The tables are not written out here; the answer is named
/// `alphanumeric` of the character.  In the ASCII range the alphabetic
/// characters are the letters and the numeric ones the digits.
#[verifier::external_body]
pub(crate) fn is_alphanumeric(c: char) -> (r: bool)
    ensures
        r == alphanumeric(c),
        (c as u32) < 128 ==> (r <==> ascii_alnum(c)),
{
    c.is_alphanumeric()
}

/// Every character that is not alphanumeric replaced by `-`.
pub open spec fn dashed(s: Seq<char>) -> Seq<char> {
    s.map_values(|c: char| if alphanumeric(c) { c } else { '-' })
}

/// The non-empty pieces between dashes, joined by single dashes.
pub open spec fn squeezed(s: Seq<char>) -> Seq<char> {
    join(split(s, '-').filter(|p: Seq<char>| p.len() > 0), seq!['-'])
}

/// A text made safe for a name: runs of characters that are not
/// alphanumeric turned into single dashes, with no dash at either end.
pub open spec fn safe_name(s: Seq<char>) -> Seq<char> {
    squeezed(dashed(s))
}

/// `sanitize_source_name`: the name lowered, then made safe.
pub open spec fn source_name(name: Seq<char>) -> Seq<char> {
    safe_name(lower(name))
}


/// A character a safe name may hold: a dash or an alphanumeric one.
pub open spec fn name_char(c: char) -> bool {
    c == '-' || alphanumeric(c)
}

proof fn lemma_split_pieces(s: Seq<char>)
    requires
        forall|j: int| 0 <= j < s.len() ==> name_char(#[trigger] s[j]),
    ensures
        forall|k: int, m: int|
            0 <= k < split(s, '-').len() && 0 <= m < split(s, '-')[k].len() ==> #[trigger] split(s, '-')[k][m]
                != '-' && alphanumeric(split(s, '-')[k][m]),
    decreases s.len(),
{
    if s.len() > 0 {
        let t = s.drop_last();
        assert forall|j: int| 0 <= j < t.len() implies name_char(#[trigger] t[j]) by {
            assert(t[j] == s[j]);
        }
        lemma_split_pieces(t);
        crate::text::lemma_split_nonempty(t, '-');
        let prev = split(t, '-');
        assert(name_char(s[s.len() - 1]));
        if s.last() != '-' {
            let q = prev.update(prev.len() - 1, prev.last().push(s.last()));
            assert forall|k: int, m: int| 0 <= k < q.len() && 0 <= m < q[k].len() implies #[trigger] q[k][m] != '-'
                && alphanumeric(q[k][m]) by {
                if k == prev.len() - 1 && m == prev.last().len() {
                    assert(q[k][m] == s.last());
                } else if k == prev.len() - 1 {
                    assert(q[k][m] == prev[k][m]);
                } else {
                    assert(q[k] == prev[k]);
                }
            }
        }
    }
}

proof fn lemma_join_dashes(parts: Seq<Seq<char>>)
    requires
        forall|k: int| 0 <= k < parts.len() ==> (#[trigger] parts[k]).len() > 0,
        forall|k: int, m: int|
            0 <= k < parts.len() && 0 <= m < parts[k].len() ==> #[trigger] parts[k][m] != '-' && alphanumeric(
                parts[k][m],
            ),
    ensures
        parts.len() > 0 ==> join(parts, seq!['-']).len() > 0,
        forall|m: int| 0 <= m < join(parts, seq!['-']).len() ==> name_char(#[trigger] join(parts, seq!['-'])[m]),
        join(parts, seq!['-']).len() > 0 ==> join(parts, seq!['-'])[0] != '-' && join(parts, seq!['-']).last()
            != '-',
        forall|m: int|
            0 <= m < join(parts, seq!['-']).len() - 1 ==> !(#[trigger] join(parts, seq!['-'])[m] == '-' && join(
                parts,
                seq!['-'],
            )[m + 1] == '-'),
    decreases parts.len(),
{
    let r = join(parts, seq!['-']);
    if parts.len() == 1 {
        assert(r == parts[0]);
        assert(parts[0][0] != '-');
        assert(parts[0][parts[0].len() - 1] != '-');
    } else if parts.len() > 1 {
        let prev = parts.drop_last();
        let last = parts.last();
        assert forall|k: int| 0 <= k < prev.len() implies (#[trigger] prev[k]).len() > 0 by {
            assert(prev[k] == parts[k]);
        }
        assert forall|k: int, m: int| 0 <= k < prev.len() && 0 <= m < prev[k].len() implies #[trigger] prev[k][m]
            != '-' && alphanumeric(prev[k][m]) by {
            assert(prev[k] == parts[k]);
        }
        lemma_join_dashes(prev);
        let a = join(prev, seq!['-']);
        assert(r == a + seq!['-'] + last);
        assert(last.len() > 0);
        assert(last == parts[parts.len() - 1]);
        assert forall|m: int| 0 <= m < last.len() implies #[trigger] last[m] != '-' && alphanumeric(last[m]) by {
            assert(parts[parts.len() - 1][m] == last[m]);
        }
        assert forall|m: int| 0 <= m < r.len() implies name_char(#[trigger] r[m]) by {
            if m < a.len() {
                assert(r[m] == a[m]);
            } else if m > a.len() {
                assert(r[m] == last[m - a.len() - 1]);
            }
        }
        assert(r[0] == a[0]);
        assert(r.last() == last[last.len() - 1]);
        assert forall|m: int| 0 <= m < r.len() - 1 implies !(#[trigger] r[m] == '-' && r[m + 1] == '-') by {
            if m + 1 < a.len() {
                assert(r[m] == a[m] && r[m + 1] == a[m + 1]);
            } else if m + 1 == a.len() {
                assert(r[m] == a.last());
            } else if m == a.len() {
                assert(r[m + 1] == last[0]);
            } else {
                assert(r[m] == last[m - a.len() - 1]);
            }
        }
    }
}

proof fn lemma_split_keeps(s: Seq<char>, sep: char, ok: spec_fn(char) -> bool)
    requires
        forall|j: int| 0 <= j < s.len() ==> ok(#[trigger] s[j]),
    ensures
        forall|k: int, m: int|
            0 <= k < split(s, sep).len() && 0 <= m < split(s, sep)[k].len() ==> ok(#[trigger] split(s, sep)[k][m]),
    decreases s.len(),
{
    if s.len() > 0 {
        let t = s.drop_last();
        assert forall|j: int| 0 <= j < t.len() implies ok(#[trigger] t[j]) by {
            assert(t[j] == s[j]);
        }
        lemma_split_keeps(t, sep, ok);
        crate::text::lemma_split_nonempty(t, sep);
        let prev = split(t, sep);
        if s.last() != sep {
            let q = prev.update(prev.len() - 1, prev.last().push(s.last()));
            assert(split(s, sep) == q);
            assert forall|k: int, m: int| 0 <= k < q.len() && 0 <= m < q[k].len() implies ok(#[trigger] q[k][m]) by {
                if k == prev.len() - 1 {
                    if m < prev.last().len() {
                        assert(q[k][m] == prev[k][m]);
                    } else {
                        assert(q[k][m] == s[s.len() - 1]);
                    }
                } else {
                    assert(q[k] == prev[k]);
                }
            }
        } else {
            let q = prev.push(Seq::empty());
            assert(split(s, sep) == q);
            assert forall|k: int, m: int| 0 <= k < q.len() && 0 <= m < q[k].len() implies ok(#[trigger] q[k][m]) by {
                assert(q[k] == prev[k]);
            }
        }
    }
}

proof fn lemma_join_keeps(parts: Seq<Seq<char>>, sep: Seq<char>, ok: spec_fn(char) -> bool)
    requires
        forall|k: int, m: int| 0 <= k < parts.len() && 0 <= m < parts[k].len() ==> ok(#[trigger] parts[k][m]),
        forall|m: int| 0 <= m < sep.len() ==> ok(#[trigger] sep[m]),
    ensures
        forall|m: int| 0 <= m < join(parts, sep).len() ==> ok(#[trigger] join(parts, sep)[m]),
    decreases parts.len(),
{
    if parts.len() == 1 {
        assert forall|m: int| 0 <= m < join(parts, sep).len() implies ok(#[trigger] join(parts, sep)[m]) by {
            assert(join(parts, sep)[m] == parts[0][m]);
        }
    } else if parts.len() > 1 {
        let prev = parts.drop_last();
        assert forall|k: int, m: int| 0 <= k < prev.len() && 0 <= m < prev[k].len() implies ok(#[trigger] prev[k][m]) by {
            assert(prev[k] == parts[k]);
        }
        lemma_join_keeps(prev, sep, ok);
        let a = join(prev, sep);
        let last = parts.last();
        let r = join(parts, sep);
        assert(r == a + sep + last);
        assert forall|m: int| 0 <= m < r.len() implies ok(#[trigger] r[m]) by {
            if m < a.len() {
                assert(r[m] == a[m]);
            } else if m < a.len() + sep.len() {
                assert(r[m] == sep[m - a.len()]);
            } else {
                assert(r[m] == parts[parts.len() - 1][m - a.len() - sep.len()]);
            }
        }
    }
}

/// Making a text safe keeps any property of characters that the dash has
/// and that every character of the text has: the result holds no other
/// characters than the dash and those of the text.
pub proof fn law_safe_name_keeps(s: Seq<char>, ok: spec_fn(char) -> bool)
    requires
        ok('-'),
        forall|j: int| 0 <= j < s.len() ==> ok(#[trigger] s[j]),
    ensures
        forall|m: int| 0 <= m < safe_name(s).len() ==> ok(#[trigger] safe_name(s)[m]),
{
    let d = dashed(s);
    assert forall|j: int| 0 <= j < d.len() implies ok(#[trigger] d[j]) by {
        assert(d[j] == if alphanumeric(s[j]) { s[j] } else { '-' });
    }
    lemma_split_keeps(d, '-', ok);
    let sp = split(d, '-');
    let keep = |p: Seq<char>| p.len() > 0;
    let parts = sp.filter(keep);
    assert forall|k: int, m: int| 0 <= k < parts.len() && 0 <= m < parts[k].len() implies ok(#[trigger] parts[k][m]) by {
        assert(parts.contains(parts[k]));
        sp.lemma_filter_contains_rev(keep, parts[k]);
        let i = choose|i: int| 0 <= i < sp.len() && sp[i] == parts[k];
        assert(sp[i][m] == parts[k][m]);
    }
    assert forall|m: int| 0 <= m < seq!['-'].len() implies ok(#[trigger] seq!['-'][m]) by {
        assert(seq!['-'][m] == '-');
    }
    lemma_join_keeps(parts, seq!['-'], ok);
}

/// No dash at the start of a text and no two dashes side by side.
pub open spec fn dash_tidy(s: Seq<char>) -> bool {
    &&& (s.len() > 0 ==> s[0] != '-')
    &&& forall|m: int| 0 <= m < s.len() - 1 ==> !(#[trigger] s[m] == '-' && s[m + 1] == '-')
}

proof fn lemma_split_join(s: Seq<char>, c: char)
    ensures
        join(split(s, c), seq![c]) == s,
    decreases s.len(),
{
    if s.len() == 0 {
        assert(join(split(s, c), seq![c]) =~= s);
    } else {
        let t = s.drop_last();
        lemma_split_join(t, c);
        crate::text::lemma_split_nonempty(t, c);
        let prev = split(t, c);
        if s.last() == c {
            let q = prev.push(Seq::empty());
            assert(q.drop_last() =~= prev);
            assert(join(q, seq![c]) == join(prev, seq![c]) + seq![c] + Seq::<char>::empty());
            assert(s =~= t + seq![c] + Seq::<char>::empty());
        } else {
            let q = prev.update(prev.len() - 1, prev.last().push(s.last()));
            if prev.len() == 1 {
                assert(join(prev, seq![c]) == prev[0]);
                assert(join(q, seq![c]) == q[0]);
                assert(s =~= q[0]);
            } else {
                assert(q.drop_last() =~= prev.drop_last());
                assert(join(q, seq![c]) == join(prev.drop_last(), seq![c]) + seq![c] + q.last());
                assert(join(prev, seq![c]) == join(prev.drop_last(), seq![c]) + seq![c] + prev.last());
                let jn = join(prev.drop_last(), seq![c]);
                assert(t == jn + seq![c] + prev.last());
                assert(q.last() == prev.last().push(s.last()));
                assert(s =~= t.push(s.last()));
                assert((jn + seq![c] + prev.last()).push(s.last()) =~= jn + seq![c] + prev.last().push(s.last()));
            }
        }
    }
}

proof fn lemma_tidy_pieces(s: Seq<char>)
    requires
        dash_tidy(s),
    ensures
        forall|k: int| 0 <= k < split(s, '-').len() - 1 ==> (#[trigger] split(s, '-')[k]).len() > 0,
        split(s, '-').last().len() > 0 <==> s.len() > 0 && s.last() != '-',
    decreases s.len(),
{
    crate::text::lemma_split_nonempty(s, '-');
    if s.len() > 0 {
        let t = s.drop_last();
        assert(dash_tidy(t)) by {
            if t.len() > 0 {
                assert(t[0] == s[0]);
            }
            assert forall|m: int| 0 <= m < t.len() - 1 implies !(#[trigger] t[m] == '-' && t[m + 1] == '-') by {
                assert(t[m] == s[m] && t[m + 1] == s[m + 1]);
            }
        }
        lemma_tidy_pieces(t);
        crate::text::lemma_split_nonempty(t, '-');
        let prev = split(t, '-');
        if s.last() == '-' {
            assert(t.len() > 0);
            assert(t.last() != '-') by {
                assert(!(s[s.len() - 2] == '-' && s[s.len() - 1] == '-'));
            }
            let q = prev.push(Seq::empty());
            assert(split(s, '-') == q);
            assert forall|k: int| 0 <= k < q.len() - 1 implies (#[trigger] q[k]).len() > 0 by {
                assert(q[k] == prev[k]);
            }
        } else {
            let q = prev.update(prev.len() - 1, prev.last().push(s.last()));
            assert(split(s, '-') == q);
            assert forall|k: int| 0 <= k < q.len() - 1 implies (#[trigger] q[k]).len() > 0 by {
                assert(q[k] == prev[k]);
            }
        }
    }
}

proof fn lemma_filter_keeps_all<A>(s: Seq<A>, p: spec_fn(A) -> bool)
    requires
        forall|k: int| 0 <= k < s.len() ==> p(#[trigger] s[k]),
    ensures
        s.filter(p) == s,
    decreases s.len(),
{
    if s.len() == 0 {
        reveal(Seq::filter);
        assert(s.filter(p) =~= s);
    } else {
        let t = s.drop_last();
        assert forall|k: int| 0 <= k < t.len() implies p(#[trigger] t[k]) by {
            assert(t[k] == s[k]);
        }
        lemma_filter_keeps_all(t, p);
        t.lemma_filter_push(s.last(), p);
        assert(s =~= t.push(s.last()));
    }
}

/// A text of dashes and alphanumeric characters with no dash at either end
/// and no two dashes side by side is already safe: making it safe leaves it
/// as it is.
pub proof fn law_safe_name_fixed(s: Seq<char>)
    requires
        forall|m: int| 0 <= m < s.len() ==> name_char(#[trigger] s[m]),
        dash_tidy(s),
        s.len() > 0 ==> s.last() != '-',
    ensures
        safe_name(s) == s,
{
    assert(dashed(s) =~= s);
    lemma_tidy_pieces(s);
    let sp = split(s, '-');
    let keep = |p: Seq<char>| p.len() > 0;
    if s.len() > 0 {
        assert forall|k: int| 0 <= k < sp.len() implies keep(#[trigger] sp[k]) by {
            if k == sp.len() - 1 {
                assert(sp[k] == sp.last());
            }
        }
        lemma_filter_keeps_all(sp, keep);
    } else {
        let e = Seq::<Seq<char>>::empty();
        assert(sp =~= e.push(Seq::<char>::empty()));
        e.lemma_filter_push(Seq::<char>::empty(), keep);
        assert(e.filter(keep) =~= e) by {
            reveal(Seq::filter);
        }
    }
    lemma_split_join(s, '-');
}

/// A safe name holds only dashes and alphanumeric characters, starts and
/// ends with neither a dash, and never holds two dashes side by side.
pub proof fn law_safe_name_dashes(s: Seq<char>)
    ensures
        forall|m: int| 0 <= m < safe_name(s).len() ==> name_char(#[trigger] safe_name(s)[m]),
        safe_name(s).len() > 0 ==> safe_name(s)[0] != '-' && safe_name(s).last() != '-',
        forall|m: int|
            0 <= m < safe_name(s).len() - 1 ==> !(#[trigger] safe_name(s)[m] == '-' && safe_name(s)[m + 1] == '-'),
{
    let d = dashed(s);
    assert forall|j: int| 0 <= j < d.len() implies name_char(#[trigger] d[j]) by {}
    lemma_split_pieces(d);
    let sp = split(d, '-');
    let keep = |p: Seq<char>| p.len() > 0;
    let parts = sp.filter(keep);
    assert forall|k: int| 0 <= k < parts.len() implies (#[trigger] parts[k]).len() > 0 by {
        sp.lemma_filter_pred(keep, k);
    }
    assert forall|k: int, m: int| 0 <= k < parts.len() && 0 <= m < parts[k].len() implies #[trigger] parts[k][m]
        != '-' && alphanumeric(parts[k][m]) by {
        assert(parts.contains(parts[k]));
        sp.lemma_filter_contains_rev(keep, parts[k]);
        let i = choose|i: int| 0 <= i < sp.len() && sp[i] == parts[k];
        assert(sp[i][m] == parts[k][m]);
    }
    lemma_join_dashes(parts);
    assert(safe_name(s) == join(parts, seq!['-']));
}

/// Joins the non-empty pieces of a dashed text with single dashes.
fn squeeze_dashes(s: &Vec<char>) -> (r: Vec<char>)
    ensures
        r@ == squeezed(s@),
{
    let parts = split_chars(s.as_slice(), '-');
    let ghost sp = split(s@, '-');
    let ghost keep = |p: Seq<char>| p.len() > 0;
    let mut kept: Vec<Vec<char>> = Vec::new();
    let mut i: usize = 0;
    while i < parts.len()
        invariant
            0 <= i <= parts@.len(),
            parts@.len() == sp.len(),
            forall|k: int| 0 <= k < parts@.len() ==> (#[trigger] parts@[k])@ == sp[k],
            keep == (|p: Seq<char>| p.len() > 0),
            kept@.map_values(|v: Vec<char>| v@) == sp.take(i as int).filter(keep),
        decreases parts@.len() - i,
    {
        let ghost before = kept@.map_values(|v: Vec<char>| v@);
        proof {
            reveal(Seq::filter);
            assert(sp.take(i + 1).drop_last() =~= sp.take(i as int));
            assert(sp.take(i + 1).last() == parts@[i as int]@);
        }
        if parts[i].len() > 0 {
            let p = copy_range(parts[i].as_slice(), 0, parts[i].len());
            assert(p@ =~= parts@[i as int]@);
            kept.push(p);
            assert(kept@.map_values(|v: Vec<char>| v@) =~= before.push(sp[i as int]));
        }
        i = i + 1;
    }
    assert(sp.take(i as int) =~= sp);
    let dash: Vec<char> = vec!['-'];
    assert(dash@ =~= seq!['-']);
    join_chars(&kept, dash.as_slice())
}

/// A text made safe for a name.
pub(crate) fn safe_name_chars(l: &Vec<char>) -> (r: Vec<char>)
    ensures
        r@ == safe_name(l@),
{
    let mut d: Vec<char> = Vec::new();
    let mut i: usize = 0;
    while i < l.len()
        invariant
            0 <= i <= l@.len(),
            d@ == dashed(l@).take(i as int),
        decreases l@.len() - i,
    {
        let c = l[i];
        d.push(if is_alphanumeric(c) { c } else { '-' });
        i = i + 1;
        assert(d@ =~= dashed(l@).take(i as int));
    }
    assert(dashed(l@).take(i as int) =~= dashed(l@));
    squeeze_dashes(&d)
}

/// A source name made safe for the Nix store.
///
/// The result holds only dashes and alphanumeric characters, no ASCII
/// capital, starts and ends with neither a dash and never holds two dashes
/// side by side, so making it safe again leaves it as it is.  An ASCII name
/// is lowered letter by letter (each capital to its small letter) and made
/// safe, giving an ASCII result; an ASCII name without capitals is only
/// made safe: so sanitizing the result of an ASCII name gives it back.
pub fn sanitize_source_name(name: &str) -> (r: String)
    ensures
        r@ == source_name(name@),
        no_ascii_upper(r@),
        forall|m: int| 0 <= m < r@.len() ==> name_char(#[trigger] r@[m]),
        r@.len() > 0 ==> r@[0] != '-' && r@.last() != '-',
        forall|m: int| 0 <= m < r@.len() - 1 ==> !(#[trigger] r@[m] == '-' && r@[m + 1] == '-'),
        safe_name(r@) == r@,
        ascii_text(name@) ==> r@ == safe_name(name@.map_values(|c: char| ascii_lowered(c))),
        ascii_text(name@) ==> ascii_text(r@),
        ascii_text(name@) && no_ascii_upper(name@) ==> r@ == safe_name(name@),
{
    let lw = to_lower(name);
    let l = chars_of(lw.as_str());
    let r = safe_name_chars(&l);
    proof {
        law_safe_name_dashes(lw@);
        let not_upper = |c: char| !ascii_upper(c);
        assert forall|j: int| 0 <= j < lw@.len() implies not_upper(#[trigger] lw@[j]) by {}
        law_safe_name_keeps(lw@, not_upper);
        if ascii_text(name@) {
            let in_ascii = |c: char| (c as u32) < 128;
            assert forall|j: int| 0 <= j < lw@.len() implies in_ascii(#[trigger] lw@[j]) by {}
            law_safe_name_keeps(lw@, in_ascii);
        }
        law_safe_name_fixed(r@);
    }
    string_of(r.as_slice())
}

// ---------------------------------------------------------------------------
// Store hashes
// ---------------------------------------------------------------------------

/// `trim_start_matches` with a text pattern: every leading copy removed.
pub open spec fn strip_all_prefix(s: Seq<char>, p: Seq<char>) -> Seq<char>
    decreases s.len(),
{
    if p.len() > 0 && starts_with(s, p) {
        strip_all_prefix(s.skip(p.len() as int), p)
    } else {
        s
    }
}

/// The short name of a hash used when `nix hash to-base32` is not at hand:
/// the hash without its `sha256-` prefixes, cut to 32 characters, with `/`
/// and `+` made safe.
pub open spec fn hash_fallback(hash: Seq<char>) -> Seq<char> {
    let s = strip_all_prefix(hash, "sha256-"@);
    let c = if s.len() > 32 { s.take(32) } else { s };
    map_char(map_char(c, '/', '_'), '+', '-')
}

/// `get_nix32_truncate`: `nohash` for no hash; else the first 32
/// characters of what `nix hash to-base32` printed (trimmed), when it ran;
/// else the fallback.
pub open spec fn nix32_name(hash: Seq<char>, converted: Option<Seq<char>>) -> Seq<char> {
    if hash.len() == 0 {
        "nohash"@
    } else {
        match converted {
            Some(out) => if trim(out).len() > 32 {
                trim(out).take(32)
            } else {
                trim(out)
            },
            None => hash_fallback(hash),
        }
    }
}

fn first_chars(s: &Vec<char>, n: usize) -> (r: Vec<char>)
    ensures
        r@ == if s@.len() > n { s@.take(n as int) } else { s@ },
{
    let end = if s.len() > n { n } else { s.len() };
    let r = copy_range(s.as_slice(), 0, end);
    assert(r@ =~= if s@.len() > n { s@.take(n as int) } else { s@ });
    r
}

/// The short store name of a hash, given what `nix hash to-base32` printed
/// when it ran successfully.
pub fn nix32_truncate(hash: &str, converted: Option<String>) -> (r: String)
    ensures
        r@ == nix32_name(hash@, match converted {
            Some(s) => Some(s@),
            None => None,
        }),
{
    if hash.is_empty() {
        return str_to_string("nohash");
    }
    match converted {
        Some(out) => {
            let t = trim_chars(chars_of(out.as_str()).as_slice());
            string_of(first_chars(&t, 32).as_slice())
        },
        None => {
            let mut s = chars_of(hash);
            let p = chars_of("sha256-");
            proof {
                reveal_strlit("sha256-");
            }
            while starts_with_chars(s.as_slice(), p.as_slice())
                invariant
                    p@ == "sha256-"@,
                    p@.len() > 0,
                    strip_all_prefix(hash@, p@) == strip_all_prefix(s@, p@),
                decreases s@.len(),
            {
                s = copy_range(s.as_slice(), p.len(), s.len());
            }
            let c = first_chars(&s, 32);
            let c1 = crate::text::map_char_chars(c.as_slice(), '/', '_');
            let c2 = crate::text::map_char_chars(c1.as_slice(), '+', '-');
            string_of(c2.as_slice())
        },
    }
}

// ---------------------------------------------------------------------------
// Templates
// ---------------------------------------------------------------------------

/// The first `}` at or after position `k`.
pub open spec fn close_from(t: Seq<char>, k: int) -> Option<int>
    decreases t.len() - k,
{
    if k < 0 || k >= t.len() {
        None
    } else if t[k] == '}' {
        Some(k)
    } else {
        close_from(t, k + 1)
    }
}

/// The position of the closing `}` of a placeholder that starts at `i`:
/// `${`, one or more characters other than `}`, then `}`.
pub open spec fn placeholder_end(t: Seq<char>, i: int) -> Option<int> {
    if 0 <= i && i + 1 < t.len() && t[i] == '$' && t[i + 1] == '{' {
        match close_from(t, i + 2) {
            Some(j) => if i + 2 < j < t.len() {
                Some(j)
            } else {
                None
            },
            None => None,
        }
    } else {
        None
    }
}

/// The placeholders from position `i` on, left to right and not
/// overlapping, each as its whole text and the name inside it.
pub open spec fn placeholders_from(t: Seq<char>, i: int) -> Seq<(Seq<char>, Seq<char>)>
    decreases t.len() - i,
{
    if i < 0 || i >= t.len() {
        Seq::empty()
    } else {
        match placeholder_end(t, i) {
            Some(j) => seq![(t.subrange(i, j + 1), t.subrange(i + 2, j))] + placeholders_from(t, j + 1),
            None => placeholders_from(t, i + 1),
        }
    }
}

/// The `${name}` placeholders of a template, in order.
pub open spec fn placeholders(template: Seq<char>) -> Seq<(Seq<char>, Seq<char>)> {
    placeholders_from(template, 0)
}

/// The placeholders of a template, found by one scan from left to right.
fn template_placeholders(template: &str) -> (r: Vec<(String, String)>)
    ensures
        r@.map_values(|c: (String, String)| (c.0@, c.1@)) == placeholders(template@),
        forall|i: int| 0 <= i < r@.len() ==> (#[trigger] r@[i]).0@ == "${"@ + r@[i].1@ + "}"@,
{
    proof {
        reveal_strlit("${");
        reveal_strlit("}");
    }
    let t = chars_of(template);
    let mut out: Vec<(String, String)> = Vec::new();
    let mut i: usize = 0;
    while i < t.len()
        invariant
            0 <= i <= t@.len(),
            t@ == template@,
            "${"@ == seq!['$', '{'],
            "}"@ == seq!['}'],
            out@.map_values(|c: (String, String)| (c.0@, c.1@)) + placeholders_from(t@, i as int)
                == placeholders_from(t@, 0),
            forall|k: int| 0 <= k < out@.len() ==> (#[trigger] out@[k]).0@ == "${"@ + out@[k].1@ + "}"@,
        decreases t@.len() - i,
    {
        let ghost before = out@.map_values(|c: (String, String)| (c.0@, c.1@));
        let mut found = false;
        if i + 1 < t.len() && t[i] == '$' && t[i + 1] == '{' {
            let mut j = i + 2;
            while j < t.len() && t[j] != '}'
                invariant
                    i + 2 <= j <= t@.len(),
                    close_from(t@, i + 2) == close_from(t@, j as int),
                decreases t@.len() - j,
            {
                j = j + 1;
            }
            if j < t.len() && j > i + 2 {
                assert(placeholder_end(t@, i as int) == Some(j as int));
                let whole = string_of(copy_range(t.as_slice(), i, j + 1).as_slice());
                let name = string_of(copy_range(t.as_slice(), i + 2, j).as_slice());
                assert(whole@ =~= "${"@ + name@ + "}"@);
                let ghost pair = (whole@, name@);
                out.push((whole, name));
                proof {
                    assert(out@.map_values(|c: (String, String)| (c.0@, c.1@)) =~= before.push(pair));
                    assert(before.push(pair) + placeholders_from(t@, j + 1) =~= before + (seq![pair]
                        + placeholders_from(t@, j + 1)));
                }
                i = j + 1;
                found = true;
            } else {
                assert(placeholder_end(t@, i as int) is None);
            }
        }
        if !found {
            assert(placeholders_from(t@, i as int) == placeholders_from(t@, i + 1));
            i = i + 1;
        }
    }
    out
}

/// The template with each known placeholder replaced, in order, by its
/// value (every copy of it).
pub open spec fn fill(t: Seq<char>, caps: Seq<(Seq<char>, Seq<char>)>, vars: Map<Seq<char>, Seq<char>>) -> Seq<char>
    decreases caps.len(),
{
    if caps.len() == 0 {
        t
    } else {
        let r = fill(t, caps.drop_last(), vars);
        if vars.contains_key(caps.last().1) {
            replace(r, caps.last().0, vars[caps.last().1])
        } else {
            r
        }
    }
}

/// `resolve_template`: fills the `${name}` placeholders of a template from
/// `vars`; unknown names are left as they are.
pub fn resolve_template(template: &str, vars: &Vec<(String, String)>) -> (r: String)
    requires
        distinct(skeys(vars@)),
    ensures
        r@ == fill(template@, placeholders(template@), smap(vars@).map_values(|s: String| s@)),
{
    let caps = template_placeholders(template);
    let ghost cv = caps@.map_values(|c: (String, String)| (c.0@, c.1@));
    let ghost vm = smap(vars@).map_values(|s: String| s@);
    let mut result = chars_of(template);
    let mut i: usize = 0;
    while i < caps.len()
        invariant
            0 <= i <= caps@.len(),
            cv == caps@.map_values(|c: (String, String)| (c.0@, c.1@)),
            forall|k: int| 0 <= k < caps@.len() ==> (#[trigger] caps@[k]).0@ == "${"@ + caps@[k].1@ + "}"@,
            distinct(skeys(vars@)),
            vm == smap(vars@).map_values(|s: String| s@),
            result@ == fill(template@, cv.take(i as int), vm),
        decreases caps@.len() - i,
    {
        proof {
            assert(cv.take(i + 1).drop_last() =~= cv.take(i as int));
            assert(cv.take(i + 1).last() == cv[i as int]);
            reveal_strlit("${");
            reveal_strlit("}");
        }
        match sfind(vars, caps[i].1.as_str()) {
            Some(j) => {
                proof {
                    lemma_smap_at(vars@, j as int);
                }
                let pat = chars_of(caps[i].0.as_str());
                let rep = chars_of(vars[j].1.as_str());
                assert(pat@.len() > 0);
                result = replace_chars(result.as_slice(), pat.as_slice(), rep.as_slice());
            },
            None => {},
        }
        i = i + 1;
    }
    assert(cv.take(i as int) =~= cv);
    string_of(result.as_slice())
}

// ---------------------------------------------------------------------------
// Track filters
// ---------------------------------------------------------------------------

/// The glob a track filter entry stands for: an entry that names no path,
/// wildcard or `?` is an extension, matched anywhere.
pub open spec fn filter_glob(entry: Seq<char>) -> Seq<char> {
    if !contains_text(entry, seq!['/']) && !contains_text(entry, seq!['*']) && !contains_text(entry, seq!['?']) {
        "**/*."@ + trim_leading(entry, '.')
    } else {
        entry
    }
}

/// The globs of a comma-separated track filter, blank entries left out.
pub open spec fn filter_globs(filter: Seq<char>) -> Seq<Seq<char>> {
    crate::resolve::fallback_keys(filter).map_values(|e: Seq<char>| filter_glob(e))
}

fn filter_glob_of(entry: &str) -> (r: String)
    ensures
        r@ == filter_glob(entry@),
{
    let c = chars_of(entry);
    let slash: Vec<char> = vec!['/'];
    let star: Vec<char> = vec!['*'];
    let q: Vec<char> = vec!['?'];
    assert(slash@ =~= seq!['/']);
    assert(star@ =~= seq!['*']);
    assert(q@ =~= seq!['?']);
    if !contains_chars(c.as_slice(), slash.as_slice()) && !contains_chars(c.as_slice(), star.as_slice())
        && !contains_chars(c.as_slice(), q.as_slice()) {
        let ext = trim_leading_str(entry, '.');
        let mut out = str_to_string("**/*.");
        crate::text::push_str(&mut out, ext.as_str());
        proof {
            reveal_strlit("**/*.");
        }
        out
    } else {
        str_to_string(entry)
    }
}

/// The globs of a track filter.
pub fn track_filter_globs(filter: &str) -> (r: Vec<String>)
    ensures
        r@.map_values(|s: String| s@) == filter_globs(filter@),
{
    let entries = crate::resolve::fallback_keys_of(filter);
    let ghost ev = entries@.map_values(|s: String| s@);
    let mut out: Vec<String> = Vec::new();
    let mut i: usize = 0;
    while i < entries.len()
        invariant
            0 <= i <= entries@.len(),
            ev == entries@.map_values(|s: String| s@),
            out@.len() == i,
            forall|k: int| 0 <= k < i ==> (#[trigger] out@[k])@ == filter_glob(ev[k]),
        decreases entries@.len() - i,
    {
        out.push(filter_glob_of(entries[i].as_str()));
        i = i + 1;
    }
    assert(out@.map_values(|s: String| s@) =~= filter_globs(filter@));
    out
}

#[verifier::external_type_specification]
#[verifier::external_body]
pub struct ExGlob(Glob);

#[verifier::external_type_specification]
#[verifier::external_body]
pub struct ExGlobSet(GlobSet);

#[verifier::external_type_specification]
#[verifier::external_body]
pub struct ExGlobSetBuilder(GlobSetBuilder);

#[verifier::external_type_specification]
#[verifier::external_body]
pub struct ExGlobError(globset::Error);

/// Whether `Glob::new` accepts a pattern.
pub uninterp spec fn glob_accepts(pattern: Seq<char>) -> bool;

/// The pattern a glob was built from.
pub uninterp spec fn glob_source(g: Glob) -> Seq<char>;

/// The patterns a builder holds.
pub uninterp spec fn builder_patterns(b: GlobSetBuilder) -> Seq<Seq<char>>;

/// The patterns a glob set was built from.
pub uninterp spec fn set_patterns(s: GlobSet) -> Seq<Seq<char>>;

/// Whether some pattern matches a path (`GlobSet::is_match`).
pub uninterp spec fn globs_match(patterns: Seq<Seq<char>>, path: Seq<char>) -> bool;

/// `Glob::new`: parses a pattern; whether it succeeds is named
/// `glob_accepts` of the pattern, and the glob keeps its pattern.
#[verifier::external_body]
fn glob_new(pattern: &str) -> (r: Result<Glob, globset::Error>)
    ensures
        r is Ok <==> glob_accepts(pattern@),
        r matches Ok(g) ==> glob_source(g) == pattern@,
{
    Glob::new(pattern)
}

/// `GlobSetBuilder::new`: a builder with no patterns.
#[verifier::external_body]
fn builder_new() -> (r: GlobSetBuilder)
    ensures
        builder_patterns(r) == Seq::<Seq<char>>::empty(),
{
    GlobSetBuilder::new()
}

/// `GlobSetBuilder::add`: the glob's pattern joins the builder's.
#[verifier::external_body]
fn builder_add(b: &mut GlobSetBuilder, g: Glob)
    ensures
        builder_patterns(*final(b)) == builder_patterns(*old(b)).push(glob_source(g)),
{
    b.add(g);
}

/// Whether `GlobSetBuilder::build` succeeds on globs of these patterns
/// (with the default options `Glob::new` gives them).
pub uninterp spec fn globset_builds(patterns: Seq<Seq<char>>) -> bool;

/// `GlobSetBuilder::build`: a set of the builder's patterns; whether it
/// succeeds depends on the patterns alone and is named `globset_builds` of
/// them.
#[verifier::external_body]
fn builder_build(b: &GlobSetBuilder) -> (r: Result<GlobSet, globset::Error>)
    ensures
        r is Ok <==> globset_builds(builder_patterns(*b)),
        r matches Ok(s) ==> set_patterns(s) == builder_patterns(*b),
{
    b.build()
}

/// `GlobSet::is_match`: whether a pattern of the set matches the path; the
/// answer is named `globs_match` of the set's patterns and the path.
#[verifier::external_body]
pub(crate) fn glob_set_matches(s: &GlobSet, path: &str) -> (r: bool)
    ensures
        r == globs_match(set_patterns(*s), path@),
{
    s.is_match(path)
}

/// Why a track filter could not be used.
pub enum FilterError {
    /// A glob of the filter is not a valid pattern.
    InvalidGlob(String),
    /// The globs could not be combined.
    Build,
}

/// `build_globset`: the glob set of a track filter, or the first glob that
/// does not parse, or `Build` when the globs parse but do not combine.
pub fn build_globset(filter: &str) -> (r: Result<GlobSet, FilterError>)
    ensures
        match r {
            Ok(s) => set_patterns(s) == filter_globs(filter@) && forall|i: int|
                0 <= i < filter_globs(filter@).len() ==> glob_accepts(#[trigger] filter_globs(filter@)[i]),
            Err(FilterError::InvalidGlob(p)) => !glob_accepts(p@) && exists|i: int|
                0 <= i < filter_globs(filter@).len() && filter_globs(filter@)[i] == p@ && forall|k: int|
                    0 <= k < i ==> glob_accepts(#[trigger] filter_globs(filter@)[k]),
            Err(FilterError::Build) => !globset_builds(filter_globs(filter@)) && forall|i: int|
                0 <= i < filter_globs(filter@).len() ==> glob_accepts(#[trigger] filter_globs(filter@)[i]),
        },
        (forall|i: int| 0 <= i < filter_globs(filter@).len() ==> glob_accepts(#[trigger] filter_globs(filter@)[i]))
            ==> (r is Ok <==> globset_builds(filter_globs(filter@))),
{
    let globs = track_filter_globs(filter);
    let ghost gv = globs@.map_values(|s: String| s@);
    let mut b = builder_new();
    let mut i: usize = 0;
    while i < globs.len()
        invariant
            0 <= i <= globs@.len(),
            gv == globs@.map_values(|s: String| s@),
            gv == filter_globs(filter@),
            builder_patterns(b) == gv.take(i as int),
            forall|k: int| 0 <= k < i ==> glob_accepts(#[trigger] gv[k]),
        decreases globs@.len() - i,
    {
        match glob_new(globs[i].as_str()) {
            Ok(g) => {
                builder_add(&mut b, g);
                assert(gv.take(i + 1) =~= gv.take(i as int).push(gv[i as int]));
            },
            Err(_) => {
                assert(gv[i as int] == globs@[i as int]@);
                return Err(FilterError::InvalidGlob(globs[i].clone()));
            },
        }
        i = i + 1;
    }
    assert(gv.take(i as int) =~= gv);
    match builder_build(&b) {
        Ok(s) => Ok(s),
        Err(_) => Err(FilterError::Build),
    }
}

} // verus!
