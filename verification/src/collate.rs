//! Case folding and natural ("alphanumeric") ordering of labels, and the
//! stable insertion sort that orders group labels by them.
use vstd::prelude::*;

verus! {

/// What `str::to_lowercase` gives for a text.
pub uninterp spec fn lower(s: Seq<char>) -> Seq<char>;

/// Whether a character is an ASCII capital letter.
pub open spec fn ascii_upper(c: char) -> bool {
    65 <= (c as u32) && (c as u32) <= 90
}

/// An ASCII capital's small letter; any other character as it is.
pub open spec fn ascii_lowered(c: char) -> char {
    if ascii_upper(c) {
        ((c as u32) + 32) as char
    } else {
        c
    }
}

/// Whether every character of a text is ASCII.
pub open spec fn ascii_text(s: Seq<char>) -> bool {
    forall|i: int| 0 <= i < s.len() ==> (#[trigger] s[i] as u32) < 128
}

/// Whether no character of a text is an ASCII capital letter.
pub open spec fn no_ascii_upper(s: Seq<char>) -> bool {
    forall|i: int| 0 <= i < s.len() ==> !ascii_upper(#[trigger] s[i])
}

/// `str::to_lowercase`: the text with every character replaced by its
/// Unicode lowercase mapping.  The mapping itself is not written out here;
/// the result is named `lower` of the input.  Of it, this states what the
/// lowercase mappings give in the ASCII range: no lowercase mapping is an
/// ASCII capital, and an ASCII text maps character by character, each
/// capital to its small letter and every other character to itself.
#[verifier::external_body]
pub(crate) fn to_lower(s: &str) -> (r: String)
    ensures
        r@ == lower(s@),
        no_ascii_upper(r@),
        ascii_text(s@) ==> r@ == s@.map_values(|c: char| ascii_lowered(c)),
        ascii_text(s@) ==> ascii_text(r@),
        ascii_text(s@) && no_ascii_upper(s@) ==> r@ == s@,
{
    s.to_lowercase()
}

/// How `alphanumeric_sort::compare_str` orders two texts: -1 when the
/// first comes before the second, 0 when they tie, 1 when it comes after.
pub uninterp spec fn alnum_order(a: Seq<char>, b: Seq<char>) -> int;

/// `alphanumeric_sort::compare_str`: compares two texts, reading runs of
/// digits as numbers.  Its algorithm is not written out here; the result
/// is named `alnum_order` of the two texts, with each `Ordering` variant
/// turned into -1, 0 or 1.
#[verifier::external_body]
pub(crate) fn alnum_compare(a: &str, b: &str) -> (r: i8)
    ensures
        r == alnum_order(a@, b@),
        r == -1 || r == 0 || r == 1,
{
    match alphanumeric_sort::compare_str(a, b) {
        std::cmp::Ordering::Less => -1,
        std::cmp::Ordering::Equal => 0,
        std::cmp::Ordering::Greater => 1,
    }
}

/// Inserts `x` into `sorted` after every entry that `x` does not come
/// before, by `gt` ("comes after"): one step of a stable insertion sort.
pub open spec fn insert_by<T>(sorted: Seq<T>, x: T, gt: spec_fn(T, T) -> bool) -> Seq<T>
    decreases sorted.len(),
{
    if sorted.len() == 0 {
        seq![x]
    } else if gt(sorted.last(), x) {
        insert_by(sorted.drop_last(), x, gt).push(sorted.last())
    } else {
        sorted.push(x)
    }
}

/// Stable insertion sort by `gt`.  For a total preorder this is the order
/// any stable sort gives.
pub open spec fn sort_by<T>(s: Seq<T>, gt: spec_fn(T, T) -> bool) -> Seq<T>
    decreases s.len(),
{
    if s.len() == 0 {
        s
    } else {
        insert_by(sort_by(s.drop_last(), gt), s.last(), gt)
    }
}

/// Keyed entries ordered by `alnum_order` of their keys.
pub open spec fn key_gt<T>() -> spec_fn((Seq<char>, T), (Seq<char>, T)) -> bool {
    |a: (Seq<char>, T), b: (Seq<char>, T)| alnum_order(a.0, b.0) == 1
}

/// Stable insertion sort of keyed entries by `alnum_order` of their keys.
pub open spec fn sort_by_key<T>(s: Seq<(Seq<char>, T)>) -> Seq<(Seq<char>, T)> {
    sort_by(s, key_gt())
}

/// Inserting adds exactly the one entry.
pub proof fn lemma_insert_by_multiset<T>(sorted: Seq<T>, x: T, gt: spec_fn(T, T) -> bool)
    ensures
        insert_by(sorted, x, gt).to_multiset() == sorted.to_multiset().insert(x),
    decreases sorted.len(),
{
    broadcast use vstd::seq_lib::group_to_multiset_ensures;

    if sorted.len() == 0 {
        assert(seq![x] =~= Seq::<T>::empty().push(x));
    } else if gt(sorted.last(), x) {
        lemma_insert_by_multiset(sorted.drop_last(), x, gt);
        assert(sorted =~= sorted.drop_last().push(sorted.last()));
    }
}

/// Sorting keeps exactly the entries it was given.
pub proof fn lemma_sort_by_multiset<T>(s: Seq<T>, gt: spec_fn(T, T) -> bool)
    ensures
        sort_by(s, gt).to_multiset() == s.to_multiset(),
    decreases s.len(),
{
    broadcast use vstd::seq_lib::group_to_multiset_ensures;

    if s.len() > 0 {
        lemma_sort_by_multiset(s.drop_last(), gt);
        lemma_insert_by_multiset(sort_by(s.drop_last(), gt), s.last(), gt);
        assert(s =~= s.drop_last().push(s.last()));
    }
}

/// Sorting keyed entries keeps exactly the entries it was given.
pub proof fn lemma_sort_by_key_multiset<T>(s: Seq<(Seq<char>, T)>)
    ensures
        sort_by_key(s).to_multiset() == s.to_multiset(),
{
    lemma_sort_by_multiset(s, key_gt());
}

/// Whether `s` is ordered by `le`: each entry is `le` every later one.
pub open spec fn ordered_by<T>(s: Seq<T>, le: spec_fn(T, T) -> bool) -> bool {
    forall|i: int, j: int| 0 <= i < j < s.len() ==> le(#[trigger] s[i], #[trigger] s[j])
}

/// Whether `le` is a total preorder that `gt` agrees with: what `gt` puts
/// after is not `le`-before, and what it does not put after is.
pub open spec fn preorder_for<T>(gt: spec_fn(T, T) -> bool, le: spec_fn(T, T) -> bool) -> bool {
    &&& forall|a: T, b: T, c: T| #[trigger] le(a, b) && #[trigger] le(b, c) ==> le(a, c)
    &&& forall|a: T, b: T| #[trigger] gt(a, b) ==> le(b, a)
    &&& forall|a: T, b: T| !#[trigger] gt(a, b) ==> le(a, b)
}

proof fn lemma_insert_by_ordered<T>(sorted: Seq<T>, x: T, gt: spec_fn(T, T) -> bool, le: spec_fn(T, T) -> bool)
    requires
        preorder_for(gt, le),
        ordered_by(sorted, le),
    ensures
        ordered_by(insert_by(sorted, x, gt), le),
    decreases sorted.len(),
{
    broadcast use vstd::seq_lib::group_to_multiset_ensures;

    if sorted.len() == 0 {
    } else if gt(sorted.last(), x) {
        let d = sorted.drop_last();
        let last = sorted.last();
        assert forall|i: int, j: int| 0 <= i < j < d.len() implies le(#[trigger] d[i], #[trigger] d[j]) by {
            assert(d[i] == sorted[i] && d[j] == sorted[j]);
        }
        lemma_insert_by_ordered(d, x, gt, le);
        let r = insert_by(d, x, gt);
        lemma_insert_by_multiset(d, x, gt);
        assert forall|i: int| 0 <= i < r.len() implies le(#[trigger] r[i], last) by {
            assert(r.to_multiset().contains(r[i]));
            assert(d.to_multiset().insert(x).contains(r[i]));
            if r[i] != x {
                assert(d.to_multiset().contains(r[i]));
                assert(d.contains(r[i]));
                let k = choose|k: int| 0 <= k < d.len() && d[k] == r[i];
                assert(sorted[k] == d[k]);
                assert(le(sorted[k], sorted[sorted.len() - 1]));
            }
        }
        let out = r.push(last);
        assert forall|i: int, j: int| 0 <= i < j < out.len() implies le(#[trigger] out[i], #[trigger] out[j]) by {
            if j == r.len() {
                assert(out[i] == r[i]);
                assert(out[j] == last);
            } else {
                assert(out[i] == r[i] && out[j] == r[j]);
            }
        }
    } else {
        let out = sorted.push(x);
        let last = sorted.last();
        assert(le(last, x));
        assert forall|i: int, j: int| 0 <= i < j < out.len() implies le(#[trigger] out[i], #[trigger] out[j]) by {
            if j == sorted.len() {
                assert(out[i] == sorted[i]);
                if i < sorted.len() - 1 {
                    assert(le(sorted[i], sorted[sorted.len() - 1]));
                }
            } else {
                assert(out[i] == sorted[i] && out[j] == sorted[j]);
            }
        }
    }
}

/// A stable insertion sort by `gt` leaves its entries ordered by any total
/// preorder that `gt` agrees with.
pub proof fn lemma_sort_by_ordered<T>(s: Seq<T>, gt: spec_fn(T, T) -> bool, le: spec_fn(T, T) -> bool)
    requires
        preorder_for(gt, le),
    ensures
        ordered_by(sort_by(s, gt), le),
    decreases s.len(),
{
    if s.len() > 0 {
        lemma_sort_by_ordered(s.drop_last(), gt, le);
        lemma_insert_by_ordered(sort_by(s.drop_last(), gt), s.last(), gt, le);
    }
}

/// `insert_by` splits `sorted` at `p` when every entry from `p` on comes
/// after `x` and the one before `p` does not.
pub proof fn lemma_insert_at<T>(sorted: Seq<T>, x: T, p: int, gt: spec_fn(T, T) -> bool)
    requires
        0 <= p <= sorted.len(),
        forall|q: int| p <= q < sorted.len() ==> gt(#[trigger] sorted[q], x),
        p > 0 ==> !gt(sorted[p - 1], x),
    ensures
        insert_by(sorted, x, gt) == sorted.take(p).push(x) + sorted.skip(p),
    decreases sorted.len(),
{
    if sorted.len() == 0 {
        assert(seq![x] =~= Seq::<T>::empty().take(0).push(x) + Seq::<T>::empty().skip(0));
    } else if p == sorted.len() {
        assert(sorted.take(p) =~= sorted);
        assert(sorted.skip(p) =~= Seq::<T>::empty());
        assert(sorted.push(x) =~= sorted.take(p).push(x) + sorted.skip(p));
    } else {
        let d = sorted.drop_last();
        assert forall|q: int| p <= q < d.len() implies gt(#[trigger] d[q], x) by {
            assert(d[q] == sorted[q]);
        }
        lemma_insert_at(d, x, p, gt);
        assert(d.take(p) =~= sorted.take(p));
        assert(d.skip(p).push(sorted.last()) =~= sorted.skip(p));
        assert(insert_by(sorted, x, gt) =~= sorted.take(p).push(x) + sorted.skip(p));
    }
}

/// Sorts `v` as `sort_by_key` does.
pub fn sort_keyed<T: View>(v: Vec<(String, T)>) -> (r: Vec<(String, T)>)
    ensures
        r@.map_values(|e: (String, T)| (e.0@, e.1@)) == sort_by_key(
            v@.map_values(|e: (String, T)| (e.0@, e.1@)),
        ),
{
    let ghost sv = v@.map_values(|e: (String, T)| (e.0@, e.1@));
    let mut rest = v;
    let mut out: Vec<(String, T)> = Vec::new();
    let ghost mut i: int = 0;
    while rest.len() > 0
        invariant
            0 <= i <= sv.len(),
            rest@.map_values(|e: (String, T)| (e.0@, e.1@)) == sv.skip(i),
            out@.map_values(|e: (String, T)| (e.0@, e.1@)) == sort_by_key(sv.take(i)),
        decreases rest@.len(),
    {
        let ghost before = out@.map_values(|e: (String, T)| (e.0@, e.1@));
        let ghost rv = rest@.map_values(|e: (String, T)| (e.0@, e.1@));
        assert(rv.len() == sv.len() - i);
        let e = rest.remove(0);
        proof {
            assert(rest@.map_values(|e: (String, T)| (e.0@, e.1@)) =~= rv.skip(1));
            assert(rv.skip(1) =~= sv.skip(i + 1));
            assert(i < sv.len());
            assert(rv[0] == (e.0@, e.1@));
            assert(sv.skip(i)[0] == sv[i]);
        }
        let mut p: usize = out.len();
        while p > 0 && alnum_compare(out[p - 1].0.as_str(), e.0.as_str()) == 1
            invariant
                0 <= p <= out@.len(),
                before == out@.map_values(|e: (String, T)| (e.0@, e.1@)),
                forall|q: int| p <= q < before.len() ==> key_gt::<T::V>()(#[trigger] before[q], (e.0@, e.1@)),
            decreases p,
        {
            p = p - 1;
        }
        proof {
            assert(sv.take(i + 1).drop_last() =~= sv.take(i));
            assert(sv.take(i + 1).last() == (e.0@, e.1@));
            lemma_insert_at(before, (e.0@, e.1@), p as int, key_gt::<T::V>());
        }
        let ghost ev = (e.0@, e.1@);
        out.insert(p, e);
        proof {
            assert(out@.map_values(|e: (String, T)| (e.0@, e.1@)) =~= before.take(p as int).push(ev)
                + before.skip(p as int));
            i = i + 1;
        }
    }
    proof {
        assert(sv.skip(i).len() == 0);
        assert(sv.take(i) =~= sv);
    }
    out
}

/// `Ord` on strings: lexicographic by character (as UTF-8 bytes compare).
pub open spec fn lex_lt(a: Seq<char>, b: Seq<char>) -> bool
    decreases a.len(),
{
    if a.len() == 0 {
        b.len() > 0
    } else if b.len() == 0 {
        false
    } else if a[0] != b[0] {
        a[0] < b[0]
    } else {
        lex_lt(a.drop_first(), b.drop_first())
    }
}

/// Strings ordered by `lex_lt`.
pub open spec fn lex_gt() -> spec_fn(Seq<char>, Seq<char>) -> bool {
    |a: Seq<char>, b: Seq<char>| lex_lt(b, a)
}

/// Whether `a` comes before `b`.
pub fn lex_less(a: &str, b: &str) -> (r: bool)
    ensures
        r == lex_lt(a@, b@),
{
    let x = crate::text::chars_of(a);
    let y = crate::text::chars_of(b);
    let mut i: usize = 0;
    assert(x@.skip(0) =~= x@);
    assert(y@.skip(0) =~= y@);
    while i < x.len() && i < y.len() && x[i] == y[i]
        invariant
            0 <= i <= x@.len(),
            i <= y@.len(),
            lex_lt(a@, b@) == lex_lt(x@.skip(i as int), y@.skip(i as int)),
            x@ == a@,
            y@ == b@,
        decreases x@.len() - i,
    {
        assert(x@.skip(i as int).drop_first() =~= x@.skip(i + 1));
        assert(y@.skip(i as int).drop_first() =~= y@.skip(i + 1));
        i = i + 1;
    }
    if i == x.len() {
        i < y.len()
    } else if i == y.len() {
        false
    } else {
        assert(x@.skip(i as int)[0] == x@[i as int]);
        assert(y@.skip(i as int)[0] == y@[i as int]);
        x[i] < y[i]
    }
}

/// Sorts strings by `lex_lt`, stably.
pub fn sort_strings(v: Vec<String>) -> (r: Vec<String>)
    ensures
        r@.map_values(|s: String| s@) == sort_by(v@.map_values(|s: String| s@), lex_gt()),
{
    let ghost sv = v@.map_values(|s: String| s@);
    let mut rest = v;
    let mut out: Vec<String> = Vec::new();
    let ghost mut i: int = 0;
    while rest.len() > 0
        invariant
            0 <= i <= sv.len(),
            rest@.map_values(|s: String| s@) == sv.skip(i),
            out@.map_values(|s: String| s@) == sort_by(sv.take(i), lex_gt()),
        decreases rest@.len(),
    {
        let ghost before = out@.map_values(|s: String| s@);
        let ghost rv = rest@.map_values(|s: String| s@);
        assert(rv.len() == sv.len() - i);
        let e = rest.remove(0);
        proof {
            assert(rest@.map_values(|s: String| s@) =~= rv.skip(1));
            assert(rv.skip(1) =~= sv.skip(i + 1));
            assert(rv[0] == e@);
            assert(sv.skip(i)[0] == sv[i]);
        }
        let mut p: usize = out.len();
        while p > 0 && lex_less(e.as_str(), out[p - 1].as_str())
            invariant
                0 <= p <= out@.len(),
                before == out@.map_values(|s: String| s@),
                forall|q: int| p <= q < before.len() ==> lex_gt()(#[trigger] before[q], e@),
            decreases p,
        {
            p = p - 1;
        }
        proof {
            assert(sv.take(i + 1).drop_last() =~= sv.take(i));
            assert(sv.take(i + 1).last() == e@);
            lemma_insert_at(before, e@, p as int, lex_gt());
        }
        let ghost ev = e@;
        out.insert(p, e);
        proof {
            assert(out@.map_values(|s: String| s@) =~= before.take(p as int).push(ev) + before.skip(p as int));
            i = i + 1;
        }
    }
    proof {
        assert(sv.skip(i).len() == 0);
        assert(sv.take(i) =~= sv);
    }
    out
}

/// `alphanumeric_sort::compare_path`: compares two paths through their
/// texts.  A path made from a `str` is valid UTF-8, and for such paths the
/// crate compares the texts with `compare_str`, so the result is
/// `alnum_order` of the two texts, with each `Ordering` variant turned into
/// -1, 0 or 1.
#[verifier::external_body]
pub(crate) fn alnum_path_compare(a: &str, b: &str) -> (r: i8)
    ensures
        r == alnum_order(a@, b@),
        r == -1 || r == 0 || r == 1,
{
    match alphanumeric_sort::compare_path(std::path::Path::new(a), std::path::Path::new(b)) {
        std::cmp::Ordering::Less => -1,
        std::cmp::Ordering::Equal => 0,
        std::cmp::Ordering::Greater => 1,
    }
}

/// Paths ordered by `alnum_order`.
pub open spec fn path_gt() -> spec_fn(Seq<char>, Seq<char>) -> bool {
    |a: Seq<char>, b: Seq<char>| alnum_order(a, b) == 1
}

/// Sorts paths by `alnum_order`, stably, as `sort_by` with
/// `alphanumeric_sort::compare_path` does.
pub fn sort_paths(v: Vec<String>) -> (r: Vec<String>)
    ensures
        r@.map_values(|s: String| s@) == sort_by(v@.map_values(|s: String| s@), path_gt()),
{
    let ghost sv = v@.map_values(|s: String| s@);
    let mut rest = v;
    let mut out: Vec<String> = Vec::new();
    let ghost mut i: int = 0;
    while rest.len() > 0
        invariant
            0 <= i <= sv.len(),
            rest@.map_values(|s: String| s@) == sv.skip(i),
            out@.map_values(|s: String| s@) == sort_by(sv.take(i), path_gt()),
        decreases rest@.len(),
    {
        let ghost before = out@.map_values(|s: String| s@);
        let ghost rv = rest@.map_values(|s: String| s@);
        assert(rv.len() == sv.len() - i);
        let e = rest.remove(0);
        proof {
            assert(rest@.map_values(|s: String| s@) =~= rv.skip(1));
            assert(rv.skip(1) =~= sv.skip(i + 1));
            assert(rv[0] == e@);
            assert(sv.skip(i)[0] == sv[i]);
        }
        let mut p: usize = out.len();
        while p > 0 && alnum_path_compare(out[p - 1].as_str(), e.as_str()) == 1
            invariant
                0 <= p <= out@.len(),
                before == out@.map_values(|s: String| s@),
                forall|q: int| p <= q < before.len() ==> path_gt()(#[trigger] before[q], e@),
            decreases p,
        {
            p = p - 1;
        }
        proof {
            assert(sv.take(i + 1).drop_last() =~= sv.take(i));
            assert(sv.take(i + 1).last() == e@);
            lemma_insert_at(before, e@, p as int, path_gt());
        }
        let ghost ev = e@;
        out.insert(p, e);
        proof {
            assert(out@.map_values(|s: String| s@) =~= before.take(p as int).push(ev) + before.skip(p as int));
            i = i + 1;
        }
    }
    proof {
        assert(sv.skip(i).len() == 0);
        assert(sv.take(i) =~= sv);
    }
    out
}

} // verus!
