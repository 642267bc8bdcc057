//! Slash-separated paths, handled as text.
use vstd::prelude::*;
use crate::text::{chars_of, string_of};

verus! {

/// `Path::join` on Unix: an absolute `rel` replaces `base`; otherwise `rel`
/// follows `base`, with one separator between them unless `base` is empty
/// or already ends in one.
pub open spec fn join_path(base: Seq<char>, rel: Seq<char>) -> Seq<char> {
    if rel.len() > 0 && rel[0] == '/' {
        rel
    } else if base.len() == 0 || base.last() == '/' {
        base + rel
    } else {
        base + seq!['/'] + rel
    }
}

/// `str::trim_start_matches(c)`: drops every leading `c`.
pub open spec fn trim_leading(s: Seq<char>, c: char) -> Seq<char>
    decreases s.len(),
{
    if s.len() > 0 && s[0] == c {
        trim_leading(s.subrange(1, s.len() as int), c)
    } else {
        s
    }
}

pub fn join_path_str(base: &str, rel: &str) -> (r: String)
    ensures
        r@ == join_path(base@, rel@),
{
    let b = chars_of(base);
    let x = chars_of(rel);
    if x.len() > 0 && x[0] == '/' {
        return string_of(x.as_slice());
    }
    let mut out = b.clone();
    if b.len() > 0 && b[b.len() - 1] != '/' {
        out.push('/');
    }
    let mut i: usize = 0;
    while i < x.len()
        invariant
            0 <= i <= x@.len(),
            x@ == rel@,
            b@ == base@,
            out@ == (if b@.len() == 0 || b@.last() == '/' { b@ } else { b@ + seq!['/'] })
                + x@.take(i as int),
        decreases x@.len() - i,
    {
        out.push(x[i]);
        i = i + 1;
        assert(x@.take(i as int) =~= x@.take(i - 1) + seq![x@[i - 1]]);
    }
    assert(x@.take(x@.len() as int) =~= x@);
    string_of(out.as_slice())
}

proof fn lemma_trim_leading_skip(s: Seq<char>, c: char, i: int)
    requires
        0 <= i <= s.len(),
        forall|m: int| 0 <= m < i ==> s[m] == c,
    ensures
        trim_leading(s, c) == trim_leading(s.subrange(i, s.len() as int), c),
    decreases i,
{
    if i > 0 {
        let t = s.subrange(1, s.len() as int);
        assert forall|m: int| 0 <= m < i - 1 implies t[m] == c by {
            assert(t[m] == s[m + 1]);
        }
        lemma_trim_leading_skip(t, c, i - 1);
        assert(t.subrange(i - 1, t.len() as int) =~= s.subrange(i, s.len() as int));
    } else {
        assert(s.subrange(0, s.len() as int) =~= s);
    }
}

pub fn trim_leading_str(s: &str, c: char) -> (r: String)
    ensures
        r@ == trim_leading(s@, c),
{
    let v = chars_of(s);
    let mut i: usize = 0;
    while i < v.len() && v[i] == c
        invariant
            0 <= i <= v@.len(),
            v@ == s@,
            forall|m: int| 0 <= m < i ==> v@[m] == c,
        decreases v@.len() - i,
    {
        i = i + 1;
    }
    proof {
        lemma_trim_leading_skip(v@, c, i as int);
    }
    let mut out: Vec<char> = Vec::new();
    let mut j = i;
    while j < v.len()
        invariant
            i <= j <= v@.len(),
            out@ == v@.subrange(i as int, j as int),
        decreases v@.len() - j,
    {
        out.push(v[j]);
        j = j + 1;
        assert(out@ =~= v@.subrange(i as int, j as int));
    }
    string_of(out.as_slice())
}

} // verus!
