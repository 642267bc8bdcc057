//! Association lists: small maps kept as vectors of key/value pairs, with
//! distinct keys, read through `Map` views.
use vstd::prelude::*;
use crate::json::{index_of, lemma_index_of};
use crate::text::str_eq;

verus! {

/// The keys of a string-keyed list.
pub open spec fn skeys<V>(v: Seq<(String, V)>) -> Seq<Seq<char>> {
    v.map_values(|e: (String, V)| e.0@)
}

/// The keys of a `u32`-keyed list.
pub open spec fn ukeys<V>(v: Seq<(u32, V)>) -> Seq<u32> {
    v.map_values(|e: (u32, V)| e.0)
}

pub open spec fn distinct<K>(keys: Seq<K>) -> bool {
    forall|i: int, j: int| 0 <= i < keys.len() && 0 <= j < keys.len() && i != j ==> keys[i] != keys[j]
}

/// A position of key `k` in a string-keyed list.
pub open spec fn spos<V>(v: Seq<(String, V)>, k: Seq<char>) -> int {
    choose|i: int| 0 <= i < v.len() && v[i].0@ == k
}

/// A position of key `k` in a `u32`-keyed list.
pub open spec fn upos<V>(v: Seq<(u32, V)>, k: u32) -> int {
    choose|i: int| 0 <= i < v.len() && v[i].0 == k
}

/// The map that a string-keyed list with distinct keys stands for.
pub open spec fn smap<V>(v: Seq<(String, V)>) -> Map<Seq<char>, V> {
    Map::new(
        |k: Seq<char>| exists|i: int| 0 <= i < v.len() && v[i].0@ == k,
        |k: Seq<char>| v[spos(v, k)].1,
    )
}

/// The map that a `u32`-keyed list with distinct keys stands for.
pub open spec fn umap<V>(v: Seq<(u32, V)>) -> Map<u32, V> {
    Map::new(
        |k: u32| exists|i: int| 0 <= i < v.len() && v[i].0 == k,
        |k: u32| v[upos(v, k)].1,
    )
}

pub proof fn lemma_smap_at<V>(v: Seq<(String, V)>, i: int)
    requires
        distinct(skeys(v)),
        0 <= i < v.len(),
    ensures
        smap(v).contains_key(v[i].0@),
        smap(v)[v[i].0@] == v[i].1,
{
    let k = v[i].0@;
    assert(skeys(v)[i] == k);
    let j = spos(v, k);
    assert(skeys(v)[j] == k);
    assert(j == i);
    assert(smap(v)[k] == v[j].1);
}

pub proof fn lemma_umap_at<V>(v: Seq<(u32, V)>, i: int)
    requires
        distinct(ukeys(v)),
        0 <= i < v.len(),
    ensures
        umap(v).contains_key(v[i].0),
        umap(v)[v[i].0] == v[i].1,
{
    let k = v[i].0;
    assert(ukeys(v)[i] == k);
    let j = upos(v, k);
    assert(ukeys(v)[j] == k);
    assert(j == i);
    assert(umap(v)[k] == v[j].1);
}

/// Index of the entry under `k`.
pub fn sfind<V>(v: &Vec<(String, V)>, k: &str) -> (r: Option<usize>)
    ensures
        match r {
            Some(i) => i < v@.len() && v@[i as int].0@ == k@ && index_of(skeys(v@), k@) == Some(
                i as int,
            ),
            None => index_of(skeys(v@), k@) is None && !smap(v@).contains_key(k@),
        },
{
    let ghost keys = skeys(v@);
    proof {
        lemma_index_of(keys, k@);
    }
    let mut i: usize = 0;
    while i < v.len()
        invariant
            keys == skeys(v@),
            0 <= i <= v@.len(),
            forall|m: int| 0 <= m < i ==> keys[m] != k@,
        decreases v@.len() - i,
    {
        assert(keys[i as int] == v@[i as int].0@);
        if str_eq(v[i].0.as_str(), k) {
            proof {
                lemma_index_of(keys, k@);
            }
            return Some(i);
        }
        i = i + 1;
    }
    proof {
        if smap(v@).contains_key(k@) {
            let j = choose|j: int| 0 <= j < v@.len() && v@[j].0@ == k@;
            assert(keys[j] == k@);
        }
    }
    None
}

/// Index of the entry under `k`.
pub fn ufind<V>(v: &Vec<(u32, V)>, k: u32) -> (r: Option<usize>)
    ensures
        match r {
            Some(i) => i < v@.len() && v@[i as int].0 == k,
            None => !umap(v@).contains_key(k) && forall|m: int| 0 <= m < v@.len() ==> v@[m].0 != k,
        },
{
    let mut i: usize = 0;
    while i < v.len()
        invariant
            0 <= i <= v@.len(),
            forall|m: int| 0 <= m < i ==> v@[m].0 != k,
        decreases v@.len() - i,
    {
        if v[i].0 == k {
            return Some(i);
        }
        i = i + 1;
    }
    None
}

/// Puts `val` under `k`, replacing what was there.
pub fn sput<V>(v: &mut Vec<(String, V)>, k: String, val: V)
    requires
        distinct(skeys(old(v)@)),
    ensures
        distinct(skeys(final(v)@)),
        smap(final(v)@) == smap(old(v)@).insert(k@, val),
{
    let ghost kv = k@;
    match sfind(v, k.as_str()) {
        Some(i) => {
            v.set(i, (k, val));
            proof {
                assert(final(v)@[i as int].0@ == kv);
                assert(skeys(final(v)@) =~= skeys(old(v)@));
                assert forall|key: Seq<char>| #[trigger]
                    smap(final(v)@).contains_key(key) == smap(old(v)@).insert(kv, val).contains_key(
                        key,
                    ) by {
                    if smap(old(v)@).contains_key(key) {
                        let j = choose|j: int| 0 <= j < old(v)@.len() && old(v)@[j].0@ == key;
                        if j != i {
                            assert(final(v)@[j] == old(v)@[j]);
                        }
                    }
                    if smap(final(v)@).contains_key(key) {
                        let j = choose|j: int| 0 <= j < final(v)@.len() && final(v)@[j].0@ == key;
                        if j != i {
                            assert(final(v)@[j] == old(v)@[j]);
                        }
                    }
                }
                assert forall|key: Seq<char>| #[trigger]
                    smap(final(v)@).contains_key(key) implies smap(final(v)@)[key] == smap(
                    old(v)@,
                ).insert(kv, val)[key] by {
                    let j = choose|j: int| 0 <= j < final(v)@.len() && final(v)@[j].0@ == key;
                    lemma_smap_at(final(v)@, j);
                    if j != i {
                        assert(final(v)@[j] == old(v)@[j]);
                        assert(skeys(old(v)@)[j] != skeys(old(v)@)[i as int]);
                        lemma_smap_at(old(v)@, j);
                    }
                }
                assert(smap(final(v)@) =~= smap(old(v)@).insert(kv, val));
            }
        },
        None => {
            v.push((k, val));
            proof {
                let n = old(v)@.len();
                assert(skeys(final(v)@) =~= skeys(old(v)@).push(kv));
                assert forall|key: Seq<char>| #[trigger]
                    smap(final(v)@).contains_key(key) == smap(old(v)@).insert(kv, val).contains_key(
                        key,
                    ) by {
                    if smap(old(v)@).contains_key(key) {
                        let j = choose|j: int| 0 <= j < old(v)@.len() && old(v)@[j].0@ == key;
                        assert(final(v)@[j] == old(v)@[j]);
                    }
                    if key == kv {
                        assert(final(v)@[n as int].0@ == kv);
                    }
                    if smap(final(v)@).contains_key(key) {
                        let j = choose|j: int| 0 <= j < final(v)@.len() && final(v)@[j].0@ == key;
                        if j < n {
                            assert(final(v)@[j] == old(v)@[j]);
                        }
                    }
                }
                assert forall|key: Seq<char>| #[trigger]
                    smap(final(v)@).contains_key(key) implies smap(final(v)@)[key] == smap(
                    old(v)@,
                ).insert(kv, val)[key] by {
                    let j = choose|j: int| 0 <= j < final(v)@.len() && final(v)@[j].0@ == key;
                    lemma_smap_at(final(v)@, j);
                    if j < n {
                        assert(final(v)@[j] == old(v)@[j]);
                        assert(old(v)@[j].0@ == key);
                        assert(smap(old(v)@).contains_key(key));
                        lemma_smap_at(old(v)@, j);
                    } else {
                        assert(skeys(old(v)@).len() == n);
                    }
                }
                assert(smap(final(v)@) =~= smap(old(v)@).insert(kv, val));
            }
        },
    }
}

/// Removes the entry under `k`, if any, and hands its value back.
pub fn sremove<V>(v: &mut Vec<(String, V)>, k: &str) -> (r: Option<V>)
    requires
        distinct(skeys(old(v)@)),
    ensures
        distinct(skeys(final(v)@)),
        smap(final(v)@) == smap(old(v)@).remove(k@),
        match r {
            Some(x) => smap(old(v)@).contains_key(k@) && x == smap(old(v)@)[k@],
            None => !smap(old(v)@).contains_key(k@),
        },
{
    match sfind(v, k) {
        Some(i) => {
            proof {
                lemma_smap_at(v@, i as int);
            }
            let e = v.remove(i);
            proof {
                assert(skeys(final(v)@) =~= skeys(old(v)@).remove(i as int));
                assert forall|key: Seq<char>| #[trigger]
                    smap(final(v)@).contains_key(key) == smap(old(v)@).remove(k@).contains_key(
                        key,
                    ) by {
                    if smap(old(v)@).contains_key(key) && key != k@ {
                        let j = choose|j: int| 0 <= j < old(v)@.len() && old(v)@[j].0@ == key;
                        assert(j != i);
                        if j < i {
                            assert(final(v)@[j] == old(v)@[j]);
                        } else {
                            assert(final(v)@[j - 1] == old(v)@[j]);
                        }
                    }
                    if smap(final(v)@).contains_key(key) {
                        let j = choose|j: int| 0 <= j < final(v)@.len() && final(v)@[j].0@ == key;
                        if j < i {
                            assert(final(v)@[j] == old(v)@[j]);
                            assert(skeys(old(v)@)[j] != skeys(old(v)@)[i as int]);
                        } else {
                            assert(final(v)@[j] == old(v)@[j + 1]);
                            assert(skeys(old(v)@)[j + 1] != skeys(old(v)@)[i as int]);
                        }
                    }
                }
                assert forall|key: Seq<char>| #[trigger]
                    smap(final(v)@).contains_key(key) implies smap(final(v)@)[key] == smap(
                    old(v)@,
                ).remove(k@)[key] by {
                    let j = choose|j: int| 0 <= j < final(v)@.len() && final(v)@[j].0@ == key;
                    lemma_smap_at(final(v)@, j);
                    if j < i {
                        assert(final(v)@[j] == old(v)@[j]);
                        lemma_smap_at(old(v)@, j);
                    } else {
                        assert(final(v)@[j] == old(v)@[j + 1]);
                        lemma_smap_at(old(v)@, j + 1);
                    }
                }
                assert(smap(final(v)@) =~= smap(old(v)@).remove(k@));
            }
            Some(e.1)
        },
        None => {
            assert(smap(final(v)@) =~= smap(old(v)@).remove(k@));
            None
        },
    }
}

/// Puts `val` under `k`, replacing what was there.
pub fn uput<V>(v: &mut Vec<(u32, V)>, k: u32, val: V)
    requires
        distinct(ukeys(old(v)@)),
    ensures
        distinct(ukeys(final(v)@)),
        umap(final(v)@) == umap(old(v)@).insert(k, val),
        ukeys(final(v)@).to_set() == ukeys(old(v)@).to_set().insert(k),
{
    match ufind(v, k) {
        Some(i) => {
            v.set(i, (k, val));
            proof {
                assert(ukeys(final(v)@) =~= ukeys(old(v)@));
                assert(ukeys(old(v)@)[i as int] == k);
                assert(ukeys(final(v)@).to_set() =~= ukeys(old(v)@).to_set().insert(k));
                assert forall|key: u32| #[trigger]
                    umap(final(v)@).contains_key(key) == umap(old(v)@).insert(k, val).contains_key(
                        key,
                    ) by {
                    if umap(old(v)@).contains_key(key) {
                        let j = choose|j: int| 0 <= j < old(v)@.len() && old(v)@[j].0 == key;
                        if j != i {
                            assert(final(v)@[j] == old(v)@[j]);
                        }
                    }
                    if umap(final(v)@).contains_key(key) {
                        let j = choose|j: int| 0 <= j < final(v)@.len() && final(v)@[j].0 == key;
                        if j != i {
                            assert(final(v)@[j] == old(v)@[j]);
                        }
                    }
                }
                assert forall|key: u32| #[trigger]
                    umap(final(v)@).contains_key(key) implies umap(final(v)@)[key] == umap(
                    old(v)@,
                ).insert(k, val)[key] by {
                    let j = choose|j: int| 0 <= j < final(v)@.len() && final(v)@[j].0 == key;
                    lemma_umap_at(final(v)@, j);
                    if j != i {
                        assert(final(v)@[j] == old(v)@[j]);
                        assert(ukeys(old(v)@)[j] != ukeys(old(v)@)[i as int]);
                        lemma_umap_at(old(v)@, j);
                    }
                }
                assert(umap(final(v)@) =~= umap(old(v)@).insert(k, val));
            }
        },
        None => {
            v.push((k, val));
            proof {
                let n = old(v)@.len();
                assert(ukeys(final(v)@) =~= ukeys(old(v)@).push(k));
                assert(ukeys(final(v)@).to_set() =~= ukeys(old(v)@).to_set().insert(k)) by {
                    assert forall|x: u32| ukeys(final(v)@).contains(x) implies ukeys(
                        old(v)@,
                    ).contains(x) || x == k by {
                        let j = choose|j: int| 0 <= j < ukeys(final(v)@).len() && ukeys(final(v)@)[j] == x;
                        if j < n {
                            assert(ukeys(old(v)@)[j] == x);
                        }
                    }
                    assert forall|x: u32| ukeys(old(v)@).contains(x) implies ukeys(
                        final(v)@,
                    ).contains(x) by {
                        let j = choose|j: int| 0 <= j < ukeys(old(v)@).len() && ukeys(old(v)@)[j] == x;
                        assert(ukeys(final(v)@)[j] == x);
                    }
                    assert(ukeys(final(v)@)[n as int] == k);
                }
                assert forall|key: u32| #[trigger]
                    umap(final(v)@).contains_key(key) == umap(old(v)@).insert(k, val).contains_key(
                        key,
                    ) by {
                    if umap(old(v)@).contains_key(key) {
                        let j = choose|j: int| 0 <= j < old(v)@.len() && old(v)@[j].0 == key;
                        assert(final(v)@[j] == old(v)@[j]);
                    }
                    if key == k {
                        assert(final(v)@[n as int].0 == k);
                    }
                    if umap(final(v)@).contains_key(key) {
                        let j = choose|j: int| 0 <= j < final(v)@.len() && final(v)@[j].0 == key;
                        if j < n {
                            assert(final(v)@[j] == old(v)@[j]);
                        }
                    }
                }
                assert forall|key: u32| #[trigger]
                    umap(final(v)@).contains_key(key) implies umap(final(v)@)[key] == umap(
                    old(v)@,
                ).insert(k, val)[key] by {
                    let j = choose|j: int| 0 <= j < final(v)@.len() && final(v)@[j].0 == key;
                    lemma_umap_at(final(v)@, j);
                    if j < n {
                        assert(final(v)@[j] == old(v)@[j]);
                        assert(old(v)@[j].0 == key);
                        lemma_umap_at(old(v)@, j);
                    }
                }
                assert(umap(final(v)@) =~= umap(old(v)@).insert(k, val));
            }
        },
    }
}

/// Removes the entry under `k`, if any.
pub fn uremove<V>(v: &mut Vec<(u32, V)>, k: u32)
    requires
        distinct(ukeys(old(v)@)),
    ensures
        distinct(ukeys(final(v)@)),
        umap(final(v)@) == umap(old(v)@).remove(k),
        ukeys(final(v)@).to_set() == ukeys(old(v)@).to_set().remove(k),
{
    match ufind(v, k) {
        Some(i) => {
            v.remove(i);
            proof {
                assert(ukeys(final(v)@) =~= ukeys(old(v)@).remove(i as int));
                assert(ukeys(old(v)@)[i as int] == k);
                assert(ukeys(final(v)@).to_set() =~= ukeys(old(v)@).to_set().remove(k)) by {
                    assert forall|x: u32| ukeys(final(v)@).contains(x) implies ukeys(
                        old(v)@,
                    ).contains(x) && x != k by {
                        let j = choose|j: int| 0 <= j < ukeys(final(v)@).len() && ukeys(final(v)@)[j] == x;
                        if j < i {
                            assert(ukeys(old(v)@)[j] == x);
                        } else {
                            assert(ukeys(old(v)@)[j + 1] == x);
                        }
                    }
                    assert forall|x: u32| ukeys(old(v)@).contains(x) && x != k implies ukeys(
                        final(v)@,
                    ).contains(x) by {
                        let j = choose|j: int| 0 <= j < ukeys(old(v)@).len() && ukeys(old(v)@)[j] == x;
                        if j < i {
                            assert(ukeys(final(v)@)[j] == x);
                        } else {
                            assert(ukeys(final(v)@)[j - 1] == x);
                        }
                    }
                }
                assert forall|key: u32| #[trigger]
                    umap(final(v)@).contains_key(key) == umap(old(v)@).remove(k).contains_key(key) by {
                    if umap(old(v)@).contains_key(key) && key != k {
                        let j = choose|j: int| 0 <= j < old(v)@.len() && old(v)@[j].0 == key;
                        assert(j != i);
                        if j < i {
                            assert(final(v)@[j] == old(v)@[j]);
                        } else {
                            assert(final(v)@[j - 1] == old(v)@[j]);
                        }
                    }
                    if umap(final(v)@).contains_key(key) {
                        let j = choose|j: int| 0 <= j < final(v)@.len() && final(v)@[j].0 == key;
                        if j < i {
                            assert(final(v)@[j] == old(v)@[j]);
                            assert(ukeys(old(v)@)[j] != ukeys(old(v)@)[i as int]);
                        } else {
                            assert(final(v)@[j] == old(v)@[j + 1]);
                            assert(ukeys(old(v)@)[j + 1] != ukeys(old(v)@)[i as int]);
                        }
                    }
                }
                assert forall|key: u32| #[trigger]
                    umap(final(v)@).contains_key(key) implies umap(final(v)@)[key] == umap(
                    old(v)@,
                ).remove(k)[key] by {
                    let j = choose|j: int| 0 <= j < final(v)@.len() && final(v)@[j].0 == key;
                    lemma_umap_at(final(v)@, j);
                    if j < i {
                        assert(final(v)@[j] == old(v)@[j]);
                        lemma_umap_at(old(v)@, j);
                    } else {
                        assert(final(v)@[j] == old(v)@[j + 1]);
                        lemma_umap_at(old(v)@, j + 1);
                    }
                }
                assert(umap(final(v)@) =~= umap(old(v)@).remove(k));
            }
        },
        None => {
            proof {
                assert(!ukeys(old(v)@).contains(k)) by {
                    if ukeys(old(v)@).contains(k) {
                        let j = choose|j: int| 0 <= j < ukeys(old(v)@).len() && ukeys(old(v)@)[j] == k;
                        assert(old(v)@[j].0 == k);
                    }
                }
                assert(ukeys(final(v)@).to_set() =~= ukeys(old(v)@).to_set().remove(k));
                assert(umap(final(v)@) =~= umap(old(v)@).remove(k));
            }
        },
    }
}

/// Filtering a list keeps its keys distinct.
pub proof fn lemma_filter_distinct<V>(s: Seq<(String, V)>, p: spec_fn((String, V)) -> bool)
    requires
        distinct(skeys(s)),
    ensures
        distinct(skeys(s.filter(p))),
    decreases s.len(),
{
    reveal(Seq::filter);
    if s.len() > 0 {
        let d = s.drop_last();
        assert(skeys(d) =~= skeys(s).drop_last());
        lemma_filter_distinct(d, p);
        let fd = d.filter(p);
        if p(s.last()) {
            let f = fd.push(s.last());
            assert forall|i: int, j: int|
                0 <= i < skeys(f).len() && 0 <= j < skeys(f).len() && i != j implies skeys(f)[i]
                != skeys(f)[j] by {
                if i < fd.len() && j < fd.len() {
                    assert(skeys(fd)[i] != skeys(fd)[j]);
                } else if i < fd.len() {
                    d.lemma_filter_contains_rev(p, fd[i]);
                    let m = choose|m: int| 0 <= m < d.len() && d[m] == fd[i];
                    assert(skeys(s)[m] != skeys(s)[s.len() - 1]);
                } else {
                    d.lemma_filter_contains_rev(p, fd[j]);
                    let m = choose|m: int| 0 <= m < d.len() && d[m] == fd[j];
                    assert(skeys(s)[m] != skeys(s)[s.len() - 1]);
                }
            }
        }
    }
}

/// The map of a filtered list: the entries that pass, unchanged.
pub proof fn lemma_filter_smap<V>(s: Seq<(String, V)>, p: spec_fn((String, V)) -> bool)
    requires
        distinct(skeys(s)),
    ensures
        forall|k: Seq<char>| #[trigger]
            smap(s.filter(p)).contains_key(k) <==> smap(s).contains_key(k) && p(s[spos(s, k)]),
        forall|k: Seq<char>| #[trigger]
            smap(s.filter(p)).contains_key(k) ==> smap(s.filter(p))[k] == smap(s)[k],
{
    let f = s.filter(p);
    lemma_filter_distinct(s, p);
    assert forall|k: Seq<char>| #[trigger]
        smap(f).contains_key(k) implies smap(s).contains_key(k) && p(s[spos(s, k)])
            && smap(f)[k] == smap(s)[k] by {
        let j = spos(f, k);
        lemma_smap_at(f, j);
        s.lemma_filter_pred(p, j);
        s.lemma_filter_contains_rev(p, f[j]);
        let i = choose|i: int| 0 <= i < s.len() && s[i] == f[j];
        lemma_smap_at(s, i);
        assert(s[i].0@ == k);
        assert(spos(s, k) == i) by {
            let m = spos(s, k);
            assert(skeys(s)[m] == skeys(s)[i]);
        }
    }
    assert forall|k: Seq<char>| #[trigger]
        smap(s).contains_key(k) && p(s[spos(s, k)]) implies smap(f).contains_key(k) by {
        let i = spos(s, k);
        s.lemma_filter_contains(p, i);
        let j = choose|j: int| 0 <= j < f.len() && f[j] == s[i];
        assert(f[j].0@ == k);
    }
}

/// Keeps the entries whose flag is set; `keep` tells, for each entry, what
/// its flag is.
pub fn sretain<V>(
    v: &mut Vec<(String, V)>,
    flags: &Vec<bool>,
    Ghost(keep): Ghost<spec_fn((String, V)) -> bool>,
)
    requires
        distinct(skeys(old(v)@)),
        flags@.len() == old(v)@.len(),
        forall|i: int| 0 <= i < flags@.len() ==> flags@[i] == keep(old(v)@[i]),
    ensures
        final(v)@ == old(v)@.filter(keep),
        distinct(skeys(final(v)@)),
        forall|k: Seq<char>| #[trigger]
            smap(final(v)@).contains_key(k) <==> smap(old(v)@).contains_key(k) && keep(
                old(v)@[spos(old(v)@, k)],
            ),
        forall|k: Seq<char>| #[trigger]
            smap(final(v)@).contains_key(k) ==> smap(final(v)@)[k] == smap(old(v)@)[k],
{
    let ghost s = v@;
    let mut rest: Vec<(String, V)> = Vec::new();
    std::mem::swap(v, &mut rest);
    let mut out: Vec<(String, V)> = Vec::new();
    let mut k: usize = 0;
    let n = flags.len();
    while rest.len() > 0
        invariant
            n == flags@.len(),
            k + rest@.len() == s.len(),
            flags@.len() == s.len(),
            forall|i: int| 0 <= i < flags@.len() ==> flags@[i] == keep(s[i]),
            rest@ == s.skip(k as int),
            out@ == s.take(k as int).filter(keep),
        decreases rest@.len(),
    {
        assert(k < n);
        let e = rest.remove(0);
        proof {
            reveal(Seq::filter);
            assert(s.take(k + 1).drop_last() =~= s.take(k as int));
            assert(s.take(k + 1).last() == s[k as int]);
        }
        if flags[k] {
            out.push(e);
        }
        k = k + 1;
        assert(rest@ =~= s.skip(k as int));
    }
    assert(s.take(k as int) =~= s);
    *v = out;
    proof {
        lemma_filter_distinct(s, keep);
        lemma_filter_smap(s, keep);
    }
}

} // verus!
