//! TOML values as the metadata files give them, merged one over another
//! and written out as Nix attribute sets.  A table keeps its entries in the
//! order of its keys, as `toml`'s map does; a float is held as the text its
//! `to_string` gives.
use vstd::prelude::*;
use crate::collate::{lex_less, lex_lt};
use crate::text::{chars_of, dec, extend_chars, join, join_chars, replace, replace_chars, str_eq, string_of};

verus! {

/// A TOML value.
pub enum Toml {
    Str(String),
    Int(i64),
    Float(String),
    Bool(bool),
    Datetime(String),
    Array(Vec<Toml>),
    Table(Vec<(String, Toml)>),
}

/// The mathematical TOML value.
pub enum TomlV {
    Str(Seq<char>),
    Int(i64),
    Float(Seq<char>),
    Bool(bool),
    Datetime(Seq<char>),
    Array(Seq<TomlV>),
    Table(Seq<(Seq<char>, TomlV)>),
}

impl Toml {
    pub open spec fn view_of(self) -> TomlV
        decreases self,
    {
        match self {
            Toml::Str(s) => TomlV::Str(s@),
            Toml::Int(i) => TomlV::Int(i),
            Toml::Float(t) => TomlV::Float(t@),
            Toml::Bool(b) => TomlV::Bool(b),
            Toml::Datetime(t) => TomlV::Datetime(t@),
            Toml::Array(items) => TomlV::Array(
                Seq::new(
                    items@.len(),
                    |i: int|
                        if 0 <= i < items@.len() {
                            items@[i].view_of()
                        } else {
                            TomlV::Bool(false)
                        },
                ),
            ),
            Toml::Table(es) => TomlV::Table(
                Seq::new(
                    es@.len(),
                    |i: int|
                        if 0 <= i < es@.len() {
                            (es@[i].0@, es@[i].1.view_of())
                        } else {
                            (Seq::empty(), TomlV::Bool(false))
                        },
                ),
            ),
        }
    }

    pub proof fn lemma_array_view(&self)
        requires
            self is Array,
        ensures
            self@ == TomlV::Array(self->Array_0@.map_values(|x: Toml| x@)),
    {
        assert(self->Array_0@.map_values(|x: Toml| x@) =~= self@->Array_0);
    }

    pub proof fn lemma_table_view(&self)
        requires
            self is Table,
        ensures
            self@ == TomlV::Table(self->Table_0@.map_values(|e: (String, Toml)| (e.0@, e.1@))),
    {
        assert(self->Table_0@.map_values(|e: (String, Toml)| (e.0@, e.1@)) =~= self@->Table_0);
    }
}

impl View for Toml {
    type V = TomlV;

    open spec fn view(&self) -> TomlV {
        self.view_of()
    }
}

pub open spec fn entries_view(es: Seq<(String, Toml)>) -> Seq<(Seq<char>, TomlV)> {
    es.map_values(|e: (String, Toml)| (e.0@, e.1@))
}

pub open spec fn items_view(items: Seq<Toml>) -> Seq<TomlV> {
    items.map_values(|x: Toml| x@)
}

// ---------------------------------------------------------------------------
// Tables
// ---------------------------------------------------------------------------

/// Where a key belongs in a table: at the first entry whose key is the same
/// or comes after it, else at the end.
pub open spec fn slot(es: Seq<(Seq<char>, TomlV)>, k: Seq<char>) -> int
    decreases es.len(),
{
    if es.len() == 0 {
        0
    } else if es[0].0 == k || lex_lt(k, es[0].0) {
        0
    } else {
        1 + slot(es.skip(1), k)
    }
}

/// Whether the table has the key, where it belongs.
pub open spec fn has_key(es: Seq<(Seq<char>, TomlV)>, k: Seq<char>) -> bool {
    slot(es, k) < es.len() && es[slot(es, k)].0 == k
}

/// The value under a key (`Map::get`), found where the key belongs.
pub open spec fn tget(es: Seq<(Seq<char>, TomlV)>, k: Seq<char>) -> Option<TomlV> {
    if has_key(es, k) {
        Some(es[slot(es, k)].1)
    } else {
        None
    }
}

/// The table with `v` under `k` (`Map::insert`): the entry replaced where
/// the key is, else a new entry where the key belongs.
pub open spec fn tput(es: Seq<(Seq<char>, TomlV)>, k: Seq<char>, v: TomlV) -> Seq<(Seq<char>, TomlV)> {
    if has_key(es, k) {
        es.update(slot(es, k), (k, v))
    } else {
        es.insert(slot(es, k), (k, v))
    }
}

proof fn lemma_slot_bounds(es: Seq<(Seq<char>, TomlV)>, k: Seq<char>)
    ensures
        0 <= slot(es, k) <= es.len(),
        forall|m: int| 0 <= m < slot(es, k) ==> es[m].0 != k && !lex_lt(k, #[trigger] es[m].0),
        slot(es, k) < es.len() ==> (es[slot(es, k)].0 == k || lex_lt(k, es[slot(es, k)].0)),
    decreases es.len(),
{
    if es.len() > 0 && !(es[0].0 == k || lex_lt(k, es[0].0)) {
        lemma_slot_bounds(es.skip(1), k);
        assert forall|m: int| 0 <= m < slot(es, k) implies es[m].0 != k && !lex_lt(k, #[trigger] es[m].0) by {
            if m > 0 {
                assert(es[m] == es.skip(1)[m - 1]);
            }
        }
    }
}

proof fn lemma_slot_at(es: Seq<(Seq<char>, TomlV)>, k: Seq<char>, j: int)
    requires
        0 <= j <= es.len(),
        forall|m: int| 0 <= m < j ==> es[m].0 != k && !lex_lt(k, #[trigger] es[m].0),
        j < es.len() ==> (es[j].0 == k || lex_lt(k, es[j].0)),
    ensures
        slot(es, k) == j,
    decreases j,
{
    if j > 0 {
        let t = es.skip(1);
        assert forall|m: int| 0 <= m < j - 1 implies t[m].0 != k && !lex_lt(k, #[trigger] t[m].0) by {
            assert(t[m] == es[m + 1]);
        }
        if j - 1 < t.len() {
            assert(t[j - 1] == es[j]);
        }
        lemma_slot_at(t, k, j - 1);
        assert(!(es[0].0 == k || lex_lt(k, es[0].0)));
    }
}

/// Finds where `k` belongs in a table: its position, and whether the entry
/// there has that key.
pub(crate) fn find_slot(es: &Vec<(String, Toml)>, k: &str) -> (r: (usize, bool))
    ensures
        r.0 == slot(entries_view(es@), k@),
        r.1 == has_key(entries_view(es@), k@),
{
    let ghost ev = entries_view(es@);
    let mut j: usize = 0;
    while j < es.len()
        invariant
            0 <= j <= es@.len(),
            ev == entries_view(es@),
            forall|m: int| 0 <= m < j ==> ev[m].0 != k@ && !lex_lt(k@, #[trigger] ev[m].0),
        decreases es@.len() - j,
    {
        assert(ev[j as int].0 == es@[j as int].0@);
        if str_eq(es[j].0.as_str(), k) {
            proof {
                lemma_slot_at(ev, k@, j as int);
            }
            return (j, true);
        }
        if lex_less(k, es[j].0.as_str()) {
            proof {
                lemma_slot_at(ev, k@, j as int);
            }
            return (j, false);
        }
        j = j + 1;
    }
    proof {
        lemma_slot_at(ev, k@, j as int);
    }
    (j, false)
}

// ---------------------------------------------------------------------------
// Merging
// ---------------------------------------------------------------------------

/// `deep_merge`: a table merged into a table merges entry by entry in the
/// overlay's order; anything else replaces what was there.
pub open spec fn merge(b: TomlV, o: TomlV) -> TomlV
    decreases o,
{
    match (b, o) {
        (TomlV::Table(be), TomlV::Table(oe)) => TomlV::Table(merge_entries(be, oe)),
        _ => o,
    }
}

/// The overlay's entries merged into a table, in order.
pub open spec fn merge_entries(be: Seq<(Seq<char>, TomlV)>, oe: Seq<(Seq<char>, TomlV)>) -> Seq<(Seq<char>, TomlV)>
    decreases oe,
{
    if oe.len() == 0 {
        be
    } else {
        merge_step(merge_entries(be, oe.drop_last()), oe.last())
    }
}

/// One entry of the overlay merged into a table.  A `tracks` list merges
/// item by item into a `tracks` list (and is dropped when the table's
/// `tracks` is no list); any other value merges into the value under its
/// key, or is added under it.
pub open spec fn merge_step(be: Seq<(Seq<char>, TomlV)>, e: (Seq<char>, TomlV)) -> Seq<(Seq<char>, TomlV)>
    decreases e,
{
    let (k, v) = e;
    if k == "tracks"@ && v is Array {
        match tget(be, k) {
            Some(TomlV::Array(barr)) => tput(be, k, TomlV::Array(merge_arrays(barr, v->Array_0))),
            Some(_) => be,
            None => tput(be, k, v),
        }
    } else {
        match tget(be, k) {
            Some(bv) => tput(be, k, merge(bv, v)),
            None => tput(be, k, v),
        }
    }
}

/// Two lists merged item by item: where both have an item the overlay's is
/// merged into the base's; the longer list gives the rest.
pub open spec fn merge_arrays(b: Seq<TomlV>, o: Seq<TomlV>) -> Seq<TomlV>
    decreases o,
{
    Seq::new(
        if b.len() >= o.len() {
            b.len()
        } else {
            o.len()
        },
        |i: int|
            if 0 <= i < o.len() {
                if i < b.len() {
                    merge(b[i], o[i])
                } else {
                    o[i]
                }
            } else {
                b[i]
            },
    )
}

/// `deep_merge` on values taken by value.
fn merged(b: Toml, o: Toml, Ghost(m): Ghost<TomlV>) -> (r: Toml)
    requires
        m == o@,
    ensures
        r@ == merge(b@, o@),
    decreases m, 0int,
{
    let ghost bv0 = b@;
    let ghost ov0 = o@;
    match (b, o) {
        (Toml::Table(be), Toml::Table(oe)) => {
            let ghost bev = entries_view(be@);
            let ghost oev = entries_view(oe@);
            assert(bev =~= bv0->Table_0);
            assert(oev =~= ov0->Table_0);
            assert(decreases_to!(m => m->Table_0));
            let es = merged_table(be, oe, Ghost(oev));
            let r = Toml::Table(es);
            proof {
                r.lemma_table_view();
            }
            r
        },
        (b, o) => {
            proof {
                if b is Table && o is Table {
                    assert(false);
                }
            }
            o
        },
    }
}

fn merged_table(be: Vec<(String, Toml)>, oe: Vec<(String, Toml)>, Ghost(m): Ghost<Seq<(Seq<char>, TomlV)>>) -> (r: Vec<(String, Toml)>)
    requires
        m == entries_view(oe@),
    ensures
        entries_view(r@) == merge_entries(entries_view(be@), entries_view(oe@)),
    decreases m, 0int,
{
    let ghost oe0 = oe;
    let ghost oev = entries_view(oe@);
    let ghost bev = entries_view(be@);
    let mut acc = be;
    let mut rest = oe;
    let ghost mut i: int = 0;
    while rest.len() > 0
        invariant
            0 <= i <= oev.len(),
            oev == entries_view(oe0@),
            m == oev,
            entries_view(rest@) == oev.skip(i),
            rest@ == oe0@.skip(i),
            entries_view(acc@) == merge_entries(bev, oev.take(i)),
        decreases rest@.len(),
    {
        let ghost rv = rest@;
        assert(rv.len() == oe0@.len() - i);
        let e = rest.remove(0);
        assert(e == oe0@[i]);
        let (k, v) = e;
        assert(v == oe0@[i].1);
        proof {
            assert(rest@ =~= oe0@.skip(i + 1));
            assert(entries_view(rest@) =~= oev.skip(i + 1));
            assert(rv[0] == oe0@[i]);
            assert(oev[i] == (k@, v@));
            assert(oev.take(i + 1).drop_last() =~= oev.take(i));
            assert(oev.take(i + 1).last() == oev[i]);
            assert(decreases_to!(m => m[i]));
            assert(decreases_to!(m[i] => m[i].1));
        }
        acc = merged_entry(acc, k, v, Ghost(oev[i].1));
        proof {
            i = i + 1;
        }
    }
    assert(oev.take(i) =~= oev);
    acc
}

/// One overlay entry merged into a table.
fn merged_entry(be: Vec<(String, Toml)>, k: String, v: Toml, Ghost(m): Ghost<TomlV>) -> (r: Vec<(String, Toml)>)
    requires
        m == v@,
    ensures
        entries_view(r@) == merge_step(entries_view(be@), (k@, v@)),
    decreases m, 1int,
{
    let ghost bev = entries_view(be@);
    let ghost vv = v@;
    let mut es = be;
    let (j, found) = find_slot(&es, k.as_str());
    proof {
        lemma_slot_bounds(bev, k@);
    }
    let is_tracks = str_eq(k.as_str(), "tracks");
    let v_is_array = match &v {
        Toml::Array(_) => true,
        _ => false,
    };
    proof {
        if v_is_array {
            v.lemma_array_view();
        }
        assert(v_is_array == (vv is Array));
    }
    if found {
        let (kk, bv) = es.remove(j);
        assert(bev[j as int] == (kk@, bv@));
        assert(kk@ == k@);
        proof {
            if bv is Array {
                bv.lemma_array_view();
            }
            assert((bv is Array) == (bv@ is Array));
        }
        let nv = if is_tracks && v_is_array {
            match (bv, v) {
                (Toml::Array(barr), Toml::Array(oarr)) => {
                    assert(decreases_to!(m => m->Array_0));
                    let ma = merged_arrays(barr, oarr, Ghost(items_view(oarr@)));
                    let a = Toml::Array(ma);
                    proof {
                        a.lemma_array_view();
                    }
                    a
                },
                (bv, _) => {
                    proof {
                        if bv is Array {
                            assert(false);
                        }
                    }
                    bv
                },
            }
        } else {
            merged(bv, v, Ghost(m))
        };
        es.insert(j, (kk, nv));
        proof {
            assert(entries_view(es@) =~= entries_view(be@).update(j as int, (k@, nv@)));
            if is_tracks && vv is Array && !(bev[j as int].1 is Array) {
                assert(nv@ == bev[j as int].1);
                assert(entries_view(es@) =~= bev);
            }
        }
        es
    } else {
        let ghost kv = k@;
        es.insert(j, (k, v));
        proof {
            assert(entries_view(es@) =~= bev.insert(j as int, (kv, vv)));
        }
        es
    }
}

fn merged_arrays(b: Vec<Toml>, o: Vec<Toml>, Ghost(m): Ghost<Seq<TomlV>>) -> (r: Vec<Toml>)
    requires
        m == items_view(o@),
    ensures
        items_view(r@) == merge_arrays(items_view(b@), items_view(o@)),
    decreases m, 0int,
{
    let ghost o0 = o;
    let ghost bv = items_view(b@);
    let ghost ov = items_view(o@);
    let ghost target = merge_arrays(bv, ov);
    let mut out: Vec<Toml> = Vec::new();
    let mut bs = b;
    let mut os = o;
    let ghost mut i: int = 0;
    while os.len() > 0
        invariant
            0 <= i <= ov.len(),
            ov == items_view(o0@),
            m == ov,
            os@ == o0@.skip(i),
            items_view(bs@) == bv.skip(if i <= bv.len() {
                i
            } else {
                bv.len() as int
            }),
            target == merge_arrays(bv, ov),
            items_view(out@) == target.take(i),
        decreases os@.len(),
    {
        let ghost osv = os@;
        assert(osv.len() == o0@.len() - i);
        let x = os.remove(0);
        proof {
            assert(os@ =~= o0@.skip(i + 1));
            assert(osv[0] == o0@[i]);
            assert(x == o0@[i]);
            assert(x@ == ov[i]);
            assert(decreases_to!(o0 => o0@));
            assert(decreases_to!(o0@ => o0@[i]));
        }
        let ghost before = items_view(out@);
        if bs.len() > 0 {
            let ghost bsv = items_view(bs@);
            proof {
                assert(bsv.len() > 0);
                if i > bv.len() {
                    assert(bv.skip(bv.len() as int).len() == 0);
                }
                assert(i < bv.len());
                assert(bsv == bv.skip(i));
            }
            let ghost bs_old = bs@;
            let y = bs.remove(0);
            proof {
                assert(y == bs_old[0]);
                assert(y@ == bsv[0]);
                assert(bsv[0] == bv[i]);
                assert(items_view(bs@) =~= bsv.skip(1));
                assert(bsv.skip(1) =~= bv.skip(i + 1));
            }
            assert(decreases_to!(m => m[i]));
            let mv = merged(y, x, Ghost(ov[i]));
            out.push(mv);
        } else {
            proof {
                if i < bv.len() {
                    assert(bv.skip(i).len() > 0);
                }
                assert(bv.len() <= i);
            }
            out.push(x);
        }
        proof {
            assert(items_view(out@) =~= before.push(target[i]));
            assert(target.take(i + 1) =~= target.take(i).push(target[i]));
            i = i + 1;
            if i > bv.len() {
                assert(items_view(bs@) =~= bv.skip(bv.len() as int));
            }
        }
    }
    while bs.len() > 0
        invariant
            ov.len() <= i <= target.len(),
            target.len() == (if bv.len() >= ov.len() {
                bv.len()
            } else {
                ov.len()
            }),
            target == merge_arrays(bv, ov),
            items_view(bs@) == bv.skip(if i <= bv.len() {
                i
            } else {
                bv.len() as int
            }),
            items_view(out@) == target.take(i),
        decreases bs@.len(),
    {
        let ghost bsv = items_view(bs@);
        proof {
            assert(bsv.len() > 0);
            if i >= bv.len() {
                assert(bv.skip(bv.len() as int).len() == 0);
            }
            assert(i < bv.len());
            assert(bsv == bv.skip(i));
        }
        let ghost bs_old = bs@;
        let y = bs.remove(0);
        let ghost before = items_view(out@);
        proof {
            assert(i < bv.len());
            assert(y == bs_old[0]);
            assert(y@ == bsv[0]);
            assert(bsv[0] == bv[i]);
            assert(items_view(bs@) =~= bsv.skip(1));
            assert(bsv.skip(1) =~= bv.skip(i + 1));
            assert(y@ == bv[i]);
        }
        out.push(y);
        proof {
            assert(items_view(out@) =~= before.push(target[i]));
            assert(target.take(i + 1) =~= target.take(i).push(target[i]));
            i = i + 1;
        }
    }
    proof {
        if i < target.len() {
            assert(i < bv.len());
            assert(items_view(bs@) == bv.skip(i));
            assert(items_view(bs@).len() > 0);
        }
        assert(target.take(i) =~= target);
    }
    out
}

/// `deep_merge(base, overlay)`.
pub fn deep_merge(base: &mut Toml, overlay: Toml)
    ensures
        final(base)@ == merge(old(base)@, overlay@),
{
    let mut b = Toml::Bool(false);
    std::mem::swap(&mut b, base);
    let ghost ov = overlay@;
    *base = merged(b, overlay, Ghost(ov));
}

/// The metadata files merged in the order given, over an empty table.
pub open spec fn merge_all(files: Seq<TomlV>) -> TomlV
    decreases files.len(),
{
    if files.len() == 0 {
        TomlV::Table(Seq::empty())
    } else {
        merge(merge_all(files.drop_last()), files.last())
    }
}

pub fn merge_metadata(files: Vec<Toml>) -> (r: Toml)
    ensures
        r@ == merge_all(items_view(files@)),
{
    let ghost fv = items_view(files@);
    let ghost f0 = files@;
    let e: Vec<(String, Toml)> = Vec::new();
    let mut acc = Toml::Table(e);
    proof {
        acc.lemma_table_view();
        assert(entries_view(e@) =~= Seq::<(Seq<char>, TomlV)>::empty());
    }
    let mut rest = files;
    let ghost mut i: int = 0;
    while rest.len() > 0
        invariant
            0 <= i <= fv.len(),
            fv == items_view(f0),
            rest@ == f0.skip(i),
            acc@ == merge_all(fv.take(i)),
        decreases rest@.len(),
    {
        let ghost rv = rest@;
        assert(rv.len() == f0.len() - i);
        let x = rest.remove(0);
        proof {
            assert(rest@ =~= f0.skip(i + 1));
            assert(rv[0] == f0[i]);
            assert(fv.take(i + 1).drop_last() =~= fv.take(i));
        }
        deep_merge(&mut acc, x);
        proof {
            i = i + 1;
        }
    }
    assert(fv.take(i) =~= fv);
    acc
}

// ---------------------------------------------------------------------------
// Nix text
// ---------------------------------------------------------------------------

/// An integer as `i64::to_string` writes it.
pub open spec fn int_text(i: i64) -> Seq<char> {
    if i < 0 {
        seq!['-'] + dec((-i) as nat)
    } else {
        dec(i as nat)
    }
}

/// A text as a Nix string's contents: backslashes and quotes escaped.
pub open spec fn nix_escape(s: Seq<char>) -> Seq<char> {
    replace(replace(s, seq!['\\'], seq!['\\', '\\']), seq!['"'], seq!['\\', '"'])
}

/// `to_nix_value`: a string quoted, a number or a boolean as written, a
/// list as its items between `[ ` and ` ]`, anything else as `""`.
pub open spec fn nix_value(v: TomlV) -> Seq<char>
    decreases v,
{
    match v {
        TomlV::Str(s) => seq!['"'] + nix_escape(s) + seq!['"'],
        TomlV::Int(i) => int_text(i),
        TomlV::Float(t) => t,
        TomlV::Bool(b) => if b {
            "true"@
        } else {
            "false"@
        },
        TomlV::Array(items) => "[ "@ + join(nix_items(items), seq![' ']) + " ]"@,
        _ => "\"\""@,
    }
}

/// Each item of a list as `to_nix_value` writes it.
pub open spec fn nix_items(items: Seq<TomlV>) -> Seq<Seq<char>>
    decreases items,
{
    Seq::new(
        items.len(),
        |j: int|
            if 0 <= j < items.len() {
                nix_value(items[j])
            } else {
                Seq::empty()
            },
    )
}

fn int_chars(i: i64) -> (r: Vec<char>)
    ensures
        r@ == int_text(i),
{
    let mut out: Vec<char> = Vec::new();
    if i < 0 {
        out.push('-');
        let u: u64 = if i == i64::MIN {
            9223372036854775808u64
        } else {
            (-i) as u64
        };
        crate::text::push_decimal(&mut out, u);
        assert(out@ =~= seq!['-'] + dec((-i) as nat));
    } else {
        crate::text::push_decimal(&mut out, i as u64);
        assert(out@ =~= dec(i as nat));
    }
    out
}

pub fn to_nix_value(v: &Toml) -> (r: String)
    ensures
        r@ == nix_value(v@),
    decreases v,
{
    proof {
        reveal_strlit("true");
        reveal_strlit("false");
        reveal_strlit("[ ");
        reveal_strlit(" ]");
        reveal_strlit("\"\"");
    }
    match v {
        Toml::Str(s) => {
            let c = chars_of(s.as_str());
            let bs: Vec<char> = vec!['\\'];
            let bs2: Vec<char> = vec!['\\', '\\'];
            let q: Vec<char> = vec!['"'];
            let q2: Vec<char> = vec!['\\', '"'];
            let a = replace_chars(c.as_slice(), bs.as_slice(), bs2.as_slice());
            let b = replace_chars(a.as_slice(), q.as_slice(), q2.as_slice());
            assert(bs@ =~= seq!['\\']);
            assert(bs2@ =~= seq!['\\', '\\']);
            assert(q@ =~= seq!['"']);
            assert(q2@ =~= seq!['\\', '"']);
            let mut out: Vec<char> = Vec::new();
            out.push('"');
            extend_chars(&mut out, b.as_slice());
            out.push('"');
            assert(out@ =~= seq!['"'] + nix_escape(s@) + seq!['"']);
            assert(v@ == TomlV::Str(s@));
            let r = string_of(out.as_slice());
            assert(r@ == out@);
            assert(nix_value(TomlV::Str(s@)) == seq!['"'] + nix_escape(s@) + seq!['"']);
            r
        },
        Toml::Int(i) => {
            let c = int_chars(*i);
            string_of(c.as_slice())
        },
        Toml::Float(t) => t.clone(),
        Toml::Bool(b) => {
            if *b {
                crate::text::str_to_string("true")
            } else {
                crate::text::str_to_string("false")
            }
        },
        Toml::Array(items) => {
            let ghost iv = items_view(items@);
            let ghost parts_spec = nix_items(iv);
            proof {
                v.lemma_array_view();
            }
            let mut parts: Vec<Vec<char>> = Vec::new();
            let mut i: usize = 0;
            while i < items.len()
                invariant
                    *v == Toml::Array(*items),
                    0 <= i <= items@.len(),
                    iv == items_view(items@),
                    parts_spec == nix_items(iv),
                    parts@.map_values(|p: Vec<char>| p@) == parts_spec.take(i as int),
                decreases items@.len() - i,
            {
                assert(decreases_to!(*v => v->Array_0));
                assert(decreases_to!(*items => items@));
                assert(decreases_to!(items@ => items@[i as int]));
                let ghost before = parts@.map_values(|p: Vec<char>| p@);
                let t = to_nix_value(&items[i]);
                parts.push(chars_of(t.as_str()));
                assert(parts@.map_values(|p: Vec<char>| p@) =~= before.push(parts_spec[i as int]));
                assert(parts_spec.take(i + 1) =~= parts_spec.take(i as int).push(parts_spec[i as int]));
                i = i + 1;
            }
            assert(parts_spec.take(i as int) =~= parts_spec);
            let sp: Vec<char> = vec![' '];
            assert(sp@ =~= seq![' ']);
            let joined = join_chars(&parts, sp.as_slice());
            let mut out: Vec<char> = vec!['[', ' '];
            extend_chars(&mut out, joined.as_slice());
            out.push(' ');
            out.push(']');
            assert(out@ =~= "[ "@ + join(parts_spec, seq![' ']) + " ]"@);
            string_of(out.as_slice())
        },
        _ => crate::text::str_to_string("\"\""),
    }
}

/// Concatenated texts.
pub open spec fn concat(parts: Seq<Seq<char>>) -> Seq<char>
    decreases parts.len(),
{
    if parts.len() == 0 {
        Seq::empty()
    } else {
        concat(parts.drop_last()) + parts.last()
    }
}

/// One line of an attribute set: `<indent><key> = <value>;`.
pub open spec fn attr_line(indent: Seq<char>, e: (Seq<char>, TomlV)) -> Seq<char> {
    indent + e.0 + " = "@ + nix_value(e.1) + ";\n"@
}

/// `to_nix_attributes`: each entry of a table on a line of its own, in the
/// table's order; nothing for any other value.
pub open spec fn nix_attributes(v: TomlV, indent: Seq<char>) -> Seq<char> {
    match v {
        TomlV::Table(es) => concat(es.map_values(|e: (Seq<char>, TomlV)| attr_line(indent, e))),
        _ => Seq::empty(),
    }
}

pub fn to_nix_attributes(v: &Toml, indent: &str) -> (r: String)
    ensures
        r@ == nix_attributes(v@, indent@),
{
    proof {
        reveal_strlit(" = ");
        reveal_strlit(";\n");
        assert(" = "@ =~= seq![' ', '=', ' ']);
        assert(";\n"@ =~= seq![';', '\n']);
    }
    match v {
        Toml::Table(es) => {
            proof {
                v.lemma_table_view();
            }
            let ghost ev = entries_view(es@);
            let ghost lines = ev.map_values(|e: (Seq<char>, TomlV)| attr_line(indent@, e));
            let ind = chars_of(indent);
            let mut out: Vec<char> = Vec::new();
            let mut i: usize = 0;
            while i < es.len()
                invariant
                    0 <= i <= es@.len(),
                    ev == entries_view(es@),
                    ind@ == indent@,
                    lines == ev.map_values(|e: (Seq<char>, TomlV)| attr_line(indent@, e)),
                    out@ == concat(lines.take(i as int)),
                    " = "@ == seq![' ', '=', ' '],
                    ";\n"@ == seq![';', '\n'],
                decreases es@.len() - i,
            {
                let ghost before = out@;
                extend_chars(&mut out, ind.as_slice());
                extend_chars(&mut out, chars_of(es[i].0.as_str()).as_slice());
                let eq: Vec<char> = vec![' ', '=', ' '];
                extend_chars(&mut out, eq.as_slice());
                let val = to_nix_value(&es[i].1);
                extend_chars(&mut out, chars_of(val.as_str()).as_slice());
                out.push(';');
                out.push('\n');
                proof {
                    assert(lines.take(i + 1).drop_last() =~= lines.take(i as int));
                    assert(ev[i as int] == (es@[i as int].0@, es@[i as int].1@));
                    assert(eq@ =~= seq![' ', '=', ' ']);
                    assert(val@ == nix_value(ev[i as int].1));
                    assert(out@ =~= before + attr_line(indent@, ev[i as int]));
                    assert(lines.take(i + 1).last() == attr_line(indent@, ev[i as int]));
                }
                i = i + 1;
            }
            assert(lines.take(i as int) =~= lines);
            string_of(out.as_slice())
        },
        _ => {
            proof {
                reveal_strlit("");
            }
            let e: Vec<char> = Vec::new();
            string_of(e.as_slice())
        },
    }
}

// ---------------------------------------------------------------------------
// Laws
// ---------------------------------------------------------------------------

/// Reading a key back after putting a value under it gives that value, in
/// any table.
pub proof fn law_table_get_after_put(es: Seq<(Seq<char>, TomlV)>, k: Seq<char>, v: TomlV)
    ensures
        tget(tput(es, k, v), k) == Some(v),
{
    lemma_slot_bounds(es, k);
    let j = slot(es, k);
    let t = tput(es, k, v);
    assert forall|m: int| 0 <= m < j implies t[m].0 != k && !lex_lt(k, #[trigger] t[m].0) by {
        assert(t[m] == es[m]);
    }
    lemma_slot_at(t, k, j);
}

/// A table merged over a table with an empty overlay stays as it was.
pub proof fn law_merge_empty_overlay(be: Seq<(Seq<char>, TomlV)>)
    ensures
        merge(TomlV::Table(be), TomlV::Table(Seq::empty())) == TomlV::Table(be),
{
}

/// Anything that is not a table merged over a value replaces it.
pub proof fn law_merge_replaces(b: TomlV, o: TomlV)
    requires
        !(o is Table),
    ensures
        merge(b, o) == o,
{
}

/// Merging one list of items into another never shortens it: the result
/// is as long as the longer of the two; where both have an item the
/// overlay's is merged into the base's, the overlay's extra items are
/// appended, and the base's items past the overlay's end are kept as they
/// were.
pub proof fn law_merge_arrays_keeps_items(b: Seq<TomlV>, o: Seq<TomlV>)
    ensures
        merge_arrays(b, o).len() == if b.len() >= o.len() {
            b.len()
        } else {
            o.len()
        },
        merge_arrays(b, o).len() >= b.len(),
        forall|i: int| 0 <= i < b.len() && i < o.len() ==> #[trigger] merge_arrays(b, o)[i] == merge(b[i], o[i]),
        forall|i: int| o.len() <= i < b.len() ==> #[trigger] merge_arrays(b, o)[i] == b[i],
        forall|i: int| b.len() <= i < o.len() ==> #[trigger] merge_arrays(b, o)[i] == o[i],
{
}

/// Merging a table whose `tracks` is a list of `m` items into a table whose
/// `tracks` is a list of `n` items leaves a `tracks` list of `max(n, m)`
/// items: the first `min(n, m)` merged pairwise, then the longer list's
/// own items unchanged.
pub proof fn law_merge_tracks(be: Seq<(Seq<char>, TomlV)>, barr: Seq<TomlV>, oarr: Seq<TomlV>)
    requires
        tget(be, "tracks"@) == Some(TomlV::Array(barr)),
    ensures
        ({
            let r = merge(TomlV::Table(be), TomlV::Table(seq![("tracks"@, TomlV::Array(oarr))]));
            &&& r is Table
            &&& tget(r->Table_0, "tracks"@) matches Some(TomlV::Array(m)) && {
                &&& m.len() == if barr.len() >= oarr.len() {
                    barr.len()
                } else {
                    oarr.len()
                }
                &&& forall|i: int| 0 <= i < barr.len() && i < oarr.len() ==> #[trigger] m[i] == merge(barr[i], oarr[i])
                &&& forall|i: int| oarr.len() <= i < barr.len() ==> #[trigger] m[i] == barr[i]
                &&& forall|i: int| barr.len() <= i < oarr.len() ==> #[trigger] m[i] == oarr[i]
            }
        }),
{
    let e = ("tracks"@, TomlV::Array(oarr));
    let oe = seq![e];
    assert(oe.drop_last() =~= Seq::<(Seq<char>, TomlV)>::empty());
    assert(merge_entries(be, oe) == merge_step(merge_entries(be, oe.drop_last()), oe.last()));
    assert(merge_entries(be, oe) == merge_step(be, e));
    let m = merge_arrays(barr, oarr);
    assert(merge_step(be, e) == tput(be, "tracks"@, TomlV::Array(m)));
    law_table_get_after_put(be, "tracks"@, TomlV::Array(m));
    law_merge_arrays_keeps_items(barr, oarr);
}

} // verus!
