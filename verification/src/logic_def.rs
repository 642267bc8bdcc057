//! The view definitions of `logic.toml`: filters, groupers, orders,
//! libraries and shelves, and the normalisation that settles which of them
//! each library offers.
use vstd::prelude::*;
use crate::manifest::strs;
use crate::text::str_eq;

verus! {

/// SQL fragments of a definition.
pub struct SqlDef {
    pub select: Option<String>,
    pub where_: Option<String>,
    pub order_by: Option<String>,
}

/// A filter that a library may offer.
pub struct FilterDef {
    pub label: String,
    pub sql: SqlDef,
}

/// A grouper: how albums are grouped into facet values.
pub struct GrouperDef {
    pub label: String,
    pub sql: SqlDef,
    pub strict: bool,
    pub index: Option<bool>,
    pub count: Option<bool>,
}

/// An order albums may be listed in.
pub struct OrderDef {
    pub label: String,
    pub sql: SqlDef,
    pub strict: bool,
}

/// A library: a set of albums with the filters, groupers and orders it
/// offers.
pub struct LibraryDef {
    pub label: String,
    pub sql: Option<SqlDef>,
    pub filters: Option<Vec<String>>,
    pub strict: bool,
    pub groupers: Vec<String>,
    pub orders: Vec<String>,
    pub allowed_filters: Vec<String>,
    pub allowed_groupers: Vec<String>,
    pub allowed_orders: Vec<String>,
}

/// A shelf: a hand-kept or computed list of albums.
pub struct ShelfDef {
    pub label: String,
    pub sql: Option<SqlDef>,
    pub file: Option<String>,
}

/// The definitions of `logic.toml`, each table in the order it was written.
pub struct LogicManifest {
    pub filters: Vec<(String, FilterDef)>,
    pub groupers: Vec<(String, GrouperDef)>,
    pub orders: Vec<(String, OrderDef)>,
    pub libraries: Vec<(String, LibraryDef)>,
    pub shelves: Vec<(String, ShelfDef)>,
    pub filters_order: Vec<String>,
    pub groupers_order: Vec<String>,
    pub orders_order: Vec<String>,
    pub libraries_order: Vec<String>,
    pub shelves_order: Vec<String>,
}

/// The keys of a table, in order.
pub open spec fn keys_of<T>(v: Seq<(String, T)>) -> Seq<Seq<char>> {
    v.map_values(|e: (String, T)| e.0@)
}

/// Whether some grouper named `k` is not strict (offered by every library
/// that is not strict).
pub open spec fn global_grouper(gs: Seq<(String, GrouperDef)>, k: Seq<char>) -> bool {
    exists|i: int| 0 <= i < gs.len() && gs[i].0@ == k && !gs[i].1.strict
}

/// Whether some order named `k` is not strict.
pub open spec fn global_order(os: Seq<(String, OrderDef)>, k: Seq<char>) -> bool {
    exists|i: int| 0 <= i < os.len() && os[i].0@ == k && !os[i].1.strict
}

/// The filters a library offers: those it lists that exist, in its order.
pub open spec fn allowed_filters_of(lib: LibraryDef, fs: Seq<(String, FilterDef)>) -> Seq<Seq<char>> {
    match lib.filters {
        Some(l) => strs(l@).filter(|f: Seq<char>| keys_of(fs).contains(f)),
        None => Seq::empty(),
    }
}

/// The groupers a library offers, in the manifest's order: those it lists,
/// and the global ones unless it is strict.
pub open spec fn allowed_groupers_of(lib: LibraryDef, gs: Seq<(String, GrouperDef)>) -> Seq<Seq<char>> {
    keys_of(gs).filter(
        |k: Seq<char>| strs(lib.groupers@).contains(k) || (!lib.strict && global_grouper(gs, k)),
    )
}

/// The orders a library offers, in the manifest's order.
pub open spec fn allowed_orders_of(lib: LibraryDef, os: Seq<(String, OrderDef)>) -> Seq<Seq<char>> {
    keys_of(os).filter(|k: Seq<char>| strs(lib.orders@).contains(k) || (!lib.strict && global_order(os, k)))
}

/// A grouper once normalised: `index` settled (default `false`) and
/// `count` defaulting to the opposite of `index`.
pub open spec fn grouper_normal(old_g: GrouperDef, g: GrouperDef) -> bool {
    let idx = match old_g.index {
        Some(b) => b,
        None => false,
    };
    &&& g.label@ == old_g.label@
    &&& g.sql == old_g.sql
    &&& g.strict == old_g.strict
    &&& g.index == Some(idx)
    &&& g.count == match old_g.count {
        Some(c) => Some(c),
        None => Some(!idx),
    }
}

fn keys_in<T>(v: &Vec<(String, T)>) -> (r: Vec<String>)
    ensures
        strs(r@) == keys_of(v@),
{
    let mut r: Vec<String> = Vec::new();
    let mut i: usize = 0;
    while i < v.len()
        invariant
            0 <= i <= v@.len(),
            strs(r@) == keys_of(v@).take(i as int),
        decreases v@.len() - i,
    {
        let ghost before = strs(r@);
        let k = v[i].0.clone();
        r.push(k);
        assert(strs(r@) =~= before.push(keys_of(v@)[i as int]));
        assert(keys_of(v@).take(i + 1) =~= keys_of(v@).take(i as int).push(keys_of(v@)[i as int]));
        i = i + 1;
    }
    assert(keys_of(v@).take(i as int) =~= keys_of(v@));
    r
}

fn listed(v: &Vec<String>, k: &str) -> (r: bool)
    ensures
        r == strs(v@).contains(k@),
{
    let mut i: usize = 0;
    while i < v.len()
        invariant
            0 <= i <= v@.len(),
            forall|m: int| 0 <= m < i ==> v@[m]@ != k@,
        decreases v@.len() - i,
    {
        if str_eq(v[i].as_str(), k) {
            assert(strs(v@)[i as int] == k@);
            return true;
        }
        i = i + 1;
    }
    assert(!strs(v@).contains(k@)) by {
        if strs(v@).contains(k@) {
            let m = choose|m: int| 0 <= m < strs(v@).len() && strs(v@)[m] == k@;
            assert(v@[m]@ == k@);
        }
    }
    false
}

fn is_global_grouper(gs: &Vec<(String, GrouperDef)>, k: &str) -> (r: bool)
    ensures
        r == global_grouper(gs@, k@),
{
    let mut i: usize = 0;
    while i < gs.len()
        invariant
            0 <= i <= gs@.len(),
            forall|m: int| 0 <= m < i ==> !(gs@[m].0@ == k@ && !gs@[m].1.strict),
        decreases gs@.len() - i,
    {
        if str_eq(gs[i].0.as_str(), k) && !gs[i].1.strict {
            return true;
        }
        i = i + 1;
    }
    false
}

fn is_global_order(os: &Vec<(String, OrderDef)>, k: &str) -> (r: bool)
    ensures
        r == global_order(os@, k@),
{
    let mut i: usize = 0;
    while i < os.len()
        invariant
            0 <= i <= os@.len(),
            forall|m: int| 0 <= m < i ==> !(os@[m].0@ == k@ && !os@[m].1.strict),
        decreases os@.len() - i,
    {
        if str_eq(os[i].0.as_str(), k) && !os[i].1.strict {
            return true;
        }
        i = i + 1;
    }
    false
}

impl LogicManifest {
    /// Records each table's order, settles each grouper's `index` and
    /// `count`, and works out which filters, groupers and orders each
    /// library offers.
    pub fn normalize(&mut self)
        ensures
            strs(final(self).filters_order@) == keys_of(old(self).filters@),
            strs(final(self).groupers_order@) == keys_of(old(self).groupers@),
            strs(final(self).orders_order@) == keys_of(old(self).orders@),
            strs(final(self).libraries_order@) == keys_of(old(self).libraries@),
            strs(final(self).shelves_order@) == keys_of(old(self).shelves@),
            final(self).filters@ == old(self).filters@,
            final(self).orders@ == old(self).orders@,
            final(self).shelves@ == old(self).shelves@,
            keys_of(final(self).groupers@) == keys_of(old(self).groupers@),
            forall|i: int|
                0 <= i < old(self).groupers@.len() ==> grouper_normal(
                    #[trigger] old(self).groupers@[i].1,
                    final(self).groupers@[i].1,
                ),
            keys_of(final(self).libraries@) == keys_of(old(self).libraries@),
            forall|i: int|
                0 <= i < old(self).libraries@.len() ==> {
                    let o = #[trigger] old(self).libraries@[i].1;
                    let n = final(self).libraries@[i].1;
                    &&& n.label@ == o.label@
                    &&& n.sql == o.sql
                    &&& n.strict == o.strict
                    &&& n.filters == o.filters
                    &&& n.groupers@ == o.groupers@
                    &&& n.orders@ == o.orders@
                    &&& strs(n.allowed_filters@) == allowed_filters_of(o, old(self).filters@)
                    &&& strs(n.allowed_groupers@) == allowed_groupers_of(o, old(self).groupers@)
                    &&& strs(n.allowed_orders@) == allowed_orders_of(o, old(self).orders@)
                },
    {
        self.filters_order = keys_in(&self.filters);
        self.groupers_order = keys_in(&self.groupers);
        self.orders_order = keys_in(&self.orders);
        self.libraries_order = keys_in(&self.libraries);
        self.shelves_order = keys_in(&self.shelves);
        let ghost og = self.groupers@;
        let ghost ol = self.libraries@;
        let mut gs: Vec<(String, GrouperDef)> = Vec::new();
        std::mem::swap(&mut gs, &mut self.groupers);
        let mut done: Vec<(String, GrouperDef)> = Vec::new();
        let ghost mut i: int = 0;
        while gs.len() > 0
            invariant
                0 <= i <= og.len(),
                gs@ == og.skip(i),
                done@.len() == i,
                keys_of(done@) == keys_of(og).take(i),
                forall|m: int| 0 <= m < i ==> grouper_normal(#[trigger] og[m].1, done@[m].1),
                og == old(self).groupers@,
                ol == old(self).libraries@,
                self.filters@ == old(self).filters@,
                self.orders@ == old(self).orders@,
                self.shelves@ == old(self).shelves@,
                strs(self.filters_order@) == keys_of(old(self).filters@),
                strs(self.groupers_order@) == keys_of(old(self).groupers@),
                strs(self.orders_order@) == keys_of(old(self).orders@),
                strs(self.libraries_order@) == keys_of(old(self).libraries@),
                strs(self.shelves_order@) == keys_of(old(self).shelves@),
            decreases gs@.len(),
        {
            assert(gs@.len() == og.len() - i);
            let (k, mut g) = gs.remove(0);
            assert(gs@ =~= og.skip(i + 1));
            assert(og[i] == (k, g));
            let idx = match g.index {
                Some(b) => b,
                None => false,
            };
            g.index = Some(idx);
            if g.count.is_none() {
                g.count = Some(!idx);
            }
            let ghost before = keys_of(done@);
            done.push((k, g));
            proof {
                assert(keys_of(done@) =~= before.push(og[i].0@));
                assert(keys_of(og).take(i + 1) =~= keys_of(og).take(i).push(og[i].0@));
                i = i + 1;
            }
        }
        assert(keys_of(og).take(i) =~= keys_of(og));
        self.groupers = done;
        assert forall|m: int| 0 <= m < og.len() implies (#[trigger] self.groupers@[m]).1.strict == og[m].1.strict by {
            assert(grouper_normal(og[m].1, self.groupers@[m].1));
        }
        let mut ls: Vec<(String, LibraryDef)> = Vec::new();
        std::mem::swap(&mut ls, &mut self.libraries);
        let mut out: Vec<(String, LibraryDef)> = Vec::new();
        let ghost mut j: int = 0;
        while ls.len() > 0
            invariant
                0 <= j <= ol.len(),
                ls@ == ol.skip(j),
                out@.len() == j,
                keys_of(out@) == keys_of(ol).take(j),
                forall|m: int|
                    0 <= m < j ==> {
                        let o = #[trigger] ol[m].1;
                        let n = out@[m].1;
                        &&& n.label@ == o.label@
                        &&& n.sql == o.sql
                        &&& n.strict == o.strict
                        &&& n.filters == o.filters
                        &&& n.groupers@ == o.groupers@
                        &&& n.orders@ == o.orders@
                        &&& strs(n.allowed_filters@) == allowed_filters_of(o, self.filters@)
                        &&& strs(n.allowed_groupers@) == allowed_groupers_of(o, og)
                        &&& strs(n.allowed_orders@) == allowed_orders_of(o, self.orders@)
                    },
                og == old(self).groupers@,
                ol == old(self).libraries@,
                self.filters@ == old(self).filters@,
                self.orders@ == old(self).orders@,
                self.shelves@ == old(self).shelves@,
                self.groupers@.len() == og.len(),
                keys_of(self.groupers@) == keys_of(og),
                forall|m: int| 0 <= m < og.len() ==> (#[trigger] self.groupers@[m]).1.strict == og[m].1.strict,
                forall|m: int| 0 <= m < og.len() ==> grouper_normal(#[trigger] og[m].1, self.groupers@[m].1),
                strs(self.filters_order@) == keys_of(old(self).filters@),
                strs(self.groupers_order@) == keys_of(old(self).groupers@),
                strs(self.orders_order@) == keys_of(old(self).orders@),
                strs(self.libraries_order@) == keys_of(old(self).libraries@),
                strs(self.shelves_order@) == keys_of(old(self).shelves@),
            decreases ls@.len(),
        {
            assert(ls@.len() == ol.len() - j);
            let (k, mut lib) = ls.remove(0);
            assert(ls@ =~= ol.skip(j + 1));
            assert(ol[j] == (k, lib));
            let ghost o = lib;
            lib.allowed_filters = self.allowed_filters_for(&lib);
            lib.allowed_groupers = LogicManifest::allowed_groupers_for(&lib, &self.groupers, Ghost(og));
            lib.allowed_orders = self.allowed_orders_for(&lib);
            let ghost before = keys_of(out@);
            out.push((k, lib));
            proof {
                assert(keys_of(out@) =~= before.push(ol[j].0@));
                assert(keys_of(ol).take(j + 1) =~= keys_of(ol).take(j).push(ol[j].0@));
                j = j + 1;
            }
        }
        assert(keys_of(ol).take(j) =~= keys_of(ol));
        self.libraries = out;
    }

    fn allowed_filters_for(&self, lib: &LibraryDef) -> (r: Vec<String>)
        ensures
            strs(r@) == allowed_filters_of(*lib, self.filters@),
    {
        let mut r: Vec<String> = Vec::new();
        match &lib.filters {
            Some(l) => {
                let keys = keys_in(&self.filters);
                let ghost p = |f: Seq<char>| keys_of(self.filters@).contains(f);
                let mut i: usize = 0;
                while i < l.len()
                    invariant
                        0 <= i <= l@.len(),
                        strs(keys@) == keys_of(self.filters@),
                        p == (|f: Seq<char>| keys_of(self.filters@).contains(f)),
                        strs(r@) == strs(l@).take(i as int).filter(p),
                    decreases l@.len() - i,
                {
                    let ghost before = strs(r@);
                    proof {
                        reveal(Seq::filter);
                        assert(strs(l@).take(i + 1).drop_last() =~= strs(l@).take(i as int));
                        assert(strs(l@).take(i + 1).last() == l@[i as int]@);
                    }
                    if listed(&keys, l[i].as_str()) {
                        r.push(l[i].clone());
                        assert(strs(r@) =~= before.push(l@[i as int]@));
                    }
                    i = i + 1;
                }
                assert(strs(l@).take(i as int) =~= strs(l@));
            },
            None => {
                assert(strs(r@) =~= Seq::<Seq<char>>::empty());
            },
        }
        r
    }

    fn allowed_groupers_for(lib: &LibraryDef, gs: &Vec<(String, GrouperDef)>, Ghost(og): Ghost<Seq<(String, GrouperDef)>>) -> (r: Vec<String>)
        requires
            keys_of(gs@) == keys_of(og),
            forall|i: int| 0 <= i < og.len() ==> (#[trigger] gs@[i]).1.strict == og[i].1.strict,
            gs@.len() == og.len(),
        ensures
            strs(r@) == allowed_groupers_of(*lib, og),
    {
        assert forall|k: Seq<char>| global_grouper(gs@, k) == global_grouper(og, k) by {
            if global_grouper(og, k) {
                let i = choose|i: int| 0 <= i < og.len() && og[i].0@ == k && !og[i].1.strict;
                assert(keys_of(gs@)[i] == keys_of(og)[i]);
            }
            if global_grouper(gs@, k) {
                let i = choose|i: int| 0 <= i < gs@.len() && gs@[i].0@ == k && !gs@[i].1.strict;
                assert(keys_of(gs@)[i] == keys_of(og)[i]);
            }
        }
        let ghost p = |k: Seq<char>| strs(lib.groupers@).contains(k) || (!lib.strict && global_grouper(og, k));
        let ghost ks = keys_of(og);
        let mut r: Vec<String> = Vec::new();
        let mut i: usize = 0;
        while i < gs.len()
            invariant
                0 <= i <= gs@.len(),
                ks == keys_of(og),
                keys_of(gs@) == ks,
                forall|k: Seq<char>| global_grouper(gs@, k) == global_grouper(og, k),
                p == (|k: Seq<char>| strs(lib.groupers@).contains(k) || (!lib.strict && global_grouper(og, k))),
                strs(r@) == ks.take(i as int).filter(p),
            decreases gs@.len() - i,
        {
            let ghost before = strs(r@);
            let k = &gs[i].0;
            proof {
                reveal(Seq::filter);
                assert(ks.take(i + 1).drop_last() =~= ks.take(i as int));
                assert(ks[i as int] == keys_of(gs@)[i as int]);
                assert(ks.take(i + 1).last() == k@);
            }
            if listed(&lib.groupers, k.as_str()) || (!lib.strict && is_global_grouper(gs, k.as_str())) {
                r.push(k.clone());
                assert(strs(r@) =~= before.push(k@));
            }
            i = i + 1;
        }
        assert(ks.take(i as int) =~= ks);
        r
    }

    fn allowed_orders_for(&self, lib: &LibraryDef) -> (r: Vec<String>)
        ensures
            strs(r@) == allowed_orders_of(*lib, self.orders@),
    {
        let ghost p = |k: Seq<char>| strs(lib.orders@).contains(k) || (!lib.strict && global_order(self.orders@, k));
        let ghost ks = keys_of(self.orders@);
        let mut r: Vec<String> = Vec::new();
        let mut i: usize = 0;
        while i < self.orders.len()
            invariant
                0 <= i <= self.orders@.len(),
                ks == keys_of(self.orders@),
                p == (|k: Seq<char>| strs(lib.orders@).contains(k) || (!lib.strict && global_order(self.orders@, k))),
                strs(r@) == ks.take(i as int).filter(p),
            decreases self.orders@.len() - i,
        {
            let ghost before = strs(r@);
            let k = &self.orders[i].0;
            proof {
                reveal(Seq::filter);
                assert(ks.take(i + 1).drop_last() =~= ks.take(i as int));
                assert(ks.take(i + 1).last() == k@);
            }
            if listed(&lib.orders, k.as_str()) || (!lib.strict && is_global_order(&self.orders, k.as_str())) {
                r.push(k.clone());
                assert(strs(r@) =~= before.push(k@));
            }
            i = i + 1;
        }
        assert(ks.take(i as int) =~= ks);
        r
    }
}

} // verus!
