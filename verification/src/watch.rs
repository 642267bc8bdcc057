//! Sorting file-system events into what they ask the server to reload.
use vstd::prelude::*;
use crate::text::{contains_text, chars_of, contains_chars, str_eq};
use crate::manifest::strs;

verus! {

/// The last component of a path (`Path::file_name`), as text.
pub uninterp spec fn path_file_name(p: Seq<char>) -> Option<Seq<char>>;

/// Whether a path starts with the components of `base` (`Path::starts_with`).
pub uninterp spec fn path_has_prefix(p: Seq<char>, base: Seq<char>) -> bool;

/// `Path::file_name`, written back as text: the final component unless the
/// path ends in `..` or has none.  How components are read is not written
/// out here; the result is named `path_file_name` of the path.
#[verifier::external_body]
pub(crate) fn file_name_of(p: &str) -> (r: Option<String>)
    ensures
        match r {
            Some(n) => path_file_name(p@) == Some(n@),
            None => path_file_name(p@) is None,
        },
{
    std::path::Path::new(p).file_name().map(|n| n.to_string_lossy().to_string())
}

/// `Path::starts_with`: whether `base`'s components begin `p`'s.  How
/// components are read is not written out here; the answer is named
/// `path_has_prefix` of the two paths.
#[verifier::external_body]
pub(crate) fn has_path_prefix(p: &str, base: &str) -> (r: bool)
    ensures
        r == path_has_prefix(p@, base@),
{
    std::path::Path::new(p).starts_with(base)
}

/// Whether two paths have the same components (`Path` equality): each
/// starts with the other.
pub open spec fn same_path(a: Seq<char>, b: Seq<char>) -> bool {
    path_has_prefix(a, b) && path_has_prefix(b, a)
}

fn same_path_exec(a: &str, b: &str) -> (r: bool)
    ensures
        r == same_path(a@, b@),
{
    has_path_prefix(a, b) && has_path_prefix(b, a)
}

/// Whether one of `paths` is the same path as `p`.
pub open spec fn has_same_path(paths: Seq<Seq<char>>, p: Seq<char>) -> bool {
    exists|k: int| 0 <= k < paths.len() && same_path(p, #[trigger] paths[k])
}

/// What a batch of file changes asks to reload.
pub struct ChangeFlags {
    /// The main configuration file changed.
    pub config: bool,
    /// A `logic.toml` changed.
    pub logic: bool,
    /// A watched shelf file changed.
    pub shelf: bool,
    /// Interfaces whose configuration changed, each once.
    pub interfaces_config: Vec<String>,
    /// Interfaces whose assets changed, each once.
    pub interfaces_asset: Vec<String>,
}

/// Paths under tool folders are ignored.
pub open spec fn ignored(p: Seq<char>) -> bool {
    contains_text(p, "node_modules"@) || contains_text(p, ".svelte-kit"@) || contains_text(p, ".git"@)
}

/// Whether `p` is one of the configuration files watched.
pub open spec fn is_watched_config(p: Seq<char>, configs: Seq<(Seq<char>, Seq<char>)>) -> bool
    decreases configs.len(),
{
    configs.len() > 0 && (is_watched_config(p, configs.drop_last()) || same_path(p, configs.last().1))
}

/// Interfaces whose watched configuration file is `p`.
pub open spec fn config_file_names(p: Seq<char>, configs: Seq<(Seq<char>, Seq<char>)>) -> Set<Seq<char>>
    decreases configs.len(),
{
    if configs.len() == 0 {
        Set::empty()
    } else {
        let rest = config_file_names(p, configs.drop_last());
        if same_path(p, configs.last().1) {
            rest.insert(configs.last().0)
        } else {
            rest
        }
    }
}

/// Interfaces whose folder holds `p`, when `hit` says the change counts.
pub open spec fn folder_names(p: Seq<char>, dirs: Seq<(Seq<char>, Seq<char>)>, hit: bool) -> Set<Seq<char>>
    decreases dirs.len(),
{
    if dirs.len() == 0 {
        Set::empty()
    } else {
        let rest = folder_names(p, dirs.drop_last(), hit);
        if hit && path_has_prefix(p, dirs.last().1) {
            rest.insert(dirs.last().0)
        } else {
            rest
        }
    }
}

/// Whether a path is an interface's `config.toml`.
pub open spec fn is_config_toml(p: Seq<char>) -> bool {
    path_file_name(p) == Some("config.toml"@)
}

/// The interfaces whose configuration a changed path marks: its
/// configuration file, or a `config.toml` in its folder.
pub open spec fn path_config_names(p: Seq<char>, dirs: Seq<(Seq<char>, Seq<char>)>, configs: Seq<(Seq<char>, Seq<char>)>) -> Set<Seq<char>> {
    config_file_names(p, configs).union(folder_names(p, dirs, is_config_toml(p)))
}

/// The interfaces whose assets a changed path marks: it is in the folder,
/// not a `config.toml`, and no watched configuration file.
pub open spec fn path_asset_names(p: Seq<char>, dirs: Seq<(Seq<char>, Seq<char>)>, configs: Seq<(Seq<char>, Seq<char>)>) -> Set<Seq<char>> {
    folder_names(p, dirs, !is_config_toml(p) && !is_watched_config(p, configs))
}

/// What the changed paths raise, path by path; ignored paths raise nothing.
pub open spec fn flags_of(
    paths: Seq<Seq<char>>,
    config_path: Seq<char>,
    shelves: Seq<Seq<char>>,
    dirs: Seq<(Seq<char>, Seq<char>)>,
    configs: Seq<(Seq<char>, Seq<char>)>,
) -> (bool, bool, bool, Set<Seq<char>>, Set<Seq<char>>)
    decreases paths.len(),
{
    if paths.len() == 0 {
        (false, false, false, Set::empty(), Set::empty())
    } else {
        let r = flags_of(paths.drop_last(), config_path, shelves, dirs, configs);
        let p = paths.last();
        if ignored(p) {
            r
        } else {
            (
                r.0 || same_path(p, config_path),
                r.1 || path_file_name(p) == Some("logic.toml"@),
                r.2 || has_same_path(shelves, p),
                r.3.union(path_config_names(p, dirs, configs)),
                r.4.union(path_asset_names(p, dirs, configs)),
            )
        }
    }
}

/// The flags as values: the name lists as sets, each list without repeats.
pub open spec fn flags_view(f: ChangeFlags) -> (bool, bool, bool, Set<Seq<char>>, Set<Seq<char>>) {
    (f.config, f.logic, f.shelf, strs(f.interfaces_config@).to_set(), strs(f.interfaces_asset@).to_set())
}

/// The name lists of the flags hold no name twice.
pub open spec fn flags_unique(f: ChangeFlags) -> bool {
    strs(f.interfaces_config@).no_duplicates() && strs(f.interfaces_asset@).no_duplicates()
}

fn add_name(v: &mut Vec<String>, n: &String)
    requires
        strs(old(v)@).no_duplicates(),
    ensures
        strs(final(v)@).no_duplicates(),
        strs(final(v)@).to_set() == strs(old(v)@).to_set().insert(n@),
{
    let ghost before = strs(v@);
    let mut i: usize = 0;
    while i < v.len()
        invariant
            0 <= i <= v@.len(),
            before == strs(v@),
            before.no_duplicates(),
            forall|m: int| 0 <= m < i ==> v@[m]@ != n@,
        decreases v@.len() - i,
    {
        if str_eq(v[i].as_str(), n.as_str()) {
            assert(before[i as int] == n@);
            assert(before.to_set() =~= before.to_set().insert(n@));
            return;
        }
        i = i + 1;
    }
    assert(!before.contains(n@)) by {
        if before.contains(n@) {
            let m = choose|m: int| 0 <= m < before.len() && before[m] == n@;
            assert(v@[m]@ == n@);
        }
    }
    v.push(n.clone());
    assert(strs(v@) =~= before.push(n@));
    proof {
        before.lemma_push_to_set_commute(n@);
    }
    assert(strs(v@).no_duplicates()) by {
        assert forall|a: int, b: int| 0 <= a < b < strs(v@).len() implies strs(v@)[a] != strs(v@)[b] by {
            if b == before.len() {
                assert(before.contains(before[a]));
            } else {
                assert(before[a] != before[b]);
            }
        }
    }
}

fn text_has(hay: &str, needle: &str) -> (r: bool)
    ensures
        r == contains_text(hay@, needle@),
{
    let h = chars_of(hay);
    let n = chars_of(needle);
    contains_chars(h.as_slice(), n.as_slice())
}

fn contains_path(v: &Vec<String>, p: &str) -> (r: bool)
    ensures
        r == has_same_path(strs(v@), p@),
{
    let mut k: usize = 0;
    while k < v.len()
        invariant
            0 <= k <= v@.len(),
            forall|m: int| 0 <= m < k ==> !same_path(p@, #[trigger] v@[m]@),
        decreases v@.len() - k,
    {
        if same_path_exec(p, v[k].as_str()) {
            assert(strs(v@)[k as int] == v@[k as int]@);
            return true;
        }
        k = k + 1;
    }
    assert(!has_same_path(strs(v@), p@)) by {
        if has_same_path(strs(v@), p@) {
            let m = choose|m: int| 0 <= m < strs(v@).len() && same_path(p@, #[trigger] strs(v@)[m]);
            assert(strs(v@)[m] == v@[m]@);
        }
    }
    false
}

fn add_config_file_names(names: &mut Vec<String>, p: &str, configs: &Vec<(String, String)>) -> (watched: bool)
    requires
        strs(old(names)@).no_duplicates(),
    ensures
        strs(final(names)@).no_duplicates(),
        strs(final(names)@).to_set() == strs(old(names)@).to_set().union(
            config_file_names(p@, configs@.map_values(|e: (String, String)| (e.0@, e.1@))),
        ),
        watched == is_watched_config(p@, configs@.map_values(|e: (String, String)| (e.0@, e.1@))),
{
    let ghost cs = configs@.map_values(|e: (String, String)| (e.0@, e.1@));
    let ghost base = strs(names@).to_set();
    let mut watched = false;
    let mut j: usize = 0;
    assert(base.union(config_file_names(p@, cs.take(0))) =~= base);
    while j < configs.len()
        invariant
            0 <= j <= configs@.len(),
            cs == configs@.map_values(|e: (String, String)| (e.0@, e.1@)),
            strs(names@).no_duplicates(),
            strs(names@).to_set() == base.union(config_file_names(p@, cs.take(j as int))),
            watched == is_watched_config(p@, cs.take(j as int)),
        decreases configs@.len() - j,
    {
        proof {
            assert(cs.take(j + 1).drop_last() =~= cs.take(j as int));
            assert(cs.take(j + 1).last() == cs[j as int]);
        }
        if same_path_exec(p, configs[j].1.as_str()) {
            add_name(names, &configs[j].0);
            watched = true;
        }
        j = j + 1;
        assert(strs(names@).to_set() =~= base.union(config_file_names(p@, cs.take(j as int))));
    }
    assert(cs.take(j as int) =~= cs);
    watched
}

fn add_folder_names(names: &mut Vec<String>, p: &str, dirs: &Vec<(String, String)>, hit: bool)
    requires
        strs(old(names)@).no_duplicates(),
    ensures
        strs(final(names)@).no_duplicates(),
        strs(final(names)@).to_set() == strs(old(names)@).to_set().union(
            folder_names(p@, dirs@.map_values(|e: (String, String)| (e.0@, e.1@)), hit),
        ),
{
    let ghost ds = dirs@.map_values(|e: (String, String)| (e.0@, e.1@));
    let ghost base = strs(names@).to_set();
    let mut d: usize = 0;
    assert(base.union(folder_names(p@, ds.take(0), hit)) =~= base);
    while d < dirs.len()
        invariant
            0 <= d <= dirs@.len(),
            ds == dirs@.map_values(|e: (String, String)| (e.0@, e.1@)),
            strs(names@).no_duplicates(),
            strs(names@).to_set() == base.union(folder_names(p@, ds.take(d as int), hit)),
        decreases dirs@.len() - d,
    {
        proof {
            assert(ds.take(d + 1).drop_last() =~= ds.take(d as int));
            assert(ds.take(d + 1).last() == ds[d as int]);
        }
        if hit && has_path_prefix(p, dirs[d].1.as_str()) {
            add_name(names, &dirs[d].0);
        }
        d = d + 1;
        assert(strs(names@).to_set() =~= base.union(folder_names(p@, ds.take(d as int), hit)));
    }
    assert(ds.take(d as int) =~= ds);
}

/// Sorts changed paths (already made canonical) into the reloads they ask
/// for.
pub fn classify_events(
    paths: &Vec<String>,
    canon_config_path: &str,
    watched_shelves: &Vec<String>,
    watched_interfaces: &Vec<(String, String)>,
    watched_interface_configs: &Vec<(String, String)>,
) -> (r: ChangeFlags)
    ensures
        flags_unique(r),
        flags_view(r) == flags_of(
            strs(paths@),
            canon_config_path@,
            strs(watched_shelves@),
            watched_interfaces@.map_values(|e: (String, String)| (e.0@, e.1@)),
            watched_interface_configs@.map_values(|e: (String, String)| (e.0@, e.1@)),
        ),
{
    let ghost ps = strs(paths@);
    let ghost sh = strs(watched_shelves@);
    let ghost ds = watched_interfaces@.map_values(|e: (String, String)| (e.0@, e.1@));
    let ghost cs = watched_interface_configs@.map_values(|e: (String, String)| (e.0@, e.1@));
    let mut config = false;
    let mut logic = false;
    let mut shelf = false;
    let mut cfgs: Vec<String> = Vec::new();
    let mut assets: Vec<String> = Vec::new();
    proof {
        reveal_strlit("logic.toml");
        reveal_strlit("config.toml");
        assert(strs(cfgs@) =~= Seq::<Seq<char>>::empty());
        assert(strs(assets@) =~= Seq::<Seq<char>>::empty());
        assert(ps.take(0) =~= Seq::<Seq<char>>::empty());
        assert(Seq::<Seq<char>>::empty().to_set() =~= Set::<Seq<char>>::empty());
    }
    let mut i: usize = 0;
    while i < paths.len()
        invariant
            0 <= i <= paths@.len(),
            ps == strs(paths@),
            sh == strs(watched_shelves@),
            ds == watched_interfaces@.map_values(|e: (String, String)| (e.0@, e.1@)),
            cs == watched_interface_configs@.map_values(|e: (String, String)| (e.0@, e.1@)),
            strs(cfgs@).no_duplicates(),
            strs(assets@).no_duplicates(),
            (config, logic, shelf, strs(cfgs@).to_set(), strs(assets@).to_set()) == flags_of(
                ps.take(i as int),
                canon_config_path@,
                sh,
                ds,
                cs,
            ),
        decreases paths@.len() - i,
    {
        let p = &paths[i];
        proof {
            assert(ps[i as int] == p@);
            assert(ps.take(i + 1).drop_last() =~= ps.take(i as int));
            assert(ps.take(i + 1).last() == p@);
        }
        if !(text_has(p.as_str(), "node_modules") || text_has(p.as_str(), ".svelte-kit") || text_has(p.as_str(), ".git")) {
            let ghost c0 = strs(cfgs@).to_set();
            let ghost a0 = strs(assets@).to_set();
            if same_path_exec(p.as_str(), canon_config_path) {
                config = true;
            }
            if contains_path(watched_shelves, p.as_str()) {
                shelf = true;
            }
            match file_name_of(p.as_str()) {
                Some(n) => {
                    if str_eq(n.as_str(), "logic.toml") {
                        logic = true;
                    }
                },
                None => {},
            }
            let watched = add_config_file_names(&mut cfgs, p.as_str(), watched_interface_configs);
            let is_config_file = match file_name_of(p.as_str()) {
                Some(n) => str_eq(n.as_str(), "config.toml"),
                None => false,
            };
            add_folder_names(&mut cfgs, p.as_str(), watched_interfaces, is_config_file);
            add_folder_names(&mut assets, p.as_str(), watched_interfaces, !is_config_file && !watched);
            proof {
                assert(strs(cfgs@).to_set() =~= c0.union(path_config_names(p@, ds, cs)));
                assert(strs(assets@).to_set() =~= a0.union(path_asset_names(p@, ds, cs)));
            }
        }
        i = i + 1;
    }
    assert(ps.take(i as int) =~= ps);
    ChangeFlags { config, logic, shelf, interfaces_config: cfgs, interfaces_asset: assets }
}

} // verus!
