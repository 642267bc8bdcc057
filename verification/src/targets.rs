//! Choosing the albums a command works on, and the decisions around running
//! an action on them: which source of ids the flags select, the ids lock
//! files name, the environment file's entries, the action's program and
//! the payload it is handed.
use vstd::prelude::*;
use crate::json::{Json, JsonV, jpath2, jstr};
use crate::jtext::{json_parse, parse_json};
use crate::paths::{join_path, join_path_str};
use crate::text::{chars_of, join, join_chars, map_char, map_char_chars, split, split_chars, str_eq, str_to_string, string_of, trim, trim_chars};
use crate::library::{lock_name, lock_name_str};

verus! {

/// Which albums a command works on.
pub struct TargetFlags {
    pub playing: bool,
    pub id: Option<String>,
    pub query: Option<String>,
    pub directory: Option<String>,
    pub recursive: Option<String>,
    pub library: bool,
}

/// Where the ids of the target albums come from.
pub enum TargetSource {
    /// The server answers the query.
    Query(String),
    /// The one id given.
    Id(String),
    /// The album that is playing now.
    Playing,
    /// Every lock file under the library.
    Library,
    /// Every lock file under a folder.
    Recursive(String),
    /// The lock file of one folder.
    Directory(String),
}

/// The source the flags select: the first of query, id, playing, library
/// and recursive that is set; else the directory given; with no flag at all
/// the current folder.
pub open spec fn source_matches(t: TargetFlags, r: TargetSource) -> bool {
    match t.query {
        Some(q) => r matches TargetSource::Query(x) && x@ == q@,
        None => match t.id {
            Some(i) => r matches TargetSource::Id(x) && x@ == i@,
            None => if t.playing {
                r is Playing
            } else if t.library {
                r is Library
            } else {
                match t.recursive {
                    Some(d) => r matches TargetSource::Recursive(x) && x@ == d@,
                    None => match t.directory {
                        Some(d) => r matches TargetSource::Directory(x) && x@ == d@,
                        None => r matches TargetSource::Directory(x) && x@ == "."@,
                    },
                }
            },
        },
    }
}

fn opt_clone(o: &Option<String>) -> (r: Option<String>)
    ensures
        match (o, r) {
            (Some(a), Some(b)) => a@ == b@,
            (None, None) => true,
            _ => false,
        },
{
    match o {
        Some(s) => Some(s.clone()),
        None => None,
    }
}

/// The source of the target ids that the flags select.
pub fn target_source(t: &TargetFlags) -> (r: TargetSource)
    ensures
        source_matches(*t, r),
{
    let default_dir = if !t.playing && t.id.is_none() && t.query.is_none() && t.directory.is_none()
        && t.recursive.is_none() && !t.library {
        Some(str_to_string("."))
    } else {
        opt_clone(&t.directory)
    };
    if let Some(q) = &t.query {
        TargetSource::Query(q.clone())
    } else if let Some(i) = &t.id {
        TargetSource::Id(i.clone())
    } else if t.playing {
        TargetSource::Playing
    } else if t.library {
        TargetSource::Library
    } else if let Some(d) = &t.recursive {
        TargetSource::Recursive(d.clone())
    } else {
        match default_dir {
            Some(d) => TargetSource::Directory(d),
            None => {
                assert(false);
                TargetSource::Library
            },
        }
    }
}

/// The id a lock file names under `album.id`.
pub open spec fn lock_id(lock: JsonV) -> Option<Seq<char>> {
    jstr(jpath2(lock, "album"@, "id"@))
}

/// The album id written in a lock file (`/album/id`), if it is a string.
pub fn lock_album_id(lock: &Json) -> (r: Option<String>)
    ensures
        match r {
            Some(s) => lock_id(lock@) == Some(s@),
            None => lock_id(lock@) is None,
        },
{
    match lock.get("album") {
        Some(a) => match a.get("id") {
            Some(v) => match v.as_str() {
                Some(s) => Some(s.clone()),
                None => None,
            },
            None => None,
        },
        None => None,
    }
}

/// The ids that the lock files read name, in order; a file that could not
/// be read or parsed (`None`), or that names no id, gives none.
pub open spec fn ids_of(locks: Seq<Option<JsonV>>) -> Seq<Seq<char>>
    decreases locks.len(),
{
    if locks.len() == 0 {
        Seq::empty()
    } else {
        let prev = ids_of(locks.drop_last());
        match locks.last() {
            Some(l) => match lock_id(l) {
                Some(i) => prev.push(i),
                None => prev,
            },
            None => prev,
        }
    }
}

/// The lock files' texts read as JSON: `None` for a file that could not be
/// read (`None`) or whose text is not JSON.
pub open spec fn parsed_locks(texts: Seq<Option<Seq<char>>>) -> Seq<Option<JsonV>> {
    texts.map_values(|o: Option<Seq<char>>| match o {
        Some(t) => json_parse(t),
        None => None,
    })
}

/// The ids named by the lock files found, in the order they were found;
/// each is given as its text, or `None` when it could not be read.
pub fn lock_ids(texts: &Vec<Option<String>>) -> (r: Vec<String>)
    ensures
        r@.map_values(|s: String| s@) == ids_of(
            parsed_locks(texts@.map_values(|o: Option<String>| match o {
                Some(t) => Some(t@),
                None => None,
            })),
        ),
{
    let ghost lv = parsed_locks(texts@.map_values(|o: Option<String>| match o {
        Some(t) => Some(t@),
        None => None,
    }));
    let mut r: Vec<String> = Vec::new();
    let mut i: usize = 0;
    while i < texts.len()
        invariant
            0 <= i <= texts@.len(),
            lv == parsed_locks(texts@.map_values(|o: Option<String>| match o {
                Some(t) => Some(t@),
                None => None,
            })),
            r@.map_values(|s: String| s@) == ids_of(lv.take(i as int)),
        decreases texts@.len() - i,
    {
        let ghost before = r@.map_values(|s: String| s@);
        assert(lv.take(i + 1).drop_last() =~= lv.take(i as int));
        if let Some(t) = &texts[i] {
            if let Some(l) = parse_json(t.as_str()) {
                if let Some(id) = lock_album_id(&l) {
                    r.push(id);
                    assert(r@.map_values(|s: String| s@) =~= before.push(lock_id(l@)->0));
                }
            }
        }
        i = i + 1;
    }
    assert(lv.take(i as int) =~= lv);
    r
}

/// The album id a lock file's text names, when the text is JSON and names
/// one.
pub fn lock_text_id(text: &str) -> (r: Option<String>)
    ensures
        match r {
            Some(s) => json_parse(text@) matches Some(v) && lock_id(v) == Some(s@),
            None => match json_parse(text@) {
                Some(v) => lock_id(v) is None,
                None => true,
            },
        },
{
    match parse_json(text) {
        Some(l) => lock_album_id(&l),
        None => None,
    }
}

/// The lock files whose texts read as JSON, read, in order; the others
/// are left out.
pub fn read_locks(texts: &Vec<String>) -> (r: Vec<Json>)
    ensures
        r@.map_values(|j: Json| j@) == texts@.map_values(|t: String| t@).filter_map(|t: Seq<char>| json_parse(t)),
{
    let ghost tv = texts@.map_values(|t: String| t@);
    let ghost f = |t: Seq<char>| json_parse(t);
    let mut r: Vec<Json> = Vec::new();
    let mut i: usize = 0;
    while i < texts.len()
        invariant
            0 <= i <= texts@.len(),
            tv == texts@.map_values(|t: String| t@),
            f == (|t: Seq<char>| json_parse(t)),
            r@.map_values(|j: Json| j@) == tv.take(i as int).filter_map(f),
        decreases texts@.len() - i,
    {
        let ghost before = r@.map_values(|j: Json| j@);
        assert(tv.take(i + 1).drop_last() =~= tv.take(i as int));
        assert(tv.take(i + 1).last() == texts@[i as int]@);
        let t: &str = texts[i].as_str();
        assert(t@ == texts@[i as int]@);
        match parse_json(t) {
            Some(l) => {
                let ghost lv = l@;
                r.push(l);
                assert(f(tv.take(i + 1).last()) == Some(lv));
                assert(tv.take(i + 1).filter_map(f) == tv.take(i as int).filter_map(f) + seq![lv]);
                assert(r@.map_values(|j: Json| j@) =~= before + seq![lv]);
            },
            None => {
                assert(f(tv.take(i + 1).last()) is None);
                assert(tv.take(i + 1).filter_map(f) == tv.take(i as int).filter_map(f));
            },
        }
        i = i + 1;
    }
    assert(tv.take(i as int) =~= tv);
    r
}

// ---------------------------------------------------------------------------
// The environment file
// ---------------------------------------------------------------------------

pub open spec fn is_quote(c: char) -> bool {
    c == '"' || c == '\''
}

/// The text without its leading quote characters.
pub open spec fn drop_lead_quotes(s: Seq<char>) -> Seq<char>
    decreases s.len(),
{
    if s.len() > 0 && is_quote(s[0]) {
        drop_lead_quotes(s.drop_first())
    } else {
        s
    }
}

/// The text without its trailing quote characters.
pub open spec fn drop_trail_quotes(s: Seq<char>) -> Seq<char>
    decreases s.len(),
{
    if s.len() > 0 && is_quote(s.last()) {
        drop_trail_quotes(s.drop_last())
    } else {
        s
    }
}

/// `trim_matches` on both quote characters.
pub open spec fn unquote(s: Seq<char>) -> Seq<char> {
    drop_trail_quotes(drop_lead_quotes(s))
}

proof fn lemma_lead_skip(s: Seq<char>, i: int)
    requires
        0 <= i <= s.len(),
        forall|m: int| 0 <= m < i ==> is_quote(s[m]),
    ensures
        drop_lead_quotes(s) == drop_lead_quotes(s.skip(i)),
    decreases i,
{
    if i > 0 {
        assert(s.drop_first().skip(i - 1) =~= s.skip(i));
        lemma_lead_skip(s.drop_first(), i - 1);
    } else {
        assert(s.skip(0) =~= s);
    }
}

proof fn lemma_trail_take(s: Seq<char>, j: int)
    requires
        0 <= j <= s.len(),
        forall|m: int| j <= m < s.len() ==> is_quote(s[m]),
    ensures
        drop_trail_quotes(s) == drop_trail_quotes(s.take(j)),
    decreases s.len() - j,
{
    if j < s.len() {
        assert(s.drop_last().take(j) =~= s.take(j));
        lemma_trail_take(s.drop_last(), j);
    } else {
        assert(s.take(j) =~= s);
    }
}

fn unquote_chars(s: &[char]) -> (r: Vec<char>)
    ensures
        r@ == unquote(s@),
{
    let n = s.len();
    let mut a: usize = 0;
    while a < n && (s[a] == '"' || s[a] == '\'')
        invariant
            0 <= a <= n == s@.len(),
            forall|m: int| 0 <= m < a ==> is_quote(s@[m]),
        decreases n - a,
    {
        a = a + 1;
    }
    proof {
        lemma_lead_skip(s@, a as int);
    }
    let t = crate::text::copy_range(s, a, n);
    assert(t@ =~= s@.skip(a as int));
    assert(!(t@.len() > 0 && is_quote(t@[0])));
    let mut b: usize = t.len();
    while b > 0 && (t[b - 1] == '"' || t[b - 1] == '\'')
        invariant
            0 <= b <= t@.len(),
            forall|m: int| b <= m < t@.len() ==> is_quote(t@[m]),
        decreases b,
    {
        b = b - 1;
    }
    proof {
        lemma_trail_take(t@, b as int);
    }
    let r = crate::text::copy_range(t.as_slice(), 0, b);
    assert(r@ =~= t@.take(b as int));
    r
}

/// One line of the environment file: `KEY=value`, both sides trimmed and
/// quotes taken off the value; blank lines, comments and lines without `=`
/// give nothing.
pub open spec fn env_entry(line: Seq<char>) -> Option<(Seq<char>, Seq<char>)> {
    let t = trim(line);
    let parts = split(t, '=');
    if t.len() == 0 || t[0] == '#' || parts.len() < 2 {
        None
    } else {
        Some((trim(parts[0]), unquote(trim(join(parts.skip(1), seq!['='])))))
    }
}

/// The variables an environment file sets: each line in turn, a later line
/// overriding an earlier one for the same key.
pub open spec fn env_vars(lines: Seq<Seq<char>>) -> Map<Seq<char>, Seq<char>>
    decreases lines.len(),
{
    if lines.len() == 0 {
        Map::empty()
    } else {
        let prev = env_vars(lines.drop_last());
        match env_entry(lines.last()) {
            Some((k, v)) => prev.insert(k, v),
            None => prev,
        }
    }
}

fn env_line(line: &[char]) -> (r: Option<(String, String)>)
    ensures
        match r {
            Some((k, v)) => env_entry(line@) == Some((k@, v@)),
            None => env_entry(line@) is None,
        },
{
    let t = trim_chars(line);
    if t.len() == 0 || t[0] == '#' {
        return None;
    }
    let parts = split_chars(t.as_slice(), '=');
    if parts.len() < 2 {
        return None;
    }
    let ghost sp = split(t@, '=');
    let mut rest: Vec<Vec<char>> = Vec::new();
    let mut i: usize = 1;
    while i < parts.len()
        invariant
            1 <= i <= parts@.len(),
            parts@.len() == sp.len(),
            forall|k: int| 0 <= k < parts@.len() ==> (#[trigger] parts@[k])@ == sp[k],
            rest@.map_values(|p: Vec<char>| p@) == sp.skip(1).take(i - 1),
        decreases parts@.len() - i,
    {
        let ghost before = rest@.map_values(|p: Vec<char>| p@);
        rest.push(parts[i].clone());
        assert(rest@.map_values(|p: Vec<char>| p@) =~= before.push(sp[i as int]));
        assert(sp.skip(1).take(i as int) =~= sp.skip(1).take(i - 1).push(sp[i as int]));
        i = i + 1;
    }
    assert(sp.skip(1).take(i - 1) =~= sp.skip(1));
    let eq: Vec<char> = vec!['='];
    let joined = join_chars(&rest, eq.as_slice());
    assert(eq@ =~= seq!['=']);
    let k = trim_chars(parts[0].as_slice());
    let v = unquote_chars(trim_chars(joined.as_slice()).as_slice());
    Some((string_of(k.as_slice()), string_of(v.as_slice())))
}

/// The variables an environment file's text sets, each key once, in the
/// order keys first appear.
pub fn parse_env(content: &str) -> (r: Vec<(String, String)>)
    ensures
        crate::assoc::distinct(crate::assoc::skeys(r@)),
        crate::assoc::smap(r@).map_values(|s: String| s@) == env_vars(split(content@, '\n')),
{
    let lines = split_chars(chars_of(content).as_slice(), '\n');
    let ghost ls = split(content@, '\n');
    let mut r: Vec<(String, String)> = Vec::new();
    let mut i: usize = 0;
    while i < lines.len()
        invariant
            0 <= i <= lines@.len(),
            lines@.len() == ls.len(),
            ls == split(content@, '\n'),
            forall|k: int| 0 <= k < lines@.len() ==> (#[trigger] lines@[k])@ == ls[k],
            crate::assoc::distinct(crate::assoc::skeys(r@)),
            crate::assoc::smap(r@).map_values(|s: String| s@) == env_vars(ls.take(i as int)),
        decreases lines@.len() - i,
    {
        assert(ls.take(i + 1).drop_last() =~= ls.take(i as int));
        assert(ls.take(i + 1).last() == lines@[i as int]@);
        match env_line(lines[i].as_slice()) {
            Some((k, v)) => {
                let ghost before = crate::assoc::smap(r@);
                let ghost kv = k@;
                let ghost vv = v@;
                crate::assoc::sput(&mut r, k, v);
                assert(crate::assoc::smap(r@).map_values(|s: String| s@) =~= before.map_values(
                    |s: String| s@,
                ).insert(kv, vv));
            },
            None => {},
        }
        i = i + 1;
    }
    assert(ls.take(i as int) =~= ls);
    r
}

// ---------------------------------------------------------------------------
// Running an action
// ---------------------------------------------------------------------------

/// The key an action is declared under: its name with `-` read as `_`.
pub fn action_key(name: &str) -> (r: String)
    ensures
        r@ == map_char(name@, '-', '_'),
{
    let v = map_char_chars(chars_of(name).as_slice(), '-', '_');
    string_of(v.as_slice())
}

/// The script an action runs when its declaration names none.
pub open spec fn default_run(key: Seq<char>) -> Seq<char> {
    "~/.local/share/vellum/actions/"@ + key + ".sh"@
}

pub fn default_action_run(key: &str) -> (r: String)
    ensures
        r@ == default_run(key@),
{
    let mut s = str_to_string("~/.local/share/vellum/actions/");
    crate::text::push_str(&mut s, key);
    crate::text::push_str(&mut s, ".sh");
    s
}

/// `Path::is_absolute` on Unix: the path starts at the root.
pub open spec fn is_absolute(p: Seq<char>) -> bool {
    p.len() > 0 && p[0] == '/'
}

/// Where the action's script is: the expanded path itself when absolute,
/// else that path under the configuration's folder.
pub fn action_path(expanded: &str, config_dir: &str) -> (r: String)
    ensures
        r@ == (if is_absolute(expanded@) {
            expanded@
        } else {
            join_path(config_dir@, expanded@)
        }),
{
    let v = chars_of(expanded);
    if v.len() > 0 && v[0] == '/' {
        str_to_string(expanded)
    } else {
        join_path_str(config_dir, expanded)
    }
}

/// The extension of a path's file name (`Path::extension`), as text.
pub uninterp spec fn path_extension(p: Seq<char>) -> Option<Seq<char>>;

/// `Path::extension`, written back as text: what follows the last `.` of
/// the file name, `None` without a file name, without a `.`, or for a name
/// whose only `.` leads it.  How the name is read is not written out here;
/// the result is named `path_extension` of the path.
#[verifier::external_body]
pub(crate) fn extension_of(p: &str) -> (r: Option<String>)
    ensures
        match r {
            Some(e) => path_extension(p@) == Some(e@),
            None => path_extension(p@) is None,
        },
{
    std::path::Path::new(p).extension().map(|e| e.to_string_lossy().to_string())
}

/// How an action's script is started.
pub enum ActionRunner {
    /// `python <script>`.
    Python,
    /// `sh <script>`.
    Shell,
    /// The script itself is the program.
    Direct,
}

/// A `.py` script runs under Python, a `.sh` script under the shell, any
/// other file runs by itself.
pub fn action_runner(path: &str) -> (r: ActionRunner)
    ensures
        path_extension(path@) == Some("py"@) ==> r is Python,
        path_extension(path@) == Some("sh"@) ==> r is Shell,
        path_extension(path@) != Some("py"@) && path_extension(path@) != Some("sh"@) ==> r is Direct,
{
    proof {
        reveal_strlit("py");
        reveal_strlit("sh");
        assert("py"@[0] != "sh"@[0]);
    }
    match extension_of(path) {
        Some(e) => {
            if str_eq(e.as_str(), "py") {
                ActionRunner::Python
            } else if str_eq(e.as_str(), "sh") {
                ActionRunner::Shell
            } else {
                ActionRunner::Direct
            }
        },
        None => ActionRunner::Direct,
    }
}

/// The payload an action reads on its input: the target albums' lock files,
/// the application's configuration and the action's own (`null` when it
/// has none), and the trailing arguments joined by spaces.  Keys stand in
/// the order `serde_json` keeps them.
pub open spec fn payload(
    albums: Seq<JsonV>,
    vellum: JsonV,
    action: Option<JsonV>,
    args: Seq<Seq<char>>,
) -> JsonV {
    JsonV::Object(
        seq![
            ("albums"@, JsonV::Array(albums)),
            (
                "config"@,
                JsonV::Object(
                    seq![
                        ("action"@, match action {
                            Some(a) => a,
                            None => JsonV::Null,
                        }),
                        ("vellum"@, vellum),
                    ],
                ),
            ),
            ("options"@, JsonV::Str(join(args, " "@))),
        ],
    )
}

/// An optional JSON value, by its view.
pub open spec fn jopt(o: Option<Json>) -> Option<JsonV> {
    match o {
        Some(a) => Some(a@),
        None => None,
    }
}

pub fn action_payload(albums: Vec<Json>, vellum: Json, action: Option<Json>, args: &Vec<String>) -> (r: Json)
    ensures
        r@ == payload(
            albums@.map_values(|x: Json| x@),
            vellum@,
            jopt(action),
            args@.map_values(|s: String| s@),
        ),
{
    let ghost av = albums@.map_values(|x: Json| x@);
    let ghost vv = vellum@;
    let ghost acv = jopt(action);
    let mut parts: Vec<Vec<char>> = Vec::new();
    let mut i: usize = 0;
    while i < args.len()
        invariant
            0 <= i <= args@.len(),
            parts@.map_values(|p: Vec<char>| p@) == args@.map_values(|s: String| s@).take(i as int),
        decreases args@.len() - i,
    {
        let ghost before = parts@.map_values(|p: Vec<char>| p@);
        parts.push(chars_of(args[i].as_str()));
        assert(parts@.map_values(|p: Vec<char>| p@) =~= before.push(args@[i as int]@));
        assert(args@.map_values(|s: String| s@).take(i + 1) =~= args@.map_values(|s: String| s@).take(
            i as int,
        ).push(args@[i as int]@));
        i = i + 1;
    }
    assert(args@.map_values(|s: String| s@).take(i as int) =~= args@.map_values(|s: String| s@));
    let sp: Vec<char> = vec![' '];
    assert(sp@ =~= " "@) by {
        reveal_strlit(" ");
    }
    let options = string_of(join_chars(&parts, sp.as_slice()).as_slice());
    let action_json = match action {
        Some(a) => a,
        None => Json::Null,
    };
    assert(action_json@ == match acv {
        Some(a) => a,
        None => JsonV::Null,
    });
    let albums_json = Json::Array(albums);
    proof {
        albums_json.lemma_array_view();
        assert(albums_json@ == JsonV::Array(av));
    }
    let mut config_entries: Vec<(String, Json)> = Vec::new();
    config_entries.push((str_to_string("action"), action_json));
    config_entries.push((str_to_string("vellum"), vellum));
    let ghost ce = config_entries@;
    let config = Json::Object(config_entries);
    proof {
        config.lemma_object_view();
        assert(ce.map_values(|e: (String, Json)| (e.0@, e.1@)) =~= seq![
            ("action"@, match acv {
                Some(a) => a,
                None => JsonV::Null,
            }),
            ("vellum"@, vv),
        ]);
    }
    let mut top: Vec<(String, Json)> = Vec::new();
    top.push((str_to_string("albums"), albums_json));
    top.push((str_to_string("config"), config));
    top.push((str_to_string("options"), Json::Str(options)));
    let ghost te = top@;
    let r = Json::Object(top);
    proof {
        r.lemma_object_view();
        assert(te.map_values(|e: (String, Json)| (e.0@, e.1@)) =~= payload(av, vv, acv, args@.map_values(|s: String| s@))->Object_0);
    }
    r
}

// ---------------------------------------------------------------------------
// The query command
// ---------------------------------------------------------------------------

/// How the query command prints what it finds.
pub struct QueryFlags {
    pub playing: bool,
    pub lock: bool,
    pub id: bool,
    pub uid: bool,
    pub json: bool,
}

/// Where the query command takes its ids from.
pub enum QuerySource {
    /// The server answers the query.
    Server(String),
    /// The album that is playing now.
    Playing,
}

/// The message given when neither a query nor `--playing` was given.
pub open spec fn no_query_message() -> Seq<char> {
    "No query provided. Use --playing or provide an SQL query."@
}

/// A query goes to the server; without one, `--playing` takes the album
/// that plays; with neither the command fails.
pub fn query_source(query: Option<String>, flags: &QueryFlags) -> (r: Result<QuerySource, String>)
    ensures
        match query {
            Some(q) => r matches Ok(QuerySource::Server(x)) && x@ == q@,
            None => if flags.playing {
                r matches Ok(QuerySource::Playing)
            } else {
                r matches Err(m) && m@ == no_query_message()
            },
        },
{
    match query {
        Some(q) => Ok(QuerySource::Server(q)),
        None => if flags.playing {
            Ok(QuerySource::Playing)
        } else {
            Err(str_to_string("No query provided. Use --playing or provide an SQL query."))
        },
    }
}

/// The line printed for one album: its id with `--id`; the path of its
/// lock file with `--lock` (unless `--uid`); its folder otherwise.
pub open spec fn query_line_of(flags: QueryFlags, root: Seq<char>, id: Seq<char>) -> Seq<char> {
    if flags.id {
        id
    } else if !flags.uid && flags.lock {
        join_path(join_path(root, id), lock_name())
    } else {
        join_path(root, id)
    }
}

pub fn query_line(flags: &QueryFlags, root: &str, id: &str) -> (r: String)
    ensures
        r@ == query_line_of(*flags, root@, id@),
{
    if flags.id {
        str_to_string(id)
    } else if flags.uid {
        join_path_str(root, id)
    } else if flags.lock {
        let base = join_path_str(root, id);
        join_path_str(base.as_str(), lock_name_str().as_str())
    } else {
        join_path_str(root, id)
    }
}

} // verus!
