//! Reading a `.torrent` file: its name and the files it lists, and how
//! deeply its bencode nests lists and dictionaries.
use vstd::prelude::*;

verus! {

/// Whether a byte is an ASCII digit.
pub open spec fn is_digit(c: u8) -> bool {
    48 <= c && c <= 57
}

/// The first position at or after `k` that holds no digit (the length when
/// digits run to the end).
pub open spec fn digits_end(b: Seq<u8>, k: int) -> int
    decreases b.len() - k,
{
    if k < 0 || k >= b.len() || !is_digit(b[k]) {
        k
    } else {
        digits_end(b, k + 1)
    }
}

/// The number the digits in `b[s..j]` spell.
pub open spec fn digits_value(b: Seq<u8>, s: int, j: int) -> nat
    decreases j - s,
{
    if j <= s {
        0
    } else {
        digits_value(b, s, j - 1) * 10 + ((b[j - 1] - 48) as nat)
    }
}

/// The first position at or after `k` that holds byte `c`.
pub open spec fn find_byte(b: Seq<u8>, c: u8, k: int) -> Option<int>
    decreases b.len() - k,
{
    if k < 0 || k >= b.len() {
        None
    } else if b[k] == c {
        Some(k)
    } else {
        find_byte(b, c, k + 1)
    }
}

/// The greatest number of lists and dictionaries open at once while the
/// bencode elements from position `i` on are read, `open` of them being
/// open already.  `d` and `l` open one, `e` closes one, `i` starts an
/// integer that runs to the next `e`, and a string is its length in digits
/// (after an optional `+`), a `:`, and that many bytes.  Reading stops at
/// the end, at an `e` with nothing open, and at anything that cannot be
/// read further.
pub open spec fn depth_from(b: Seq<u8>, i: int, open: nat) -> nat
    decreases b.len() - i,
{
    if i < 0 || i >= b.len() {
        open
    } else if b[i] == 100 || b[i] == 108 {
        let rest = depth_from(b, i + 1, open + 1);
        if rest > open + 1 { rest } else { open + 1 }
    } else if b[i] == 101 {
        if open == 0 {
            open
        } else {
            let rest = depth_from(b, i + 1, (open - 1) as nat);
            if rest > open { rest } else { open }
        }
    } else if b[i] == 105 {
        match find_byte(b, 101, i + 1) {
            Some(j) => if i < j < b.len() {
                let rest = depth_from(b, j + 1, open);
                if rest > open { rest } else { open }
            } else {
                open
            },
            None => open,
        }
    } else if is_digit(b[i]) || b[i] == 43 {
        let s = if b[i] == 43 { i + 1 } else { i };
        let j = digits_end(b, s);
        if j > s && s >= i && j < b.len() && b[j] == 58 && j + 1 + digits_value(b, s, j) <= b.len() {
            let rest = depth_from(b, j + 1 + digits_value(b, s, j), open);
            if rest > open { rest } else { open }
        } else {
            open
        }
    } else {
        open
    }
}

/// How deeply the bencode of `b` nests lists and dictionaries.
pub open spec fn bencode_depth(b: Seq<u8>) -> nat {
    depth_from(b, 0, 0)
}

proof fn lemma_depth_from_ge(b: Seq<u8>, i: int, open: nat)
    ensures
        depth_from(b, i, open) >= open,
    decreases b.len() - i,
{
}

proof fn lemma_find_byte_step(b: Seq<u8>, c: u8, k: int)
    requires
        0 <= k < b.len(),
        b[k] != c,
    ensures
        find_byte(b, c, k) == find_byte(b, c, k + 1),
{
}

/// Whether the bencode of `b` nests lists and dictionaries at most `limit`
/// deep.
pub fn bencode_depth_within(b: &[u8], limit: usize) -> (r: bool)
    ensures
        r == (bencode_depth(b@) <= limit),
{
    let n = b.len();
    let mut i: usize = 0;
    let mut open: usize = 0;
    let mut most: usize = 0;
    while i < n
        invariant
            n == b@.len(),
            0 <= i <= n,
            open <= most <= limit,
            bencode_depth(b@) == (if most >= depth_from(b@, i as int, open as nat) { most as nat } else {
                depth_from(b@, i as int, open as nat)
            }),
        decreases n - i,
    {
        let c = b[i];
        if c == 100 || c == 108 {
            if open >= limit {
                proof {
                    lemma_depth_from_ge(b@, i + 1, (open + 1) as nat);
                }
                return false;
            }
            open = open + 1;
            if open > most {
                most = open;
            }
            i = i + 1;
        } else if c == 101 {
            if open == 0 {
                assert(depth_from(b@, i as int, open as nat) == 0);
                return true;
            }
            open = open - 1;
            i = i + 1;
        } else if c == 105 {
            let mut j: usize = i + 1;
            while j < n && b[j] != 101
                invariant
                    n == b@.len(),
                    i < j <= n,
                    find_byte(b@, 101, i + 1) == find_byte(b@, 101, j as int),
                decreases n - j,
            {
                proof {
                    lemma_find_byte_step(b@, 101, j as int);
                }
                j = j + 1;
            }
            if j >= n {
                assert(find_byte(b@, 101, j as int) is None);
                assert(depth_from(b@, i as int, open as nat) == open);
                return true;
            }
            assert(find_byte(b@, 101, j as int) == Some(j as int));
            i = j + 1;
        } else if (48 <= c && c <= 57) || c == 43 {
            let s: usize = if c == 43 { i + 1 } else { i };
            let mut j: usize = s;
            let mut v: u128 = 0;
            let cap: u128 = n as u128 + 1;
            while j < n && 48 <= b[j] && b[j] <= 57
                invariant
                    n == b@.len(),
                    s <= j <= n,
                    cap == n + 1,
                    digits_end(b@, s as int) == digits_end(b@, j as int),
                    v == (if digits_value(b@, s as int, j as int) < cap { digits_value(b@, s as int, j as int) } else {
                        cap as nat
                    }),
                    forall|k: int| s <= k < j ==> is_digit(#[trigger] b@[k]),
                decreases n - j,
            {
                let d: u128 = (b[j] - 48) as u128;
                assert(digits_value(b@, s as int, j + 1) == digits_value(b@, s as int, j as int) * 10 + d);
                if v < cap {
                    let w = v * 10 + d;
                    v = if w < cap { w } else { cap };
                }
                j = j + 1;
            }
            assert(digits_end(b@, j as int) == j);
            if !(j > s && j < n && b[j] == 58) {
                assert(depth_from(b@, i as int, open as nat) == open);
                return true;
            }
            if v >= cap || v as usize >= n - (j + 1) {
                assert(depth_from(b@, j + 1 + digits_value(b@, s as int, j as int), open as nat) == open);
                return true;
            }
            i = j + 1 + v as usize;
        } else {
            return true;
        }
    }
    true
}

/// The most deeply a torrent's bencode may nest lists and dictionaries to
/// be read: the reader descends once per level.
pub const MAX_TORRENT_DEPTH: usize = 512;

/// What the library reads of a torrent: its name, and the paths of its
/// files when it lists several (a torrent of one file lists none).
pub struct TorrentListing {
    pub name: String,
    pub files: Option<Vec<String>>,
}

impl View for TorrentListing {
    type V = (Seq<char>, Option<Seq<Seq<char>>>);

    open spec fn view(&self) -> (Seq<char>, Option<Seq<Seq<char>>>) {
        (
            self.name@,
            match self.files {
                Some(fs) => Some(fs@.map_values(|f: String| f@)),
                None => None,
            },
        )
    }
}

/// What `lava_torrent`'s `Torrent::read_from_bytes` reads from the bytes of
/// a `.torrent` file: its `name` and the paths of its `files` (each path's
/// components joined as a `PathBuf` does, written as text), or `None` when
/// the bytes are not a valid torrent.  Bencode decoding and the torrent's
/// checks are not written out here; the result is named `torrent_parse` of
/// the bytes.
pub uninterp spec fn torrent_parse(bytes: Seq<u8>) -> Option<(Seq<char>, Option<Seq<Seq<char>>>)>;

/// `Torrent::read_from_bytes`, keeping the name and the file paths: what it
/// reads is named `torrent_parse` of the bytes, `None` standing for its
/// error.  It descends once per level of nesting, so the bytes must not nest
/// deeper than `MAX_TORRENT_DEPTH`.
#[verifier::external_body]
fn read_torrent(bytes: &[u8]) -> (r: Option<TorrentListing>)
    requires
        bencode_depth(bytes@) <= MAX_TORRENT_DEPTH,
    ensures
        match r {
            Some(l) => torrent_parse(bytes@) == Some(l@),
            None => torrent_parse(bytes@) is None,
        },
{
    lava_torrent::torrent::v1::Torrent::read_from_bytes(bytes).ok().map(|t| TorrentListing {
        files: t.files.map(|fs| fs.iter().map(|f| f.path.to_string_lossy().to_string()).collect()),
        name: t.name,
    })
}

/// Why a torrent could not be read.
pub enum TorrentError {
    /// Its lists and dictionaries nest deeper than `MAX_TORRENT_DEPTH`.
    TooDeep,
    /// The bytes are not a valid torrent.
    Malformed,
}

/// Reads the name and the files of a torrent from its bytes.
pub fn torrent_listing(bytes: &[u8]) -> (r: Result<TorrentListing, TorrentError>)
    ensures
        match r {
            Ok(l) => bencode_depth(bytes@) <= MAX_TORRENT_DEPTH && torrent_parse(bytes@) == Some(l@),
            Err(TorrentError::TooDeep) => bencode_depth(bytes@) > MAX_TORRENT_DEPTH,
            Err(TorrentError::Malformed) => bencode_depth(bytes@) <= MAX_TORRENT_DEPTH && torrent_parse(bytes@) is None,
        },
{
    if !bencode_depth_within(bytes, MAX_TORRENT_DEPTH) {
        return Err(TorrentError::TooDeep);
    }
    match read_torrent(bytes) {
        Some(l) => Ok(l),
        None => Err(TorrentError::Malformed),
    }
}

} // verus!
