//! Audio sources a project references: tallying them by pool id, naming
//! the ones that went missing, indexing found files by name, and choosing
//! which found file is the lost one, by name and by content hash.

use vstd::prelude::*;
use sha2::Digest;
use crate::seqs::{first_match, lemma_first_match_at, lemma_first_match_none, lemma_first_match_props};
use crate::text::{
    chars_lt, lemma_chars_lt_irreflexive, lemma_chars_lt_total, lemma_chars_lt_transitive, str_eq, str_lt,
    to_lowercase, unicode_lowercase,
};

verus! {

/// A source the project references but cannot find on disk.
#[derive(Debug)]
pub struct MissingSource {
    /// Pool id the clips reference; relinking keeps it.
    pub source_id: String,
    /// Last known location.
    pub file: String,
    /// The file name, for display.
    pub name: String,
    /// SHA-256 recorded at import; empty on older projects.
    pub hash: String,
    /// How many clips play this sample.
    pub clip_count: usize,
}

/// One distinct source: where it was read from, its recorded hash, and how
/// many clips use it.
#[derive(Debug)]
pub struct SourceRow {
    pub source_id: String,
    pub file: String,
    pub hash: String,
    pub clip_count: usize,
}

/// A source row by its characters.
pub struct SourceRowView {
    pub source_id: Seq<char>,
    pub file: Seq<char>,
    pub hash: Seq<char>,
    pub clip_count: nat,
}

impl View for SourceRow {
    type V = SourceRowView;

    open spec fn view(&self) -> SourceRowView {
        SourceRowView { source_id: self.source_id@, file: self.file@, hash: self.hash@, clip_count: self.clip_count as nat }
    }
}

/// Rows by their views.
pub open spec fn row_views(s: Seq<SourceRow>) -> Seq<SourceRowView> {
    s.map_values(|r: SourceRow| r@)
}

/// Rows strictly ascending by pool id, as a map keyed by it walks them.
pub open spec fn ids_ascending(s: Seq<SourceRowView>) -> bool {
    forall|i: int, j: int| 0 <= i < j < s.len() ==> chars_lt((#[trigger] s[i]).source_id, (#[trigger] s[j]).source_id)
}

/// The file a clip's audio was read from: `source_file`, or the pool id on
/// projects older than that field.
pub open spec fn file_of(source_path: Seq<char>, source_file: Seq<char>) -> Seq<char> {
    if source_file.len() == 0 { source_path } else { source_file }
}

/// The distinct sources of a project, keyed by pool id.
#[derive(Debug)]
pub struct SourceTally {
    rows: Vec<SourceRow>,
}

impl SourceTally {
    /// Rows stay in pool-id order, each id once.
    #[verifier::type_invariant]
    spec fn ordered(self) -> bool {
        ids_ascending(row_views(self.rows@))
    }
}

impl View for SourceTally {
    type V = Seq<SourceRowView>;

    closed spec fn view(&self) -> Seq<SourceRowView> {
        row_views(self.rows@)
    }
}

/// The position of pool id `id` among the rows, if present.
pub open spec fn source_pos(rows: Seq<SourceRowView>, id: Seq<char>) -> Option<int> {
    first_match(rows, |r: SourceRowView| r.source_id == id)
}

impl SourceTally {
    /// A tally with no sources.
    pub fn new() -> (t: SourceTally)
        ensures
            t@ == Seq::<SourceRowView>::empty(),
    {
        let t = SourceTally { rows: Vec::new() };
        assert(row_views(t.rows@) =~= Seq::<SourceRowView>::empty());
        t
    }

    /// The rows, in pool-id order, each id once.
    pub fn rows(&self) -> (r: &[SourceRow])
        ensures
            row_views(r@) == self@,
            ids_ascending(self@),
    {
        proof {
            use_type_invariant(self);
        }
        self.rows.as_slice()
    }

    /// Counts one more clip playing the audio with pool id `source_path`,
    /// read from `source_file` (empty on old projects) with recorded hash
    /// `source_hash`. A known id only has its count raised; a new id is
    /// added with count 1 and the clip's file and hash, in pool-id order.
    pub fn record(&mut self, source_path: &str, source_file: &str, source_hash: &str)
        requires
            forall|i: int| 0 <= i < old(self)@.len() ==> (#[trigger] old(self)@[i]).clip_count < usize::MAX,
        ensures
            ids_ascending(final(self)@),
            match source_pos(old(self)@, source_path@) {
                Some(k) => final(self)@ == old(self)@.update(
                    k,
                    SourceRowView { clip_count: old(self)@[k].clip_count + 1, ..old(self)@[k] },
                ),
                None => exists|j: int| 0 <= j <= old(self)@.len() && #[trigger] final(self)@ == old(self)@.insert(
                    j,
                    SourceRowView {
                        source_id: source_path@,
                        file: file_of(source_path@, source_file@),
                        hash: source_hash@,
                        clip_count: 1,
                    },
                ),
            },
    {
        proof {
            use_type_invariant(&*self);
        }
        let ghost before = row_views(self.rows@);
        assert(before == old(self)@);
        let mut rows: Vec<SourceRow> = Vec::new();
        std::mem::swap(&mut rows, &mut self.rows);
        let n = rows.len();
        let mut i: usize = 0;
        while i < n && str_lt(rows[i].source_id.as_str(), source_path)
            invariant
                n == rows@.len(),
                row_views(rows@) == before,
                ids_ascending(before),
                0 <= i <= n,
                forall|k: int| 0 <= k < i ==> chars_lt((#[trigger] before[k]).source_id, source_path@),
            decreases n - i,
        {
            i = i + 1;
        }
        if i < n && str_eq(rows[i].source_id.as_str(), source_path) {
            proof {
                assert forall|k: int| 0 <= k < i implies (#[trigger] before[k]).source_id != source_path@ by {
                    lemma_chars_lt_irreflexive(source_path@);
                }
                lemma_first_match_at(before, |r: SourceRowView| r.source_id == source_path@, i as int);
            }
            let mut row = rows.remove(i);
            assert(row@ == before[i as int]);
            assert(before[i as int].clip_count < usize::MAX);
            row.clip_count = row.clip_count + 1;
            let ghost rv = row@;
            rows.insert(i, row);
            assert(row_views(rows@) =~= before.update(i as int, rv));
            assert(ids_ascending(row_views(rows@))) by {
                assert forall|a: int, b: int| 0 <= a < b < row_views(rows@).len() implies chars_lt(
                    (#[trigger] row_views(rows@)[a]).source_id,
                    (#[trigger] row_views(rows@)[b]).source_id,
                ) by {
                    assert(chars_lt(before[a].source_id, before[b].source_id));
                }
            }
            self.rows = rows;
            return;
        }
        proof {
            if i < n {
                lemma_chars_lt_total(before[i as int].source_id, source_path@);
            }
            assert forall|k: int| 0 <= k < before.len() implies (#[trigger] before[k]).source_id != source_path@ by {
                if k < i {
                    lemma_chars_lt_irreflexive(source_path@);
                } else {
                    if k > i {
                        lemma_chars_lt_transitive(source_path@, before[i as int].source_id, before[k].source_id);
                        lemma_chars_lt_irreflexive(source_path@);
                    }
                }
            }
            lemma_first_match_none(before, |r: SourceRowView| r.source_id == source_path@);
        }
        let file = if source_file.unicode_len() == 0 {
            String::from_str(source_path)
        } else {
            String::from_str(source_file)
        };
        let row = SourceRow {
            source_id: String::from_str(source_path),
            file,
            hash: String::from_str(source_hash),
            clip_count: 1,
        };
        let ghost rv = row@;
        rows.insert(i, row);
        assert(row_views(rows@) =~= before.insert(i as int, rv));
        assert(ids_ascending(row_views(rows@))) by {
            let after = row_views(rows@);
            assert forall|a: int, b: int| 0 <= a < b < after.len() implies chars_lt(
                (#[trigger] after[a]).source_id,
                (#[trigger] after[b]).source_id,
            ) by {
                if b < i {
                    assert(chars_lt(before[a].source_id, before[b].source_id));
                } else if b == i {
                    assert(chars_lt(before[a].source_id, source_path@));
                } else if a < i {
                    assert(chars_lt(before[a].source_id, before[b - 1].source_id));
                } else if a == i {
                    if b - 1 > i {
                        lemma_chars_lt_transitive(source_path@, before[i as int].source_id, before[b - 1].source_id);
                    }
                } else {
                    assert(chars_lt(before[a - 1].source_id, before[b - 1].source_id));
                }
            }
        }
        self.rows = rows;
    }
}

/// The final component `std::path::Path::file_name` finds in a path.
pub uninterp spec fn path_file_name(path: Seq<char>) -> Option<Seq<char>>;

/// Calls `Path::file_name` on a path given as text and converts the name
/// back to a `String`. Claims only that the result is the named file name
/// of the path's text.
#[verifier::external_body]
fn file_name_of(path: &str) -> (r: Option<String>)
    ensures
        match path_file_name(path@) {
            Some(n) => r is Some && r->0@ == n,
            None => r is None,
        },
{
    std::path::Path::new(path).file_name().map(|n| n.to_string_lossy().into_owned())
}

/// The name a missing source is shown by: its file name, or "unknown file"
/// when its location has none.
pub open spec fn display_name_spec(file: Seq<char>) -> Seq<char> {
    match path_file_name(file) {
        Some(n) => n,
        None => "unknown file"@,
    }
}

/// A source row reported as missing.
pub fn missing_source(row: &SourceRow) -> (m: MissingSource)
    ensures
        m.source_id@ == row.source_id@,
        m.file@ == row.file@,
        m.name@ == display_name_spec(row.file@),
        m.hash@ == row.hash@,
        m.clip_count == row.clip_count,
{
    let name = match file_name_of(row.file.as_str()) {
        Some(n) => n,
        None => String::from_str("unknown file"),
    };
    MissingSource {
        source_id: row.source_id.clone(),
        file: row.file.clone(),
        name,
        hash: row.hash.clone(),
        clip_count: row.clip_count,
    }
}

/// Found audio files by lowercased file name.
#[derive(Debug)]
pub struct AudioIndex {
    entries: Vec<(String, Vec<String>)>,
}

/// Index entries by characters.
pub open spec fn index_views(s: Seq<(String, Vec<String>)>) -> Seq<(Seq<char>, Seq<Seq<char>>)> {
    s.map_values(|e: (String, Vec<String>)| (e.0@, e.1@.map_values(|p: String| p@)))
}

/// Each name is listed once.
pub open spec fn names_unique(s: Seq<(Seq<char>, Seq<Seq<char>>)>) -> bool {
    forall|a: int, b: int| 0 <= a < b < s.len() ==> (#[trigger] s[a]).0 != (#[trigger] s[b]).0
}

/// Entries for the name `key`.
pub open spec fn key_is(key: Seq<char>) -> spec_fn((Seq<char>, Seq<Seq<char>>)) -> bool {
    |e: (Seq<char>, Seq<Seq<char>>)| e.0 == key
}

/// Hashes equal to `wanted`.
pub open spec fn hash_is(wanted: Seq<char>) -> spec_fn(Seq<char>) -> bool {
    |h: Seq<char>| h == wanted
}

/// The paths listed under `key`, if any.
pub open spec fn lookup(s: Seq<(Seq<char>, Seq<Seq<char>>)>, key: Seq<char>) -> Option<Seq<Seq<char>>> {
    match first_match(s, key_is(key)) {
        Some(k) => Some(s[k].1),
        None => None,
    }
}

impl AudioIndex {
    /// A name is listed once.
    #[verifier::type_invariant]
    spec fn one_entry_per_name(self) -> bool {
        names_unique(index_views(self.entries@))
    }
}

impl View for AudioIndex {
    type V = Seq<(Seq<char>, Seq<Seq<char>>)>;

    closed spec fn view(&self) -> Seq<(Seq<char>, Seq<Seq<char>>)> {
        index_views(self.entries@)
    }
}

impl AudioIndex {
    /// An empty index.
    pub fn new() -> (x: AudioIndex)
        ensures
            x@ == Seq::<(Seq<char>, Seq<Seq<char>>)>::empty(),
    {
        let x = AudioIndex { entries: Vec::new() };
        assert(index_views(x.entries@) =~= Seq::<(Seq<char>, Seq<Seq<char>>)>::empty());
        x
    }

    fn position(&self, key: &str) -> (r: Option<usize>)
        ensures
            match r {
                Some(i) => i < self@.len() && first_match(self@, key_is(key@)) == Some(i as int),
                None => first_match(self@, key_is(key@)) is None,
            },
    {
        let ghost v = index_views(self.entries@);
        let mut i: usize = 0;
        while i < self.entries.len()
            invariant
                0 <= i <= self.entries@.len(),
                v == index_views(self.entries@),
                v.len() == self.entries@.len(),
                forall|k: int| 0 <= k < i ==> (#[trigger] v[k]).0 != key@,
            decreases self.entries@.len() - i,
        {
            if str_eq(self.entries[i].0.as_str(), key) {
                proof {
                    lemma_first_match_at(v, key_is(key@), i as int);
                }
                return Some(i);
            }
            i = i + 1;
        }
        proof {
            lemma_first_match_none(v, key_is(key@));
        }
        None
    }

    /// Files everything found at `path` under its lowercased file name, after
    /// the paths already filed under that name.
    pub fn add(&mut self, file_name: &str, path: String)
        ensures
            lookup(final(self)@, unicode_lowercase(file_name@)) == Some(match lookup(old(self)@, unicode_lowercase(file_name@)) {
                Some(ps) => ps.push(path@),
                None => seq![path@],
            }),
            forall|k: Seq<char>| k != unicode_lowercase(file_name@) ==> #[trigger] lookup(final(self)@, k) == lookup(old(self)@, k),
    {
        proof {
            use_type_invariant(&*self);
        }
        let key = to_lowercase(file_name);
        let ghost before = index_views(self.entries@);
        let pos = self.position(key.as_str());
        let mut entries: Vec<(String, Vec<String>)> = Vec::new();
        std::mem::swap(&mut entries, &mut self.entries);
        let ghost pv = path@;
        match pos {
            Some(i) => {
                let (name, mut paths) = entries.remove(i);
                let ghost old_paths = paths@.map_values(|p: String| p@);
                paths.push(path);
                let ghost new_entry = (name@, paths@.map_values(|p: String| p@));
                assert(new_entry.1 =~= old_paths.push(pv));
                entries.insert(i, (name, paths));
                proof {
                    let after = index_views(entries@);
                    assert(after =~= before.update(i as int, new_entry));
                    lemma_first_match_props(before, key_is(key@));
                    assert(names_unique(after)) by {
                        assert forall|a: int, b: int| 0 <= a < b < after.len() implies (#[trigger] after[a]).0 != (#[trigger] after[b]).0 by {
                            assert(before[a].0 != before[b].0);
                        }
                    }
                    lemma_lookup_unique(after, i as int);
                    assert forall|k: Seq<char>| k != key@ implies #[trigger] lookup(after, k) == lookup(before, k) by {
                        lemma_lookup_same_away(before, after, i as int, k);
                    }
                }
            },
            None => {
                let mut paths: Vec<String> = Vec::new();
                paths.push(path);
                let ghost new_entry = (key@, paths@.map_values(|p: String| p@));
                assert(new_entry.1 =~= seq![pv]);
                entries.push((key, paths));
                proof {
                    let after = index_views(entries@);
                    assert(after =~= before.push(new_entry));
                    lemma_first_match_props(before, key_is(new_entry.0));
                    assert(names_unique(after)) by {
                        assert forall|a: int, b: int| 0 <= a < b < after.len() implies (#[trigger] after[a]).0 != (#[trigger] after[b]).0 by {
                            if b < before.len() {
                                assert(before[a].0 != before[b].0);
                            } else {
                                assert(!(key_is(new_entry.0))(before[a]));
                            }
                        }
                    }
                    lemma_lookup_unique(after, before.len() as int);
                    assert forall|k: Seq<char>| k != new_entry.0 implies #[trigger] lookup(after, k) == lookup(before, k) by {
                        assert(after.drop_last() =~= before);
                        lemma_lookup_push(before, new_entry, k);
                    }
                }
            },
        }
        self.entries = entries;
    }

    /// The paths filed under a file name, compared ignoring case.
    pub fn candidates(&self, file_name: &str) -> (r: Option<&Vec<String>>)
        ensures
            match lookup(self@, unicode_lowercase(file_name@)) {
                Some(ps) => r is Some && r->0@.map_values(|p: String| p@) == ps,
                None => r is None,
            },
    {
        let key = to_lowercase(file_name);
        match self.position(key.as_str()) {
            Some(i) => Some(&self.entries[i].1),
            None => None,
        }
    }
}

proof fn lemma_lookup_unique(s: Seq<(Seq<char>, Seq<Seq<char>>)>, i: int)
    requires
        names_unique(s),
        0 <= i < s.len(),
    ensures
        lookup(s, s[i].0) == Some(s[i].1),
{
    assert forall|k: int| 0 <= k < i implies !(key_is(s[i].0))(#[trigger] s[k]) by {
        assert(s[k].0 != s[i].0);
    }
    lemma_first_match_at(s, key_is(s[i].0), i);
}

proof fn lemma_lookup_same_away(
    before: Seq<(Seq<char>, Seq<Seq<char>>)>,
    after: Seq<(Seq<char>, Seq<Seq<char>>)>,
    i: int,
    k: Seq<char>,
)
    requires
        0 <= i < before.len(),
        after.len() == before.len(),
        after[i].0 == before[i].0,
        forall|j: int| 0 <= j < before.len() && j != i ==> after[j] == before[j],
        k != before[i].0,
    ensures
        lookup(after, k) == lookup(before, k),
{
    let p = key_is(k);
    lemma_first_match_props(before, p);
    lemma_first_match_props(after, p);
    match first_match(before, p) {
        Some(j) => {
            assert forall|m: int| 0 <= m < j implies !p(#[trigger] after[m]) by {
                if m != i {
                    assert(after[m] == before[m]);
                }
            }
            assert(after[j] == before[j]);
            lemma_first_match_at(after, p, j);
        },
        None => {
            assert forall|m: int| 0 <= m < after.len() implies !p(#[trigger] after[m]) by {
                if m != i {
                    assert(after[m] == before[m]);
                }
            }
            lemma_first_match_none(after, p);
        },
    }
}

proof fn lemma_lookup_push(before: Seq<(Seq<char>, Seq<Seq<char>>)>, e: (Seq<char>, Seq<Seq<char>>), k: Seq<char>)
    requires
        k != e.0,
    ensures
        lookup(before.push(e), k) == lookup(before, k),
{
    let after = before.push(e);
    let p = key_is(k);
    lemma_first_match_props(before, p);
    match first_match(before, p) {
        Some(j) => {
            assert forall|m: int| 0 <= m < j implies !p(#[trigger] after[m]) by {
                assert(after[m] == before[m]);
            }
            assert(after[j] == before[j]);
            lemma_first_match_at(after, p, j);
        },
        None => {
            assert forall|m: int| 0 <= m < after.len() implies !p(#[trigger] after[m]) by {
                if m < before.len() {
                    assert(after[m] == before[m]);
                }
            }
            lemma_first_match_none(after, p);
        },
    }
}

/// Which candidate is the lost file. With a recorded hash only a file whose
/// contents hash the same counts: the first such. Without one, a single
/// candidate is taken and several are left to the user.
pub open spec fn pick_match_spec(count: nat, source_hash: Seq<char>, hashes: Seq<Seq<char>>) -> Option<int> {
    if source_hash.len() > 0 {
        first_match(hashes.take(if hashes.len() < count { hashes.len() as int } else { count as int }), hash_is(source_hash))
    } else if count == 1 {
        Some(0)
    } else {
        None
    }
}

/// Picks the lost file among the candidates found under its name.
/// `hashes[i]` is the SHA-256 (lowercase hex) of candidate `i`'s contents,
/// empty when it could not be read; it is consulted only when the project
/// recorded a hash.
pub fn pick_match(candidates: &[String], source_hash: &str, hashes: &[String]) -> (r: Option<usize>)
    ensures
        match pick_match_spec(candidates@.len(), source_hash@, hashes@.map_values(|h: String| h@)) {
            Some(i) => r == Some(i as usize),
            None => r is None,
        },
{
    let ghost hv = hashes@.map_values(|h: String| h@);
    if source_hash.unicode_len() > 0 {
        let n = if hashes.len() < candidates.len() { hashes.len() } else { candidates.len() };
        let ghost hs = hv.take(n as int);
        let mut i: usize = 0;
        while i < n
            invariant
                n <= hashes@.len(),
                n == (if hashes@.len() < candidates@.len() { hashes@.len() } else { candidates@.len() }),
                source_hash@.len() > 0,
                hv == hashes@.map_values(|h: String| h@),
                hs == hv.take(n as int),
                0 <= i <= n,
                forall|k: int| 0 <= k < i ==> (#[trigger] hs[k]) != source_hash@,
            decreases n - i,
        {
            if str_eq(hashes[i].as_str(), source_hash) {
                proof {
                    assert(hs[i as int] == source_hash@);
                    lemma_first_match_at(hs, hash_is(source_hash@), i as int);
                }
                return Some(i);
            }
            i = i + 1;
        }
        proof {
            lemma_first_match_none(hs, hash_is(source_hash@));
        }
        None
    } else if candidates.len() == 1 {
        Some(0)
    } else {
        None
    }
}

/// A same-named file is never swapped in by name alone: with a recorded
/// hash the chosen candidate's contents hash the same; without one, a
/// candidate is chosen only when it is the only one.
pub proof fn lemma_pick_match_is_safe(count: nat, source_hash: Seq<char>, hashes: Seq<Seq<char>>)
    ensures
        pick_match_spec(count, source_hash, hashes) matches Some(i) ==> 0 <= i < count,
        source_hash.len() > 0 ==> (pick_match_spec(count, source_hash, hashes) matches Some(i) ==> hashes[i] == source_hash),
        source_hash.len() == 0 ==> (pick_match_spec(count, source_hash, hashes) is Some <==> count == 1),
{
    if source_hash.len() > 0 {
        let m = if hashes.len() < count { hashes.len() as int } else { count as int };
        lemma_first_match_props(hashes.take(m), hash_is(source_hash));
    }
}


/// The SHA-256 digest `sha2::Sha256::digest` computes for some bytes.
pub uninterp spec fn sha256_digest(bytes: Seq<u8>) -> Seq<u8>;

/// Hashes bytes with `sha2::Sha256::digest`. Claims the result is the
/// named digest of the bytes and, as SHA-256's output size is, 32 bytes.
#[verifier::external_body]
fn sha256(bytes: &[u8]) -> (r: Vec<u8>)
    ensures
        r@ == sha256_digest(bytes@),
        r@.len() == 32,
{
    sha2::Sha256::digest(bytes).to_vec()
}

/// The lowercase hexadecimal digit for a value below 16.
pub open spec fn hex_digit(n: u8) -> char {
    if n < 10 {
        ((48 + n) as u8) as char
    } else {
        ((87 + n) as u8) as char
    }
}

/// Bytes in lowercase hexadecimal, two digits each, high nibble first.
pub open spec fn lower_hex(bytes: Seq<u8>) -> Seq<char>
    decreases bytes.len(),
{
    if bytes.len() == 0 {
        Seq::empty()
    } else {
        lower_hex(bytes.drop_last()) + seq![hex_digit(bytes.last() / 16), hex_digit(bytes.last() % 16)]
    }
}

fn push_hex_digit(out: &mut String, n: u8)
    requires
        n < 16,
    ensures
        final(out)@ == old(out)@.push(hex_digit(n)),
{
    let c: char = if n < 10 {
        (48 + n) as char
    } else {
        (87 + n) as char
    };
    out.push(c);
}

/// The hash a project records for a sample: the lowercase hex SHA-256 of
/// its contents.
pub fn content_hash(bytes: &[u8]) -> (h: String)
    ensures
        h@ == lower_hex(sha256_digest(bytes@)),
{
    let digest = sha256(bytes);
    let mut h = String::new();
    let mut i: usize = 0;
    while i < digest.len()
        invariant
            0 <= i <= digest@.len(),
            h@ == lower_hex(digest@.take(i as int)),
        decreases digest@.len() - i,
    {
        let b = digest[i];
        push_hex_digit(&mut h, b / 16);
        push_hex_digit(&mut h, b % 16);
        proof {
            assert(digest@.take(i as int + 1).drop_last() =~= digest@.take(i as int));
        }
        i = i + 1;
    }
    assert(digest@.take(i as int) =~= digest@);
    h
}

/// The hash of a candidate's contents as relinking compares it: empty when
/// the file could not be read.
pub open spec fn contents_hash(contents: Option<Vec<u8>>) -> Seq<char> {
    match contents {
        Some(b) => lower_hex(sha256_digest(b@)),
        None => Seq::empty(),
    }
}

/// Picks the lost file among the candidates found under its name, hashing
/// the candidates' contents (`None` for one that could not be read) when
/// the project recorded a hash; without a recorded hash the contents are
/// not looked at.
pub fn pick_match_by_contents(candidates: &[String], source_hash: &str, contents: &[Option<Vec<u8>>]) -> (r: Option<usize>)
    ensures
        match pick_match_spec(
            candidates@.len(),
            source_hash@,
            if source_hash@.len() > 0 { contents@.map_values(|c: Option<Vec<u8>>| contents_hash(c)) } else { Seq::empty() },
        ) {
            Some(i) => r == Some(i as usize),
            None => r is None,
        },
{
    let mut hashes: Vec<String> = Vec::new();
    if source_hash.unicode_len() > 0 {
        let mut i: usize = 0;
        while i < contents.len()
            invariant
                0 <= i <= contents@.len(),
                hashes@.map_values(|h: String| h@) == contents@.take(i as int).map_values(
                    |c: Option<Vec<u8>>| contents_hash(c),
                ),
            decreases contents@.len() - i,
        {
            let h = match &contents[i] {
                Some(b) => content_hash(b.as_slice()),
                None => String::new(),
            };
            let ghost before = hashes@.map_values(|h: String| h@);
            hashes.push(h);
            proof {
                assert(hashes@.map_values(|h: String| h@) =~= before.push(contents_hash(contents@[i as int])));
                assert(contents@.take(i as int + 1) =~= contents@.take(i as int).push(contents@[i as int]));
                assert(contents@.take(i as int + 1).map_values(|c: Option<Vec<u8>>| contents_hash(c))
                    =~= contents@.take(i as int).map_values(|c: Option<Vec<u8>>| contents_hash(c)).push(
                    contents_hash(contents@[i as int]),
                ));
            }
            i = i + 1;
        }
        assert(contents@.take(i as int) =~= contents@);
    } else {
        assert(hashes@.map_values(|h: String| h@) =~= Seq::<Seq<char>>::empty());
    }
    pick_match(candidates, source_hash, &hashes)
}

} // verus!
