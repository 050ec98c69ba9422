//! The browser panel's listing of one folder: which entries are shown and
//! in what order (folders first, then audio files, each group by name
//! ignoring case).

use vstd::prelude::*;
use crate::text::{chars_lt, extension_of, path_extension, lemma_chars_lt_irreflexive, lemma_chars_lt_total, lemma_chars_lt_transitive, str_eq, str_lt, to_lowercase, unicode_lowercase};

verus! {

/// One row of the browser.
#[derive(Debug)]
pub struct BrowserEntry {
    pub name: String,
    pub path: String,
    pub is_dir: bool,
    /// Size in bytes; 0 for folders.
    pub size_bytes: u64,
}

/// A row by its characters.
pub struct EntryView {
    pub name: Seq<char>,
    pub path: Seq<char>,
    pub is_dir: bool,
    pub size_bytes: u64,
}

impl View for BrowserEntry {
    type V = EntryView;

    open spec fn view(&self) -> EntryView {
        EntryView { name: self.name@, path: self.path@, is_dir: self.is_dir, size_bytes: self.size_bytes }
    }
}

/// A character with ASCII capitals lowered.
pub open spec fn ascii_lower(c: char) -> char {
    if 'A' <= c && c <= 'Z' {
        ((c as u32) + 32) as char
    } else {
        c
    }
}

/// `str::eq_ignore_ascii_case`: same length, and the same characters once
/// ASCII capitals are lowered.
pub open spec fn eq_ignore_ascii_case_spec(a: Seq<char>, b: Seq<char>) -> bool {
    a.len() == b.len() && forall|i: int| 0 <= i < a.len() ==> ascii_lower(#[trigger] a[i]) == ascii_lower(b[i])
}

fn lower_ascii_char(c: char) -> (r: char)
    ensures
        r == ascii_lower(c),
{
    if 'A' <= c && c <= 'Z' {
        let code: u8 = ((c as u32) + 32) as u8;
        code as char
    } else {
        c
    }
}

/// Compares two texts ignoring ASCII case.
pub fn eq_ignore_ascii_case(a: &str, b: &str) -> (r: bool)
    ensures
        r == eq_ignore_ascii_case_spec(a@, b@),
{
    let n = a.unicode_len();
    if n != b.unicode_len() {
        return false;
    }
    let mut i: usize = 0;
    while i < n
        invariant
            n == a@.len(),
            n == b@.len(),
            0 <= i <= n,
            forall|k: int| 0 <= k < i ==> ascii_lower(#[trigger] a@[k]) == ascii_lower(b@[k]),
        decreases n - i,
    {
        if lower_ascii_char(a.get_char(i)) != lower_ascii_char(b.get_char(i)) {
            return false;
        }
        i = i + 1;
    }
    true
}

/// The extensions the engine's decoder can import.
pub open spec fn audio_extensions() -> Seq<Seq<char>> {
    seq!["wav"@, "mp3"@, "flac"@, "aiff"@, "aif"@, "ogg"@, "m4a"@]
}

/// A file the engine can import: its extension is one of the audio
/// extensions, in any ASCII case.
pub open spec fn is_audio_file_spec(path: Seq<char>) -> bool {
    &&& path_extension(path) is Some
    &&& exists|k: int| 0 <= k < audio_extensions().len() && eq_ignore_ascii_case_spec(
        #[trigger] audio_extensions()[k],
        path_extension(path)->0,
    )
}

/// Whether the file at `path` can go on a track.
pub fn is_audio_file(path: &str) -> (r: bool)
    ensures
        r == is_audio_file_spec(path@),
{
    let ext = match extension_of(path) {
        Some(e) => e,
        None => return false,
    };
    assert(path_extension(path@) == Some(ext@));
    let known = ["wav", "mp3", "flac", "aiff", "aif", "ogg", "m4a"];
    proof {
        assert(known@.len() == 7);
    }
    let mut k: usize = 0;
    while k < 7
        invariant
            0 <= k <= 7,
            path_extension(path@) == Some(ext@),
            known@.len() == 7,
            forall|j: int| 0 <= j < 7 ==> (#[trigger] known@[j])@ == audio_extensions()[j],
            forall|j: int| 0 <= j < k ==> !eq_ignore_ascii_case_spec(#[trigger] audio_extensions()[j], ext@),
        decreases 7 - k,
    {
        if eq_ignore_ascii_case(known[k], ext.as_str()) {
            assert(eq_ignore_ascii_case_spec(audio_extensions()[k as int], ext@));
            assert(0 <= k < audio_extensions().len());
            return true;
        }
        k = k + 1;
    }
    false
}

/// What the listing is given for each entry of a folder: its name, full
/// path, whether it is a folder, its size, and whether the system marks it
/// hidden (a file attribute; names starting with a dot are hidden anyway).
#[derive(Debug)]
pub struct FolderItem {
    pub name: String,
    pub path: String,
    pub is_dir: bool,
    pub len: u64,
    pub system_hidden: bool,
}

/// An entry is listed when it is not hidden and is a folder or an audio
/// file.
pub open spec fn listed(item: FolderItem) -> bool {
    &&& !(item.name@.len() > 0 && item.name@[0] == '.')
    &&& !item.system_hidden
    &&& (item.is_dir || is_audio_file_spec(item.path@))
}

/// The row for a listed entry: folders show no size.
pub open spec fn row_of(item: FolderItem) -> EntryView {
    EntryView {
        name: item.name@,
        path: item.path@,
        is_dir: item.is_dir,
        size_bytes: if item.is_dir { 0 } else { item.len },
    }
}

/// Rows by their characters.
pub open spec fn entry_views(s: Seq<BrowserEntry>) -> Seq<EntryView> {
    s.map_values(|e: BrowserEntry| e@)
}

/// The rows for the listed entries, in the order given.
pub open spec fn rows_of(items: Seq<FolderItem>) -> Seq<EntryView>
    decreases items.len(),
{
    if items.len() == 0 {
        Seq::empty()
    } else if listed(items.last()) {
        rows_of(items.drop_last()).push(row_of(items.last()))
    } else {
        rows_of(items.drop_last())
    }
}

/// Whether row `a` sorts strictly before row `b`: folders first, then by
/// lowercased name, then by name.
pub open spec fn sorts_before(a: EntryView, b: EntryView) -> bool {
    if a.is_dir != b.is_dir {
        a.is_dir
    } else if unicode_lowercase(a.name) != unicode_lowercase(b.name) {
        chars_lt(unicode_lowercase(a.name), unicode_lowercase(b.name))
    } else {
        chars_lt(a.name, b.name)
    }
}

/// The sort key of a row.
pub open spec fn row_key(e: EntryView) -> (bool, Seq<char>) {
    (e.is_dir, e.name)
}

/// Rows with the sort key `k`.
pub open spec fn with_key(k: (bool, Seq<char>)) -> spec_fn(EntryView) -> bool {
    |e: EntryView| row_key(e) == k
}

/// No row sorts before an earlier one.
pub open spec fn rows_sorted(s: Seq<EntryView>) -> bool {
    forall|i: int, j: int| 0 <= i < j < s.len() ==> !sorts_before(#[trigger] s[j], #[trigger] s[i])
}

/// `out` is `input` sorted, rows with the same key keeping their order.
pub open spec fn rows_stably_sorted(input: Seq<EntryView>, out: Seq<EntryView>) -> bool {
    &&& rows_sorted(out)
    &&& forall|k: (bool, Seq<char>)| #[trigger] out.filter(with_key(k)) == input.filter(with_key(k))
}

proof fn lemma_before_order(a: EntryView, b: EntryView, c: EntryView)
    ensures
        !sorts_before(a, a),
        row_key(a) != row_key(b) ==> (sorts_before(a, b) || sorts_before(b, a)),
        !(sorts_before(a, b) && sorts_before(b, a)),
        sorts_before(a, b) && sorts_before(b, c) ==> sorts_before(a, c),
        sorts_before(a, b) ==> row_key(a) != row_key(b),
{
    lemma_chars_lt_irreflexive(a.name);
    lemma_chars_lt_irreflexive(unicode_lowercase(a.name));
    lemma_chars_lt_total(a.name, b.name);
    lemma_chars_lt_total(unicode_lowercase(a.name), unicode_lowercase(b.name));
    if sorts_before(a, b) && sorts_before(b, c) {
        let la = unicode_lowercase(a.name);
        let lb = unicode_lowercase(b.name);
        let lc = unicode_lowercase(c.name);
        if a.is_dir == b.is_dir && b.is_dir == c.is_dir {
            if la != lb && lb != lc {
                lemma_chars_lt_transitive(la, lb, lc);
                lemma_chars_lt_total(la, lc);
                lemma_chars_lt_irreflexive(la);
            } else if la == lb && lb == lc {
                lemma_chars_lt_transitive(a.name, b.name, c.name);
            }
        }
    }
}

proof fn lemma_no_key_no_rows(s: Seq<EntryView>, k: (bool, Seq<char>))
    requires
        forall|i: int| 0 <= i < s.len() ==> row_key(#[trigger] s[i]) != k,
    ensures
        s.filter(with_key(k)) == Seq::<EntryView>::empty(),
    decreases s.len(),
{
    reveal_with_fuel(Seq::filter, 1);
    if s.len() > 0 {
        lemma_no_key_no_rows(s.drop_last(), k);
    }
    assert(s.filter(with_key(k)) =~= Seq::<EntryView>::empty());
}

proof fn lemma_insert_row<>(out: Seq<EntryView>, j: int, x: EntryView)
    requires
        rows_sorted(out),
        0 <= j <= out.len(),
        forall|k: int| 0 <= k < j ==> !sorts_before(x, #[trigger] out[k]),
        forall|k: int| j <= k < out.len() ==> sorts_before(x, #[trigger] out[k]),
    ensures
        rows_sorted(out.insert(j, x)),
        forall|k: (bool, Seq<char>)| #[trigger] out.insert(j, x).filter(with_key(k)) == (if k == row_key(x) {
            out.filter(with_key(k)).push(x)
        } else {
            out.filter(with_key(k))
        }),
{
    let after = out.insert(j, x);
    assert(rows_sorted(after)) by {
        assert forall|a: int, b: int| 0 <= a < b < after.len() implies !sorts_before(#[trigger] after[b], #[trigger] after[a]) by {
            if a < j && b < j {
                assert(after[a] == out[a] && after[b] == out[b]);
            } else if a < j && b == j {
                assert(after[a] == out[a]);
            } else if a < j {
                assert(after[a] == out[a] && after[b] == out[b - 1]);
            } else if a == j {
                assert(after[b] == out[b - 1]);
                lemma_before_order(x, out[b - 1], x);
            } else {
                assert(after[a] == out[a - 1] && after[b] == out[b - 1]);
            }
        }
    }
    let front = out.take(j);
    let back = out.skip(j);
    assert(out =~= front + back);
    assert(after =~= front + seq![x] + back);
    assert forall|k: (bool, Seq<char>)| #[trigger] after.filter(with_key(k)) == (if k == row_key(x) {
        out.filter(with_key(k)).push(x)
    } else {
        out.filter(with_key(k))
    }) by {
        let p = with_key(k);
        Seq::filter_distributes_over_add(front + seq![x], back, p);
        Seq::filter_distributes_over_add(front, seq![x], p);
        Seq::filter_distributes_over_add(front, back, p);
        reveal_with_fuel(Seq::filter, 2);
        assert(seq![x].drop_last() =~= Seq::<EntryView>::empty());
        if k == row_key(x) {
            assert forall|i: int| 0 <= i < back.len() implies row_key(#[trigger] back[i]) != k by {
                assert(back[i] == out[j + i]);
                lemma_before_order(x, out[j + i], x);
            }
            lemma_no_key_no_rows(back, k);
            assert(seq![x].filter(p) =~= seq![x]);
            assert(after.filter(p) =~= front.filter(p) + seq![x]);
            assert(out.filter(p) =~= front.filter(p));
        } else {
            assert(seq![x].filter(p) =~= Seq::<EntryView>::empty());
            assert(after.filter(p) =~= front.filter(p) + back.filter(p));
        }
    }
}

/// Whether `a` sorts strictly before `b`.
fn entry_before(a: &BrowserEntry, b: &BrowserEntry) -> (r: bool)
    ensures
        r == sorts_before(a@, b@),
{
    if a.is_dir != b.is_dir {
        return a.is_dir;
    }
    let la = to_lowercase(a.name.as_str());
    let lb = to_lowercase(b.name.as_str());
    if !str_eq(la.as_str(), lb.as_str()) {
        str_lt(la.as_str(), lb.as_str())
    } else {
        str_lt(a.name.as_str(), b.name.as_str())
    }
}

/// The browser's order on two rows: folders first, then by name ignoring
/// case, then by name; rows with the same folder flag and name are equal.
pub fn compare_entries(a: &BrowserEntry, b: &BrowserEntry) -> (o: std::cmp::Ordering)
    ensures
        (o == std::cmp::Ordering::Less) == sorts_before(a@, b@),
        (o == std::cmp::Ordering::Greater) == sorts_before(b@, a@),
        (o == std::cmp::Ordering::Equal) == (row_key(a@) == row_key(b@)),
{
    proof {
        lemma_before_order(a@, b@, a@);
        lemma_before_order(b@, a@, b@);
    }
    if entry_before(a, b) {
        std::cmp::Ordering::Less
    } else if entry_before(b, a) {
        std::cmp::Ordering::Greater
    } else {
        std::cmp::Ordering::Equal
    }
}

/// Sorts rows folders first, then by name ignoring case, then by name;
/// rows with the same folder flag and name keep their order.
pub fn sort_entries(entries: Vec<BrowserEntry>) -> (out: Vec<BrowserEntry>)
    ensures
        rows_stably_sorted(entry_views(entries@), entry_views(out@)),
{
    let ghost input = entry_views(entries@);
    let n = entries.len();
    let mut rest = entries;
    let mut out: Vec<BrowserEntry> = Vec::new();
    let mut i: usize = 0;
    while rest.len() > 0
        invariant
            input.len() == n,
            i + rest@.len() == n,
            entry_views(rest@) == input.skip(i as int),
            rows_sorted(entry_views(out@)),
            forall|k: (bool, Seq<char>)| #[trigger] entry_views(out@).filter(with_key(k))
                == input.take(i as int).filter(with_key(k)),
        decreases rest@.len(),
    {
        let ghost rest_before = rest@;
        let x = rest.remove(0);
        assert(x@ == input[i as int]) by {
            assert(entry_views(rest_before)[0] == x@);
        }
        let ghost ov = entry_views(out@);
        let mut j: usize = 0;
        while j < out.len() && !entry_before(&x, &out[j])
            invariant
                0 <= j <= out@.len(),
                ov == entry_views(out@),
                forall|k: int| 0 <= k < j ==> !sorts_before(x@, #[trigger] ov[k]),
            decreases out@.len() - j,
        {
            j = j + 1;
        }
        proof {
            if j < out@.len() {
                assert(sorts_before(x@, ov[j as int]));
                assert forall|k: int| j <= k < ov.len() implies sorts_before(x@, #[trigger] ov[k]) by {
                    if k > j {
                        assert(!sorts_before(ov[k], ov[j as int]));
                        lemma_before_order(x@, ov[j as int], ov[k]);
                        lemma_before_order(ov[j as int], ov[k], ov[k]);
                        if !sorts_before(ov[j as int], ov[k]) {
                            lemma_before_order(ov[k], ov[j as int], ov[k]);
                        }
                    }
                }
            }
            lemma_insert_row(ov, j as int, x@);
            assert(input.take(i as int + 1) =~= input.take(i as int).push(x@));
            assert forall|k: (bool, Seq<char>)| #[trigger] input.take(i as int + 1).filter(with_key(k)) == (if k == row_key(x@) {
                input.take(i as int).filter(with_key(k)).push(x@)
            } else {
                input.take(i as int).filter(with_key(k))
            }) by {
                reveal_with_fuel(Seq::filter, 1);
                assert(input.take(i as int + 1).drop_last() =~= input.take(i as int));
            }
        }
        let ghost xv = x@;
        out.insert(j, x);
        assert(entry_views(out@) =~= ov.insert(j as int, xv));
        assert(entry_views(rest@) =~= entry_views(rest_before).skip(1));
        assert(entry_views(rest@) =~= input.skip(i as int + 1));
        i = i + 1;
    }
    assert(input.take(i as int) =~= input);
    out
}

/// The browser's rows for one folder's entries: hidden entries and files
/// the engine cannot import are left out, folders show no size, and the
/// rows are sorted folders first, then by name ignoring case.
pub fn browser_rows(items: Vec<FolderItem>) -> (rows: Vec<BrowserEntry>)
    ensures
        rows_stably_sorted(rows_of(items@), entry_views(rows@)),
{
    let ghost all = items@;
    let n = items.len();
    let mut rest = items;
    let mut kept: Vec<BrowserEntry> = Vec::new();
    let mut i: usize = 0;
    while rest.len() > 0
        invariant
            all.len() == n,
            i + rest@.len() == n,
            rest@ == all.skip(i as int),
            entry_views(kept@) == rows_of(all.take(i as int)),
        decreases rest@.len(),
    {
        let item = rest.remove(0);
        assert(item == all[i as int]);
        proof {
            assert(all.take(i as int + 1).drop_last() =~= all.take(i as int));
        }
        let hidden = item.name.as_str().unicode_len() > 0 && item.name.as_str().get_char(0) == '.';
        if !hidden && !item.system_hidden && (item.is_dir || is_audio_file(item.path.as_str())) {
            let ghost before = entry_views(kept@);
            let size = if item.is_dir { 0 } else { item.len };
            let row = BrowserEntry { name: item.name, path: item.path, is_dir: item.is_dir, size_bytes: size };
            kept.push(row);
            assert(entry_views(kept@) =~= before.push(row_of(all[i as int])));
        }
        assert(rest@ =~= all.skip(i as int + 1));
        i = i + 1;
    }
    assert(all.take(i as int) =~= all);
    sort_entries(kept)
}

/// In a sorted listing every folder comes before every file.
pub proof fn lemma_folders_first(s: Seq<EntryView>)
    requires
        rows_sorted(s),
    ensures
        forall|i: int, j: int| 0 <= i < j < s.len() && (#[trigger] s[j]).is_dir ==> (#[trigger] s[i]).is_dir,
{
    assert forall|i: int, j: int| 0 <= i < j < s.len() && (#[trigger] s[j]).is_dir implies (#[trigger] s[i]).is_dir by {
        assert(!sorts_before(s[j], s[i]));
    }
}

/// No listed row is hidden, and each is a folder or a file the engine can
/// import; folders show no size.
pub proof fn lemma_rows_are_listable(items: Seq<FolderItem>)
    ensures
        forall|k: int| 0 <= k < rows_of(items).len() ==> {
            let r = #[trigger] rows_of(items)[k];
            &&& !(r.name.len() > 0 && r.name[0] == '.')
            &&& (r.is_dir || is_audio_file_spec(r.path))
            &&& (r.is_dir ==> r.size_bytes == 0)
        },
    decreases items.len(),
{
    if items.len() > 0 {
        lemma_rows_are_listable(items.drop_last());
        let earlier = rows_of(items.drop_last());
        if listed(items.last()) {
            assert forall|k: int| 0 <= k < rows_of(items).len() implies {
                let r = #[trigger] rows_of(items)[k];
                &&& !(r.name.len() > 0 && r.name[0] == '.')
                &&& (r.is_dir || is_audio_file_spec(r.path))
                &&& (r.is_dir ==> r.size_bytes == 0)
            } by {
                if k < earlier.len() {
                    assert(rows_of(items)[k] == earlier[k]);
                }
            }
        }
    }
}

} // verus!
