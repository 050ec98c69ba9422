//! Plug-in user presets: the file-system-safe names a preset's files get,
//! and the index of saved presets, newest first.

use vstd::prelude::*;
use crate::seqs::{first_match, lemma_first_match_at, lemma_first_match_none};
use crate::text::{str_eq, to_lowercase, trim, trim_spec, unicode_lowercase};

verus! {

/// A saved preset as the index lists it.
#[derive(Debug)]
pub struct PresetInfo {
    pub id: String,
    pub name: String,
    pub created_at: u64,
}

/// A preset by its characters.
pub struct PresetView {
    pub id: Seq<char>,
    pub name: Seq<char>,
    pub created_at: u64,
}

impl View for PresetInfo {
    type V = PresetView;

    open spec fn view(&self) -> PresetView {
        PresetView { id: self.id@, name: self.name@, created_at: self.created_at }
    }
}

/// Presets by their views.
pub open spec fn preset_views(s: Seq<PresetInfo>) -> Seq<PresetView> {
    s.map_values(|p: PresetInfo| p@)
}

/// A character kept in a directory or file name: `a`-`z`, `0`-`9`, `.`,
/// `-` and `_`; anything else becomes `_`.
pub open spec fn safe_char(c: char) -> char {
    if ('a' <= c && c <= 'z') || ('0' <= c && c <= '9') || c == '.' || c == '-' || c == '_' {
        c
    } else {
        '_'
    }
}

/// A plug-in or preset id made safe as a file name: lowercased, then every
/// character outside `[a-z0-9._-]` replaced with `_`.
pub open spec fn sanitize_spec(s: Seq<char>) -> Seq<char> {
    unicode_lowercase(s).map_values(|c: char| safe_char(c))
}

/// The file-system-safe form of an id.
pub fn sanitize(s: &str) -> (r: String)
    ensures
        r@ == sanitize_spec(s@),
{
    let lower = to_lowercase(s);
    let l = lower.as_str();
    let n = l.unicode_len();
    let mut out = String::new();
    let mut i: usize = 0;
    while i < n
        invariant
            n == l@.len(),
            l@ == unicode_lowercase(s@),
            0 <= i <= n,
            out@ == l@.take(i as int).map_values(|c: char| safe_char(c)),
        decreases n - i,
    {
        let c = l.get_char(i);
        let kept = if ('a' <= c && c <= 'z') || ('0' <= c && c <= '9') || c == '.' || c == '-' || c == '_' {
            c
        } else {
            '_'
        };
        out.push(kept);
        assert(l@.take(i as int + 1) =~= l@.take(i as int).push(c));
        assert(out@ =~= l@.take(i as int + 1).map_values(|c: char| safe_char(c)));
        i = i + 1;
    }
    assert(l@.take(n as int) =~= l@);
    out
}

/// The name of a preset's index file.
pub open spec fn index_file_name() -> Seq<char> {
    "index.json"@
}

/// The name of a preset's index file, inside its plug-in's directory.
pub fn index_file() -> (r: String)
    ensures
        r@ == index_file_name(),
{
    String::from_str("index.json")
}

/// The name of the file holding a preset's state: its id made safe, then
/// `.bin`.
pub fn blob_file_name(preset_id: &str) -> (r: String)
    ensures
        r@ == sanitize_spec(preset_id@) + ".bin"@,
{
    let mut r = sanitize(preset_id);
    r.append(".bin");
    r
}

/// The index entry for a newly saved preset: its name trimmed.
pub fn new_preset(id: String, name: &str, created_at: u64) -> (p: PresetInfo)
    ensures
        p@ == (PresetView { id: id@, name: trim_spec(name@), created_at }),
{
    PresetInfo { id, name: trim(name), created_at }
}

/// Adds a saved preset at the front of the index, newest first.
pub fn add_to_index(list: &mut Vec<PresetInfo>, info: PresetInfo)
    ensures
        preset_views(final(list)@) == seq![info@] + preset_views(old(list)@),
{
    let ghost before = preset_views(list@);
    let ghost v = info@;
    list.insert(0, info);
    assert(preset_views(list@) =~= seq![v] + before);
}

/// Presets other than `id`.
pub open spec fn not_preset(id: Seq<char>) -> spec_fn(PresetView) -> bool {
    |p: PresetView| p.id != id
}

/// Drops every index entry for `id`.
pub fn remove_from_index(list: &mut Vec<PresetInfo>, id: &str)
    ensures
        preset_views(final(list)@) == preset_views(old(list)@).filter(not_preset(id@)),
{
    let ghost all = preset_views(list@);
    let mut rest: Vec<PresetInfo> = Vec::new();
    std::mem::swap(&mut rest, list);
    let ghost rest0 = rest@;
    let n = rest.len();
    let mut i: usize = 0;
    while rest.len() > 0
        invariant
            all.len() == n,
            all == preset_views(rest0),
            i + rest@.len() == n,
            rest@ == rest0.skip(i as int),
            preset_views(list@) == all.take(i as int).filter(not_preset(id@)),
        decreases rest@.len(),
    {
        let p = rest.remove(0);
        assert(p@ == all[i as int]);
        proof {
            reveal_with_fuel(Seq::filter, 1);
            assert(all.take(i as int + 1).drop_last() =~= all.take(i as int));
        }
        if !str_eq(p.id.as_str(), id) {
            let ghost before = preset_views(list@);
            let ghost pv = p@;
            list.push(p);
            assert(preset_views(list@) =~= before.push(pv));
        }
        assert(rest@ =~= rest0.skip(i as int + 1));
        i = i + 1;
    }
    assert(all.take(i as int) =~= all);
}

/// The index position of preset `id`, if listed.
pub open spec fn preset_index(list: Seq<PresetView>, id: Seq<char>) -> Option<int> {
    first_match(list, |p: PresetView| p.id == id)
}

/// Renames the first entry for `id` to the trimmed new name; an id not in
/// the index is an error naming it, and the index is left as it was.
pub fn rename_in_index(list: &mut Vec<PresetInfo>, id: &str, new_name: &str) -> (r: Result<(), String>)
    ensures
        match preset_index(preset_views(old(list)@), id@) {
            Some(k) => r is Ok && preset_views(final(list)@) == preset_views(old(list)@).update(
                k,
                PresetView { name: trim_spec(new_name@), ..preset_views(old(list)@)[k] },
            ),
            None => (r matches Err(m) && m@ == "preset "@ + id@ + " not found"@) && final(list)@ == old(list)@,
        },
{
    let ghost all = preset_views(list@);
    let mut i: usize = 0;
    while i < list.len()
        invariant
            0 <= i <= list@.len(),
            list@ == old(list)@,
            all == preset_views(list@),
            all.len() == list@.len(),
            forall|k: int| 0 <= k < i ==> (#[trigger] all[k]).id != id@,
        decreases list@.len() - i,
    {
        if str_eq(list[i].id.as_str(), id) {
            proof {
                lemma_first_match_at(all, |p: PresetView| p.id == id@, i as int);
            }
            let mut p = list.remove(i);
            p.name = trim(new_name);
            let ghost pv = p@;
            list.insert(i, p);
            assert(preset_views(list@) =~= all.update(i as int, pv));
            return Ok(());
        }
        i = i + 1;
    }
    proof {
        lemma_first_match_none(all, |p: PresetView| p.id == id@);
    }
    let mut m = String::from_str("preset ");
    m.append(id);
    m.append(" not found");
    Err(m)
}

/// Whatever an id holds, its safe form has only `[a-z0-9._-]`.
pub proof fn lemma_sanitized_names_are_safe(s: Seq<char>)
    ensures
        forall|k: int| 0 <= k < sanitize_spec(s).len() ==> {
            let c = #[trigger] sanitize_spec(s)[k];
            ('a' <= c && c <= 'z') || ('0' <= c && c <= '9') || c == '.' || c == '-' || c == '_'
        },
{
}

} // verus!
