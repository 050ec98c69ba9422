//! Project-level records: the metadata a project carries, the plug-in state
//! chunks saved with it, the insert tracks a new project starts with, and
//! the name of the temporary file an atomic save writes first, and the
//! zstd framing of a project file's bytes, and the project's track list.

use vstd::prelude::*;
use crate::seqs::{first_match, lemma_first_match_at, lemma_first_match_none};
use crate::text::{decimal, push_decimal, str_eq};
use crate::arrangement::new_id;
use crate::track::{fresh_track, Track, TrackKind, TrackView};

verus! {

/// How many empty audio inserts a new project starts with.
pub const DEFAULT_INSERT_COUNT: usize = 500;

/// What a project records about itself.
#[derive(Debug)]
pub struct ProjectMetadata {
    pub name: String,
    pub author: String,
    pub sample_rate: u32,
    pub created_at: String,
    pub modified_at: String,
    pub title: String,
    pub genre: String,
    pub info: String,
    pub url: String,
    pub show_on_open: bool,
    pub working_time_seconds: u64,
}

/// The metadata of a new project, stamped `now` (an RFC 3339 time):
/// "Untitled", 48 kHz, everything else empty.
pub fn new_project_metadata(now: &str) -> (m: ProjectMetadata)
    ensures
        m.name@ == "Untitled"@,
        m.author@.len() == 0,
        m.sample_rate == 48000,
        m.created_at@ == now@,
        m.modified_at@ == now@,
        m.title@.len() == 0 && m.genre@.len() == 0 && m.info@.len() == 0 && m.url@.len() == 0,
        !m.show_on_open,
        m.working_time_seconds == 0,
{
    ProjectMetadata {
        name: String::from_str("Untitled"),
        author: String::new(),
        sample_rate: 48000,
        created_at: String::from_str(now),
        modified_at: String::from_str(now),
        title: String::new(),
        genre: String::new(),
        info: String::new(),
        url: String::new(),
        show_on_open: false,
        working_time_seconds: 0,
    }
}

/// A number written with at least three digits, zeros in front.
pub open spec fn pad3(n: nat) -> Seq<char> {
    if n < 10 {
        "00"@ + decimal(n)
    } else if n < 100 {
        "0"@ + decimal(n)
    } else {
        decimal(n)
    }
}

/// The id of the `i`-th insert of a new project: `insert-001` onwards.
pub fn insert_track_id(i: usize) -> (id: String)
    ensures
        id@ == "insert-"@ + pad3(i as nat),
{
    let mut id = String::from_str("insert-");
    if i < 10 {
        id.append("00");
    } else if i < 100 {
        id.append("0");
    }
    push_decimal(&mut id, i as u64);
    id
}

/// The name of the `i`-th insert of a new project: `Insert 1` onwards.
pub fn insert_track_name(i: usize) -> (name: String)
    ensures
        name@ == "Insert "@ + decimal(i as nat),
{
    let mut name = String::from_str("Insert ");
    push_decimal(&mut name, i as u64);
    name
}

/// The sibling file an atomic save writes before renaming it over the
/// target: hidden, and marked with the writing process's id.
pub fn temp_save_name(file_name: &str, process_id: u32) -> (t: String)
    ensures
        t@ == "."@ + file_name@ + ".tmp-"@ + decimal(process_id as nat),
{
    let mut t = String::from_str(".");
    t.append(file_name);
    t.append(".tmp-");
    push_decimal(&mut t, process_id as u64);
    t
}

/// One plug-in's saved state: its instance id, a format tag, and the
/// opaque chunk it returned.
#[derive(Debug)]
pub struct PluginStateEntry {
    pub plugin_instance_id: String,
    pub format_hint: String,
    pub chunk: Vec<u8>,
}

/// A state entry by its characters and bytes.
pub struct StateView {
    pub id: Seq<char>,
    pub format_hint: Seq<char>,
    pub chunk: Seq<u8>,
}

impl View for PluginStateEntry {
    type V = StateView;

    open spec fn view(&self) -> StateView {
        StateView { id: self.plugin_instance_id@, format_hint: self.format_hint@, chunk: self.chunk@ }
    }
}

/// Entries by their views.
pub open spec fn state_views(s: Seq<PluginStateEntry>) -> Seq<StateView> {
    s.map_values(|e: PluginStateEntry| e@)
}

/// Entries for instance `id`.
pub open spec fn state_of(id: Seq<char>) -> spec_fn(StateView) -> bool {
    |e: StateView| e.id == id
}

/// Entries for other instances.
pub open spec fn not_state_of(id: Seq<char>) -> spec_fn(StateView) -> bool {
    |e: StateView| e.id != id
}

fn state_position(states: &Vec<PluginStateEntry>, id: &str) -> (r: Option<usize>)
    ensures
        match r {
            Some(i) => i < states@.len() && first_match(state_views(states@), state_of(id@)) == Some(i as int),
            None => first_match(state_views(states@), state_of(id@)) is None,
        },
{
    let ghost v = state_views(states@);
    let mut i: usize = 0;
    while i < states.len()
        invariant
            0 <= i <= states@.len(),
            v == state_views(states@),
            v.len() == states@.len(),
            forall|k: int| 0 <= k < i ==> (#[trigger] v[k]).id != id@,
        decreases states@.len() - i,
    {
        if str_eq(states[i].plugin_instance_id.as_str(), id) {
            proof {
                lemma_first_match_at(v, state_of(id@), i as int);
            }
            return Some(i);
        }
        i = i + 1;
    }
    proof {
        lemma_first_match_none(v, state_of(id@));
    }
    None
}

/// Stores a plug-in's state, replacing the format and chunk of the first
/// entry for that instance, or appending a new entry.
pub fn set_plugin_state(states: &mut Vec<PluginStateEntry>, plugin_instance_id: &str, format_hint: &str, chunk: Vec<u8>)
    ensures
        state_views(final(states)@) == match first_match(state_views(old(states)@), state_of(plugin_instance_id@)) {
            Some(k) => state_views(old(states)@).update(
                k,
                StateView { id: plugin_instance_id@, format_hint: format_hint@, chunk: chunk@ },
            ),
            None => state_views(old(states)@).push(
                StateView { id: plugin_instance_id@, format_hint: format_hint@, chunk: chunk@ },
            ),
        },
{
    let ghost before = state_views(states@);
    let entry = PluginStateEntry {
        plugin_instance_id: String::from_str(plugin_instance_id),
        format_hint: String::from_str(format_hint),
        chunk,
    };
    let ghost ev = entry@;
    match state_position(states, plugin_instance_id) {
        Some(i) => {
            states.set(i, entry);
            assert(state_views(states@) =~= before.update(i as int, ev));
        },
        None => {
            states.push(entry);
            assert(state_views(states@) =~= before.push(ev));
        },
    }
}

/// The state stored for an instance: its first entry.
pub fn plugin_state<'a>(states: &'a Vec<PluginStateEntry>, plugin_instance_id: &str) -> (r: Option<&'a PluginStateEntry>)
    ensures
        match first_match(state_views(states@), state_of(plugin_instance_id@)) {
            Some(k) => r is Some && r->0@ == state_views(states@)[k],
            None => r is None,
        },
{
    match state_position(states, plugin_instance_id) {
        Some(i) => Some(&states[i]),
        None => None,
    }
}

/// Drops every entry for an instance; `true` when one was dropped.
pub fn remove_plugin_state(states: &mut Vec<PluginStateEntry>, plugin_instance_id: &str) -> (removed: bool)
    ensures
        state_views(final(states)@) == state_views(old(states)@).filter(not_state_of(plugin_instance_id@)),
        removed == (final(states)@.len() != old(states)@.len()),
{
    let ghost all = state_views(states@);
    let mut rest: Vec<PluginStateEntry> = Vec::new();
    std::mem::swap(&mut rest, states);
    let ghost rest0 = rest@;
    let n = rest.len();
    let mut i: usize = 0;
    while rest.len() > 0
        invariant
            all.len() == n,
            all == state_views(rest0),
            i + rest@.len() == n,
            rest@ == rest0.skip(i as int),
            state_views(states@) == all.take(i as int).filter(not_state_of(plugin_instance_id@)),
        decreases rest@.len(),
    {
        let e = rest.remove(0);
        assert(e@ == all[i as int]);
        proof {
            reveal_with_fuel(Seq::filter, 1);
            assert(all.take(i as int + 1).drop_last() =~= all.take(i as int));
        }
        if !str_eq(e.plugin_instance_id.as_str(), plugin_instance_id) {
            let ghost before = state_views(states@);
            let ghost ev = e@;
            states.push(e);
            assert(state_views(states@) =~= before.push(ev));
        }
        assert(rest@ =~= rest0.skip(i as int + 1));
        i = i + 1;
    }
    assert(all.take(i as int) =~= all);
    proof {
        all.lemma_filter_len(not_state_of(plugin_instance_id@));
    }
    states.len() != n
}

/// Storing a state and reading it back gives what was stored; removing it
/// leaves no entry for the instance.
pub proof fn lemma_state_round_trip(states: Seq<StateView>, id: Seq<char>, entry: StateView)
    requires
        entry.id == id,
    ensures
        ({
            let after = match first_match(states, state_of(id)) {
                Some(k) => states.update(k, entry),
                None => states.push(entry),
            };
            first_match(after, state_of(id)) matches Some(j) && after[j] == entry
        }),
        first_match(states.filter(not_state_of(id)), state_of(id)) is None,
{
    crate::seqs::lemma_first_match_props(states, state_of(id));
    match first_match(states, state_of(id)) {
        Some(k) => {
            let after = states.update(k, entry);
            assert forall|j: int| 0 <= j < k implies !(state_of(id))(#[trigger] after[j]) by {
                assert(after[j] == states[j]);
            }
            lemma_first_match_at(after, state_of(id), k);
        },
        None => {
            let after = states.push(entry);
            assert forall|j: int| 0 <= j < states.len() implies !(state_of(id))(#[trigger] after[j]) by {
                assert(after[j] == states[j]);
            }
            lemma_first_match_at(after, state_of(id), states.len() as int);
        },
    }
    let kept = states.filter(not_state_of(id));
    assert forall|j: int| 0 <= j < kept.len() implies !(state_of(id))(#[trigger] kept[j]) by {
        states.lemma_filter_pred(not_state_of(id), j);
    }
    lemma_first_match_none(kept, state_of(id));
}


/// Tracks by their views.
pub open spec fn track_views<B>(s: Seq<Track<B>>) -> Seq<TrackView<B>> {
    s.map_values(|t: Track<B>| t@)
}

/// Tracks with id `id`.
pub open spec fn track_is<B>(id: Seq<char>) -> spec_fn(TrackView<B>) -> bool {
    |t: TrackView<B>| t.id == id
}

/// Tracks with another id.
pub open spec fn track_is_not<B>(id: Seq<char>) -> spec_fn(TrackView<B>) -> bool {
    |t: TrackView<B>| t.id != id
}

fn track_position<B>(tracks: &Vec<Track<B>>, id: &str) -> (r: Option<usize>)
    ensures
        match r {
            Some(i) => i < tracks@.len() && first_match(track_views(tracks@), track_is::<B>(id@)) == Some(i as int),
            None => first_match(track_views(tracks@), track_is::<B>(id@)) is None,
        },
{
    let ghost v = track_views(tracks@);
    let mut i: usize = 0;
    while i < tracks.len()
        invariant
            0 <= i <= tracks@.len(),
            v == track_views(tracks@),
            v.len() == tracks@.len(),
            forall|k: int| 0 <= k < i ==> (#[trigger] v[k]).id != id@,
        decreases tracks@.len() - i,
    {
        if str_eq(tracks[i].id.as_str(), id) {
            proof {
                lemma_first_match_at(v, track_is::<B>(id@), i as int);
            }
            return Some(i);
        }
        i = i + 1;
    }
    proof {
        lemma_first_match_none(v, track_is::<B>(id@));
    }
    None
}

/// Appends a new audio track named `name` under a fresh random id, which
/// is returned.
pub fn add_audio_track<B>(tracks: &mut Vec<Track<B>>, name: String, body: B) -> (id: String)
    ensures
        track_views(final(tracks)@) == track_views(old(tracks)@).push(fresh_track(id@, name@, TrackKind::Audio, body)),
{
    let id = new_id();
    let ghost before = track_views(tracks@);
    let t = Track::new_audio(id.clone(), name, body);
    let ghost tv = t@;
    tracks.push(t);
    assert(track_views(tracks@) =~= before.push(tv));
    id
}

/// Appends a new MIDI track named `name` under a fresh random id, which
/// is returned.
pub fn add_midi_track<B>(tracks: &mut Vec<Track<B>>, name: String, body: B) -> (id: String)
    ensures
        track_views(final(tracks)@) == track_views(old(tracks)@).push(fresh_track(id@, name@, TrackKind::Midi, body)),
{
    let id = new_id();
    let ghost before = track_views(tracks@);
    let t = Track::new_midi(id.clone(), name, body);
    let ghost tv = t@;
    tracks.push(t);
    assert(track_views(tracks@) =~= before.push(tv));
    id
}

/// Drops every track with id `id`, keeping the others in order.
pub fn remove_track<B>(tracks: &mut Vec<Track<B>>, id: &str)
    ensures
        track_views(final(tracks)@) == track_views(old(tracks)@).filter(track_is_not::<B>(id@)),
{
    let ghost all = track_views(tracks@);
    let mut rest: Vec<Track<B>> = Vec::new();
    std::mem::swap(&mut rest, tracks);
    let ghost rest0 = rest@;
    let n = rest.len();
    let mut i: usize = 0;
    while rest.len() > 0
        invariant
            all.len() == n,
            all == track_views(rest0),
            i + rest@.len() == n,
            rest@ == rest0.skip(i as int),
            track_views(tracks@) == all.take(i as int).filter(track_is_not::<B>(id@)),
        decreases rest@.len(),
    {
        let t = rest.remove(0);
        assert(t@ == all[i as int]);
        proof {
            reveal_with_fuel(Seq::filter, 1);
            assert(all.take(i as int + 1).drop_last() =~= all.take(i as int));
        }
        if !str_eq(t.id.as_str(), id) {
            let ghost before = track_views(tracks@);
            let ghost tv = t@;
            tracks.push(t);
            assert(track_views(tracks@) =~= before.push(tv));
        }
        assert(rest@ =~= rest0.skip(i as int + 1));
        i = i + 1;
    }
    assert(all.take(i as int) =~= all);
}

/// The first track with id `id`.
pub fn track<'a, B>(tracks: &'a Vec<Track<B>>, id: &str) -> (r: Option<&'a Track<B>>)
    ensures
        match first_match(track_views(tracks@), track_is::<B>(id@)) {
            Some(k) => r is Some && r->0@ == track_views(tracks@)[k],
            None => r is None,
        },
{
    match track_position(tracks, id) {
        Some(i) => Some(&tracks[i]),
        None => None,
    }
}

/// The first track with id `id`, to change in place.
pub fn track_mut<'a, B>(tracks: &'a mut Vec<Track<B>>, id: &str) -> (r: Option<&'a mut Track<B>>)
    ensures
        match first_match(track_views(old(tracks)@), track_is::<B>(id@)) {
            Some(k) => r matches Some(t) && *t == old(tracks)@[k] && final(tracks)@ == old(tracks)@.update(k, *final(t)),
            None => r is None && final(tracks)@ == old(tracks)@,
        },
{
    match track_position(tracks, id) {
        Some(i) => Some(&mut tracks[i]),
        None => None,
    }
}

/// After a track is removed, looking it up finds nothing.
pub proof fn lemma_removed_track_is_gone<B>(tracks: Seq<TrackView<B>>, id: Seq<char>)
    ensures
        first_match(tracks.filter(track_is_not::<B>(id)), track_is::<B>(id)) is None,
{
    let kept = tracks.filter(track_is_not::<B>(id));
    assert forall|j: int| 0 <= j < kept.len() implies !(track_is::<B>(id))(#[trigger] kept[j]) by {
        tracks.lemma_filter_pred(track_is_not::<B>(id), j);
    }
    lemma_first_match_none(kept, track_is::<B>(id));
}

/// The zstd level a project file is compressed at.
pub const PROJECT_ZSTD_LEVEL: i32 = 3;

/// The zstd frame `zstd::encode_all` writes for `data` at `level`.
pub uninterp spec fn zstd_frame(data: Seq<u8>, level: i32) -> Seq<u8>;

/// What `zstd::decode_all` makes of some bytes: the data, or `None` when
/// they are not a frame it can read.
pub uninterp spec fn zstd_decoded(frame: Seq<u8>) -> Option<Seq<u8>>;

/// Compresses in-memory bytes with `zstd::encode_all`. Claims that a
/// successful call returns the named frame of the data at that level, and
/// that this frame decodes to the data again (zstd is lossless, which the
/// crate's own cycle tests check). Claims too that it succeeds at an
/// ordinary level: the source reads a slice and writes a `Vec`, neither of
/// which fails, and setting a level zstd clamps rather than refuses; only a
/// failed allocation is left, and Rust aborts on that.
#[verifier::external_body]
fn zstd_encode(data: &[u8], level: i32) -> (r: Option<Vec<u8>>)
    ensures
        r matches Some(v) ==> v@ == zstd_frame(data@, level) && zstd_decoded(v@) == Some(data@),
        1 <= level <= 19 ==> r is Some,
{
    zstd::encode_all(data, level).ok()
}

/// Decompresses in-memory bytes with `zstd::decode_all`; claims only that
/// the result is the named decoding of the bytes.
#[verifier::external_body]
fn zstd_decode(frame: &[u8]) -> (r: Option<Vec<u8>>)
    ensures
        match r {
            Some(v) => zstd_decoded(frame@) == Some(v@),
            None => zstd_decoded(frame@) is None,
        },
{
    zstd::decode_all(frame).ok()
}

/// Why a project file's bytes could not be packed or unpacked.
#[derive(Debug, Clone, Copy, PartialEq, Eq, Structural)]
pub enum ProjectFileError {
    /// The compressor could not be set up.
    Compress,
    /// The bytes are not a zstd frame the decompressor can read.
    Decompress,
}

/// The bytes of a `.hwp` file for a serialized project: its MessagePack
/// encoding compressed as one zstd frame at the project level. It always
/// succeeds; `Compress` stays in the type for the file format's errors.
pub fn pack_project(encoded: &[u8]) -> (r: Result<Vec<u8>, ProjectFileError>)
    ensures
        r matches Ok(v) && v@ == zstd_frame(encoded@, PROJECT_ZSTD_LEVEL) && zstd_decoded(v@) == Some(encoded@),
{
    match zstd_encode(encoded, PROJECT_ZSTD_LEVEL) {
        Some(v) => Ok(v),
        None => Err(ProjectFileError::Compress),
    }
}

/// The serialized project inside a `.hwp` file's bytes. A file written by
/// `pack_project` gives back exactly the bytes that were packed.
pub fn unpack_project(file: &[u8]) -> (r: Result<Vec<u8>, ProjectFileError>)
    ensures
        match r {
            Ok(v) => zstd_decoded(file@) == Some(v@),
            Err(e) => zstd_decoded(file@) is None && e == ProjectFileError::Decompress,
        },
{
    match zstd_decode(file) {
        Some(v) => Ok(v),
        None => Err(ProjectFileError::Decompress),
    }
}

} // verus!
