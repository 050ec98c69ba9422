//! Scripting contracts: the script library with its exclusive keyboard
//! shortcuts, the REST reply shape, and the MIDI controller mappings and
//! how an incoming CC finds its mapping.

use vstd::prelude::*;
use crate::seqs::{first_match, lemma_first_match_at, lemma_first_match_none, lemma_first_match_props};
use crate::text::{decimal, push_decimal, str_eq};

verus! {

/// Where a script came from.
#[derive(Debug, Clone, Copy, PartialEq, Eq, Structural)]
pub enum ScriptKind {
    UserAuthored,
    MacroRecording,
    Generated,
}

/// A Lua script with a stable id, so shortcut bindings survive renames.
#[derive(Debug)]
pub struct Script {
    pub id: String,
    pub name: String,
    pub body: String,
    pub kind: ScriptKind,
    pub keyboard_shortcut: Option<String>,
}

impl Script {
    /// A user-authored script without a shortcut.
    pub fn new(id: &str, name: &str, body: &str) -> (s: Script)
        ensures
            s.id@ == id@,
            s.name@ == name@,
            s.body@ == body@,
            s.kind == ScriptKind::UserAuthored,
            s.keyboard_shortcut is None,
    {
        Script {
            id: String::from_str(id),
            name: String::from_str(name),
            body: String::from_str(body),
            kind: ScriptKind::UserAuthored,
            keyboard_shortcut: None,
        }
    }
}

/// Whether a script is bound to `chord`.
pub open spec fn bound_to(s: Script, chord: Seq<char>) -> bool {
    s.keyboard_shortcut is Some && s.keyboard_shortcut->0@ == chord
}

/// The script with an id.
pub open spec fn script_index(scripts: Seq<Script>, id: Seq<char>) -> Option<int> {
    first_match(scripts, has_id(id))
}

/// Scripts with id `id`.
pub open spec fn has_id(id: Seq<char>) -> spec_fn(Script) -> bool {
    |s: Script| s.id@ == id
}

/// Scripts bound to `chord`.
pub open spec fn holds_chord(chord: Seq<char>) -> spec_fn(Script) -> bool {
    |s: Script| bound_to(s, chord)
}

/// Scripts whose id is not `id`.
pub open spec fn not_script(id: Seq<char>) -> spec_fn(Script) -> bool {
    |s: Script| s.id@ != id
}

/// The shortcut script `k` holds after `chord` is bound to the script `id`:
/// the bound script gets the chord, any other script holding it loses it.
pub open spec fn rebound(scripts: Seq<Script>, k: int, id: Seq<char>, chord: Seq<char>) -> Option<Seq<char>> {
    if script_index(scripts, id) == Some(k) {
        Some(chord)
    } else if bound_to(scripts[k], chord) && scripts[k].id@ != id {
        None
    } else {
        match scripts[k].keyboard_shortcut {
            Some(c) => Some(c@),
            None => None,
        }
    }
}

/// The library of scripts loaded at startup.
#[derive(Debug)]
pub struct ScriptLibrary {
    pub scripts: Vec<Script>,
}

fn has_shortcut(s: &Script, chord: &str) -> (b: bool)
    ensures
        b == bound_to(*s, chord@),
{
    match &s.keyboard_shortcut {
        Some(c) => str_eq(c.as_str(), chord),
        None => false,
    }
}

fn find_script(scripts: &Vec<Script>, id: &str) -> (r: Option<usize>)
    ensures
        match script_index(scripts@, id@) {
            Some(i) => 0 <= i < scripts@.len() && r is Some && r->0 as int == i,
            None => r is None,
        },
{
    let mut i: usize = 0;
    while i < scripts.len()
        invariant
            0 <= i <= scripts@.len(),
            forall|j: int| 0 <= j < i ==> scripts@[j].id@ != id@,
        decreases scripts@.len() - i,
    {
        if str_eq(scripts[i].id.as_str(), id) {
            proof {
                lemma_first_match_at(scripts@, has_id(id@), i as int);
            }
            return Some(i);
        }
        i = i + 1;
    }
    proof {
        lemma_first_match_none(scripts@, has_id(id@));
    }
    None
}

impl ScriptLibrary {
    /// An empty library.
    pub fn new() -> (l: ScriptLibrary)
        ensures
            l.scripts@.len() == 0,
    {
        ScriptLibrary { scripts: Vec::new() }
    }

    /// Adds a script unless its id is taken; `true` when added.
    pub fn add(&mut self, script: Script) -> (added: bool)
        ensures
            added == (script_index(old(self).scripts@, script.id@) is None),
            added ==> final(self).scripts@ == old(self).scripts@.push(script),
            !added ==> final(self).scripts@ == old(self).scripts@,
    {
        if find_script(&self.scripts, script.id.as_str()).is_some() {
            return false;
        }
        self.scripts.push(script);
        true
    }

    /// Removes every script with id `id`; `true` when one was removed.
    pub fn remove(&mut self, id: &str) -> (removed: bool)
        ensures
            final(self).scripts@ == old(self).scripts@.filter(not_script(id@)),
            removed == (final(self).scripts@.len() != old(self).scripts@.len()),
    {
        let mut kept: Vec<Script> = Vec::new();
        let mut rest: Vec<Script> = Vec::new();
        std::mem::swap(&mut rest, &mut self.scripts);
        let ghost all = rest@;
        let n = rest.len();
        let mut i: usize = 0;
        while i < n
            invariant
                n == all.len(),
                0 <= i <= n,
                rest@ == all.skip(i as int),
                kept@ == all.take(i as int).filter(not_script(id@)),
            decreases n - i,
        {
            let s = rest.remove(0);
            proof {
                assert(rest@ =~= all.skip(i as int + 1));
                assert(all.take(i as int + 1).drop_last() =~= all.take(i as int));
                assert(all.take(i as int + 1).last() == all[i as int]);
                reveal_with_fuel(Seq::filter, 1);
            }
            if !str_eq(s.id.as_str(), id) {
                kept.push(s);
            }
            i = i + 1;
        }
        assert(all.take(n as int) =~= all);
        self.scripts = kept;
        self.scripts.len() != n
    }

    /// The first script bound to `chord`.
    pub fn by_shortcut(&self, chord: &str) -> (r: Option<&Script>)
        ensures
            match first_match(self.scripts@, holds_chord(chord@)) {
                Some(i) => r == Some(&self.scripts@[i]),
                None => r is None,
            },
    {
        let mut i: usize = 0;
        while i < self.scripts.len()
            invariant
                0 <= i <= self.scripts@.len(),
                forall|j: int| 0 <= j < i ==> !bound_to(#[trigger] self.scripts@[j], chord@),
            decreases self.scripts@.len() - i,
        {
            if has_shortcut(&self.scripts[i], chord) {
                proof {
                    lemma_first_match_at(self.scripts@, holds_chord(chord@), i as int);
                }
                return Some(&self.scripts[i]);
            }
            i = i + 1;
        }
        proof {
            lemma_first_match_none(self.scripts@, holds_chord(chord@));
        }
        None
    }

    /// Binds `chord` to the script `id`, taking it from any other script so
    /// shortcuts stay exclusive; `false` when no script has that id (the
    /// chord is still taken from the others).
    pub fn bind_shortcut(&mut self, id: &str, chord: &str) -> (bound: bool)
        ensures
            bound == (script_index(old(self).scripts@, id@) is Some),
            final(self).scripts@.len() == old(self).scripts@.len(),
            forall|k: int| 0 <= k < final(self).scripts@.len() ==> {
                &&& (#[trigger] final(self).scripts@[k]).id == old(self).scripts@[k].id
                &&& final(self).scripts@[k].name == old(self).scripts@[k].name
                &&& final(self).scripts@[k].body == old(self).scripts@[k].body
                &&& final(self).scripts@[k].kind == old(self).scripts@[k].kind
                &&& match final(self).scripts@[k].keyboard_shortcut {
                    Some(c) => rebound(old(self).scripts@, k, id@, chord@) == Some(c@),
                    None => rebound(old(self).scripts@, k, id@, chord@) is None,
                }
            },
    {
        let target = find_script(&self.scripts, id);
        let mut done: Vec<Script> = Vec::new();
        let mut rest: Vec<Script> = Vec::new();
        std::mem::swap(&mut rest, &mut self.scripts);
        let ghost all = rest@;
        let n = rest.len();
        let mut i: usize = 0;
        while i < n
            invariant
                n == all.len(),
                0 <= i <= n,
                rest@ == all.skip(i as int),
                done@.len() == i,
                match script_index(all, id@) {
                    Some(t) => 0 <= t < all.len() && target is Some && target->0 as int == t,
                    None => target is None,
                },
                forall|k: int| 0 <= k < i ==> {
                    &&& (#[trigger] done@[k]).id == all[k].id
                    &&& done@[k].name == all[k].name
                    &&& done@[k].body == all[k].body
                    &&& done@[k].kind == all[k].kind
                    &&& match done@[k].keyboard_shortcut {
                        Some(c) => rebound(all, k, id@, chord@) == Some(c@),
                        None => rebound(all, k, id@, chord@) is None,
                    }
                },
            decreases n - i,
        {
            let s = rest.remove(0);
            proof {
                assert(s == all[i as int]);
                assert(rest@ =~= all.skip(i as int + 1));
            }
            let is_target = match target {
                Some(t) => t == i,
                None => false,
            };
            let shortcut = if is_target {
                Some(String::from_str(chord))
            } else if has_shortcut(&s, chord) && !str_eq(s.id.as_str(), id) {
                None
            } else {
                s.keyboard_shortcut
            };
            done.push(Script { id: s.id, name: s.name, body: s.body, kind: s.kind, keyboard_shortcut: shortcut });
            i = i + 1;
        }
        self.scripts = done;
        target.is_some()
    }
}

/// Law: after a chord is bound, no script but the one named holds it, and
/// looking the chord up finds that script when it exists, and nothing
/// otherwise. `after` is any library that `bind_shortcut(id, chord)` can
/// leave behind `before`, as its contract states.
pub proof fn lemma_shortcuts_stay_exclusive(before: Seq<Script>, after: Seq<Script>, id: Seq<char>, chord: Seq<char>, bound: bool)
    requires
        bound == (script_index(before, id) is Some),
        after.len() == before.len(),
        forall|k: int| 0 <= k < after.len() ==> {
            &&& (#[trigger] after[k]).id == before[k].id
            &&& match after[k].keyboard_shortcut {
                Some(c) => rebound(before, k, id, chord) == Some(c@),
                None => rebound(before, k, id, chord) is None,
            }
        },
    ensures
        forall|k: int| 0 <= k < after.len() && bound_to(#[trigger] after[k], chord) ==> after[k].id@ == id,
        bound ==> (first_match(after, holds_chord(chord)) matches Some(t) && after[t].id@ == id && script_index(
            before,
            id,
        ) == Some(t)),
        !bound ==> first_match(after, holds_chord(chord)) is None,
{
    lemma_first_match_props(before, has_id(id));
    assert forall|k: int| 0 <= k < after.len() && bound_to(#[trigger] after[k], chord) implies after[k].id@ == id by {
        assert(rebound(before, k, id, chord) == Some(chord));
    }
    match script_index(before, id) {
        Some(t) => {
            assert(bound_to(after[t], chord)) by {
                assert(rebound(before, t, id, chord) == Some(chord));
            }
            assert forall|j: int| 0 <= j < t implies !(holds_chord(chord))(#[trigger] after[j]) by {
                if bound_to(after[j], chord) {
                    assert(after[j].id@ == id);
                    assert(!(has_id(id))(before[j]));
                }
            }
            lemma_first_match_at(after, holds_chord(chord), t);
        },
        None => {
            assert forall|j: int| 0 <= j < after.len() implies !(holds_chord(chord))(#[trigger] after[j]) by {
                if bound_to(after[j], chord) {
                    assert(after[j].id@ == id);
                    assert(!(has_id(id))(before[j]));
                }
            }
            lemma_first_match_none(after, holds_chord(chord));
        },
    }
}

/// The REST bridge's reply.
#[derive(Debug)]
pub struct RestResponse {
    pub ok: bool,
    pub error: Option<String>,
}

/// What a MIDI controller mapping drives.
#[derive(Debug)]
pub enum MidiMappingTarget {
    RunScript { script_id: String },
    SetTrackVolume { track_id: String },
    SetTrackPan { track_id: String },
    TransportToggle,
}

/// A MIDI controller mapping: the CC number and channel it listens to,
/// what it drives, and the range `scale` its values are mapped into.
#[derive(Debug)]
pub struct MidiMapping<S> {
    pub cc_number: u8,
    pub cc_channel: u8,
    pub target: MidiMappingTarget,
    pub scale: S,
}

/// The mappings the MIDI engine routes incoming CC messages by.
#[derive(Debug)]
pub struct MidiMappingTable<S> {
    pub mappings: Vec<MidiMapping<S>>,
}

/// Mappings that listen to `cc` on `channel`.
pub open spec fn listens_to<S>(cc: u8, channel: u8) -> spec_fn(MidiMapping<S>) -> bool {
    |m: MidiMapping<S>| m.cc_number == cc && m.cc_channel == channel
}

impl<S> MidiMappingTable<S> {
    /// The first mapping that listens to `cc_number` on `cc_channel`.
    pub fn resolve(&self, cc_number: u8, cc_channel: u8) -> (r: Option<&MidiMapping<S>>)
        ensures
            match first_match(self.mappings@, listens_to::<S>(cc_number, cc_channel)) {
                Some(k) => r == Some(&self.mappings@[k]),
                None => r is None,
            },
    {
        let mut i: usize = 0;
        while i < self.mappings.len()
            invariant
                0 <= i <= self.mappings@.len(),
                forall|k: int| 0 <= k < i ==> !(listens_to::<S>(cc_number, cc_channel))(#[trigger] self.mappings@[k]),
            decreases self.mappings@.len() - i,
        {
            let m = &self.mappings[i];
            if m.cc_number == cc_number && m.cc_channel == cc_channel {
                proof {
                    lemma_first_match_at(self.mappings@, listens_to::<S>(cc_number, cc_channel), i as int);
                }
                return Some(m);
            }
            i = i + 1;
        }
        proof {
            lemma_first_match_none(self.mappings@, listens_to::<S>(cc_number, cc_channel));
        }
        None
    }
}

/// Records user actions while switched on, for replay or export as Lua.
#[derive(Debug)]
pub struct MacroRecorder<C> {
    recording: bool,
    commands: Vec<C>,
}

impl<C> MacroRecorder<C> {
    /// A recorder that is off and holds nothing.
    pub fn new() -> (r: MacroRecorder<C>)
        ensures
            !r.is_recording_spec(),
            r.recorded_spec() == Seq::<C>::empty(),
    {
        MacroRecorder { recording: false, commands: Vec::new() }
    }

    /// Whether the recorder is on.
    pub closed spec fn is_recording_spec(&self) -> bool {
        self.recording
    }

    /// What has been recorded since the last start.
    pub closed spec fn recorded_spec(&self) -> Seq<C> {
        self.commands@
    }

    /// Switches recording on with an empty sequence.
    pub fn start(&mut self)
        ensures
            final(self).is_recording_spec(),
            final(self).recorded_spec() == Seq::<C>::empty(),
    {
        self.recording = true;
        self.commands.clear();
    }

    /// Switches recording off and hands over what was recorded, leaving
    /// the recorder empty.
    pub fn stop(&mut self) -> (taken: Vec<C>)
        ensures
            !final(self).is_recording_spec(),
            taken@ == old(self).recorded_spec(),
            final(self).recorded_spec() == Seq::<C>::empty(),
    {
        self.recording = false;
        let mut taken: Vec<C> = Vec::new();
        std::mem::swap(&mut taken, &mut self.commands);
        taken
    }

    /// Whether the recorder is on.
    pub fn is_recording(&self) -> (r: bool)
        ensures
            r == self.is_recording_spec(),
    {
        self.recording
    }

    /// Takes note of a user action: appended while recording, discarded
    /// otherwise.
    pub fn observe(&mut self, command: C)
        ensures
            final(self).is_recording_spec() == old(self).is_recording_spec(),
            final(self).recorded_spec() == (if old(self).is_recording_spec() {
                old(self).recorded_spec().push(command)
            } else {
                old(self).recorded_spec()
            }),
    {
        if self.recording {
            self.commands.push(command);
        }
    }

    /// The commands recorded so far.
    pub fn recorded(&self) -> (r: &[C])
        ensures
            r@ == self.recorded_spec(),
    {
        self.commands.as_slice()
    }
}

/// A host command as the Lua emitter writes it; gains and pans are carried
/// as the text their values print as.
#[derive(Debug)]
pub enum MacroStep {
    TransportPlay,
    TransportStop,
    TransportSeek { tick: u64 },
    SetTrackVolume { track_id: String, db_text: String },
    SetTrackPan { track_id: String, pan_text: String },
    SetTrackMuted { track_id: String, muted: bool },
    SetMasterVolume { db_text: String },
    CreateClip { track_id: String, start_tick: u64, length_ticks: u64 },
    MoveClip { clip_id: String, new_start_tick: u64 },
    DeleteClip { clip_id: String },
    InsertNote { clip_id: String, tick: u64, pitch: u8, velocity: u8, length_ticks: u64 },
    DeleteNote { clip_id: String, tick: u64, pitch: u8 },
    OpenPanel { panel_id: String },
    RunScript { script_id: String },
}

/// A number as Lua source.
pub open spec fn num(n: u64) -> Seq<char> {
    decimal(n as nat)
}

/// A text as a Lua string literal (the ids are written between quotes as
/// they are).
pub open spec fn quoted(s: Seq<char>) -> Seq<char> {
    "\""@ + s + "\""@
}

/// The line of Lua for one step.
pub open spec fn lua_line(step: MacroStep) -> Seq<char> {
    match step {
        MacroStep::TransportPlay => "transport.play()\n"@,
        MacroStep::TransportStop => "transport.stop()\n"@,
        MacroStep::TransportSeek { tick } => "transport.seek("@ + num(tick) + ")\n"@,
        MacroStep::SetTrackVolume { track_id, db_text } =>
            "track.set_volume("@ + quoted(track_id@) + ", "@ + db_text@ + ")\n"@,
        MacroStep::SetTrackPan { track_id, pan_text } =>
            "track.set_pan("@ + quoted(track_id@) + ", "@ + pan_text@ + ")\n"@,
        MacroStep::SetTrackMuted { track_id, muted } =>
            "track.set_muted("@ + quoted(track_id@) + ", "@ + (if muted { "true"@ } else { "false"@ }) + ")\n"@,
        MacroStep::SetMasterVolume { db_text } => "mixer.set_master_volume("@ + db_text@ + ")\n"@,
        MacroStep::CreateClip { track_id, start_tick, length_ticks } =>
            "clip.create("@ + quoted(track_id@) + ", "@ + num(start_tick) + ", "@ + num(length_ticks) + ")\n"@,
        MacroStep::MoveClip { clip_id, new_start_tick } =>
            "clip.move_to("@ + quoted(clip_id@) + ", "@ + num(new_start_tick) + ")\n"@,
        MacroStep::DeleteClip { clip_id } => "clip.delete("@ + quoted(clip_id@) + ")\n"@,
        MacroStep::InsertNote { clip_id, tick, pitch, velocity, length_ticks } =>
            "notes.insert("@ + quoted(clip_id@) + ", "@ + num(tick) + ", "@ + num(pitch as u64) + ", "@
                + num(velocity as u64) + ", "@ + num(length_ticks) + ")\n"@,
        MacroStep::DeleteNote { clip_id, tick, pitch } =>
            "notes.delete("@ + quoted(clip_id@) + ", "@ + num(tick) + ", "@ + num(pitch as u64) + ")\n"@,
        MacroStep::OpenPanel { panel_id } => "ui.open("@ + quoted(panel_id@) + ")\n"@,
        MacroStep::RunScript { script_id } => "script.run("@ + quoted(script_id@) + ")\n"@,
    }
}

/// The lines of a sequence of steps, in order.
pub open spec fn lua_lines(steps: Seq<MacroStep>) -> Seq<char>
    decreases steps.len(),
{
    if steps.len() == 0 {
        Seq::empty()
    } else {
        lua_lines(steps.drop_last()) + lua_line(steps.last())
    }
}

fn push_quoted(out: &mut String, s: &str)
    ensures
        final(out)@ == old(out)@ + quoted(s@),
{
    out.append("\"");
    out.append(s);
    out.append("\"");
}

fn push_lua_line(out: &mut String, step: &MacroStep)
    ensures
        final(out)@ == old(out)@ + lua_line(*step),
{
    let ghost start = out@;
    match step {
        MacroStep::TransportPlay => out.append("transport.play()\n"),
        MacroStep::TransportStop => out.append("transport.stop()\n"),
        MacroStep::TransportSeek { tick } => {
            out.append("transport.seek(");
            push_decimal(out, *tick);
            out.append(")\n");
        },
        MacroStep::SetTrackVolume { track_id, db_text } => {
            out.append("track.set_volume(");
            push_quoted(out, track_id.as_str());
            out.append(", ");
            out.append(db_text.as_str());
            out.append(")\n");
        },
        MacroStep::SetTrackPan { track_id, pan_text } => {
            out.append("track.set_pan(");
            push_quoted(out, track_id.as_str());
            out.append(", ");
            out.append(pan_text.as_str());
            out.append(")\n");
        },
        MacroStep::SetTrackMuted { track_id, muted } => {
            out.append("track.set_muted(");
            push_quoted(out, track_id.as_str());
            out.append(", ");
            out.append(if *muted { "true" } else { "false" });
            out.append(")\n");
        },
        MacroStep::SetMasterVolume { db_text } => {
            out.append("mixer.set_master_volume(");
            out.append(db_text.as_str());
            out.append(")\n");
        },
        MacroStep::CreateClip { track_id, start_tick, length_ticks } => {
            out.append("clip.create(");
            push_quoted(out, track_id.as_str());
            out.append(", ");
            push_decimal(out, *start_tick);
            out.append(", ");
            push_decimal(out, *length_ticks);
            out.append(")\n");
        },
        MacroStep::MoveClip { clip_id, new_start_tick } => {
            out.append("clip.move_to(");
            push_quoted(out, clip_id.as_str());
            out.append(", ");
            push_decimal(out, *new_start_tick);
            out.append(")\n");
        },
        MacroStep::DeleteClip { clip_id } => {
            out.append("clip.delete(");
            push_quoted(out, clip_id.as_str());
            out.append(")\n");
        },
        MacroStep::InsertNote { clip_id, tick, pitch, velocity, length_ticks } => {
            out.append("notes.insert(");
            push_quoted(out, clip_id.as_str());
            out.append(", ");
            push_decimal(out, *tick);
            out.append(", ");
            push_decimal(out, *pitch as u64);
            out.append(", ");
            push_decimal(out, *velocity as u64);
            out.append(", ");
            push_decimal(out, *length_ticks);
            out.append(")\n");
        },
        MacroStep::DeleteNote { clip_id, tick, pitch } => {
            out.append("notes.delete(");
            push_quoted(out, clip_id.as_str());
            out.append(", ");
            push_decimal(out, *tick);
            out.append(", ");
            push_decimal(out, *pitch as u64);
            out.append(")\n");
        },
        MacroStep::OpenPanel { panel_id } => {
            out.append("ui.open(");
            push_quoted(out, panel_id.as_str());
            out.append(")\n");
        },
        MacroStep::RunScript { script_id } => {
            out.append("script.run(");
            push_quoted(out, script_id.as_str());
            out.append(")\n");
        },
    }
    assert(out@ =~= start + lua_line(*step));
}

/// A recorded sequence as Lua source: a header comment, then one line per
/// step.
pub fn macro_to_lua(commands: &[MacroStep]) -> (lua: String)
    ensures
        lua@ == "-- Generated macro\n"@ + lua_lines(commands@),
{
    let mut out = String::from_str("-- Generated macro\n");
    let mut i: usize = 0;
    while i < commands.len()
        invariant
            0 <= i <= commands@.len(),
            out@ == "-- Generated macro\n"@ + lua_lines(commands@.take(i as int)),
        decreases commands@.len() - i,
    {
        push_lua_line(&mut out, &commands[i]);
        proof {
            assert(commands@.take(i as int + 1).drop_last() =~= commands@.take(i as int));
        }
        i = i + 1;
    }
    assert(commands@.take(i as int) =~= commands@);
    out
}

} // verus!
