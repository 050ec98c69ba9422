//! Multiplayer sessions: rooms and their rosters, invite codes, sync
//! message payloads, a Lamport clock and a last-writer-wins register.

use vstd::prelude::*;
use crate::seqs::{first_match, lemma_first_match_at, lemma_first_match_none};
use crate::text::{chars_lt, push_signed_decimal, signed_decimal, str_eq, str_lt, utf8_bytes};

verus! {

/// What a room member may do.
#[derive(Debug, Clone, Copy, PartialEq, Eq, Structural)]
pub enum Permission {
    Host,
    Editor,
    Viewer,
}

impl Permission {
    /// Hosts and editors may change the session.
    pub fn can_edit(&self) -> (r: bool)
        ensures
            r == (*self == Permission::Host || *self == Permission::Editor),
    {
        match self {
            Permission::Host | Permission::Editor => true,
            Permission::Viewer => false,
        }
    }

    /// Only the host may remove members.
    pub fn can_kick(&self) -> (r: bool)
        ensures
            r == (*self == Permission::Host),
    {
        match self {
            Permission::Host => true,
            _ => false,
        }
    }
}

/// The panel a member is looking at.
#[derive(Debug, Clone, Copy, PartialEq, Eq, Structural)]
pub enum Panel {
    Arrangement,
    PianoRoll,
    Mixer,
    ChannelRack,
    Browser,
    PluginEditor,
    Settings,
}

/// A member's live presence: focused panel and cursor.
#[derive(Debug, Clone, Copy, PartialEq, Eq, Structural)]
pub struct Presence {
    pub active_panel: Panel,
    pub cursor_tick: u64,
    pub cursor_track_index: Option<u32>,
    pub last_heartbeat_ms: u64,
}

impl Default for Presence {
    fn default() -> (p: Presence)
        ensures
            p == (Presence {
                active_panel: Panel::Arrangement,
                cursor_tick: 0,
                cursor_track_index: None,
                last_heartbeat_ms: 0,
            }),
    {
        Presence { active_panel: Panel::Arrangement, cursor_tick: 0, cursor_track_index: None, last_heartbeat_ms: 0 }
    }
}

/// One member of a room.
#[derive(Debug)]
pub struct RoomMember {
    pub user_id: String,
    pub display_name: String,
    pub avatar_hint: String,
    pub permission: Permission,
    pub presence: Presence,
}

/// A multiplayer room: its shareable invite code and live roster.
#[derive(Debug)]
pub struct Room {
    pub room_id: String,
    pub invite_code: String,
    pub host_user_id: String,
    pub members: Vec<RoomMember>,
    pub created_at_unix: i64,
}

/// The 64-bit FNV-1a offset basis.
pub open spec fn fnv64_basis() -> u64 {
    0xCBF2_9CE4_8422_2325
}

/// One step of 64-bit FNV-1a.
pub open spec fn fnv64_step(h: u64, b: u8) -> u64 {
    (h ^ (b as u64)).wrapping_mul(0x0000_0100_0000_01B3)
}

/// 64-bit FNV-1a over a byte sequence.
pub open spec fn fnv64(bytes: Seq<u8>) -> u64
    decreases bytes.len(),
{
    if bytes.len() == 0 {
        fnv64_basis()
    } else {
        fnv64_step(fnv64(bytes.drop_last()), bytes.last())
    }
}

/// The 32 characters invite codes use: no 0/O/1/I to misread.
pub open spec fn invite_alphabet() -> Seq<char> {
    "ABCDEFGHJKLMNPQRSTUVWXYZ23456789"@
}

/// The invite code of a seed: eight base-32 digits of the seed's 64-bit
/// FNV-1a hash, lowest five bits first.
pub open spec fn invite_code_spec(seed: Seq<char>) -> Seq<char> {
    let h = fnv64(utf8_bytes(seed));
    Seq::new(8, |i: int| invite_alphabet()[((h >> ((i * 5) as u64)) & 0x1F) as int])
}

/// A short human-readable invite code derived from a room id.
pub fn generate_invite_code(seed: &str) -> (code: String)
    ensures
        code@ == invite_code_spec(seed@),
{
    let bytes = seed.as_bytes();
    let mut hash: u64 = 0xCBF2_9CE4_8422_2325;
    let mut i: usize = 0;
    while i < bytes.len()
        invariant
            0 <= i <= bytes@.len(),
            bytes@ == utf8_bytes(seed@),
            hash == fnv64(bytes@.take(i as int)),
        decreases bytes@.len() - i,
    {
        let b = bytes[i];
        assert(bytes@.take(i as int + 1).drop_last() =~= bytes@.take(i as int));
        hash = (hash ^ (b as u64)).wrapping_mul(0x0000_0100_0000_01B3);
        i = i + 1;
    }
    assert(bytes@.take(i as int) =~= bytes@);
    let alphabet: &str = "ABCDEFGHJKLMNPQRSTUVWXYZ23456789";
    proof {
        reveal_strlit("ABCDEFGHJKLMNPQRSTUVWXYZ23456789");
    }
    let mut out = String::new();
    let mut k: u64 = 0;
    while k < 8
        invariant
            0 <= k <= 8,
            hash == fnv64(utf8_bytes(seed@)),
            alphabet@ == invite_alphabet(),
            alphabet@.len() == 32,
            out@.len() == k,
            forall|j: int| 0 <= j < k ==> out@[j] == invite_alphabet()[((hash >> ((j * 5) as u64)) & 0x1F) as int],
        decreases 8 - k,
    {
        let idx = ((hash >> (k * 5)) & 0x1F) as usize;
        assert(((hash >> (k * 5)) & 0x1F) < 32) by (bit_vector);
        out.push(alphabet.get_char(idx));
        k = k + 1;
    }
    assert(out@ =~= invite_code_spec(seed@));
    out
}

/// The member with a user id.
pub open spec fn member_index(members: Seq<RoomMember>, user_id: Seq<char>) -> Option<int> {
    first_match(members, |m: RoomMember| m.user_id@ == user_id)
}

fn find_member(members: &Vec<RoomMember>, user_id: &str) -> (r: Option<usize>)
    ensures
        match member_index(members@, user_id@) {
            Some(i) => 0 <= i < members@.len() && r is Some && r->0 as int == i,
            None => r is None,
        },
{
    let mut i: usize = 0;
    while i < members.len()
        invariant
            0 <= i <= members@.len(),
            forall|j: int| 0 <= j < i ==> members@[j].user_id@ != user_id@,
        decreases members@.len() - i,
    {
        if str_eq(members[i].user_id.as_str(), user_id) {
            proof {
                lemma_first_match_at(members@, |m: RoomMember| m.user_id@ == user_id@, i as int);
            }
            return Some(i);
        }
        i = i + 1;
    }
    proof {
        lemma_first_match_none(members@, |m: RoomMember| m.user_id@ == user_id@);
    }
    None
}

/// Members whose user id is not `user_id`.
pub open spec fn other_than(user_id: Seq<char>) -> spec_fn(RoomMember) -> bool {
    |m: RoomMember| m.user_id@ != user_id
}

impl Room {
    /// A new room hosted by `host_user_id`: id `room-<created_at>`, invite
    /// code derived from that id, and no members yet.
    pub fn new(host_user_id: &str, created_at_unix: i64) -> (r: Room)
        ensures
            r.room_id@ == "room-"@ + signed_decimal(created_at_unix as int),
            r.invite_code@ == invite_code_spec(r.room_id@),
            r.host_user_id@ == host_user_id@,
            r.members@.len() == 0,
            r.created_at_unix == created_at_unix,
    {
        let mut room_id = String::from_str("room-");
        push_signed_decimal(&mut room_id, created_at_unix);
        let invite_code = generate_invite_code(room_id.as_str());
        Room {
            invite_code,
            room_id,
            host_user_id: String::from_str(host_user_id),
            members: Vec::new(),
            created_at_unix,
        }
    }

    /// Adds a member unless one with the same user id is already in; `true`
    /// when added.
    pub fn add_member(&mut self, member: RoomMember) -> (added: bool)
        ensures
            added == (member_index(old(self).members@, member.user_id@) is None),
            added ==> final(self).members@ == old(self).members@.push(member),
            !added ==> final(self).members@ == old(self).members@,
            final(self).room_id == old(self).room_id,
            final(self).invite_code == old(self).invite_code,
            final(self).host_user_id == old(self).host_user_id,
            final(self).created_at_unix == old(self).created_at_unix,
    {
        if find_member(&self.members, member.user_id.as_str()).is_some() {
            return false;
        }
        self.members.push(member);
        true
    }

    /// Removes the member with `user_id`; `true` when someone was removed.
    pub fn remove_member(&mut self, user_id: &str) -> (removed: bool)
        ensures
            final(self).members@ == old(self).members@.filter(other_than(user_id@)),
            removed == (final(self).members@.len() != old(self).members@.len()),
            final(self).room_id == old(self).room_id,
            final(self).invite_code == old(self).invite_code,
            final(self).host_user_id == old(self).host_user_id,
            final(self).created_at_unix == old(self).created_at_unix,
    {
        let mut kept: Vec<RoomMember> = Vec::new();
        let mut old_members: Vec<RoomMember> = Vec::new();
        std::mem::swap(&mut old_members, &mut self.members);
        let ghost all = old_members@;
        let mut i: usize = 0;
        let n = old_members.len();
        let mut rest = old_members;
        while i < n
            invariant
                n == all.len(),
                0 <= i <= n,
                rest@ == all.skip(i as int),
                kept@ == all.take(i as int).filter(other_than(user_id@)),
            decreases n - i,
        {
            let m = rest.remove(0);
            proof {
                assert(m == all[i as int]);
                assert(rest@ =~= all.skip(i as int + 1));
                assert(all.take(i as int + 1).drop_last() =~= all.take(i as int));
                assert(all.take(i as int + 1).last() == all[i as int]);
                reveal_with_fuel(Seq::filter, 1);
            }
            if !str_eq(m.user_id.as_str(), user_id) {
                kept.push(m);
            }
            i = i + 1;
        }
        assert(all.take(n as int) =~= all);
        self.members = kept;
        self.members.len() != n
    }

    /// The member with `user_id`, if present.
    pub fn member(&self, user_id: &str) -> (r: Option<&RoomMember>)
        ensures
            match member_index(self.members@, user_id@) {
                Some(i) => r == Some(&self.members@[i]),
                None => r is None,
            },
    {
        match find_member(&self.members, user_id) {
            Some(i) => Some(&self.members[i]),
            None => None,
        }
    }

    /// The member with `user_id`, for changing in place.
    pub fn member_mut(&mut self, user_id: &str) -> (r: Option<&mut RoomMember>)
        ensures
            match member_index(old(self).members@, user_id@) {
                Some(i) => r is Some && *r->0 == old(self).members@[i] && final(self).members@ == old(
                    self,
                ).members@.update(i, *final(r->0)),
                None => r is None && final(self).members@ == old(self).members@,
            },
            final(self).room_id == old(self).room_id,
            final(self).invite_code == old(self).invite_code,
            final(self).host_user_id == old(self).host_user_id,
            final(self).created_at_unix == old(self).created_at_unix,
    {
        match find_member(&self.members, user_id) {
            Some(i) => Some(&mut self.members[i]),
            None => None,
        }
    }

    /// The host's member entry, if the host has joined.
    pub fn host(&self) -> (r: Option<&RoomMember>)
        ensures
            match member_index(self.members@, self.host_user_id@) {
                Some(i) => r == Some(&self.members@[i]),
                None => r is None,
            },
    {
        self.member(self.host_user_id.as_str())
    }
}

/// Transport sync: play, stop, seek.
#[derive(Debug, Clone, Copy, PartialEq, Eq, Structural)]
pub enum TransportSync {
    Play,
    Stop,
    Seek { tick: u64 },
}

/// A piano-roll note edit.
#[derive(Debug, Clone, Copy, PartialEq, Eq, Structural)]
pub enum NoteOp {
    Insert { tick: u64, pitch: u8, velocity: u8, length_ticks: u64 },
    Delete { tick: u64, pitch: u8 },
    Move { from_tick: u64, from_pitch: u8, to_tick: u64, to_pitch: u8 },
}

/// A note edit on a clip.
#[derive(Debug)]
pub struct NoteSync {
    pub clip_id: String,
    pub operation: NoteOp,
}

/// An arrangement clip edit.
#[derive(Debug)]
pub enum ClipOp {
    Insert { clip_id: String, start_tick: u64, length_ticks: u64 },
    Move { clip_id: String, new_start_tick: u64 },
    Resize { clip_id: String, new_length_ticks: u64 },
    Delete { clip_id: String },
}

/// A clip edit on a track.
#[derive(Debug)]
pub struct ClipSync {
    pub track_id: String,
    pub operation: ClipOp,
}

/// A Lamport clock: every outgoing message is stamped with `tick()`.
#[derive(Debug, Clone, Copy, PartialEq, Eq, Structural)]
pub struct LogicalClock {
    counter: u64,
}

impl View for LogicalClock {
    type V = nat;

    closed spec fn view(&self) -> nat {
        self.counter as nat
    }
}

impl LogicalClock {
    /// A clock at zero.
    pub fn new() -> (c: LogicalClock)
        ensures
            c@ == 0,
    {
        LogicalClock { counter: 0 }
    }

    /// Advances the clock by one and returns the new value.
    pub fn tick(&mut self) -> (v: u64)
        requires
            old(self)@ < u64::MAX,
        ensures
            final(self)@ == old(self)@ + 1,
            v == final(self)@,
    {
        self.counter = self.counter + 1;
        self.counter
    }

    /// Observes a remote stamp: the clock jumps to one past the larger of
    /// its own value and the remote one.
    pub fn observe(&mut self, remote: u64)
        requires
            old(self)@ < u64::MAX,
            remote < u64::MAX,
        ensures
            final(self)@ == (if old(self)@ >= remote { old(self)@ } else { remote as nat }) + 1,
    {
        let m = if self.counter >= remote { self.counter } else { remote };
        self.counter = m + 1;
    }

    /// The current value.
    pub fn value(&self) -> (v: u64)
        ensures
            v == self@,
    {
        self.counter
    }
}

/// Law: after observing a remote stamp the clock is past both that stamp
/// and everything it had issued, so causally later messages sort later.
pub proof fn lemma_observe_orders_after(before: nat, remote: nat, after: nat)
    requires
        after == (if before >= remote { before } else { remote }) + 1,
    ensures
        after > before,
        after > remote,
{
}

/// A last-writer-wins register: concurrent writes are settled by clock,
/// then by the writer's user id.
#[derive(Debug)]
pub struct LwwRegister<T> {
    pub value: T,
    pub logical_clock: u64,
    pub writer_user_id: String,
}

/// Whether a write stamped (clock, writer) beats the register's stamp.
pub open spec fn write_wins(clock: u64, writer: Seq<char>, cur_clock: u64, cur_writer: Seq<char>) -> bool {
    clock > cur_clock || (clock == cur_clock && chars_lt(cur_writer, writer))
}

impl<T> LwwRegister<T> {
    /// A register holding `value`, stamped clock 0 by nobody.
    pub fn new(value: T) -> (r: LwwRegister<T>)
        ensures
            r.value == value,
            r.logical_clock == 0,
            r.writer_user_id@ == Seq::<char>::empty(),
    {
        LwwRegister { value, logical_clock: 0, writer_user_id: String::new() }
    }

    /// Applies a remote write; `true` when it won and was stored.
    pub fn apply(&mut self, value: T, logical_clock: u64, writer_user_id: &str) -> (won: bool)
        ensures
            won == write_wins(logical_clock, writer_user_id@, old(self).logical_clock, old(self).writer_user_id@),
            won ==> final(self).value == value && final(self).logical_clock == logical_clock
                && final(self).writer_user_id@ == writer_user_id@,
            !won ==> final(self).value == old(self).value && final(self).logical_clock == old(self).logical_clock
                && final(self).writer_user_id@ == old(self).writer_user_id@,
    {
        let remote_wins = if logical_clock > self.logical_clock {
            true
        } else if logical_clock < self.logical_clock {
            false
        } else {
            str_lt(self.writer_user_id.as_str(), writer_user_id)
        };
        if remote_wins {
            self.value = value;
            self.logical_clock = logical_clock;
            self.writer_user_id = String::from_str(writer_user_id);
            true
        } else {
            false
        }
    }
}

/// The abstract state of a register: value with its stamp.
pub struct LwwState<T> {
    pub value: T,
    pub clock: u64,
    pub writer: Seq<char>,
}

/// The state after applying a write, as `LwwRegister::apply` leaves it.
pub open spec fn lww_apply<T>(s: LwwState<T>, value: T, clock: u64, writer: Seq<char>) -> LwwState<T> {
    if write_wins(clock, writer, s.clock, s.writer) {
        LwwState { value, clock, writer }
    } else {
        s
    }
}

/// Law: two writes with different stamps converge whatever order they
/// arrive in, on the value with the greatest (clock, writer) stamp among
/// the register's own and the two writes'.
pub proof fn lemma_lww_converges<T>(
    s: LwwState<T>,
    v1: T,
    c1: u64,
    w1: Seq<char>,
    v2: T,
    c2: u64,
    w2: Seq<char>,
)
    requires
        c1 != c2 || w1 != w2,
    ensures
        lww_apply(lww_apply(s, v1, c1, w1), v2, c2, w2) == lww_apply(lww_apply(s, v2, c2, w2), v1, c1, w1),
        ({
            let r = lww_apply(lww_apply(s, v1, c1, w1), v2, c2, w2);
            &&& !write_wins(s.clock, s.writer, r.clock, r.writer)
            &&& !write_wins(c1, w1, r.clock, r.writer)
            &&& !write_wins(c2, w2, r.clock, r.writer)
            &&& (r == s || r == (LwwState { value: v1, clock: c1, writer: w1 }) || r == (LwwState {
                value: v2,
                clock: c2,
                writer: w2,
            }))
        }),
{
    crate::text::lemma_chars_lt_total(w1, w2);
    crate::text::lemma_chars_lt_total(w1, s.writer);
    crate::text::lemma_chars_lt_total(w2, s.writer);
    crate::text::lemma_chars_lt_irreflexive(w1);
    crate::text::lemma_chars_lt_irreflexive(w2);
    crate::text::lemma_chars_lt_irreflexive(s.writer);
    if chars_lt(w1, w2) && chars_lt(w2, s.writer) {
        crate::text::lemma_chars_lt_transitive(w1, w2, s.writer);
    }
    if chars_lt(w2, w1) && chars_lt(w1, s.writer) {
        crate::text::lemma_chars_lt_transitive(w2, w1, s.writer);
    }
    if chars_lt(s.writer, w1) && chars_lt(w1, w2) {
        crate::text::lemma_chars_lt_transitive(s.writer, w1, w2);
    }
    if chars_lt(s.writer, w2) && chars_lt(w2, w1) {
        crate::text::lemma_chars_lt_transitive(s.writer, w2, w1);
    }
    if chars_lt(w1, s.writer) && chars_lt(s.writer, w2) {
        crate::text::lemma_chars_lt_transitive(w1, s.writer, w2);
    }
    if chars_lt(w2, s.writer) && chars_lt(s.writer, w1) {
        crate::text::lemma_chars_lt_transitive(w2, s.writer, w1);
    }
}

/// Law: a write that has already been applied changes nothing when it
/// arrives again.
pub proof fn lemma_lww_idempotent<T>(s: LwwState<T>, v: T, c: u64, w: Seq<char>)
    ensures
        lww_apply(lww_apply(s, v, c, w), v, c, w) == lww_apply(s, v, c, w),
{
    crate::text::lemma_chars_lt_irreflexive(w);
}


/// One message of the session wire protocol: who sent it, its causal
/// stamp, and what it carries.
#[derive(Debug)]
pub struct SyncMessage<K> {
    pub sender_user_id: String,
    pub logical_clock: u64,
    pub kind: K,
}

/// The most recent `capacity` items of a sequence.
pub open spec fn keep_last<M>(s: Seq<M>, capacity: nat) -> Seq<M> {
    if s.len() <= capacity {
        s
    } else {
        s.subrange(s.len() - capacity, s.len() as int)
    }
}

/// A bounded replay log of a session: once full, recording a message
/// drops the oldest one.
#[derive(Debug)]
pub struct SessionHistory<M> {
    messages: Vec<M>,
    capacity: usize,
}

impl<M> View for SessionHistory<M> {
    type V = Seq<M>;

    closed spec fn view(&self) -> Seq<M> {
        self.messages@
    }
}

impl<M> SessionHistory<M> {
    #[verifier::type_invariant]
    spec fn bounded(self) -> bool {
        1 <= self.capacity && self.messages@.len() <= self.capacity
    }

    /// How many messages the log keeps.
    pub closed spec fn capacity_spec(self) -> nat {
        self.capacity as nat
    }

    /// An empty log keeping `capacity` messages, and at least one.
    pub fn new(capacity: usize) -> (h: SessionHistory<M>)
        ensures
            h@ == Seq::<M>::empty(),
            h.capacity_spec() == (if capacity < 1 { 1 } else { capacity as nat }),
    {
        let cap = if capacity < 1 { 1 } else { capacity };
        SessionHistory { messages: Vec::with_capacity(capacity), capacity: cap }
    }

    /// Appends a message, dropping the oldest when the log is over its
    /// capacity.
    pub fn record(&mut self, message: M)
        ensures
            final(self)@ == keep_last(old(self)@.push(message), old(self).capacity_spec()),
            final(self).capacity_spec() == old(self).capacity_spec(),
    {
        proof { use_type_invariant(&*self); }
        let mut messages: Vec<M> = Vec::new();
        std::mem::swap(&mut messages, &mut self.messages);
        let ghost before = messages@;
        messages.push(message);
        if messages.len() > self.capacity {
            messages.remove(0);
            assert(messages@ =~= before.push(message).subrange(
                before.push(message).len() - self.capacity as int,
                before.push(message).len() as int,
            ));
        }
        self.messages = messages;
    }

    /// How many messages the log holds.
    pub fn len(&self) -> (n: usize)
        ensures
            n == self@.len(),
    {
        self.messages.len()
    }

    /// Whether the log holds no message.
    pub fn is_empty(&self) -> (r: bool)
        ensures
            r == (self@.len() == 0),
    {
        self.messages.len() == 0
    }

    /// The messages, oldest first.
    pub fn messages(&self) -> (r: &[M])
        ensures
            r@ == self@,
    {
        self.messages.as_slice()
    }

    /// Forgets every message; the capacity stays.
    pub fn clear(&mut self)
        ensures
            final(self)@ == Seq::<M>::empty(),
            final(self).capacity_spec() == old(self).capacity_spec(),
    {
        proof { use_type_invariant(&*self); }
        self.messages = Vec::new();
    }
}

/// Law: a history never holds more than its capacity, and what it holds
/// is the newest messages recorded, in order.
pub proof fn lemma_history_keeps_the_newest<M>(s: Seq<M>, m: M, capacity: nat)
    requires
        1 <= capacity,
        s.len() <= capacity,
    ensures
        keep_last(s.push(m), capacity).len() <= capacity,
        keep_last(s.push(m), capacity).last() == m,
        keep_last(s.push(m), capacity).len() == (if s.len() < capacity { s.len() + 1 } else { capacity }),
{
}

} // verus!
