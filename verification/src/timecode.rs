//! MIDI Time Code: SMPTE positions and the eight quarter-frame messages
//! (status 0xF1) that carry one position over two frames.

use vstd::prelude::*;

verus! {

/// 24 frames per second.
pub const MTC_FPS_24: u32 = 24;

/// 25 frames per second.
pub const MTC_FPS_25: u32 = 25;

/// 30 frames per second, non-drop.
pub const MTC_FPS_30: u32 = 30;

/// A position in hours, minutes, seconds and frames.
#[derive(Debug, Clone, Copy, PartialEq, Eq, Structural)]
pub struct SmpteTime {
    pub hours: u8,
    pub minutes: u8,
    pub seconds: u8,
    pub frames: u8,
}

/// The SMPTE type bits sent in piece 7: 24 fps is `00`, 25 fps `01`, and
/// every other rate is sent as 30 non-drop, `11`.
pub open spec fn smpte_type_bits_spec(fps: u32) -> u8 {
    if fps == MTC_FPS_24 {
        0
    } else if fps == MTC_FPS_25 {
        1
    } else {
        3
    }
}

/// The SMPTE type bits for a frame rate.
pub fn smpte_type_bits(fps: u32) -> (b: u8)
    ensures
        b == smpte_type_bits_spec(fps),
{
    if fps == MTC_FPS_24 {
        0
    } else if fps == MTC_FPS_25 {
        1
    } else {
        3
    }
}

/// The position `total_frames` frames from zero at `fps` frames per second;
/// hours wrap at 24 so the five-bit hour field never overflows, and the
/// frame count is kept to its low eight bits as the byte field holds it.
pub open spec fn frames_to_smpte_spec(total_frames: nat, fps: nat) -> SmpteTime
    recommends
        fps > 0,
{
    let total_seconds = total_frames / fps;
    let total_minutes = total_seconds / 60;
    SmpteTime {
        hours: ((total_minutes / 60) % 24) as u8,
        minutes: (total_minutes % 60) as u8,
        seconds: (total_seconds % 60) as u8,
        frames: (total_frames % fps) as u8,
    }
}

/// The SMPTE position of a whole number of frames.
pub fn frames_to_smpte(total_frames: u64, fps: u32) -> (t: SmpteTime)
    requires
        0 < fps,
    ensures
        t == frames_to_smpte_spec(total_frames as nat, fps as nat),
        t.hours < 24 && t.minutes < 60 && t.seconds < 60,
        fps <= 256 ==> t.frames < fps,
{
    let fps64 = fps as u64;
    let rem = total_frames % fps64;
    let frames = rem as u8;
    proof {
        if fps <= 256 {
            assert(rem < 256);
            assert(frames == rem) by (bit_vector)
                requires rem < 256, frames == rem as u8;
        }
    }
    let total_seconds = total_frames / fps64;
    let seconds = (total_seconds % 60) as u8;
    let total_minutes = total_seconds / 60;
    let minutes = (total_minutes % 60) as u8;
    let hours = ((total_minutes / 60) % 24) as u8;
    SmpteTime { hours, minutes, seconds, frames }
}

/// The four data bits piece `piece` (0 to 7) carries: the low and high
/// parts of frames, seconds, minutes and hours in turn, the last one with
/// the SMPTE type bits above the hours' high bit.
pub open spec fn quarter_frame_nibble(piece: u8, t: SmpteTime, smpte_bits: u8) -> u8 {
    if piece == 0 {
        t.frames & 0x0F
    } else if piece == 1 {
        (t.frames >> 4) & 0x01
    } else if piece == 2 {
        t.seconds & 0x0F
    } else if piece == 3 {
        (t.seconds >> 4) & 0x03
    } else if piece == 4 {
        t.minutes & 0x0F
    } else if piece == 5 {
        (t.minutes >> 4) & 0x03
    } else if piece == 6 {
        t.hours & 0x0F
    } else {
        ((t.hours >> 4) & 0x01) | ((smpte_bits & 0x03) << 1)
    }
}

/// The data byte of a quarter-frame message: the piece number (taken
/// modulo 8) in the high nibble and that piece's data bits in the low one.
pub fn quarter_frame_data(piece: u8, t: SmpteTime, smpte_bits: u8) -> (d: u8)
    ensures
        d >> 4u8 == piece & 0x07,
        d & 0x0F == quarter_frame_nibble(piece & 0x07, t, smpte_bits),
{
    let p = piece & 0x07;
    let f = t.frames;
    let s = t.seconds;
    let m = t.minutes;
    let h = t.hours;
    let b = smpte_bits;
    let nibble: u8 = if p == 0 {
        f & 0x0F
    } else if p == 1 {
        (f >> 4) & 0x01
    } else if p == 2 {
        s & 0x0F
    } else if p == 3 {
        (s >> 4) & 0x03
    } else if p == 4 {
        m & 0x0F
    } else if p == 5 {
        (m >> 4) & 0x03
    } else if p == 6 {
        h & 0x0F
    } else {
        ((h >> 4) & 0x01) | ((b & 0x03) << 1)
    };
    assert(p < 8) by (bit_vector)
        requires
            p == piece & 0x07,
    ;
    assert(nibble < 16) by (bit_vector)
        requires
            nibble == f & 0x0F || nibble == (f >> 4) & 0x01 || nibble == s & 0x0F || nibble == (s >> 4) & 0x03
                || nibble == m & 0x0F || nibble == (m >> 4) & 0x03 || nibble == h & 0x0F
                || nibble == ((h >> 4) & 0x01) | ((b & 0x03) << 1),
    ;
    let d = (p << 4) | (nibble & 0x0F);
    assert(d >> 4u8 == p && d & 0x0F == nibble) by (bit_vector)
        requires
            p < 8,
            nibble < 16,
            d == (p << 4) | (nibble & 0x0F),
    ;
    d
}

/// A time that fits the quarter-frame fields: frames in five bits, seconds
/// and minutes in six, hours in five.
pub open spec fn fits_quarter_frames(t: SmpteTime) -> bool {
    t.frames < 32 && t.seconds < 64 && t.minutes < 64 && t.hours < 32
}

/// Receiving a whole cycle gives the position back: each field is its low
/// nibble joined with its high bits from the next piece, and the SMPTE type
/// sits above the hours' high bit.
pub proof fn lemma_cycle_carries_the_position(t: SmpteTime, smpte_bits: u8)
    requires
        fits_quarter_frames(t),
        smpte_bits < 4,
    ensures
        quarter_frame_nibble(0, t, smpte_bits) | (quarter_frame_nibble(1, t, smpte_bits) << 4u8) == t.frames,
        quarter_frame_nibble(2, t, smpte_bits) | (quarter_frame_nibble(3, t, smpte_bits) << 4u8) == t.seconds,
        quarter_frame_nibble(4, t, smpte_bits) | (quarter_frame_nibble(5, t, smpte_bits) << 4u8) == t.minutes,
        quarter_frame_nibble(6, t, smpte_bits) | ((quarter_frame_nibble(7, t, smpte_bits) & 0x01) << 4u8) == t.hours,
        quarter_frame_nibble(7, t, smpte_bits) >> 1u8 == smpte_bits,
{
    let f = t.frames;
    let s = t.seconds;
    let m = t.minutes;
    let h = t.hours;
    let b = smpte_bits;
    assert((f & 0x0F) | (((f >> 4) & 0x01) << 4) == f) by (bit_vector)
        requires
            f < 32,
    ;
    assert((s & 0x0F) | (((s >> 4) & 0x03) << 4) == s) by (bit_vector)
        requires
            s < 64,
    ;
    assert((m & 0x0F) | (((m >> 4) & 0x03) << 4) == m) by (bit_vector)
        requires
            m < 64,
    ;
    assert((h & 0x0F) | (((((h >> 4) & 0x01) | ((b & 0x03) << 1)) & 0x01) << 4) == h) by (bit_vector)
        requires
            h < 32,
    ;
    assert((((h >> 4) & 0x01) | ((b & 0x03) << 1)) >> 1 == b) by (bit_vector)
        requires
            b < 4,
    ;
}

/// The sender's place in the eight-message cycle and the position the
/// current cycle encodes.
#[derive(Debug)]
pub struct QuarterFrameCycle {
    pub piece: u8,
    pub snapshot: SmpteTime,
}

impl QuarterFrameCycle {
    /// A cycle about to send piece 0, its position still 00:00:00:00.
    pub fn new() -> (c: QuarterFrameCycle)
        ensures
            c.piece == 0,
            c.snapshot == (SmpteTime { hours: 0, minutes: 0, seconds: 0, frames: 0 }),
    {
        QuarterFrameCycle { piece: 0, snapshot: SmpteTime { hours: 0, minutes: 0, seconds: 0, frames: 0 } }
    }

    /// Back to piece 0, as when the transport stops or sending is off, so
    /// a fresh start always begins a cycle.
    pub fn reset(&mut self)
        ensures
            final(self).piece == 0,
            final(self).snapshot == old(self).snapshot,
    {
        self.piece = 0;
    }

    /// The data byte of the next message. Piece 0 takes `now` as the
    /// position of the whole cycle; pieces 1 to 7 send that same position.
    pub fn next_data(&mut self, now: SmpteTime, smpte_bits: u8) -> (d: u8)
        requires
            old(self).piece < 8,
        ensures
            final(self).snapshot == (if old(self).piece == 0 { now } else { old(self).snapshot }),
            final(self).piece == (old(self).piece + 1) % 8,
            d >> 4u8 == old(self).piece,
            d & 0x0F == quarter_frame_nibble(old(self).piece, final(self).snapshot, smpte_bits),
    {
        if self.piece == 0 {
            self.snapshot = now;
        }
        let p = self.piece;
        assert(p & 0x07 == p) by (bit_vector)
            requires
                p < 8,
        ;
        let d = quarter_frame_data(p, self.snapshot, smpte_bits);
        self.piece = if p == 7 { 0 } else { p + 1 };
        d
    }
}


/// Law: the SMPTE position reads back as the elapsed time. Its hours,
/// minutes and seconds add up to the whole seconds elapsed (`total_frames /
/// fps`), taken round the 24-hour clock, each field within its range; and
/// at a rate whose frame count fits the byte, the frames field is what is
/// left over of the current second.
pub proof fn lemma_smpte_reads_back_the_elapsed_time(total_frames: nat, fps: nat)
    requires
        fps > 0,
    ensures
        ({
            let t = frames_to_smpte_spec(total_frames, fps);
            &&& t.hours < 24 && t.minutes < 60 && t.seconds < 60
            &&& t.hours * 3600 + t.minutes * 60 + t.seconds == (total_frames / fps) % 86400
            &&& fps <= 256 ==> t.frames == total_frames % fps
        }),
{
    let s: int = (total_frames / fps) as int;
    let a = s % 60;
    let m = s / 60;
    let b = m % 60;
    let h = m / 60;
    let c = h % 24;
    let d = h / 24;
    vstd::arithmetic::div_mod::lemma_fundamental_div_mod(s, 60);
    vstd::arithmetic::div_mod::lemma_fundamental_div_mod(m, 60);
    vstd::arithmetic::div_mod::lemma_fundamental_div_mod(h, 24);
    vstd::arithmetic::div_mod::lemma_mod_pos_bound(s, 60);
    vstd::arithmetic::div_mod::lemma_mod_pos_bound(m, 60);
    vstd::arithmetic::div_mod::lemma_mod_pos_bound(h, 24);
    vstd::arithmetic::div_mod::lemma_mod_pos_bound(total_frames as int, fps as int);
    assert(0 <= s);
    vstd::arithmetic::div_mod::lemma_div_pos_is_pos(s, 60);
    vstd::arithmetic::div_mod::lemma_div_pos_is_pos(m, 60);
    assert(s == d * 86400 + (c * 3600 + b * 60 + a)) by (nonlinear_arith)
        requires
            s == 60 * m + a,
            m == 60 * h + b,
            h == 24 * d + c,
    ;
    vstd::arithmetic::div_mod::lemma_fundamental_div_mod_converse(s, 86400, d, c * 3600 + b * 60 + a);
}

} // verus!
