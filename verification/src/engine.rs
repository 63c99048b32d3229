//! The mix engine: the per-cycle state machine and mixing algorithm.
//!
//! Once per audio cycle the engine applies the commands the control thread
//! queued, in the order they were sent, then fills the output buffer: while
//! paused it blends the two live sources, while playing it adds the loaded
//! track, falling back to the live-only blend where the track runs out
//! mid-buffer. After mixing it advances the playback position and pauses
//! itself when the end of the track is reached.

use vstd::prelude::*;

use crate::mix::{mix2, mix3, spec_mix2, spec_mix3, GainLevels};

verus! {

/// An immutable PCM sample sequence at the fixed operating rate. Owned by the
/// engine after loading; never mutated.
pub struct Track {
    pub data: Vec<i16>,
}

impl View for Track {
    type V = Seq<i16>;

    open spec fn view(&self) -> Seq<i16> {
        self.data@
    }
}

/// A playback command, created by the control thread and consumed by the
/// engine in FIFO order.
#[derive(Clone, Copy, PartialEq, Eq, Structural, Debug)]
pub enum Command {
    /// Pause, or attempt to resume. Resuming is refused while no track is
    /// loaded.
    SetPaused(bool),
    /// Load the track at this index, resetting the playback position.
    LoadTrack(usize),
    /// Jump to this sample position, if it lies within the loaded track.
    SeekTo(usize),
}

/// The playback fields the engine maintains: which track is loaded, whether
/// playback is paused, and the position within the track.
#[derive(Clone, Copy, PartialEq, Eq, Structural, Debug)]
pub struct PlaybackState {
    /// Index of the loaded track, if any was ever loaded.
    pub active_track: Option<usize>,
    /// True while the track is not being mixed into the output.
    pub paused: bool,
    /// Current position, in samples from the start of the track.
    pub timestamp: usize,
    /// Length of the loaded track in samples, or 0 if none.
    pub max_timestamp: usize,
}

impl PlaybackState {
    /// The state before any track was loaded.
    pub open spec fn initial() -> PlaybackState {
        PlaybackState { active_track: None, paused: true, timestamp: 0, max_timestamp: 0 }
    }

    /// The joint invariant of the playback fields: the position never passes
    /// the end, the end is the length of the loaded track (0 without one), and
    /// nothing plays while no track is loaded.
    pub open spec fn wf(self, tracks: Seq<Track>) -> bool {
        &&& self.timestamp <= self.max_timestamp
        &&& match self.active_track {
            Some(i) => i < tracks.len() && self.max_timestamp == tracks[i as int]@.len(),
            None => self.max_timestamp == 0 && self.paused,
        }
    }
}

/// Whether a command may be handed to an engine owning these tracks: a load
/// must name an existing track. The control side builds loads from catalog
/// lookups, which only yield such indices.
pub open spec fn cmd_valid(c: Command, tracks: Seq<Track>) -> bool {
    match c {
        Command::LoadTrack(i) => i < tracks.len(),
        _ => true,
    }
}

/// All commands of one cycle's batch are valid for these tracks.
pub open spec fn cmds_valid(cs: Seq<Command>, tracks: Seq<Track>) -> bool {
    forall|k: int| 0 <= k < cs.len() ==> cmd_valid(cs[k], tracks)
}

/// The state transition of a single command.
pub open spec fn spec_apply_command(s: PlaybackState, c: Command, tracks: Seq<Track>) -> PlaybackState {
    match c {
        Command::LoadTrack(i) => PlaybackState {
            active_track: Some(i),
            paused: true,
            timestamp: 0,
            max_timestamp: tracks[i as int]@.len() as usize,
        },
        Command::SetPaused(p) => PlaybackState { paused: p || s.active_track is None, ..s },
        Command::SeekTo(n) => if n <= s.max_timestamp {
            PlaybackState { timestamp: n, ..s }
        } else {
            s
        },
    }
}

/// The composition of one cycle's command batch, applied strictly in FIFO
/// order.
pub open spec fn spec_apply_commands(
    s: PlaybackState,
    cs: Seq<Command>,
    tracks: Seq<Track>,
) -> PlaybackState
    decreases cs.len(),
{
    if cs.len() == 0 {
        s
    } else {
        spec_apply_commands(spec_apply_command(s, cs[0], tracks), cs.drop_first(), tracks)
    }
}

/// The number of track samples mixed this cycle: the whole buffer, or what is
/// left of the track if that is shorter; nothing while paused.
pub open spec fn spec_step(s: PlaybackState, len: int) -> int {
    if s.paused {
        0
    } else {
        vstd::math::min(len, s.max_timestamp - s.timestamp)
    }
}

/// The playback state after the mixing phase of one cycle over a buffer of
/// `len` samples: the position advances by the step, and the engine pauses
/// exactly when the position reaches the end of the track.
pub open spec fn spec_advance(s: PlaybackState, len: int) -> PlaybackState {
    if s.paused {
        s
    } else {
        let t2 = s.timestamp + spec_step(s, len);
        PlaybackState { timestamp: t2 as usize, paused: t2 == s.max_timestamp, ..s }
    }
}

/// Output sample `i` of a cycle run from state `s` (the state after the
/// command batch): the three-source blend while a track sample is available,
/// the live-only blend otherwise.
pub open spec fn spec_cycle_output(
    s: PlaybackState,
    tracks: Seq<Track>,
    g: GainLevels,
    mic: Seq<i16>,
    line: Seq<i16>,
    i: int,
) -> int {
    if i < spec_step(s, mic.len() as int) {
        spec_mix3(
            g,
            mic[i] as int,
            line[i] as int,
            tracks[s.active_track.unwrap() as int]@[s.timestamp + i] as int,
        )
    } else {
        spec_mix2(g, mic[i] as int, line[i] as int)
    }
}

/// A command keeps the playback invariant.
pub proof fn lemma_apply_command_wf(s: PlaybackState, c: Command, tracks: Seq<Track>)
    requires
        s.wf(tracks),
        cmd_valid(c, tracks),
    ensures
        spec_apply_command(s, c, tracks).wf(tracks),
{
    if let Command::LoadTrack(i) = c {
        assert(tracks[i as int].data.len() == tracks[i as int]@.len());
    }
}

/// A whole command batch keeps the playback invariant.
pub proof fn lemma_apply_commands_wf(s: PlaybackState, cs: Seq<Command>, tracks: Seq<Track>)
    requires
        s.wf(tracks),
        cmds_valid(cs, tracks),
    ensures
        spec_apply_commands(s, cs, tracks).wf(tracks),
    decreases cs.len(),
{
    if cs.len() > 0 {
        lemma_apply_command_wf(s, cs[0], tracks);
        lemma_apply_commands_wf(spec_apply_command(s, cs[0], tracks), cs.drop_first(), tracks);
    }
}

/// Applying a batch and then one more command is the same as applying the
/// batch extended by that command.
pub proof fn lemma_apply_commands_snoc(
    s: PlaybackState,
    cs: Seq<Command>,
    c: Command,
    tracks: Seq<Track>,
)
    ensures
        spec_apply_commands(s, cs.push(c), tracks) == spec_apply_command(
            spec_apply_commands(s, cs, tracks),
            c,
            tracks,
        ),
    decreases cs.len(),
{
    if cs.len() == 0 {
        let s1 = spec_apply_command(s, c, tracks);
        assert(cs.push(c)[0] == c);
        assert(cs.push(c).drop_first() =~= cs);
        assert(spec_apply_commands(s1, cs, tracks) == s1);
        assert(spec_apply_commands(s, cs.push(c), tracks) == spec_apply_commands(
            s1,
            cs.push(c).drop_first(),
            tracks,
        ));
    } else {
        let s_mid = spec_apply_command(s, cs[0], tracks);
        assert(cs.push(c)[0] == cs[0]);
        assert(cs.push(c).drop_first() =~= cs.drop_first().push(c));
        assert(spec_apply_commands(s, cs.push(c), tracks) == spec_apply_commands(
            s_mid,
            cs.push(c).drop_first(),
            tracks,
        ));
        lemma_apply_commands_snoc(s_mid, cs.drop_first(), c, tracks);
        assert(spec_apply_commands(s, cs, tracks) == spec_apply_commands(
            s_mid,
            cs.drop_first(),
            tracks,
        ));
    }
}

/// The mixing phase keeps the playback invariant.
pub proof fn lemma_advance_wf(s: PlaybackState, len: int, tracks: Seq<Track>)
    requires
        s.wf(tracks),
        len >= 0,
    ensures
        spec_advance(s, len).wf(tracks),
{
}

/// While playing with samples left, one cycle advances the position by the
/// cycle length, capped at the end of the track, and the engine pauses
/// exactly when the new position is the end.
pub proof fn lemma_playing_cycle_advances(s: PlaybackState, len: int)
    requires
        !s.paused,
        s.timestamp < s.max_timestamp,
        len >= 0,
    ensures
        spec_advance(s, len).timestamp == vstd::math::min(
            s.timestamp + len,
            s.max_timestamp as int,
        ),
        spec_advance(s, len).paused <==> spec_advance(s, len).timestamp == s.max_timestamp,
{
}

/// While paused, every output sample is the live-only blend
/// `(micGain*mic + lineGain*line) / 3`, whatever any loaded track holds.
pub proof fn lemma_paused_output_ignores_track(
    s: PlaybackState,
    tracks1: Seq<Track>,
    tracks2: Seq<Track>,
    g: GainLevels,
    mic: Seq<i16>,
    line: Seq<i16>,
    i: int,
)
    requires
        s.paused,
        0 <= i < mic.len(),
    ensures
        spec_cycle_output(s, tracks1, g, mic, line, i) == spec_mix2(
            g,
            mic[i] as int,
            line[i] as int,
        ),
        spec_cycle_output(s, tracks1, g, mic, line, i) == spec_cycle_output(
            s,
            tracks2,
            g,
            mic,
            line,
            i,
        ),
{
}

/// Loading a track always resets playback — position 0, length of the loaded
/// track as the end, paused — whatever the state before the command.
pub proof fn lemma_load_resets(s: PlaybackState, i: usize, tracks: Seq<Track>)
    requires
        i < tracks.len(),
    ensures
        ({
            let s2 = spec_apply_command(s, Command::LoadTrack(i), tracks);
            &&& s2.active_track == Some(i)
            &&& s2.timestamp == 0
            &&& s2.max_timestamp == tracks[i as int]@.len()
            &&& s2.paused
        }),
{
    assert(tracks[i as int].data.len() == tracks[i as int]@.len());
}

/// Resuming is a no-op while no track has ever been loaded: the state is
/// unchanged and playback stays paused.
pub proof fn lemma_unpause_without_track(s: PlaybackState, tracks: Seq<Track>)
    requires
        s.wf(tracks),
        s.active_track is None,
    ensures
        spec_apply_command(s, Command::SetPaused(false), tracks) == s,
        spec_apply_command(s, Command::SetPaused(false), tracks).paused,
{
}

/// A seek beyond the end of the loaded track is ignored; a seek within it
/// moves the position exactly there. Neither touches the paused flag, the
/// loaded track, or the track end.
pub proof fn lemma_seek(s: PlaybackState, n: usize, tracks: Seq<Track>)
    ensures
        n > s.max_timestamp ==> spec_apply_command(s, Command::SeekTo(n), tracks) == s,
        n <= s.max_timestamp ==> spec_apply_command(s, Command::SeekTo(n), tracks) == (
        PlaybackState { timestamp: n, ..s }),
{
}

/// The seek command for a minute:second position, or `None` where the
/// position does not fit in a sample count. A seek past the end of the
/// loaded track is ignored by the engine when applied.
pub fn jump_song(minutes: usize, seconds: usize) -> (r: Option<Command>)
    ensures
        crate::transport::spec_minsec_to_samples(minutes as int, seconds as int) <= usize::MAX
            ==> r == Some(
            Command::SeekTo(
                crate::transport::spec_minsec_to_samples(minutes as int, seconds as int) as usize,
            ),
        ),
        crate::transport::spec_minsec_to_samples(minutes as int, seconds as int) > usize::MAX
            ==> r is None,
{
    match crate::transport::checked_minsec_to_samples(minutes, seconds) {
        Some(samples) => Some(Command::SeekTo(samples)),
        None => None,
    }
}

/// The engine: the immutable track list built at startup and the playback
/// state only this engine writes.
pub struct Engine {
    pub tracks: Vec<Track>,
    pub state: PlaybackState,
}

impl Engine {
    /// The engine's invariant: the playback fields agree with the track list.
    pub open spec fn wf(self) -> bool {
        self.state.wf(self.tracks@)
    }

    /// An engine owning these tracks, with nothing loaded and playback paused.
    pub fn new(tracks: Vec<Track>) -> (r: Engine)
        ensures
            r.tracks == tracks,
            r.state == PlaybackState::initial(),
            r.wf(),
    {
        Engine {
            tracks,
            state: PlaybackState {
                active_track: None,
                paused: true,
                timestamp: 0,
                max_timestamp: 0,
            },
        }
    }

    /// Applies one control command to the playback state.
    pub fn apply_command(&mut self, c: Command)
        requires
            old(self).wf(),
            cmd_valid(c, old(self).tracks@),
        ensures
            final(self).tracks == old(self).tracks,
            final(self).state == spec_apply_command(old(self).state, c, old(self).tracks@),
            final(self).wf(),
    {
        match c {
            Command::LoadTrack(i) => {
                self.state.active_track = Some(i);
                self.state.timestamp = 0;
                self.state.max_timestamp = self.tracks[i].data.len();
                self.state.paused = true;
            },
            Command::SetPaused(p) => {
                self.state.paused = p || self.state.active_track.is_none();
            },
            Command::SeekTo(n) => {
                if n <= self.state.max_timestamp {
                    self.state.timestamp = n;
                }
            },
        }
    }

    /// One audio cycle: applies the queued commands in order, fills the whole
    /// output buffer from the live inputs and the loaded track, and advances
    /// the playback position.
    pub fn run_cycle(
        &mut self,
        cmds: &Vec<Command>,
        g: &GainLevels,
        mic: &Vec<i16>,
        line: &Vec<i16>,
        out: &mut Vec<i64>,
    )
        requires
            old(self).wf(),
            cmds_valid(cmds@, old(self).tracks@),
            mic@.len() == old(out)@.len(),
            line@.len() == old(out)@.len(),
        ensures
            final(self).tracks == old(self).tracks,
            final(self).wf(),
            final(out)@.len() == old(out)@.len(),
            ({
                let s1 = spec_apply_commands(old(self).state, cmds@, old(self).tracks@);
                &&& final(self).state == spec_advance(s1, mic@.len() as int)
                &&& forall|i: int|
                    0 <= i < final(out)@.len() ==> final(out)@[i] == spec_cycle_output(
                        s1,
                        old(self).tracks@,
                        *g,
                        mic@,
                        line@,
                        i,
                    )
            }),
    {
        let ghost s0 = self.state;
        let ghost tracks0 = self.tracks;
        let ghost tracks = self.tracks@;

        // Drain the command batch in FIFO order.
        let mut k: usize = 0;
        while k < cmds.len()
            invariant
                0 <= k <= cmds@.len(),
                cmds_valid(cmds@, tracks),
                self.tracks == tracks0,
                self.tracks@ == tracks,
                self.wf(),
                self.state == spec_apply_commands(s0, cmds@.take(k as int), tracks),
            decreases cmds@.len() - k,
        {
            proof {
                assert(cmds@.take(k as int).push(cmds@[k as int]) =~= cmds@.take(k as int + 1));
                lemma_apply_commands_snoc(s0, cmds@.take(k as int), cmds@[k as int], tracks);
            }
            self.apply_command(cmds[k]);
            k = k + 1;
        }
        proof {
            assert(cmds@.take(cmds@.len() as int) =~= cmds@);
        }
        let ghost s1 = self.state;

        let len = out.len();
        if self.state.paused {
            // Paused: blend only the two live sources.
            let mut i: usize = 0;
            while i < len
                invariant
                    0 <= i <= len,
                    s1.paused,
                    mic@.len() == len,
                    line@.len() == len,
                    out@.len() == len,
                    self.state == s1,
                    self.tracks == tracks0,
                self.tracks@ == tracks,
                    forall|j: int|
                        0 <= j < i ==> out@[j] == spec_cycle_output(s1, tracks, *g, mic@, line@, j),
                decreases len - i,
            {
                out[i] = mix2(g, mic[i], line[i]);
                i = i + 1;
            }
        } else {
            let timestamp = self.state.timestamp;
            let max_timestamp = self.state.max_timestamp;

            // Number of track samples still available this cycle.
            let remaining = max_timestamp - timestamp;
            let step = if len < remaining {
                len
            } else {
                remaining
            };
            assert(step == spec_step(s1, len as int));

            let track_index = match self.state.active_track {
                Some(i) => i,
                None => 0,  // unreachable: playing implies a track is loaded
            };
            assert(s1.active_track == Some(track_index));

            // Blend all three sources while track samples last.
            let mut i: usize = 0;
            while i < step
                invariant
                    0 <= i <= step,
                    step == spec_step(s1, len as int),
                    step <= len,
                    s1.active_track == Some(track_index),
                    track_index < tracks.len(),
                    timestamp == s1.timestamp,
                    timestamp + step <= tracks[track_index as int]@.len(),
                    mic@.len() == len,
                    line@.len() == len,
                    out@.len() == len,
                    self.state == s1,
                    self.tracks == tracks0,
                self.tracks@ == tracks,
                    forall|j: int|
                        0 <= j < i ==> out@[j] == spec_cycle_output(s1, tracks, *g, mic@, line@, j),
                decreases step - i,
            {
                let s = self.tracks[track_index].data[timestamp + i];
                out[i] = mix3(g, mic[i], line[i], s);
                i = i + 1;
            }

            // Track exhausted mid-buffer: fall back to the live-only blend.
            let mut i: usize = step;
            while i < len
                invariant
                    step <= i <= len,
                    step == spec_step(s1, len as int),
                    mic@.len() == len,
                    line@.len() == len,
                    out@.len() == len,
                    self.state == s1,
                    self.tracks == tracks0,
                self.tracks@ == tracks,
                    forall|j: int|
                        0 <= j < i ==> out@[j] == spec_cycle_output(s1, tracks, *g, mic@, line@, j),
                decreases len - i,
            {
                out[i] = mix2(g, mic[i], line[i]);
                i = i + 1;
            }

            // Advance the position; pause on reaching the end of the track.
            let next_ts = timestamp + step;
            self.state.timestamp = next_ts;
            self.state.paused = next_ts == max_timestamp;
        }
    }

    /// True if playback is paused.
    pub fn get_paused(&self) -> (r: bool)
        ensures
            r == self.state.paused,
    {
        self.state.paused
    }

    /// The current and maximum playback position, in samples. Both are 0
    /// while no track is loaded.
    pub fn music_samples(&self) -> (r: (usize, usize))
        ensures
            r == (self.state.timestamp, self.state.max_timestamp),
    {
        (self.state.timestamp, self.state.max_timestamp)
    }

    /// The current and maximum playback position, each as (minutes, seconds).
    /// Both are 00:00 while no track is loaded.
    pub fn music_timestamp(&self) -> (r: ((usize, usize), (usize, usize)))
        ensures
            (r.0.0 as int, r.0.1 as int) == crate::transport::spec_samples_to_minsec(
                self.state.timestamp as int,
            ),
            (r.1.0 as int, r.1.1 as int) == crate::transport::spec_samples_to_minsec(
                self.state.max_timestamp as int,
            ),
    {
        (
            crate::transport::samples_to_minsec(self.state.timestamp),
            crate::transport::samples_to_minsec(self.state.max_timestamp),
        )
    }
}

} // verus!
