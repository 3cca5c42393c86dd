//! The play queue: which track plays next or before, how shuffle and repeat
//! steer that choice, and where the current position goes when a track is
//! removed or a saved queue is restored.
use vstd::prelude::*;

verus! {

/// What the player does when it runs past the end of the queue.
#[derive(Clone, Copy, Debug, PartialEq, Eq, Structural)]
pub enum RepeatMode {
    Off,
    One,
    All,
}

impl RepeatMode {
    /// The mode that the repeat button switches to: off, one, all, off.
    pub open spec fn following(self) -> RepeatMode {
        match self {
            RepeatMode::Off => RepeatMode::One,
            RepeatMode::One => RepeatMode::All,
            RepeatMode::All => RepeatMode::Off,
        }
    }

    /// Switches to the next mode, as the repeat button does.
    pub fn next(self) -> (mode: RepeatMode)
        ensures
            mode == self.following(),
    {
        match self {
            RepeatMode::Off => RepeatMode::One,
            RepeatMode::One => RepeatMode::All,
            RepeatMode::All => RepeatMode::Off,
        }
    }
}

impl Default for RepeatMode {
    fn default() -> (mode: RepeatMode)
        ensures
            mode == RepeatMode::Off,
    {
        RepeatMode::Off
    }
}

/// Pressing the repeat button three times brings back the mode one started
/// with, and every press changes the mode.
pub proof fn repeat_button_cycles(mode: RepeatMode)
    ensures
        mode.following().following().following() == mode,
        mode.following() != mode,
{
}

/// How many tracks a shuffled "next" chooses among: every other track when
/// the whole queue repeats, otherwise the tracks after the current one.
/// Without shuffle, or with fewer than two tracks, there is no choice.
pub open spec fn choices_for(len: nat, index: nat, shuffle: bool, repeat: RepeatMode) -> nat {
    if shuffle && len > 1 {
        if repeat == RepeatMode::All {
            (len - 1) as nat
        } else if index + 1 < len {
            (len - index - 1) as nat
        } else {
            0
        }
    } else {
        0
    }
}

/// The number of tracks that a shuffled "next" picks from; the caller draws
/// a number below it at random and hands it to [`next_queue_index`].
pub fn shuffle_choices(len: usize, index: usize, shuffle: bool, repeat: RepeatMode) -> (choices:
    usize)
    ensures
        choices == choices_for(len as nat, index as nat, shuffle, repeat),
{
    if shuffle && len > 1 {
        if repeat == RepeatMode::All {
            len - 1
        } else if index < len - 1 {
            len - index - 1
        } else {
            0
        }
    } else {
        0
    }
}

/// The track after `index` in a queue of `len` tracks, with `draw` the
/// random pick among the shuffle choices. A shuffled queue skips ahead by
/// `draw + 1`, wrapping round only when everything repeats; a plain queue
/// steps to the next track, or back to the first when everything repeats.
/// `None` stops playback.
pub open spec fn next_index(
    len: nat,
    index: nat,
    shuffle: bool,
    repeat: RepeatMode,
    draw: nat,
) -> Option<nat> {
    if len == 0 {
        None
    } else if shuffle && len > 1 {
        if repeat == RepeatMode::All {
            Some((index + draw + 1) % len)
        } else if index + 1 < len {
            Some(index + draw + 1)
        } else {
            None
        }
    } else if index + 1 < len {
        Some(index + 1)
    } else if repeat == RepeatMode::All {
        Some(0)
    } else {
        None
    }
}

/// The queue position that plays after `index`, or `None` when playback
/// stops. `draw` is the random pick below [`shuffle_choices`]; it is read
/// only when there is a choice to make.
pub fn next_queue_index(
    len: usize,
    index: usize,
    shuffle: bool,
    repeat: RepeatMode,
    draw: usize,
) -> (next: Option<usize>)
    requires
        index < usize::MAX,
        shuffle && repeat == RepeatMode::All && len > 1 ==> index + len - 1 <= usize::MAX,
        choices_for(len as nat, index as nat, shuffle, repeat) > 0 ==> draw < choices_for(
            len as nat,
            index as nat,
            shuffle,
            repeat,
        ),
    ensures
        match next {
            Some(i) => next_index(len as nat, index as nat, shuffle, repeat, draw as nat) == Some(
                i as nat,
            ),
            None => next_index(len as nat, index as nat, shuffle, repeat, draw as nat) is None,
        },
{
    if len == 0 {
        return None;
    }
    if shuffle && len > 1 {
        if repeat == RepeatMode::All {
            let offset = draw + 1;
            return Some((index + offset) % len);
        }
        if index + 1 < len {
            return Some(index + draw + 1);
        }
        return None;
    }
    if index + 1 < len {
        Some(index + 1)
    } else if repeat == RepeatMode::All {
        Some(0)
    } else {
        None
    }
}

/// A draw that respects the shuffle choices.
pub open spec fn fair_draw(len: nat, index: nat, shuffle: bool, repeat: RepeatMode, draw: nat) -> bool {
    choices_for(len, index, shuffle, repeat) > 0 ==> draw < choices_for(len, index, shuffle, repeat)
}

/// The next track is always a position of the queue.
pub proof fn next_stays_in_queue(
    len: nat,
    index: nat,
    shuffle: bool,
    repeat: RepeatMode,
    draw: nat,
)
    requires
        fair_draw(len, index, shuffle, repeat, draw),
    ensures
        next_index(len, index, shuffle, repeat, draw) matches Some(i) ==> i < len,
{
}

/// Shuffling without repeating everything only moves forward: the next
/// track comes after the current one, or playback stops.
pub proof fn shuffle_never_wraps_backwards(len: nat, index: nat, repeat: RepeatMode, draw: nat)
    requires
        repeat != RepeatMode::All,
        len > 1,
        fair_draw(len, index, true, repeat, draw),
    ensures
        next_index(len, index, true, repeat, draw) matches Some(i) ==> index < i,
        next_index(len, index, true, repeat, draw) is None <==> index + 1 >= len,
{
}

/// Shuffling a repeating queue of several tracks always goes on, and never
/// picks the track that is playing.
pub proof fn repeating_shuffle_changes_track(len: nat, index: nat, draw: nat)
    requires
        len > 1,
        index < len,
        fair_draw(len, index, true, RepeatMode::All, draw),
    ensures
        next_index(len, index, true, RepeatMode::All, draw) matches Some(i) && i != index,
{
    let n: int = len as int;
    let k: int = (index + draw + 1) as int;
    assert(index < k < index + n);
    if k < n {
        assert(k % n == k) by (nonlinear_arith)
            requires
                0 <= k < n,
        ;
    } else {
        assert(k % n == k - n) by (nonlinear_arith)
            requires
                n <= k < 2 * n,
        ;
    }
}

/// When the whole queue repeats, a non-empty queue never stops.
pub proof fn repeat_all_never_stops(len: nat, index: nat, shuffle: bool, draw: nat)
    requires
        len > 0,
    ensures
        next_index(len, index, shuffle, RepeatMode::All, draw) is Some,
{
}

/// Without shuffle, "next" steps to the following track while there is one.
pub proof fn plain_next_steps_forward(len: nat, index: nat, repeat: RepeatMode, draw: nat)
    requires
        index + 1 < len,
    ensures
        next_index(len, index, false, repeat, draw) == Some(index + 1),
{
}

/// What the player does when a track has played to its end.
#[derive(Clone, Copy, Debug, PartialEq, Eq, Structural)]
pub enum TrackEnd {
    /// Play the same track again from the start.
    Restart,
    /// Stop playing.
    Stop,
    /// Play the track at this queue position.
    Play(usize),
}

/// What follows the end of the track at `index`: the same track again when
/// it repeats, nothing in an empty queue, otherwise the next track (with
/// `draw` the shuffle pick), or a stop where there is none.
pub open spec fn track_end_action(
    len: nat,
    index: nat,
    shuffle: bool,
    repeat: RepeatMode,
    draw: nat,
) -> TrackEnd {
    if repeat == RepeatMode::One {
        TrackEnd::Restart
    } else if len == 0 {
        TrackEnd::Stop
    } else {
        match next_index(len, index, shuffle, repeat, draw) {
            Some(i) => TrackEnd::Play(i as usize),
            None => TrackEnd::Stop,
        }
    }
}

/// Decides what the player does when the track at `index` ends.
pub fn after_track_end(
    len: usize,
    index: usize,
    shuffle: bool,
    repeat: RepeatMode,
    draw: usize,
) -> (action: TrackEnd)
    requires
        index < usize::MAX,
        shuffle && repeat == RepeatMode::All && len > 1 ==> index + len - 1 <= usize::MAX,
        choices_for(len as nat, index as nat, shuffle, repeat) > 0 ==> draw < choices_for(
            len as nat,
            index as nat,
            shuffle,
            repeat,
        ),
    ensures
        action == track_end_action(len as nat, index as nat, shuffle, repeat, draw as nat),
{
    if repeat == RepeatMode::One {
        return TrackEnd::Restart;
    }
    if len == 0 {
        return TrackEnd::Stop;
    }
    match next_queue_index(len, index, shuffle, repeat, draw) {
        Some(i) => TrackEnd::Play(i),
        None => TrackEnd::Stop,
    }
}

/// A track that repeats always restarts, and a queue that repeats as a
/// whole never stops at a track's end.
pub proof fn track_end_follows_repeat(len: nat, index: nat, shuffle: bool, draw: nat)
    requires
        index < len,
        fair_draw(len, index, shuffle, RepeatMode::All, draw),
    ensures
        track_end_action(len, index, shuffle, RepeatMode::One, draw) == TrackEnd::Restart,
        track_end_action(len, index, shuffle, RepeatMode::All, draw) is Play,
{
}

/// The track before `index`: the previous position, or the last one when
/// the whole queue repeats; `None` leaves the position as it is.
pub open spec fn previous_index(len: nat, index: nat, repeat: RepeatMode) -> Option<nat> {
    if index > 0 {
        Some((index - 1) as nat)
    } else if len > 0 && repeat == RepeatMode::All {
        Some((len - 1) as nat)
    } else {
        None
    }
}

/// The queue position that "previous" moves to, if it moves.
pub fn previous_queue_index(len: usize, index: usize, repeat: RepeatMode) -> (previous: Option<
    usize,
>)
    ensures
        match previous {
            Some(i) => previous_index(len as nat, index as nat, repeat) == Some(i as nat),
            None => previous_index(len as nat, index as nat, repeat) is None,
        },
{
    if index > 0 {
        Some(index - 1)
    } else if len > 0 && repeat == RepeatMode::All {
        Some(len - 1)
    } else {
        None
    }
}

/// "Previous" then "next" without shuffle comes back to the same track.
pub proof fn previous_then_next_returns(len: nat, index: nat, repeat: RepeatMode, draw: nat)
    requires
        0 < index < len,
    ensures
        previous_index(len, index, repeat) matches Some(p) && next_index(
            len,
            p,
            false,
            repeat,
            draw,
        ) == Some(index),
{
}

/// Where the current position goes once the track at `removed` has left a
/// queue that now holds `remaining` tracks: an empty queue starts over, a
/// removal before the current track shifts it down, and a position past the
/// end falls back to the last track.
pub open spec fn current_after_removal(remaining: nat, removed: nat, current: nat) -> nat {
    if remaining == 0 {
        0
    } else if removed < current {
        (current - 1) as nat
    } else if current >= remaining {
        (remaining - 1) as nat
    } else {
        current
    }
}

/// Removes the track at `removed` from the queue, when there is one, and
/// gives the new current position and whether playback goes on: a queue
/// left empty stops playing.
pub fn remove_from_queue<T>(
    tracks: &mut Vec<T>,
    removed: usize,
    current: usize,
    playing: bool,
) -> (after: (usize, bool))
    ensures
        removed < old(tracks)@.len() ==> final(tracks)@ == old(tracks)@.remove(removed as int),
        removed >= old(tracks)@.len() ==> final(tracks)@ == old(tracks)@,
        after.0 == current_after_removal(final(tracks)@.len(), removed as nat, current as nat),
        after.1 == (playing && final(tracks)@.len() > 0),
{
    if removed < tracks.len() {
        tracks.remove(removed);
    }
    let len = tracks.len();
    if len == 0 {
        (0, false)
    } else if removed < current {
        (current - 1, playing)
    } else if current >= len {
        (len - 1, playing)
    } else {
        (current, playing)
    }
}

/// Removing another track than the one playing keeps that track current,
/// and the position always stays inside a non-empty queue.
pub proof fn removal_keeps_current_track<T>(tracks: Seq<T>, removed: nat, current: nat)
    requires
        removed < tracks.len(),
        current < tracks.len(),
    ensures
        removed != current ==> tracks.remove(removed as int)[current_after_removal(
            (tracks.len() - 1) as nat,
            removed,
            current,
        ) as int] == tracks[current as int],
        tracks.len() > 1 ==> current_after_removal((tracks.len() - 1) as nat, removed, current)
            < tracks.len() - 1,
{
}

/// The current position kept inside a queue of `len` tracks (zero for an
/// empty queue).
pub open spec fn clamped_current(current: nat, len: nat) -> nat {
    if len == 0 {
        0
    } else if current < len {
        current
    } else {
        (len - 1) as nat
    }
}

/// Keeps a saved current position inside the queue: `current.min(len - 1)`,
/// with zero for an empty queue.
pub fn clamp_current(current: usize, len: usize) -> (clamped: usize)
    ensures
        clamped == clamped_current(current as nat, len as nat),
{
    let last = if len == 0 {
        0
    } else {
        len - 1
    };
    if current < last {
        current
    } else {
        last
    }
}

/// The version written with a saved queue.
pub const QUEUE_SNAPSHOT_VERSION: u8 = 2;

/// Whether a saved queue of this version can be read back: the current
/// version and the one before it.
pub open spec fn readable_version(version: u8) -> bool {
    version == 1 || version == 2
}

/// The current position of a saved queue read back, or `None` when its
/// version cannot be read and an empty queue is used instead.
pub fn restore_current(version: u8, current: usize, len: usize) -> (restored: Option<usize>)
    ensures
        restored is None <==> !readable_version(version),
        restored matches Some(c) ==> c == clamped_current(current as nat, len as nat),
{
    if version == 1 || version == 2 {
        Some(clamp_current(current, len))
    } else {
        None
    }
}

/// A restored position points at a track whenever the queue has one.
pub proof fn restored_position_is_valid(current: nat, len: nat)
    requires
        len > 0,
    ensures
        clamped_current(current, len) < len,
        current < len ==> clamped_current(current, len) == current,
{
}

/// What has been reported of the track that is playing: whether the
/// "now playing" report and the listen (scrobble) have been sent.
pub struct ScrobbleState {
    pub now_playing_sent: bool,
    pub submission_sent: bool,
}

impl ScrobbleState {
    /// Nothing reported yet.
    pub fn new() -> (state: Self)
        ensures
            !state.now_playing_sent,
            !state.submission_sent,
    {
        ScrobbleState { now_playing_sent: false, submission_sent: false }
    }

    /// Playback started. The "now playing" report is to be sent (`true`)
    /// once per track, when scrobbling is on and the track's provider
    /// supports it.
    pub fn playing(&mut self, enabled: bool, has_track: bool, supported: bool) -> (send: bool)
        ensures
            send == (enabled && !old(self).now_playing_sent && has_track && supported),
            final(self).now_playing_sent == (old(self).now_playing_sent || send),
            final(self).submission_sent == old(self).submission_sent,
    {
        let send = enabled && !self.now_playing_sent && has_track && supported;
        if send {
            self.now_playing_sent = true;
        }
        send
    }

    /// Playback moved on. Once enough of the track has been heard
    /// (`threshold_reached`), the listen is to be sent (`true`), once per
    /// track, when scrobbling is on and the provider supports it.
    pub fn progressed(
        &mut self,
        enabled: bool,
        threshold_reached: bool,
        has_track: bool,
        supported: bool,
    ) -> (send: bool)
        ensures
            send == (enabled && !old(self).submission_sent && threshold_reached && has_track
                && supported),
            final(self).submission_sent == (old(self).submission_sent || send),
            final(self).now_playing_sent == old(self).now_playing_sent,
    {
        let send = enabled && !self.submission_sent && threshold_reached && has_track && supported;
        if send {
            self.submission_sent = true;
        }
        send
    }

    /// The track ended. A listen not yet sent is sent now (`true`) when
    /// scrobbling is on and the provider supports it; then the next track
    /// starts with nothing reported.
    pub fn ended(&mut self, enabled: bool, has_track: bool, supported: bool) -> (send: bool)
        ensures
            send == (enabled && !old(self).submission_sent && has_track && supported),
            !final(self).now_playing_sent,
            !final(self).submission_sent,
    {
        let send = enabled && !self.submission_sent && has_track && supported;
        self.now_playing_sent = false;
        self.submission_sent = false;
        send
    }
}

/// Whether the playback position is saved again: when the whole seconds
/// played reach another five-second step than the one last saved.
pub fn position_to_save(whole_seconds: u64, saved_second: u64) -> (save: bool)
    ensures
        save == (whole_seconds / 5 != saved_second / 5),
{
    whole_seconds / 5 != saved_second / 5
}

} // verus!
