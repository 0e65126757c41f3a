//! The worker that plays an archive on command: what it does in one turn
//! of its loop, given what it received and what time it is. Receiving,
//! sending, sleeping and reading the clock are the caller's part.

use vstd::prelude::*;

verus! {

/// The time between two steps at normal speed, in microseconds.
pub const DEFAULT_FRAME_DURATION: u64 = 16_000;

/// Normal speed, in thousandths.
pub const DEFAULT_PLAYBACK_SPEED: u32 = 1_000;

/// Whether the worker steps through the archive by itself, and in which
/// direction.
#[derive(Clone, Copy, Debug, PartialEq, Eq, Structural)]
pub enum PlayState {
    Paused,
    Forward,
    Backward,
}

/// What the worker can be told.
#[derive(Clone, Copy, Debug, PartialEq, Eq, Structural)]
pub enum PlayerThreadCommand {
    /// Leave the loop.
    StopThread,
    /// Report the state.
    GetState,
    /// Play at this speed, in thousandths of the normal one.
    ChangePlaybackSpeed(u32),
    ChangePlayState(PlayState),
    /// Go to this group and play it.
    ChangeFrame(usize),
}

/// What the worker reports of itself.
#[derive(Clone, Copy, Debug, PartialEq, Eq, Structural)]
pub struct PlayerThreadState {
    pub play_state: PlayState,
    /// The speed, in thousandths of the normal one.
    pub playback_speed: u32,
    pub curr_frame: usize,
}

impl Default for PlayerThreadState {
    fn default() -> (r: PlayerThreadState)
        ensures
            r == (PlayerThreadState {
                play_state: PlayState::Paused,
                playback_speed: DEFAULT_PLAYBACK_SPEED,
                curr_frame: 0,
            }),
    {
        PlayerThreadState {
            play_state: PlayState::Paused,
            playback_speed: DEFAULT_PLAYBACK_SPEED,
            curr_frame: 0,
        }
    }
}

/// What a look at the command channel gave.
#[derive(Clone, Copy, Debug, PartialEq, Eq, Structural)]
pub enum Received {
    Command(PlayerThreadCommand),
    /// No command is waiting.
    Empty,
    /// Nobody is left to send one.
    Disconnected,
}

/// What the worker is to do after one turn.
#[derive(Clone, Debug, PartialEq, Eq)]
pub struct Turn {
    /// Leave the loop, without anything else.
    pub stop: bool,
    /// The state to report, if it was asked for.
    pub state: Option<PlayerThreadState>,
    /// The groups to play, in this order.
    pub frames: Vec<usize>,
}

/// The state of the worker.
#[derive(Clone, Copy, Debug, PartialEq, Eq, Structural)]
pub struct PlayerThread {
    pub play_state: PlayState,
    pub curr_frame: usize,
    /// The speed, in thousandths of the normal one.
    pub playback_speed: u32,
    /// When the last step was made, in microseconds of a clock that does
    /// not go back; nothing while paused.
    pub last_frame_time: Option<u64>,
    /// The time between two steps, in microseconds.
    pub frame_duration: u64,
    /// The number of groups of the archive.
    pub num_frames: usize,
}

/// The time between two steps at a speed given in thousandths of the
/// normal one: 16 ms divided by the speed. At speed 0 no step is ever due.
pub open spec fn frame_duration_at(playback_speed: u32) -> u64 {
    if playback_speed == 0 {
        u64::MAX
    } else {
        (16_000_000int / playback_speed as int) as u64
    }
}

/// The group that a request for group `frame` goes to: `frame` itself if
/// the archive has it, else the last group.
pub open spec fn clamp_frame(frame: usize, num_frames: usize) -> usize {
    if frame < num_frames {
        frame
    } else if num_frames > 0 {
        (num_frames - 1) as usize
    } else {
        0
    }
}

/// The group to play after arriving at `frame`: `frame`, if the archive
/// has it.
pub open spec fn playable(frame: usize, num_frames: usize) -> Seq<usize> {
    if frame < num_frames {
        seq![frame]
    } else {
        Seq::empty()
    }
}

impl PlayerThread {
    /// The worker before its first turn.
    pub open spec fn initial(num_frames: usize) -> PlayerThread {
        PlayerThread {
            play_state: PlayState::Paused,
            curr_frame: 0,
            playback_speed: DEFAULT_PLAYBACK_SPEED,
            last_frame_time: None,
            frame_duration: DEFAULT_FRAME_DURATION,
            num_frames,
        }
    }

    /// What the worker reports of itself.
    pub open spec fn snapshot(self) -> PlayerThreadState {
        PlayerThreadState {
            play_state: self.play_state,
            playback_speed: self.playback_speed,
            curr_frame: self.curr_frame,
        }
    }

    /// The worker after a command that does not stop it.
    pub open spec fn after_command(self, command: PlayerThreadCommand) -> PlayerThread {
        match command {
            PlayerThreadCommand::StopThread => self,
            PlayerThreadCommand::GetState => self,
            PlayerThreadCommand::ChangePlayState(play_state) => PlayerThread { play_state, ..self },
            PlayerThreadCommand::ChangePlaybackSpeed(playback_speed) => PlayerThread {
                playback_speed,
                frame_duration: frame_duration_at(playback_speed),
                ..self
            },
            PlayerThreadCommand::ChangeFrame(frame) => PlayerThread {
                curr_frame: clamp_frame(frame, self.num_frames),
                ..self
            },
        }
    }

    /// The worker after what it received, if that does not stop it.
    pub open spec fn after_received(self, received: Received) -> PlayerThread {
        match received {
            Received::Command(command) => self.after_command(command),
            _ => self,
        }
    }

    /// Whether a step is due at the time `now`: while playing, when no
    /// step was made yet, or the last one is a frame duration ago.
    pub open spec fn step_due(self, now: u64) -> bool {
        self.play_state != PlayState::Paused && match self.last_frame_time {
            None => true,
            Some(last) => now >= last && now - last >= self.frame_duration,
        }
    }

    /// The group one step on: the next one, up to the end of the archive.
    pub open spec fn next_frame(self) -> usize {
        if self.curr_frame < self.num_frames {
            (self.curr_frame + 1) as usize
        } else {
            self.num_frames
        }
    }

    /// The group one step back: the one before, down to the first.
    pub open spec fn prev_frame(self) -> usize {
        if self.curr_frame > 0 {
            (self.curr_frame - 1) as usize
        } else {
            0
        }
    }

    /// The worker after the playing part of a turn at the time `now`:
    /// while paused the time of the last step is forgotten; while playing,
    /// a step that is due is made.
    pub open spec fn after_play(self, now: u64) -> PlayerThread {
        match self.play_state {
            PlayState::Paused => PlayerThread { last_frame_time: None, ..self },
            PlayState::Forward => if self.step_due(now) {
                PlayerThread { curr_frame: self.next_frame(), last_frame_time: Some(now), ..self }
            } else {
                self
            },
            PlayState::Backward => if self.step_due(now) {
                PlayerThread { curr_frame: self.prev_frame(), last_frame_time: Some(now), ..self }
            } else {
                self
            },
        }
    }

    /// Whether what was received stops the worker.
    pub open spec fn stops(received: Received) -> bool {
        received == Received::Command(PlayerThreadCommand::StopThread) || received
            == Received::Disconnected
    }

    /// The worker after one turn.
    pub open spec fn after_turn(self, received: Received, now: u64) -> PlayerThread {
        if PlayerThread::stops(received) {
            self
        } else {
            self.after_received(received).after_play(now)
        }
    }

    /// The state to report in a turn.
    pub open spec fn reply(self, received: Received) -> Option<PlayerThreadState> {
        if received == Received::Command(PlayerThreadCommand::GetState) {
            Some(self.snapshot())
        } else {
            None
        }
    }

    /// The groups to play in a turn: the one that a command went to, then
    /// the one that a step arrived at.
    pub open spec fn frames_to_play(self, received: Received, now: u64) -> Seq<usize> {
        if PlayerThread::stops(received) {
            Seq::empty()
        } else {
            let commanded = self.after_received(received);
            let first = match received {
                Received::Command(PlayerThreadCommand::ChangeFrame(_)) => playable(
                    commanded.curr_frame,
                    self.num_frames,
                ),
                _ => Seq::empty(),
            };
            let second = if commanded.step_due(now) {
                playable(commanded.after_play(now).curr_frame, self.num_frames)
            } else {
                Seq::empty()
            };
            first + second
        }
    }

    /// The worker before its first turn: paused at the first group, at
    /// normal speed.
    pub fn start(num_frames: usize) -> (r: PlayerThread)
        ensures
            r == PlayerThread::initial(num_frames),
    {
        PlayerThread {
            play_state: PlayState::Paused,
            curr_frame: 0,
            playback_speed: DEFAULT_PLAYBACK_SPEED,
            last_frame_time: None,
            frame_duration: DEFAULT_FRAME_DURATION,
            num_frames,
        }
    }

    /// What the worker reports of itself.
    pub fn state(&self) -> (r: PlayerThreadState)
        ensures
            r == self.snapshot(),
    {
        PlayerThreadState {
            play_state: self.play_state,
            playback_speed: self.playback_speed,
            curr_frame: self.curr_frame,
        }
    }

    /// Steps to the next group, up to the end of the archive, at the time
    /// `now`, and says which group to play.
    pub fn play_next_frame(&mut self, now: u64) -> (r: Option<usize>)
        ensures
            *final(self) == (PlayerThread {
                curr_frame: old(self).next_frame(),
                last_frame_time: Some(now),
                ..*old(self)
            }),
            final(self).curr_frame < old(self).num_frames ==> r == Some(final(self).curr_frame),
            final(self).curr_frame >= old(self).num_frames ==> r is None,
    {
        self.last_frame_time = Some(now);
        if self.curr_frame < self.num_frames {
            self.curr_frame = self.curr_frame + 1;
        } else {
            self.curr_frame = self.num_frames;
        }
        if self.curr_frame < self.num_frames {
            Some(self.curr_frame)
        } else {
            None
        }
    }

    /// Steps to the group before, down to the first, at the time `now`,
    /// and says which group to play.
    pub fn play_prev_frame(&mut self, now: u64) -> (r: Option<usize>)
        ensures
            *final(self) == (PlayerThread {
                curr_frame: old(self).prev_frame(),
                last_frame_time: Some(now),
                ..*old(self)
            }),
            final(self).curr_frame < old(self).num_frames ==> r == Some(final(self).curr_frame),
            final(self).curr_frame >= old(self).num_frames ==> r is None,
    {
        self.last_frame_time = Some(now);
        if self.curr_frame > 0 {
            self.curr_frame = self.curr_frame - 1;
        }
        if self.curr_frame < self.num_frames {
            Some(self.curr_frame)
        } else {
            None
        }
    }

    /// Whether a step is due at the time `now`.
    pub fn is_step_due(&self, now: u64) -> (due: bool)
        ensures
            due == self.step_due(now),
    {
        match self.play_state {
            PlayState::Paused => false,
            _ => match self.last_frame_time {
                None => true,
                Some(last) => now >= last && now - last >= self.frame_duration,
            },
        }
    }

    /// One turn of the worker's loop, at the time `now`: takes what was
    /// received, then makes the step that is due. The play state changes
    /// by the command for it and by nothing else.
    pub fn player_thread_func(&mut self, received: Received, now: u64) -> (turn: Turn)
        ensures
            *final(self) == old(self).after_turn(received, now),
            turn.stop == PlayerThread::stops(received),
            turn.stop ==> turn.state is None,
            !turn.stop ==> turn.state == old(self).reply(received),
            turn.frames@ == old(self).frames_to_play(received, now),
            !(received matches Received::Command(PlayerThreadCommand::ChangePlayState(_)))
                ==> final(self).play_state == old(self).play_state,
    {
        let mut frames: Vec<usize> = Vec::new();
        let mut state: Option<PlayerThreadState> = None;
        match received {
            Received::Command(command) => match command {
                PlayerThreadCommand::StopThread => {
                    return Turn { stop: true, state: None, frames };
                },
                PlayerThreadCommand::GetState => {
                    state = Some(self.state());
                },
                PlayerThreadCommand::ChangePlayState(play_state) => {
                    self.play_state = play_state;
                },
                PlayerThreadCommand::ChangePlaybackSpeed(playback_speed) => {
                    self.playback_speed = playback_speed;
                    self.frame_duration = if playback_speed == 0 {
                        u64::MAX
                    } else {
                        16_000_000 / playback_speed as u64
                    };
                },
                PlayerThreadCommand::ChangeFrame(frame) => {
                    self.curr_frame = if frame < self.num_frames {
                        frame
                    } else if self.num_frames > 0 {
                        self.num_frames - 1
                    } else {
                        0
                    };
                    if self.curr_frame < self.num_frames {
                        frames.push(self.curr_frame);
                    }
                },
            },
            Received::Empty => {},
            Received::Disconnected => {
                return Turn { stop: true, state: None, frames };
            },
        }
        let ghost first = frames@;
        let ghost commanded = *self;
        match self.play_state {
            PlayState::Forward => {
                if self.is_step_due(now) {
                    match self.play_next_frame(now) {
                        Some(frame) => {
                            frames.push(frame);
                        },
                        None => {},
                    }
                }
            },
            PlayState::Backward => {
                if self.is_step_due(now) {
                    match self.play_prev_frame(now) {
                        Some(frame) => {
                            frames.push(frame);
                        },
                        None => {},
                    }
                }
            },
            PlayState::Paused => {
                self.last_frame_time = None;
            },
        }
        proof {
            let second = if commanded.step_due(now) {
                playable(commanded.after_play(now).curr_frame, commanded.num_frames)
            } else {
                Seq::empty()
            };
            assert(frames@ =~= first + second);
        }
        Turn { stop: false, state, frames }
    }
}

/// While the worker is paused, a command to go to a group, then a command
/// to report, at whatever times: the group reported is the one asked for,
/// or the last where the archive has fewer; the turn of the first command
/// plays that group and no other, if the archive has any; and the
/// worker is still paused.
pub proof fn lemma_change_frame_then_get_state(
    worker: PlayerThread,
    frame: usize,
    now: u64,
    later: u64,
)
    requires
        worker.play_state == PlayState::Paused,
    ensures
        ({
            let set = Received::Command(PlayerThreadCommand::ChangeFrame(frame));
            let get = Received::Command(PlayerThreadCommand::GetState);
            let moved = worker.after_turn(set, now);
            let target = clamp_frame(frame, worker.num_frames);
            &&& moved.reply(get) == Some(
                PlayerThreadState {
                    play_state: PlayState::Paused,
                    playback_speed: worker.playback_speed,
                    curr_frame: target,
                },
            )
            &&& frame < worker.num_frames ==> target == frame
            &&& worker.num_frames > 0 ==> worker.frames_to_play(set, now) == seq![target]
            &&& worker.num_frames == 0 ==> worker.frames_to_play(set, now) == Seq::<usize>::empty()
            &&& moved.after_turn(get, later).snapshot() == moved.snapshot()
        }),
{
    let set = Received::Command(PlayerThreadCommand::ChangeFrame(frame));
    let target = clamp_frame(frame, worker.num_frames);
    if worker.num_frames > 0 {
        assert(worker.frames_to_play(set, now) =~= seq![target]);
    } else {
        assert(worker.frames_to_play(set, now) =~= Seq::<usize>::empty());
    }
}

/// A step never leaves the archive: the group that the worker is at stays
/// at or below the number of groups.
pub proof fn lemma_turn_stays_in_range(worker: PlayerThread, received: Received, now: u64)
    requires
        worker.curr_frame <= worker.num_frames,
    ensures
        worker.after_turn(received, now).curr_frame <= worker.num_frames,
        worker.after_turn(received, now).num_frames == worker.num_frames,
        forall|i: int|
            0 <= i < worker.frames_to_play(received, now).len() ==> (
            #[trigger] worker.frames_to_play(received, now)[i]) < worker.num_frames,
{
}

} // verus!
