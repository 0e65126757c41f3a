//! Playing a log in the time it was recorded in: which messages are sent,
//! to which channel, and how long after the first of a running span.
//! Sending, sleeping and reading the clock are the caller's part, and so
//! is dividing by the speed.

use crate::labeler::player::Channel;
use crate::labeler::player::Datagram;
use crate::labeler::player::DatagramSpec;
use crate::labeler::segmenter::is_running;
use crate::labeler::segmenter::stage_of;
use crate::persistence::message::Message;
use crate::persistence::message::MessageSpec;
use crate::persistence::message::MessageType;
use crate::persistence::message::MessageTypeSpec;
use crate::persistence::reader::next_message;
use crate::persistence::reader::LogReader;
use crate::protos::messages_robocup_ssl_referee::SSL_Referee_Stage;
use vstd::prelude::*;

verus! {

/// The port of the referee's multicast group.
pub const REFEREE_PORT: u16 = 10003;

/// The port of the vision multicast group.
pub const VISION_PORT: u16 = 10006;

/// The address of the referee's multicast group: 224.5.23.1.
pub const REFEREE_ADDR: [u8; 4] = [224, 5, 23, 1];

/// The address of the vision multicast group: 224.5.23.2.
pub const VISION_ADDR: [u8; 4] = [224, 5, 23, 2];

/// Where the two channels are sent to: IPv4 addresses and ports.
#[derive(Clone, Copy, Debug, PartialEq, Eq)]
pub struct PlayerOptions {
    pub referee_addr: [u8; 4],
    pub referee_port: u16,
    pub vision_addr: [u8; 4],
    pub vision_port: u16,
}

impl Default for PlayerOptions {
    fn default() -> (r: PlayerOptions)
        ensures
            r.referee_addr == REFEREE_ADDR,
            r.referee_port == REFEREE_PORT,
            r.vision_addr == VISION_ADDR,
            r.vision_port == VISION_PORT,
    {
        PlayerOptions {
            referee_addr: REFEREE_ADDR,
            referee_port: REFEREE_PORT,
            vision_addr: VISION_ADDR,
            vision_port: VISION_PORT,
        }
    }
}

/// Whether messages are sent at this stage: a referee message has
/// announced a stage, and it is one of the four halves. Before the first
/// referee message nothing is sent.
pub fn is_running_stage(stage: Option<SSL_Referee_Stage>) -> (b: bool)
    ensures
        b == is_running(stage),
{
    match stage {
        Some(stage) => match stage {
            SSL_Referee_Stage::NORMAL_FIRST_HALF
            | SSL_Referee_Stage::NORMAL_SECOND_HALF
            | SSL_Referee_Stage::EXTRA_FIRST_HALF
            | SSL_Referee_Stage::EXTRA_SECOND_HALF => true,
            _ => false,
        },
        None => false,
    }
}

/// When a message is due.
#[derive(Clone, Copy, Debug, PartialEq, Eq, Structural)]
pub enum Pacing {
    /// The message arrives outside a running span: it is not sent, and
    /// the next running span starts its own clock.
    NotRunning,
    /// The first message of a running span: the clock starts now.
    Latch,
    /// The message was recorded this many nanoseconds after the first of
    /// its running span; it is due when as much time, divided by the
    /// speed, has passed since the clock started.
    After(i128),
}

/// What to do with one message of the log.
#[derive(Clone, Debug, PartialEq, Eq)]
pub struct PlayStep {
    pub pacing: Pacing,
    /// What to send when the message is due, if anything.
    pub datagram: Option<Datagram>,
}

/// What the player keeps between messages: the stage last announced, and
/// the timestamp of the first message of the running span, if one has
/// started.
#[derive(Clone, Copy, Debug, PartialEq, Eq, Structural)]
pub struct PlayerState {
    pub curr_stage: Option<SSL_Referee_Stage>,
    pub ref_timestamp: Option<i64>,
}

/// The datagram that a message of a log comes to: the bytes of a referee
/// message go to the referee channel, those of a vision packet to the
/// vision channel; any other message comes to none.
pub open spec fn datagram_of_message(m: MessageSpec) -> Option<DatagramSpec> {
    match m.msg_type {
        MessageTypeSpec::Refbox2013(r) => Some(
            DatagramSpec { channel: Channel::Referee, bytes: r.bytes },
        ),
        MessageTypeSpec::Vision2014(w) => Some(
            DatagramSpec { channel: Channel::Vision, bytes: w.bytes },
        ),
        _ => None,
    }
}

impl PlayerState {
    /// Before the first message.
    pub open spec fn initial() -> PlayerState {
        PlayerState { curr_stage: None, ref_timestamp: None }
    }

    /// When the message `m` is due.
    pub open spec fn pacing(self, m: MessageSpec) -> Pacing {
        if is_running(self.curr_stage) {
            match self.ref_timestamp {
                Some(ref_timestamp) => Pacing::After((m.timestamp - ref_timestamp) as i128),
                None => Pacing::Latch,
            }
        } else {
            Pacing::NotRunning
        }
    }

    /// What is sent for the message `m`: its datagram, inside a running
    /// span.
    pub open spec fn sends(self, m: MessageSpec) -> Option<DatagramSpec> {
        if is_running(self.curr_stage) {
            datagram_of_message(m)
        } else {
            None
        }
    }

    /// The state after the message `m`: a referee message sets the stage;
    /// the first message of a running span sets the reference timestamp,
    /// and a message outside a running span clears it.
    pub open spec fn after(self, m: MessageSpec) -> PlayerState {
        PlayerState {
            curr_stage: match m.msg_type {
                MessageTypeSpec::Refbox2013(r) => Some(r.stage),
                _ => self.curr_stage,
            },
            ref_timestamp: if is_running(self.curr_stage) {
                match self.ref_timestamp {
                    Some(ref_timestamp) => Some(ref_timestamp),
                    None => Some(m.timestamp),
                }
            } else {
                None
            },
        }
    }

    /// Takes one message of the log: says when it is due and what to send
    /// for it, and keeps the stage and the reference timestamp.
    pub fn play_message(&mut self, message: &Message) -> (step: PlayStep)
        ensures
            *final(self) == old(self).after(message@),
            step.pacing == old(self).pacing(message@),
            match old(self).sends(message@) {
                Some(d) => step.datagram is Some && step.datagram->Some_0@ == d,
                None => step.datagram is None,
            },
    {
        let mut pacing = Pacing::NotRunning;
        let mut datagram: Option<Datagram> = None;
        if is_running_stage(self.curr_stage) {
            match self.ref_timestamp {
                Some(ref_timestamp) => {
                    pacing = Pacing::After(message.timestamp as i128 - ref_timestamp as i128);
                },
                None => {
                    pacing = Pacing::Latch;
                    self.ref_timestamp = Some(message.timestamp);
                },
            }
            match &message.msg_type {
                MessageType::Blank | MessageType::Vision2010(_) | MessageType::Unknown(_) => {},
                MessageType::Refbox2013(ref_msg) => {
                    let bytes = ref_msg.as_bytes().clone();
                    assert(bytes@ =~= ref_msg@.bytes);
                    datagram = Some(Datagram { channel: Channel::Referee, bytes });
                },
                MessageType::Vision2014(vision_msg) => {
                    let bytes = vision_msg.as_bytes().clone();
                    assert(bytes@ =~= vision_msg@.bytes);
                    datagram = Some(Datagram { channel: Channel::Vision, bytes });
                },
            }
        } else {
            self.ref_timestamp = None;
        }
        match &message.msg_type {
            MessageType::Refbox2013(ref_msg) => {
                self.curr_stage = Some(ref_msg.get_stage());
            },
            _ => {},
        }
        PlayStep { pacing, datagram }
    }
}

impl PlayerState {
    /// The state after the messages `ms`, in order.
    pub open spec fn run(self, ms: Seq<MessageSpec>) -> PlayerState
        decreases ms.len(),
    {
        if ms.len() == 0 {
            self
        } else {
            self.run(ms.drop_last()).after(ms.last())
        }
    }
}

/// After any messages of a log, the next message is sent exactly where it
/// is a referee message or a vision packet and the last referee message
/// before it announced a running stage. So nothing is sent before a
/// referee message has announced a running stage, and a blank message, a
/// vision packet of the old format and an unknown payload are never sent.
pub proof fn lemma_sent_while_running(ms: Seq<MessageSpec>, m: MessageSpec)
    ensures
        PlayerState::initial().run(ms).curr_stage == stage_of(ms),
        PlayerState::initial().run(ms).sends(m) == if is_running(stage_of(ms)) {
            datagram_of_message(m)
        } else {
            None
        },
        ms.len() == 0 ==> PlayerState::initial().run(ms).sends(m) is None,
        !(m.msg_type is Refbox2013 || m.msg_type is Vision2014) ==> PlayerState::initial().run(
            ms,
        ).sends(m) is None,
    decreases ms.len(),
{
    if ms.len() > 0 {
        lemma_sent_while_running(ms.drop_last(), ms.last());
    }
}

/// Plays a log.
#[derive(Debug)]
pub struct Player {
    reader: LogReader,
    options: PlayerOptions,
    state: PlayerState,
}

impl Player {
    /// The log that is played.
    pub closed spec fn reader(&self) -> LogReader {
        self.reader
    }

    /// What the player keeps between messages.
    pub closed spec fn state(&self) -> PlayerState {
        self.state
    }

    /// Where the channels are sent to.
    pub closed spec fn options(&self) -> PlayerOptions {
        self.options
    }

    /// A player of the log `reader` that sends to the addresses of
    /// `options`.
    pub fn new_with_options(reader: LogReader, options: PlayerOptions) -> (r: Player)
        ensures
            r.reader() == reader,
            r.options() == options,
            r.state() == PlayerState::initial(),
    {
        Player { reader, options, state: PlayerState { curr_stage: None, ref_timestamp: None } }
    }

    /// A player that sends to the usual addresses.
    pub fn new(reader: LogReader) -> (r: Player)
        ensures
            r.reader() == reader,
            r.options().referee_addr == REFEREE_ADDR,
            r.options().referee_port == REFEREE_PORT,
            r.options().vision_addr == VISION_ADDR,
            r.options().vision_port == VISION_PORT,
            r.state() == PlayerState::initial(),
    {
        Player::new_with_options(reader, PlayerOptions::default())
    }

    /// Where the channels are sent to.
    pub fn get_options(&self) -> (r: PlayerOptions)
        ensures
            r == self.options(),
    {
        self.options
    }

    /// The next step of playing: reads the next message of the log,
    /// passing over what cannot be read, and says when it is due and what
    /// to send for it. Nothing at the end of the log.
    pub fn play_next(&mut self) -> (r: Option<PlayStep>)
        ensures
            final(self).options() == old(self).options(),
            final(self).reader().source().bytes() == old(self).reader().source().bytes(),
            match next_message(old(self).reader().remaining()) {
                Some((m, n)) => r is Some && r->Some_0.pacing == old(self).state().pacing(m)
                    && final(self).state() == old(self).state().after(m)
                    && final(self).reader().source().pos() == old(self).reader().source().pos() + n
                    && match old(self).state().sends(m) {
                    Some(d) => r->Some_0.datagram is Some && r->Some_0.datagram->Some_0@ == d,
                    None => r->Some_0.datagram is None,
                },
                None => r is None && final(self).state() == old(self).state()
                    && final(self).reader().remaining().len() == 0,
            },
    {
        match self.reader.next_message() {
            Some(message) => Some(self.state.play_message(&message)),
            None => None,
        }
    }
}

} // verus!
