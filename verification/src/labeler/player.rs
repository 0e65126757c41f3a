//! Playing an archive: which datagrams a frame group comes to, and in
//! which order the groups of a range are played. Sending the datagrams is
//! the caller's part.

use crate::labeler::reader::LabelerDataReader;
use crate::protos::log_labeler_data::FramePayload;
use crate::protos::log_labeler_data::FrameSpec;
use crate::protos::log_labeler_data::LabelerFrame;
use crate::protos::log_labeler_data::LabelerFrameGroup;
use crate::protos::log_labeler_data::PayloadSpec;
use vstd::prelude::*;

verus! {

/// The two multicast groups that the recorded traffic is sent to.
#[derive(Clone, Copy, Debug, PartialEq, Eq, Structural)]
pub enum Channel {
    Referee,
    Vision,
}

/// One datagram to send: the bytes of a payload, exactly as recorded, and
/// the channel they go to.
#[derive(Clone, Debug, PartialEq, Eq)]
pub struct Datagram {
    pub channel: Channel,
    pub bytes: Vec<u8>,
}

/// The mathematical value of a `Datagram`.
pub struct DatagramSpec {
    pub channel: Channel,
    pub bytes: Seq<u8>,
}

impl View for Datagram {
    type V = DatagramSpec;

    open spec fn view(&self) -> DatagramSpec {
        DatagramSpec { channel: self.channel, bytes: self.bytes@ }
    }
}

/// The values of a sequence of datagrams.
pub open spec fn datagrams_view(datagrams: Seq<Datagram>) -> Seq<DatagramSpec> {
    datagrams.map_values(|d: Datagram| d@)
}

/// The datagram that a frame comes to: the bytes of a referee message go
/// to the referee channel, those of a vision packet to the vision channel;
/// a frame without payload comes to none.
pub open spec fn datagram_of(f: FrameSpec) -> Option<DatagramSpec> {
    match f.payload {
        PayloadSpec::Unset => None,
        PayloadSpec::Vision(m) => Some(DatagramSpec { channel: Channel::Vision, bytes: m.bytes }),
        PayloadSpec::Referee(m) => Some(DatagramSpec { channel: Channel::Referee, bytes: m.bytes }),
    }
}

/// The datagrams that the frames of a group come to, in the order of the
/// frames.
pub open spec fn datagrams_of(frames: Seq<FrameSpec>) -> Seq<DatagramSpec>
    decreases frames.len(),
{
    if frames.len() == 0 {
        Seq::empty()
    } else {
        let before = datagrams_of(frames.drop_last());
        match datagram_of(frames.last()) {
            Some(d) => before.push(d),
            None => before,
        }
    }
}

/// The datagrams that playing group `index` of `reader` sends: those of
/// its frames; none where the archive has no such group, or its record
/// cannot be read.
pub open spec fn datagrams_at(reader: LabelerDataReader, index: usize) -> Seq<DatagramSpec> {
    if index < reader.metadata().message_offsets.len() {
        match reader.group(index as int) {
            Ok(g) => datagrams_of(g),
            Err(_) => Seq::empty(),
        }
    } else {
        Seq::empty()
    }
}

/// The datagram that a frame comes to.
pub fn frame_datagram(frame: &LabelerFrame) -> (r: Option<Datagram>)
    ensures
        match datagram_of(frame@) {
            Some(d) => r is Some && r->Some_0@ == d,
            None => r is None,
        },
{
    match &frame.frame {
        None => None,
        Some(FramePayload::Vision(m)) => {
            let bytes = m.as_bytes().clone();
            assert(bytes@ =~= m@.bytes);
            Some(Datagram { channel: Channel::Vision, bytes })
        },
        Some(FramePayload::Referee(m)) => {
            let bytes = m.as_bytes().clone();
            assert(bytes@ =~= m@.bytes);
            Some(Datagram { channel: Channel::Referee, bytes })
        },
    }
}

/// The datagrams that the frames of a group come to, in the order of the
/// frames.
pub fn group_datagrams(group: &LabelerFrameGroup) -> (r: Vec<Datagram>)
    ensures
        datagrams_view(r@) == datagrams_of(group@),
{
    let mut out: Vec<Datagram> = Vec::new();
    let ghost all = group@;
    let mut i: usize = 0;
    assert(datagrams_view(out@) =~= Seq::<DatagramSpec>::empty());
    assert(all.take(0) =~= Seq::<FrameSpec>::empty());
    while i < group.frames.len()
        invariant
            i <= group.frames@.len(),
            all == group@,
            datagrams_view(out@) == datagrams_of(all.take(i as int)),
        decreases group.frames@.len() - i,
    {
        let ghost before = datagrams_view(out@);
        assert(all.take(i + 1).drop_last() =~= all.take(i as int));
        assert(all.take(i + 1).last() == group.frames@[i as int]@);
        match frame_datagram(&group.frames[i]) {
            Some(d) => {
                assert(datagrams_view(out@.push(d)) =~= before.push(d@));
                out.push(d);
            },
            None => {},
        }
        i = i + 1;
    }
    assert(all.take(i as int) =~= all);
    out
}

/// Plays the groups of an archive.
#[derive(Debug)]
pub struct Player {
    reader: LabelerDataReader,
}

impl Player {
    /// The archive that is played.
    pub closed spec fn reader(&self) -> LabelerDataReader {
        self.reader
    }

    /// The number of groups of the archive.
    pub open spec fn num_frames(&self) -> nat {
        self.reader().metadata().message_offsets.len()
    }

    /// A player of the archive `reader`.
    pub fn new(reader: LabelerDataReader) -> (r: Player)
        ensures
            r.reader() == reader,
    {
        Player { reader }
    }

    /// The datagrams to send for group `frame_index`: those of its frames,
    /// in order; none where the archive has no such group, or its record
    /// cannot be read.
    pub fn play_frame(&self, frame_index: usize) -> (r: Vec<Datagram>)
        ensures
            datagrams_view(r@) == datagrams_at(self.reader(), frame_index),
    {
        match self.reader.get(frame_index) {
            Some(frame_group_msg) => group_datagrams(&frame_group_msg),
            None => {
                let out: Vec<Datagram> = Vec::new();
                assert(datagrams_view(out@) =~= Seq::<DatagramSpec>::empty());
                out
            },
        }
    }

    /// The number of groups of the archive.
    pub fn len(&self) -> (n: usize)
        ensures
            n == self.num_frames(),
    {
        self.reader.len()
    }

    /// Plays all groups, from the first on; the player is given away.
    pub fn into_play(self) -> (it: PlayerIntoIterator)
        ensures
            it.player() == self,
            it.index() == 0,
            it.end_index() == self.num_frames(),
    {
        PlayerIntoIterator::full_range(self)
    }

    /// Plays the groups from `start_index` on; the player is given away.
    pub fn into_play_from(self, start_index: usize) -> (it: PlayerIntoIterator)
        ensures
            it.player() == self,
            it.index() == start_index,
            it.end_index() == self.num_frames(),
    {
        PlayerIntoIterator::range_from(self, start_index)
    }

    /// Plays the groups from `start_index` up to `end_index`, or up to the
    /// last where there are fewer; the player is given away.
    pub fn into_play_range(self, start_index: usize, end_index: usize) -> (it: PlayerIntoIterator)
        ensures
            it.player() == self,
            it.index() == start_index,
            it.end_index() == if end_index <= self.num_frames() {
                end_index as nat
            } else {
                self.num_frames()
            },
    {
        PlayerIntoIterator::range_from_to(self, start_index, end_index)
    }

    /// Plays all groups, from the first on.
    pub fn play(&self) -> (it: PlayerIterator<'_>)
        ensures
            it.player() == *self,
            it.index() == 0,
            it.end_index() == self.num_frames(),
    {
        PlayerIterator::full_range(self)
    }

    /// Plays the groups from `start_index` on.
    pub fn play_from(&self, start_index: usize) -> (it: PlayerIterator<'_>)
        ensures
            it.player() == *self,
            it.index() == start_index,
            it.end_index() == self.num_frames(),
    {
        PlayerIterator::range_from(self, start_index)
    }

    /// Plays the groups from `start_index` up to `end_index`, or up to the
    /// last where there are fewer.
    pub fn play_range(&self, start_index: usize, end_index: usize) -> (it: PlayerIterator<'_>)
        ensures
            it.player() == *self,
            it.index() == start_index,
            it.end_index() == if end_index <= self.num_frames() {
                end_index as nat
            } else {
                self.num_frames()
            },
    {
        PlayerIterator::range_from_to(self, start_index, end_index)
    }
}

/// One step of playing a range: the number of the group, and the
/// datagrams to send for it.
#[derive(Debug)]
pub struct PlayedFrame {
    pub index: usize,
    pub datagrams: Vec<Datagram>,
}

/// Plays a range of the groups of a player that it owns.
#[derive(Debug)]
pub struct PlayerIntoIterator {
    player: Player,
    index: usize,
    end_index: usize,
}

/// Plays a range of the groups of a player.
#[derive(Debug)]
pub struct PlayerIterator<'a> {
    player: &'a Player,
    index: usize,
    end_index: usize,
}

impl PlayerIntoIterator {
    /// The player whose groups are played.
    pub closed spec fn player(&self) -> Player {
        self.player
    }

    /// The number of the group that is played next.
    pub closed spec fn index(&self) -> nat {
        self.index as nat
    }

    /// The number of the first group that is not played.
    pub closed spec fn end_index(&self) -> nat {
        self.end_index as nat
    }

    /// All groups, from the first on.
    pub fn full_range(player: Player) -> (it: PlayerIntoIterator)
        ensures
            it.player() == player,
            it.index() == 0,
            it.end_index() == player.num_frames(),
    {
        let end_index = player.len();
        PlayerIntoIterator { player, index: 0, end_index }
    }

    /// The groups from `start_index` up to `end_index`, or up to the last
    /// where there are fewer.
    pub fn range_from_to(player: Player, start_index: usize, end_index: usize) -> (it:
        PlayerIntoIterator)
        ensures
            it.player() == player,
            it.index() == start_index,
            it.end_index() == if end_index <= player.num_frames() {
                end_index as nat
            } else {
                player.num_frames()
            },
    {
        let len = player.len();
        let end_index = if end_index <= len {
            end_index
        } else {
            len
        };
        PlayerIntoIterator { player, index: start_index, end_index }
    }

    /// The groups from `start_index` on.
    pub fn range_from(player: Player, start_index: usize) -> (it: PlayerIntoIterator)
        ensures
            it.player() == player,
            it.index() == start_index,
            it.end_index() == player.num_frames(),
    {
        let end_index = player.len();
        PlayerIntoIterator { player, index: start_index, end_index }
    }

    /// The next group of the range, with its datagrams; nothing once the
    /// range is through.
    pub fn next(&mut self) -> (r: Option<PlayedFrame>)
        ensures
            final(self).player() == old(self).player(),
            final(self).end_index() == old(self).end_index(),
            old(self).index() >= old(self).end_index() ==> r is None && final(self).index() == old(self).index(),
            old(self).index() < old(self).end_index() ==> r is Some && r->Some_0.index == old(self).index() && datagrams_view(r->Some_0.datagrams@) == datagrams_at(
                old(self).player().reader(),
                r->Some_0.index,
            ) && final(self).index() == old(self).index() + 1,
    {
        if self.index >= self.end_index {
            return None;
        }
        let index = self.index;
        let datagrams = self.player.play_frame(self.index);
        self.index = self.index + 1;
        Some(PlayedFrame { index, datagrams })
    }
}

impl<'a> PlayerIterator<'a> {
    /// The player whose groups are played.
    pub closed spec fn player(&self) -> Player {
        *self.player
    }

    /// The number of the group that is played next.
    pub closed spec fn index(&self) -> nat {
        self.index as nat
    }

    /// The number of the first group that is not played.
    pub closed spec fn end_index(&self) -> nat {
        self.end_index as nat
    }

    /// All groups, from the first on.
    pub fn full_range(player: &'a Player) -> (it: PlayerIterator<'a>)
        ensures
            it.player() == *player,
            it.index() == 0,
            it.end_index() == player.num_frames(),
    {
        let end_index = player.len();
        PlayerIterator { player, index: 0, end_index }
    }

    /// The groups from `start_index` up to `end_index`, or up to the last
    /// where there are fewer.
    pub fn range_from_to(player: &'a Player, start_index: usize, end_index: usize) -> (it:
        PlayerIterator<'a>)
        ensures
            it.player() == *player,
            it.index() == start_index,
            it.end_index() == if end_index <= player.num_frames() {
                end_index as nat
            } else {
                player.num_frames()
            },
    {
        let len = player.len();
        let end_index = if end_index <= len {
            end_index
        } else {
            len
        };
        PlayerIterator { player, index: start_index, end_index }
    }

    /// The groups from `start_index` on.
    pub fn range_from(player: &'a Player, start_index: usize) -> (it: PlayerIterator<'a>)
        ensures
            it.player() == *player,
            it.index() == start_index,
            it.end_index() == player.num_frames(),
    {
        let end_index = player.len();
        PlayerIterator { player, index: start_index, end_index }
    }

    /// The next group of the range, with its datagrams; nothing once the
    /// range is through.
    pub fn next(&mut self) -> (r: Option<PlayedFrame>)
        ensures
            final(self).player() == old(self).player(),
            final(self).end_index() == old(self).end_index(),
            old(self).index() >= old(self).end_index() ==> r is None && final(self).index() == old(self).index(),
            old(self).index() < old(self).end_index() ==> r is Some && r->Some_0.index == old(self).index() && datagrams_view(r->Some_0.datagrams@) == datagrams_at(
                old(self).player().reader(),
                r->Some_0.index,
            ) && final(self).index() == old(self).index() + 1,
    {
        if self.index >= self.end_index {
            return None;
        }
        let index = self.index;
        let datagrams = self.player.play_frame(self.index);
        self.index = self.index + 1;
        Some(PlayedFrame { index, datagrams })
    }
}

} // verus!
