//! Reading an archive: the index at its end is read once, then any frame
//! group is found by its number.

use crate::cursor::bytes_equal;
use crate::cursor::bytes_from;
use crate::cursor::ByteReader;
use crate::cursor::IoErrorKind;
use crate::endian::be_u32;
use crate::labeler::expected_header;
use crate::labeler::HEADER_LEN;
use crate::labeler::LABELER_DATA_HEADER;
use crate::labeler::LABELER_DATA_VERSION;
use crate::labeler::PRELUDE_LEN;
use crate::protos::log_labeler_data::frames_wf;
use crate::protos::log_labeler_data::read_group;
use crate::protos::log_labeler_data::read_metadata;
use crate::protos::log_labeler_data::FrameSpec;
use crate::protos::log_labeler_data::LabelerFrameGroup;
use crate::protos::log_labeler_data::LabelerMetadata;
use crate::protos::log_labeler_data::MetadataSpec;
use crate::protos::wire::ProtoError;
use vstd::prelude::*;
use vstd::slice::slice_subrange;

verus! {

/// Why an archive could not be opened, or a group not be read.
#[derive(Clone, Debug, PartialEq, Eq)]
pub enum LabelerDataReaderError {
    /// The source is too short for what its lengths say.
    Io(IoErrorKind),
    /// The index, or a group, is not what its place says.
    Protobuf(ProtoError),
    /// The source does not start with the header of an archive.
    InvalidHeader { header: Vec<u8> },
    /// The archive is of a version that this reader does not know.
    UnsupportedVersion { version: u32 },
}

/// The mathematical value of a `LabelerDataReaderError`.
pub enum ReaderErrorSpec {
    Io(IoErrorKind),
    Protobuf(ProtoError),
    InvalidHeader { header: Seq<u8> },
    UnsupportedVersion { version: u32 },
}

impl View for LabelerDataReaderError {
    type V = ReaderErrorSpec;

    open spec fn view(&self) -> ReaderErrorSpec {
        match self {
            LabelerDataReaderError::Io(kind) => ReaderErrorSpec::Io(*kind),
            LabelerDataReaderError::Protobuf(e) => ReaderErrorSpec::Protobuf(*e),
            LabelerDataReaderError::InvalidHeader { header } => ReaderErrorSpec::InvalidHeader {
                header: header@,
            },
            LabelerDataReaderError::UnsupportedVersion { version } => ReaderErrorSpec::UnsupportedVersion {
                version: *version,
            },
        }
    }
}

/// The index that the end of the archive `s` holds, or why there is
/// none: the last four bytes say how long the index before them is.
pub open spec fn read_footer(s: Seq<u8>) -> Result<MetadataSpec, ReaderErrorSpec> {
    if s.len() < 4 {
        Err(ReaderErrorSpec::Io(IoErrorKind::InvalidSeek))
    } else {
        let size = be_u32(s.skip(s.len() - 4));
        if size + 4 > s.len() {
            Err(ReaderErrorSpec::Io(IoErrorKind::InvalidSeek))
        } else {
            match read_metadata(s.subrange(s.len() - 4 - size, s.len() - 4)) {
                Ok(m) => Ok(m),
                Err(e) => Err(ReaderErrorSpec::Protobuf(e)),
            }
        }
    }
}

/// What opening an archive gives on the bytes `s`, read from position
/// `pos`: the index; else the first of these that holds: the source ends
/// inside the header, the header is another, the source ends inside the
/// version, the version is another, there is no index at the end.
pub open spec fn open_archive(s: Seq<u8>, pos: nat) -> Result<MetadataSpec, ReaderErrorSpec> {
    let rem = bytes_from(s, pos);
    if rem.len() < HEADER_LEN {
        Err(ReaderErrorSpec::Io(IoErrorKind::UnexpectedEof))
    } else if rem.take(HEADER_LEN as int) != expected_header() {
        Err(ReaderErrorSpec::InvalidHeader { header: rem.take(HEADER_LEN as int) })
    } else if rem.len() < PRELUDE_LEN {
        Err(ReaderErrorSpec::Io(IoErrorKind::UnexpectedEof))
    } else if be_u32(rem.skip(HEADER_LEN as int)) != LABELER_DATA_VERSION {
        Err(ReaderErrorSpec::UnsupportedVersion { version: be_u32(rem.skip(HEADER_LEN as int)) })
    } else {
        read_footer(s)
    }
}

/// The group whose record starts at `offset` in the archive `s`, or why
/// there is none: four bytes say how long the group after them is.
pub open spec fn read_group_at(s: Seq<u8>, offset: u64) -> Result<Seq<FrameSpec>, ReaderErrorSpec> {
    let rem = bytes_from(s, offset as nat);
    if rem.len() < 4 {
        Err(ReaderErrorSpec::Io(IoErrorKind::UnexpectedEof))
    } else {
        let size = be_u32(rem);
        if rem.len() - 4 < size {
            Err(ReaderErrorSpec::Io(IoErrorKind::UnexpectedEof))
        } else {
            match read_group(rem.subrange(4, 4 + size)) {
                Ok(g) => Ok(g),
                Err(e) => Err(ReaderErrorSpec::Protobuf(e)),
            }
        }
    }
}

/// The groups whose records start at `offsets` in the archive `s`, in
/// that order, or the error of the first that cannot be read.
pub open spec fn read_groups_at(s: Seq<u8>, offsets: Seq<u64>) -> Result<
    Seq<Seq<FrameSpec>>,
    ReaderErrorSpec,
>
    decreases offsets.len(),
{
    if offsets.len() == 0 {
        Ok(Seq::empty())
    } else {
        match read_groups_at(s, offsets.drop_last()) {
            Err(e) => Err(e),
            Ok(groups) => match read_group_at(s, offsets.last()) {
                Err(e) => Err(e),
                Ok(g) => Ok(groups.push(g)),
            },
        }
    }
}

/// What going through the groups of the archive `s` yields from number
/// `from` on, the records starting at `offsets`: group after group, up to
/// the first that cannot be read.
pub open spec fn iteration(s: Seq<u8>, offsets: Seq<u64>, from: nat) -> Seq<Seq<FrameSpec>>
    decreases offsets.len() - from,
{
    if from >= offsets.len() {
        Seq::empty()
    } else {
        match read_group_at(s, offsets[from as int]) {
            Ok(g) => seq![g] + iteration(s, offsets, from + 1),
            Err(_) => Seq::empty(),
        }
    }
}

/// The values of a sequence of groups.
pub open spec fn groups_view(groups: Seq<LabelerFrameGroup>) -> Seq<Seq<FrameSpec>> {
    groups.map_values(|g: LabelerFrameGroup| g@)
}

/// An archive that has been opened.
#[derive(Debug)]
pub struct LabelerDataReader {
    reader: ByteReader,
    metadata: LabelerMetadata,
}

impl LabelerDataReader {
    /// The source of the archive.
    pub closed spec fn source(&self) -> ByteReader {
        self.reader
    }

    /// All the bytes of the archive.
    pub open spec fn bytes(&self) -> Seq<u8> {
        self.source().bytes()
    }

    /// The index of the archive.
    pub closed spec fn metadata(&self) -> MetadataSpec {
        self.metadata@
    }

    /// The archive has no more groups than can be counted.
    pub proof fn lemma_len_fits(&self)
        ensures
            self.metadata().message_offsets.len() <= usize::MAX,
    {
        assert(self.metadata.message_offsets@.len() == self.metadata.message_offsets.len());
    }

    /// The group of number `index`, as `get` finds it.
    pub open spec fn group(&self, index: int) -> Result<Seq<FrameSpec>, ReaderErrorSpec> {
        read_group_at(self.bytes(), self.metadata().message_offsets[index])
    }

    /// What going through the groups yields from number `from` on.
    pub open spec fn yields(&self, from: nat) -> Seq<Seq<FrameSpec>> {
        iteration(self.bytes(), self.metadata().message_offsets, from)
    }

    /// Opens an archive: checks the header and the version at the read
    /// position of `reader`, then reads the index from the end of the
    /// source. The read position is left after the version, where the
    /// first group starts.
    pub fn new(reader: ByteReader) -> (r: Result<LabelerDataReader, LabelerDataReaderError>)
        ensures
            match open_archive(reader.bytes(), reader.pos()) {
                Ok(m) => r is Ok && r->Ok_0.metadata() == m && r->Ok_0.source().bytes()
                    == reader.bytes() && r->Ok_0.source().pos() == reader.pos() + PRELUDE_LEN,
                Err(e) => r is Err && r->Err_0@ == e,
            },
    {
        match LabelerDataReader::read_index(reader) {
            Ok((reader, _)) => Ok(reader),
            Err((e, _)) => Err(e),
        }
    }

    /// Opens an archive as `new` does, and says how long the index is on
    /// disk. Where the archive does not open, the source is handed back.
    pub fn read_index(reader: ByteReader) -> (r: Result<
        (LabelerDataReader, u32),
        (LabelerDataReaderError, ByteReader),
    >)
        ensures
            match open_archive(reader.bytes(), reader.pos()) {
                Ok(m) => r is Ok && r->Ok_0.0.metadata() == m && r->Ok_0.0.source().bytes()
                    == reader.bytes() && r->Ok_0.0.source().pos() == reader.pos() + PRELUDE_LEN
                    && reader.bytes().len() >= 4 && r->Ok_0.1 == be_u32(
                    reader.bytes().skip(reader.bytes().len() - 4),
                ) && r->Ok_0.1 + 4 <= reader.bytes().len(),
                Err(e) => r is Err && r->Err_0.0@ == e && r->Err_0.1.bytes() == reader.bytes(),
            },
    {
        let mut reader = reader;
        let ghost s = reader.bytes();
        let ghost rem = reader.remaining();
        let header = match reader.read_exact(HEADER_LEN) {
            Ok(header) => header,
            Err(e) => { return Err((LabelerDataReaderError::Io(e), reader)); },
        };
        proof {
            crate::labeler::lemma_header();
        }
        if !bytes_equal(header.as_slice(), LABELER_DATA_HEADER.as_slice()) {
            return Err((LabelerDataReaderError::InvalidHeader { header }, reader));
        }
        assert(reader.remaining() =~= rem.skip(HEADER_LEN as int));
        let version = match reader.read_u32() {
            Ok(version) => version,
            Err(e) => { return Err((LabelerDataReaderError::Io(e), reader)); },
        };
        if version != LABELER_DATA_VERSION {
            return Err((LabelerDataReaderError::UnsupportedVersion { version }, reader));
        }
        let curr_offset = reader.position();
        match reader.seek_from_end(4) {
            Ok(_) => {},
            Err(e) => { return Err((LabelerDataReaderError::Io(e), reader)); },
        }
        let metadata_msg_size = match reader.read_u32() {
            Ok(size) => size,
            Err(e) => { return Err((LabelerDataReaderError::Io(e), reader)); },
        };
        match reader.seek_from_end(metadata_msg_size as u64 + 4) {
            Ok(_) => {},
            Err(e) => { return Err((LabelerDataReaderError::Io(e), reader)); },
        }
        let metadata_msg_bytes = match reader.read_exact(metadata_msg_size as usize) {
            Ok(bytes) => bytes,
            Err(e) => { return Err((LabelerDataReaderError::Io(e), reader)); },
        };
        assert(metadata_msg_bytes@ =~= s.subrange(
            s.len() - 4 - metadata_msg_size,
            s.len() - 4,
        ));
        let metadata = match LabelerMetadata::parse_from_bytes(metadata_msg_bytes.as_slice()) {
            Ok(metadata) => metadata,
            Err(e) => { return Err((LabelerDataReaderError::Protobuf(e), reader)); },
        };
        reader.seek(curr_offset);
        Ok((LabelerDataReader { reader, metadata }, metadata_msg_size))
    }

    /// The source and the index, apart.
    pub fn into_parts(self) -> (r: (ByteReader, LabelerMetadata))
        ensures
            r.0 == self.source(),
            r.1@ == self.metadata(),
    {
        (self.reader, self.metadata)
    }

    /// The number of frame groups.
    pub fn len(&self) -> (n: usize)
        ensures
            n == self.metadata().message_offsets.len(),
    {
        self.metadata.message_offsets.len()
    }

    /// Whether the archive has no frame group.
    pub fn is_empty(&self) -> (b: bool)
        ensures
            b == (self.metadata().message_offsets.len() == 0),
    {
        self.metadata.message_offsets.len() == 0
    }

    /// The number of cameras that the index names.
    pub fn num_cameras(&self) -> (n: u32)
        ensures
            n == self.metadata().num_cameras,
    {
        self.metadata.num_cameras
    }

    /// The number of passing events that the index names.
    pub fn num_passing_events(&self) -> (n: u32)
        ensures
            n == self.metadata().num_passing_events,
    {
        self.metadata.num_passing_events
    }

    /// The number of goal-shot events that the index names.
    pub fn num_goal_shot_events(&self) -> (n: u32)
        ensures
            n == self.metadata().num_goal_shot_events,
    {
        self.metadata.num_goal_shot_events
    }

    /// Reads the group whose record starts at `offset`.
    pub fn read_message_at(&self, offset: u64) -> (r: Result<
        LabelerFrameGroup,
        LabelerDataReaderError,
    >)
        ensures
            match read_group_at(self.bytes(), offset) {
                Ok(g) => r is Ok && r->Ok_0@ == g && frames_wf(g),
                Err(e) => r is Err && r->Err_0@ == e,
            },
    {
        let ghost rem = bytes_from(self.bytes(), offset as nat);
        let msg_size = match self.reader.read_u32_at(offset) {
            Ok(size) => size,
            Err(e) => { return Err(LabelerDataReaderError::Io(e)); },
        };
        proof {
            self.reader.lemma_len_fits();
        }
        let msg_bytes = match self.reader.read_exact_at(offset + 4, msg_size as usize) {
            Ok(bytes) => bytes,
            Err(e) => {
                assert(bytes_from(self.bytes(), (offset + 4) as nat) =~= rem.skip(4));
                return Err(LabelerDataReaderError::Io(e));
            },
        };
        proof {
            assert(bytes_from(self.bytes(), (offset + 4) as nat) =~= rem.skip(4));
            assert(msg_bytes@ =~= rem.subrange(4, 4 + msg_size));
        }
        match LabelerFrameGroup::parse_from_bytes(msg_bytes.as_slice()) {
            Ok(group) => Ok(group),
            Err(e) => Err(LabelerDataReaderError::Protobuf(e)),
        }
    }

    /// The group of number `index`; nothing where the archive has no such
    /// group, or its record cannot be read.
    pub fn get(&self, index: usize) -> (r: Option<LabelerFrameGroup>)
        ensures
            index >= self.metadata().message_offsets.len() ==> r is None,
            index < self.metadata().message_offsets.len() ==> match self.group(index as int) {
                Ok(g) => r is Some && r->Some_0@ == g && frames_wf(g),
                Err(_) => r is None,
            },
    {
        if index >= self.metadata.message_offsets.len() {
            return None;
        }
        let offset = self.metadata.message_offsets[index];
        match self.read_message_at(offset) {
            Ok(group) => Some(group),
            Err(_) => None,
        }
    }

    /// Reads the groups whose records start at `message_offsets`, in that
    /// order.
    pub fn read_messages(&self, message_offsets: &[u64]) -> (r: Result<
        Vec<LabelerFrameGroup>,
        LabelerDataReaderError,
    >)
        ensures
            match read_groups_at(self.bytes(), message_offsets@) {
                Ok(groups) => r is Ok && groups_view(r->Ok_0@) == groups,
                Err(e) => r is Err && r->Err_0@ == e,
            },
    {
        let mut frame_groups: Vec<LabelerFrameGroup> = Vec::new();
        let mut i: usize = 0;
        assert(message_offsets@.take(0) =~= Seq::<u64>::empty());
        assert(groups_view(frame_groups@) =~= Seq::<Seq<FrameSpec>>::empty());
        while i < message_offsets.len()
            invariant
                i <= message_offsets@.len(),
                read_groups_at(self.bytes(), message_offsets@.take(i as int)) == Ok::<
                    Seq<Seq<FrameSpec>>,
                    ReaderErrorSpec,
                >(groups_view(frame_groups@)),
            decreases message_offsets@.len() - i,
        {
            let ghost done = message_offsets@.take(i as int);
            let ghost next = message_offsets@.take(i + 1);
            assert(next.drop_last() =~= done);
            assert(next.last() == message_offsets@[i as int]);
            let ghost before = groups_view(frame_groups@);
            match self.read_message_at(message_offsets[i]) {
                Ok(frame_group) => {
                    assert(groups_view(frame_groups@.push(frame_group)) =~= before.push(
                        frame_group@,
                    ));
                    frame_groups.push(frame_group);
                },
                Err(e) => {
                    proof {
                        lemma_read_groups_prefix_err(self.bytes(), message_offsets@, i + 1);
                    }
                    return Err(e);
                },
            }
            i = i + 1;
        }
        assert(message_offsets@.take(i as int) =~= message_offsets@);
        Ok(frame_groups)
    }

    /// The groups of the numbers from `start` up to `end`; nothing where
    /// the archive has no such range, or one of the records cannot be
    /// read.
    pub fn get_range(&self, start: usize, end: usize) -> (r: Option<Vec<LabelerFrameGroup>>)
        ensures
            !(start <= end <= self.metadata().message_offsets.len()) ==> r is None,
            start <= end <= self.metadata().message_offsets.len() ==> match read_groups_at(
                self.bytes(),
                self.metadata().message_offsets.subrange(start as int, end as int),
            ) {
                Ok(groups) => r is Some && groups_view(r->Some_0@) == groups,
                Err(_) => r is None,
            },
    {
        if start > end || end > self.metadata.message_offsets.len() {
            return None;
        }
        let offsets = slice_subrange(self.metadata.message_offsets.as_slice(), start, end);
        match self.read_messages(offsets) {
            Ok(groups) => Some(groups),
            Err(_) => None,
        }
    }

    /// The groups of the numbers from `start` on; nothing where the
    /// archive has fewer groups than `start`, or one of the records
    /// cannot be read.
    pub fn get_range_from(&self, start: usize) -> (r: Option<Vec<LabelerFrameGroup>>)
        ensures
            start > self.metadata().message_offsets.len() ==> r is None,
            start <= self.metadata().message_offsets.len() ==> match read_groups_at(
                self.bytes(),
                self.metadata().message_offsets.skip(start as int),
            ) {
                Ok(groups) => r is Some && groups_view(r->Some_0@) == groups,
                Err(_) => r is None,
            },
    {
        let len = self.metadata.message_offsets.len();
        if start > len {
            return None;
        }
        assert(self.metadata().message_offsets.skip(start as int)
            =~= self.metadata().message_offsets.subrange(start as int, len as int));
        self.get_range(start, len)
    }
}

/// Goes through the groups of an archive that it owns, from the first
/// on.
#[derive(Debug)]
pub struct LabelerDataReaderIntoIterator {
    reader: LabelerDataReader,
    index: usize,
}

/// Goes through the groups of an archive, from the first on.
#[derive(Debug)]
pub struct LabelerDataReaderIterator<'a> {
    reader: &'a LabelerDataReader,
    index: usize,
}

impl LabelerDataReader {
    /// Goes through the groups from the first on; the archive is given
    /// away.
    pub fn into_iter(self) -> (it: LabelerDataReaderIntoIterator)
        ensures
            it.reader() == self,
            it.index() == 0,
    {
        LabelerDataReaderIntoIterator { reader: self, index: 0 }
    }

    /// Goes through the groups from the first on. The archive is not
    /// changed: whoever asks again starts at the first group again.
    pub fn iter(&self) -> (it: LabelerDataReaderIterator<'_>)
        ensures
            it.reader() == *self,
            it.index() == 0,
    {
        LabelerDataReaderIterator { reader: self, index: 0 }
    }
}

impl LabelerDataReaderIntoIterator {
    /// The archive that is gone through.
    pub closed spec fn reader(&self) -> LabelerDataReader {
        self.reader
    }

    /// The number of the group that comes next.
    pub closed spec fn index(&self) -> nat {
        self.index as nat
    }

    /// The next group. Nothing after the last group, and nothing where
    /// the next record cannot be read; the position then stays.
    pub fn next(&mut self) -> (r: Option<LabelerFrameGroup>)
        ensures
            final(self).reader() == old(self).reader(),
            r is Some ==> final(self).index() == old(self).index() + 1,
            r is None ==> final(self).index() == old(self).index(),
            old(self).index() >= old(self).reader().metadata().message_offsets.len() ==> r is None,
            old(self).index() < old(self).reader().metadata().message_offsets.len()
                ==> match old(self).reader().group(old(self).index() as int) {
                Ok(g) => r is Some && r->Some_0@ == g && frames_wf(g),
                Err(_) => r is None,
            },
            r is Some ==> old(self).reader().yields(old(self).index()) == seq![r->Some_0@]
                + final(self).reader().yields(final(self).index()),
            r is None ==> old(self).reader().yields(old(self).index()) == Seq::<
                Seq<FrameSpec>,
            >::empty(),
    {
        match self.reader.get(self.index) {
            Some(item) => {
                proof {
                    self.reader.lemma_len_fits();
                }
                self.index = self.index + 1;
                Some(item)
            },
            None => None,
        }
    }
}

impl<'a> LabelerDataReaderIterator<'a> {
    /// The archive that is gone through.
    pub closed spec fn reader(&self) -> LabelerDataReader {
        *self.reader
    }

    /// The number of the group that comes next.
    pub closed spec fn index(&self) -> nat {
        self.index as nat
    }

    /// The next group. Nothing after the last group, and nothing where
    /// the next record cannot be read; the position then stays.
    pub fn next(&mut self) -> (r: Option<LabelerFrameGroup>)
        ensures
            final(self).reader() == old(self).reader(),
            r is Some ==> final(self).index() == old(self).index() + 1,
            r is None ==> final(self).index() == old(self).index(),
            old(self).index() >= old(self).reader().metadata().message_offsets.len() ==> r is None,
            old(self).index() < old(self).reader().metadata().message_offsets.len()
                ==> match old(self).reader().group(old(self).index() as int) {
                Ok(g) => r is Some && r->Some_0@ == g && frames_wf(g),
                Err(_) => r is None,
            },
            r is Some ==> old(self).reader().yields(old(self).index()) == seq![r->Some_0@]
                + final(self).reader().yields(final(self).index()),
            r is None ==> old(self).reader().yields(old(self).index()) == Seq::<
                Seq<FrameSpec>,
            >::empty(),
    {
        match self.reader.get(self.index) {
            Some(item) => {
                proof {
                    self.reader.lemma_len_fits();
                }
                self.index = self.index + 1;
                Some(item)
            },
            None => None,
        }
    }
}

/// Where the groups of the first `n` offsets cannot be read, those of all
/// offsets cannot, for the same reason.
pub proof fn lemma_read_groups_prefix_err(s: Seq<u8>, offsets: Seq<u64>, n: int)
    requires
        0 <= n <= offsets.len(),
        read_groups_at(s, offsets.take(n)) is Err,
    ensures
        read_groups_at(s, offsets) == read_groups_at(s, offsets.take(n)),
    decreases offsets.len() - n,
{
    if n < offsets.len() {
        assert(offsets.take(n + 1).drop_last() =~= offsets.take(n));
        lemma_read_groups_prefix_err(s, offsets, n + 1);
    } else {
        assert(offsets.take(n) =~= offsets);
    }
}

} // verus!
