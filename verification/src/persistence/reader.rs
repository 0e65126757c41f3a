//! Reading a log: the header and the version are checked once, then the
//! messages are handed out one by one.

use crate::cursor::bytes_equal;
use crate::cursor::ByteReader;
use crate::cursor::IoErrorKind;
use crate::endian::be_i32;
use crate::persistence::message::lemma_read_record_wf;
use crate::persistence::message::read_record;
use crate::persistence::message::Message;
use crate::persistence::message::MessageError;
use crate::persistence::message::MessageSpec;
use vstd::prelude::*;

verus! {

/// Why a log could not be opened, or a message not be read from it.
#[derive(Clone, Copy, Debug, PartialEq, Eq)]
pub enum LogReaderError {
    /// The source ended inside the header, the version or a message.
    Io(IoErrorKind),
    /// The source does not start with the header of a log.
    InvalidHeader { header: [u8; 12] },
    /// The log is of a version that this reader does not know.
    UnsupportedVersion { version: i32 },
    /// A message was refused.
    Message(MessageError),
}

/// The length of the header.
pub const HEADER_LEN: usize = 12;

/// The version of the format that this reader knows.
pub const SUPPORTED_VERSION: i32 = 1;

/// The header of a log, as a sequence.
pub open spec fn expected_header() -> Seq<u8> {
    seq![83u8, 83u8, 76u8, 95u8, 76u8, 79u8, 71u8, 95u8, 70u8, 73u8, 76u8, 69u8]
}

/// The header of a log: `SSL_LOG_FILE`.
pub const EXPECTED_HEADER: [u8; 12] = [83, 83, 76, 95, 76, 79, 71, 95, 70, 73, 76, 69];

/// The constant holds the header.
pub proof fn lemma_header()
    ensures
        EXPECTED_HEADER@ == expected_header(),
{
    assert(EXPECTED_HEADER@ =~= expected_header());
}

/// A reader's error for a message's error: the end of the source is
/// reported as the reader's own.
pub open spec fn from_message_error(e: MessageError) -> LogReaderError {
    match e {
        MessageError::Io(kind) => LogReaderError::Io(kind),
        _ => LogReaderError::Message(e),
    }
}

impl LogReaderError {
    /// A reader's error for a message's error.
    pub fn from_message(e: MessageError) -> (r: LogReaderError)
        ensures
            r == from_message_error(e),
    {
        match e {
            MessageError::Io(kind) => LogReaderError::Io(kind),
            e => LogReaderError::Message(e),
        }
    }
}

/// The mathematical value of a `LogReaderError`.
pub enum LogReaderErrorSpec {
    Io(IoErrorKind),
    InvalidHeader { header: Seq<u8> },
    UnsupportedVersion { version: i32 },
    Message(MessageError),
}

impl View for LogReaderError {
    type V = LogReaderErrorSpec;

    open spec fn view(&self) -> LogReaderErrorSpec {
        match self {
            LogReaderError::Io(kind) => LogReaderErrorSpec::Io(*kind),
            LogReaderError::InvalidHeader { header } => LogReaderErrorSpec::InvalidHeader {
                header: header@,
            },
            LogReaderError::UnsupportedVersion { version } => LogReaderErrorSpec::UnsupportedVersion {
                version: *version,
            },
            LogReaderError::Message(e) => LogReaderErrorSpec::Message(*e),
        }
    }
}

/// What opening a log on the bytes `s` gives: nothing where it succeeds,
/// after the 16 bytes of header and version; else the first of these that
/// holds: the source ends inside the header, the header is another, the
/// source ends inside the version, the version is another.
pub open spec fn check_prelude(s: Seq<u8>) -> Result<(), LogReaderErrorSpec> {
    if s.len() < HEADER_LEN {
        Err(LogReaderErrorSpec::Io(IoErrorKind::UnexpectedEof))
    } else if s.take(HEADER_LEN as int) != expected_header() {
        Err(LogReaderErrorSpec::InvalidHeader { header: s.take(HEADER_LEN as int) })
    } else if s.len() < HEADER_LEN + 4 {
        Err(LogReaderErrorSpec::Io(IoErrorKind::UnexpectedEof))
    } else if be_i32(s.skip(HEADER_LEN as int)) != SUPPORTED_VERSION {
        Err(LogReaderErrorSpec::UnsupportedVersion { version: be_i32(s.skip(HEADER_LEN as int)) })
    } else {
        Ok(())
    }
}

/// What one step of reading gives, as the reader reports it.
pub open spec fn read_item(s: Seq<u8>) -> Result<MessageSpec, LogReaderError> {
    match read_record(s).0 {
        Ok(m) => Ok(m),
        Err(e) => Err(from_message_error(e)),
    }
}

/// Everything that reading gives on the bytes `s`, up to their end: a
/// message or an error for each step.
pub open spec fn read_log(s: Seq<u8>) -> Seq<Result<MessageSpec, LogReaderError>>
    decreases s.len(),
{
    if s.len() == 0 {
        Seq::empty()
    } else {
        let n = read_record(s).1;
        if 0 < n <= s.len() {
            seq![read_item(s)] + read_log(s.skip(n as int))
        } else {
            Seq::empty()
        }
    }
}

/// The first message that reading gives on the bytes `s`, passing over
/// what cannot be read, and the number of bytes consumed up to its end;
/// nothing where no message is left.
pub open spec fn next_message(s: Seq<u8>) -> Option<(MessageSpec, nat)>
    decreases s.len(),
{
    if s.len() == 0 {
        None
    } else {
        let n = read_record(s).1;
        match read_item(s) {
            Ok(m) => Some((m, n)),
            Err(_) => if 0 < n <= s.len() {
                match next_message(s.skip(n as int)) {
                    Some((m, k)) => Some((m, n + k)),
                    None => None,
                }
            } else {
                None
            },
        }
    }
}

/// The messages that reading gives on the bytes `s`, in order, passing
/// over what cannot be read.
pub open spec fn messages(s: Seq<u8>) -> Seq<MessageSpec>
    decreases s.len(),
{
    match next_message(s) {
        Some((m, n)) => if 0 < n <= s.len() {
            seq![m] + messages(s.skip(n as int))
        } else {
            Seq::empty()
        },
        None => Seq::empty(),
    }
}

/// A message that is read takes bytes, and none beyond the end.
pub proof fn lemma_next_message_consumes(s: Seq<u8>)
    ensures
        next_message(s) matches Some((m, n)) ==> 0 < n <= s.len() && m.wf(),
    decreases s.len(),
{
    if s.len() > 0 {
        let n = read_record(s).1;
        if read_item(s) is Err && 0 < n <= s.len() {
            lemma_next_message_consumes(s.skip(n as int));
        } else if read_item(s) is Ok {
            lemma_read_record_wf(s);
        }
    }
}

/// The mathematical value of what one step of reading gave.

pub open spec fn item_view(item: Result<Message, LogReaderError>) -> Result<
    MessageSpec,
    LogReaderError,
> {
    match item {
        Ok(m) => Ok(m@),
        Err(e) => Err(e),
    }
}

/// The mathematical values of what reading gave.
pub open spec fn items_view(items: Seq<Result<Message, LogReaderError>>) -> Seq<
    Result<MessageSpec, LogReaderError>,
> {
    items.map_values(|item: Result<Message, LogReaderError>| item_view(item))
}

/// A log that has been opened: what is left to read are messages.
#[derive(Debug)]
pub struct LogReader {
    reader: ByteReader,
}

/// The twelve bytes of `v` as an array.
fn to_header(v: &Vec<u8>) -> (h: [u8; 12])
    requires
        v@.len() == 12,
    ensures
        h@ == v@,
{
    let mut h: [u8; 12] = [0; 12];
    let mut i: usize = 0;
    while i < 12
        invariant
            i <= 12,
            v@.len() == 12,
            forall|j: int| 0 <= j < i ==> h@[j] == v@[j],
        decreases 12 - i,
    {
        h[i] = v[i];
        i = i + 1;
    }
    assert(h@ =~= v@);
    h
}

impl LogReader {
    /// The source, with its read position before the next message.
    pub closed spec fn source(&self) -> ByteReader {
        self.reader
    }

    /// The bytes that are left to read.
    pub open spec fn remaining(&self) -> Seq<u8> {
        self.source().remaining()
    }

    /// Opens a log: checks the header and the version at the read
    /// position of `reader`.
    pub fn new(reader: ByteReader) -> (r: Result<LogReader, LogReaderError>)
        ensures
            match check_prelude(reader.remaining()) {
                Ok(_) => r is Ok && r->Ok_0.source().bytes() == reader.bytes()
                    && r->Ok_0.source().pos() == reader.pos() + HEADER_LEN + 4,
                Err(e) => r is Err && r->Err_0@ == e,
            },
    {
        let mut reader = reader;
        let ghost s = reader.remaining();
        let header = match reader.read_exact(HEADER_LEN) {
            Ok(header) => header,
            Err(e) => { return Err(LogReaderError::Io(e)); },
        };
        proof {
            lemma_header();
        }
        if !bytes_equal(header.as_slice(), EXPECTED_HEADER.as_slice()) {
            let header = to_header(&header);
            return Err(LogReaderError::InvalidHeader { header });
        }
        assert(reader.remaining() =~= s.skip(HEADER_LEN as int));
        let version = match reader.read_i32() {
            Ok(version) => version,
            Err(e) => { return Err(LogReaderError::Io(e)); },
        };
        if version != SUPPORTED_VERSION {
            return Err(LogReaderError::UnsupportedVersion { version });
        }
        Ok(LogReader { reader })
    }

    /// Reads the next message. At the end of the source this is an error;
    /// `next` tells the end apart.
    pub fn read_message(&mut self) -> (r: Result<Message, LogReaderError>)
        ensures
            final(self).source().bytes() == old(self).source().bytes(),
            final(self).source().pos() == old(self).source().pos() + read_record(
                old(self).remaining(),
            ).1,
            match read_item(old(self).remaining()) {
                Ok(m) => r is Ok && r->Ok_0@ == m && m.wf(),
                Err(e) => r == Err::<Message, LogReaderError>(e),
            },
    {
        match Message::parse_from_reader(&mut self.reader) {
            Ok(m) => Ok(m),
            Err(e) => Err(LogReaderError::from_message(e)),
        }
    }

    /// The source, with its read position before the next message.
    pub fn inner(&self) -> (reader: &ByteReader)
        ensures
            *reader == self.source(),
    {
        &self.reader
    }

    /// The source, to change: whoever moves the read position answers for
    /// what is read next.
    pub fn inner_mut(&mut self) -> (reader: &mut ByteReader)
        ensures
            *reader == old(self).source(),
            final(self).source() == *final(reader),
    {
        &mut self.reader
    }

    /// The next item of the log: nothing at the end of the source, else
    /// the next message, or the error that reading it gave.
    pub fn next(&mut self) -> (r: Option<Result<Message, LogReaderError>>)
        ensures
            final(self).source().bytes() == old(self).source().bytes(),
            old(self).remaining().len() == 0 ==> r is None && final(self).source().pos() == old(self).source().pos(),
            old(self).remaining().len() > 0 ==> r is Some && final(self).source().pos() == old(self).source().pos() + read_record(old(self).remaining()).1 && match read_item(
                old(self).remaining(),
            ) {
                Ok(m) => r->Some_0 is Ok && r->Some_0->Ok_0@ == m && m.wf(),
                Err(e) => r->Some_0 == Err::<Message, LogReaderError>(e),
            },
    {
        if self.reader.remaining_len() == 0 {
            None
        } else {
            Some(self.read_message())
        }
    }

    /// All that is left of the log, in order: a message or an error for
    /// each step, up to the end of the source.
    pub fn read_all(&mut self) -> (r: Vec<Result<Message, LogReaderError>>)
        ensures
            final(self).source().bytes() == old(self).source().bytes(),
            final(self).remaining().len() == 0,
            items_view(r@) == read_log(old(self).remaining()),
    {
        let mut items: Vec<Result<Message, LogReaderError>> = Vec::new();
        let ghost start = self.remaining();
        let ghost consumed: nat = 0;
        assert(start.skip(0) =~= start);
        assert(items_view(items@) =~= Seq::<Result<MessageSpec, LogReaderError>>::empty());
        assert(items_view(items@) + read_log(start) =~= read_log(start));
        loop
            invariant
                self.source().bytes() == old(self).source().bytes(),
                consumed <= start.len(),
                self.remaining() == start.skip(consumed as int),
                read_log(start) == items_view(items@) + read_log(start.skip(consumed as int)),
            ensures
                self.source().bytes() == old(self).source().bytes(),
                self.remaining().len() == 0,
                items_view(items@) == read_log(start),
            decreases start.len() - consumed,
        {
            let ghost rest = self.remaining();
            let ghost before = items_view(items@);
            match self.next() {
                None => {
                    assert(before + read_log(rest) =~= before);
                    break;
                },
                Some(item) => {
                    proof {
                        let n = read_record(rest).1;
                        assert(rest.skip(n as int) =~= start.skip((consumed + n) as int));
                        assert(self.remaining() =~= start.skip((consumed + n) as int));
                        assert(items_view(items@.push(item)) =~= before.push(item_view(item)));
                        assert(before + (seq![read_item(rest)] + read_log(rest.skip(n as int)))
                            =~= before.push(read_item(rest)) + read_log(rest.skip(n as int)));
                        consumed = consumed + n;
                    }
                    items.push(item);
                },
            }
        }
        items
    }

    /// The next message of the log, passing over what cannot be read;
    /// nothing where no message is left.
    pub fn next_message(&mut self) -> (r: Option<Message>)
        ensures
            final(self).source().bytes() == old(self).source().bytes(),
            match next_message(old(self).remaining()) {
                Some((m, n)) => r is Some && r->Some_0@ == m && m.wf() && final(self).source().pos()
                    == old(self).source().pos() + n && final(self).remaining() == old(self).remaining().skip(n as int),
                None => r is None && final(self).remaining().len() == 0,
            },
    {
        let ghost start = self.remaining();
        let ghost start_pos = self.source().pos();
        let ghost skipped: nat = 0;
        assert(start.skip(0) =~= start);
        loop
            invariant
                self.source().bytes() == old(self).source().bytes(),
                start == old(self).remaining(),
                start_pos == old(self).source().pos(),
                skipped <= start.len(),
                self.remaining() == start.skip(skipped as int),
                self.source().pos() == start_pos + skipped,
                next_message(start) == match next_message(start.skip(skipped as int)) {
                    Some((m, k)) => Some((m, skipped + k)),
                    None => None,
                },
            decreases start.len() - skipped,
        {
            let ghost rest = self.remaining();
            match self.next() {
                None => {
                    return None;
                },
                Some(Ok(message)) => {
                    proof {
                        let n = read_record(rest).1;
                        assert(rest.skip(n as int) =~= start.skip((skipped + n) as int));
                        assert(self.remaining() =~= start.skip((skipped + n) as int));
                    }
                    return Some(message);
                },
                Some(Err(_)) => {
                    proof {
                        let n = read_record(rest).1;
                        assert(rest.skip(n as int) =~= start.skip((skipped + n) as int));
                        assert(self.remaining() =~= start.skip((skipped + n) as int));
                        skipped = skipped + n;
                    }
                },
            }
        }
    }
}

} // verus!
