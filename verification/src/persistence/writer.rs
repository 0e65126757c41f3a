//! Writing a log: the header and the version, then the messages.

use crate::cursor::extend_bytes;
use crate::endian::i32_be_bytes;
use crate::endian::lemma_i32_round_trip;
use crate::endian::write_i32_be;
use crate::persistence::message::lemma_record_round_trip;
use crate::persistence::message::Message;
use crate::persistence::message::MessageError;
use crate::persistence::message::MessageSpec;
use crate::persistence::reader::check_prelude;
use crate::persistence::reader::expected_header;
use crate::persistence::reader::lemma_header;
use crate::persistence::reader::read_item;
use crate::persistence::reader::read_log;
use crate::persistence::reader::LogReaderError;
use crate::persistence::reader::LogReaderErrorSpec;
use crate::persistence::reader::EXPECTED_HEADER;
use crate::persistence::reader::HEADER_LEN;
use crate::persistence::reader::SUPPORTED_VERSION;
use crate::protos::wire::MAX_PAYLOAD_LEN;
use vstd::prelude::*;

verus! {

/// The start of every log: the header and the version.
pub open spec fn prelude_bytes() -> Seq<u8> {
    expected_header() + i32_be_bytes(SUPPORTED_VERSION)
}

/// Messages on disk, one after the other.
pub open spec fn messages_bytes(ms: Seq<MessageSpec>) -> Seq<u8>
    decreases ms.len(),
{
    if ms.len() == 0 {
        Seq::empty()
    } else {
        ms[0].bytes() + messages_bytes(ms.skip(1))
    }
}

/// A whole log.
pub open spec fn log_bytes(ms: Seq<MessageSpec>) -> Seq<u8> {
    prelude_bytes() + messages_bytes(ms)
}

/// Whether every message of `ms` is well-formed.
pub open spec fn messages_wf(ms: Seq<MessageSpec>) -> bool {
    forall|i: int| 0 <= i < ms.len() ==> (#[trigger] ms[i]).wf()
}

/// Writes a log into memory.
pub struct LogWriter {
    writer: Vec<u8>,
    messages: Ghost<Seq<MessageSpec>>,
}

impl LogWriter {
    /// The bytes written so far.
    pub closed spec fn bytes(&self) -> Seq<u8> {
        self.writer@
    }

    /// The messages written so far.
    pub closed spec fn messages(&self) -> Seq<MessageSpec> {
        self.messages@
    }

    /// The bytes are the log of the messages.
    pub open spec fn wf(&self) -> bool {
        self.bytes() == log_bytes(self.messages()) && messages_wf(self.messages())
    }

    /// Starts a log: writes the header and the version.
    pub fn new() -> (r: LogWriter)
        ensures
            r.messages() == Seq::<MessageSpec>::empty(),
            r.bytes() == prelude_bytes(),
            r.wf(),
    {
        let mut writer: Vec<u8> = Vec::new();
        extend_bytes(&mut writer, EXPECTED_HEADER.as_slice());
        write_i32_be(&mut writer, SUPPORTED_VERSION);
        proof {
            lemma_header();
            assert(writer@ =~= prelude_bytes());
            assert(prelude_bytes() + messages_bytes(Seq::<MessageSpec>::empty())
                =~= prelude_bytes());
        }
        LogWriter { writer, messages: Ghost(Seq::empty()) }
    }

    /// Appends a message. A payload too long for its length to be written
    /// is refused, and the log left as it was.
    pub fn write_message(&mut self, message: &Message) -> (r: Result<(), MessageError>)
        ensures
            message@.msg_type.payload().len() <= MAX_PAYLOAD_LEN ==> r is Ok && final(self).bytes()
                == old(self).bytes() + message@.bytes() && final(self).messages() == old(self).messages().push(message@),
            message@.msg_type.payload().len() > MAX_PAYLOAD_LEN ==> r == Err::<(), MessageError>(
                MessageError::PayloadTooLarge { len: message@.msg_type.payload().len() as usize },
            ) && final(self).bytes() == old(self).bytes() && final(self).messages() == old(self).messages(),
            old(self).wf() ==> final(self).wf(),
    {
        match message.write_to_vec(&mut self.writer) {
            Ok(()) => {
                proof {
                    lemma_messages_bytes_push(self.messages@, message@);
                    assert(old(self).wf() ==> self.writer@ =~= log_bytes(
                        self.messages@.push(message@),
                    ));
                }
                self.messages = Ghost(self.messages@.push(message@));
                Ok(())
            },
            Err(e) => Err(e),
        }
    }

    /// The bytes written so far.
    pub fn inner(&self) -> (bytes: &Vec<u8>)
        ensures
            bytes@ == self.bytes(),
    {
        &self.writer
    }

    /// Ends the log and hands out its bytes.
    pub fn into_inner(self) -> (bytes: Vec<u8>)
        ensures
            bytes@ == self.bytes(),
    {
        self.writer
    }
}

/// Writing one more message appends its bytes.
pub proof fn lemma_messages_bytes_push(ms: Seq<MessageSpec>, m: MessageSpec)
    ensures
        messages_bytes(ms.push(m)) == messages_bytes(ms) + m.bytes(),
    decreases ms.len(),
{
    if ms.len() == 0 {
        assert(ms.push(m).skip(1) =~= Seq::<MessageSpec>::empty());
        assert(messages_bytes(ms.push(m).skip(1)) =~= Seq::<u8>::empty());
        assert(messages_bytes(ms.push(m)) =~= m.bytes());
    } else {
        assert(ms.push(m).skip(1) =~= ms.skip(1).push(m));
        lemma_messages_bytes_push(ms.skip(1), m);
        assert(ms[0].bytes() + (messages_bytes(ms.skip(1)) + m.bytes()) =~= ms[0].bytes()
            + messages_bytes(ms.skip(1)) + m.bytes());
    }
}

/// A written log opens: its header and version are those that the reader
/// asks for, and what follows them are the messages.
pub proof fn lemma_log_opens(ms: Seq<MessageSpec>)
    ensures
        check_prelude(log_bytes(ms)) == Ok::<(), LogReaderErrorSpec>(()),
        log_bytes(ms).skip(HEADER_LEN + 4) == messages_bytes(ms),
{
    let s = log_bytes(ms);
    lemma_i32_round_trip(SUPPORTED_VERSION, messages_bytes(ms));
    assert(s.take(HEADER_LEN as int) =~= expected_header());
    assert(s.skip(HEADER_LEN as int) =~= i32_be_bytes(SUPPORTED_VERSION) + messages_bytes(ms));
    assert(s.skip(HEADER_LEN + 4) =~= messages_bytes(ms));
}

/// Reading the messages of a written log gives the messages that were
/// written, in order, and nothing else.
pub proof fn lemma_log_round_trip(ms: Seq<MessageSpec>)
    requires
        messages_wf(ms),
    ensures
        read_log(messages_bytes(ms)) == ms.map_values(
            |m: MessageSpec| Ok::<MessageSpec, LogReaderError>(m),
        ),
    decreases ms.len(),
{
    let s = messages_bytes(ms);
    let expected = ms.map_values(|m: MessageSpec| Ok::<MessageSpec, LogReaderError>(m));
    if ms.len() == 0 {
        assert(read_log(s) =~= expected);
    } else {
        let rest = messages_bytes(ms.skip(1));
        lemma_record_round_trip(ms[0], rest);
        let n = ms[0].bytes().len();
        assert(s.skip(n as int) =~= rest);
        assert(messages_wf(ms.skip(1))) by {
            assert forall|i: int| 0 <= i < ms.skip(1).len() implies (#[trigger] ms.skip(1)[i]).wf() by {
                assert(ms[i + 1].wf());
            }
        }
        lemma_log_round_trip(ms.skip(1));
        assert(read_item(s) == Ok::<MessageSpec, LogReaderError>(ms[0]));
        assert(seq![read_item(s)] + read_log(rest) =~= expected);
    }
}

/// Twelve bytes that are not the header of a log are refused as such,
/// whatever follows.
pub proof fn lemma_bad_header_rejected(header: Seq<u8>, rest: Seq<u8>)
    requires
        header.len() == HEADER_LEN,
        header != expected_header(),
    ensures
        check_prelude(header + rest) == Err::<(), LogReaderErrorSpec>(
            LogReaderErrorSpec::InvalidHeader { header },
        ),
{
    assert((header + rest).take(HEADER_LEN as int) =~= header);
}

/// A version that this reader does not know is refused as such, whatever
/// follows.
pub proof fn lemma_bad_version_rejected(version: i32, rest: Seq<u8>)
    requires
        version != SUPPORTED_VERSION,
    ensures
        check_prelude(expected_header() + i32_be_bytes(version) + rest) == Err::<
            (),
            LogReaderErrorSpec,
        >(LogReaderErrorSpec::UnsupportedVersion { version }),
{
    let s = expected_header() + i32_be_bytes(version) + rest;
    lemma_i32_round_trip(version, rest);
    assert(s.take(HEADER_LEN as int) =~= expected_header());
    assert(s.skip(HEADER_LEN as int) =~= i32_be_bytes(version) + rest);
}

} // verus!
