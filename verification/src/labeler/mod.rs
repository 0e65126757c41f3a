//! The labeler archive: frame groups cut from a log, with an index at the
//! end that finds each group by its number.

pub mod archive;
pub mod events;
pub mod player;
pub mod player_thread;
pub mod reader;
pub mod segmenter;
pub mod writer;

use vstd::prelude::*;

verus! {

/// The header of an archive: `SSL_LABELER_FILE`.
pub const LABELER_DATA_HEADER: [u8; 16] = [
    83,
    83,
    76,
    95,
    76,
    65,
    66,
    69,
    76,
    69,
    82,
    95,
    70,
    73,
    76,
    69,
];

/// The version of the archive format.
pub const LABELER_DATA_VERSION: u32 = 1;

/// The length of the header.
pub const HEADER_LEN: usize = 16;

/// The length of header and version: where the first group starts.
pub const PRELUDE_LEN: usize = 20;

/// The header of an archive, as a sequence.
pub open spec fn expected_header() -> Seq<u8> {
    seq![
        83u8,
        83u8,
        76u8,
        95u8,
        76u8,
        65u8,
        66u8,
        69u8,
        76u8,
        69u8,
        82u8,
        95u8,
        70u8,
        73u8,
        76u8,
        69u8,
    ]
}

/// The constant holds the header.
pub proof fn lemma_header()
    ensures
        LABELER_DATA_HEADER@ == expected_header(),
{
    assert(LABELER_DATA_HEADER@ =~= expected_header());
}

} // verus!
