//! What a submission is made of: a plain header in a zstd skippable frame, then the payload. The
//! header rides in the frame so that a decompressor hands back the payload and nothing else.

use vstd::prelude::*;

use crate::bytes;
use crate::text;
use crate::wire::agent::AgentId;
use crate::wire::moment::Moment;
use crate::wire::pool::PoolId;

verus! {

/// The first of the sixteen magic numbers that open a skippable frame.
pub const SKIPPABLE_MAGIC: u32 = 0x184D_2A50;

/// How many bytes a frame's magic number and length take.
pub const FRAME_HEAD_BYTES: usize = 8;

/// Who a submission says it is from.
#[derive(Debug)]
pub struct Provenance {
    pub pool_id: PoolId,
    pub agent_id: AgentId,
}

/// What a submission says of itself.
#[derive(Debug)]
pub struct Header {
    pub schema_version: u32,
    pub provenance: Provenance,
    /// When it was sealed.
    pub timestamp: Moment,
}

/// What an accepted submission is answered with.
#[derive(Debug, PartialEq, Eq)]
pub struct Ack {
    pub latest_version: String,
}

/// Why bytes are not a submission. Each is answerable from the first eight of them and how many
/// there are.
#[derive(Debug, Clone, Copy, PartialEq, Eq, Structural)]
pub enum ContainerError {
    /// Fewer than a frame's head.
    Short { found: usize },
    /// They open with no skippable frame.
    NotAFrame { magic: u32 },
    /// The frame declares more than a header may have.
    Oversized { declared: u32, max: u64 },
    /// The frame declares more than there is.
    Truncated { declared: u32, found: usize },
}

/// Four bytes as a number, the least significant first.
pub open spec fn little_endian(b: Seq<u8>) -> int {
    b[0] + 256 * b[1] + 65536 * b[2] + 16777216 * b[3]
}

/// Whether a magic number opens a skippable frame.
pub open spec fn skippable(magic: int) -> bool {
    SKIPPABLE_MAGIC <= magic <= SKIPPABLE_MAGIC + 15
}

/// The header and the payload of a submission, or why the bytes are none.
pub open spec fn taken_apart(wire: Seq<u8>, max_header_bytes: int) -> Result<
    (Seq<u8>, Seq<u8>),
    ContainerError,
> {
    if wire.len() < FRAME_HEAD_BYTES {
        Err(ContainerError::Short { found: wire.len() as usize })
    } else {
        let magic = little_endian(wire.subrange(0, 4));
        let declared = little_endian(wire.subrange(4, 8));
        if !skippable(magic) {
            Err(ContainerError::NotAFrame { magic: magic as u32 })
        } else if declared > max_header_bytes {
            Err(ContainerError::Oversized { declared: declared as u32, max: max_header_bytes as u64 })
        } else if declared > wire.len() - FRAME_HEAD_BYTES {
            Err(
                ContainerError::Truncated {
                    declared: declared as u32,
                    found: (wire.len() - FRAME_HEAD_BYTES) as usize,
                },
            )
        } else {
            Ok(
                (
                    wire.subrange(8, 8 + declared),
                    wire.subrange(8 + declared, wire.len() as int),
                ),
            )
        }
    }
}

impl ContainerError {
    /// What a client is told.
    pub open spec fn spelled(self) -> Seq<char> {
        match self {
            ContainerError::Short { found } => text::decimal(found as int)
                + " bytes are fewer than a frame header"@,
            ContainerError::NotAFrame { magic } => "it opens with "@ + text::decimal(magic as int)
                + ", which is no skippable frame"@,
            ContainerError::Oversized { declared, max } => "its header frame declares "@
                + text::decimal(declared as int) + " bytes, over the "@ + text::decimal(max as int)
                + " byte limit"@,
            ContainerError::Truncated { declared, found } => "its header frame declares "@
                + text::decimal(declared as int) + " bytes and "@ + text::decimal(found as int)
                + " follow"@,
        }
    }

    /// What a client is told.
    pub fn message(&self) -> (r: String)
        ensures
            r@ == self.spelled(),
    {
        match self {
            ContainerError::Short { found } => {
                let mut r = text::decimal_of(*found as u128);
                r.append(" bytes are fewer than a frame header");
                r
            },
            ContainerError::NotAFrame { magic } => {
                let mut r = String::from_str("it opens with ");
                r.append(text::decimal_of(*magic as u128).as_str());
                r.append(", which is no skippable frame");
                r
            },
            ContainerError::Oversized { declared, max } => {
                let mut r = String::from_str("its header frame declares ");
                r.append(text::decimal_of(*declared as u128).as_str());
                r.append(" bytes, over the ");
                r.append(text::decimal_of(*max as u128).as_str());
                r.append(" byte limit");
                r
            },
            ContainerError::Truncated { declared, found } => {
                let mut r = String::from_str("its header frame declares ");
                r.append(text::decimal_of(*declared as u128).as_str());
                r.append(" bytes and ");
                r.append(text::decimal_of(*found as u128).as_str());
                r.append(" follow");
                r
            },
        }
    }
}

fn number_at(wire: &[u8], from: usize) -> (r: u32)
    requires
        from + 4 <= wire@.len(),
    ensures
        r == little_endian(wire@.subrange(from as int, from + 4)),
{
    let ghost four = wire@.subrange(from as int, from + 4);
    assert(four[0] == wire@[from as int] && four[1] == wire@[from + 1] && four[2] == wire@[from
        + 2] && four[3] == wire@[from + 3]);
    let length: usize = wire.len();
    wire[from] as u32 + 256 * (wire[from + 1] as u32) + 65536 * (wire[from + 2] as u32) + 16777216
        * (wire[from + 3] as u32)
}

/// The header and the payload of a submission. The declared length is checked before any of it is
/// read.
pub fn split(wire: &[u8], max_header_bytes: u64) -> (r: Result<(Vec<u8>, Vec<u8>), ContainerError>)
    ensures
        match r {
            Ok((header, payload)) => taken_apart(wire@, max_header_bytes as int) == Ok::<
                (Seq<u8>, Seq<u8>),
                ContainerError,
            >((header@, payload@)),
            Err(error) => taken_apart(wire@, max_header_bytes as int) == Err::<
                (Seq<u8>, Seq<u8>),
                ContainerError,
            >(error),
        },
{
    if wire.len() < FRAME_HEAD_BYTES {
        return Err(ContainerError::Short { found: wire.len() });
    }
    let magic: u32 = number_at(wire, 0);
    if magic < SKIPPABLE_MAGIC || magic > SKIPPABLE_MAGIC + 15 {
        return Err(ContainerError::NotAFrame { magic });
    }
    let declared: u32 = number_at(wire, 4);
    if declared as u64 > max_header_bytes {
        return Err(ContainerError::Oversized { declared, max: max_header_bytes });
    }
    if declared as usize > wire.len() - FRAME_HEAD_BYTES {
        return Err(ContainerError::Truncated { declared, found: wire.len() - FRAME_HEAD_BYTES });
    }
    let end: usize = FRAME_HEAD_BYTES + declared as usize;
    Ok((bytes::part(wire, FRAME_HEAD_BYTES, end), bytes::part(wire, end, wire.len())))
}

/// A number in four bytes, the least significant first.
pub open spec fn four_bytes(n: int) -> Seq<u8> {
    seq![
        (n % 256) as u8,
        (n / 256 % 256) as u8,
        (n / 65536 % 256) as u8,
        (n / 16777216 % 256) as u8,
    ]
}

/// A header and a payload put together.
pub open spec fn put_together(header: Seq<u8>, payload: Seq<u8>) -> Seq<u8> {
    four_bytes(SKIPPABLE_MAGIC as int) + four_bytes(header.len() as int) + header + payload
}

proof fn lemma_four_bytes(n: int)
    requires
        0 <= n < 0x1_0000_0000,
    ensures
        little_endian(four_bytes(n)) == n,
{
}

/// Taking a submission apart gives back what it was put together of, wherever its header is
/// within the limit.
pub proof fn split_inverts_seal(header: Seq<u8>, payload: Seq<u8>, max_header_bytes: int)
    requires
        header.len() <= max_header_bytes,
        header.len() < 0x1_0000_0000,
    ensures
        taken_apart(put_together(header, payload), max_header_bytes) == Ok::<
            (Seq<u8>, Seq<u8>),
            ContainerError,
        >((header, payload)),
{
    let wire = put_together(header, payload);
    lemma_four_bytes(SKIPPABLE_MAGIC as int);
    lemma_four_bytes(header.len() as int);
    assert(wire.subrange(0, 4) =~= four_bytes(SKIPPABLE_MAGIC as int));
    assert(wire.subrange(4, 8) =~= four_bytes(header.len() as int));
    assert(wire.subrange(8, 8 + header.len() as int) =~= header);
    assert(wire.subrange(8 + header.len() as int, wire.len() as int) =~= payload);
}

impl Clone for Header {
    fn clone(&self) -> (r: Self)
        ensures
            r.schema_version == self.schema_version,
            r.provenance.pool_id == self.provenance.pool_id,
            r.provenance.agent_id@ == self.provenance.agent_id@,
            r.timestamp.at() == self.timestamp.at(),
            r.timestamp.text() == self.timestamp.text(),
    {
        Header {
            schema_version: self.schema_version,
            provenance: Provenance {
                pool_id: self.provenance.pool_id,
                agent_id: self.provenance.agent_id.clone(),
            },
            timestamp: self.timestamp.clone(),
        }
    }
}

proof fn lemma_number_of_four(b: Seq<u8>)
    requires
        b.len() == 4,
    ensures
        0 <= little_endian(b) < 0x1_0000_0000,
        four_bytes(little_endian(b)) == b,
{
    let (b0, b1, b2, b3) = (b[0] as int, b[1] as int, b[2] as int, b[3] as int);
    let n = little_endian(b);
    assert(n == b0 + 256 * (b1 + 256 * (b2 + 256 * b3)));
    assert(n % 256 == b0 && n / 256 == b1 + 256 * (b2 + 256 * b3));
    assert(n / 65536 == b2 + 256 * b3);
    assert(n / 16777216 == b3);
    assert(four_bytes(n) =~= b);
}

/// What a submission is taken apart into is all of it, byte for byte: the header as long as the
/// frame declares and no longer than the bound, and the payload behind it.
pub proof fn taking_apart_loses_nothing(wire: Seq<u8>, max_header_bytes: int)
    ensures
        taken_apart(wire, max_header_bytes) matches Ok((header, payload)) ==> {
            &&& wire == wire.take(8) + header + payload
            &&& header.len() == wire[4] + 256 * wire[5] + 65536 * wire[6] + 16777216 * wire[7]
            &&& header.len() <= max_header_bytes
            &&& wire[0] == SKIPPABLE_MAGIC % 256 ==> wire == put_together(header, payload)
        },
{
    if let Ok((header, payload)) = taken_apart(wire, max_header_bytes) {
        let magic = wire.subrange(0, 4);
        let declared = wire.subrange(4, 8);
        lemma_number_of_four(magic);
        lemma_number_of_four(declared);
        assert(header.len() == little_endian(declared));
        assert(wire =~= wire.take(8) + header + payload);
        if wire[0] == SKIPPABLE_MAGIC % 256 {
            assert(magic[0] == (little_endian(magic) % 256) as u8);
            assert(little_endian(magic) == SKIPPABLE_MAGIC);
            assert(wire.take(8) =~= magic + declared);
        }
    }
}

/// A header over the bound is refused by what the frame declares, before anything of it is read.
pub proof fn a_longer_header_is_refused(
    header: Seq<u8>,
    payload: Seq<u8>,
    max_header_bytes: int,
)
    requires
        0 <= max_header_bytes < header.len() < 0x1_0000_0000,
    ensures
        taken_apart(put_together(header, payload), max_header_bytes) == Err::<
            (Seq<u8>, Seq<u8>),
            ContainerError,
        >(
            ContainerError::Oversized {
                declared: header.len() as u32,
                max: max_header_bytes as u64,
            },
        ),
{
    let wire = put_together(header, payload);
    lemma_four_bytes(SKIPPABLE_MAGIC as int);
    lemma_four_bytes(header.len() as int);
    assert(wire.subrange(0, 4) =~= four_bytes(SKIPPABLE_MAGIC as int));
    assert(wire.subrange(4, 8) =~= four_bytes(header.len() as int));
}

/// A submission that is cut off before its header ends is refused, wherever it was cut.
pub proof fn a_cut_header_is_refused(
    header: Seq<u8>,
    payload: Seq<u8>,
    max_header_bytes: int,
    n: int,
)
    requires
        header.len() <= max_header_bytes,
        header.len() < 0x1_0000_0000,
        0 <= n < 8 + header.len(),
    ensures
        taken_apart(put_together(header, payload).take(n), max_header_bytes) == Err::<
            (Seq<u8>, Seq<u8>),
            ContainerError,
        >(
            if n < 8 {
                ContainerError::Short { found: n as usize }
            } else {
                ContainerError::Truncated {
                    declared: header.len() as u32,
                    found: (n - 8) as usize,
                }
            },
        ),
{
    let wire = put_together(header, payload).take(n);
    if n >= 8 {
        lemma_four_bytes(SKIPPABLE_MAGIC as int);
        lemma_four_bytes(header.len() as int);
        assert(wire.subrange(0, 4) =~= four_bytes(SKIPPABLE_MAGIC as int));
        assert(wire.subrange(4, 8) =~= four_bytes(header.len() as int));
    }
}

/// Any of the sixteen skippable frames may carry a header: the first byte of the magic number may
/// be any of its sixteen values, and no other.
pub proof fn sixteen_frames_are_skippable(
    header: Seq<u8>,
    payload: Seq<u8>,
    max_header_bytes: int,
    first: u8,
)
    requires
        header.len() <= max_header_bytes,
        header.len() < 0x1_0000_0000,
    ensures
        ({
            let given = taken_apart(
                put_together(header, payload).update(0, first),
                max_header_bytes,
            );
            &&& 0x50 <= first <= 0x5f ==> given == Ok::<(Seq<u8>, Seq<u8>), ContainerError>(
                (header, payload),
            )
            &&& !(0x50 <= first <= 0x5f) ==> given matches Err(ContainerError::NotAFrame { .. })
        }),
{
    let wire = put_together(header, payload).update(0, first);
    lemma_four_bytes(header.len() as int);
    assert(wire.subrange(0, 4) =~= seq![first, 0x2au8, 0x4du8, 0x18u8]);
    assert(wire.subrange(4, 8) =~= four_bytes(header.len() as int));
    assert(wire.subrange(8, 8 + header.len() as int) =~= header);
    assert(wire.subrange(8 + header.len() as int, wire.len() as int) =~= payload);
}

}
