//! Identifier/header codec: packs the compact binary header (priority,
//! flags, addresses, ports) into big-endian wire bytes and back.
//!
//! Two header widths exist: the legacy 4-byte layout and the current
//! 6-byte layout. The width is a construction-time choice, never decided
//! per packet at run time.

use vstd::prelude::*;

use crate::codes::CspError;

verus! {

/// The identifier part of a packet header.
#[derive(Debug, PartialEq, Eq, Copy, Clone, Structural)]
pub struct CspId {
    /// Two-bit priority, lower is more urgent.
    pub pri: u8,
    /// Header flags (six bits on the current wire format).
    pub flags: u8,
    /// Source address.
    pub src: u16,
    /// Destination address.
    pub dst: u16,
    /// Destination port (six bits).
    pub dport: u8,
    /// Source port (six bits).
    pub sport: u8,
}

/// The identifier under the protocol's traditional type name.
#[allow(non_camel_case_types)]
pub type csp_id_t = CspId;

/// Which wire layout a header is packed with.
#[derive(Debug, PartialEq, Eq, Copy, Clone, Structural)]
pub enum HeaderVersion {
    /// 4-byte layout: 2-bit priority, 5-bit addresses, 6-bit ports, 8-bit flags.
    Legacy,
    /// 6-byte layout: 2-bit priority, 14-bit addresses, 6-bit ports, 6-bit flags.
    Current,
}

/// Number of wire bytes a header occupies under a layout.
pub open spec fn spec_header_len(v: HeaderVersion) -> int {
    match v {
        HeaderVersion::Legacy => 4,
        HeaderVersion::Current => 6,
    }
}

impl HeaderVersion {
    /// Number of wire bytes a header occupies under this layout.
    pub fn header_len(&self) -> (r: usize)
        ensures
            r == spec_header_len(*self),
    {
        match *self {
            HeaderVersion::Legacy => 4,
            HeaderVersion::Current => 6,
        }
    }
}

impl CspId {
    /// Every field fits its bit width under the current 6-byte layout.
    pub open spec fn valid_current(&self) -> bool {
        &&& self.pri < 4
        &&& self.flags < 64
        &&& self.src < 16384
        &&& self.dst < 16384
        &&& self.dport < 64
        &&& self.sport < 64
    }

    /// Every field fits its bit width under the legacy 4-byte layout.
    pub open spec fn valid_legacy(&self) -> bool {
        &&& self.pri < 4
        &&& self.src < 32
        &&& self.dst < 32
        &&& self.dport < 64
        &&& self.sport < 64
    }

    /// Every field fits its bit width under the given layout.
    pub open spec fn valid(&self, v: HeaderVersion) -> bool {
        match v {
            HeaderVersion::Legacy => self.valid_legacy(),
            HeaderVersion::Current => self.valid_current(),
        }
    }

    /// Run-time check that the fields fit the given layout.
    pub fn is_valid(&self, v: HeaderVersion) -> (r: bool)
        ensures
            r == self.valid(v),
    {
        match v {
            HeaderVersion::Legacy => {
                self.pri < 4 && self.src < 32 && self.dst < 32 && self.dport < 64
                    && self.sport < 64
            },
            HeaderVersion::Current => {
                self.pri < 4 && self.flags < 64 && self.src < 16384 && self.dst < 16384
                    && self.dport < 64 && self.sport < 64
            },
        }
    }
}

/// The 48-bit word of the current layout:
/// priority, destination, source, destination port, source port, flags,
/// from the most significant bit down.
pub open spec fn spec_word_current(id: CspId) -> u64 {
    ((id.pri as u64) << 46) | ((id.dst as u64) << 32) | ((id.src as u64) << 18)
        | ((id.dport as u64) << 12) | ((id.sport as u64) << 6) | (id.flags as u64 & 0x3f)
}

/// The 32-bit word of the legacy layout:
/// priority, source, destination, destination port, source port, flags,
/// from the most significant bit down.
pub open spec fn spec_word_legacy(id: CspId) -> u32 {
    ((id.pri as u32) << 30) | ((id.src as u32) << 25) | ((id.dst as u32) << 20)
        | ((id.dport as u32) << 14) | ((id.sport as u32) << 8) | (id.flags as u32)
}

/// Big-endian bytes of the current layout's 48-bit word.
pub open spec fn spec_pack_current(id: CspId) -> Seq<u8> {
    let w = spec_word_current(id);
    seq![
        ((w >> 40) & 0xff) as u8,
        ((w >> 32) & 0xff) as u8,
        ((w >> 24) & 0xff) as u8,
        ((w >> 16) & 0xff) as u8,
        ((w >> 8) & 0xff) as u8,
        (w & 0xff) as u8,
    ]
}

/// Big-endian bytes of the legacy layout's 32-bit word.
pub open spec fn spec_pack_legacy(id: CspId) -> Seq<u8> {
    let w = spec_word_legacy(id);
    seq![
        ((w >> 24) & 0xff) as u8,
        ((w >> 16) & 0xff) as u8,
        ((w >> 8) & 0xff) as u8,
        (w & 0xff) as u8,
    ]
}

/// The header bytes of an identifier under a layout.
pub open spec fn spec_pack(id: CspId, v: HeaderVersion) -> Seq<u8> {
    match v {
        HeaderVersion::Legacy => spec_pack_legacy(id),
        HeaderVersion::Current => spec_pack_current(id),
    }
}

/// The 48-bit word recomposed from six big-endian bytes.
pub open spec fn spec_word_of_bytes_current(s: Seq<u8>) -> u64 {
    ((s[0] as u64) << 40) | ((s[1] as u64) << 32) | ((s[2] as u64) << 24)
        | ((s[3] as u64) << 16) | ((s[4] as u64) << 8) | (s[5] as u64)
}

/// The 32-bit word recomposed from four big-endian bytes.
pub open spec fn spec_word_of_bytes_legacy(s: Seq<u8>) -> u32 {
    ((s[0] as u32) << 24) | ((s[1] as u32) << 16) | ((s[2] as u32) << 8) | (s[3] as u32)
}

/// The identifier denoted by six current-layout header bytes.
pub open spec fn spec_unpack_current(s: Seq<u8>) -> CspId {
    let w = spec_word_of_bytes_current(s);
    CspId {
        pri: ((w >> 46) & 0x3) as u8,
        flags: (w & 0x3f) as u8,
        src: ((w >> 18) & 0x3fff) as u16,
        dst: ((w >> 32) & 0x3fff) as u16,
        dport: ((w >> 12) & 0x3f) as u8,
        sport: ((w >> 6) & 0x3f) as u8,
    }
}

/// The identifier denoted by four legacy-layout header bytes.
pub open spec fn spec_unpack_legacy(s: Seq<u8>) -> CspId {
    let w = spec_word_of_bytes_legacy(s);
    CspId {
        pri: ((w >> 30) & 0x3) as u8,
        flags: (w & 0xff) as u8,
        src: ((w >> 25) & 0x1f) as u16,
        dst: ((w >> 20) & 0x1f) as u16,
        dport: ((w >> 14) & 0x3f) as u8,
        sport: ((w >> 8) & 0x3f) as u8,
    }
}

/// The identifier denoted by header bytes of the right length under a layout.
pub open spec fn spec_unpack(s: Seq<u8>, v: HeaderVersion) -> CspId {
    match v {
        HeaderVersion::Legacy => spec_unpack_legacy(s),
        HeaderVersion::Current => spec_unpack_current(s),
    }
}

/// Pack an identifier into its wire bytes under the chosen layout.
pub fn pack_header(id: &CspId, v: HeaderVersion) -> (r: Vec<u8>)
    requires
        id.valid(v),
    ensures
        r@ == spec_pack(*id, v),
        r@.len() == spec_header_len(v),
{
    let mut out: Vec<u8> = Vec::new();
    match v {
        HeaderVersion::Legacy => {
            let w: u32 = ((id.pri as u32) << 30) | ((id.src as u32) << 25)
                | ((id.dst as u32) << 20) | ((id.dport as u32) << 14)
                | ((id.sport as u32) << 8) | (id.flags as u32);
            assert(w == spec_word_legacy(*id));
            out.push(#[verifier::truncate] ((w >> 24) as u8));
            out.push(#[verifier::truncate] ((w >> 16) as u8));
            out.push(#[verifier::truncate] ((w >> 8) as u8));
            out.push(#[verifier::truncate] (w as u8));
            proof {
                lemma_truncate_u32(w);
                assert(out@ =~= spec_pack_legacy(*id));
            }
        },
        HeaderVersion::Current => {
            let w: u64 = ((id.pri as u64) << 46) | ((id.dst as u64) << 32)
                | ((id.src as u64) << 18) | ((id.dport as u64) << 12)
                | ((id.sport as u64) << 6) | (id.flags as u64 & 0x3f);
            assert(w == spec_word_current(*id));
            out.push(#[verifier::truncate] ((w >> 40) as u8));
            out.push(#[verifier::truncate] ((w >> 32) as u8));
            out.push(#[verifier::truncate] ((w >> 24) as u8));
            out.push(#[verifier::truncate] ((w >> 16) as u8));
            out.push(#[verifier::truncate] ((w >> 8) as u8));
            out.push(#[verifier::truncate] (w as u8));
            proof {
                lemma_truncate_u64(w);
                assert(out@ =~= spec_pack_current(*id));
            }
        },
    }
    out
}

/// Truncating a shifted word to a byte equals masking it with 0xff.
proof fn lemma_truncate_u32(w: u32)
    by (bit_vector)
    ensures
        (w >> 24) as u8 == ((w >> 24) & 0xff) as u8,
        (w >> 16) as u8 == ((w >> 16) & 0xff) as u8,
        (w >> 8) as u8 == ((w >> 8) & 0xff) as u8,
        w as u8 == (w & 0xff) as u8,
{
}

/// Truncating a shifted word to a byte equals masking it with 0xff.
proof fn lemma_truncate_u64(w: u64)
    by (bit_vector)
    ensures
        (w >> 40) as u8 == ((w >> 40) & 0xff) as u8,
        (w >> 32) as u8 == ((w >> 32) & 0xff) as u8,
        (w >> 24) as u8 == ((w >> 24) & 0xff) as u8,
        (w >> 16) as u8 == ((w >> 16) & 0xff) as u8,
        (w >> 8) as u8 == ((w >> 8) & 0xff) as u8,
        w as u8 == (w & 0xff) as u8,
{
}

/// Unpack wire bytes into an identifier; rejects input of the wrong
/// length with a decode error and never panics.
pub fn unpack_header(bytes: &Vec<u8>, v: HeaderVersion) -> (r: Result<CspId, CspError>)
    ensures
        bytes@.len() == spec_header_len(v) ==> r == Ok::<CspId, CspError>(
            spec_unpack(bytes@, v),
        ),
        bytes@.len() != spec_header_len(v) ==> r == Err::<CspId, CspError>(CspError::Inval),
        r is Ok ==> r->Ok_0.valid(v),
{
    match v {
        HeaderVersion::Legacy => {
            if bytes.len() != 4 {
                return Err(CspError::Inval);
            }
            let b0 = bytes[0];
            let b1 = bytes[1];
            let b2 = bytes[2];
            let b3 = bytes[3];
            let w: u32 = ((b0 as u32) << 24) | ((b1 as u32) << 16) | ((b2 as u32) << 8)
                | (b3 as u32);
            assert(w == spec_word_of_bytes_legacy(bytes@));
            let id = CspId {
                pri: ((w >> 30) & 0x3) as u8,
                flags: (w & 0xff) as u8,
                src: ((w >> 25) & 0x1f) as u16,
                dst: ((w >> 20) & 0x1f) as u16,
                dport: ((w >> 14) & 0x3f) as u8,
                sport: ((w >> 8) & 0x3f) as u8,
            };
            proof {
                lemma_legacy_fields_bounded(w);
            }
            Ok(id)
        },
        HeaderVersion::Current => {
            if bytes.len() != 6 {
                return Err(CspError::Inval);
            }
            let b0 = bytes[0];
            let b1 = bytes[1];
            let b2 = bytes[2];
            let b3 = bytes[3];
            let b4 = bytes[4];
            let b5 = bytes[5];
            let w: u64 = ((b0 as u64) << 40) | ((b1 as u64) << 32) | ((b2 as u64) << 24)
                | ((b3 as u64) << 16) | ((b4 as u64) << 8) | (b5 as u64);
            assert(w == spec_word_of_bytes_current(bytes@));
            let id = CspId {
                pri: ((w >> 46) & 0x3) as u8,
                flags: (w & 0x3f) as u8,
                src: ((w >> 18) & 0x3fff) as u16,
                dst: ((w >> 32) & 0x3fff) as u16,
                dport: ((w >> 12) & 0x3f) as u8,
                sport: ((w >> 6) & 0x3f) as u8,
            };
            proof {
                lemma_current_fields_bounded(w);
            }
            Ok(id)
        },
    }
}

/// Each masked legacy field fits its declared bit width.
proof fn lemma_legacy_fields_bounded(w: u32)
    by (bit_vector)
    ensures
        ((w >> 30) & 0x3) < 4,
        (w & 0xff) < 256,
        ((w >> 25) & 0x1f) < 32,
        ((w >> 20) & 0x1f) < 32,
        ((w >> 14) & 0x3f) < 64,
        ((w >> 8) & 0x3f) < 64,
{
}

/// Each masked current field fits its declared bit width.
proof fn lemma_current_fields_bounded(w: u64)
    by (bit_vector)
    ensures
        ((w >> 46) & 0x3) < 4,
        (w & 0x3f) < 64,
        ((w >> 18) & 0x3fff) < 16384,
        ((w >> 32) & 0x3fff) < 16384,
        ((w >> 12) & 0x3f) < 64,
        ((w >> 6) & 0x3f) < 64,
{
}

/// Unpacking the packed bytes of any valid identifier yields the
/// identifier back, under either wire layout.
pub proof fn lemma_header_round_trip(id: CspId, v: HeaderVersion)
    requires
        id.valid(v),
    ensures
        spec_unpack(spec_pack(id, v), v) == id,
{
    match v {
        HeaderVersion::Legacy => {
            let p = id.pri;
            let f = id.flags;
            let s = id.src;
            let d = id.dst;
            let dp = id.dport;
            let sp = id.sport;
            let w = spec_word_legacy(id);
            assert(w == ((p as u32) << 30) | ((s as u32) << 25) | ((d as u32) << 20)
                | ((dp as u32) << 14) | ((sp as u32) << 8) | (f as u32));
            let bytes = spec_pack_legacy(id);
            let w2 = spec_word_of_bytes_legacy(bytes);
            assert(w2 == ((((w >> 24) & 0xff) as u8) as u32) << 24
                | ((((w >> 16) & 0xff) as u8) as u32) << 16
                | ((((w >> 8) & 0xff) as u8) as u32) << 8 | (((w & 0xff) as u8) as u32));
            assert(w2 == w) by (bit_vector)
                requires
                    w2 == ((((w >> 24) & 0xff) as u8) as u32) << 24
                        | ((((w >> 16) & 0xff) as u8) as u32) << 16
                        | ((((w >> 8) & 0xff) as u8) as u32) << 8 | (((w & 0xff) as u8) as u32),
            ;
            assert(((w >> 30) & 0x3) == p && (w & 0xff) == f && ((w >> 25) & 0x1f) == s
                && ((w >> 20) & 0x1f) == d && ((w >> 14) & 0x3f) == dp
                && ((w >> 8) & 0x3f) == sp) by (bit_vector)
                requires
                    p < 4 && s < 32 && d < 32 && dp < 64 && sp < 64,
                    w == ((p as u32) << 30) | ((s as u32) << 25) | ((d as u32) << 20)
                        | ((dp as u32) << 14) | ((sp as u32) << 8) | (f as u32),
            ;
            assert(spec_unpack_legacy(bytes) == id);
        },
        HeaderVersion::Current => {
            let p = id.pri;
            let f = id.flags;
            let s = id.src;
            let d = id.dst;
            let dp = id.dport;
            let sp = id.sport;
            let w = spec_word_current(id);
            assert(w == ((p as u64) << 46) | ((d as u64) << 32) | ((s as u64) << 18)
                | ((dp as u64) << 12) | ((sp as u64) << 6) | (f as u64 & 0x3f));
            let bytes = spec_pack_current(id);
            let w2 = spec_word_of_bytes_current(bytes);
            assert(w2 == ((((w >> 40) & 0xff) as u8) as u64) << 40
                | ((((w >> 32) & 0xff) as u8) as u64) << 32
                | ((((w >> 24) & 0xff) as u8) as u64) << 24
                | ((((w >> 16) & 0xff) as u8) as u64) << 16
                | ((((w >> 8) & 0xff) as u8) as u64) << 8 | (((w & 0xff) as u8) as u64));
            assert(w < 0x1000000000000) by (bit_vector)
                requires
                    p < 4 && s < 16384 && d < 16384 && dp < 64 && sp < 64,
                    w == ((p as u64) << 46) | ((d as u64) << 32) | ((s as u64) << 18)
                        | ((dp as u64) << 12) | ((sp as u64) << 6) | (f as u64 & 0x3f),
            ;
            assert(w2 == w) by (bit_vector)
                requires
                    w < 0x1000000000000,
                    w2 == ((((w >> 40) & 0xff) as u8) as u64) << 40
                        | ((((w >> 32) & 0xff) as u8) as u64) << 32
                        | ((((w >> 24) & 0xff) as u8) as u64) << 24
                        | ((((w >> 16) & 0xff) as u8) as u64) << 16
                        | ((((w >> 8) & 0xff) as u8) as u64) << 8 | (((w & 0xff) as u8) as u64),
            ;
            assert(((w >> 46) & 0x3) == p && (w & 0x3f) == (f as u64 & 0x3f)
                && ((w >> 18) & 0x3fff) == s && ((w >> 32) & 0x3fff) == d
                && ((w >> 12) & 0x3f) == dp && ((w >> 6) & 0x3f) == sp) by (bit_vector)
                requires
                    p < 4 && s < 16384 && d < 16384 && dp < 64 && sp < 64,
                    w == ((p as u64) << 46) | ((d as u64) << 32) | ((s as u64) << 18)
                        | ((dp as u64) << 12) | ((sp as u64) << 6) | (f as u64 & 0x3f),
            ;
            assert(f < 64 ==> (f as u64 & 0x3f) == f) by (bit_vector);
            assert(spec_unpack_current(bytes) == id);
        },
    }
}

} // verus!
