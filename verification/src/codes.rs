//! Enumerations shared across the stack: error codes, reserved service
//! ports, connection and RDP states, and message priorities, together
//! with their numeric encodings.

use vstd::prelude::*;

verus! {

/// Error taxonomy of the stack. Success is expressed as `Ok(())`, never
/// as an error variant.
#[derive(Debug, PartialEq, Eq, Copy, Clone, Structural)]
pub enum CspError {
    NoMem,
    Inval,
    TimedOut,
    Used,
    NotSup,
    Busy,
    Already,
    Reset,
    NoBufs,
    Tx,
    Driver,
    Again,
    NoSys,
    Hmac,
    Crc32,
    Sfp,
}

/// The numeric code of an error, as carried on the wire and in logs.
pub open spec fn spec_error_code(e: CspError) -> int {
    match e {
        CspError::NoMem => -1,
        CspError::Inval => -2,
        CspError::TimedOut => -3,
        CspError::Used => -4,
        CspError::NotSup => -5,
        CspError::Busy => -6,
        CspError::Already => -7,
        CspError::Reset => -8,
        CspError::NoBufs => -9,
        CspError::Tx => -10,
        CspError::Driver => -11,
        CspError::Again => -12,
        CspError::NoSys => -38,
        CspError::Hmac => -100,
        CspError::Crc32 => -102,
        CspError::Sfp => -103,
    }
}

/// The error denoted by a numeric code, if any. Zero denotes success and
/// maps to no error.
pub open spec fn spec_error_from_code(code: int) -> Option<CspError> {
    if code == -1 {
        Some(CspError::NoMem)
    } else if code == -2 {
        Some(CspError::Inval)
    } else if code == -3 {
        Some(CspError::TimedOut)
    } else if code == -4 {
        Some(CspError::Used)
    } else if code == -5 {
        Some(CspError::NotSup)
    } else if code == -6 {
        Some(CspError::Busy)
    } else if code == -7 {
        Some(CspError::Already)
    } else if code == -8 {
        Some(CspError::Reset)
    } else if code == -9 {
        Some(CspError::NoBufs)
    } else if code == -10 {
        Some(CspError::Tx)
    } else if code == -11 {
        Some(CspError::Driver)
    } else if code == -12 {
        Some(CspError::Again)
    } else if code == -38 {
        Some(CspError::NoSys)
    } else if code == -100 {
        Some(CspError::Hmac)
    } else if code == -102 {
        Some(CspError::Crc32)
    } else if code == -103 {
        Some(CspError::Sfp)
    } else {
        None
    }
}

impl CspError {
    /// Numeric code of this error.
    pub fn code(&self) -> (r: i32)
        ensures
            r == spec_error_code(*self),
    {
        match *self {
            CspError::NoMem => -1,
            CspError::Inval => -2,
            CspError::TimedOut => -3,
            CspError::Used => -4,
            CspError::NotSup => -5,
            CspError::Busy => -6,
            CspError::Already => -7,
            CspError::Reset => -8,
            CspError::NoBufs => -9,
            CspError::Tx => -10,
            CspError::Driver => -11,
            CspError::Again => -12,
            CspError::NoSys => -38,
            CspError::Hmac => -100,
            CspError::Crc32 => -102,
            CspError::Sfp => -103,
        }
    }

    /// Error denoted by a numeric code, if any.
    pub fn from_code(code: i32) -> (r: Option<CspError>)
        ensures
            r == spec_error_from_code(code as int),
    {
        if code == -1 {
            Some(CspError::NoMem)
        } else if code == -2 {
            Some(CspError::Inval)
        } else if code == -3 {
            Some(CspError::TimedOut)
        } else if code == -4 {
            Some(CspError::Used)
        } else if code == -5 {
            Some(CspError::NotSup)
        } else if code == -6 {
            Some(CspError::Busy)
        } else if code == -7 {
            Some(CspError::Already)
        } else if code == -8 {
            Some(CspError::Reset)
        } else if code == -9 {
            Some(CspError::NoBufs)
        } else if code == -10 {
            Some(CspError::Tx)
        } else if code == -11 {
            Some(CspError::Driver)
        } else if code == -12 {
            Some(CspError::Again)
        } else if code == -38 {
            Some(CspError::NoSys)
        } else if code == -100 {
            Some(CspError::Hmac)
        } else if code == -102 {
            Some(CspError::Crc32)
        } else if code == -103 {
            Some(CspError::Sfp)
        } else {
            None
        }
    }
}

/// Decoding an error's own code yields that error back.
pub proof fn lemma_error_code_round_trip(e: CspError)
    ensures
        spec_error_from_code(spec_error_code(e)) == Some(e),
{
}

/// Ports reserved for the built-in service responders.
#[derive(Debug, PartialEq, Eq, Copy, Clone, Structural)]
pub enum ReservedPort {
    Cmp,
    Ping,
    Ps,
    Memfree,
    Reboot,
    BufFree,
    Uptime,
}

/// The port number a reserved service listens on.
pub open spec fn spec_reserved_port_number(p: ReservedPort) -> int {
    match p {
        ReservedPort::Cmp => 0,
        ReservedPort::Ping => 1,
        ReservedPort::Ps => 2,
        ReservedPort::Memfree => 3,
        ReservedPort::Reboot => 4,
        ReservedPort::BufFree => 5,
        ReservedPort::Uptime => 6,
    }
}

impl ReservedPort {
    /// Port number this service listens on.
    pub fn number(&self) -> (r: u8)
        ensures
            r == spec_reserved_port_number(*self),
    {
        match *self {
            ReservedPort::Cmp => 0,
            ReservedPort::Ping => 1,
            ReservedPort::Ps => 2,
            ReservedPort::Memfree => 3,
            ReservedPort::Reboot => 4,
            ReservedPort::BufFree => 5,
            ReservedPort::Uptime => 6,
        }
    }
}

/// Whether a destination port belongs to a built-in service.
pub open spec fn spec_is_service_port(port: int) -> bool {
    0 <= port <= 6
}

/// Lifecycle state of a connection table slot.
#[derive(Debug, PartialEq, Eq, Copy, Clone, Structural)]
pub enum ConnState {
    Closed,
    Open,
}

/// Which side opened a connection.
#[derive(Debug, PartialEq, Eq, Copy, Clone, Structural)]
pub enum ConnType {
    Client,
    Server,
}

/// State of the reliable-datagram machine embedded in a connection.
#[derive(Debug, PartialEq, Eq, Copy, Clone, Structural)]
pub enum RdpState {
    Closed,
    SynSent,
    SynRcvd,
    Open,
    CloseWait,
}

/// Priority carried in the packet header; lower numbers are more urgent.
#[derive(Debug, PartialEq, Eq, Copy, Clone, Structural)]
pub enum MsgPriority {
    Critical,
    High,
    Normal,
    Low,
}

/// The two-bit wire encoding of a priority.
pub open spec fn spec_priority_bits(p: MsgPriority) -> int {
    match p {
        MsgPriority::Critical => 0,
        MsgPriority::High => 1,
        MsgPriority::Normal => 2,
        MsgPriority::Low => 3,
    }
}

/// The priority denoted by a two-bit wire field.
pub open spec fn spec_priority_from_bits(bits: int) -> Option<MsgPriority> {
    if bits == 0 {
        Some(MsgPriority::Critical)
    } else if bits == 1 {
        Some(MsgPriority::High)
    } else if bits == 2 {
        Some(MsgPriority::Normal)
    } else if bits == 3 {
        Some(MsgPriority::Low)
    } else {
        None
    }
}

impl MsgPriority {
    /// Two-bit wire encoding of this priority.
    pub fn bits(&self) -> (r: u8)
        ensures
            r == spec_priority_bits(*self),
            r < 4,
    {
        match *self {
            MsgPriority::Critical => 0,
            MsgPriority::High => 1,
            MsgPriority::Normal => 2,
            MsgPriority::Low => 3,
        }
    }

    /// Priority denoted by a two-bit wire field.
    pub fn from_bits(bits: u8) -> (r: Option<MsgPriority>)
        ensures
            r == spec_priority_from_bits(bits as int),
    {
        if bits == 0 {
            Some(MsgPriority::Critical)
        } else if bits == 1 {
            Some(MsgPriority::High)
        } else if bits == 2 {
            Some(MsgPriority::Normal)
        } else if bits == 3 {
            Some(MsgPriority::Low)
        } else {
            None
        }
    }
}

/// Decoding a priority's own wire bits yields that priority back.
pub proof fn lemma_priority_bits_round_trip(p: MsgPriority)
    ensures
        spec_priority_from_bits(spec_priority_bits(p)) == Some(p),
{
}

/// No connection or socket option.
pub const CSP_O_NONE: u32 = 0x0000;

/// Reliable datagram delivery required.
pub const CSP_O_RDP: u32 = 0x0001;

/// Reliable datagram delivery prohibited.
pub const CSP_O_NORDP: u32 = 0x0002;

/// HMAC authentication required.
pub const CSP_O_HMAC: u32 = 0x0004;

/// HMAC authentication prohibited.
pub const CSP_O_NOHMAC: u32 = 0x0008;

/// CRC32 checking required.
pub const CSP_O_CRC32: u32 = 0x0040;

/// CRC32 checking prohibited.
pub const CSP_O_NOCRC32: u32 = 0x0080;

/// Socket receives raw packets without connections.
pub const CSP_SO_CONN_LESS: u32 = 0x0100;

/// Whether an option word has all the given flag bits set.
pub open spec fn spec_has_flag(opts: u32, flag: u32) -> bool {
    opts & flag == flag
}

/// Run-time test that an option word has all the given flag bits set.
pub fn has_flag(opts: u32, flag: u32) -> (r: bool)
    ensures
        r == spec_has_flag(opts, flag),
{
    opts & flag == flag
}

/// An option word that both requires and prohibits the reliable layer is
/// contradictory and rejected wherever it is offered.
pub open spec fn spec_opts_contradictory(opts: u32) -> bool {
    spec_has_flag(opts, CSP_O_RDP) && spec_has_flag(opts, CSP_O_NORDP)
}

} // verus!
