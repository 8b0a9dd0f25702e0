use libcsp::codes::{
    has_flag, CspError, MsgPriority, ReservedPort, CSP_O_NONE, CSP_O_NORDP, CSP_O_RDP,
    CSP_SO_CONN_LESS,
};

#[test]
fn error_codes_match_the_wire_values() {
    assert_eq!(CspError::NoMem.code(), -1);
    assert_eq!(CspError::Inval.code(), -2);
    assert_eq!(CspError::TimedOut.code(), -3);
    assert_eq!(CspError::Used.code(), -4);
    assert_eq!(CspError::NotSup.code(), -5);
    assert_eq!(CspError::Busy.code(), -6);
    assert_eq!(CspError::Already.code(), -7);
    assert_eq!(CspError::Reset.code(), -8);
    assert_eq!(CspError::NoBufs.code(), -9);
    assert_eq!(CspError::Tx.code(), -10);
    assert_eq!(CspError::Driver.code(), -11);
    assert_eq!(CspError::Again.code(), -12);
    assert_eq!(CspError::NoSys.code(), -38);
    assert_eq!(CspError::Hmac.code(), -100);
    assert_eq!(CspError::Crc32.code(), -102);
    assert_eq!(CspError::Sfp.code(), -103);
}

#[test]
fn error_from_code_round_trips() {
    let all = [
        CspError::NoMem,
        CspError::Inval,
        CspError::TimedOut,
        CspError::Used,
        CspError::NotSup,
        CspError::Busy,
        CspError::Already,
        CspError::Reset,
        CspError::NoBufs,
        CspError::Tx,
        CspError::Driver,
        CspError::Again,
        CspError::NoSys,
        CspError::Hmac,
        CspError::Crc32,
        CspError::Sfp,
    ];
    for e in all {
        assert_eq!(CspError::from_code(e.code()), Some(e));
    }
    assert_eq!(CspError::from_code(0), None);
    assert_eq!(CspError::from_code(1), None);
    assert_eq!(CspError::from_code(-13), None);
}

#[test]
fn reserved_ports_are_numbered() {
    assert_eq!(ReservedPort::Cmp.number(), 0);
    assert_eq!(ReservedPort::Ping.number(), 1);
    assert_eq!(ReservedPort::Ps.number(), 2);
    assert_eq!(ReservedPort::Memfree.number(), 3);
    assert_eq!(ReservedPort::Reboot.number(), 4);
    assert_eq!(ReservedPort::BufFree.number(), 5);
    assert_eq!(ReservedPort::Uptime.number(), 6);
}

#[test]
fn priority_bits_round_trip() {
    let all = [MsgPriority::Critical, MsgPriority::High, MsgPriority::Normal, MsgPriority::Low];
    for p in all {
        assert_eq!(MsgPriority::from_bits(p.bits()), Some(p));
    }
    assert_eq!(MsgPriority::from_bits(4), None);
    assert_eq!(MsgPriority::Normal.bits(), 2);
}

#[test]
fn flag_tests() {
    let opts = CSP_O_RDP | CSP_SO_CONN_LESS;
    assert!(has_flag(opts, CSP_O_RDP));
    assert!(has_flag(opts, CSP_SO_CONN_LESS));
    assert!(!has_flag(opts, CSP_O_NORDP));
    assert!(has_flag(CSP_O_NONE, CSP_O_NONE));
}
