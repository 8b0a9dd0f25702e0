use libcsp::clock::{csp_timestamp_t, timestamp_from_ms};
use libcsp::codec::csp_id_t;

#[test]
fn bindgen_test_layout_csp_timestamp_t() {
    assert_eq!(std::mem::size_of::<csp_timestamp_t>(), 8usize, "Size of: csp_timestamp_t");
    assert_eq!(
        std::mem::align_of::<csp_timestamp_t>(),
        4usize,
        "Alignment of csp_timestamp_t"
    );
}

#[test]
fn bindgen_test_layout_csp_id() {
    assert_eq!(std::mem::size_of::<csp_id_t>(), 8usize, "Size of: csp_id_t");
    assert_eq!(std::mem::align_of::<csp_id_t>(), 2usize, "Alignment of csp_id_t");
}

#[test]
fn timestamp_from_milliseconds() {
    let t = timestamp_from_ms(5250);
    assert_eq!(t.tv_sec, 5);
    assert_eq!(t.tv_nsec, 250_000_000);
    let zero = timestamp_from_ms(0);
    assert_eq!(zero.tv_sec, 0);
    assert_eq!(zero.tv_nsec, 0);
}
