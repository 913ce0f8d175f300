use wifi_shim::crt::{
    c_string, c_strlen, coexist_printf, net80211_printf, phy_printf, pp_printf, printf, puts,
    sprintf, strrchr, SPRINTF_BOUND,
};

#[test]
fn strlen_stops_at_zero() {
    assert_eq!(c_strlen(b"abc\0def"), 3);
    assert_eq!(c_strlen(b"abc"), 3);
    assert_eq!(c_strlen(b"\0"), 0);
    assert_eq!(c_strlen(b""), 0);
}

#[test]
fn log_lines_drop_terminator() {
    assert_eq!(puts(b"hello\0junk"), b"hello".to_vec());
    assert_eq!(printf(b"a\0"), b"a".to_vec());
    assert_eq!(phy_printf(b"phy\0"), b"phy".to_vec());
    assert_eq!(coexist_printf(b"co\0x"), b"co".to_vec());
    assert_eq!(net80211_printf(b"net"), b"net".to_vec());
    assert_eq!(pp_printf(b"\0pp"), Vec::<u8>::new());
    assert_eq!(c_string(b"xy\0z"), b"xy".to_vec());
}

#[test]
fn sprintf_fits() {
    let mut dst = vec![0xaau8; 8];
    assert_eq!(sprintf(&mut dst, b"hi!\0"), 3);
    assert_eq!(dst, vec![b'h', b'i', b'!', 0, 0xaa, 0xaa, 0xaa, 0xaa]);
}

#[test]
fn sprintf_truncates_at_bound() {
    let long = vec![b'x'; 2000];
    let mut dst = vec![0xaau8; 1024];
    let n = sprintf(&mut dst, &long);
    assert_eq!(n as usize, SPRINTF_BOUND - 1);
    assert!(dst[..SPRINTF_BOUND - 1].iter().all(|&b| b == b'x'));
    assert_eq!(dst[SPRINTF_BOUND - 1], 0);
    assert!(dst[SPRINTF_BOUND..].iter().all(|&b| b == 0xaa));
}

#[test]
fn sprintf_truncates_to_small_buffer() {
    let mut dst = vec![0xaau8; 4];
    assert_eq!(sprintf(&mut dst, b"abcdef\0"), 3);
    assert_eq!(dst, b"abc\0".to_vec());
    let mut none: Vec<u8> = Vec::new();
    assert_eq!(sprintf(&mut none, b"abc\0"), 0);
    assert!(none.is_empty());
}

#[test]
fn strrchr_finds_last() {
    assert_eq!(strrchr(b"a/b/c\0", b'/' as u32), Some(3));
    assert_eq!(strrchr(b"abc\0/", b'/' as u32), None);
    assert_eq!(strrchr(b"abc\0", 0), Some(3));
    assert_eq!(strrchr(b"abc\0", 0x100 + b'a' as u32), Some(0));
    assert_eq!(strrchr(b"", b'a' as u32), None);
}
