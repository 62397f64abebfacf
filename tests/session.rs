use std::sync::Arc;

use fi::cache::DataCache;
use fi::error::ErrorKind;
use fi::printers::{AsciiPrinter, HexPrinter, Hyperlink, MaybePrinter, YieldPoint};
use fi::session::{
    decode_frame, encode_frame, pick_session, socket_name, Exit, ExitCode, MAX_FRAME,
};
use fi::disasm::wasm_inst_range;
use fi::text::{hashpath, hex_u64_le, u64ptr};

#[test]
fn frame_length_limit() {
    let ok = vec![7u8; 65535];
    let framed = encode_frame(&ok).unwrap();
    assert_eq!(framed.len(), 65537);
    assert_eq!(&framed[..2], &[0xff, 0xff]);
    assert_eq!(encode_frame(&vec![0u8; 65536]), Err(ErrorKind::TooLong));
    assert_eq!(MAX_FRAME, 65535);
}

#[test]
fn frame_round_trip() {
    let payload = b"\xa1dcodebOk".to_vec();
    let mut framed = encode_frame(&payload).unwrap();
    assert_eq!(&framed[..2], &[payload.len() as u8, 0]);
    framed.extend_from_slice(b"rest");
    let (back, used) = decode_frame(&framed).unwrap();
    assert_eq!(back, payload);
    assert_eq!(used, payload.len() + 2);
    assert_eq!(decode_frame(&framed[..5]), None);
    assert_eq!(decode_frame(&[1]), None);
}

#[test]
fn exit_status() {
    assert_eq!(Exit::from_outcome(true).code, ExitCode::Success);
    assert_eq!(Exit::from_outcome(true).status(), 0);
    assert_eq!(Exit::from_outcome(false).status(), 1);
}

#[test]
fn address_arguments() {
    assert_eq!(u64ptr("0x1000"), Ok(0x1000));
    assert_eq!(u64ptr("0xDEADbeef"), Ok(0xdeadbeef));
    assert_eq!(u64ptr("4096"), Ok(4096));
    assert_eq!(u64ptr("+12"), Ok(12));
    assert_eq!(u64ptr("0x"), Ok(0));
    assert_eq!(u64ptr("0x100"), Ok(0x100));
    assert_eq!(u64ptr("0xf"), Ok(15));
    assert_eq!(u64ptr("0x1ABcd"), Ok(0x1abcd));
    assert_eq!(u64ptr("0xfffffffffffffffff"), Err(ErrorKind::Decode));
    assert_eq!(u64ptr("0x0000000000000000ff"), Err(ErrorKind::Decode));
    assert_eq!(u64ptr("0xzz"), Err(ErrorKind::Decode));
    assert_eq!(u64ptr("18446744073709551616"), Err(ErrorKind::Decode));
    assert_eq!(u64ptr(""), Err(ErrorKind::Decode));
}

#[test]
fn printed_addresses_read_back() {
    for x in [0u64, 1, 0x1000, 0xdead_beef_0000_0001, u64::MAX] {
        assert_eq!(u64ptr(&format!("0x{:016x}", x)), Ok(x));
        assert_eq!(u64ptr(&format!("0x{:x}", x)), Ok(x));
    }
}

#[test]
fn path_hash_is_stable() {
    let a = hashpath(b"/home/user/project");
    let b = hashpath(b"/home/user/project");
    let c = hashpath(b"/home/user/other");
    assert_eq!(a, b);
    assert_ne!(a, c);
    assert_eq!(a.len(), 16);
    assert!(a.bytes().all(|c| c.is_ascii_hexdigit() && !c.is_ascii_uppercase()));
    assert_eq!(hex_u64_le(0x0102030405060708), "0807060504030201");
}

#[test]
fn session_socket_choice() {
    assert_eq!(socket_name("aa", "bb"), b"aa-bb".to_vec());
    let names = vec![b"11-x".to_vec(), b"22-y".to_vec(), b"22-z".to_vec()];
    assert_eq!(pick_session(&names, b"22"), Some(1));
    assert_eq!(pick_session(&names, b"33"), Some(0));
    assert_eq!(pick_session(&Vec::new(), b"33"), None);
}

#[test]
fn printers_render() {
    let mut out = Vec::new();
    HexPrinter(&[1, 0xab], 4).render(&mut out);
    assert_eq!(String::from_utf8(out).unwrap(), "01 ab       ");
    let mut out = Vec::new();
    AsciiPrinter(b"a \x7fZ").render(&mut out);
    assert_eq!(out, b"a..Z".to_vec());
    let mut out = Vec::new();
    MaybePrinter(None::<Vec<u8>>, Some('?')).render(&mut out);
    MaybePrinter(Some(b"12".to_vec()), Some('?')).render(&mut out);
    assert_eq!(out, b"?12".to_vec());
    let mut out = Vec::new();
    Hyperlink::new(b"t".to_vec(), b"l".to_vec()).render(&mut out);
    assert_eq!(out, b"\x1b]8;;l\x1b\\t\x1b]8;;\x1b\\".to_vec());
}

#[test]
fn yield_point_every_256_turns() {
    let mut p = YieldPoint::new();
    let mut yields = Vec::new();
    for i in 0..600 {
        if p.tick() {
            yields.push(i);
        }
    }
    assert_eq!(yields, vec![255, 511]);
}

#[test]
fn wasm_operator_ranges() {
    assert_eq!(wasm_inst_range(100, 10, 102, Some(105)), Some((2, 5)));
    assert_eq!(wasm_inst_range(100, 10, 107, None), Some((7, 10)));
    assert_eq!(wasm_inst_range(100, 10, 99, None), None);
    assert_eq!(wasm_inst_range(100, 10, 102, Some(120)), None);
}

#[test]
fn section_data_is_cached_once() {
    let mut cache: DataCache<Arc<Vec<u8>>> = DataCache::new();
    assert!(cache.get(3).is_none());
    let buf = Arc::new(vec![1u8, 2, 3]);
    cache.insert(3, buf.clone());
    cache.insert(5, Arc::new(vec![9u8]));
    let got = cache.get(3).unwrap();
    assert!(Arc::ptr_eq(got, &buf));
    assert_eq!(cache.get(5).unwrap().as_slice(), &[9u8]);
    assert!(cache.get(4).is_none());
}
