use proc_lineage::event::RawEvent;

#[test]
fn decodes_little_endian_pid_then_uid() {
    let b = [0x64, 0x00, 0x00, 0x00, 0xe8, 0x03, 0x00, 0x00];
    assert_eq!(RawEvent::decode(&b), Some(RawEvent { pid: 100, uid: 1000 }));
    let b = [0x04, 0x03, 0x02, 0x01, 0xff, 0xff, 0xff, 0xff, 0xaa];
    assert_eq!(RawEvent::decode(&b), Some(RawEvent { pid: 0x01020304, uid: u32::MAX }));
}

#[test]
fn short_record_is_malformed() {
    assert_eq!(RawEvent::decode(&[]), None);
    assert_eq!(RawEvent::decode(&[1, 2, 3, 4, 5, 6, 7]), None);
}

#[test]
fn encode_then_decode() {
    let e = RawEvent { pid: 0xdeadbeef, uid: 12345 };
    let b = e.encode();
    assert_eq!(b, vec![0xef, 0xbe, 0xad, 0xde, 0x39, 0x30, 0x00, 0x00]);
    assert_eq!(RawEvent::decode(&b), Some(e));
}
