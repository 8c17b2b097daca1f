use constellation::codec::{dec_bytes, dec_u16, dec_u32, dec_u64, enc_bytes, enc_u16, enc_u32, enc_u64};
use constellation::digits::{parse_u64, render_u64};
use constellation::pid::{dec_pid, enc_pid, Pid};
use constellation::resources::{
    dec_resources, enc_resources, parse_resources_json, render_resources_json, Cpu, Mem, Resources,
};

#[test]
fn u16_round_trip_and_layout() {
    let mut out: Vec<u8> = Vec::new();
    enc_u16(0x1234, &mut out);
    assert_eq!(out, vec![0x34, 0x12]);
    let (v, end) = dec_u16(&out, 0).unwrap();
    assert_eq!(v, 0x1234);
    assert_eq!(end, 2);
}

#[test]
fn u32_round_trip_and_layout() {
    let mut out: Vec<u8> = Vec::new();
    enc_u32(0x12345678, &mut out);
    assert_eq!(out, vec![0x78, 0x56, 0x34, 0x12]);
    let (v, end) = dec_u32(&out, 0).unwrap();
    assert_eq!(v, 0x12345678);
    assert_eq!(end, 4);
}

#[test]
fn u64_round_trip_extremes() {
    for x in [0u64, 1, 0xFF, 0x1_0000_0000, u64::MAX] {
        let mut out: Vec<u8> = Vec::new();
        enc_u64(x, &mut out);
        assert_eq!(out.len(), 8);
        let (v, end) = dec_u64(&out, 0).unwrap();
        assert_eq!(v, x);
        assert_eq!(end, 8);
    }
}

#[test]
fn decode_short_buffer_is_none() {
    let buf = vec![1u8, 2, 3, 4];
    assert!(dec_u32(&buf, 0).is_some());
    assert!(dec_u32(&buf, 1).is_none());
    assert!(dec_u64(&buf, 0).is_none());
    assert!(dec_u16(&buf, 3).is_none());
}

#[test]
fn length_prefixed_bytes_round_trip() {
    let payload = vec![9u8, 8, 7, 6];
    let mut out: Vec<u8> = Vec::new();
    enc_bytes(&payload, &mut out);
    assert_eq!(out, vec![4, 0, 0, 0, 9, 8, 7, 6]);
    let (back, end) = dec_bytes(&out, 0).unwrap();
    assert_eq!(back, payload);
    assert_eq!(end, 8);
}

#[test]
fn length_prefix_overruns_buffer() {
    // announces five bytes, carries two
    let buf = vec![5u8, 0, 0, 0, 1, 2];
    assert!(dec_bytes(&buf, 0).is_none());
}

#[test]
fn pid_round_trip() {
    // 127.0.0.1:9000
    let p = Pid::new(0x7F000001, 9000);
    let mut out: Vec<u8> = Vec::new();
    enc_pid(&p, &mut out);
    assert_eq!(out.len(), 6);
    let (q, end) = dec_pid(&out, 0).unwrap();
    assert_eq!(q, p);
    assert_eq!(end, 6);
}

#[test]
fn resources_round_trip() {
    let r = Resources { mem: Mem(128 * 1024 * 1024), cpu: Cpu(32768) };
    let mut out: Vec<u8> = Vec::new();
    enc_resources(&r, &mut out);
    assert_eq!(out.len(), 12);
    let (back, end) = dec_resources(&out, 0).unwrap();
    assert_eq!(back, r);
    assert_eq!(end, 12);
}

#[test]
fn decimal_render_exact() {
    let mut out: Vec<u8> = Vec::new();
    render_u64(0, &mut out);
    assert_eq!(out, b"0".to_vec());
    let mut out: Vec<u8> = Vec::new();
    render_u64(18446744073709551615, &mut out);
    assert_eq!(out, b"18446744073709551615".to_vec());
}

#[test]
fn decimal_parse_round_trip() {
    let buf = b"12345,".to_vec();
    let (v, end) = parse_u64(&buf, 0).unwrap();
    assert_eq!(v, 12345);
    assert_eq!(end, 5);
}

#[test]
fn decimal_parse_rejects_empty_and_overflow() {
    let buf = b"x1".to_vec();
    assert!(parse_u64(&buf, 0).is_none());
    let big = b"18446744073709551616".to_vec();
    assert!(parse_u64(&big, 0).is_none());
}

#[test]
fn resources_json_exact_text() {
    let r = Resources { mem: Mem(134217728), cpu: Cpu(32768) };
    let text = render_resources_json(&r);
    assert_eq!(text, b"{\"mem\":134217728,\"cpu\":32768}".to_vec());
}

#[test]
fn resources_json_round_trip() {
    let r = Resources { mem: Mem(0), cpu: Cpu(u32::MAX) };
    let text = render_resources_json(&r);
    assert_eq!(parse_resources_json(&text), Some(r));
}

#[test]
fn resources_json_rejects_noncanonical() {
    assert!(parse_resources_json(&b"{\"mem\":007,\"cpu\":1}".to_vec()).is_none());
    assert!(parse_resources_json(&b"{\"mem\":1,\"cpu\":1} ".to_vec()).is_none());
    assert!(parse_resources_json(&b"{\"cpu\":1,\"mem\":1}".to_vec()).is_none());
    assert!(parse_resources_json(&b"{\"mem\":1,\"cpu\":4294967296}".to_vec()).is_none());
}
