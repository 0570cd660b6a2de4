use std::io::Write;
use std::collections::HashMap;

use oicq4r::protocol::base_client::{CommandType, DataCenter};
use oicq4r::protocol::device::{Platform, ShortDevice};
use oicq4r::protocol::ecdh::ECDH;
use oicq4r::protocol::error::CommonError;
use oicq4r::protocol::jce::{encode_wrapper, JceElement, JceObject};
use oicq4r::protocol::login::{
    build_verify_qrcode_body, decode_verify_qrcode, fetch_reply_decodable, scan_reply_decodable, QrcodeFetched,
};
use oicq4r::protocol::network::{
    decode_packet, inflate_outcome, next_frame, packet_decodable, parse_sso, sso_decodable, InflateStatus, LoginCommand, NetworkState, Request,
    UniCommand,
};
use oicq4r::protocol::session::{
    refresh_due_at, registration_result, time_diff_from, BeatStep, Connection, Heartbeater, ServerDirectory,
    Statistics,
};
use oicq4r::protocol::tea::{decrypt, decryptable, encrypt, TeaError};
use oicq4r::protocol::text::{decimal_string, hex_string};
use oicq4r::protocol::tlv::{read_tlv, TlvError, WriteTlvExt};
use oicq4r::protocol::writer::{write_bytes, write_u16, write_u32, write_u8};

const UIN: u32 = 640279992;
const SHARE_KEY: [u8; 16] = [7; 16];

fn data() -> DataCenter {
    assert!(ShortDevice::imei_fits(UIN));
    DataCenter::new(UIN, Platform::Android, None, ECDH::from_keys(vec![4, 5, 6], SHARE_KEY))
}

/// A reply as the server frames it: 16 bytes, the body sealed with the shared key, one byte.
fn sealed_reply(body: &[u8]) -> Vec<u8> {
    let mut p = vec![0u8; 16];
    p.extend(encrypt(body, &SHARE_KEY).unwrap());
    p.push(3);
    p
}

#[test]
fn tea_decrypt_gives_back_what_encrypt_sealed() {
    let key = [1u8, 2, 3, 4, 5, 6, 7, 8, 9, 10, 11, 12, 13, 14, 15, 16];
    for len in 0..20usize {
        let data: Vec<u8> = (0..len as u8).collect();
        let sealed = encrypt(&data, &key).unwrap();
        assert_eq!(sealed.len() % 8, 0);
        assert!(sealed.len() >= data.len() + 10);
        assert!(decryptable(&sealed, &key));
        assert_eq!(decrypt(&sealed, &key).unwrap(), data);
    }
}

#[test]
fn tea_rejects_bad_lengths_and_keys() {
    assert!(matches!(decrypt(&[1, 2, 3], &[0; 16]), Err(TeaError::InvalidLength)));
    let sealed = encrypt(b"hello", &[1; 16]).unwrap();
    let other = decrypt(&sealed, &[2; 16]);
    assert!(other.is_err() || other.unwrap() != b"hello".to_vec());
}

#[test]
fn tlv_read_gives_back_written_fields() {
    let mut buf = Vec::new();
    write_u16(&mut buf, 0x104);
    buf.write_tlv(b"abc");
    write_u16(&mut buf, 0x119);
    buf.write_tlv(&[]);
    write_u16(&mut buf, 0x104);
    buf.write_tlv(b"z");
    let m: HashMap<u16, Vec<u8>> = read_tlv(&buf).unwrap();
    assert_eq!(m.len(), 2);
    assert_eq!(m[&0x104], b"z".to_vec());
    assert_eq!(m[&0x119], Vec::<u8>::new());
}

#[test]
fn tlv_read_errors() {
    assert!(matches!(read_tlv(&[0, 1, 0]), Err(TlvError::UnexpectedEof)));
    assert!(matches!(read_tlv(&[0, 1, 0, 5, 1]), Err(TlvError::UnexpectedEof)));
    assert!(read_tlv(&[0]).unwrap().is_empty());
    assert_eq!(TlvError::TagNotExisted(0x119).describe(), "tag 0x:119 not existed");
}

#[test]
fn text_formats() {
    assert_eq!(decimal_string(0), "0");
    assert_eq!(decimal_string(640279992), "640279992");
    assert_eq!(hex_string(&[0x00, 0xab, 0x10]), "00ab10");
}

#[test]
fn common_error_texts() {
    assert_eq!(CommonError::TagNotExisted(0x119).describe(), "tag 0x119 not existed");
    assert_eq!(CommonError::UnsuccessfulRetcode(-10008).describe(), "unsuccessful retcode: -10008");
    assert_eq!(CommonError::NotConnected.describe(), "not connected");
    assert_eq!(CommonError::BadToken.describe(), "bad token");
}

#[test]
fn device_generation_is_deterministic() {
    assert!(!ShortDevice::imei_fits(999));
    let imei = ShortDevice::generate_imei(UIN);
    assert_eq!(imei.len(), 15);
    assert!(imei.chars().all(|c| c.is_ascii_digit()));
    assert!(imei.starts_with("35"));
    assert_eq!(imei, ShortDevice::generate_imei(UIN));
}

#[test]
fn request_sequence_and_commands() {
    let mut d = data();
    let seq = d.sig.seq;
    assert!(d.login_fits(&[1, 2, 3], Some(CommandType::Type0)));
    let req = d.build_login_request(LoginCommand::ClientCorrectTime, &[0, 0, 0, 0], Some(CommandType::Type0)).unwrap();
    assert_eq!(req.command(), "Client.CorrectTime");
    assert_eq!(req.seq(), if seq + 1 >= 0x8000 { 0 } else { seq + 1 });
    let payload = req.payload();
    assert_eq!(u32::from_be_bytes([payload[0], payload[1], payload[2], payload[3]]) as usize, payload.len());
    let uni = d.build_uni_request(UniCommand::OidbSvc, &[1, 2], None).unwrap();
    assert_eq!(uni.command(), "OidbSvc.0x480_9_IMCore");
}

#[test]
fn register_request_is_built() {
    let mut d = data();
    let req = d.build_register_request_at(false, 1_700_000_000).unwrap();
    assert_eq!(req.command(), "StatSvc.register");
    assert!(req.payload().len() > 155);
}

#[test]
fn token_login_is_always_refused() {
    let mut d = data();
    assert!(matches!(d.token_login_request(&[0u8; 144]), Err(CommonError::BadToken)));
    assert!(matches!(d.token_login_request(&[0u8; 10]), Err(CommonError::BadToken)));
}

#[test]
fn verify_qrcode_body_bytes() {
    let body = build_verify_qrcode_body(&[0xaa, 0xbb]);
    assert_eq!(
        body,
        vec![0, 5, 1, 0, 0, 0, 8, 0, 0, 0, 16, 0, 2, 0xaa, 0xbb, 0, 0, 0, 0, 0, 0, 0, 0, 8, 0, 0, 0, 0]
    );
}

#[test]
fn fetch_qrcode_reply_gives_the_image_and_keeps_the_signature() {
    let mut d = data();
    let mut body = vec![0u8; 54];
    write_u8(&mut body, 0); // return code
    write_u16(&mut body, 2);
    write_bytes(&mut body, b"qs");
    write_u16(&mut body, 0);
    write_u16(&mut body, 0x17);
    body.write_tlv(b"img");
    let payload = sealed_reply(&body);
    assert!(fetch_reply_decodable(&d, &payload));
    match d.decode_fetch_qrcode(&payload).unwrap() {
        QrcodeFetched::Image(image) => assert_eq!(image, b"img".to_vec()),
        other => panic!("unexpected {:?}", other),
    }
    assert_eq!(d.sig.qrsig, Some(b"qs".to_vec()));
}

#[test]
fn fetch_qrcode_reply_with_a_failure() {
    let mut d = data();
    let mut body = vec![0u8; 54];
    write_u8(&mut body, 5);
    write_u16(&mut body, 0);
    write_u16(&mut body, 0);
    let payload = sealed_reply(&body);
    match d.decode_fetch_qrcode(&payload).unwrap() {
        QrcodeFetched::Failed(e) => assert!(format!("{:?}", e).contains("5")),
        other => panic!("unexpected {:?}", other),
    }
    assert_eq!(d.sig.qrsig, None);
}

#[test]
fn verify_qrcode_reply_gives_the_fields() {
    let d = data();
    let mut body = vec![0u8; 48];
    write_u16(&mut body, 0); // no counted part
    write_u32(&mut body, 0);
    write_u8(&mut body, 0); // return code
    write_u32(&mut body, 0);
    write_u32(&mut body, UIN);
    write_bytes(&mut body, &[0; 6]);
    for (tag, v) in [(0x18u16, b"a".to_vec()), (0x19, b"b".to_vec()), (0x65, b"c".to_vec()), (0x1e, vec![9u8; 16])] {
        write_u16(&mut body, tag);
        body.write_tlv(&v);
    }
    let payload = sealed_reply(&body);
    assert!(scan_reply_decodable(&d, &payload));
    let s = decode_verify_qrcode(&d, &payload).unwrap().unwrap();
    assert_eq!(s.retcode, 0);
    assert_eq!(s.uin, UIN);
    assert_eq!(s.t106, b"a".to_vec());
    assert_eq!(s.t16a, b"b".to_vec());
    assert_eq!(s.t318, b"c".to_vec());
    assert_eq!(s.tgtgt, [9u8; 16]);
}

#[test]
fn sso_reply_is_read() {
    let mut buf = Vec::new();
    write_u32(&mut buf, 0); // head length, filled below
    write_u32(&mut buf, 77); // sequence
    write_u32(&mut buf, 0); // return code
    write_u32(&mut buf, 8); // offset of the command, from byte 12
    write_u32(&mut buf, 0); // skipped
    write_u32(&mut buf, 3);
    write_bytes(&mut buf, b"cmd");
    write_u32(&mut buf, 0);
    write_u32(&mut buf, 0); // flag
    let head_len = buf.len() as u32 - 4;
    buf[0..4].copy_from_slice(&head_len.to_be_bytes());
    write_bytes(&mut buf, b"payload");
    assert!(sso_decodable(&buf));
    let (seq, cmd, payload) = parse_sso(&buf).unwrap();
    assert_eq!(seq, 77);
    assert_eq!(cmd, "cmd");
    assert_eq!(payload, b"payload".to_vec());

    let mut packet = Vec::new();
    write_u32(&mut packet, 0);
    write_u8(&mut packet, 0); // not sealed
    write_u8(&mut packet, 0);
    write_u32(&mut packet, 4); // offset of the body from byte 6: the offset itself
    write_bytes(&mut packet, &buf);
    let d = data();
    assert!(packet_decodable(&d, &packet));
    let (seq, cmd, _) = decode_packet(&d, &packet).unwrap();
    assert_eq!((seq, cmd.as_str()), (77, "cmd"));
}

#[test]
fn sso_reply_with_error_code() {
    let mut buf = Vec::new();
    write_u32(&mut buf, 12);
    write_u32(&mut buf, 1);
    write_u32(&mut buf, (-10008i32) as u32);
    assert!(matches!(parse_sso(&buf), Err(CommonError::UnsuccessfulRetcode(-10008))));
}

#[test]
fn frames_are_cut_from_the_stream() {
    let mut ready = vec![0, 0, 0, 6, 0xa, 0xb, 0, 0];
    assert_eq!(next_frame(&mut ready), Some(vec![0xa, 0xb]));
    assert_eq!(ready, vec![0, 0]);
    let mut short = vec![0, 0, 0, 9, 1];
    assert_eq!(next_frame(&mut short), None);
    assert_eq!(short, vec![0, 0, 0, 9, 1]);
}

#[test]
fn server_time_difference() {
    assert_eq!(time_diff_from(&[0, 0, 0, 100], 40), Some(60));
    assert_eq!(time_diff_from(&[0xff, 0xff, 0xff, 0xff], 0), Some(-1));
    assert_eq!(time_diff_from(&[0, 0], 40), None);
    let mut d = data();
    d.sync_time_diff(&[0, 0]);
    assert_eq!(d.sig.time_diff, 0);
}

#[test]
fn registration_answer() {
    let reply = |flag: i8| {
        let inner = JceObject::from_pairs(vec![(9u8, JceElement::Int8(flag))]);
        encode_wrapper(vec![("SvcRespRegister".to_string(), JceElement::StructBegin(inner))], "s", "f", None).unwrap()
    };
    assert_eq!(registration_result(&reply(1), false), Ok(true));
    assert_eq!(registration_result(&reply(0), false), Ok(false));
    assert_eq!(registration_result(&reply(0), true), Ok(true));
    let bad = encode_wrapper(vec![("x".to_string(), JceElement::from_i64(3))], "s", "f", None).unwrap();
    assert_eq!(registration_result(&bad, false), Err(CommonError::IllegalData));
    // A zero is written as `Zero`, which is not the 8-bit integer the answer must hold.
    let zero = JceObject::from_pairs(vec![(9u8, JceElement::from_i64(0))]);
    let zero = encode_wrapper(vec![("r".to_string(), JceElement::StructBegin(zero))], "s", "f", None).unwrap();
    assert_eq!(registration_result(&zero, true), Err(CommonError::IllegalData));
}

#[test]
fn heartbeats_lose_the_connection_after_two_misses() {
    let mut h = Heartbeater::new();
    assert_eq!(h.after_beat(false), BeatStep::Retry);
    assert_eq!(h.after_beat(true), BeatStep::Refresh);
    assert_eq!(h.retried, 0);
    assert_eq!(h.after_beat(false), BeatStep::Retry);
    assert_eq!(h.after_beat(false), BeatStep::Lost);
    assert!(refresh_due_at(20000, 5000));
    assert!(!refresh_due_at(18999, 5000));
    let d = data();
    assert_eq!(d.token_refresh_due(d.sig.emp_time + 14000), Some(true));
}

#[test]
fn connection_states() {
    let mut c = Connection::new();
    assert_eq!(c.check_connected(), Err(CommonError::NotConnected));
    assert_eq!(c.begin_disconnect(), Err(CommonError::NotConnected));
    assert_eq!(c.begin_connect(), Ok(()));
    assert_eq!(c.begin_connect(), Err(CommonError::AlreadyConnected));
    c.connected();
    assert_eq!(c.check_connected(), Ok(()));
    assert_eq!(c.reader_ended(), vec![NetworkState::Closed, NetworkState::Lost]);
    let mut c = Connection::new();
    c.begin_connect().unwrap();
    c.connected();
    c.begin_disconnect().unwrap();
    assert_eq!(c.reader_ended(), vec![NetworkState::Closed]);
    assert_eq!(c.state, NetworkState::Closed);
}

#[test]
fn statistics_follow_the_connection() {
    let mut s = Statistics::new();
    assert!(!s.on_state(NetworkState::Connected, Some("1.2.3.4:8080".to_string())));
    assert_eq!(s.remote_socket_addr.as_deref(), Some("1.2.3.4:8080"));
    assert!(s.on_state(NetworkState::Lost, None));
    assert_eq!(s.lost_times, 1);
    assert!(!s.on_state(NetworkState::Closed, None));
    assert_eq!(s.remote_socket_addr, None);
}

#[test]
fn server_directory_choice() {
    let mut dir = ServerDirectory::new();
    assert!(dir.needs_update(100));
    assert_eq!(dir.target(), ("msfwifi.3g.qq.com".to_string(), 8080));
    dir.accept(vec![("a.example".to_string(), 80)], 100);
    assert!(!dir.needs_update(3699));
    assert!(dir.needs_update(3700));
    assert_eq!(dir.target(), ("a.example".to_string(), 80));
    dir.accept(vec![], 5000);
    assert_eq!(dir.last_update, Some(100));
}

#[test]
fn sso_reply_with_a_whole_zlib_stream() {
    let mut encoder = flate2::write::ZlibEncoder::new(Vec::new(), flate2::Compression::default());
    encoder.write_all(b"payload").unwrap();
    let compressed = encoder.finish().unwrap();
    let mut buf = Vec::new();
    write_u32(&mut buf, 0);
    write_u32(&mut buf, 77);
    write_u32(&mut buf, 0);
    write_u32(&mut buf, 8);
    write_u32(&mut buf, 0);
    write_u32(&mut buf, 3);
    write_bytes(&mut buf, b"cmd");
    write_u32(&mut buf, 0);
    write_u32(&mut buf, 1); // flag: compressed
    let head_len = buf.len() as u32 - 4;
    buf[0..4].copy_from_slice(&head_len.to_be_bytes());
    write_bytes(&mut buf, &compressed);
    assert!(sso_decodable(&buf));
    // A stream that ends within the room given is reported as its end, as the client always did.
    assert!(matches!(parse_sso(&buf), Err(CommonError::DecompressStreamEnd)));
    assert_eq!(CommonError::DecompressStreamEnd.describe(), "decompress stream error");
}

#[test]
fn cipher_error_texts() {
    assert!(matches!(decrypt(&[0u8; 7], &[0; 16]), Err(TeaError::InvalidLength)));
    assert_eq!(CommonError::Tea(TeaError::InvalidLength).describe(), "length of encrypted data must be a multiple of 8");
    assert_eq!(CommonError::Tea(TeaError::IllegalData).describe(), "encrypted data is illegal");
    assert_eq!(CommonError::DecompressBufError.describe(), "decompress buf error");
}

#[test]
fn inflation_status_decides_the_payload() {
    assert_eq!(inflate_outcome(Some(InflateStatus::Progressed), vec![1, 2]).unwrap(), vec![1, 2]);
    assert!(matches!(inflate_outcome(Some(InflateStatus::BufError), vec![1]), Err(CommonError::DecompressBufError)));
    assert!(matches!(inflate_outcome(Some(InflateStatus::StreamEnd), vec![1]), Err(CommonError::DecompressStreamEnd)));
    assert!(matches!(inflate_outcome(None, vec![]), Err(CommonError::DecompressFailed)));
}
