use oicq4r::internal::highway::{
    HighwayUploadParameters,
    next_upload_frame, upload_ack, upload_total, CommandId, HighwayError, Transformer, UploadAction, UploadState,
};
use oicq4r::protocol::base_client::DataCenter;
use oicq4r::protocol::device::Platform;
use oicq4r::protocol::ecdh::ECDH;
use oicq4r::protocol::protobuf::{decode, ProtobufElement};

fn data() -> DataCenter {
    DataCenter::new(640279992, Platform::Android, None, ECDH::from_keys(vec![], [0; 16]))
}

#[test]
fn transformer_frames_each_chunk() {
    let d = data();
    let mut t = Transformer::from_parts(&d, CommandId::DmImage, 5, [1; 16], Some(b"tk".as_slice()), b"ext", false);
    assert_eq!(t.seq, 25102);
    assert_eq!(t.ticket, b"tk".to_vec());
    assert!(!t.ended());
    let packet = t.transform(b"hello");
    assert_eq!(packet[0], 40);
    assert_eq!(*packet.last().unwrap(), 41);
    let head_len = u32::from_be_bytes([packet[1], packet[2], packet[3], packet[4]]) as usize;
    let body_len = u32::from_be_bytes([packet[5], packet[6], packet[7], packet[8]]) as usize;
    assert_eq!(body_len, 5);
    assert_eq!(packet.len(), 1 + 8 + head_len + body_len + 1);
    assert_eq!(&packet[9 + head_len..9 + head_len + 5], b"hello");
    let mut head = decode(&packet[9..9 + head_len]).unwrap();
    let mut second = head.try_remove(&2).unwrap().try_into_object().unwrap();
    assert!(matches!(second.try_remove(&2), Ok(ProtobufElement::Integer(5))));
    assert!(matches!(second.try_remove(&4), Ok(ProtobufElement::Integer(5))));
    let digest = second.try_remove(&8).unwrap().try_into_bytes().unwrap();
    assert_eq!(digest, md5::compute(b"hello").0.to_vec());
    assert_eq!(t.seq, 25103);
    assert_eq!(t.transformed, 5);
    assert!(t.ended());
    assert!(t.transform(&[]).is_empty());
}

#[test]
fn transformer_seals_the_extension_when_asked() {
    let d = data();
    let t = Transformer::from_parts(&d, CommandId::GroupImage, 1, [0; 16], None, b"ext", true);
    assert_eq!(t.ext.len(), 16);
    assert!(t.ticket.is_empty());
    assert_eq!(CommandId::GroupImage.code(), 2);
}

#[test]
fn upload_goes_through_its_steps() {
    let d = data();
    let t = Transformer::from_parts(&d, CommandId::DmImage, 3, [0; 16], None, b"", false);
    let mut u = UploadState::new(t, Some(1000));
    assert_eq!(u.next_action(0), UploadAction::ReadChunk);
    u.take_chunk(b"abc");
    assert_eq!(u.next_action(10), UploadAction::Write);
    let n = u.queue.len();
    assert_eq!(u.written(n - 1), None);
    assert_eq!(u.written(1), Some((3, 3)));
    assert!(u.wait_response);
    assert_eq!(u.next_action(20), UploadAction::Finish);
    assert_eq!(u.next_action(1000), UploadAction::TimedOut);
    assert_eq!(HighwayError::UploadTimeout.describe(), "upload timeout.");
}

#[test]
fn the_receiving_end_reads_what_the_transformer_sends() {
    let d = data();
    let mut t = Transformer::from_parts(&d, CommandId::DmImage, 7, [2; 16], None, b"", false);
    let mut received = t.transform(b"abcdefg");
    let whole = received.len();
    received.extend([1, 2, 3]);
    let (head, chunk, len) = next_upload_frame(&received).unwrap();
    assert_eq!(chunk, b"abcdefg".to_vec());
    assert_eq!(len, whole);
    assert_eq!(upload_total(&head), Some(7));
    assert_eq!(next_upload_frame(&received[..whole - 1]), None);
}

#[test]
fn upload_ack_bytes() {
    assert_eq!(
        upload_ack(10, 0, 5),
        vec![0, 0, 0, 0, 10, 0, 0, 0, 0, 0x12, 0x06, 0x10, 0x0a, 0x18, 0x00, 0x20, 0x05, 0x18, 0x00, 0]
    );
    assert_eq!(upload_total(&[0x08, 0x01]), None);
}

struct Plain;

impl HighwayUploadParameters for Plain {
    fn command_id(&self) -> CommandId {
        CommandId::GroupImage
    }

    fn size(&self) -> u64 {
        3
    }

    fn md5(&self) -> [u8; 16] {
        [1; 16]
    }
}

#[test]
fn upload_parameters_defaults() {
    let p = Plain;
    assert!(matches!(p.ticket(), Err(HighwayError::TicketNotProvided)));
    assert!(matches!(p.ext(), Err(HighwayError::ExtNotProvided)));
    assert!(!p.encrypt());
    assert!(p.timeout().is_none());
    assert!(matches!(Transformer::new(&data(), &p), Err(HighwayError::ExtNotProvided)));
}
