use gaze::connection::ConnectionStatus;
use gaze::protocol::command::Command;
use gaze::protocol::out::{ack, extend_bytes, nack, publish};
use gaze::protocol::reader::{copy_range, decode_frame, Frame, Request};
use gaze::protocol::types::Command as ClientCommand;
use gaze::protocol::writer::{
    command_frame, message_ack_frame, message_id, message_nack_frame, relay_frame, relay_id_at, relay_id_from, size_frame,
};

#[test]
fn command_bytes_roundtrip() {
    let all = [
        Command::Message,
        Command::SubscriptionMessage,
        Command::Subscription,
        Command::MessageAck,
        Command::MessageNack,
        Command::Schema,
        Command::SchemaOffer,
        Command::SchemaNeeded,
        Command::NoSchema,
    ];
    for c in all {
        assert_eq!(Command::try_from(c.as_byte()), Ok(c));
    }
    assert_eq!(Command::Message.as_byte(), 0x12);
    assert_eq!(Command::NoSchema.as_byte(), 0x11);
}

#[test]
fn unknown_command_byte_is_refused() {
    assert_eq!(
        Command::try_from(0xff),
        Err("Cannot convert u8 to Command: byte not valid")
    );
    assert_eq!(
        Command::try_from(0x00),
        Err("Cannot convert u8 to Command: byte not valid")
    );
}

#[test]
fn client_command_bytes() {
    assert_eq!(ClientCommand::Publish.as_byte(), 0x07);
    assert_eq!(ClientCommand::Subscribe.as_byte(), 0x05);
    assert_eq!(ClientCommand::Ack.as_byte(), 0x06);
    assert_eq!(ClientCommand::Nack.as_byte(), 0x15);
}

#[test]
fn client_frames() {
    assert_eq!(publish(&[1, 2], b"hi"), vec![0x07, 1, 2, b'h', b'i']);
    assert_eq!(ack(&[9, 8]), vec![0x05, 9, 8]);
    assert_eq!(nack(&[9, 8]), vec![0x05, 9, 8]);
    let mut dst = vec![1];
    extend_bytes(&mut dst, &[2, 3]);
    assert_eq!(dst, vec![1, 2, 3]);
}

#[test]
fn server_frames() {
    assert_eq!(command_frame(Command::Schema), vec![0x08]);
    assert_eq!(message_ack_frame(&[1, 2, 3]), vec![0x03, 1, 2, 3]);
    assert_eq!(message_nack_frame(&[1, 2, 3]), vec![0x04, 1, 2, 3]);
    assert_eq!(size_frame(5), vec![5, 0, 0, 0]);
    assert_eq!(size_frame(0x1_0000_0001), vec![1, 0, 0, 0]);
}

#[test]
fn relay_id_from_time_and_random_bytes() {
    let id = message_id(0x0807_0605_0403_0201, &[0x01, 0x02, 0x03]);
    assert_eq!(id, [0xfd, 0x03, 0x05, 0x06, 0x07, 0x08]);
}

#[test]
fn relay_frame_layout() {
    let frame = relay_frame(&[1, 2, 3, 4, 5, 6], &[7, 7, 7, 7], &[9, 9, 9, 9], b"ab");
    assert_eq!(
        frame,
        vec![0x13, 1, 2, 3, 4, 5, 6, 7, 7, 7, 7, 9, 9, 9, 9, 2, 0, 0, 0, b'a', b'b']
    );
}

#[test]
fn copying_a_range() {
    assert_eq!(copy_range(&[1, 2, 3, 4], 1, 3), vec![2, 3]);
    assert_eq!(copy_range(&[1, 2, 3, 4], 2, 2), Vec::<u8>::new());
}

#[test]
fn decoding_a_message_frame() {
    let buf = [0x12, 1, 2, 3, 4, 5, 6, 10, 11, 12, 13, 3, 0, 0, 0, b'a', b'b', b'c', 0x99];
    match decode_frame(&buf) {
        Frame::Complete(Request::Message { id, message_type, message }, n) => {
            assert_eq!(n, 18);
            assert_eq!(id, [1, 2, 3, 4, 5, 6]);
            assert_eq!(message_type, [10, 11, 12, 13]);
            assert_eq!(message, b"abc".to_vec());
        }
        _ => panic!("expected a message"),
    }
}

#[test]
fn decoding_incomplete_frames() {
    assert!(matches!(decode_frame(&[]), Frame::Incomplete(1)));
    assert!(matches!(decode_frame(&[0x12, 1, 2]), Frame::Incomplete(15)));
    let buf = [0x12, 1, 2, 3, 4, 5, 6, 10, 11, 12, 13, 3, 0, 0, 0, b'a'];
    assert!(matches!(decode_frame(&buf), Frame::Incomplete(18)));
    assert!(matches!(decode_frame(&[0x08, 1, 2]), Frame::Incomplete(9)));
    assert!(matches!(decode_frame(&[0x10, 1]), Frame::Incomplete(5)));
}

#[test]
fn decoding_unknown_and_ending_frames() {
    assert!(matches!(decode_frame(&[0xff, 1]), Frame::UnknownCommand(0xff)));
    assert!(matches!(decode_frame(&[0x03]), Frame::Complete(Request::End, 1)));
    assert!(matches!(decode_frame(&[0x13, 4, 4]), Frame::Complete(Request::End, 1)));
}

#[test]
fn decoding_schema_frames() {
    let buf = [0x08, 1, 2, 3, 4, 2, 0, 0, 0, b'{', b'}'];
    match decode_frame(&buf) {
        Frame::Complete(Request::Schema { message_type, schema }, n) => {
            assert_eq!(n, 11);
            assert_eq!(message_type, [1, 2, 3, 4]);
            assert_eq!(schema, b"{}".to_vec());
        }
        _ => panic!("expected a schema"),
    }
    match decode_frame(&[0x10, 5, 6, 7, 8, 0]) {
        Frame::Complete(Request::SchemaNeeded { message_type }, n) => {
            assert_eq!(n, 5);
            assert_eq!(message_type, [5, 6, 7, 8]);
        }
        _ => panic!("expected a schema request"),
    }
}

#[test]
fn decoding_a_subscription_frame() {
    let buf = [0x02, 1, 0, 0, 0, 0, 0, 7, 7, 7, 7, 2, 0, 0, 0, b'[', b']'];
    match decode_frame(&buf) {
        Frame::Complete(Request::Subscription { offset, subscription_id, filter }, n) => {
            assert_eq!(n, 17);
            assert_eq!(offset, 65536);
            assert_eq!(subscription_id, [7, 7, 7, 7]);
            assert_eq!(filter, b"[]".to_vec());
        }
        _ => panic!("expected a subscription"),
    }
}

#[test]
fn connection_status_values() {
    assert_ne!(ConnectionStatus::Keep, ConnectionStatus::End);
}

#[test]
fn fresh_relay_ids_carry_the_marker_bits() {
    let id = gaze::protocol::writer::new_message_id().unwrap();
    assert_eq!(id[0] & 0xfc, 0xfc);
    let other = gaze::protocol::writer::new_message_id().unwrap();
    assert_eq!(other[0] & 0xfc, 0xfc);
}

#[test]
fn relay_ids_from_clock_readings() {
    let nanos: u128 = 0x0807_0605_0403_0201 * 1_000_000 + 999_999;
    assert_eq!(relay_id_at(nanos, &[0x01, 0x02, 0x03]), [0xfd, 0x03, 0x05, 0x06, 0x07, 0x08]);
    assert_eq!(relay_id_from(Some(nanos), &[0x01, 0x02, 0x03]), Some([0xfd, 0x03, 0x05, 0x06, 0x07, 0x08]));
    assert_eq!(relay_id_from(None, &[0x01, 0x02, 0x03]), None);
}
