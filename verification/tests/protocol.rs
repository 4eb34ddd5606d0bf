use paranoid_pirate::protocol::HEARTBEAT_BYTE;
use paranoid_pirate::protocol::READY_BYTE;
use paranoid_pirate::protocol::bytes_eq;
use paranoid_pirate::protocol::copy_bytes;
use paranoid_pirate::protocol::empty_frame;
use paranoid_pirate::protocol::frame_is_empty;
use paranoid_pirate::protocol::frame_is_heartbeat;
use paranoid_pirate::protocol::frame_is_ready;
use paranoid_pirate::protocol::heartbeat_frame;
use paranoid_pirate::protocol::heartbeat_msg;
use paranoid_pirate::protocol::ready_frame;
use paranoid_pirate::protocol::route_to_worker_frames;
use paranoid_pirate::protocol::strip_first_frame;

#[test]
fn control_frames_are_single_bytes() {
    assert_eq!(ready_frame(), vec![READY_BYTE]);
    assert_eq!(heartbeat_frame(), vec![HEARTBEAT_BYTE]);
    assert_eq!(empty_frame(), Vec::<u8>::new());
    assert_eq!(READY_BYTE, 0x01);
    assert_eq!(HEARTBEAT_BYTE, 0x02);
}

#[test]
fn frame_classification() {
    assert!(frame_is_ready(&vec![0x01]));
    assert!(!frame_is_ready(&vec![0x02]));
    assert!(!frame_is_ready(&vec![0x01, 0x01]));
    assert!(!frame_is_ready(&vec![]));
    assert!(frame_is_heartbeat(&vec![0x02]));
    assert!(!frame_is_heartbeat(&vec![0x01]));
    assert!(frame_is_empty(&vec![]));
    assert!(!frame_is_empty(&vec![0]));
}

#[test]
fn routing_prepends_identity_and_delimiter() {
    let env = vec![b"client".to_vec(), vec![], b"body".to_vec()];
    let routed = route_to_worker_frames(b"w1".to_vec(), env);
    assert_eq!(
        routed,
        vec![
            b"w1".to_vec(),
            vec![],
            b"client".to_vec(),
            vec![],
            b"body".to_vec()
        ]
    );
}

#[test]
fn stripping_drops_only_the_first_frame() {
    let msg = vec![vec![], b"client".to_vec(), vec![], b"body".to_vec()];
    let stripped = strip_first_frame(msg);
    assert_eq!(
        stripped,
        vec![b"client".to_vec(), vec![], b"body".to_vec()]
    );
}

#[test]
fn heartbeat_message_shape() {
    let msg = heartbeat_msg(b"w9".to_vec());
    assert_eq!(msg, vec![b"w9".to_vec(), vec![], vec![0x02]]);
}

#[test]
fn byte_tokens_compare_and_copy() {
    assert!(bytes_eq(&b"abc".to_vec(), &b"abc".to_vec()));
    assert!(!bytes_eq(&b"abc".to_vec(), &b"abd".to_vec()));
    assert!(!bytes_eq(&b"abc".to_vec(), &b"ab".to_vec()));
    assert!(bytes_eq(&vec![], &vec![]));
    let original = vec![0u8, 255, 7];
    let copy = copy_bytes(&original);
    assert_eq!(copy, original);
}
