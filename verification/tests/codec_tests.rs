use powsim::codec::{push_bytes, push_u32_be, push_u64_be, write_array, write_u32};
use powsim::transport::MPSCTransport;

#[test]
fn integers_are_written_big_endian() {
    let mut out: Vec<u8> = Vec::new();
    push_u32_be(&mut out, 0x01020304);
    assert_eq!(vec![1u8, 2, 3, 4], out);

    let mut out: Vec<u8> = Vec::new();
    push_u64_be(&mut out, 0x0102030405060708);
    assert_eq!(vec![1u8, 2, 3, 4, 5, 6, 7, 8], out);

    let mut out: Vec<u8> = vec![9, 9];
    push_bytes(&mut out, &vec![7, 8]);
    assert_eq!(vec![9u8, 9, 7, 8], out);
}

#[test]
fn in_place_writes_replace_exactly_their_span() {
    let mut buffer: Vec<u8> = vec![0xaa; 8];
    write_u32(&mut buffer, 0x01020304, 2);
    assert_eq!(vec![0xaa, 0xaa, 1, 2, 3, 4, 0xaa, 0xaa], buffer);

    let mut buffer: Vec<u8> = vec![0xbb; 5];
    write_array(&mut buffer, &vec![1, 2], 3);
    assert_eq!(vec![0xbb, 0xbb, 0xbb, 1, 2], buffer);
}

#[test]
fn handshake_honours_only_awaited_acks() {
    let mut transport = MPSCTransport::new(3);
    transport.include_seed(1);
    transport.include_seed(5);

    let targets = transport.initiate();
    assert_eq!(vec![1, 5], targets);

    // an acknowledgement nobody asked for is ignored
    assert!(!transport.on_ack(2));

    // each awaited acknowledgement is honoured once
    assert!(transport.on_ack(5));
    assert!(!transport.on_ack(5));
    assert!(transport.on_ack(1));
    assert!(!transport.on_ack(1));

    // an incoming connection request is answered towards its sender
    assert_eq!(7, transport.on_init(7));
}
