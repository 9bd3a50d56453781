use ir::err_pipe::{ChannelError, ErrPipeRead};
use ir::fdio::{read_usize, write_str, write_usize};

#[test]
fn usize_is_eight_little_endian_bytes() {
    let mut out = Vec::new();
    write_usize(&mut out, 0x0102_0304);
    assert_eq!(out, vec![4, 3, 2, 1, 0, 0, 0, 0]);
    assert_eq!(read_usize(&out, 0), 0x0102_0304);
    let mut out = vec![9u8];
    write_usize(&mut out, usize::MAX);
    assert_eq!(read_usize(&out, 1), u64::MAX);
}

#[test]
fn frame_is_length_then_bytes() {
    let mut out = Vec::new();
    write_str(&mut out, "héllo");
    assert_eq!(out.len(), 8 + 6);
    assert_eq!(read_usize(&out, 0), 6);
    assert_eq!(&out[8..], "héllo".as_bytes());
}

#[test]
fn messages_arrive_in_order_across_splits() {
    let mut stream = Vec::new();
    write_str(&mut stream, "failed to set up fd 1: Bad file descriptor");
    write_str(&mut stream, "");
    write_str(&mut stream, "exec: /no/such: No such file or directory");
    for split in [1usize, 3, 8, 9, 13, 1024] {
        let mut reader = ErrPipeRead::new(5);
        assert_eq!(reader.get_fd(), 5);
        for chunk in stream.chunks(split) {
            assert_eq!(reader.read(chunk), Ok(false));
        }
        assert_eq!(reader.read(&[]), Ok(true));
        assert_eq!(
            reader.get_errors(),
            vec![
                "failed to set up fd 1: Bad file descriptor".to_string(),
                String::new(),
                "exec: /no/such: No such file or directory".to_string(),
            ]
        );
    }
}

#[test]
fn channel_ending_inside_a_frame_is_refused() {
    let mut stream = Vec::new();
    write_str(&mut stream, "cut short");
    let mut reader = ErrPipeRead::new(3);
    assert_eq!(reader.read(&stream[..10]), Ok(false));
    assert_eq!(reader.read(&[]), Err(ChannelError::Truncated));
    let mut reader = ErrPipeRead::new(3);
    assert_eq!(reader.read(&stream[..4]), Ok(false));
    assert_eq!(reader.read(&[]), Err(ChannelError::Truncated));
}

#[test]
fn invalid_utf8_message_is_decoded_lossily() {
    let mut stream = Vec::new();
    write_usize(&mut stream, 3);
    stream.extend_from_slice(&[b'o', 0xff, b'k']);
    let mut reader = ErrPipeRead::new(3);
    assert_eq!(reader.read(&stream), Ok(false));
    assert_eq!(reader.read(&[]), Ok(true));
    assert_eq!(reader.get_errors(), vec!["o\u{FFFD}k".to_string()]);
}
