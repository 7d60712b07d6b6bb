use wsvc::packet::{
    is_fingerprint_name, is_single_component, recv_data, recv_file, send_data, send_file,
    FileReader, FileStage, PacketReader,
};
use wsvc::WsvcError;

fn sample(len: usize) -> Vec<u8> {
    (0..len).map(|i| (i % 253) as u8).collect()
}

#[test]
fn a_packet_starts_with_magic_and_big_endian_length() {
    let messages = send_data(&sample(0x0001_0203)).unwrap();
    assert_eq!(messages[0], vec![0x33, 0x07, 0x00, 0x01, 0x02, 0x03]);
}

#[test]
fn a_packet_is_cut_into_messages_of_16384_bytes() {
    let data = sample(16384 * 2 + 5);
    let messages = send_data(&data).unwrap();
    assert_eq!(messages.len(), 4);
    assert_eq!(messages[1].len(), 16384);
    assert_eq!(messages[2].len(), 16384);
    assert_eq!(messages[3].len(), 5);
    assert_eq!(messages[1..].concat(), data);
    assert_eq!(send_data(&sample(16384)).unwrap().len(), 2);
    assert_eq!(send_data(&[]).unwrap(), vec![vec![0x33, 0x07, 0, 0, 0, 0]]);
}

#[test]
fn what_is_sent_as_a_packet_is_received() {
    for len in [0usize, 1, 6, 16383, 16384, 16385, 50000] {
        let data = sample(len);
        let messages = send_data(&data).unwrap();
        let mut reader = PacketReader::new();
        let last = messages.len() - 1;
        for (i, message) in messages.iter().enumerate() {
            let got = recv_data(&mut reader, message).unwrap();
            if i < last {
                assert!(got.is_none());
            } else {
                assert_eq!(got, Some(data.clone()));
            }
        }
        assert!(reader.expected.is_none());
        assert!(reader.data.is_empty());
    }
}

#[test]
fn payload_may_follow_the_header_in_its_message() {
    let mut reader = PacketReader::new();
    let got = recv_data(&mut reader, &[0x33, 0x07, 0, 0, 0, 3, 1, 2, 3]).unwrap();
    assert_eq!(got, Some(vec![1, 2, 3]));
    let mut reader = PacketReader::new();
    assert_eq!(recv_data(&mut reader, &[0x33, 0x07, 0, 0, 0, 3, 1]).unwrap(), None);
    assert_eq!(reader.expected, Some(3));
    assert_eq!(recv_data(&mut reader, &[2, 3]).unwrap(), Some(vec![1, 2, 3]));
}

#[test]
fn a_wrong_packet_header_is_refused() {
    for bad in [vec![0x33, 0x08, 0, 0, 0, 0], vec![0x34, 0x07, 0, 0, 0, 0], vec![0x33, 0x07, 0], vec![]] {
        let mut reader = PacketReader::new();
        match recv_data(&mut reader, &bad) {
            Err(WsvcError::DataError(message)) => assert_eq!(message, "invalid packet header"),
            other => panic!("unexpected: {:?}", other),
        }
    }
}

fn name() -> Vec<u8> {
    b"00112233445566778899aabbccddeeff00112233445566778899aabbccddeeff".to_vec()
}

#[test]
fn a_file_is_name_header_name_file_header_and_content() {
    let data = sample(16384 + 7);
    let messages = send_file(&name(), &data).unwrap();
    assert_eq!(messages[0], vec![0x09, 0x28, 0x00, 0x40]);
    assert_eq!(messages[1], name());
    assert_eq!(messages[2], vec![0x07, 0x15, 0x00, 0x00, 0x40, 0x07]);
    assert_eq!(messages[3].len(), 16384);
    assert_eq!(messages[4].len(), 7);
    assert_eq!(messages.len(), 5);
}

#[test]
fn a_file_name_longer_than_a_message_is_too_long() {
    match send_file(&vec![b'a'; 16385], b"x") {
        Err(WsvcError::DataError(message)) => assert_eq!(message, "file name too long"),
        other => panic!("unexpected: {:?}", other),
    }
}

#[test]
fn the_name_of_a_file_content_is_the_hexadecimal_form_of_a_fingerprint() {
    assert!(is_fingerprint_name(&name()));
    assert!(is_single_component(&name()));
    let mut upper = name();
    upper[10] = b'A';
    let mut slash = name();
    slash[0] = b'/';
    for bad in [
        b"../../HEAD".to_vec(),
        b"abc".to_vec(),
        vec![],
        vec![b'a'; 63],
        vec![b'a'; 65],
        vec![b'g'; 64],
        upper,
        slash,
    ] {
        assert!(!is_fingerprint_name(&bad));
    }
}

#[test]
fn a_file_name_is_a_single_path_component() {
    let mut dotted = name();
    dotted[0] = b'.';
    dotted[1] = b'.';
    for good in [
        b"f".to_vec(),
        b"hello.txt".to_vec(),
        b"...".to_vec(),
        b".hidden".to_vec(),
        b"a b".to_vec(),
        b"back\\slash".to_vec(),
        vec![0xff, 0x00, 0x80],
        vec![b'a'; 16384],
        name(),
        dotted,
    ] {
        assert!(is_single_component(&good));
        let messages = send_file(&good, b"xy").unwrap();
        assert_eq!(messages.len(), 4);
        assert_eq!(
            messages[0],
            vec![0x09, 0x28, (good.len() / 256) as u8, (good.len() % 256) as u8]
        );
        assert_eq!(messages[1], good);
        assert_eq!(messages[2], vec![0x07, 0x15, 0, 0, 0, 2]);
        assert_eq!(messages[3], b"xy".to_vec());
    }
    for bad in [
        vec![],
        b".".to_vec(),
        b"..".to_vec(),
        b"/".to_vec(),
        b"a/b".to_vec(),
        b"../../HEAD".to_vec(),
        b"/etc/passwd".to_vec(),
        b"dir/".to_vec(),
    ] {
        assert!(!is_single_component(&bad));
        match send_file(&bad, b"x") {
            Err(WsvcError::DataError(message)) => assert_eq!(message, "invalid file name"),
            other => panic!("unexpected: {:?}", other),
        }
    }
    assert!(!is_single_component(&vec![b'a'; 16385]));
}

#[test]
fn an_empty_file_under_a_short_name_is_complete_with_its_header() {
    let mut reader = FileReader::new();
    assert!(recv_file(&mut reader, &[0x09, 0x28, 0x00, 0x01]).unwrap().is_none());
    assert!(recv_file(&mut reader, b"f").unwrap().is_none());
    let file = recv_file(&mut reader, &[0x07, 0x15, 0x00, 0x00, 0x00, 0x00]).unwrap().unwrap();
    assert_eq!(file.name, b"f".to_vec());
    assert!(file.data.is_empty());
    // the reader is ready for the next file
    assert_eq!(reader.stage, FileStage::NameHeader);
    assert!(recv_file(&mut reader, &[0x09, 0x28, 0x00, 0x01]).unwrap().is_none());
    assert_eq!(reader.stage, FileStage::Name);
}

#[test]
fn a_received_name_that_is_no_single_path_component_is_refused() {
    for bad in [
        b"../../HEAD".to_vec(),
        b"/abs".to_vec(),
        b"a/b".to_vec(),
        b".".to_vec(),
        b"..".to_vec(),
        vec![],
        vec![b'a'; 16385],
    ] {
        let mut reader = FileReader::new();
        let header = vec![0x09, 0x28, (bad.len() / 256) as u8, (bad.len() % 256) as u8];
        assert!(recv_file(&mut reader, &header).unwrap().is_none());
        match recv_file(&mut reader, &bad) {
            Err(WsvcError::DataError(message)) => assert_eq!(message, "invalid file name"),
            other => panic!("unexpected: {:?}", other),
        }
        assert_eq!(reader.stage, FileStage::Name);
        assert!(reader.name.is_empty());
    }
    // a reader that was handed a name from elsewhere does not pass it on
    let mut reader = FileReader::new();
    reader.stage = FileStage::FileHeader;
    reader.name = b"../escape".to_vec();
    match recv_file(&mut reader, &[0x07, 0x15, 0, 0, 0, 0]) {
        Err(WsvcError::DataError(message)) => assert_eq!(message, "invalid file name"),
        other => panic!("unexpected: {:?}", other),
    }
    let mut reader = FileReader::new();
    reader.stage = FileStage::Content;
    reader.name = b"..".to_vec();
    reader.size = 1;
    match recv_file(&mut reader, &[7]) {
        Err(WsvcError::DataError(message)) => assert_eq!(message, "invalid file name"),
        other => panic!("unexpected: {:?}", other),
    }
}

#[test]
fn what_is_sent_as_a_file_is_received() {
    for (len, name) in [
        (0usize, name()),
        (1, b"f".to_vec()),
        (16384, b"hello.txt".to_vec()),
        (16385, vec![b'n'; 16384]),
        (40000, name()),
    ] {
        let data = sample(len);
        let messages = send_file(&name, &data).unwrap();
        let mut reader = FileReader::new();
        let last = messages.len() - 1;
        for (i, message) in messages.iter().enumerate() {
            let got = recv_file(&mut reader, message).unwrap();
            if i < last {
                assert!(got.is_none());
            } else {
                let file = got.unwrap();
                assert_eq!(file.name, name);
                assert_eq!(file.data, data);
            }
        }
        assert_eq!(reader.stage, FileStage::NameHeader);
    }
}

#[test]
fn wrong_file_messages_are_refused() {
    let mut reader = FileReader::new();
    match recv_file(&mut reader, &[0x09, 0x29, 0, 1]) {
        Err(WsvcError::DataError(message)) => assert_eq!(message, "invalid file name header"),
        other => panic!("unexpected: {:?}", other),
    }
    assert!(recv_file(&mut reader, &[0x09, 0x28, 0, 64]).unwrap().is_none());
    // shorter than announced
    match recv_file(&mut reader, b"abc") {
        Err(WsvcError::DataError(message)) => assert_eq!(message, "invalid file name"),
        other => panic!("unexpected: {:?}", other),
    }
    let mut longer = name();
    longer.extend_from_slice(b"tail");
    assert!(recv_file(&mut reader, &longer).unwrap().is_none());
    assert_eq!(reader.name, name());
    match recv_file(&mut reader, &[0x07, 0x16, 0, 0, 0, 1]) {
        Err(WsvcError::DataError(message)) => assert_eq!(message, "invalid file header"),
        other => panic!("unexpected: {:?}", other),
    }
    assert!(recv_file(&mut reader, &[0x07, 0x15, 0, 0, 0, 2]).unwrap().is_none());
    match recv_file(&mut reader, &[1, 2, 3]) {
        Err(WsvcError::DataError(message)) => assert_eq!(message, "invalid file data"),
        other => panic!("unexpected: {:?}", other),
    }
    assert!(recv_file(&mut reader, &[1]).unwrap().is_none());
    let file = recv_file(&mut reader, &[2]).unwrap().unwrap();
    assert_eq!(file.data, vec![1, 2]);
}
