use mpdox::codec::{decode, DecodeError, Reply};

fn lines(xs: &[&str]) -> Vec<Vec<u8>> {
    xs.iter().map(|s| s.as_bytes().to_vec()).collect()
}

#[test]
fn decode_single_record() {
    let r = decode(&lines(&["Album: A", "Album: B", "OK"])).unwrap();
    match r {
        Reply::Records(rs) => {
            assert_eq!(rs.len(), 2);
            assert_eq!(rs[0].len(), 1);
            assert_eq!(rs[0][0].name, b"Album".to_vec());
            assert_eq!(rs[0][0].value, b"A".to_vec());
            assert_eq!(rs[1][0].value, b"B".to_vec());
        }
        _ => panic!("expected records"),
    }
}

#[test]
fn decode_record_boundaries_on_repeat() {
    let r = decode(&lines(&[
        "file: a.flac",
        "Title: One",
        "file: b.flac",
        "Title: Two",
        "OK",
    ]))
    .unwrap();
    match r {
        Reply::Records(rs) => {
            assert_eq!(rs.len(), 2);
            assert_eq!(rs[0].len(), 2);
            assert_eq!(rs[0][1].value, b"One".to_vec());
            assert_eq!(rs[1][0].value, b"b.flac".to_vec());
            assert_eq!(rs[1][1].value, b"Two".to_vec());
        }
        _ => panic!("expected records"),
    }
}

#[test]
fn decode_empty_success() {
    let r = decode(&lines(&["OK"])).unwrap();
    match r {
        Reply::Records(rs) => assert_eq!(rs.len(), 0),
        _ => panic!("expected records"),
    }
}

#[test]
fn decode_value_with_colon() {
    let r = decode(&lines(&["Title: a: b", "OK"])).unwrap();
    match r {
        Reply::Records(rs) => {
            assert_eq!(rs[0][0].name, b"Title".to_vec());
            assert_eq!(rs[0][0].value, b"a: b".to_vec());
        }
        _ => panic!("expected records"),
    }
}

#[test]
fn decode_ack_fields() {
    let r = decode(&lines(&["ACK [50@1] {play} No such song"])).unwrap();
    match r {
        Reply::Failure(a) => {
            assert_eq!(a.code, 50);
            assert_eq!(a.command_index, 1);
            assert_eq!(a.verb, b"play".to_vec());
            assert_eq!(a.message, b"No such song".to_vec());
        }
        _ => panic!("expected failure"),
    }
}

#[test]
fn decode_ack_after_records() {
    let r = decode(&lines(&["Album: A", "ACK [2@0] {list} boom"])).unwrap();
    match r {
        Reply::Failure(a) => {
            assert_eq!(a.code, 2);
            assert_eq!(a.command_index, 0);
            assert_eq!(a.verb, b"list".to_vec());
        }
        _ => panic!("expected failure"),
    }
}

#[test]
fn decode_malformed_line_is_error() {
    let r = decode(&lines(&["Album: A", "garbage", "OK"]));
    assert_eq!(r.unwrap_err(), DecodeError::MalformedLine(1));
}

#[test]
fn decode_missing_terminator_is_error() {
    assert_eq!(
        decode(&lines(&["Album: A"])).unwrap_err(),
        DecodeError::MissingTerminator
    );
    assert_eq!(decode(&lines(&[])).unwrap_err(), DecodeError::MissingTerminator);
}

#[test]
fn decode_malformed_ack_is_error() {
    assert_eq!(
        decode(&lines(&["ACK nonsense"])).unwrap_err(),
        DecodeError::MalformedAck
    );
}

#[test]
fn decode_ack_overlong_numeral_is_error() {
    assert_eq!(
        decode(&lines(&["ACK [1234567890@0] {x} y"])).unwrap_err(),
        DecodeError::MalformedAck
    );
}

#[test]
fn decode_empty_name_is_error() {
    assert_eq!(
        decode(&lines(&[": v", "OK"])).unwrap_err(),
        DecodeError::MalformedLine(0)
    );
}
