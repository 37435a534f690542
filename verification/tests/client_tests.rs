use mpdox::client::{
    decode_batch, encode_batch, encode_command, find_add_command, find_command, list_tag_command,
    BatchDecodeError, BatchReply, Command, Session, SessionError,
};
use mpdox::codec::Reply;

fn lines(xs: &[&str]) -> Vec<Vec<u8>> {
    xs.iter().map(|s| s.as_bytes().to_vec()).collect()
}

fn cmd(verb: &str, args: &[&str]) -> Command {
    Command {
        verb: verb.as_bytes().to_vec(),
        args: args.iter().map(|a| a.as_bytes().to_vec()).collect(),
    }
}

#[test]
fn encode_plain_command() {
    assert_eq!(encode_command(&cmd("list", &["album"])), b"list album".to_vec());
}

#[test]
fn encode_quotes_arguments_with_spaces() {
    assert_eq!(
        encode_command(&cmd("find", &["album", "Dark Side"])),
        b"find album \"Dark Side\"".to_vec()
    );
}

#[test]
fn encode_batch_frames_commands() {
    let cmds = vec![cmd("play", &[]), cmd("stop", &[])];
    let framed = encode_batch(&cmds);
    assert_eq!(framed.len(), 4);
    assert_eq!(framed[0], b"command_list_ok_begin".to_vec());
    assert_eq!(framed[1], b"play".to_vec());
    assert_eq!(framed[2], b"stop".to_vec());
    assert_eq!(framed[3], b"command_list_end".to_vec());
}

#[test]
fn typed_commands_serialize_filters() {
    let filters = vec![(b"album".to_vec(), b"A".to_vec())];
    let c = list_tag_command(&b"title".to_vec(), &filters);
    assert_eq!(encode_command(&c), b"list title album A".to_vec());
    let filters2 = vec![
        (b"title".to_vec(), b"Song".to_vec()),
        (b"album".to_vec(), b"A".to_vec()),
    ];
    assert_eq!(encode_command(&find_command(&filters2)), b"find title Song album A".to_vec());
    assert_eq!(
        encode_command(&find_add_command(&filters2)),
        b"findadd title Song album A".to_vec()
    );
}

#[test]
fn batch_all_ok_holds_one_group_per_command() {
    let reply = lines(&["Album: A", "list_OK", "Album: B", "list_OK", "OK"]);
    match decode_batch(&reply, 2).unwrap() {
        BatchReply::AllOk(v) => {
            assert_eq!(v.len(), 2);
            assert_eq!(v[0][0][0].value, b"A".to_vec());
            assert_eq!(v[1][0][0].value, b"B".to_vec());
        }
        _ => panic!("expected all ok"),
    }
}

#[test]
fn batch_failure_identifies_failing_index() {
    // Command 2 of a 4-command batch fails: exactly the two completed
    // commands' results come back and the index names the failing step.
    let reply = lines(&[
        "Album: A",
        "list_OK",
        "Album: B",
        "list_OK",
        "ACK [50@2] {list} bad filter",
    ]);
    match decode_batch(&reply, 4).unwrap() {
        BatchReply::Failed { completed, ack } => {
            assert_eq!(completed.len(), 2);
            assert_eq!(ack.command_index, 2);
            assert_eq!(ack.code, 50);
        }
        _ => panic!("expected failure"),
    }
}

#[test]
fn batch_wrong_count_is_error() {
    let reply = lines(&["Album: A", "list_OK", "OK"]);
    assert_eq!(decode_batch(&reply, 2).unwrap_err(), BatchDecodeError::WrongCount);
}

#[test]
fn batch_trailing_lines_is_error() {
    let reply = lines(&["Album: A", "list_OK", "Album: B", "OK"]);
    assert_eq!(decode_batch(&reply, 1).unwrap_err(), BatchDecodeError::TrailingLines);
}

#[test]
fn batch_index_mismatch_is_error() {
    let reply = lines(&["Album: A", "list_OK", "ACK [50@0] {list} bad"]);
    assert_eq!(decode_batch(&reply, 3).unwrap_err(), BatchDecodeError::IndexMismatch);
    let reply2 = lines(&["ACK [50@0] {list} bad"]);
    assert_eq!(decode_batch(&reply2, 0).unwrap_err(), BatchDecodeError::IndexMismatch);
}

#[test]
fn session_admits_one_outstanding_request() {
    let mut s = Session::new();
    let wire = s.begin(cmd("list", &["album"])).unwrap();
    assert_eq!(wire, b"list album".to_vec());
    assert_eq!(s.begin(cmd("stop", &[])).unwrap_err(), SessionError::Busy);
    let reply = lines(&["Album: A", "OK"]);
    match s.complete(&reply).unwrap() {
        Reply::Records(rs) => assert_eq!(rs.len(), 1),
        _ => panic!("expected records"),
    }
    // The session is free again: a new request may begin.
    s.begin(cmd("stop", &[])).unwrap();
}
