use imap::command::IMAPCommand;
use imap::parser::IMAPResult;
use imap::response::ResponseReader;
use imap::stream::IMAPStream;

#[test]
fn create_new_imap_stream() {
    let imapstream = IMAPStream::new("imap.qq.com", 143);
    assert!(imapstream.host == "imap.qq.com");
    assert!(imapstream.port == 143);
}

#[test]
fn tags_increase_and_logout_resets() {
    let mut s = IMAPStream::new("example.test", 143);
    s.connected = true;
    let t1 = s.issue(IMAPCommand::Login);
    s.apply_result(IMAPCommand::Login, &IMAPResult::IMAPOk);
    assert!(s.authenticated);
    let t2 = s.issue(IMAPCommand::Select);
    s.apply_result(
        IMAPCommand::Select,
        &IMAPResult::IMAPFolder { recent: 0, exists: 0, uidvaildity: 0, uidnext: 0 },
    );
    assert!(s.selected);
    let t3 = s.issue(IMAPCommand::Fetch);
    assert_eq!((t1, t2, t3), (1, 2, 3));
    assert!(t1 < t2 && t2 < t3);
    let tl = s.logout();
    assert_eq!(tl, 4);
    assert_eq!(s.tag, 1);
    assert!(!s.authenticated);
    assert!(!s.selected);
    assert!(s.connected);
}

#[test]
fn disconnect_forces_all_flags_off() {
    let mut s = IMAPStream::new("example.test", 143);
    s.connected = true;
    s.issue(IMAPCommand::Login);
    s.apply_result(IMAPCommand::Login, &IMAPResult::IMAPOk);
    s.issue(IMAPCommand::Select);
    s.apply_result(
        IMAPCommand::Select,
        &IMAPResult::IMAPFolder { recent: 0, exists: 0, uidvaildity: 0, uidnext: 0 },
    );
    s.disconnect();
    assert!(!s.connected);
    assert!(!s.authenticated);
    assert!(!s.selected);
    assert_eq!(s.tag, 3);
}

#[test]
fn failed_login_leaves_unauthenticated() {
    let mut s = IMAPStream::new("example.test", 143);
    s.connected = true;
    s.issue(IMAPCommand::Login);
    s.apply_result(IMAPCommand::Login, &IMAPResult::IMAPNo);
    assert!(!s.authenticated);
    s.issue(IMAPCommand::Login);
    s.apply_result(IMAPCommand::Login, &IMAPResult::IMAPBad);
    assert!(!s.authenticated);
}

#[test]
fn reader_drives_select_response() {
    let mut rd = ResponseReader::new(IMAPCommand::Select);
    let bytes = b"* 5 EXISTS\r\n* 2 RECENT\r\n* OK [UIDVALIDITY 100]\r\n* OK [UIDNEXT 200]\r\na1 OK SELECT completed\r\n";
    let mut done = false;
    for &b in bytes.iter() {
        if rd.feed(b).unwrap() {
            done = true;
            break;
        }
    }
    assert!(done);
    assert!(rd.done());
    let resp = rd.into_response();
    assert_eq!(resp.lines.len(), 5);
    match resp.result {
        Some(IMAPResult::IMAPFolder { recent, exists, uidvaildity, uidnext }) => {
            assert_eq!(exists, 5);
            assert_eq!(recent, 2);
            assert_eq!(uidvaildity, 100);
            assert_eq!(uidnext, 200);
        },
        _ => panic!("expected a folder result"),
    }
}

#[test]
fn greeting_completes_on_first_line() {
    let mut rd = ResponseReader::new(IMAPCommand::Greeting);
    let bytes = b"* OK IMAP ready\r\n";
    let mut done = false;
    for &b in bytes.iter() {
        if rd.feed(b).unwrap() {
            done = true;
        }
    }
    assert!(done);
    let resp = rd.into_response();
    assert_eq!(resp.lines.len(), 1);
    assert!(matches!(resp.result, Some(IMAPResult::IMAPOk)));
}

#[test]
fn tagged_greeting_also_completes_immediately() {
    let mut rd = ResponseReader::new(IMAPCommand::Greeting);
    let mut done = false;
    for &b in b"a0 OK hello\r\n".iter() {
        if rd.feed(b).unwrap() {
            done = true;
        }
    }
    assert!(done);
    assert!(matches!(rd.into_response().result, Some(IMAPResult::IMAPOk)));
}
