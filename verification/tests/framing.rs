use imap::command::IMAPCommand;
use imap::error::IMAPError;
use imap::framer::Framer;
use imap::line::IMAPLine;

#[test]
fn framer_splits_crlf_lines() {
    let mut f = Framer::new();
    let bytes = b"* OK ready\r\na1 OK done\r\n";
    let mut frames: Vec<Vec<u8>> = Vec::new();
    for &b in bytes.iter() {
        if let Some(fr) = f.push_byte(b) {
            frames.push(fr);
        }
    }
    assert_eq!(frames.len(), 2);
    assert_eq!(frames[0], b"* OK ready".to_vec());
    assert_eq!(frames[1], b"a1 OK done".to_vec());
}

#[test]
fn lone_cr_does_not_split() {
    let mut f = Framer::new();
    assert!(f.push_byte(b'a').is_none());
    assert!(f.push_byte(b'\r').is_none());
    assert!(f.push_byte(b'x').is_none());
    assert!(f.push_byte(b'\r').is_none());
    let fr = f.push_byte(b'\n');
    assert_eq!(fr.unwrap(), b"a\rx".to_vec());
}

#[test]
fn lone_lf_does_not_split() {
    let mut f = Framer::new();
    assert!(f.push_byte(b'a').is_none());
    assert!(f.push_byte(b'\n').is_none());
    assert!(f.push_byte(b'\r').is_none());
    let fr = f.push_byte(b'\n');
    assert_eq!(fr.unwrap(), b"a\n".to_vec());
}

#[test]
fn invalid_text_surfaces_decode_error() {
    let r = IMAPLine::from_frame(vec![0xFF, 0x41], IMAPCommand::Select);
    match r {
        Err(IMAPError::DecodeError(b)) => assert_eq!(b, vec![0xFF, 0x41]),
        _ => panic!("expected a decode error carrying the bytes"),
    }
}

#[test]
fn valid_frame_decodes_to_its_text() {
    let r = IMAPLine::from_frame(b"* OK ready".to_vec(), IMAPCommand::Greeting);
    match r {
        Ok(line) => {
            assert_eq!(line.raw, "* OK ready");
            assert!(!line.tagged);
        },
        _ => panic!("expected the decoded line"),
    }
}

#[test]
fn classification_is_deterministic() {
    let a = IMAPLine::new("* 5 EXISTS".to_string(), IMAPCommand::Select);
    let b = IMAPLine::new("* 5 EXISTS".to_string(), IMAPCommand::Select);
    assert_eq!(a.tagged, b.tagged);
    assert!(!a.tagged);
    let t1 = IMAPLine::new("a1 OK done".to_string(), IMAPCommand::Select);
    let t2 = IMAPLine::new("a1 OK done".to_string(), IMAPCommand::Select);
    assert_eq!(t1.tagged, t2.tagged);
    assert!(t1.tagged);
}
