use imap::command::IMAPCommand;
use imap::error::IMAPError;
use imap::line::IMAPLine;
use imap::parser::IMAPResult;
use imap::response::IMAPResponse;

fn folder_fields(resp: &IMAPResponse) -> (u64, u64, u64, u64) {
    match resp.result {
        Some(IMAPResult::IMAPFolder { recent, exists, uidvaildity, uidnext }) => {
            (exists, recent, uidvaildity, uidnext)
        },
        _ => panic!("expected a folder result"),
    }
}

#[test]
fn select_parses_folder_status() {
    let mut resp = IMAPResponse::new();
    let data = ["* 5 EXISTS", "* 2 RECENT", "* OK [UIDVALIDITY 100]", "* OK [UIDNEXT 200]"];
    for text in data.iter() {
        let done = resp.add_line(IMAPLine::new(text.to_string(), IMAPCommand::Select)).unwrap();
        assert!(!done);
    }
    let done = resp
        .add_line(IMAPLine::new("a1 OK SELECT completed".to_string(), IMAPCommand::Select))
        .unwrap();
    assert!(done);
    assert!(resp.completed);
    assert_eq!(folder_fields(&resp), (5, 2, 100, 200));
}

#[test]
fn select_defaults_to_zero() {
    let mut resp = IMAPResponse::new();
    let done = resp
        .add_line(IMAPLine::new("a1 OK SELECT completed".to_string(), IMAPCommand::Select))
        .unwrap();
    assert!(done);
    assert_eq!(folder_fields(&resp), (0, 0, 0, 0));
}

#[test]
fn select_last_matching_line_wins() {
    let mut resp = IMAPResponse::new();
    resp.add_line(IMAPLine::new("* 5 EXISTS".to_string(), IMAPCommand::Select)).unwrap();
    resp.add_line(IMAPLine::new("* 7 EXISTS".to_string(), IMAPCommand::Select)).unwrap();
    resp.add_line(IMAPLine::new("a1 OK done".to_string(), IMAPCommand::Select)).unwrap();
    assert_eq!(folder_fields(&resp), (7, 0, 0, 0));
}

#[test]
fn select_one_count_match_per_line() {
    // the count pattern is one alternation: the leftmost match decides, so the
    // later RECENT on the same line is not seen
    let mut resp = IMAPResponse::new();
    resp.add_line(IMAPLine::new("* 5 EXISTS 7 RECENT".to_string(), IMAPCommand::Select)).unwrap();
    resp.add_line(IMAPLine::new("a1 OK done".to_string(), IMAPCommand::Select)).unwrap();
    assert_eq!(folder_fields(&resp), (5, 0, 0, 0));
}

#[test]
fn select_ignores_lines_without_match() {
    let mut resp = IMAPResponse::new();
    resp.add_line(IMAPLine::new("* FLAGS (\\Seen)".to_string(), IMAPCommand::Select)).unwrap();
    resp.add_line(IMAPLine::new("* EXISTS".to_string(), IMAPCommand::Select)).unwrap();
    resp.add_line(IMAPLine::new("a1 OK done".to_string(), IMAPCommand::Select)).unwrap();
    assert_eq!(folder_fields(&resp), (0, 0, 0, 0));
}

#[test]
fn select_value_saturates_at_u64_max() {
    let mut resp = IMAPResponse::new();
    resp.add_line(IMAPLine::new(
        "* 99999999999999999999999 EXISTS".to_string(),
        IMAPCommand::Select,
    ))
    .unwrap();
    resp.add_line(IMAPLine::new("a1 OK done".to_string(), IMAPCommand::Select)).unwrap();
    assert_eq!(folder_fields(&resp), (u64::MAX, 0, 0, 0));
}

#[test]
fn examine_parses_like_select() {
    let mut resp = IMAPResponse::new();
    resp.add_line(IMAPLine::new("* 3 RECENT".to_string(), IMAPCommand::Examine)).unwrap();
    resp.add_line(IMAPLine::new("a4 OK EXAMINE completed".to_string(), IMAPCommand::Examine))
        .unwrap();
    assert_eq!(folder_fields(&resp), (0, 3, 0, 0));
}

#[test]
fn login_no_terminator_gives_status_no() {
    let mut resp = IMAPResponse::new();
    let done = resp
        .add_line(IMAPLine::new("a2 NO LOGIN failed".to_string(), IMAPCommand::Login))
        .unwrap();
    assert!(done);
    assert!(matches!(resp.result, Some(IMAPResult::IMAPNo)));
}

#[test]
fn login_ok_and_bad_terminators() {
    let mut ok = IMAPResponse::new();
    ok.add_line(IMAPLine::new("a2 OK LOGIN completed".to_string(), IMAPCommand::Login)).unwrap();
    assert!(matches!(ok.result, Some(IMAPResult::IMAPOk)));
    let mut bad = IMAPResponse::new();
    bad.add_line(IMAPLine::new("a2 BAD bogus".to_string(), IMAPCommand::Login)).unwrap();
    assert!(matches!(bad.result, Some(IMAPResult::IMAPBad)));
}

#[test]
fn unknown_status_token_is_protocol_error() {
    let mut resp = IMAPResponse::new();
    let r = resp.add_line(IMAPLine::new("a2 HUH nope".to_string(), IMAPCommand::Login));
    assert!(matches!(r, Err(IMAPError::ProtocolError)));
    assert!(resp.result.is_none());
}

#[test]
fn status_token_is_whole_token_not_prefix() {
    let mut resp = IMAPResponse::new();
    let r = resp.add_line(IMAPLine::new("a2 OKAY done".to_string(), IMAPCommand::Login));
    assert!(matches!(r, Err(IMAPError::ProtocolError)));
}

#[test]
fn logout_reaching_parser_is_protocol_error() {
    let mut resp = IMAPResponse::new();
    let r = resp.add_line(IMAPLine::new("a9 OK bye".to_string(), IMAPCommand::Logout));
    assert!(matches!(r, Err(IMAPError::ProtocolError)));
}

#[test]
fn greeting_parses_to_status_ok() {
    let mut resp = IMAPResponse::new();
    let done = resp
        .add_line(IMAPLine::new("* OK IMAP ready".to_string(), IMAPCommand::Greeting))
        .unwrap();
    assert!(done);
    assert!(matches!(resp.result, Some(IMAPResult::IMAPOk)));
}

#[test]
fn fetch_parses_placeholder_message() {
    let mut resp = IMAPResponse::new();
    resp.add_line(IMAPLine::new("* 1 FETCH (FLAGS (\\Seen))".to_string(), IMAPCommand::Fetch))
        .unwrap();
    let done = resp
        .add_line(IMAPLine::new("a3 OK FETCH completed".to_string(), IMAPCommand::Fetch))
        .unwrap();
    assert!(done);
    match &resp.result {
        Some(IMAPResult::IMAPMessage { flags, size, internal_date, envelop }) => {
            assert!(flags.is_empty());
            assert_eq!(*size, 0);
            assert!(internal_date.is_empty());
            assert!(envelop.title.is_empty());
            assert!(envelop.from.is_empty());
        },
        _ => panic!("expected the placeholder message result"),
    }
    // the raw lines stay available for inspection
    assert_eq!(resp.lines.len(), 2);
    assert_eq!(resp.lines[0].raw, "* 1 FETCH (FLAGS (\\Seen))");
}

#[test]
fn response_buffer_concatenates_line_texts() {
    let mut resp = IMAPResponse::new();
    resp.add_line(IMAPLine::new("* 5 EXISTS".to_string(), IMAPCommand::Select)).unwrap();
    resp.add_line(IMAPLine::new("a1 OK done".to_string(), IMAPCommand::Select)).unwrap();
    assert_eq!(resp.buffer, "* 5 EXISTSa1 OK done");
}
