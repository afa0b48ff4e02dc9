use monologued::echo::{echo_lines, reverse_graphemes};
use monologued::monologue::{monologue_step, reply_with_plan, Action};
use monologued::plan::PlanError;
use monologued::text::lines;
use monologued::transaction::{after_read, reply_to_line, ReadOutcome, MAX_BUF_SIZE};

#[test]
fn lines_split_on_both_breaks() {
    assert_eq!(lines(b"a\r\nbc\rd"), vec![b"a".to_vec(), vec![], b"bc".to_vec(), b"d".to_vec()]);
    assert_eq!(lines(b""), vec![Vec::<u8>::new()]);
    assert_eq!(lines(b"\n"), vec![Vec::<u8>::new(), Vec::new()]);
}

fn reply_of(buffer: &[u8]) -> Vec<u8> {
    match monologue_step(buffer) {
        Action::Reply(r) => r,
        Action::FetchPlan(_) => panic!("expected an immediate reply"),
    }
}

#[test]
fn monologue_fetches_the_plan_of_a_local_user() {
    match monologue_step(b"/W foozle\r\n") {
        Action::FetchPlan(u) => assert_eq!(u, b"foozle".to_vec()),
        Action::Reply(_) => panic!("expected a plan lookup"),
    }
    match monologue_step(b"/w   z9\r\n/W other\r\n") {
        Action::FetchPlan(u) => assert_eq!(u, b"z9".to_vec()),
        Action::Reply(_) => panic!("expected a plan lookup"),
    }
}

#[test]
fn monologue_delivers_the_plan() {
    let plan: Result<String, PlanError> = Ok("Finish the cache.\n".to_string());
    assert_eq!(reply_with_plan(&plan), b"Finish the cache.\n".to_vec());
    let missing: Result<String, PlanError> = Err(PlanError::NoSuchUser("foozle".to_string()));
    assert_eq!(reply_with_plan(&missing), b"User foozle not found.\r\n".to_vec());
}

#[test]
fn monologue_refuses_lists_and_remote_users() {
    assert_eq!(reply_of(b"/W\r\n"), b"User list is not supported by this server\r\n".to_vec());
    assert_eq!(
        reply_of(b"/W foo@bar\r\n"),
        b"Remote listing is not supported by this server\r\n".to_vec()
    );
}

#[test]
fn monologue_reports_errors() {
    assert_eq!(reply_of(b"hello\r\n"), b"Error: BadProtocol\r\n".to_vec());
    assert_eq!(reply_of(b""), b"Error: BadProtocol\r\n".to_vec());
    assert_eq!(reply_of(b"/W foo!\r\n"), b"Error: BadRequest\r\n".to_vec());
}

#[test]
fn transaction_replies() {
    assert_eq!(reply_to_line(b"/W foo@bar"), b"Remote Request: foo@bar".to_vec());
    assert_eq!(reply_to_line(b"/W foo"), b"Local Request: foo".to_vec());
    assert_eq!(reply_to_line(b"/W"), b"List Request".to_vec());
    assert_eq!(reply_to_line(b"GET /"), b"Protocol prefix not recognized".to_vec());
    assert_eq!(reply_to_line(b"/W f-o"), b"Protocol request does not meet specification".to_vec());
}

#[test]
fn transaction_waits_for_a_line() {
    match after_read(b"/W fo") {
        ReadOutcome::NeedMore => {}
        _ => panic!("expected to read on"),
    }
    match after_read(b"/W foo\r\n") {
        ReadOutcome::Reply(r) => assert_eq!(r, b"Local Request: foo".to_vec()),
        _ => panic!("expected a reply"),
    }
    let full = vec![b'x'; MAX_BUF_SIZE];
    match after_read(&full) {
        ReadOutcome::BufferFull => {}
        _ => panic!("expected a full buffer"),
    }
}

#[test]
fn echo_reverses_each_line() {
    assert_eq!(reverse_graphemes(b"hello"), b"olleh".to_vec());
    assert_eq!(
        echo_lines(b"abc\r\n\r\nxy\n"),
        vec![b"cba".to_vec(), b"yx".to_vec()]
    );
    assert_eq!(echo_lines(b"\r\n"), Vec::<Vec<u8>>::new());
}

#[test]
fn echo_keeps_grapheme_clusters_whole() {
    let line = "ae\u{301}o".as_bytes();
    assert_eq!(reverse_graphemes(line), "oe\u{301}a".as_bytes().to_vec());
}

#[test]
fn echo_replaces_invalid_utf8() {
    assert_eq!(reverse_graphemes(&[b'a', 0xff]), "\u{fffd}a".as_bytes().to_vec());
}

#[test]
fn echo_answers_every_nonempty_line() {
    assert_eq!(echo_lines(b"a\r\n\r\nb").len(), 2);
    assert_eq!(echo_lines(b"\n\n\n").len(), 0);
    let combining = "\u{301}".as_bytes();
    assert!(!reverse_graphemes(combining).is_empty());
    assert!(!reverse_graphemes(&[0xff]).is_empty());
    assert_eq!(reverse_graphemes(b""), Vec::<u8>::new());
}
