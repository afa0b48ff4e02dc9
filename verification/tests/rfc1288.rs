use bytes::Bytes;
use monologued::rfc1288::{parse_request, parse_rfc1288_request, ErrorKind, Request};

#[test]
fn good_list() {
    let res = parse_rfc1288_request(&Bytes::from("/W"));
    match res {
        Ok(c) => assert_eq!(c, Request::UserList),
        Err(_) => assert!(false),
    }
}

#[test]
fn good_list_w_spaces() {
    let res = parse_rfc1288_request(&Bytes::from("/W                           "));
    match res {
        Ok(c) => assert_eq!(c, Request::UserList),
        Err(_) => assert!(false),
    }
}

#[test]
fn bad_start0() {
    let res = parse_rfc1288_request(&Bytes::from(""));
    match res {
        Ok(_) => assert!(false),
        Err(e) => assert_eq!(e, ErrorKind::BadProtocol),
    }
}

#[test]
fn bad_start1() {
    let res = parse_rfc1288_request(&Bytes::from("/"));
    match res {
        Ok(_) => assert!(false),
        Err(e) => assert_eq!(e, ErrorKind::BadProtocol),
    }
}

#[test]
fn bad_start2() {
    let res = parse_rfc1288_request(&Bytes::from("/X"));
    match res {
        Ok(_) => assert!(false),
        Err(e) => assert_eq!(e, ErrorKind::BadProtocol),
    }
}

#[test]
fn good_name() {
    let res = parse_rfc1288_request(&Bytes::from("/W foozle"));
    match res {
        Ok(e) => {
            if let Request::User(v) = e {
                assert_eq!(b"foozle", v.as_slice())
            } else {
                assert!(false);
            }
        }
        Err(_) => assert!(false),
    }
}

#[test]
fn good_name_extra_space() {
    let res = parse_rfc1288_request(&Bytes::from("/W foozle   "));
    match res {
        Ok(e) => {
            if let Request::User(v) = e {
                assert_eq!(b"foozle", v.as_slice())
            } else {
                assert!(false);
            }
        }
        Err(_) => assert!(false),
    }
}

#[test]
fn good_name_w_host() {
    let res = parse_rfc1288_request(&Bytes::from("/W foozle@localhost"));
    match res {
        Ok(e) => {
            if let Request::Remote(u, h) = e {
                assert_eq!(b"foozle", u.as_slice());
                assert_eq!(b"localhost", h.as_slice());
            } else {
                assert!(false);
            }
        }
        Err(_) => assert!(false),
    }
}

#[test]
fn good_name_w_host_and_spaces() {
    let res = parse_rfc1288_request(&Bytes::from("/W   foozle@localhost   "));
    match res {
        Ok(e) => {
            if let Request::Remote(u, h) = e {
                assert_eq!(b"foozle", u.as_slice());
                assert_eq!(b"localhost", h.as_slice());
            } else {
                assert!(false);
            }
        }
        Err(_) => assert!(false),
    }
}

#[test]
fn good_name_w_host_and_spaces_and_lowercase_w() {
    let res = parse_rfc1288_request(&Bytes::from("/w   foozle@localhost   "));
    match res {
        Ok(e) => {
            if let Request::Remote(u, h) = e {
                assert_eq!(b"foozle", u.as_slice());
                assert_eq!(b"localhost", h.as_slice());
            } else {
                assert!(false);
            }
        }
        Err(_) => assert!(false),
    }
}

#[test]
fn bad_name() {
    let res = parse_rfc1288_request(&Bytes::from("/W   foozle..   "));
    match res {
        Ok(_) => assert!(false),
        Err(e) => assert_eq!(e, ErrorKind::BadRequest),
    }
}

#[test]
fn no_space_after_switch_is_bad_protocol() {
    assert_eq!(parse_request(b"/Wfoozle"), Err(ErrorKind::BadProtocol));
    assert_eq!(parse_request(b"W foozle"), Err(ErrorKind::BadProtocol));
}

#[test]
fn words_after_the_user_are_ignored() {
    assert_eq!(parse_request(b"/W foozle bar"), Ok(Request::User(b"foozle".to_vec())));
    assert_eq!(
        parse_request(b"/W foo@host and more"),
        Ok(Request::Remote(b"foo".to_vec(), b"host".to_vec()))
    );
}

#[test]
fn remote_user_may_be_empty() {
    assert_eq!(parse_request(b"/W @host"), Ok(Request::Remote(Vec::new(), b"host".to_vec())));
    assert_eq!(parse_request(b"/W foo@"), Ok(Request::Remote(b"foo".to_vec(), Vec::new())));
    assert_eq!(
        parse_request(b"/W a@b@c"),
        Ok(Request::Remote(b"a".to_vec(), b"b@c".to_vec()))
    );
}

#[test]
fn trailing_spaces_never_matter() {
    let queries: [&[u8]; 8] = [b"", b"/", b"/W", b"/W x", b"/W x@h", b"/W x..", b"/Q", b"/W "];
    for q in queries.iter() {
        let mut padded = q.to_vec();
        padded.extend_from_slice(b"    ");
        assert_eq!(parse_request(q), parse_request(&padded));
    }
}

#[test]
fn switch_case_never_matters() {
    assert_eq!(parse_request(b"/w foozle"), parse_request(b"/W foozle"));
    assert_eq!(parse_request(b"/w"), parse_request(b"/W"));
    assert_eq!(parse_request(b"/w a.b"), parse_request(b"/W a.b"));
}

#[test]
fn line_ending_is_not_part_of_the_query() {
    assert_eq!(parse_request(b"/W foozle\r\n"), Err(ErrorKind::BadRequest));
}

#[test]
fn error_descriptions() {
    assert_eq!(ErrorKind::BadProtocol.description(), "Protocol prefix not recognized");
    assert_eq!(ErrorKind::BadRequest.description(), "Protocol request does not meet specification");
}

#[test]
fn user_list_only_for_switch_and_spaces() {
    assert_eq!(parse_request(b"/w   "), Ok(Request::UserList));
    assert_eq!(parse_request(b"/W  x"), Ok(Request::User(b"x".to_vec())));
    assert_eq!(parse_request(b"/W\t"), Err(ErrorKind::BadProtocol));
}
