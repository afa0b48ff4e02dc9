use monologued::server::Clients;
use monologued::connection::{Connection, ConnectionState};
use monologued::reactor::{Reactor, ReactorError};

#[test]
fn agents_get_the_lowest_free_token() {
    let mut reactor: Reactor<&str> = Reactor::new(3);
    assert_eq!(reactor.add_agent("server"), Ok(0));
    assert_eq!(reactor.add_agent("a"), Ok(1));
    assert_eq!(reactor.add_agent("b"), Ok(2));
    assert_eq!(reactor.add_agent("c"), Err(ReactorError::ConnectionsExhausted));
    assert_eq!(reactor.len(), 3);
    assert!(reactor.contains(1));
    assert_eq!(reactor.rem_agent(1), "a");
    assert!(!reactor.contains(1));
    assert_eq!(reactor.add_agent("d"), Ok(1));
}

#[test]
fn agents_can_be_reached_by_token() {
    let mut reactor: Reactor<u32> = Reactor::new(2);
    let t = reactor.add_agent(7).unwrap();
    if let Some(a) = reactor.agent_mut(t) {
        *a = 8;
    }
    assert!(reactor.agent_mut(5).is_none());
    assert_eq!(reactor.rem_agent(t), 8);
    assert_eq!(reactor.len(), 0);
}

#[test]
fn connection_echoes_then_closes() {
    let mut conn = Connection::new();
    assert!(conn.is_running());
    assert!(conn.take_replies().is_empty());
    assert!(conn.is_running());
    conn.received(b"abc\r\n");
    assert!(conn.wants_write());
    assert_eq!(conn.take_replies(), vec![b"cba".to_vec()]);
    assert!(!conn.is_running());
    assert_eq!(conn.state, ConnectionState::Closed);
}

#[test]
fn connection_closes_on_failure() {
    let mut conn = Connection::new();
    conn.fail();
    assert_eq!(conn.state, ConnectionState::Closed);
}

#[test]
fn clients_reuse_tokens_only_after_a_clean_close() {
    let mut clients: Clients<&str> = Clients::new(1);
    assert!(clients.has_next());
    assert_eq!(clients.accept("a"), 1);
    assert_eq!(clients.accept("b"), 2);
    assert_eq!(clients.close(1, false), Some("a"));
    assert_eq!(clients.accept("c"), 3);
    assert_eq!(clients.close(2, true), Some("b"));
    assert_eq!(clients.close(2, true), None);
    assert_eq!(clients.accept("d"), 2);
    assert!(clients.contains(2) && !clients.contains(1));
    if let Some(c) = clients.get_mut(3) {
        *c = "e";
    }
    assert_eq!(clients.close(3, true), Some("e"));
}
