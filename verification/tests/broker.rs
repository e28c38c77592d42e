use kennel::broker::{drained, Action, Answer, Broker, Request, CONTROL_NODE_COOKIE};

fn mint(b: &mut Broker, ctx: u16, cap: &str) -> u64 {
    match b.handle(CONTROL_NODE_COOKIE, &Request::NewSession(Some((ctx, cap.to_owned())))) {
        Action::Mint(c) => c,
        other => panic!("not minted: {other:?}"),
    }
}

#[test]
fn sessions_are_minted_on_the_control_node_alone() {
    let mut b = Broker::new(None, None);
    assert_eq!(mint(&mut b, 7, "session-bus"), 2);
    assert_eq!(mint(&mut b, 8, "session-bus"), 3);
    assert!(matches!(
        b.handle(2, &Request::NewSession(Some((7, "x".to_owned())))),
        Action::Reply(Answer::BadRequest)
    ));
    assert!(matches!(
        b.handle(CONTROL_NODE_COOKIE, &Request::NewSession(None)),
        Action::Reply(Answer::BadRequest)
    ));
    assert!(matches!(
        b.handle(CONTROL_NODE_COOKIE, &Request::Send),
        Action::Reply(Answer::BadRequest)
    ));
    assert!(matches!(b.handle(2, &Request::Unknown), Action::Reply(Answer::BadRequest)));
}

#[test]
fn first_frame_waits_for_the_policy() {
    let mut b = Broker::new(None, None);
    let c = mint(&mut b, 7, "session-bus");
    match b.handle(c, &Request::Send) {
        Action::Pull(ctx, cap) => assert_eq!((ctx, cap.as_str()), (7, "session-bus")),
        other => panic!("not pulled: {other:?}"),
    }
    assert!(matches!(b.handle(c, &Request::Recv), Action::Reply(Answer::Again)));
    assert!(matches!(b.pulled(c, false), Action::Reply(Answer::NotFound)));
    assert!(matches!(b.handle(c, &Request::Send), Action::Pull(7, _)));
    assert!(matches!(b.pulled(c, true), Action::Forward));
    assert!(matches!(b.handle(c, &Request::Send), Action::Forward));
    assert!(matches!(b.handle(c, &Request::Recv), Action::Drain));
}

#[test]
fn lost_mediation_ends_the_session() {
    let mut b = Broker::new(None, None);
    let c = mint(&mut b, 1, "a");
    let d = mint(&mut b, 2, "b");
    assert!(matches!(b.pulled(c, true), Action::Forward));
    assert!(matches!(b.forwarded(c, true), Answer::Fine));
    assert!(matches!(b.forwarded(c, false), Answer::NotFound));
    assert!(matches!(b.handle(c, &Request::Send), Action::Reply(Answer::NotFound)));
    assert!(matches!(b.handle(d, &Request::Recv), Action::Reply(Answer::Again)));
}

#[test]
fn sessions_go_when_closed_released_or_not_handed_out() {
    let mut b = Broker::new(None, None);
    let c = mint(&mut b, 1, "a");
    assert!(matches!(b.handle(c, &Request::Close), Action::Reply(Answer::Fine)));
    assert!(matches!(b.handle(c, &Request::Recv), Action::Reply(Answer::NotFound)));
    let d = mint(&mut b, 1, "a");
    assert_eq!(b.release(d), Some("dbus-broker: session 3 released".to_owned()));
    assert_eq!(b.release(d), None);
    let e = mint(&mut b, 1, "a");
    b.mint_failed(e);
    assert!(matches!(b.pulled(e, true), Action::Reply(Answer::NotFound)));
}

#[test]
fn frames_are_drained_one_at_a_time() {
    assert!(matches!(drained(None), Answer::Again));
    match drained(Some(vec![1, 2])) {
        Answer::Frame(f) => assert_eq!(f, vec![1, 2]),
        other => panic!("no frame: {other:?}"),
    }
}

#[test]
fn bus_addresses_have_defaults() {
    let b = Broker::new(None, None);
    assert_eq!(b.bus_addr(true), "unix:path=/run/user/dbus/bus");
    assert_eq!(b.bus_addr(false), "unix:path=/run/dbus/system_bus_socket");
    let b = Broker::new(Some("unix:a"), Some("unix:b"));
    assert_eq!(b.bus_addr(true), "unix:a");
    assert_eq!(b.bus_addr(false), "unix:b");
}
