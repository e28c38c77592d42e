use kennel::net::{
    conduit, decode_bind, decode_command, delivery, encode_bind, encode_command, encode_notify,
    pulled, registration, Addr, Pulled, Registration, MAX_ADDRS, TAG_V4,
};

const V6_LOCALHOST: [u8; 16] = [0, 0, 0, 0, 0, 0, 0, 0, 0, 0, 0, 0, 0, 0, 0, 1];

fn octets(a: &Addr) -> Vec<u8> {
    match a {
        Addr::V4(o) => o.to_vec(),
        Addr::V6(o) => o.to_vec(),
    }
}

#[test]
fn bind_command_round_trips_v4_and_v6() {
    let bytes = encode_bind(Addr::V4([127, 2, 160, 1]), 3000);
    let (a, p) = decode_bind(&bytes).expect("v4");
    assert_eq!((octets(&a), p), (vec![127, 2, 160, 1], 3000));
    let bytes = encode_bind(Addr::V6(V6_LOCALHOST), 8080);
    let (a, p) = decode_bind(&bytes).expect("v6");
    assert_eq!((octets(&a), p), (V6_LOCALHOST.to_vec(), 8080));
}

#[test]
fn decode_bind_rejects_short_unknown_tag_and_junk() {
    assert!(decode_bind(&[]).is_none());
    assert!(decode_bind(&[TAG_V4, 1, 2, 3]).is_none());
    assert!(decode_bind(&[TAG_V4, 1, 2, 3, 4, 0x0B]).is_none());
    assert!(decode_bind(&[TAG_V4, 1, 2, 3, 4, 0x0B, 0xB8, 0xFF]).is_none());
    assert!(decode_bind(&[9, 1, 2, 3, 4, 0x0B, 0xB8]).is_none());
}

#[test]
fn notify_framing_is_the_port_big_endian() {
    assert_eq!(encode_notify(3000), [0x0B, 0xB8]);
}

#[test]
fn command_round_trips_through_encode_decode() {
    let addrs = [Addr::V4([93, 184, 216, 34]), Addr::V6(V6_LOCALHOST)];
    let bytes = encode_command(443, &addrs);
    let (port, got) = decode_command(&bytes).expect("command");
    assert_eq!(port, 443);
    assert_eq!(
        got.iter().map(octets).collect::<Vec<_>>(),
        addrs.iter().map(octets).collect::<Vec<_>>()
    );
}

#[test]
fn decode_rejects_short_unknown_tag_and_trailing_junk() {
    assert!(decode_command(&[0x01]).is_none());
    assert!(decode_command(&[0x01, 0xBB, 0x00]).is_none());
    assert!(decode_command(&[0x01, 0xBB, 0x01, 9, 1, 2, 3, 4]).is_none());
    assert!(decode_command(&[0x01, 0xBB, 0x01, TAG_V4, 1, 2, 3]).is_none());
    assert!(decode_command(&[0x01, 0xBB, 0x01, TAG_V4, 1, 2, 3, 4, 0xFF]).is_none());
}

#[test]
fn bytes_of_the_messages_are_exact() {
    assert_eq!(encode_bind(Addr::V4([1, 2, 3, 4]), 258), vec![4, 1, 2, 3, 4, 1, 2]);
    assert_eq!(
        encode_command(443, &[Addr::V4([1, 2, 3, 4])]),
        vec![1, 187, 1, 4, 1, 2, 3, 4]
    );
}

#[test]
fn addresses_past_the_limit_are_left_out() {
    let many: Vec<Addr> = (0..20).map(|i| Addr::V4([10, 0, 0, i])).collect();
    let (_, got) = decode_command(&encode_command(1, &many)).expect("command");
    assert_eq!(got.len(), MAX_ADDRS);
    assert_eq!(octets(&got[15]), vec![10, 0, 0, 15]);
    assert!(decode_command(&encode_command(1, &[])).is_none());
    let wide: Vec<Addr> = (0..20).map(|_| Addr::V6(V6_LOCALHOST)).collect();
    assert!(encode_command(1, &wide).len() <= 512);
}

#[test]
fn registrations_carry_no_file_and_commands_one() {
    let reg = encode_bind(Addr::V4([127, 0, 0, 1]), 80);
    assert!(matches!(registration(1, &reg), Registration::Dropped));
    assert!(matches!(registration(0, &[1]), Registration::Malformed));
    assert!(matches!(registration(0, &reg), Registration::Listen(_, 80)));
    let cmd = encode_command(80, &[Addr::V4([127, 0, 0, 1])]);
    assert!(conduit(0, &cmd).is_none());
    assert!(conduit(2, &cmd).is_none());
    assert!(conduit(1, &cmd).is_some());
    assert!(conduit(1, &[]).is_none());
}

#[test]
fn delivery_reads_its_arguments() {
    let is_ip = |s: &str| s == "127.0.0.1";
    let list = |v: &[&str]| v.iter().map(|s| (*s).to_owned()).collect::<Vec<String>>();
    let d = delivery(&list(&["/dev/b", "127.0.0.1", "80", "x", "70000", "8080"]), &is_ip)
        .expect("delivery");
    assert_eq!((d.device.as_str(), d.kennel_ip.as_str()), ("/dev/b", "127.0.0.1"));
    assert_eq!(d.ports, vec![80, 8080]);
    assert_eq!(
        delivery(&list(&["/dev/b"]), &is_ip).expect_err("usage"),
        "facade-client: usage: <binder-device> <kennel-ip> <port>..."
    );
    assert_eq!(
        delivery(&list(&["/dev/b", "here", "80"]), &is_ip).expect_err("ip"),
        "facade-client: bad kennel ip `here`"
    );
    assert_eq!(
        delivery(&list(&["/dev/b", "127.0.0.1", "x"]), &is_ip).expect_err("ports"),
        "facade-client: no mirrored ports to service"
    );
}

#[test]
fn pulls_deliver_rest_or_fail() {
    assert_eq!(pulled(true, false), Ok(Pulled::Deliver));
    assert_eq!(pulled(false, true), Ok(Pulled::Rest));
    assert_eq!(
        pulled(false, false),
        Err("BIND_INET reply carried neither a conduit nor AGAIN")
    );
}
