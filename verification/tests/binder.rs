use kennel::binder::client::{
    ack_refcounts, call_error, carried_fd, carries_object, check_version, commands, data_reply,
    device_name, fd_reply, mount_options, object_addr, reply_payload, request, verdict, window,
    BinderWriteRead, Call, Incoming, Verdict,
};
use kennel::binder::proto::{
    flat_binder_object_fd, flat_binder_object_fd_value, ioc, parse, write_cmd, write_free_buffer,
    write_ptr_cookie, write_ref, write_transaction, Br, TransactionData, BC_ENTER_LOOPER,
    BC_FREE_BUFFER, BC_TRANSACTION, BR_NOOP, BR_TRANSACTION, BR_TRANSACTION_COMPLETE, DIR_NONE,
    DIR_WRITE, FLAT_BINDER_OBJECT_SIZE, TF_ACCEPT_FDS, TRANSACTION_DATA_SIZE,
};
use kennel::binder::service;

#[test]
fn command_codes_match_the_ioc_encoding() {
    assert_eq!(BC_TRANSACTION, ioc(DIR_WRITE, b'c', 0, 64));
    assert_eq!(BC_ENTER_LOOPER, ioc(DIR_NONE, b'c', 12, 0));
    assert_eq!(BC_ENTER_LOOPER, 0x0000_630c);
    assert_eq!(parse_code(BR_TRANSACTION), (2, b'r', 2, 64));
}

fn parse_code(code: u32) -> (u32, u8, u32, u32) {
    let dir = code >> 30;
    let size = (code >> 16) & 0x3fff;
    let ty = ((code >> 8) & 0xff) as u8;
    let nr = code & 0xff;
    (dir, ty, nr, size)
}

fn data() -> TransactionData {
    TransactionData {
        target: 0,
        cookie: 0xdead_beef,
        code: 1,
        flags: TF_ACCEPT_FDS,
        sender_pid: 4242,
        sender_euid: 1000,
        data_size: 12,
        offsets_size: 0,
        buffer: 0x7fff_0000_1234,
        offsets: 0,
    }
}

#[test]
fn transaction_data_round_trips_through_bytes() {
    let td = data();
    let bytes = td.to_bytes();
    assert_eq!(bytes.len(), TRANSACTION_DATA_SIZE);
    assert_eq!(TransactionData::from_bytes(&bytes), Some(td));
}

#[test]
fn from_bytes_rejects_a_short_slice() {
    assert_eq!(TransactionData::from_bytes(&[0u8; 10]), None);
}

#[test]
fn parses_a_noop_then_a_transaction_complete() {
    let mut buf = Vec::new();
    buf.extend_from_slice(&BR_NOOP.to_ne_bytes());
    buf.extend_from_slice(&BR_TRANSACTION_COMPLETE.to_ne_bytes());
    let (first, n1) = parse(&buf).expect("noop");
    assert_eq!(first, Br::Noop);
    assert_eq!(n1, 4);
    let (second, n2) = parse(buf.get(n1..).expect("rest")).expect("complete");
    assert_eq!(second, Br::TransactionComplete);
    assert_eq!(n2, 4);
}

#[test]
fn parses_a_br_transaction_payload() {
    let td = TransactionData {
        target: 0,
        cookie: 7,
        code: 2,
        flags: 0,
        sender_pid: 99,
        sender_euid: 1000,
        data_size: 4,
        offsets_size: 0,
        buffer: 0x1000,
        offsets: 0x2000,
    };
    let mut buf = Vec::new();
    buf.extend_from_slice(&BR_TRANSACTION.to_ne_bytes());
    buf.extend_from_slice(&td.to_bytes());
    let (br, n) = parse(&buf).expect("transaction");
    assert_eq!(n, 4 + TRANSACTION_DATA_SIZE);
    assert_eq!(br, Br::Transaction(td));
}

#[test]
fn parse_rejects_truncated_and_unknown() {
    assert_eq!(parse(&BR_TRANSACTION.to_ne_bytes()), None);
    assert_eq!(parse(&0xffff_ffffu32.to_ne_bytes()), None);
    assert_eq!(parse(&[]), None);
}

#[test]
fn write_transaction_frames_code_then_struct() {
    let td = TransactionData::default();
    let mut out = Vec::new();
    write_transaction(&mut out, false, &td);
    assert_eq!(out.len(), 4 + TRANSACTION_DATA_SIZE);
    assert_eq!(out.get(..4), Some(&BC_TRANSACTION.to_ne_bytes()[..]));
}

#[test]
fn write_cmd_emits_only_the_code() {
    let mut out = Vec::new();
    write_cmd(&mut out, BC_ENTER_LOOPER);
    assert_eq!(out, BC_ENTER_LOOPER.to_ne_bytes());
}

#[test]
fn small_commands_are_exact() {
    let mut out = Vec::new();
    write_free_buffer(&mut out, 0x0102);
    assert_eq!(&out[..4], &BC_FREE_BUFFER.to_le_bytes());
    assert_eq!(&out[4..], &[2, 1, 0, 0, 0, 0, 0, 0]);
    let mut out = Vec::new();
    write_ref(&mut out, 5, 9);
    assert_eq!(out, vec![5, 0, 0, 0, 9, 0, 0, 0]);
    let mut out = Vec::new();
    write_ptr_cookie(&mut out, 5, 1, 2);
    assert_eq!(out.len(), 20);
    assert_eq!((out[4], out[12]), (1, 2));
}

#[test]
fn written_transactions_are_read_as_received_ones() {
    let mut buf = BR_TRANSACTION.to_le_bytes().to_vec();
    buf.extend_from_slice(&data().to_bytes());
    let alone = parse(&buf).expect("parses");
    buf.extend_from_slice(&[1, 2, 3]);
    assert_eq!(parse(&buf), Some(alone), "what follows is not looked at");
    let mut both = BR_NOOP.to_le_bytes().to_vec();
    both.extend_from_slice(&BR_TRANSACTION_COMPLETE.to_le_bytes());
    both.push(9);
    assert_eq!(commands(&both), vec![Br::Noop, Br::TransactionComplete]);
}

#[test]
fn versions_and_windows_are_checked() {
    assert!(check_version(8).is_ok());
    assert_eq!(check_version(7), Err("binder protocol version 7, need 8".to_owned()));
    assert_eq!(window(100, 50, 110, 40), Some(10));
    assert_eq!(window(100, 50, 110, 41), None);
    assert_eq!(window(100, 50, 99, 1), None);
    assert_eq!(window(100, 50, u64::MAX, 1), None);
    assert_eq!(mount_options(16), "max=16");
    assert_eq!(BinderWriteRead::default().write_size, 0);
}

#[test]
fn device_names_leave_room_for_their_end() {
    let field = device_name(b"binder").expect("name");
    assert_eq!(field.len(), 256);
    assert_eq!(&field[..7], b"binder\0");
    assert_eq!(device_name(&[b'x'; 256]), Err("binderfs device name too long".to_owned()));
    assert!(device_name(&[b'x'; 255]).is_ok());
}

#[test]
fn calls_end_by_what_came_back() {
    assert!(matches!(verdict(&[Br::Noop, Br::Reply(data())]), Verdict::Reply(d) if d == data()));
    assert!(matches!(verdict(&[Br::Failed]), Verdict::Failed));
    assert_eq!(call_error(Call::Data, Verdict::Reply(data()), 0), None);
    assert_eq!(
        call_error(Call::Data, Verdict::Dead, 0),
        Some("binder target dead (BR_DEAD_REPLY)".to_owned())
    );
    assert_eq!(
        call_error(Call::Data, Verdict::Error(-5), 0),
        Some("binder driver error -5".to_owned())
    );
    assert!(call_error(Call::Fd, Verdict::Failed, -22)
        .expect("failed")
        .ends_with("failed (BR_FAILED_REPLY, extended errno -22)"));
}

#[test]
fn requests_and_replies_are_framed() {
    let w = request(Call::Data, 3, 9, 4, 0x1000);
    let td = TransactionData::from_bytes(&w[4..]).expect("data");
    assert_eq!((td.target, td.code, td.data_size, td.buffer), (3, 9, 4, 0x1000));
    let incoming = Incoming {
        code: 1,
        data: Vec::new(),
        sender_pid: 1,
        sender_euid: 0,
        buffer: 77,
    };
    let w = data_reply(&incoming, 2, 0x2000);
    assert_eq!(w.len(), 4 + TRANSACTION_DATA_SIZE + 12);
    assert_eq!(w[4 + TRANSACTION_DATA_SIZE + 4], 77);
    assert_eq!(reply_payload(&[2, 0, 0, 0, 5, 6, 7]), Ok(vec![5, 6]));
    assert_eq!(reply_payload(&[2, 0]), Err("reply missing length prefix".to_owned()));
    assert_eq!(
        reply_payload(&[9, 0, 0, 0, 1]),
        Err("reply shorter than its length prefix".to_owned())
    );
}

#[test]
fn references_are_acknowledged() {
    let out = ack_refcounts(&[
        Br::IncRefs { ptr: 1, cookie: 2 },
        Br::Noop,
        Br::Acquire { ptr: 3, cookie: 4 },
    ]);
    assert_eq!(out.len(), 40);
    assert_eq!((out[4], out[12], out[24], out[32]), (1, 2, 3, 4));
}

#[test]
fn protocols_share_no_code() {
    assert_eq!(service::VERB_ADD_SERVICE, 1);
    assert_eq!(service::LIFECYCLE_GET_SANDBOX_PLAN, 0x100);
    assert_eq!((service::STATUS_OK, service::STATUS_BAD_REQUEST), (0, 4));
}

#[test]
fn a_reply_carries_a_file_descriptor() {
    let incoming = Incoming {
        code: 1,
        data: Vec::new(),
        sender_pid: 0,
        sender_euid: 0,
        buffer: 0x1000,
    };
    let w = fd_reply(&incoming, 24, 0x2000, 0x3000);
    assert_eq!(w.len(), 4 + TRANSACTION_DATA_SIZE + 12);
    let td = TransactionData::from_bytes(&w[4..4 + TRANSACTION_DATA_SIZE]).expect("whole");
    assert_eq!(td.flags, TF_ACCEPT_FDS);
    assert_eq!((td.data_size, td.offsets_size, td.buffer, td.offsets), (24, 8, 0x2000, 0x3000));
    assert!(carries_object(&td));
    assert!(!carries_object(&data()));
    assert_eq!(object_addr(0x2000, &[0x10, 0, 0, 0, 0, 0, 0, 0]), Some(0x2010));
    assert_eq!(object_addr(u64::MAX, &[2, 0, 0, 0, 0, 0, 0, 0]), Some(1));
    assert_eq!(object_addr(0x2000, &[0x10]), None);
    assert_eq!(carried_fd(Some(3)), Ok(3));
    assert_eq!(carried_fd(Some(-1)), Err("reply carried no valid fd object".to_owned()));
    assert_eq!(carried_fd(None), Err("reply carried no valid fd object".to_owned()));
}

#[test]
fn an_object_carries_a_file_descriptor() {
    let mut b = flat_binder_object_fd(0x0102);
    assert_eq!(b.len(), FLAT_BINDER_OBJECT_SIZE);
    assert_eq!(&b[..12], &[0x85, 0x2a, 0x64, 0x66, 0, 0, 0, 0, 2, 1, 0, 0]);
    assert_eq!(flat_binder_object_fd_value(&b), Some(0x0102));
    assert_eq!(flat_binder_object_fd_value(&flat_binder_object_fd(-1)), Some(-1));
    assert_eq!(flat_binder_object_fd_value(&b[..23]), None);
    b[2] = 0;
    assert_eq!(flat_binder_object_fd_value(&b), None);
}
