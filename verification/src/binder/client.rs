//! What a binder endpoint decides: the bounds of its mapping, the commands of a cycle, the outcome
//! of a call and the frame of a reply.

use super::proto;
use super::proto::{
    parse, write_free_buffer, write_ptr_cookie, write_transaction, Br, TransactionData,
    BC_ACQUIRE_DONE, BC_INCREFS_DONE, PROTOCOL_VERSION, TF_ACCEPT_FDS,
};
use crate::decimal;
use crate::decimal::signed_text;
use crate::text::{concat2, concat3, concat4};
use crate::wire;
use crate::wire::read_le;
use vstd::prelude::*;
use vstd::string::*;

verus! {

/// The context-manager node.
pub const CONTEXT_MANAGER_HANDLE: u32 = 0;

/// The width of the name field of a binderfs device.
pub const BINDERFS_NAME_CAP: usize = 256;

/// An inbound transaction received by a node of ours.
#[derive(Clone, Debug)]
pub struct Incoming {
    /// The method selector.
    pub code: u32,
    /// The payload.
    pub data: Vec<u8>,
    /// The sending process.
    pub sender_pid: i32,
    /// The sending user.
    pub sender_euid: u32,
    /// The kernel buffer to release after the reply.
    pub buffer: u64,
}

/// The argument of a `BINDER_WRITE_READ`.
#[derive(Clone, Copy, Debug, PartialEq, Eq, Structural)]
pub struct BinderWriteRead {
    /// Bytes of commands to consume.
    pub write_size: u64,
    /// Bytes that the driver consumed.
    pub write_consumed: u64,
    /// Address of the commands.
    pub write_buffer: u64,
    /// Capacity for returned commands.
    pub read_size: u64,
    /// Bytes that the driver returned.
    pub read_consumed: u64,
    /// Address for returned commands.
    pub read_buffer: u64,
}

impl Default for BinderWriteRead {
    fn default() -> (r: Self)
        ensures
            r == (BinderWriteRead {
                write_size: 0,
                write_consumed: 0,
                write_buffer: 0,
                read_size: 0,
                read_consumed: 0,
                read_buffer: 0,
            }),
    {
        BinderWriteRead {
            write_size: 0,
            write_consumed: 0,
            write_buffer: 0,
            read_size: 0,
            read_consumed: 0,
            read_buffer: 0,
        }
    }
}

/// Refuses a driver of another protocol version.
pub fn check_version(version: i32) -> (r: Result<(), String>)
    ensures
        r is Ok <==> version == PROTOCOL_VERSION,
        r matches Err(m) ==> m@ == "binder protocol version "@ + decimal::signed(version as int)
            + ", need 8"@,
{
    if version == PROTOCOL_VERSION {
        Ok(())
    } else {
        let v = signed_text(version as i64);
        Err(concat3("binder protocol version ", v.as_str(), ", need 8"))
    }
}

/// Where `[addr, addr + len)` lies in a mapping of `size` bytes at `base`; `None` where it is not
/// wholly inside.
pub fn window(base: u64, size: usize, addr: u64, len: usize) -> (r: Option<usize>)
    ensures
        match r {
            Some(off) => addr == base + off && off + len <= size,
            None => addr < base || addr + len > base + size,
        },
{
    if addr < base {
        return None;
    }
    let off: u64 = addr - base;
    if off > size as u64 || len > size - off as usize {
        return None;
    }
    Some(off as usize)
}

/// The name field of a binderfs device: the bytes of the name, then zeros.
pub open spec fn name_field(name: Seq<u8>) -> Seq<u8> {
    Seq::new(
        256,
        |i: int|
            if i < name.len() {
                name[i]
            } else {
                0u8
            },
    )
}

/// The name field of a binderfs device; a name that leaves no room for its terminator is refused.
pub fn device_name(name: &[u8]) -> (r: Result<Vec<u8>, String>)
    ensures
        match r {
            Ok(field) => name@.len() < BINDERFS_NAME_CAP && field@ == name_field(name@)
                && field@.last() == 0,
            Err(m) => name@.len() >= BINDERFS_NAME_CAP && m@ == "binderfs device name too long"@,
        },
{
    if name.len() >= BINDERFS_NAME_CAP {
        return Err("binderfs device name too long".to_owned());
    }
    let mut field: Vec<u8> = Vec::new();
    let mut i: usize = 0;
    while i < BINDERFS_NAME_CAP
        invariant
            i <= BINDERFS_NAME_CAP,
            field@ == name_field(name@).take(i as int),
        decreases BINDERFS_NAME_CAP - i,
    {
        field.push(
            if i < name.len() {
                name[i]
            } else {
                0
            },
        );
        assert(field@ =~= name_field(name@).take(i + 1));
        i = i + 1;
    }
    assert(field@ =~= name_field(name@));
    Ok(field)
}

/// The mount options of a binderfs instance with room for `max` devices.
pub fn mount_options(max: u32) -> (r: String)
    ensures
        r@ == "max="@ + decimal::dec(max as nat),
{
    let n = decimal::dec_text(max as u64);
    concat2("max=", n.as_str())
}

// ---- one cycle -----------------------------------------------------------------

/// The commands of a read buffer, up to its end or to what cannot be read.
pub open spec fn stream(b: Seq<u8>) -> Seq<Br>
    decreases b.len(),
{
    match proto::first_command(b) {
        Some(p) => if 0 < p.1 <= b.len() {
            seq![p.0] + stream(b.skip(p.1))
        } else {
            seq![]
        },
        None => seq![],
    }
}

/// The commands of a read buffer.
pub fn commands(buf: &[u8]) -> (out: Vec<Br>)
    ensures
        out@ == stream(buf@),
{
    let mut out: Vec<Br> = Vec::new();
    let mut at: usize = 0;
    assert(buf@.skip(0) =~= buf@);
    loop
        invariant
            at <= buf@.len(),
            buf.len() == buf@.len(),
            out@ + stream(buf@.skip(at as int)) == stream(buf@),
        decreases buf@.len() - at,
    {
        let rest = vstd::slice::slice_subrange(buf, at, buf.len());
        assert(rest@ =~= buf@.skip(at as int));
        match parse(rest) {
            None => {
                assert(out@ + seq![] =~= out@);
                return out;
            },
            Some((br, n)) => {
                let ghost before = out@;
                out.push(br);
                proof {
                    assert(rest@.skip(n as int) =~= buf@.skip(at + n));
                    assert(out@ + stream(buf@.skip(at + n)) =~= before + (seq![br] + stream(
                        buf@.skip(at + n),
                    )));
                }
                at = at + n;
            },
        }
    }
}

/// What acknowledges the references that the kernel took on our nodes.
pub open spec fn acks(brs: Seq<Br>) -> Seq<u8>
    decreases brs.len(),
{
    if brs.len() == 0 {
        seq![]
    } else {
        acks(brs.drop_last()) + match brs.last() {
            Br::IncRefs { ptr, cookie } => proto::framed(
                BC_INCREFS_DONE,
                wire::le(ptr as nat, 8) + wire::le(cookie as nat, 8),
            ),
            Br::Acquire { ptr, cookie } => proto::framed(
                BC_ACQUIRE_DONE,
                wire::le(ptr as nat, 8) + wire::le(cookie as nat, 8),
            ),
            _ => seq![],
        }
    }
}

/// What acknowledges the references that the kernel took on our nodes; releases need no answer.
pub fn ack_refcounts(brs: &[Br]) -> (out: Vec<u8>)
    ensures
        out@ == acks(brs@),
{
    let mut out: Vec<u8> = Vec::new();
    let mut i: usize = 0;
    assert(brs@.take(0) =~= seq![]);
    while i < brs.len()
        invariant
            i <= brs@.len(),
            out@ == acks(brs@.take(i as int)),
        decreases brs@.len() - i,
    {
        proof {
            assert(brs@.take(i + 1).drop_last() =~= brs@.take(i as int));
            assert(brs@.take(i + 1).last() == brs@[i as int]);
            assert(acks(brs@.take(i as int)) + seq![] =~= acks(brs@.take(i as int)));
        }
        match brs[i] {
            Br::IncRefs { ptr, cookie } => {
                write_ptr_cookie(&mut out, BC_INCREFS_DONE, ptr, cookie);
            },
            Br::Acquire { ptr, cookie } => {
                write_ptr_cookie(&mut out, BC_ACQUIRE_DONE, ptr, cookie);
            },
            _ => {},
        }
        i = i + 1;
    }
    assert(brs@.take(brs@.len() as int) =~= brs@);
    out
}

// ---- a call --------------------------------------------------------------------

/// What the commands of a cycle mean for a call that waits for its reply.
#[derive(Clone, Copy, Debug, PartialEq, Eq, Structural)]
pub enum Verdict {
    /// The reply has come.
    Reply(TransactionData),
    /// The transaction failed.
    Failed,
    /// The target is dead.
    Dead,
    /// The driver reported an error.
    Error(i32),
    /// Nothing decisive; another cycle is needed.
    Pending,
}

/// What one command means for a call that waits for its reply.
pub open spec fn verdict_of(br: Br) -> Verdict {
    match br {
        Br::Reply(td) => Verdict::Reply(td),
        Br::Failed => Verdict::Failed,
        Br::Dead => Verdict::Dead,
        Br::Error(code) => Verdict::Error(code),
        _ => Verdict::Pending,
    }
}

/// The first decisive command.
pub open spec fn outcome(brs: Seq<Br>) -> Verdict
    decreases brs.len(),
{
    if brs.len() == 0 {
        Verdict::Pending
    } else if verdict_of(brs[0]) is Pending {
        outcome(brs.drop_first())
    } else {
        verdict_of(brs[0])
    }
}

/// What the commands of a cycle mean for a call that waits for its reply: the first decisive one
/// counts.
pub fn verdict(brs: &[Br]) -> (r: Verdict)
    ensures
        r == outcome(brs@),
{
    let mut i: usize = 0;
    assert(brs@.skip(0) =~= brs@);
    while i < brs.len()
        invariant
            i <= brs@.len(),
            outcome(brs@) == outcome(brs@.skip(i as int)),
        decreases brs@.len() - i,
    {
        assert(brs@.skip(i as int).drop_first() =~= brs@.skip(i + 1));
        match brs[i] {
            Br::Reply(td) => {
                return Verdict::Reply(td);
            },
            Br::Failed => {
                return Verdict::Failed;
            },
            Br::Dead => {
                return Verdict::Dead;
            },
            Br::Error(code) => {
                return Verdict::Error(code);
            },
            _ => {},
        }
        i = i + 1;
    }
    Verdict::Pending
}

/// Which kind of reply a call waits for.
#[derive(Clone, Copy, Debug, PartialEq, Eq, Structural)]
pub enum Call {
    /// Bytes.
    Data,
    /// A file descriptor.
    Fd,
    /// Bytes, and perhaps a file descriptor.
    DataAndFd,
}

/// What kind of transaction failed, in words.
pub open spec fn call_name(call: Call) -> Seq<char> {
    match call {
        Call::Data => "binder transaction"@,
        Call::Fd => "binder fd transaction"@,
        Call::DataAndFd => "binder data+fd transaction"@,
    }
}

/// The error of a call that ended without a reply, `None` where it goes on or has its reply;
/// `errno` is what the driver adds to a failure.
pub fn call_error(call: Call, verdict: Verdict, errno: i32) -> (r: Option<String>)
    ensures
        match verdict {
            Verdict::Failed => r matches Some(m) && m@ == call_name(call)
                + " failed (BR_FAILED_REPLY, extended errno "@ + decimal::signed(errno as int)
                + ")"@,
            Verdict::Dead => r matches Some(m) && m@ == "binder target dead (BR_DEAD_REPLY)"@,
            Verdict::Error(code) => r matches Some(m) && m@ == "binder driver error "@
                + decimal::signed(code as int),
            _ => r is None,
        },
{
    match verdict {
        Verdict::Failed => {
            let n = signed_text(errno as i64);
            let name = match call {
                Call::Data => "binder transaction",
                Call::Fd => "binder fd transaction",
                Call::DataAndFd => "binder data+fd transaction",
            };
            Some(concat4(name, " failed (BR_FAILED_REPLY, extended errno ", n.as_str(), ")"))
        },
        Verdict::Dead => Some("binder target dead (BR_DEAD_REPLY)".to_owned()),
        Verdict::Error(code) => {
            let n = signed_text(code as i64);
            Some(concat2("binder driver error ", n.as_str()))
        },
        _ => None,
    }
}

/// The outbound transaction of a call: `len` bytes at `addr` for the method `code` of `handle`.
pub fn request(call: Call, handle: u32, code: u32, len: u64, addr: u64) -> (w: Vec<u8>)
    ensures
        w@ == proto::framed(
            proto::BC_TRANSACTION,
            (TransactionData {
                target: handle as u64,
                code,
                flags: if call is Data {
                    0
                } else {
                    TF_ACCEPT_FDS
                },
                data_size: len,
                buffer: addr,
                ..TransactionData::zero()
            }).layout(),
        ),
{
    let td = TransactionData {
        target: handle as u64,
        cookie: 0,
        code,
        flags: match call {
            Call::Data => 0,
            _ => TF_ACCEPT_FDS,
        },
        sender_pid: 0,
        sender_euid: 0,
        data_size: len,
        offsets_size: 0,
        buffer: addr,
        offsets: 0,
    };
    let mut w: Vec<u8> = Vec::new();
    write_transaction(&mut w, false, &td);
    assert(w@ =~= proto::framed(proto::BC_TRANSACTION, td.layout()));
    w
}

/// The reply to a transaction: `len` bytes at `addr`, and the release of its inbound buffer.
pub fn data_reply(incoming: &Incoming, len: u64, addr: u64) -> (w: Vec<u8>)
    ensures
        w@ == proto::framed(
            proto::BC_REPLY,
            (TransactionData { data_size: len, buffer: addr, ..TransactionData::zero() }).layout(),
        ) + proto::framed(proto::BC_FREE_BUFFER, wire::le(incoming.buffer as nat, 8)),
{
    let td = TransactionData {
        target: 0,
        cookie: 0,
        code: 0,
        flags: 0,
        sender_pid: 0,
        sender_euid: 0,
        data_size: len,
        offsets_size: 0,
        buffer: addr,
        offsets: 0,
    };
    let mut w: Vec<u8> = Vec::new();
    write_transaction(&mut w, true, &td);
    assert(w@ =~= proto::framed(proto::BC_REPLY, td.layout()));
    write_free_buffer(&mut w, incoming.buffer);
    w
}

/// The reply to a transaction with a file descriptor: the object of `len` bytes at `addr` that
/// carries it, the only one, as the word at `offsets` tells; and the release of its inbound buffer.
pub fn fd_reply(incoming: &Incoming, len: u64, addr: u64, offsets: u64) -> (w: Vec<u8>)
    ensures
        w@ == proto::framed(
            proto::BC_REPLY,
            (TransactionData {
                flags: TF_ACCEPT_FDS,
                data_size: len,
                offsets_size: 8,
                buffer: addr,
                offsets,
                ..TransactionData::zero()
            }).layout(),
        ) + proto::framed(proto::BC_FREE_BUFFER, wire::le(incoming.buffer as nat, 8)),
{
    let td = TransactionData {
        target: 0,
        cookie: 0,
        code: 0,
        flags: TF_ACCEPT_FDS,
        sender_pid: 0,
        sender_euid: 0,
        data_size: len,
        offsets_size: 8,
        buffer: addr,
        offsets,
    };
    let mut w: Vec<u8> = Vec::new();
    write_transaction(&mut w, true, &td);
    assert(w@ =~= proto::framed(proto::BC_REPLY, td.layout()));
    write_free_buffer(&mut w, incoming.buffer);
    w
}

/// Whether a reply carries an object: it does where it tells the place of one.
pub fn carries_object(reply: &TransactionData) -> (r: bool)
    ensures
        r == (reply.offsets_size >= 8),
{
    reply.offsets_size >= 8
}

/// The address of a reply's object, whose place in the buffer the first word of `offsets` tells.
pub fn object_addr(buffer: u64, offsets: &[u8]) -> (r: Option<u64>)
    ensures
        r == if offsets@.len() < 8 {
            None
        } else {
            Some(
                ((buffer + wire::le_value(offsets@.subrange(0, 8))) % 0x1_0000_0000_0000_0000) as u64,
            )
        },
{
    if offsets.len() < 8 {
        return None;
    }
    let at: u64 = read_le(offsets, 0, 8);
    Some(buffer.wrapping_add(at))
}

/// The file descriptor of an object that carries one.
pub fn carried_fd(raw: Option<i32>) -> (r: Result<i32, String>)
    ensures
        match raw {
            Some(fd) if fd >= 0 => r == Ok::<i32, String>(fd),
            _ => r matches Err(m) && m@ == "reply carried no valid fd object"@,
        },
{
    match raw {
        Some(fd) => if fd >= 0 {
            Ok(fd)
        } else {
            Err("reply carried no valid fd object".to_owned())
        },
        None => Err("reply carried no valid fd object".to_owned()),
    }
}

/// What of a reply is left when its length prefix has been taken off.
pub open spec fn payload_of(b: Seq<u8>) -> Option<Seq<u8>> {
    if b.len() < 4 {
        None
    } else {
        let n = wire::le_value(b.subrange(0, 4)) as int;
        if 4 + n > b.len() {
            None
        } else {
            Some(b.subrange(4, 4 + n))
        }
    }
}

/// The payload of a length-prefixed reply, without the padding behind it.
pub fn reply_payload(buf: &[u8]) -> (r: Result<Vec<u8>, String>)
    ensures
        match r {
            Ok(p) => payload_of(buf@) == Some(p@),
            Err(m) => payload_of(buf@) is None && m@ == if buf@.len() < 4 {
                "reply missing length prefix"@
            } else {
                "reply shorter than its length prefix"@
            },
        },
{
    if buf.len() < 4 {
        return Err("reply missing length prefix".to_owned());
    }
    proof {
        wire::lemma_spans();
    }
    let n: u64 = read_le(buf, 0, 4);
    if n > (buf.len() - 4) as u64 {
        return Err("reply shorter than its length prefix".to_owned());
    }
    let p = vstd::slice::slice_subrange(buf, 4, 4 + n as usize);
    Ok(vstd::slice::slice_to_vec(p))
}

/// Framing a payload behind its length and reading it back gives the payload, whatever padding
/// follows.
pub proof fn law_reply_payload_reads_back(p: Seq<u8>, padding: Seq<u8>)
    requires
        p.len() < 0x1_0000_0000,
    ensures
        payload_of(wire::le(p.len(), 4) + p + padding) == Some(p),
{
    wire::lemma_spans();
    wire::lemma_le_len(p.len(), 4);
    wire::law_le_reads_back(p.len(), 4);
    let b = wire::le(p.len(), 4) + p + padding;
    assert(b.subrange(0, 4) =~= wire::le(p.len(), 4));
    assert(b.subrange(4, 4 + p.len() as int) =~= p);
}

// ---- what holds of the whole ----------------------------------------------------

/// Whether what the driver says ends a call.
pub open spec fn decides(br: Br) -> bool {
    br is Reply || br is Failed || br is Dead || br is Error
}

proof fn lemma_outcome(brs: Seq<Br>, k: int)
    requires
        0 <= k <= brs.len(),
        forall|j: int| 0 <= j < k ==> !decides(#[trigger] brs[j]),
        k < brs.len() ==> decides(brs[k]),
    ensures
        k < brs.len() ==> outcome(brs) == verdict_of(brs[k]),
        k == brs.len() ==> outcome(brs) is Pending,
    decreases brs.len(),
{
    if brs.len() > 0 {
        if k > 0 {
            assert(!decides(brs[0]));
            let rest = brs.drop_first();
            assert forall|j: int| 0 <= j < k - 1 implies !decides(#[trigger] rest[j]) by {
                assert(rest[j] == brs[j + 1]);
            }
            if k < brs.len() {
                assert(rest[k - 1] == brs[k]);
            }
            lemma_outcome(rest, k - 1);
        }
    }
}

/// A call ends with the first thing that ends it, and is pending where nothing does.
pub proof fn law_first_answer_ends_the_call(brs: &[Br], r: Verdict, k: int)
    requires
        call_ensures(verdict, (brs,), r),
        0 <= k <= brs@.len(),
        forall|j: int| 0 <= j < k ==> !decides(#[trigger] brs@[j]),
        k < brs@.len() ==> decides(brs@[k]),
    ensures
        k == brs@.len() ==> r is Pending,
        k < brs@.len() ==> match brs@[k] {
            Br::Reply(td) => r == Verdict::Reply(td),
            Br::Failed => r is Failed,
            Br::Dead => r is Dead,
            Br::Error(code) => r == Verdict::Error(code),
            _ => false,
        },
{
    lemma_outcome(brs@, k);
}

/// A call that failed has an error, and one that was answered or is pending has none.
pub proof fn law_failed_calls_have_an_error(call: Call, v: Verdict, errno: i32, r: Option<String>)
    requires
        call_ensures(call_error, (call, v, errno), r),
    ensures
        r is Some <==> (v is Failed || v is Dead || v is Error),
{
}

/// Each request for a reference is acknowledged with its own pointer and cookie, behind what was
/// acknowledged before, and nothing else is.
pub proof fn law_references_are_acknowledged(a: &[Br], b: &[Br], br: Br, x: Vec<u8>, y: Vec<u8>)
    requires
        call_ensures(ack_refcounts, (a,), x),
        call_ensures(ack_refcounts, (b,), y),
        b@ == a@.push(br),
    ensures
        !(br is IncRefs) && !(br is Acquire) ==> y@ == x@,
        br matches Br::IncRefs { ptr, cookie } ==> y@.len() == x@.len() + 20 && y@.take(
            x@.len() as int,
        ) == x@ && acknowledges(y@.skip(x@.len() as int), BC_INCREFS_DONE, ptr, cookie),
        br matches Br::Acquire { ptr, cookie } ==> y@.len() == x@.len() + 20 && y@.take(
            x@.len() as int,
        ) == x@ && acknowledges(y@.skip(x@.len() as int), BC_ACQUIRE_DONE, ptr, cookie),
{
    assert(b@.drop_last() =~= a@);
    match br {
        Br::IncRefs { ptr, cookie } => {
            lemma_ack(BC_INCREFS_DONE, ptr, cookie);
            let m = proto::framed(
                BC_INCREFS_DONE,
                wire::le(ptr as nat, 8) + wire::le(cookie as nat, 8),
            );
            assert(y@.take(x@.len() as int) =~= x@);
            assert(y@.skip(x@.len() as int) =~= m);
        },
        Br::Acquire { ptr, cookie } => {
            lemma_ack(BC_ACQUIRE_DONE, ptr, cookie);
            let m = proto::framed(
                BC_ACQUIRE_DONE,
                wire::le(ptr as nat, 8) + wire::le(cookie as nat, 8),
            );
            assert(y@.take(x@.len() as int) =~= x@);
            assert(y@.skip(x@.len() as int) =~= m);
        },
        _ => {
            assert(y@ =~= x@);
        },
    }
}

/// Whether the bytes are a command with a pointer and a cookie.
pub open spec fn acknowledges(m: Seq<u8>, command: u32, ptr: u64, cookie: u64) -> bool {
    &&& m.len() == 20
    &&& wire::le_value(m.subrange(0, 4)) == command
    &&& wire::le_value(m.subrange(4, 12)) == ptr
    &&& wire::le_value(m.subrange(12, 20)) == cookie
}

proof fn lemma_widths()
    ensures
        wire::span(4) == 0x1_0000_0000,
        wire::span(8) == 0x1_0000_0000_0000_0000,
        forall|n: nat| #[trigger] wire::le(n, 4).len() == 4,
        forall|n: nat| #[trigger] wire::le(n, 8).len() == 8,
{
    reveal_with_fuel(wire::span, 9);
    assert forall|n: nat| #[trigger] wire::le(n, 4).len() == 4 by {
        reveal_with_fuel(wire::le, 5);
    }
    assert forall|n: nat| #[trigger] wire::le(n, 8).len() == 8 by {
        reveal_with_fuel(wire::le, 9);
    }
}

proof fn lemma_ack(command: u32, ptr: u64, cookie: u64)
    ensures
        acknowledges(
            proto::framed(command, wire::le(ptr as nat, 8) + wire::le(cookie as nat, 8)),
            command,
            ptr,
            cookie,
        ),
{
    lemma_widths();
    let (a, b, c) = (wire::le(command as nat, 4), wire::le(ptr as nat, 8), wire::le(cookie as nat, 8));
    let m = proto::framed(command, b + c);
    assert(m.subrange(0, 4) =~= a);
    assert(m.subrange(4, 12) =~= b);
    assert(m.subrange(12, 20) =~= c);
    wire::law_le_reads_back(command as nat, 4);
    wire::law_le_reads_back(ptr as nat, 8);
    wire::law_le_reads_back(cookie as nat, 8);
}

/// A request is read by the driver as what it is: to its handle, with its code and its data, taking
/// descriptors back just where the call wants one.
pub proof fn law_request_is_read_as_made(
    call: Call,
    handle: u32,
    code: u32,
    len: u64,
    addr: u64,
    w: Vec<u8>,
)
    requires
        call_ensures(request, (call, handle, code, len, addr), w),
    ensures
        w@.len() == 68,
        wire::le_value(w@.subrange(0, 4)) == proto::BC_TRANSACTION,
        ({
            let td = TransactionData::from_layout(w@.subrange(4, 68));
            &&& td.target == handle
            &&& td.code == code
            &&& td.data_size == len
            &&& td.buffer == addr
            &&& td.offsets_size == 0
            &&& td.flags == (if call is Data {
                0u32
            } else {
                TF_ACCEPT_FDS
            })
        }),
{
    lemma_widths();
    let td = TransactionData {
        target: handle as u64,
        code,
        flags: if call is Data {
            0
        } else {
            TF_ACCEPT_FDS
        },
        data_size: len,
        buffer: addr,
        ..TransactionData::zero()
    };
    proto::law_transaction_data_reads_back(td);
    wire::law_le_reads_back(proto::BC_TRANSACTION as nat, 4);
    assert(w@.subrange(0, 4) =~= wire::le(proto::BC_TRANSACTION as nat, 4));
    assert(w@.subrange(4, 68) =~= td.layout());
}

/// A reply carries its data, and behind it the buffer of what is answered is given back.
pub proof fn law_reply_gives_the_buffer_back(
    incoming: &Incoming,
    len: u64,
    addr: u64,
    offsets: u64,
    w: Vec<u8>,
    f: Vec<u8>,
)
    requires
        call_ensures(data_reply, (incoming, len, addr), w),
        call_ensures(fd_reply, (incoming, len, addr, offsets), f),
    ensures
        replies(w@, len, addr, incoming.buffer),
        replies(f@, len, addr, incoming.buffer),
        TransactionData::from_layout(w@.subrange(4, 68)).offsets_size == 0,
        TransactionData::from_layout(f@.subrange(4, 68)).offsets_size == 8,
        TransactionData::from_layout(f@.subrange(4, 68)).offsets == offsets,
{
    let td = TransactionData { data_size: len, buffer: addr, ..TransactionData::zero() };
    let fd = TransactionData {
        flags: TF_ACCEPT_FDS,
        data_size: len,
        offsets_size: 8,
        buffer: addr,
        offsets,
        ..TransactionData::zero()
    };
    lemma_reply(td, incoming.buffer, w@);
    lemma_reply(fd, incoming.buffer, f@);
}

/// Whether the bytes are a reply with the data and then give a buffer back.
pub open spec fn replies(w: Seq<u8>, len: u64, addr: u64, buffer: u64) -> bool {
    let td = TransactionData::from_layout(w.subrange(4, 68));
    &&& w.len() == 80
    &&& wire::le_value(w.subrange(0, 4)) == proto::BC_REPLY
    &&& td.data_size == len
    &&& td.buffer == addr
    &&& wire::le_value(w.subrange(68, 72)) == proto::BC_FREE_BUFFER
    &&& wire::le_value(w.subrange(72, 80)) == buffer
}

proof fn lemma_reply(td: TransactionData, buffer: u64, w: Seq<u8>)
    requires
        w == proto::framed(proto::BC_REPLY, td.layout()) + proto::framed(
            proto::BC_FREE_BUFFER,
            wire::le(buffer as nat, 8),
        ),
    ensures
        replies(w, td.data_size, td.buffer, buffer),
        TransactionData::from_layout(w.subrange(4, 68)) == td,
{
    lemma_widths();
    proto::law_transaction_data_reads_back(td);
    wire::law_le_reads_back(proto::BC_REPLY as nat, 4);
    wire::law_le_reads_back(proto::BC_FREE_BUFFER as nat, 4);
    wire::law_le_reads_back(buffer as nat, 8);
    assert(w.subrange(0, 4) =~= wire::le(proto::BC_REPLY as nat, 4));
    assert(w.subrange(4, 68) =~= td.layout());
    assert(w.subrange(68, 72) =~= wire::le(proto::BC_FREE_BUFFER as nat, 4));
    assert(w.subrange(72, 80) =~= wire::le(buffer as nat, 8));
}

/// What the driver sends is read one after the other: a reply, and then whatever follows it.
pub proof fn law_commands_are_read_in_order(
    td: TransactionData,
    buf: &[u8],
    rest: &[u8],
    x: Vec<Br>,
    y: Vec<Br>,
)
    requires
        call_ensures(commands, (buf,), x),
        call_ensures(commands, (rest,), y),
        buf@ == proto::framed(proto::BR_REPLY, td.layout()) + rest@,
    ensures
        x@ == seq![Br::Reply(td)] + y@,
{
    proto::law_transaction_parses_back(td, rest@);
    lemma_widths();
    proto::law_transaction_data_reads_back(td);
    assert(buf@.skip(68) =~= rest@);
}

/// The name of a device is kept whole, with nothing but zeros behind it.
pub proof fn law_device_name_is_kept(name: &[u8], r: Result<Vec<u8>, String>)
    requires
        call_ensures(device_name, (name,), r),
    ensures
        r is Ok <==> name@.len() < 256,
        r matches Ok(f) ==> f@.len() == 256 && f@.take(name@.len() as int) == name@,
        r matches Ok(f) ==> forall|i: int| name@.len() <= i < 256 ==> #[trigger] f@[i] == 0,
{
    if let Ok(f) = r {
        assert(f@.take(name@.len() as int) =~= name@);
    }
}

/// A descriptor is taken from a reply just where it is none that is negative.
pub proof fn law_carried_descriptors_are_valid(raw: Option<i32>, r: Result<i32, String>)
    requires
        call_ensures(carried_fd, (raw,), r),
    ensures
        r is Ok <==> (raw matches Some(fd) && fd >= 0),
        r matches Ok(fd) ==> raw == Some(fd),
{
}

/// What is read of a mapping lies in it, and what lies in it is read.
pub proof fn law_reads_stay_in_the_mapping(base: u64, size: usize, addr: u64, len: usize, r: Option<usize>)
    requires
        call_ensures(window, (base, size, addr, len), r),
    ensures
        r is Some <==> base <= addr && addr + len <= base + size,
        r matches Some(off) ==> base + off == addr && off + len <= size,
{
}

/// A version other than the one that is spoken is refused.
pub proof fn law_one_version_is_spoken(version: i32, r: Result<(), String>)
    requires
        call_ensures(check_version, (version,), r),
    ensures
        r is Ok <==> version == 8,
{
}

/// An object stands at its offset in the buffer.
pub proof fn law_object_stands_at_its_offset(buffer: u64, offsets: &[u8], r: Option<u64>, at: u64)
    requires
        call_ensures(object_addr, (buffer, offsets), r),
        offsets@ == wire::le(at as nat, 8),
        buffer + at <= u64::MAX,
    ensures
        r == Some((buffer + at) as u64),
{
    lemma_widths();
    wire::law_le_reads_back(at as nat, 8);
    assert(offsets@.subrange(0, 8) =~= offsets@);
}

} // verus!
