//! What the network delegates of a kennel are told: the commands to dial and to listen, as bytes.
//!
//! Both sides of each message are here, so that what one writes is what the other reads.

use crate::decimal;
use crate::decimal::parse_u16;
use crate::text;
use crate::text::concat3;
use crate::wire;
use crate::wire::{push_be16, read_be16};
use vstd::prelude::*;
use vstd::string::*;

verus! {

/// The byte ahead of four address bytes.
pub const TAG_V4: u8 = 4;

/// The byte ahead of sixteen address bytes.
pub const TAG_V6: u8 = 6;

/// How many addresses a command carries at most.
pub const MAX_ADDRS: usize = 16;

/// An address.
#[derive(Debug, Clone, Copy)]
pub enum Addr {
    /// Of four bytes.
    V4([u8; 4]),
    /// Of sixteen bytes.
    V6([u8; 16]),
}

impl Addr {
    /// The bytes of the address; how many they are tells its family.
    pub open spec fn octets(self) -> Seq<u8> {
        match self {
            Addr::V4(a) => a@,
            Addr::V6(a) => a@,
        }
    }
}

/// The bytes of addresses.
pub open spec fn octets_of(v: Seq<Addr>) -> Seq<Seq<u8>> {
    v.map_values(|a: Addr| a.octets())
}

/// Whether bytes are an address.
pub open spec fn is_addr(o: Seq<u8>) -> bool {
    o.len() == 4 || o.len() == 16
}

/// An address in a message: its tag and its bytes.
pub open spec fn tagged(o: Seq<u8>) -> Seq<u8> {
    seq![
        if o.len() == 4 {
            TAG_V4
        } else {
            TAG_V6
        },
    ] + o
}

/// The address at the start of bytes, and what is behind it.
pub open spec fn addr_in(b: Seq<u8>) -> Option<(Seq<u8>, Seq<u8>)> {
    if b.len() >= 5 && b[0] == TAG_V4 {
        Some((b.subrange(1, 5), b.skip(5)))
    } else if b.len() >= 17 && b[0] == TAG_V6 {
        Some((b.subrange(1, 17), b.skip(17)))
    } else {
        None
    }
}

proof fn lemma_addr_in(o: Seq<u8>, rest: Seq<u8>)
    requires
        is_addr(o),
    ensures
        addr_in(tagged(o) + rest) == Some((o, rest)),
{
    let b = tagged(o) + rest;
    assert(b.subrange(1, 1 + o.len() as int) =~= o);
    assert(b.skip(1 + o.len() as int) =~= rest);
}

proof fn lemma_addr_out(b: Seq<u8>)
    requires
        addr_in(b) is Some,
    ensures
        is_addr((addr_in(b)->0).0),
        b == tagged((addr_in(b)->0).0) + (addr_in(b)->0).1,
{
    let (o, rest) = addr_in(b)->0;
    assert(b =~= tagged(o) + rest);
}

fn push_addr(out: &mut Vec<u8>, a: &Addr)
    ensures
        final(out)@ == old(out)@ + tagged(a.octets()),
{
    let ghost base = out@;
    match a {
        Addr::V4(o) => {
            out.push(TAG_V4);
            let mut i: usize = 0;
            assert(out@ =~= base + seq![TAG_V4] + o@.take(0));
            while i < 4
                invariant
                    i <= 4,
                    o@.len() == 4,
                    out@ == base + seq![TAG_V4] + o@.take(i as int),
                decreases 4 - i,
            {
                out.push(o[i]);
                i = i + 1;
                assert(out@ =~= base + seq![TAG_V4] + o@.take(i as int));
            }
            assert(o@.take(4) =~= o@);
            assert(out@ =~= base + tagged(a.octets()));
        },
        Addr::V6(o) => {
            out.push(TAG_V6);
            let mut i: usize = 0;
            assert(out@ =~= base + seq![TAG_V6] + o@.take(0));
            while i < 16
                invariant
                    i <= 16,
                    o@.len() == 16,
                    out@ == base + seq![TAG_V6] + o@.take(i as int),
                decreases 16 - i,
            {
                out.push(o[i]);
                i = i + 1;
                assert(out@ =~= base + seq![TAG_V6] + o@.take(i as int));
            }
            assert(o@.take(16) =~= o@);
            assert(out@ =~= base + tagged(a.octets()));
        },
    }
}

/// The address at `at`, and where it ends.
fn read_addr(b: &[u8], at: usize) -> (r: Option<(Addr, usize)>)
    requires
        at <= b@.len(),
    ensures
        match addr_in(b@.skip(at as int)) {
            Some((o, rest)) => r matches Some(p) && p.0.octets() == o && at < p.1 <= b@.len()
                && b@.skip(p.1 as int) == rest,
            None => r is None,
        },
{
    let n: usize = b.len() - at;
    let ghost s = b@.skip(at as int);
    if n >= 5 && b[at] == TAG_V4 {
        let o: [u8; 4] = [b[at + 1], b[at + 2], b[at + 3], b[at + 4]];
        proof {
            assert(o@ =~= s.subrange(1, 5));
            assert(b@.skip(at + 5) =~= s.skip(5));
        }
        Some((Addr::V4(o), at + 5))
    } else if n >= 17 && b[at] == TAG_V6 {
        let o: [u8; 16] = [
            b[at + 1],
            b[at + 2],
            b[at + 3],
            b[at + 4],
            b[at + 5],
            b[at + 6],
            b[at + 7],
            b[at + 8],
            b[at + 9],
            b[at + 10],
            b[at + 11],
            b[at + 12],
            b[at + 13],
            b[at + 14],
            b[at + 15],
            b[at + 16],
        ];
        proof {
            assert(o@ =~= s.subrange(1, 17));
            assert(b@.skip(at + 17) =~= s.skip(17));
        }
        Some((Addr::V6(o), at + 17))
    } else {
        None
    }
}

// ---- listening -----------------------------------------------------------------

/// The registration of an address and a port to listen on.
pub open spec fn bind_bytes(o: Seq<u8>, port: u16) -> Seq<u8> {
    tagged(o) + wire::be16(port as int)
}

/// The registration of an address and a port to listen on.
pub fn encode_bind(addr: Addr, port: u16) -> (out: Vec<u8>)
    ensures
        out@ == bind_bytes(addr.octets(), port),
{
    let mut out: Vec<u8> = Vec::new();
    push_addr(&mut out, &addr);
    assert(out@ =~= tagged(addr.octets()));
    push_be16(&mut out, port);
    out
}

/// What a registration says: nothing where it is short, of an unknown family, or has bytes left.
pub open spec fn bind_in(b: Seq<u8>) -> Option<(Seq<u8>, u16)> {
    match addr_in(b) {
        Some((o, rest)) if rest.len() == 2 => Some((o, (rest[0] * 256 + rest[1]) as u16)),
        _ => None,
    }
}

/// What a registration says.
pub fn decode_bind(data: &[u8]) -> (r: Option<(Addr, u16)>)
    ensures
        match bind_in(data@) {
            Some((o, port)) => r matches Some(p) && p.0.octets() == o && p.1 == port,
            None => r is None,
        },
{
    assert(data@.skip(0) =~= data@);
    match read_addr(data, 0) {
        None => None,
        Some((a, end)) => {
            let ghost rest = data@.skip(end as int);
            if data.len() - end == 2 {
                proof {
                    assert(rest[0] == data@[end as int]);
                    assert(rest[1] == data@[end + 1]);
                }
                Some((a, read_be16(data[end], data[end + 1])))
            } else {
                None
            }
        },
    }
}

/// A registration is read back as it was written.
pub proof fn law_bind_reads_back(o: Seq<u8>, port: u16)
    requires
        is_addr(o),
    ensures
        bind_in(bind_bytes(o, port)) == Some((o, port)),
{
    lemma_addr_in(o, wire::be16(port as int));
    assert((port as int / 256) * 256 + port as int % 256 == port);
}

/// Nothing but a registration is read as one: what is read is what was written, byte for byte.
pub proof fn law_bind_writes_back(b: Seq<u8>)
    requires
        bind_in(b) is Some,
    ensures
        is_addr((bind_in(b)->0).0),
        b == bind_bytes((bind_in(b)->0).0, (bind_in(b)->0).1),
{
    lemma_addr_out(b);
    let (o, rest) = addr_in(b)->0;
    let port = (bind_in(b)->0).1;
    assert(port == rest[0] * 256 + rest[1]);
    assert(port as int / 256 == rest[0] && port as int % 256 == rest[1]);
    assert(rest =~= wire::be16(port as int));
}

/// What is said beside an accepted connection: its port.
pub fn encode_notify(port: u16) -> (r: [u8; 2])
    ensures
        r@ == wire::be16(port as int),
{
    let r: [u8; 2] = [(port / 256) as u8, (port % 256) as u8];
    assert(r@ =~= wire::be16(port as int));
    r
}

/// What a listener does with what it is sent.
#[derive(Debug)]
pub enum Registration {
    /// Nothing: files came with it.
    Dropped,
    /// Nothing but a complaint.
    Malformed,
    /// It listens.
    Listen(Addr, u16),
}

/// What a listener does with what it is sent: a registration carries no files.
pub fn registration(files: usize, data: &[u8]) -> (r: Registration)
    ensures
        if files > 0 {
            r is Dropped
        } else {
            match bind_in(data@) {
                Some((o, port)) => r matches Registration::Listen(a, p) && a.octets() == o && p
                    == port,
                None => r is Malformed,
            }
        },
{
    if files > 0 {
        return Registration::Dropped;
    }
    match decode_bind(data) {
        Some((a, p)) => Registration::Listen(a, p),
        None => Registration::Malformed,
    }
}

// ---- dialling ------------------------------------------------------------------

/// Addresses in a message, one after the other.
pub open spec fn all_tagged(v: Seq<Seq<u8>>) -> Seq<u8>
    decreases v.len(),
{
    if v.len() == 0 {
        seq![]
    } else {
        all_tagged(v.drop_last()) + tagged(v.last())
    }
}

/// The addresses that a command carries: the first ones.
pub open spec fn carried(v: Seq<Seq<u8>>) -> Seq<Seq<u8>> {
    if v.len() > MAX_ADDRS {
        v.take(MAX_ADDRS as int)
    } else {
        v
    }
}

/// The command to dial a port of addresses.
pub open spec fn command_bytes(port: u16, v: Seq<Seq<u8>>) -> Seq<u8> {
    wire::be16(port as int) + seq![carried(v).len() as u8] + all_tagged(carried(v))
}

/// The command to dial a port of addresses, tried in their order; addresses past [`MAX_ADDRS`] are
/// left out.
pub fn encode_command(port: u16, addrs: &[Addr]) -> (out: Vec<u8>)
    ensures
        out@ == command_bytes(port, octets_of(addrs@)),
{
    let ghost all = octets_of(addrs@);
    let mut n: usize = addrs.len();
    if n > MAX_ADDRS {
        n = MAX_ADDRS;
    }
    let mut out: Vec<u8> = Vec::new();
    push_be16(&mut out, port);
    out.push(n as u8);
    let ghost head = out@;
    let mut i: usize = 0;
    proof {
        assert(head =~= wire::be16(port as int) + seq![carried(all).len() as u8]);
        assert(all.take(0) =~= seq![]);
        assert(out@ =~= head + all_tagged(all.take(0)));
    }
    while i < n
        invariant
            i <= n <= addrs@.len(),
            all == octets_of(addrs@),
            out@ == head + all_tagged(all.take(i as int)),
        decreases n - i,
    {
        proof {
            assert(all.take(i + 1).drop_last() =~= all.take(i as int));
            assert(all.take(i + 1).last() == addrs@[i as int].octets());
        }
        push_addr(&mut out, &addrs[i]);
        i = i + 1;
        assert(out@ =~= head + all_tagged(all.take(i as int)));
    }
    assert(all.take(n as int) =~= carried(all));
    out
}

/// The `count` addresses that bytes are, no more and no less.
pub open spec fn addrs_in(b: Seq<u8>, count: nat) -> Option<Seq<Seq<u8>>>
    decreases count,
{
    if count == 0 {
        if b.len() == 0 {
            Some(seq![])
        } else {
            None
        }
    } else {
        match addr_in(b) {
            None => None,
            Some((o, rest)) => match addrs_in(rest, (count - 1) as nat) {
                None => None,
                Some(v) => Some(seq![o] + v),
            },
        }
    }
}

/// What a command says: nothing where it is short, carries no or too many addresses, one of an
/// unknown family, or has bytes left.
pub open spec fn command_in(b: Seq<u8>) -> Option<(u16, Seq<Seq<u8>>)> {
    if b.len() < 3 || b[2] == 0 || b[2] > MAX_ADDRS {
        None
    } else {
        match addrs_in(b.skip(3), b[2] as nat) {
            None => None,
            Some(v) => Some(((b[0] * 256 + b[1]) as u16, v)),
        }
    }
}

/// What a command says.
pub fn decode_command(data: &[u8]) -> (r: Option<(u16, Vec<Addr>)>)
    ensures
        match command_in(data@) {
            Some((port, v)) => r matches Some(p) && p.0 == port && octets_of(p.1@) == v,
            None => r is None,
        },
{
    let n: usize = data.len();
    if n < 3 {
        return None;
    }
    let port: u16 = read_be16(data[0], data[1]);
    let count: usize = data[2] as usize;
    if count == 0 || count > MAX_ADDRS {
        return None;
    }
    let ghost body = data@.skip(3);
    let mut addrs: Vec<Addr> = Vec::new();
    let mut at: usize = 3;
    let mut i: usize = 0;
    proof {
        assert(octets_of(addrs@) =~= seq![]);
        if let Some(v) = addrs_in(body, count as nat) {
            assert(seq![] + v =~= v);
        }
    }
    while i < count
        invariant
            i <= count <= MAX_ADDRS,
            n == data@.len(),
            3 <= at <= n,
            count == data@[2],
            count > 0,
            body == data@.skip(3),
            addrs_in(body, count as nat) == (match addrs_in(
                data@.skip(at as int),
                (count - i) as nat,
            ) {
                Some(v) => Some(octets_of(addrs@) + v),
                None => None::<Seq<Seq<u8>>>,
            }),
        decreases count - i,
    {
        match read_addr(data, at) {
            None => {
                return None;
            },
            Some((a, end)) => {
                let ghost before = addrs@;
                addrs.push(a);
                proof {
                    assert(octets_of(addrs@) =~= octets_of(before).push(a.octets()));
                    if let Some(v) = addrs_in(data@.skip(end as int), (count - i - 1) as nat) {
                        assert(octets_of(before) + (seq![a.octets()] + v) =~= octets_of(addrs@)
                            + v);
                    }
                }
                at = end;
            },
        }
        i = i + 1;
    }
    assert(octets_of(addrs@) + seq![] =~= octets_of(addrs@));
    if at == n {
        Some((port, addrs))
    } else {
        None
    }
}

proof fn lemma_addrs_in(v: Seq<Seq<u8>>)
    requires
        forall|i: int| 0 <= i < v.len() ==> is_addr(#[trigger] v[i]),
    ensures
        addrs_in(all_tagged(v), v.len()) == Some(v),
    decreases v.len(),
{
    if v.len() > 0 {
        let rest = v.drop_first();
        assert forall|i: int| 0 <= i < rest.len() implies is_addr(#[trigger] rest[i]) by {
            assert(rest[i] == v[i + 1]);
        }
        lemma_addrs_in(rest);
        lemma_tagged_front(v);
        assert(is_addr(v[0]));
        lemma_addr_in(v[0], all_tagged(rest));
        assert(seq![v[0]] + rest =~= v);
    } else {
        assert(v =~= seq![]);
    }
}

proof fn lemma_tagged_front(v: Seq<Seq<u8>>)
    requires
        v.len() > 0,
    ensures
        all_tagged(v) == tagged(v[0]) + all_tagged(v.drop_first()),
    decreases v.len(),
{
    let rest = v.drop_first();
    if v.len() == 1 {
        assert(v.drop_last() =~= seq![]);
        assert(rest =~= seq![]);
        assert(all_tagged(v) =~= tagged(v[0]) + all_tagged(rest));
    } else {
        lemma_tagged_front(v.drop_last());
        assert(v.drop_last().drop_first() =~= rest.drop_last());
        assert(v.drop_last()[0] == v[0]);
        assert(rest.last() == v.last());
        assert(all_tagged(v) =~= tagged(v[0]) + all_tagged(rest));
    }
}

/// A command is read back as it was written, with the addresses that it carries; one that carries
/// none is refused.
pub proof fn law_command_reads_back(port: u16, v: Seq<Seq<u8>>)
    requires
        forall|i: int| 0 <= i < v.len() ==> is_addr(#[trigger] v[i]),
    ensures
        command_in(command_bytes(port, v)) == if v.len() == 0 {
            None::<(u16, Seq<Seq<u8>>)>
        } else {
            Some((port, carried(v)))
        },
{
    let c = carried(v);
    let b = command_bytes(port, v);
    assert forall|i: int| 0 <= i < c.len() implies is_addr(#[trigger] c[i]) by {
        assert(c[i] == v[i]);
    }
    lemma_addrs_in(c);
    assert(b[2] == c.len());
    assert(b.skip(3) =~= all_tagged(c));
    assert(b[0] * 256 + b[1] == port);
}

proof fn lemma_addrs_out(b: Seq<u8>, count: nat)
    requires
        addrs_in(b, count) is Some,
    ensures
        addrs_in(b, count)->0.len() == count,
        all_tagged(addrs_in(b, count)->0) == b,
    decreases count,
{
    let v = addrs_in(b, count)->0;
    if count == 0 {
        assert(b =~= seq![]);
    } else {
        let (o, rest) = addr_in(b)->0;
        lemma_addr_out(b);
        lemma_addrs_out(rest, (count - 1) as nat);
        lemma_tagged_front(v);
        assert(v.drop_first() =~= addrs_in(rest, (count - 1) as nat)->0);
    }
}

/// Nothing but a command is read as one: what is read is what was written, byte for byte.
pub proof fn law_command_writes_back(b: Seq<u8>)
    requires
        command_in(b) is Some,
    ensures
        b == command_bytes((command_in(b)->0).0, (command_in(b)->0).1),
        1 <= (command_in(b)->0).1.len() <= MAX_ADDRS,
{
    let (port, v) = command_in(b)->0;
    lemma_addrs_out(b.skip(3), b[2] as nat);
    assert(port == b[0] * 256 + b[1]);
    assert(port as int / 256 == b[0] && port as int % 256 == b[1]);
    assert(carried(v) == v);
    assert(b =~= command_bytes(port, v));
}

proof fn lemma_tagged_len(v: Seq<Seq<u8>>)
    requires
        forall|i: int| 0 <= i < v.len() ==> is_addr(#[trigger] v[i]),
    ensures
        all_tagged(v).len() <= 17 * v.len(),
    decreases v.len(),
{
    if v.len() > 0 {
        let front = v.drop_last();
        assert forall|i: int| 0 <= i < front.len() implies is_addr(#[trigger] front[i]) by {
            assert(front[i] == v[i]);
        }
        lemma_tagged_len(front);
        assert(is_addr(v[v.len() - 1]));
    }
}

/// Every message fits the buffer that it is received in: a registration in 64 bytes, a command in
/// 512.
pub proof fn law_messages_fit(o: Seq<u8>, port: u16, v: Seq<Seq<u8>>)
    requires
        is_addr(o),
        forall|i: int| 0 <= i < v.len() ==> is_addr(#[trigger] v[i]),
    ensures
        bind_bytes(o, port).len() <= 64,
        command_bytes(port, v).len() <= 512,
{
    let c = carried(v);
    assert forall|i: int| 0 <= i < c.len() implies is_addr(#[trigger] c[i]) by {
        assert(c[i] == v[i]);
    }
    lemma_tagged_len(c);
}

/// What a dialler does with what it is sent: just one file must come with it, the end that is
/// spliced.
pub fn conduit(files: usize, data: &[u8]) -> (r: Option<(u16, Vec<Addr>)>)
    ensures
        match command_in(data@) {
            Some((port, v)) if files == 1 => r matches Some(p) && p.0 == port && octets_of(p.1@)
                == v,
            _ => r is None,
        },
{
    if files != 1 {
        return None;
    }
    decode_command(data)
}

// ---- delivering ----------------------------------------------------------------

/// How long a port that has nothing pending rests, in milliseconds.
pub const REARM_BACKOFF_MS: u64 = 50;

/// The numbers among texts that are ports; what is none is passed over.
pub open spec fn ports_in(v: Seq<Seq<char>>) -> Seq<u16>
    decreases v.len(),
{
    if v.len() == 0 {
        seq![]
    } else {
        match decimal::within(decimal::number(v.last()), u16::MAX as nat) {
            Some(n) => ports_in(v.drop_last()).push(n as u16),
            None => ports_in(v.drop_last()),
        }
    }
}

/// What the deliverer is asked for.
#[derive(Debug)]
pub struct Delivery {
    /// The device.
    pub device: String,
    /// The address of the kennel.
    pub kennel_ip: String,
    /// The ports.
    pub ports: Vec<u16>,
}

/// What the deliverer is asked for: a device, an address, for which `is_ip` tells whether it is one,
/// and ports.
pub fn delivery<F: Fn(&str) -> bool>(list: &[String], is_ip: &F) -> (r: Result<Delivery, String>)
    requires
        forall|s: &str| call_requires(*is_ip, (s,)),
    ensures
        match r {
            Ok(d) => list@.len() >= 2 && d.device@ == list@[0]@ && d.kennel_ip@ == list@[1]@
                && crate::cli::shared::says(*is_ip, list@[1]@, true) && d.ports@ == ports_in(
                text::texts(list@).skip(2),
            ) && d.ports@.len() > 0,
            Err(m) => if list@.len() < 2 {
                m@ == "facade-client: usage: <binder-device> <kennel-ip> <port>..."@
            } else {
                ||| m@ == "facade-client: bad kennel ip `"@ + list@[1]@ + "`"@
                    && crate::cli::shared::says(*is_ip, list@[1]@, false)
                ||| m@ == "facade-client: no mirrored ports to service"@
                    && crate::cli::shared::says(*is_ip, list@[1]@, true) && ports_in(
                    text::texts(list@).skip(2),
                ).len() == 0
            },
        },
{
    let n: usize = list.len();
    if n < 2 {
        return Err("facade-client: usage: <binder-device> <kennel-ip> <port>...".to_owned());
    }
    let ip = list[1].as_str();
    let good = is_ip(ip);
    assert(call_ensures(*is_ip, (ip,), good));
    assert(crate::cli::shared::says(*is_ip, list@[1]@, good));
    if !good {
        return Err(concat3("facade-client: bad kennel ip `", ip, "`"));
    }
    let ghost rest = text::texts(list@).skip(2);
    let mut ports: Vec<u16> = Vec::new();
    let mut i: usize = 2;
    assert(rest.take(0) =~= seq![]);
    while i < n
        invariant
            2 <= i <= n,
            n == list@.len(),
            rest == text::texts(list@).skip(2),
            ports@ == ports_in(rest.take(i - 2)),
        decreases n - i,
    {
        proof {
            assert(rest.take(i - 1).drop_last() =~= rest.take(i - 2));
            assert(rest.take(i - 1).last() == list@[i as int]@);
        }
        if let Some(p) = parse_u16(list[i].as_str()) {
            ports.push(p);
        }
        i = i + 1;
    }
    assert(rest.take(n - 2) =~= rest);
    if ports.len() == 0 {
        return Err("facade-client: no mirrored ports to service".to_owned());
    }
    Ok(Delivery { device: list[0].clone(), kennel_ip: list[1].clone(), ports })
}

/// What follows a request for a pending connection.
#[derive(Debug, Clone, Copy, PartialEq, Eq, Structural)]
pub enum Pulled {
    /// The connection is delivered, and the next one is asked for at once.
    Deliver,
    /// Nothing is pending: the port rests.
    Rest,
}

/// What follows a request for a pending connection: a conduit came with the reply, or the reply says
/// that nothing is pending, or neither, which is an error.
pub fn pulled(conduit: bool, again: bool) -> (r: Result<Pulled, &'static str>)
    ensures
        if conduit {
            r == Ok::<Pulled, &'static str>(Pulled::Deliver)
        } else if again {
            r == Ok::<Pulled, &'static str>(Pulled::Rest)
        } else {
            r matches Err(m) && m@ == "BIND_INET reply carried neither a conduit nor AGAIN"@
        },
{
    if conduit {
        Ok(Pulled::Deliver)
    } else if again {
        Ok(Pulled::Rest)
    } else {
        Err("BIND_INET reply carried neither a conduit nor AGAIN")
    }
}

// ---- what holds of the whole ----------------------------------------------------

/// A registration is a tag, the address and the port, the high byte first.
pub proof fn law_registration_is_laid_out(addr: Addr, port: u16, out: Vec<u8>)
    requires
        call_ensures(encode_bind, (addr, port), out),
    ensures
        addr is V4 ==> out@.len() == 7 && out@[0] == 4,
        addr is V6 ==> out@.len() == 19 && out@[0] == 6,
        out@.subrange(1, out@.len() - 2) == addr.octets(),
        out@[out@.len() - 2] as int * 256 + out@[out@.len() - 1] as int == port,
{
    let o = addr.octets();
    assert(out@.subrange(1, out@.len() - 2) =~= o);
    assert(port as int / 256 < 256);
    assert((port as int / 256) as u8 as int == port as int / 256);
    assert((port as int % 256) as u8 as int == port as int % 256);
}

/// The port that is told is written with its high byte first, and a command starts with it.
pub proof fn law_port_is_written_high_byte_first(port: u16, r: [u8; 2], addrs: &[Addr], out: Vec<u8>)
    requires
        call_ensures(encode_notify, (port,), r),
        call_ensures(encode_command, (port, addrs), out),
    ensures
        r@[0] as int * 256 + r@[1] as int == port,
        out@.len() >= 3,
        out@[0] as int * 256 + out@[1] as int == port,
        addrs@.len() <= 16 ==> out@[2] == addrs@.len(),
        addrs@.len() > 16 ==> out@[2] == 16,
{
    assert(octets_of(addrs@).len() == addrs@.len());
    assert((port as int / 256) as u8 as int == port as int / 256);
    assert((port as int % 256) as u8 as int == port as int % 256);
}

/// What was registered is what is listened on, and what comes with a file is dropped.
pub proof fn law_registered_address_is_listened_on(
    addr: Addr,
    port: u16,
    out: Vec<u8>,
    data: &[u8],
    files: usize,
    r: Registration,
)
    requires
        call_ensures(encode_bind, (addr, port), out),
        call_ensures(registration, (files, data), r),
        data@ == out@,
    ensures
        files > 0 ==> r is Dropped,
        files == 0 ==> (r matches Registration::Listen(a, p) && a.octets() == addr.octets() && p
            == port),
{
    law_bind_reads_back(addr.octets(), port);
}

/// A command reaches its reader with the port and up to sixteen addresses, in their order; it takes
/// one file with it.
pub proof fn law_command_reaches_its_reader(
    port: u16,
    addrs: &[Addr],
    out: Vec<u8>,
    data: &[u8],
    files: usize,
    r: Option<(u16, Vec<Addr>)>,
)
    requires
        call_ensures(encode_command, (port, addrs), out),
        call_ensures(conduit, (files, data), r),
        data@ == out@,
    ensures
        r is Some <==> (files == 1 && addrs@.len() > 0),
        r matches Some(p) ==> p.0 == port && octets_of(p.1@) == (if addrs@.len() > 16 {
            octets_of(addrs@).take(16)
        } else {
            octets_of(addrs@)
        }),
{
    let v = octets_of(addrs@);
    assert(v.len() == addrs@.len());
    assert forall|i: int| 0 <= i < v.len() implies is_addr(#[trigger] v[i]) by {}
    law_command_reads_back(port, v);
}

proof fn lemma_ports(v: Seq<Seq<char>>, i: int, n: u16)
    requires
        0 <= i < v.len(),
        decimal::number(v[i]) == Some(n as nat),
    ensures
        ports_in(v).contains(n),
    decreases v.len(),
{
    let front = v.drop_last();
    let all = ports_in(v);
    if i < front.len() {
        lemma_ports(front, i, n);
        let k = choose|k: int| 0 <= k < ports_in(front).len() && ports_in(front)[k] == n;
        assert(all[k] == n);
    } else {
        assert(all.last() == n);
    }
}

/// Every port that is named is mirrored.
pub proof fn law_every_named_port_is_mirrored<F: Fn(&str) -> bool>(
    list: &[String],
    is_ip: &F,
    r: Result<Delivery, String>,
    d: Delivery,
    i: int,
    port: u16,
)
    requires
        call_ensures(delivery::<F>, (list, is_ip), r),
        r == Ok::<Delivery, String>(d),
        2 <= i < list@.len(),
        text::texts(list@)[i] == decimal::dec(port as nat),
    ensures
        d.ports@.contains(port),
        d.device@ == text::texts(list@)[0],
        d.kennel_ip@ == text::texts(list@)[1],
{
    decimal::law_number_reads_dec(port as nat);
    let rest = text::texts(list@).skip(2);
    assert(rest[i - 2] == text::texts(list@)[i]);
    lemma_ports(rest, i - 2, port);
}

/// A conduit is delivered whatever else the answer says, and a reader rests only where it is told to
/// come again.
pub proof fn law_conduit_is_delivered(conduit: bool, again: bool, r: Result<Pulled, &'static str>)
    requires
        call_ensures(pulled, (conduit, again), r),
    ensures
        (r matches Ok(p) && p is Deliver) <==> conduit,
        (r matches Ok(p) && p is Rest) <==> !conduit && again,
        r is Err <==> !conduit && !again,
{
}

} // verus!
