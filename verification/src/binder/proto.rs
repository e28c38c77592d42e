//! The `BC_*`/`BR_*` command-stream codec.
//!
//! A command is a 32-bit code followed by a payload of fixed size. Numbers are little-endian, the
//! byte order of the 64-bit hosts whose driver ABI this is. What the read buffer holds is decided
//! by the sender, so every field is read within bounds, and a code whose payload size is unknown
//! ends the parse.

use crate::wire;
use crate::wire::{push_le, read_le};
use vstd::prelude::*;

verus! {

// ---- command codes -------------------------------------------------------------

/// The direction bits of a command without payload.
pub const DIR_NONE: u32 = 0;

/// The direction bits of a command that writes its payload to the driver.
pub const DIR_WRITE: u32 = 1;

/// The direction bits of a command whose payload is read from the driver.
pub const DIR_READ: u32 = 2;

/// A command code as the kernel's `_IOC` macro encodes it: direction, payload size, type, number.
pub open spec fn ioc_code(dir: u32, ty: u8, nr: u32, size: u32) -> u32 {
    (dir << 30) | ((size & 0x3fff) << 16) | ((ty as u32) << 8) | nr
}

/// A command code as the kernel's `_IOC` macro encodes it.
pub fn ioc(dir: u32, ty: u8, nr: u32, size: u32) -> (r: u32)
    ensures
        r == ioc_code(dir, ty, nr, size),
{
    (dir << 30) | ((size & 0x3fff) << 16) | ((ty as u32) << 8) | nr
}

/// Size of `struct binder_transaction_data`.
pub const TRANSACTION_DATA_SIZE: usize = 64;

/// Size of `struct binder_ptr_cookie`.
pub const PTR_COOKIE_SIZE: usize = 16;

/// The protocol version of a 64-bit kernel.
pub const PROTOCOL_VERSION: i32 = 8;

/// Begin an outbound transaction.
pub const BC_TRANSACTION: u32 = 0x4040_6300;

/// Reply to a received transaction.
pub const BC_REPLY: u32 = 0x4040_6301;

/// Release a transaction buffer in our map.
pub const BC_FREE_BUFFER: u32 = 0x4008_6303;

/// Weak reference to a handle.
pub const BC_INCREFS: u32 = 0x4004_6304;

/// Strong reference to a handle.
pub const BC_ACQUIRE: u32 = 0x4004_6305;

/// Drop a strong reference to a handle.
pub const BC_RELEASE: u32 = 0x4004_6306;

/// Drop a weak reference to a handle.
pub const BC_DECREFS: u32 = 0x4004_6307;

/// Acknowledge `BR_INCREFS`.
pub const BC_INCREFS_DONE: u32 = 0x4010_6308;

/// Acknowledge `BR_ACQUIRE`.
pub const BC_ACQUIRE_DONE: u32 = 0x4010_6309;

/// Register a spawned looper thread.
pub const BC_REGISTER_LOOPER: u32 = 0x0000_630b;

/// Enter the looper.
pub const BC_ENTER_LOOPER: u32 = 0x0000_630c;

/// Leave the looper.
pub const BC_EXIT_LOOPER: u32 = 0x0000_630d;

/// The driver reports an error.
pub const BR_ERROR: u32 = 0x8004_7200;

/// Success without more.
pub const BR_OK: u32 = 0x0000_7201;

/// An inbound transaction.
pub const BR_TRANSACTION: u32 = 0x8040_7202;

/// A reply to a transaction of ours.
pub const BR_REPLY: u32 = 0x8040_7203;

/// The target is dead.
pub const BR_DEAD_REPLY: u32 = 0x0000_7205;

/// The transaction was accepted.
pub const BR_TRANSACTION_COMPLETE: u32 = 0x0000_7206;

/// Weak reference to a node of ours.
pub const BR_INCREFS: u32 = 0x8010_7207;

/// Strong reference to a node of ours.
pub const BR_ACQUIRE: u32 = 0x8010_7208;

/// A strong reference to a node of ours is gone.
pub const BR_RELEASE: u32 = 0x8010_7209;

/// A weak reference to a node of ours is gone.
pub const BR_DECREFS: u32 = 0x8010_720a;

/// Filler.
pub const BR_NOOP: u32 = 0x0000_720c;

/// The kernel suggests another looper thread.
pub const BR_SPAWN_LOOPER: u32 = 0x0000_720d;

/// The looper may end.
pub const BR_FINISHED: u32 = 0x0000_720e;

/// A node that we watched died.
pub const BR_DEAD_BINDER: u32 = 0x8008_720f;

/// The transaction failed.
pub const BR_FAILED_REPLY: u32 = 0x0000_7211;

/// Transaction flag: no reply is expected.
pub const TF_ONE_WAY: u32 = 0x01;

/// Transaction flag: replies may carry file descriptors.
pub const TF_ACCEPT_FDS: u32 = 0x10;

/// Every command code is the `_IOC` encoding of its direction, type, number and payload size.
pub proof fn law_codes_follow_the_encoding()
    by (bit_vector)
    ensures
        BC_TRANSACTION == ioc_code(DIR_WRITE, 0x63, 0, 64),
        BC_REPLY == ioc_code(DIR_WRITE, 0x63, 1, 64),
        BC_FREE_BUFFER == ioc_code(DIR_WRITE, 0x63, 3, 8),
        BC_INCREFS == ioc_code(DIR_WRITE, 0x63, 4, 4),
        BC_ACQUIRE == ioc_code(DIR_WRITE, 0x63, 5, 4),
        BC_RELEASE == ioc_code(DIR_WRITE, 0x63, 6, 4),
        BC_DECREFS == ioc_code(DIR_WRITE, 0x63, 7, 4),
        BC_INCREFS_DONE == ioc_code(DIR_WRITE, 0x63, 8, 16),
        BC_ACQUIRE_DONE == ioc_code(DIR_WRITE, 0x63, 9, 16),
        BC_REGISTER_LOOPER == ioc_code(DIR_NONE, 0x63, 11, 0),
        BC_ENTER_LOOPER == ioc_code(DIR_NONE, 0x63, 12, 0),
        BC_EXIT_LOOPER == ioc_code(DIR_NONE, 0x63, 13, 0),
        BR_ERROR == ioc_code(DIR_READ, 0x72, 0, 4),
        BR_OK == ioc_code(DIR_NONE, 0x72, 1, 0),
        BR_TRANSACTION == ioc_code(DIR_READ, 0x72, 2, 64),
        BR_REPLY == ioc_code(DIR_READ, 0x72, 3, 64),
        BR_DEAD_REPLY == ioc_code(DIR_NONE, 0x72, 5, 0),
        BR_TRANSACTION_COMPLETE == ioc_code(DIR_NONE, 0x72, 6, 0),
        BR_INCREFS == ioc_code(DIR_READ, 0x72, 7, 16),
        BR_ACQUIRE == ioc_code(DIR_READ, 0x72, 8, 16),
        BR_RELEASE == ioc_code(DIR_READ, 0x72, 9, 16),
        BR_DECREFS == ioc_code(DIR_READ, 0x72, 10, 16),
        BR_NOOP == ioc_code(DIR_NONE, 0x72, 12, 0),
        BR_SPAWN_LOOPER == ioc_code(DIR_NONE, 0x72, 13, 0),
        BR_FINISHED == ioc_code(DIR_NONE, 0x72, 14, 0),
        BR_DEAD_BINDER == ioc_code(DIR_READ, 0x72, 15, 8),
        BR_FAILED_REPLY == ioc_code(DIR_NONE, 0x72, 17, 0),
{
}

// ---- transaction data ----------------------------------------------------------

/// A `struct binder_transaction_data`.
#[derive(Clone, Copy, Debug, PartialEq, Eq, Structural)]
pub struct TransactionData {
    /// The destination handle of an outbound transaction.
    pub target: u64,
    /// The cookie of the target node.
    pub cookie: u64,
    /// The method selector.
    pub code: u32,
    /// `TF_*` flags.
    pub flags: u32,
    /// The sending process, filled in by the kernel.
    pub sender_pid: i32,
    /// The sending user, filled in by the kernel.
    pub sender_euid: u32,
    /// Bytes of transaction data.
    pub data_size: u64,
    /// Bytes of object offsets.
    pub offsets_size: u64,
    /// Address of the data.
    pub buffer: u64,
    /// Address of the offsets.
    pub offsets: u64,
}

impl Default for TransactionData {
    fn default() -> (r: TransactionData)
        ensures
            r == TransactionData::zero(),
    {
        TransactionData {
            target: 0,
            cookie: 0,
            code: 0,
            flags: 0,
            sender_pid: 0,
            sender_euid: 0,
            data_size: 0,
            offsets_size: 0,
            buffer: 0,
            offsets: 0,
        }
    }
}

impl TransactionData {
    /// All fields zero.
    pub open spec fn zero() -> TransactionData {
        TransactionData {
            target: 0,
            cookie: 0,
            code: 0,
            flags: 0,
            sender_pid: 0,
            sender_euid: 0,
            data_size: 0,
            offsets_size: 0,
            buffer: 0,
            offsets: 0,
        }
    }

    /// The 64-byte layout: the fields in order, each at its natural width.
    pub open spec fn layout(self) -> Seq<u8> {
        wire::le(self.target as nat, 8) + wire::le(self.cookie as nat, 8) + wire::le(
            self.code as nat,
            4,
        ) + wire::le(self.flags as nat, 4) + wire::le((self.sender_pid as u32) as nat, 4)
            + wire::le(self.sender_euid as nat, 4) + wire::le(self.data_size as nat, 8) + wire::le(
            self.offsets_size as nat,
            8,
        ) + wire::le(self.buffer as nat, 8) + wire::le(self.offsets as nat, 8)
    }

    /// The fields at their places in a layout of at least 64 bytes.
    pub open spec fn from_layout(b: Seq<u8>) -> TransactionData {
        TransactionData {
            target: wire::le_value(b.subrange(0, 8)) as u64,
            cookie: wire::le_value(b.subrange(8, 16)) as u64,
            code: wire::le_value(b.subrange(16, 20)) as u32,
            flags: wire::le_value(b.subrange(20, 24)) as u32,
            sender_pid: (wire::le_value(b.subrange(24, 28)) as u32) as i32,
            sender_euid: wire::le_value(b.subrange(28, 32)) as u32,
            data_size: wire::le_value(b.subrange(32, 40)) as u64,
            offsets_size: wire::le_value(b.subrange(40, 48)) as u64,
            buffer: wire::le_value(b.subrange(48, 56)) as u64,
            offsets: wire::le_value(b.subrange(56, 64)) as u64,
        }
    }

    /// Appends the 64-byte layout to `out`.
    fn push_layout(&self, out: &mut Vec<u8>)
        ensures
            final(out)@ == old(out)@ + self.layout(),
    {
        push_le(out, self.target, 8);
        push_le(out, self.cookie, 8);
        push_le(out, self.code as u64, 4);
        push_le(out, self.flags as u64, 4);
        push_le(out, self.sender_pid as u32 as u64, 4);
        push_le(out, self.sender_euid as u64, 4);
        push_le(out, self.data_size, 8);
        push_le(out, self.offsets_size, 8);
        push_le(out, self.buffer, 8);
        push_le(out, self.offsets, 8);
        assert(out@ =~= old(out)@ + self.layout());
    }

    /// The 64-byte layout.
    pub fn to_bytes(&self) -> (r: [u8; TRANSACTION_DATA_SIZE])
        ensures
            r@ == self.layout(),
    {
        let mut v: Vec<u8> = Vec::new();
        self.push_layout(&mut v);
        proof {
            lemma_layout_len(*self);
            assert(v@ =~= self.layout());
        }
        let mut r: [u8; TRANSACTION_DATA_SIZE] = [0u8; TRANSACTION_DATA_SIZE];
        let mut i: usize = 0;
        while i < TRANSACTION_DATA_SIZE
            invariant
                i <= TRANSACTION_DATA_SIZE,
                v@.len() == TRANSACTION_DATA_SIZE,
                r@.len() == TRANSACTION_DATA_SIZE,
                forall|j: int| 0 <= j < i ==> r@[j] == v@[j],
            decreases TRANSACTION_DATA_SIZE - i,
        {
            r[i] = v[i];
            i = i + 1;
        }
        assert(r@ =~= v@);
        r
    }

    /// Reads the layout; `None` where `b` is too short for it.
    pub fn from_bytes(b: &[u8]) -> (r: Option<TransactionData>)
        ensures
            r == if b@.len() < TRANSACTION_DATA_SIZE {
                None::<TransactionData>
            } else {
                Some(TransactionData::from_layout(b@))
            },
    {
        if b.len() < TRANSACTION_DATA_SIZE {
            return None;
        }
        proof {
            wire::lemma_spans();
        }
        Some(
            TransactionData {
                target: read_le(b, 0, 8),
                cookie: read_le(b, 8, 8),
                code: read_le(b, 16, 4) as u32,
                flags: read_le(b, 20, 4) as u32,
                sender_pid: read_le(b, 24, 4) as u32 as i32,
                sender_euid: read_le(b, 28, 4) as u32,
                data_size: read_le(b, 32, 8),
                offsets_size: read_le(b, 40, 8),
                buffer: read_le(b, 48, 8),
                offsets: read_le(b, 56, 8),
            },
        )
    }
}

proof fn lemma_layout_len(td: TransactionData)
    ensures
        td.layout().len() == TRANSACTION_DATA_SIZE,
{
    wire::lemma_le_len(td.target as nat, 8);
    wire::lemma_le_len(td.cookie as nat, 8);
    wire::lemma_le_len(td.code as nat, 4);
    wire::lemma_le_len(td.flags as nat, 4);
    wire::lemma_le_len((td.sender_pid as u32) as nat, 4);
    wire::lemma_le_len(td.sender_euid as nat, 4);
    wire::lemma_le_len(td.data_size as nat, 8);
    wire::lemma_le_len(td.offsets_size as nat, 8);
    wire::lemma_le_len(td.buffer as nat, 8);
    wire::lemma_le_len(td.offsets as nat, 8);
}

/// Transaction data is kept through its layout.
pub proof fn law_transaction_data_reads_back(td: TransactionData)
    ensures
        TransactionData::from_layout(td.layout()) == td,
        td.layout().len() == TRANSACTION_DATA_SIZE,
{
    lemma_layout_len(td);
    wire::lemma_spans();
    let b = td.layout();
    wire::lemma_le_len(td.target as nat, 8);
    wire::lemma_le_len(td.cookie as nat, 8);
    wire::lemma_le_len(td.code as nat, 4);
    wire::lemma_le_len(td.flags as nat, 4);
    wire::lemma_le_len((td.sender_pid as u32) as nat, 4);
    wire::lemma_le_len(td.sender_euid as nat, 4);
    wire::lemma_le_len(td.data_size as nat, 8);
    wire::lemma_le_len(td.offsets_size as nat, 8);
    wire::lemma_le_len(td.buffer as nat, 8);
    wire::lemma_le_len(td.offsets as nat, 8);
    wire::law_le_reads_back(td.target as nat, 8);
    wire::law_le_reads_back(td.cookie as nat, 8);
    wire::law_le_reads_back(td.code as nat, 4);
    wire::law_le_reads_back(td.flags as nat, 4);
    wire::law_le_reads_back((td.sender_pid as u32) as nat, 4);
    wire::law_le_reads_back(td.sender_euid as nat, 4);
    wire::law_le_reads_back(td.data_size as nat, 8);
    wire::law_le_reads_back(td.offsets_size as nat, 8);
    wire::law_le_reads_back(td.buffer as nat, 8);
    wire::law_le_reads_back(td.offsets as nat, 8);
    assert(b.subrange(0, 8) =~= wire::le(td.target as nat, 8));
    assert(b.subrange(8, 16) =~= wire::le(td.cookie as nat, 8));
    assert(b.subrange(16, 20) =~= wire::le(td.code as nat, 4));
    assert(b.subrange(20, 24) =~= wire::le(td.flags as nat, 4));
    assert(b.subrange(24, 28) =~= wire::le((td.sender_pid as u32) as nat, 4));
    assert(b.subrange(28, 32) =~= wire::le(td.sender_euid as nat, 4));
    assert(b.subrange(32, 40) =~= wire::le(td.data_size as nat, 8));
    assert(b.subrange(40, 48) =~= wire::le(td.offsets_size as nat, 8));
    assert(b.subrange(48, 56) =~= wire::le(td.buffer as nat, 8));
    assert(b.subrange(56, 64) =~= wire::le(td.offsets as nat, 8));
    let pid = td.sender_pid;
    assert((pid as u32) as i32 == pid) by (bit_vector);
}

// ---- the object that carries a file descriptor -------------------------------------

/// The size of an object in a transaction's buffer.
pub const FLAT_BINDER_OBJECT_SIZE: usize = 24;

/// The type word of an object that carries a file descriptor.
pub const BINDER_TYPE_FD: u32 = 0x6664_2a85;

/// The 24-byte layout of an object that carries `fd`: the type word, no flags, the descriptor, zeros.
pub open spec fn fd_object(fd: i32) -> Seq<u8> {
    wire::le(BINDER_TYPE_FD as nat, 4) + wire::le(0, 4) + wire::le((fd as u32) as nat, 4)
        + wire::le(0, 4) + wire::le(0, 8)
}

/// The descriptor that an object carries, where it is one that carries a descriptor.
pub open spec fn fd_of(b: Seq<u8>) -> Option<i32> {
    if b.len() < FLAT_BINDER_OBJECT_SIZE || wire::le_value(b.subrange(0, 4)) != BINDER_TYPE_FD {
        None
    } else {
        Some((wire::le_value(b.subrange(8, 12)) as u32) as i32)
    }
}

/// The object that carries `fd`.
pub fn flat_binder_object_fd(fd: i32) -> (r: Vec<u8>)
    ensures
        r@ == fd_object(fd),
        r@.len() == FLAT_BINDER_OBJECT_SIZE,
{
    let mut v: Vec<u8> = Vec::new();
    push_le(&mut v, BINDER_TYPE_FD as u64, 4);
    push_le(&mut v, 0, 4);
    push_le(&mut v, fd as u32 as u64, 4);
    push_le(&mut v, 0, 4);
    push_le(&mut v, 0, 8);
    proof {
        assert(v@ =~= fd_object(fd));
        law_fd_object_reads_back(fd);
    }
    v
}

/// The descriptor that an object carries; `None` where `b` is too short for an object or is one of
/// another type.
pub fn flat_binder_object_fd_value(b: &[u8]) -> (r: Option<i32>)
    ensures
        r == fd_of(b@),
{
    if b.len() < FLAT_BINDER_OBJECT_SIZE {
        return None;
    }
    proof {
        wire::lemma_spans();
    }
    if read_le(b, 0, 4) != BINDER_TYPE_FD as u64 {
        return None;
    }
    Some(read_le(b, 8, 4) as u32 as i32)
}

/// A file descriptor is kept through the object that carries it.
pub proof fn law_fd_object_reads_back(fd: i32)
    ensures
        fd_of(fd_object(fd)) == Some(fd),
        fd_object(fd).len() == FLAT_BINDER_OBJECT_SIZE,
{
    wire::lemma_spans();
    wire::lemma_le_len(BINDER_TYPE_FD as nat, 4);
    wire::lemma_le_len(0, 4);
    wire::lemma_le_len((fd as u32) as nat, 4);
    wire::lemma_le_len(0, 8);
    wire::law_le_reads_back(BINDER_TYPE_FD as nat, 4);
    wire::law_le_reads_back((fd as u32) as nat, 4);
    let b = fd_object(fd);
    assert(b.subrange(0, 4) =~= wire::le(BINDER_TYPE_FD as nat, 4));
    assert(b.subrange(8, 12) =~= wire::le((fd as u32) as nat, 4));
    assert((fd as u32) as i32 == fd) by (bit_vector);
}

// ---- reading commands ----------------------------------------------------------

/// A decoded `BR_*` command.
#[derive(Clone, Copy, Debug, PartialEq, Eq, Structural)]
pub enum Br {
    /// An inbound transaction to one of our nodes.
    Transaction(TransactionData),
    /// A reply to a transaction of ours.
    Reply(TransactionData),
    /// The kernel accepted our transaction.
    TransactionComplete,
    /// Filler.
    Noop,
    /// The kernel suggests another looper thread.
    SpawnLooper,
    /// A weak reference to a node of ours.
    IncRefs {
        /// The node.
        ptr: u64,
        /// Its cookie.
        cookie: u64,
    },
    /// A strong reference to a node of ours.
    Acquire {
        /// The node.
        ptr: u64,
        /// Its cookie.
        cookie: u64,
    },
    /// A strong reference to a node of ours is gone.
    Release {
        /// The node.
        ptr: u64,
        /// Its cookie.
        cookie: u64,
    },
    /// A weak reference to a node of ours is gone.
    DecRefs {
        /// The node.
        ptr: u64,
        /// Its cookie.
        cookie: u64,
    },
    /// The transaction failed.
    Failed,
    /// The target node is dead.
    Dead,
    /// A node that we watched died; its cookie.
    DeadBinder(u64),
    /// The driver reported an error.
    Error(i32),
    /// A recognised command that needs nothing.
    Other(u32),
}

/// The payload size of a command, `None` for a code that is not recognised.
pub open spec fn payload_size(code: u32) -> Option<int> {
    if code == BR_TRANSACTION || code == BR_REPLY {
        Some(64)
    } else if code == BR_INCREFS || code == BR_ACQUIRE || code == BR_RELEASE || code == BR_DECREFS {
        Some(16)
    } else if code == BR_DEAD_BINDER {
        Some(8)
    } else if code == BR_ERROR {
        Some(4)
    } else if code == BR_OK || code == BR_FINISHED || code == BR_NOOP || code == BR_SPAWN_LOOPER
        || code == BR_TRANSACTION_COMPLETE || code == BR_DEAD_REPLY || code == BR_FAILED_REPLY {
        Some(0)
    } else {
        None
    }
}

/// The command that a recognised code and its payload stand for.
pub open spec fn command(code: u32, p: Seq<u8>) -> Br {
    let ptr = wire::le_value(p.subrange(0, 8)) as u64;
    let cookie = wire::le_value(p.subrange(8, 16)) as u64;
    if code == BR_TRANSACTION {
        Br::Transaction(TransactionData::from_layout(p))
    } else if code == BR_REPLY {
        Br::Reply(TransactionData::from_layout(p))
    } else if code == BR_INCREFS {
        Br::IncRefs { ptr, cookie }
    } else if code == BR_ACQUIRE {
        Br::Acquire { ptr, cookie }
    } else if code == BR_RELEASE {
        Br::Release { ptr, cookie }
    } else if code == BR_DECREFS {
        Br::DecRefs { ptr, cookie }
    } else if code == BR_DEAD_BINDER {
        Br::DeadBinder(ptr)
    } else if code == BR_ERROR {
        Br::Error((wire::le_value(p.subrange(0, 4)) as u32) as i32)
    } else if code == BR_NOOP {
        Br::Noop
    } else if code == BR_SPAWN_LOOPER {
        Br::SpawnLooper
    } else if code == BR_TRANSACTION_COMPLETE {
        Br::TransactionComplete
    } else if code == BR_DEAD_REPLY {
        Br::Dead
    } else if code == BR_FAILED_REPLY {
        Br::Failed
    } else {
        Br::Other(code)
    }
}

/// The first command of a buffer and the number of bytes it takes; `None` where the buffer is too
/// short for it or its code is not recognised.
pub open spec fn first_command(b: Seq<u8>) -> Option<(Br, int)> {
    if b.len() < 4 {
        None
    } else {
        let code = wire::le_value(b.subrange(0, 4)) as u32;
        match payload_size(code) {
            None => None,
            Some(n) => if b.len() < 4 + n {
                None
            } else {
                Some((command(code, b.subrange(4, 4 + n)), 4 + n))
            },
        }
    }
}

fn size_of_payload(code: u32) -> (r: Option<usize>)
    ensures
        match r {
            Some(n) => payload_size(code) == Some(n as int),
            None => payload_size(code) is None,
        },
{
    if code == BR_TRANSACTION || code == BR_REPLY {
        Some(64)
    } else if code == BR_INCREFS || code == BR_ACQUIRE || code == BR_RELEASE || code == BR_DECREFS {
        Some(16)
    } else if code == BR_DEAD_BINDER {
        Some(8)
    } else if code == BR_ERROR {
        Some(4)
    } else if code == BR_OK || code == BR_FINISHED || code == BR_NOOP || code == BR_SPAWN_LOOPER
        || code == BR_TRANSACTION_COMPLETE || code == BR_DEAD_REPLY || code == BR_FAILED_REPLY {
        Some(0)
    } else {
        None
    }
}

/// Decodes the first command of `buf`: the command, and the number of bytes it takes.
pub fn parse(buf: &[u8]) -> (r: Option<(Br, usize)>)
    ensures
        match r {
            Some(p) => first_command(buf@) == Some((p.0, p.1 as int)) && 4 <= p.1 <= buf@.len(),
            None => first_command(buf@) is None,
        },
{
    if buf.len() < 4 {
        return None;
    }
    proof {
        wire::lemma_spans();
    }
    let code: u32 = read_le(buf, 0, 4) as u32;
    let n: usize = match size_of_payload(code) {
        None => {
            return None;
        },
        Some(n) => n,
    };
    if buf.len() - 4 < n {
        return None;
    }
    let ghost p = buf@.subrange(4, 4 + n);
    let payload = vstd::slice::slice_subrange(buf, 4, 4 + n);
    let br = if n == 64 {
        match TransactionData::from_bytes(payload) {
            None => {
                return None;
            },
            Some(td) => if code == BR_TRANSACTION {
                Br::Transaction(td)
            } else {
                Br::Reply(td)
            },
        }
    } else if n == 16 {
        let ptr: u64 = read_le(payload, 0, 8);
        let cookie: u64 = read_le(payload, 8, 8);
        if code == BR_INCREFS {
            Br::IncRefs { ptr, cookie }
        } else if code == BR_ACQUIRE {
            Br::Acquire { ptr, cookie }
        } else if code == BR_RELEASE {
            Br::Release { ptr, cookie }
        } else {
            Br::DecRefs { ptr, cookie }
        }
    } else if n == 8 {
        Br::DeadBinder(read_le(payload, 0, 8))
    } else if n == 4 {
        Br::Error(read_le(payload, 0, 4) as u32 as i32)
    } else if code == BR_NOOP {
        Br::Noop
    } else if code == BR_SPAWN_LOOPER {
        Br::SpawnLooper
    } else if code == BR_TRANSACTION_COMPLETE {
        Br::TransactionComplete
    } else if code == BR_DEAD_REPLY {
        Br::Dead
    } else if code == BR_FAILED_REPLY {
        Br::Failed
    } else {
        Br::Other(code)
    };
    Some((br, 4 + n))
}

/// A command is read the same whatever follows it in the buffer.
pub proof fn law_parse_ignores_what_follows(b: Seq<u8>, rest: Seq<u8>)
    requires
        first_command(b) is Some,
    ensures
        first_command(b + rest) == first_command(b),
{
    let code = wire::le_value(b.subrange(0, 4)) as u32;
    assert((b + rest).subrange(0, 4) =~= b.subrange(0, 4));
    let n = payload_size(code)->0;
    assert((b + rest).subrange(4, 4 + n) =~= b.subrange(4, 4 + n));
}

// ---- writing commands ----------------------------------------------------------

/// A command: its code and its payload.
pub open spec fn framed(code: u32, payload: Seq<u8>) -> Seq<u8> {
    wire::le(code as nat, 4) + payload
}

/// Appends a transaction, or a reply when `reply`.
pub fn write_transaction(out: &mut Vec<u8>, reply: bool, td: &TransactionData)
    ensures
        final(out)@ == old(out)@ + framed(
            if reply {
                BC_REPLY
            } else {
                BC_TRANSACTION
            },
            td.layout(),
        ),
{
    write_cmd(
        out,
        if reply {
            BC_REPLY
        } else {
            BC_TRANSACTION
        },
    );
    td.push_layout(out);
    assert(out@ =~= old(out)@ + framed(
        if reply {
            BC_REPLY
        } else {
            BC_TRANSACTION
        },
        td.layout(),
    ));
}

/// Appends a command without payload.
pub fn write_cmd(out: &mut Vec<u8>, cmd: u32)
    ensures
        final(out)@ == old(out)@ + framed(cmd, seq![]),
{
    push_le(out, cmd as u64, 4);
    assert(out@ =~= old(out)@ + framed(cmd, seq![]));
}

/// Appends the release of the transaction buffer at `buffer_ptr`.
pub fn write_free_buffer(out: &mut Vec<u8>, buffer_ptr: u64)
    ensures
        final(out)@ == old(out)@ + framed(BC_FREE_BUFFER, wire::le(buffer_ptr as nat, 8)),
{
    push_le(out, BC_FREE_BUFFER as u64, 4);
    push_le(out, buffer_ptr, 8);
    assert(out@ =~= old(out)@ + framed(BC_FREE_BUFFER, wire::le(buffer_ptr as nat, 8)));
}

/// Appends a handle-refcount command.
pub fn write_ref(out: &mut Vec<u8>, cmd: u32, handle: u32)
    ensures
        final(out)@ == old(out)@ + framed(cmd, wire::le(handle as nat, 4)),
{
    push_le(out, cmd as u64, 4);
    push_le(out, handle as u64, 4);
    assert(out@ =~= old(out)@ + framed(cmd, wire::le(handle as nat, 4)));
}

/// Appends a command with a node and its cookie.
pub fn write_ptr_cookie(out: &mut Vec<u8>, cmd: u32, ptr: u64, cookie: u64)
    ensures
        final(out)@ == old(out)@ + framed(cmd, wire::le(ptr as nat, 8) + wire::le(cookie as nat, 8)),
{
    push_le(out, cmd as u64, 4);
    push_le(out, ptr, 8);
    push_le(out, cookie, 8);
    assert(out@ =~= old(out)@ + framed(cmd, wire::le(ptr as nat, 8) + wire::le(cookie as nat, 8)));
}

/// An inbound transaction is read back from the bytes that frame it, whatever follows.
pub proof fn law_transaction_parses_back(td: TransactionData, rest: Seq<u8>)
    ensures
        first_command(framed(BR_TRANSACTION, td.layout()) + rest) == Some(
            (Br::Transaction(td), 68int),
        ),
        first_command(framed(BR_REPLY, td.layout()) + rest) == Some((Br::Reply(td), 68int)),
{
    law_transaction_data_reads_back(td);
    wire::lemma_spans();
    lemma_framed_reads(BR_TRANSACTION, td.layout(), rest);
    lemma_framed_reads(BR_REPLY, td.layout(), rest);
}

proof fn lemma_framed_reads(code: u32, payload: Seq<u8>, rest: Seq<u8>)
    ensures
        (framed(code, payload) + rest).len() >= 4 + payload.len(),
        wire::le_value((framed(code, payload) + rest).subrange(0, 4)) == code,
        (framed(code, payload) + rest).subrange(4, 4 + payload.len() as int) == payload,
{
    wire::lemma_spans();
    wire::lemma_le_len(code as nat, 4);
    wire::law_le_reads_back(code as nat, 4);
    assert((framed(code, payload) + rest).subrange(0, 4) =~= wire::le(code as nat, 4));
    assert((framed(code, payload) + rest).subrange(4, 4 + payload.len() as int) =~= payload);
}

// ---- what holds of the whole ----------------------------------------------------

/// What the driver says of references reads as what it is, each code as its own, with the pointer and
/// the cookie in their places.
pub proof fn law_references_parse_back(ptr: u64, cookie: u64, rest: Seq<u8>)
    ensures
        ({
            let p = wire::le(ptr as nat, 8) + wire::le(cookie as nat, 8);
            &&& first_command(framed(BR_INCREFS, p) + rest) == Some((Br::IncRefs { ptr, cookie }, 20int))
            &&& first_command(framed(BR_ACQUIRE, p) + rest) == Some((Br::Acquire { ptr, cookie }, 20int))
            &&& first_command(framed(BR_RELEASE, p) + rest) == Some((Br::Release { ptr, cookie }, 20int))
            &&& first_command(framed(BR_DECREFS, p) + rest) == Some((Br::DecRefs { ptr, cookie }, 20int))
        }),
{
    reveal_with_fuel(wire::span, 9);
    reveal_with_fuel(wire::le, 9);
    let (a, b) = (wire::le(ptr as nat, 8), wire::le(cookie as nat, 8));
    let p = a + b;
    wire::law_le_reads_back(ptr as nat, 8);
    wire::law_le_reads_back(cookie as nat, 8);
    assert(a.len() == 8 && b.len() == 8);
    assert(p.subrange(0, 8) =~= a);
    assert(p.subrange(8, 16) =~= b);
    lemma_coded(BR_INCREFS, p, rest);
    lemma_coded(BR_ACQUIRE, p, rest);
    lemma_coded(BR_RELEASE, p, rest);
    lemma_coded(BR_DECREFS, p, rest);
}

proof fn lemma_coded(code: u32, p: Seq<u8>, rest: Seq<u8>)
    ensures
        ({
            let b = framed(code, p) + rest;
            &&& b.len() == 4 + p.len() + rest.len()
            &&& wire::le_value(b.subrange(0, 4)) as u32 == code
            &&& b.subrange(4, 4 + p.len() as int) == p
        }),
{
    reveal_with_fuel(wire::span, 5);
    reveal_with_fuel(wire::le, 5);
    wire::law_le_reads_back(code as nat, 4);
    let b = framed(code, p) + rest;
    assert(wire::le(code as nat, 4).len() == 4);
    assert(b.subrange(0, 4) =~= wire::le(code as nat, 4));
    assert(b.subrange(4, 4 + p.len() as int) =~= p);
}

/// What the driver says without more reads as what it is: a call that failed, one whose target is
/// gone, and one that was taken.
pub proof fn law_bare_answers_parse_back(rest: Seq<u8>)
    ensures
        first_command(framed(BR_FAILED_REPLY, seq![]) + rest) == Some((Br::Failed, 4int)),
        first_command(framed(BR_DEAD_REPLY, seq![]) + rest) == Some((Br::Dead, 4int)),
        first_command(framed(BR_TRANSACTION_COMPLETE, seq![]) + rest) == Some(
            (Br::TransactionComplete, 4int),
        ),
        first_command(framed(BR_NOOP, seq![]) + rest) == Some((Br::Noop, 4int)),
{
    lemma_coded(BR_FAILED_REPLY, seq![], rest);
    lemma_coded(BR_DEAD_REPLY, seq![], rest);
    lemma_coded(BR_TRANSACTION_COMPLETE, seq![], rest);
    lemma_coded(BR_NOOP, seq![], rest);
}

} // verus!
