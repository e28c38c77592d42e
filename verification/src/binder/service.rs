//! The node-0 service protocol: transaction verbs, transports and reply status bytes.

use vstd::prelude::*;

verus! {

/// Register a service that the caller provides.
pub const VERB_ADD_SERVICE: u32 = 1;

/// Resolve a service name.
pub const VERB_GET_SERVICE: u32 = 2;

/// Whether a service is declared for the caller.
pub const VERB_IS_DECLARED: u32 = 3;

/// The service names that the caller may look up.
pub const VERB_LIST_SERVICES: u32 = 4;

/// Connect a granted `AF_UNIX` socket.
pub const VERB_CONNECT_AFUNIX: u32 = 5;

/// Request an outbound network connection.
pub const VERB_CONNECT_INET: u32 = 6;

/// TCP transport of a network request.
pub const TRANSPORT_TCP: u8 = 0;

/// UDP transport of a network request; reserved.
pub const TRANSPORT_UDP: u8 = 1;

/// The init process pulls its half of the sandbox plan.
pub const LIFECYCLE_GET_SANDBOX_PLAN: u32 = 0x100;

/// The facades are up.
pub const LIFECYCLE_NOTIFY_BOOT_SYNC: u32 = 0x101;

/// A facade died.
pub const LIFECYCLE_NOTIFY_FACADE_CRASH: u32 = 0x102;

/// The workload is about to be executed.
pub const LIFECYCLE_NOTIFY_WORKLOAD_EXEC: u32 = 0x103;

/// A crashed facade was started again.
pub const LIFECYCLE_NOTIFY_FACADE_RESTART: u32 = 0x104;

/// The time to live has run out.
pub const LIFECYCLE_NOTIFY_TTL_EXPIRED: u32 = 0x105;

/// The kennel goes on after its time to live ran out.
pub const TTL_RESUME: u8 = 0;

/// The kennel stops after its time to live ran out.
pub const TTL_TERMINATE: u8 = 1;

/// Success.
pub const STATUS_OK: u8 = 0;

/// Refused by policy.
pub const STATUS_DENIED: u8 = 1;

/// Permitted, but no such service.
pub const STATUS_NOT_FOUND: u8 = 2;

/// Refused: the name is reserved.
pub const STATUS_REFUSED_RESERVED: u8 = 3;

/// The request was malformed.
pub const STATUS_BAD_REQUEST: u8 = 4;

/// Whether a code belongs to the lifecycle verbs.
pub open spec fn is_lifecycle(code: u32) -> bool {
    LIFECYCLE_GET_SANDBOX_PLAN <= code <= LIFECYCLE_NOTIFY_TTL_EXPIRED
}

/// Whether a code belongs to the registry verbs.
pub open spec fn is_registry(code: u32) -> bool {
    VERB_ADD_SERVICE <= code <= VERB_CONNECT_INET
}

/// The registry verbs and the lifecycle verbs share no code, so the two protocols never collide.
pub proof fn law_verb_ranges_are_disjoint(code: u32)
    ensures
        !(is_registry(code) && is_lifecycle(code)),
{
}

} // verus!
