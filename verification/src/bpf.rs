//! Loading the programs that guard a kennel's sockets: which maps they use, and how the maps' file
//! descriptors are put into their instructions.

use crate::text;
use crate::text::{concat2, concat3, concat4, same, text_lossy};
use crate::wire;
use crate::wire::push_le;
use object::{Object, ObjectSection, ObjectSymbol};
use vstd::prelude::*;
use vstd::string::*;

verus! {

// ---- the maps and the programs -------------------------------------------------

/// An array.
pub const MAP_TYPE_ARRAY: u32 = 2;

/// A trie of prefixes.
pub const MAP_TYPE_LPM_TRIE: u32 = 11;

/// A ring buffer.
pub const MAP_TYPE_RINGBUF: u32 = 27;

/// Entries are not allocated ahead.
pub const F_NO_PREALLOC: u32 = 1;

/// A program on sockets.
pub const PROG_TYPE_CGROUP_SOCK: u32 = 9;

/// A program on socket addresses.
pub const PROG_TYPE_CGROUP_SOCK_ADDR: u32 = 18;

/// A program on socket options.
pub const PROG_TYPE_CGROUP_SOCKOPT: u32 = 25;

/// Where a socket is made.
pub const CGROUP_INET_SOCK_CREATE: u32 = 2;

/// Where a socket is bound.
pub const CGROUP_INET4_BIND: u32 = 8;

/// Where a socket is bound.
pub const CGROUP_INET6_BIND: u32 = 9;

/// Where a socket is connected.
pub const CGROUP_INET4_CONNECT: u32 = 10;

/// Where a socket is connected.
pub const CGROUP_INET6_CONNECT: u32 = 11;

/// Where a datagram is sent.
pub const CGROUP_UDP4_SENDMSG: u32 = 14;

/// Where a datagram is sent.
pub const CGROUP_UDP6_SENDMSG: u32 = 15;

/// Where an option is set.
pub const CGROUP_SETSOCKOPT: u32 = 22;

/// A map, by the symbol that the programs know it by.
#[derive(Debug, Clone, Copy)]
pub struct MapSpec {
    /// The symbol.
    pub name: &'static str,
    /// The type.
    pub map_type: u32,
    /// The size of a key in bytes; none for a ring buffer.
    pub key_size: u32,
    /// The size of a value in bytes; none for a ring buffer.
    pub value_size: u32,
    /// How many entries it holds; the size of a ring buffer in bytes.
    pub max_entries: u32,
    /// The flags.
    pub map_flags: u32,
}

/// A program, by the section it stands in.
#[derive(Debug, Clone, Copy)]
pub struct ProgramSpec {
    /// The name.
    pub name: &'static str,
    /// The section.
    pub section: &'static str,
    /// The type.
    pub prog_type: u32,
    /// Where it is attached.
    pub attach_type: u32,
}

/// The maps.
pub open spec fn all_maps() -> Seq<MapSpec> {
    seq![
        MapSpec {
            name: "kennel_meta_map",
            map_type: MAP_TYPE_ARRAY,
            key_size: 4,
            value_size: 64,
            max_entries: 1,
            map_flags: 0,
        },
        MapSpec {
            name: "deny_v4",
            map_type: MAP_TYPE_LPM_TRIE,
            key_size: 8,
            value_size: 8,
            max_entries: 256,
            map_flags: F_NO_PREALLOC,
        },
        MapSpec {
            name: "deny_v6",
            map_type: MAP_TYPE_LPM_TRIE,
            key_size: 20,
            value_size: 8,
            max_entries: 256,
            map_flags: F_NO_PREALLOC,
        },
        MapSpec {
            name: "allow_v4",
            map_type: MAP_TYPE_LPM_TRIE,
            key_size: 8,
            value_size: 8,
            max_entries: 1024,
            map_flags: F_NO_PREALLOC,
        },
        MapSpec {
            name: "allow_v6",
            map_type: MAP_TYPE_LPM_TRIE,
            key_size: 20,
            value_size: 8,
            max_entries: 1024,
            map_flags: F_NO_PREALLOC,
        },
        MapSpec {
            name: "bind_subnet_map",
            map_type: MAP_TYPE_ARRAY,
            key_size: 4,
            value_size: 28,
            max_entries: 1,
            map_flags: 0,
        },
        MapSpec {
            name: "audit_ringbuf",
            map_type: MAP_TYPE_RINGBUF,
            key_size: 0,
            value_size: 0,
            max_entries: 1_048_576,
            map_flags: 0,
        },
    ]
}

/// The maps.
pub fn kennel_maps() -> (r: [MapSpec; 7])
    ensures
        r@ == all_maps(),
{
    let r: [MapSpec; 7] = [
        MapSpec {
            name: "kennel_meta_map",
            map_type: MAP_TYPE_ARRAY,
            key_size: 4,
            value_size: 64,
            max_entries: 1,
            map_flags: 0,
        },
        MapSpec {
            name: "deny_v4",
            map_type: MAP_TYPE_LPM_TRIE,
            key_size: 8,
            value_size: 8,
            max_entries: 256,
            map_flags: F_NO_PREALLOC,
        },
        MapSpec {
            name: "deny_v6",
            map_type: MAP_TYPE_LPM_TRIE,
            key_size: 20,
            value_size: 8,
            max_entries: 256,
            map_flags: F_NO_PREALLOC,
        },
        MapSpec {
            name: "allow_v4",
            map_type: MAP_TYPE_LPM_TRIE,
            key_size: 8,
            value_size: 8,
            max_entries: 1024,
            map_flags: F_NO_PREALLOC,
        },
        MapSpec {
            name: "allow_v6",
            map_type: MAP_TYPE_LPM_TRIE,
            key_size: 20,
            value_size: 8,
            max_entries: 1024,
            map_flags: F_NO_PREALLOC,
        },
        MapSpec {
            name: "bind_subnet_map",
            map_type: MAP_TYPE_ARRAY,
            key_size: 4,
            value_size: 28,
            max_entries: 1,
            map_flags: 0,
        },
        MapSpec {
            name: "audit_ringbuf",
            map_type: MAP_TYPE_RINGBUF,
            key_size: 0,
            value_size: 0,
            max_entries: 1_048_576,
            map_flags: 0,
        },
    ];
    assert(r@ =~= all_maps());
    r
}

/// The programs.
pub open spec fn all_programs() -> Seq<ProgramSpec> {
    seq![
        ProgramSpec {
            name: "connect4",
            section: "cgroup/connect4",
            prog_type: PROG_TYPE_CGROUP_SOCK_ADDR,
            attach_type: CGROUP_INET4_CONNECT,
        },
        ProgramSpec {
            name: "connect6",
            section: "cgroup/connect6",
            prog_type: PROG_TYPE_CGROUP_SOCK_ADDR,
            attach_type: CGROUP_INET6_CONNECT,
        },
        ProgramSpec {
            name: "bind4",
            section: "cgroup/bind4",
            prog_type: PROG_TYPE_CGROUP_SOCK_ADDR,
            attach_type: CGROUP_INET4_BIND,
        },
        ProgramSpec {
            name: "bind6",
            section: "cgroup/bind6",
            prog_type: PROG_TYPE_CGROUP_SOCK_ADDR,
            attach_type: CGROUP_INET6_BIND,
        },
        ProgramSpec {
            name: "sendmsg4",
            section: "cgroup/sendmsg4",
            prog_type: PROG_TYPE_CGROUP_SOCK_ADDR,
            attach_type: CGROUP_UDP4_SENDMSG,
        },
        ProgramSpec {
            name: "sendmsg6",
            section: "cgroup/sendmsg6",
            prog_type: PROG_TYPE_CGROUP_SOCK_ADDR,
            attach_type: CGROUP_UDP6_SENDMSG,
        },
        ProgramSpec {
            name: "sock_create",
            section: "cgroup/sock_create",
            prog_type: PROG_TYPE_CGROUP_SOCK,
            attach_type: CGROUP_INET_SOCK_CREATE,
        },
        ProgramSpec {
            name: "setsockopt",
            section: "cgroup/setsockopt",
            prog_type: PROG_TYPE_CGROUP_SOCKOPT,
            attach_type: CGROUP_SETSOCKOPT,
        },
    ]
}

/// The programs.
pub fn kennel_programs() -> (r: [ProgramSpec; 8])
    ensures
        r@ == all_programs(),
{
    let r: [ProgramSpec; 8] = [
        ProgramSpec {
            name: "connect4",
            section: "cgroup/connect4",
            prog_type: PROG_TYPE_CGROUP_SOCK_ADDR,
            attach_type: CGROUP_INET4_CONNECT,
        },
        ProgramSpec {
            name: "connect6",
            section: "cgroup/connect6",
            prog_type: PROG_TYPE_CGROUP_SOCK_ADDR,
            attach_type: CGROUP_INET6_CONNECT,
        },
        ProgramSpec {
            name: "bind4",
            section: "cgroup/bind4",
            prog_type: PROG_TYPE_CGROUP_SOCK_ADDR,
            attach_type: CGROUP_INET4_BIND,
        },
        ProgramSpec {
            name: "bind6",
            section: "cgroup/bind6",
            prog_type: PROG_TYPE_CGROUP_SOCK_ADDR,
            attach_type: CGROUP_INET6_BIND,
        },
        ProgramSpec {
            name: "sendmsg4",
            section: "cgroup/sendmsg4",
            prog_type: PROG_TYPE_CGROUP_SOCK_ADDR,
            attach_type: CGROUP_UDP4_SENDMSG,
        },
        ProgramSpec {
            name: "sendmsg6",
            section: "cgroup/sendmsg6",
            prog_type: PROG_TYPE_CGROUP_SOCK_ADDR,
            attach_type: CGROUP_UDP6_SENDMSG,
        },
        ProgramSpec {
            name: "sock_create",
            section: "cgroup/sock_create",
            prog_type: PROG_TYPE_CGROUP_SOCK,
            attach_type: CGROUP_INET_SOCK_CREATE,
        },
        ProgramSpec {
            name: "setsockopt",
            section: "cgroup/setsockopt",
            prog_type: PROG_TYPE_CGROUP_SOCKOPT,
            attach_type: CGROUP_SETSOCKOPT,
        },
    ];
    assert(r@ =~= all_programs());
    r
}

/// No two maps share their symbol, and no two programs are attached at the same place.
pub proof fn law_maps_and_programs_are_distinct(i: int, j: int)
    ensures
        0 <= i < j < 7 ==> all_maps()[i].name@ != all_maps()[j].name@,
        0 <= i < j < 8 ==> all_programs()[i].attach_type != all_programs()[j].attach_type,
{
    reveal_strlit("kennel_meta_map");
    reveal_strlit("deny_v4");
    reveal_strlit("deny_v6");
    reveal_strlit("allow_v4");
    reveal_strlit("allow_v6");
    reveal_strlit("bind_subnet_map");
    reveal_strlit("audit_ringbuf");
    let m = all_maps();
    assert(m[0].name@[0] == 'k' && m[0].name@.len() == 15);
    assert(m[1].name@[6] == '4' && m[1].name@.len() == 7);
    assert(m[2].name@[6] == '6' && m[2].name@.len() == 7);
    assert(m[3].name@[7] == '4' && m[3].name@.len() == 8);
    assert(m[4].name@[7] == '6' && m[4].name@.len() == 8);
    assert(m[5].name@[0] == 'b' && m[5].name@.len() == 15);
    assert(m[6].name@.len() == 13);
}

// ---- a section of an object ----------------------------------------------------

/// A place in a section that refers to a symbol.
#[derive(Debug)]
pub struct Reloc {
    /// Where it is.
    pub offset: u64,
    /// The symbol's name, or why it cannot be told; nothing where no symbol is referred to.
    pub symbol: Option<Result<String, String>>,
}

/// A section of an object.
#[derive(Debug)]
pub struct Section {
    /// Its bytes.
    pub data: Vec<u8>,
    /// The places in it that refer to symbols, in their order.
    pub relocs: Vec<Reloc>,
}

/// What a place refers to.
pub open spec fn symbol_of(r: Reloc) -> Option<Result<Seq<char>, Seq<char>>> {
    match r.symbol {
        None => None,
        Some(Ok(n)) => Some(Ok(n@)),
        Some(Err(e)) => Some(Err(e@)),
    }
}

/// Places and what they refer to.
pub open spec fn places(v: Seq<Reloc>) -> Seq<(u64, Option<Result<Seq<char>, Seq<char>>>)> {
    v.map_values(|r: Reloc| (r.offset, symbol_of(r)))
}

/// What `object` finds of a section in an object: its bytes and its places, nothing where the object
/// has no such section, or the error.
pub uninterp spec fn section_in(elf: Seq<u8>, section: Seq<char>) -> Result<
    Option<(Seq<u8>, Seq<(u64, Option<Result<Seq<char>, Seq<char>>>)>)>,
    Seq<char>,
>;

/// `object::File::parse`, `section_by_name` on it, and on the section `data` and `relocations`, with
/// `symbol_by_index` and `name` for each place that refers to a symbol. The result depends on the
/// bytes and the name alone; what it is takes the object file formats to say.
#[verifier::external_body]
fn section_of(elf: &[u8], section: &str) -> (r: Result<Option<Section>, String>)
    ensures
        match section_in(elf@, section@) {
            Err(e) => r matches Err(m) && m@ == e,
            Ok(None) => r matches Ok(None),
            Ok(Some((data, ps))) => r matches Ok(Some(s)) && s.data@ == data && places(s.relocs@)
                == ps,
        },
{
    let file = object::File::parse(elf).map_err(|e| e.to_string())?;
    let Some(s) = file.section_by_name(section) else { return Ok(None); };
    let data = s.data().map_err(|e| e.to_string())?.to_vec();
    let named = |i| file.symbol_by_index(i)?.name().map(str::to_owned);
    let relocs = s.relocations().map(|(offset, r)| Reloc {
        offset,
        symbol: match r.target() {
            object::RelocationTarget::Symbol(i) => {
                Some(named(i).map_err(|e: object::Error| e.to_string()))
            },
            _ => None,
        },
    });
    Ok(Some(Section { data, relocs: relocs.collect() }))
}

/// The section of a program in an object, or why there is none.
pub fn program_section(elf: &[u8], prog: &ProgramSpec) -> (r: Result<Section, String>)
    ensures
        match section_in(elf@, prog.section@) {
            Err(e) => r matches Err(m) && m@ == e,
            Ok(None) => r matches Err(m) && m@ == "no section "@ + prog.section@,
            Ok(Some((data, ps))) => r matches Ok(s) && s.data@ == data && places(s.relocs@) == ps,
        },
{
    match section_of(elf, prog.section) {
        Err(e) => Err(e),
        Ok(None) => Err(concat2("no section ", prog.section)),
        Ok(Some(s)) => Ok(s),
    }
}

// ---- putting descriptors into instructions -------------------------------------

/// The instructions with the descriptor of a map in the one at `off`: its source register says that
/// its immediate is the descriptor of a map, and its immediate is the descriptor.
pub open spec fn patched(insns: Seq<u8>, off: int, fd: i32) -> Seq<u8> {
    let imm = wire::le((fd as u32) as nat, 4);
    Seq::new(
        insns.len(),
        |i: int|
            if i == off + 1 {
                (insns[i] & 0x0fu8) | 0x10u8
            } else if off + 4 <= i < off + 8 {
                imm[i - off - 4]
            } else {
                insns[i]
            },
    )
}

/// Why the instruction at `off` cannot be patched.
pub open spec fn patch_fault(len: nat, off: nat) -> Option<Seq<char>> {
    if off + 8 > usize::MAX {
        Some("reloc offset overflow"@)
    } else if off + 8 > len {
        Some("reloc past end of program"@)
    } else {
        None
    }
}

/// Puts the descriptor of a map into the instruction at `off`.
pub fn patch_map_fd(insns: &mut Vec<u8>, off: usize, fd: i32) -> (r: Result<(), &'static str>)
    ensures
        match patch_fault(old(insns)@.len(), off as nat) {
            Some(e) => r matches Err(m) && m@ == e && final(insns)@ == old(insns)@,
            None => r is Ok && final(insns)@ == patched(old(insns)@, off as int, fd),
        },
{
    let n: usize = insns.len();
    if off > usize::MAX - 8 {
        return Err("reloc offset overflow");
    }
    if off + 8 > n {
        return Err("reloc past end of program");
    }
    let mut imm: Vec<u8> = Vec::new();
    push_le(&mut imm, #[verifier::truncate] (fd as u32) as u64, 4);
    proof {
        wire::lemma_le_len((fd as u32) as nat, 4);
        assert(imm@ =~= wire::le((fd as u32) as nat, 4));
    }
    let reg: u8 = insns[off + 1];
    insns.set(off + 1, (reg & 0x0f) | 0x10);
    insns.set(off + 4, imm[0]);
    insns.set(off + 5, imm[1]);
    insns.set(off + 6, imm[2]);
    insns.set(off + 7, imm[3]);
    assert(insns@ =~= patched(old(insns)@, off as int, fd));
    Ok(())
}

/// What a patched instruction says: its destination register is kept, its source register is the one
/// that marks the descriptor of a map, its immediate reads back as the descriptor, and every other
/// byte of the program is kept.
pub proof fn law_patch_says_the_descriptor(insns: Seq<u8>, off: int, fd: i32)
    requires
        0 <= off,
        off + 8 <= insns.len(),
    ensures
        ({
            let p = patched(insns, off, fd);
            &&& p.len() == insns.len()
            &&& p[off + 1] % 16 == insns[off + 1] % 16
            &&& p[off + 1] / 16 == 1
            &&& wire::le_value(p.subrange(off + 4, off + 8)) == (fd as u32) as nat
            &&& forall|i: int|
                0 <= i < insns.len() && i != off + 1 && !(off + 4 <= i < off + 8) ==> #[trigger] p[i]
                    == insns[i]
        }),
{
    let p = patched(insns, off, fd);
    let b = insns[off + 1];
    assert(((b & 0x0fu8) | 0x10u8) % 16 == b % 16) by (bit_vector);
    assert(((b & 0x0fu8) | 0x10u8) / 16 == 1) by (bit_vector);
    let n = (fd as u32) as nat;
    wire::lemma_le_len(n, 4);
    wire::lemma_spans();
    wire::law_le_reads_back(n, 4);
    assert(p.subrange(off + 4, off + 8) =~= wire::le(n, 4));
}

// ---- linking -------------------------------------------------------------------

/// A map that was made: its symbol and its descriptor.
#[derive(Debug)]
pub struct MadeMap {
    /// The symbol.
    pub name: String,
    /// The descriptor.
    pub fd: i32,
}

/// The descriptor of a map that was made.
pub open spec fn made_fd(made: Seq<MadeMap>, name: Seq<char>) -> Option<i32>
    decreases made.len(),
{
    if made.len() == 0 {
        None
    } else if made[0].name@ == name {
        Some(made[0].fd)
    } else {
        made_fd(made.drop_first(), name)
    }
}

/// Which of the maps has the symbol.
pub open spec fn spec_at(specs: Seq<MapSpec>, name: Seq<char>) -> Option<int>
    decreases specs.len(),
{
    if specs.len() == 0 {
        None
    } else if specs[0].name@ == name {
        Some(0)
    } else {
        match spec_at(specs.drop_first(), name) {
            Some(i) => Some(i + 1),
            None => None,
        }
    }
}

/// How far linking comes with the maps that were made.
pub enum LinkModel {
    /// A map is to be made first.
    Make(int),
    /// All is linked.
    Done(Seq<u8>),
    /// It cannot be linked.
    Fault(Seq<char>),
}

/// How far linking comes: the places one after the other, each with the descriptor of its map.
pub open spec fn linked(
    insns: Seq<u8>,
    ps: Seq<(u64, Option<Result<Seq<char>, Seq<char>>>)>,
    specs: Seq<MapSpec>,
    made: Seq<MadeMap>,
) -> LinkModel
    decreases ps.len(),
{
    if ps.len() == 0 {
        LinkModel::Done(insns)
    } else {
        let rest = ps.drop_first();
        match ps[0].1 {
            None => linked(insns, rest, specs, made),
            Some(Err(e)) => LinkModel::Fault(e),
            Some(Ok(n)) => if n.len() == 0 {
                linked(insns, rest, specs, made)
            } else {
                match made_fd(made, n) {
                    Some(fd) => if ps[0].0 > usize::MAX {
                        LinkModel::Fault("reloc offset too large"@)
                    } else {
                        match patch_fault(insns.len(), ps[0].0 as nat) {
                            Some(e) => LinkModel::Fault(e),
                            None => linked(patched(insns, ps[0].0 as int, fd), rest, specs, made),
                        }
                    },
                    None => match spec_at(specs, n) {
                        Some(i) => LinkModel::Make(i),
                        None => LinkModel::Fault(
                            "relocation references unknown map `"@ + n + "`"@,
                        ),
                    },
                }
            },
        }
    }
}

/// How far linking comes.
#[derive(Debug)]
pub enum Link {
    /// This map is to be made first.
    Make(usize),
    /// These are the instructions to load.
    Done(Vec<u8>),
    /// It cannot be linked.
    Fault(String),
}

impl Link {
    /// Whether this is how far linking comes.
    pub open spec fn reaches(self, m: LinkModel) -> bool {
        match m {
            LinkModel::Make(i) => self matches Link::Make(k) && k == i,
            LinkModel::Done(b) => self matches Link::Done(v) && v@ == b,
            LinkModel::Fault(e) => self matches Link::Fault(s) && s@ == e,
        }
    }
}

fn find_made(made: &[MadeMap], name: &str) -> (r: Option<i32>)
    ensures
        r == made_fd(made@, name@),
{
    let mut i: usize = 0;
    assert(made@.skip(0) =~= made@);
    while i < made.len()
        invariant
            i <= made@.len(),
            made_fd(made@.skip(i as int), name@) == made_fd(made@, name@),
        decreases made@.len() - i,
    {
        proof {
            assert(made@.skip(i as int)[0] == made@[i as int]);
            assert(made@.skip(i as int).drop_first() =~= made@.skip(i + 1));
        }
        if same(made[i].name.as_str(), name) {
            return Some(made[i].fd);
        }
        i = i + 1;
    }
    None
}

proof fn lemma_spec_at(specs: Seq<MapSpec>, name: Seq<char>)
    ensures
        spec_at(specs, name) is Some ==> 0 <= spec_at(specs, name)->0 < specs.len() && specs[spec_at(
            specs,
            name,
        )->0].name@ == name,
    decreases specs.len(),
{
    if specs.len() > 0 {
        lemma_spec_at(specs.drop_first(), name);
    }
}

/// Which of the maps has the symbol.
pub fn find_spec(specs: &[MapSpec], name: &str) -> (r: Option<usize>)
    ensures
        match spec_at(specs@, name@) {
            Some(i) => r matches Some(k) && k == i && k < specs@.len() && specs@[k as int].name@
                == name@,
            None => r is None,
        },
{
    let mut i: usize = 0;
    proof {
        assert(specs@.skip(0) =~= specs@);
        lemma_spec_at(specs@, name@);
    }
    while i < specs.len()
        invariant
            i <= specs@.len(),
            spec_at(specs@, name@) == (match spec_at(specs@.skip(i as int), name@) {
                Some(k) => Some(k + i),
                None => None::<int>,
            }),
        decreases specs@.len() - i,
    {
        proof {
            assert(specs@.skip(i as int)[0] == specs@[i as int]);
            assert(specs@.skip(i as int).drop_first() =~= specs@.skip(i + 1));
        }
        if same(specs[i].name, name) {
            return Some(i);
        }
        i = i + 1;
    }
    None
}

/// How far a program is linked with the maps that were made: a map that it refers to and that is
/// not made yet is to be made first, and then it is asked again.
pub fn link(section: &Section, specs: &[MapSpec], made: &[MadeMap]) -> (r: Link)
    ensures
        r.reaches(linked(section.data@, places(section.relocs@), specs@, made@)),
{
    let ghost ps = places(section.relocs@);
    let ghost goal = linked(section.data@, ps, specs@, made@);
    let mut insns: Vec<u8> = Vec::new();
    let mut k: usize = 0;
    while k < section.data.len()
        invariant
            k <= section.data@.len(),
            insns@ == section.data@.take(k as int),
        decreases section.data@.len() - k,
    {
        insns.push(section.data[k]);
        k = k + 1;
        assert(insns@ =~= section.data@.take(k as int));
    }
    let mut i: usize = 0;
    proof {
        assert(insns@ =~= section.data@);
        assert(ps.skip(0) =~= ps);
    }
    while i < section.relocs.len()
        invariant
            i <= section.relocs@.len(),
            ps == places(section.relocs@),
            goal == linked(section.data@, ps, specs@, made@),
            linked(insns@, ps.skip(i as int), specs@, made@) == goal,
        decreases section.relocs@.len() - i,
    {
        let r = &section.relocs[i];
        proof {
            assert(ps.skip(i as int)[0] == (r.offset, symbol_of(*r)));
            assert(ps.skip(i as int).drop_first() =~= ps.skip(i + 1));
        }
        match &r.symbol {
            None => {},
            Some(Err(e)) => {
                return Link::Fault(e.clone());
            },
            Some(Ok(n)) => {
                if n.as_str().unicode_len() > 0 {
                    match find_made(made, n.as_str()) {
                        Some(fd) => {
                            if r.offset > usize::MAX as u64 {
                                return Link::Fault("reloc offset too large".to_owned());
                            }
                            if let Err(e) = patch_map_fd(&mut insns, r.offset as usize, fd) {
                                return Link::Fault(e.to_owned());
                            }
                        },
                        None => {
                            match find_spec(specs, n.as_str()) {
                                Some(k) => {
                                    return Link::Make(k);
                                },
                                None => {
                                    return Link::Fault(
                                        concat3(
                                            "relocation references unknown map `",
                                            n.as_str(),
                                            "`",
                                        ),
                                    );
                                },
                            }
                        },
                    }
                }
            },
        }
        i = i + 1;
    }
    assert(ps.skip(section.relocs@.len() as int) =~= seq![]);
    Link::Done(insns)
}

/// A map is made once: one that is asked for is one of the maps, and was not made before.
pub proof fn law_maps_are_made_once(
    insns: Seq<u8>,
    ps: Seq<(u64, Option<Result<Seq<char>, Seq<char>>>)>,
    specs: Seq<MapSpec>,
    made: Seq<MadeMap>,
)
    requires
        linked(insns, ps, specs, made) is Make,
    ensures
        ({
            let i = linked(insns, ps, specs, made)->Make_0;
            0 <= i < specs.len() && made_fd(made, specs[i].name@) is None
        }),
    decreases ps.len(),
{
    let rest = ps.drop_first();
    match ps[0].1 {
        None => {
            law_maps_are_made_once(insns, rest, specs, made);
        },
        Some(Err(_)) => {},
        Some(Ok(n)) => {
            if n.len() == 0 {
                law_maps_are_made_once(insns, rest, specs, made);
            } else {
                match made_fd(made, n) {
                    Some(fd) => {
                        law_maps_are_made_once(
                            patched(insns, ps[0].0 as int, fd),
                            rest,
                            specs,
                            made,
                        );
                    },
                    None => {
                        lemma_spec_at(specs, n);
                    },
                }
            }
        },
    }
}

/// Linking changes no length: what is loaded is as long as the section.
pub proof fn law_linking_keeps_the_length(
    insns: Seq<u8>,
    ps: Seq<(u64, Option<Result<Seq<char>, Seq<char>>>)>,
    specs: Seq<MapSpec>,
    made: Seq<MadeMap>,
)
    requires
        linked(insns, ps, specs, made) is Done,
    ensures
        linked(insns, ps, specs, made)->Done_0.len() == insns.len(),
    decreases ps.len(),
{
    if ps.len() > 0 {
        let rest = ps.drop_first();
        match ps[0].1 {
            None => {
                law_linking_keeps_the_length(insns, rest, specs, made);
            },
            Some(Err(_)) => {},
            Some(Ok(n)) => {
                if n.len() == 0 {
                    law_linking_keeps_the_length(insns, rest, specs, made);
                } else {
                    match made_fd(made, n) {
                        Some(fd) => {
                            law_linking_keeps_the_length(
                                patched(insns, ps[0].0 as int, fd),
                                rest,
                                specs,
                                made,
                            );
                        },
                        None => {},
                    }
                }
            },
        }
    }
}

// ---- using what was loaded -----------------------------------------------------

/// The descriptor of a map that a loaded program refers to.
pub fn map_of(made: &[MadeMap], name: &str) -> (r: Result<i32, String>)
    ensures
        match made_fd(made@, name@) {
            Some(fd) => r == Ok::<i32, String>(fd),
            None => r matches Err(m) && m@ == "no map `"@ + name@ + "` in this program"@,
        },
{
    match find_made(made, name) {
        Some(fd) => Ok(fd),
        None => Err(concat3("no map `", name, "` in this program")),
    }
}

/// The descriptor and the size of a ring buffer that a loaded program refers to.
pub fn ringbuf_of(made: &[MadeMap], specs: &[MapSpec], name: &str) -> (r: Result<(i32, u32), String>)
    ensures
        match (made_fd(made@, name@), spec_at(specs@, name@)) {
            (None, _) => r matches Err(m) && m@ == "no map `"@ + name@ + "` in this program"@,
            (Some(_), None) => r matches Err(m) && m@ == "no spec for map `"@ + name@ + "`"@,
            (Some(fd), Some(i)) => r == Ok::<(i32, u32), String>((fd, specs@[i].max_entries)),
        },
{
    let fd: i32 = match map_of(made, name) {
        Err(e) => {
            return Err(e);
        },
        Ok(fd) => fd,
    };
    match find_spec(specs, name) {
        None => Err(concat3("no spec for map `", name, "`")),
        Some(i) => Ok((fd, specs[i].max_entries)),
    }
}

/// Where the first zero byte stands; zero where there is none.
pub open spec fn log_end(log: Seq<u8>) -> int {
    if log.contains(0u8) {
        log.index_of_first(0u8)->0
    } else {
        0
    }
}

/// The error of a program that the kernel does not load, with what its verifier wrote.
pub fn load_error(cause: &str, log: &[u8]) -> (r: String)
    ensures
        r@ == "prog_load failed: "@ + cause@ + "\nverifier log:\n"@ + text::lossy_text(
            log@.take(log_end(log@)),
        ),
{
    let mut end: usize = 0;
    while end < log.len() && log[end] != 0
        invariant
            end <= log@.len(),
            forall|j: int| 0 <= j < end ==> log@[j] != 0,
        decreases log@.len() - end,
    {
        end = end + 1;
    }
    proof {
        log@.index_of_first_ensures(0u8);
        if end < log@.len() {
            assert(log@[end as int] == 0);
            assert(log@.contains(0u8));
            assert(log@.index_of_first(0u8)->0 == end);
        }
    }
    if end == log.len() {
        end = 0;
    }
    assert(end == log_end(log@));
    let head = vstd::slice::slice_subrange(log, 0, end);
    assert(head@ =~= log@.take(log_end(log@)));
    let t = text_lossy(head);
    concat4("prog_load failed: ", cause, "\nverifier log:\n", t.as_str())
}

// ---- what holds of the whole ----------------------------------------------------

/// The keys of a trie are a prefix length and an address of its family, and what the families are
/// asked about is the same: what is denied and what is allowed, in each.
pub proof fn law_tries_hold_addresses(maps: [MapSpec; 7], i: int)
    requires
        call_ensures(kennel_maps, (), maps),
        0 <= i < 7,
        maps@[i].map_type == MAP_TYPE_LPM_TRIE,
    ensures
        "_v4"@.is_suffix_of(maps@[i].name@) ==> maps@[i].key_size == 4 + 4,
        "_v6"@.is_suffix_of(maps@[i].name@) ==> maps@[i].key_size == 4 + 16,
        "_v4"@.is_suffix_of(maps@[i].name@) || "_v6"@.is_suffix_of(maps@[i].name@),
        maps@[i].map_flags == F_NO_PREALLOC,
{
    reveal_strlit("_v4");
    reveal_strlit("_v6");
    reveal_strlit("deny_v4");
    reveal_strlit("deny_v6");
    reveal_strlit("allow_v4");
    reveal_strlit("allow_v6");
    let n = maps@[i].name@;
    assert(n == "deny_v4"@ || n == "deny_v6"@ || n == "allow_v4"@ || n == "allow_v6"@);
    let e = n.subrange(n.len() - 3, n.len() as int);
    if n == "deny_v4"@ || n == "allow_v4"@ {
        assert(e =~= "_v4"@);
    } else {
        assert(e =~= "_v6"@);
    }
    assert("_v4"@[2] == '4' && "_v6"@[2] == '6');
    assert(e[2] == n[n.len() - 1]);
}

/// A program stands in the section of its name.
pub proof fn law_program_stands_in_its_section(programs: [ProgramSpec; 8], i: int)
    requires
        call_ensures(kennel_programs, (), programs),
        0 <= i < 8,
    ensures
        programs@[i].section@ == "cgroup/"@ + programs@[i].name@,
{
    reveal_strlit("cgroup/");
    reveal_strlit("connect4");
    reveal_strlit("connect6");
    reveal_strlit("bind4");
    reveal_strlit("bind6");
    reveal_strlit("sendmsg4");
    reveal_strlit("sendmsg6");
    reveal_strlit("sock_create");
    reveal_strlit("setsockopt");
    reveal_strlit("cgroup/connect4");
    reveal_strlit("cgroup/connect6");
    reveal_strlit("cgroup/bind4");
    reveal_strlit("cgroup/bind6");
    reveal_strlit("cgroup/sendmsg4");
    reveal_strlit("cgroup/sendmsg6");
    reveal_strlit("cgroup/sock_create");
    reveal_strlit("cgroup/setsockopt");
    assert(programs@[i].section@ =~= "cgroup/"@ + programs@[i].name@);
}

/// Whether the places that are linked are apart: none overlaps another.
pub open spec fn apart(ps: Seq<(u64, Option<Result<Seq<char>, Seq<char>>>)>) -> bool {
    forall|i: int, j: int|
        0 <= i < j < ps.len() ==> (#[trigger] ps[i]).0 + 8 <= (#[trigger] ps[j]).0 || ps[j].0 + 8
            <= ps[i].0
}

/// Whether a place refers to a map.
pub open spec fn refers(p: (u64, Option<Result<Seq<char>, Seq<char>>>)) -> bool {
    p.1 matches Some(Ok(n)) && n.len() > 0
}

proof fn lemma_linked_keeps(
    insns: Seq<u8>,
    ps: Seq<(u64, Option<Result<Seq<char>, Seq<char>>>)>,
    specs: Seq<MapSpec>,
    made: Seq<MadeMap>,
    at: int,
)
    requires
        linked(insns, ps, specs, made) is Done,
        0 <= at < insns.len(),
        forall|j: int| 0 <= j < ps.len() ==> (#[trigger] ps[j]).0 + 8 <= at || at < ps[j].0,
    ensures
        linked(insns, ps, specs, made)->Done_0.len() == insns.len(),
        linked(insns, ps, specs, made)->Done_0[at] == insns[at],
    decreases ps.len(),
{
    if ps.len() > 0 {
        let rest = ps.drop_first();
        assert(ps[0].0 + 8 <= at || at < ps[0].0);
        assert forall|j: int| 0 <= j < rest.len() implies (#[trigger] rest[j]).0 + 8 <= at || at
            < rest[j].0 by {
            assert(rest[j] == ps[j + 1]);
        }
        match ps[0].1 {
            None => {
                lemma_linked_keeps(insns, rest, specs, made, at);
            },
            Some(Err(_)) => {},
            Some(Ok(n)) => {
                if n.len() == 0 {
                    lemma_linked_keeps(insns, rest, specs, made, at);
                } else {
                    let fd = made_fd(made, n)->0;
                    let p = patched(insns, ps[0].0 as int, fd);
                    assert(p[at] == insns[at]);
                    lemma_linked_keeps(p, rest, specs, made, at);
                }
            },
        }
    }
}

/// A linked program says at each place the descriptor of the map that the place names.
pub proof fn law_link_says_each_map(
    insns: Seq<u8>,
    ps: Seq<(u64, Option<Result<Seq<char>, Seq<char>>>)>,
    specs: Seq<MapSpec>,
    made: Seq<MadeMap>,
    i: int,
)
    requires
        linked(insns, ps, specs, made) is Done,
        apart(ps),
        0 <= i < ps.len(),
        refers(ps[i]),
    ensures
        ({
            let out = linked(insns, ps, specs, made)->Done_0;
            let off = ps[i].0 as int;
            let name = ps[i].1->0->Ok_0;
            &&& made_fd(made, name) is Some
            &&& off + 8 <= out.len()
            &&& wire::le_value(out.subrange(off + 4, off + 8)) == (made_fd(made, name)->0 as u32) as nat
            &&& out[off + 1] / 16 == 1
        }),
    decreases ps.len(),
{
    let rest = ps.drop_first();
    assert(apart(rest)) by {
        assert forall|a: int, b: int| 0 <= a < b < rest.len() implies (#[trigger] rest[a]).0 + 8 <= (
        #[trigger] rest[b]).0 || rest[b].0 + 8 <= rest[a].0 by {
            assert(rest[a] == ps[a + 1] && rest[b] == ps[b + 1]);
        }
    }
    let next = match ps[0].1 {
        Some(Ok(n)) => if n.len() == 0 {
            insns
        } else {
            patched(insns, ps[0].0 as int, made_fd(made, n)->0)
        },
        _ => insns,
    };
    assert(linked(insns, ps, specs, made) == linked(next, rest, specs, made));
    if i > 0 {
        assert(rest[i - 1] == ps[i]);
        law_link_says_each_map(next, rest, specs, made, i - 1);
    } else {
        let off = ps[0].0 as int;
        let name = ps[0].1->0->Ok_0;
        let fd = made_fd(made, name)->0;
        let out = linked(insns, ps, specs, made)->Done_0;
        law_patch_says_the_descriptor(insns, off, fd);
        assert forall|at: int| off <= at < off + 8 implies #[trigger] out[at] == next[at] by {
            assert forall|j: int| 0 <= j < rest.len() implies (#[trigger] rest[j]).0 + 8 <= at || at
                < rest[j].0 by {
                assert(rest[j] == ps[j + 1]);
                assert(ps[0].0 + 8 <= ps[j + 1].0 || ps[j + 1].0 + 8 <= ps[0].0);
            }
            lemma_linked_keeps(next, rest, specs, made, at);
        }
        law_linking_keeps_the_length(insns, ps, specs, made);
        assert(out.subrange(off + 4, off + 8) =~= next.subrange(off + 4, off + 8));
        assert(out[off + 1] == next[off + 1]);
    }
}

proof fn lemma_made(made: Seq<MadeMap>, name: Seq<char>)
    ensures
        match made_fd(made, name) {
            Some(fd) => exists|k: int|
                0 <= k < made.len() && (#[trigger] made[k]).name@ == name && made[k].fd == fd
                    && forall|j: int| 0 <= j < k ==> (#[trigger] made[j]).name@ != name,
            None => forall|k: int| 0 <= k < made.len() ==> (#[trigger] made[k]).name@ != name,
        },
    decreases made.len(),
{
    if made.len() > 0 {
        let rest = made.drop_first();
        lemma_made(rest, name);
        if made[0].name@ != name {
            match made_fd(rest, name) {
                Some(fd) => {
                    let k = choose|k: int|
                        0 <= k < rest.len() && (#[trigger] rest[k]).name@ == name && rest[k].fd == fd
                            && forall|j: int| 0 <= j < k ==> (#[trigger] rest[j]).name@ != name;
                    assert(made[k + 1] == rest[k]);
                    assert forall|j: int| 0 <= j < k + 1 implies (#[trigger] made[j]).name@ != name by {
                        if j > 0 {
                            assert(made[j] == rest[j - 1]);
                        }
                    }
                },
                None => {
                    assert forall|k: int| 0 <= k < made.len() implies (#[trigger] made[k]).name@ != name by {
                        if k > 0 {
                            assert(made[k] == rest[k - 1]);
                        }
                    }
                },
            }
        }
    }
}

/// A map is found by its name: what is given is the descriptor of a map of that name, and a map that
/// was made is found.
pub proof fn law_maps_are_found_by_name(made: &[MadeMap], name: &str, r: Result<i32, String>)
    requires
        call_ensures(map_of, (made, name), r),
    ensures
        r matches Ok(fd) ==> exists|k: int|
            0 <= k < made@.len() && (#[trigger] made@[k]).name@ == name@ && made@[k].fd == fd,
        r is Err ==> forall|k: int| 0 <= k < made@.len() ==> (#[trigger] made@[k]).name@ != name@,
{
    lemma_made(made@, name@);
}

} // verus!
