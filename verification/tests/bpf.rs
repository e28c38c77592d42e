use kennel::bpf::{
    find_spec, kennel_maps, kennel_programs, link, load_error, map_of, patch_map_fd,
    program_section, ringbuf_of, Link, MadeMap, Reloc, Section,
};

fn reloc(offset: u64, name: &str) -> Reloc {
    Reloc { offset, symbol: Some(Ok(name.to_owned())) }
}

fn made(name: &str, fd: i32) -> MadeMap {
    MadeMap { name: name.to_owned(), fd }
}

#[test]
fn descriptor_is_put_into_the_instruction() {
    let mut insns: Vec<u8> = (0..16).collect();
    assert_eq!(patch_map_fd(&mut insns, 8, 0x01020304), Ok(()));
    assert_eq!(insns, vec![0, 1, 2, 3, 4, 5, 6, 7, 8, 0x19, 10, 11, 4, 3, 2, 1]);
    assert_eq!(patch_map_fd(&mut insns, 0, -1), Ok(()));
    assert_eq!(&insns[..8], &[0, 0x11, 2, 3, 255, 255, 255, 255]);
    assert_eq!(patch_map_fd(&mut insns, 9, 1), Err("reloc past end of program"));
    assert_eq!(patch_map_fd(&mut insns, usize::MAX, 1), Err("reloc offset overflow"));
}

#[test]
fn maps_are_asked_for_once_each() {
    let section = Section {
        data: vec![0x18; 32],
        relocs: vec![
            Reloc { offset: 0, symbol: None },
            reloc(0, ""),
            reloc(0, "allow_v4"),
            reloc(8, "deny_v4"),
            reloc(16, "allow_v4"),
        ],
    };
    let specs = kennel_maps();
    let allow = find_spec(&specs, "allow_v4").expect("allow_v4");
    let deny = find_spec(&specs, "deny_v4").expect("deny_v4");
    assert!(matches!(link(&section, &specs, &[]), Link::Make(i) if i == allow));
    let one = [made("allow_v4", 5)];
    assert!(matches!(link(&section, &specs, &one), Link::Make(i) if i == deny));
    let both = [made("allow_v4", 5), made("deny_v4", 6)];
    match link(&section, &specs, &both) {
        Link::Done(b) => {
            assert_eq!(b.len(), 32);
            assert_eq!((b[4], b[12], b[20]), (5, 6, 5));
        }
        other => panic!("not linked: {other:?}"),
    }
}

#[test]
fn linking_tells_what_is_wrong() {
    let specs = kennel_maps();
    let fault = |relocs: Vec<Reloc>, maps: &[MadeMap]| {
        match link(&Section { data: vec![0; 8], relocs }, &specs, maps) {
            Link::Fault(e) => e,
            other => panic!("no fault: {other:?}"),
        }
    };
    assert_eq!(
        fault(vec![reloc(0, "other")], &[]),
        "relocation references unknown map `other`"
    );
    assert_eq!(
        fault(vec![Reloc { offset: 0, symbol: Some(Err("bad symbol".to_owned())) }], &[]),
        "bad symbol"
    );
    assert_eq!(
        fault(vec![reloc(1, "deny_v6")], &[made("deny_v6", 3)]),
        "reloc past end of program"
    );
    assert_eq!(
        fault(vec![reloc(u64::MAX, "deny_v6")], &[made("deny_v6", 3)]),
        "reloc offset overflow"
    );
}

#[test]
fn what_is_no_object_is_refused() {
    let prog = kennel_programs()[0];
    assert_eq!(prog.section, "cgroup/connect4");
    assert!(program_section(b"no object", &prog).is_err());
}

/// A small ELF object with one program section, one symbol and one relocation.
fn object() -> Vec<u8> {
    let mut b: Vec<u8> = Vec::new();
    let names: &[u8] = b"\0cgroup/connect4\0.relcgroup/connect4\0.symtab\0.strtab\0";
    let strings: &[u8] = b"\0allow_v4\0";
    let code = [0x18u8, 0x01, 0, 0, 0, 0, 0, 0, 0, 0, 0, 0, 0, 0, 0, 0];
    b.extend_from_slice(b"\x7fELF\x02\x01\x01\0\0\0\0\0\0\0\0\0");
    b.extend_from_slice(&1u16.to_le_bytes());
    b.extend_from_slice(&247u16.to_le_bytes());
    b.extend_from_slice(&1u32.to_le_bytes());
    b.extend_from_slice(&0u64.to_le_bytes());
    b.extend_from_slice(&0u64.to_le_bytes());
    let code_at = 64u64;
    let rel_at = code_at + 16;
    let sym_at = rel_at + 16;
    let str_at = sym_at + 48;
    let names_at = str_at + strings.len() as u64;
    let sections_at = (names_at + names.len() as u64).div_ceil(8) * 8;
    b.extend_from_slice(&sections_at.to_le_bytes());
    b.extend_from_slice(&0u32.to_le_bytes());
    for v in [64u16, 0, 0, 64, 6, 5] {
        b.extend_from_slice(&v.to_le_bytes());
    }
    b.extend_from_slice(&code);
    b.extend_from_slice(&0u64.to_le_bytes());
    b.extend_from_slice(&((1u64 << 32) | 1).to_le_bytes());
    b.extend_from_slice(&[0; 24]);
    b.extend_from_slice(&1u32.to_le_bytes());
    b.extend_from_slice(&[0x11, 0]);
    b.extend_from_slice(&0u16.to_le_bytes());
    b.extend_from_slice(&[0; 16]);
    b.extend_from_slice(strings);
    b.extend_from_slice(names);
    while (b.len() as u64) < sections_at {
        b.push(0);
    }
    let mut section = |name: u32, ty: u32, flags: u64, at: u64, len: u64, link: u32, info: u32, entry: u64| {
        b.extend_from_slice(&name.to_le_bytes());
        b.extend_from_slice(&ty.to_le_bytes());
        b.extend_from_slice(&flags.to_le_bytes());
        b.extend_from_slice(&0u64.to_le_bytes());
        b.extend_from_slice(&at.to_le_bytes());
        b.extend_from_slice(&len.to_le_bytes());
        b.extend_from_slice(&link.to_le_bytes());
        b.extend_from_slice(&info.to_le_bytes());
        b.extend_from_slice(&8u64.to_le_bytes());
        b.extend_from_slice(&entry.to_le_bytes());
    };
    section(0, 0, 0, 0, 0, 0, 0, 0);
    section(1, 1, 6, code_at, 16, 0, 0, 0);
    section(17, 9, 0, rel_at, 16, 3, 1, 16);
    section(36, 2, 0, sym_at, 48, 4, 1, 24);
    section(44, 3, 0, str_at, strings.len() as u64, 0, 0, 0);
    section(44, 3, 0, names_at, names.len() as u64, 0, 0, 0);
    b
}

#[test]
fn section_of_an_object_is_read_and_linked() {
    let elf = object();
    let programs = kennel_programs();
    let section = program_section(&elf, &programs[0]).expect("section");
    assert_eq!(section.data.len(), 16);
    assert_eq!(section.relocs.len(), 1);
    assert_eq!(section.relocs[0].offset, 0);
    assert_eq!(section.relocs[0].symbol, Some(Ok("allow_v4".to_owned())));
    match link(&section, &kennel_maps(), &[made("allow_v4", 9)]) {
        Link::Done(b) => assert_eq!(&b[..8], &[0x18, 0x11, 0, 0, 9, 0, 0, 0]),
        other => panic!("not linked: {other:?}"),
    }
    assert_eq!(
        program_section(&elf, &programs[2]).expect_err("absent"),
        "no section cgroup/bind4"
    );
}

#[test]
fn loaded_maps_are_found_by_name() {
    let maps = [made("audit_ringbuf", 4), made("stray", 5)];
    let specs = kennel_maps();
    assert_eq!(map_of(&maps, "stray"), Ok(5));
    assert_eq!(map_of(&maps, "none"), Err("no map `none` in this program".to_owned()));
    assert_eq!(ringbuf_of(&maps, &specs, "audit_ringbuf"), Ok((4, 1_048_576)));
    assert_eq!(ringbuf_of(&maps, &specs, "stray"), Err("no spec for map `stray`".to_owned()));
    assert_eq!(
        ringbuf_of(&maps, &specs, "deny_v4"),
        Err("no map `deny_v4` in this program".to_owned())
    );
}

#[test]
fn verifier_log_ends_at_its_first_zero() {
    assert_eq!(
        load_error("denied", b"bad insn\0\0junk"),
        "prog_load failed: denied\nverifier log:\nbad insn"
    );
    assert_eq!(load_error("denied", b"no end"), "prog_load failed: denied\nverifier log:\n");
}
