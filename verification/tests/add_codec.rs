use isf::codec::add::Add;
use isf::AssemblyInstruction;
use isf::MachineInstruction;

#[test]
fn add_add() {
    let a = Add::parse_machine(0b00000101_00000100_00000011_10000010).unwrap();
    assert_eq!(a.get_opcode(), 2);
    assert!(!a.get_sign_extend());
    assert_eq!(a.get_dst(), 3);
    assert_eq!(a.get_src1(), 4);
    assert_eq!(a.get_src2(), 5);

    let ap = Add::parse_assembly("add r3 r4 r5").unwrap();
    assert_eq!(ap.get_opcode(), 2);
    assert!(!a.get_sign_extend());
    assert_eq!(ap.get_dst(), 3);
    assert_eq!(ap.get_src1(), 4);
    assert_eq!(ap.get_src2(), 5);

    assert_eq!(a, ap);
}

#[test]
fn add_concrete_scenario() {
    // The worked scenario: the raw word decodes to the named field
    // values, the assembly text parses to the identical struct, and
    // emission reproduces the text exactly.
    let raw = 0b00000101_00000100_00000011_10000010u32;
    let a = Add::parse_machine(raw).unwrap();
    assert_eq!(a.get_opcode(), 2);
    assert!(!a.get_sign_extend());
    assert_eq!(a.get_dst(), 3);
    assert_eq!(a.get_src1(), 4);
    assert_eq!(a.get_src2(), 5);
    let ap = Add::parse_assembly("add r3 r4 r5").unwrap();
    assert_eq!(a, ap);
    assert_eq!(a.emit_assembly(), "add r3 r4 r5");
    assert_eq!(a.emit_machine(), raw);
}

#[test]
fn add_machine_round_trip() {
    let mut a = Add::default();
    a.set_dst(31);
    a.set_src1(17);
    a.set_src2(1);
    a.set_sign_extend(true);
    let word = a.emit_machine();
    let back = Add::parse_machine(word).unwrap();
    assert_eq!(back, a);
}

#[test]
fn add_assembly_round_trip() {
    let mut a = Add::default();
    a.set_dst(9);
    a.set_src1(0);
    a.set_src2(30);
    a.set_sign_extend(true);
    let text = a.emit_assembly();
    assert_eq!(text, "add.sx r9 r0 r30");
    let back = Add::parse_assembly(text.as_str()).unwrap();
    assert_eq!(back, a);

    a.set_sign_extend(false);
    let text = a.emit_assembly();
    assert_eq!(text, "add r9 r0 r30");
    let back = Add::parse_assembly(text.as_str()).unwrap();
    assert_eq!(back, a);
}

#[test]
fn add_constant_enforcement() {
    // Flipping each bit of the opcode constant region of a valid word
    // makes decoding fail, naming the constant with both values.
    let raw = 0b00000101_00000100_00000011_10000010u32;
    for k in 0..7u32 {
        let bad = raw ^ (1u32 << k);
        let e = Add::parse_machine(bad).unwrap_err();
        assert_eq!(e.field, "opcode");
        assert_eq!(e.expected, 2);
        assert_eq!(e.found, (bad & 0x7f) as u64);
        assert_ne!(e.found, e.expected);
    }
    // Flipping a bit outside the constant region leaves decoding intact.
    assert!(Add::parse_machine(raw ^ (1u32 << 9)).is_ok());
}

#[test]
fn add_negation() {
    // The sign_extend field is stored with inverted polarity: setting
    // logical true stores raw bit 0, setting false stores raw bit 1.
    let mut a = Add::default();
    a.set_sign_extend(true);
    assert_eq!(a.emit_machine() & (1 << 7), 0);
    assert!(a.get_sign_extend());
    a.set_sign_extend(false);
    assert_eq!(a.emit_machine() & (1 << 7), 1 << 7);
    assert!(!a.get_sign_extend());
}

#[test]
fn add_parse_errors() {
    // The reported position names the first element that failed to
    // match.
    assert_eq!(Add::parse_assembly("sub r1 r2 r3").unwrap_err().position, 0);
    assert_eq!(Add::parse_assembly("add rx r2 r3").unwrap_err().position, 5);
    assert_eq!(Add::parse_assembly("add r1 r2").unwrap_err().position, 9);
    assert_eq!(
        Add::parse_assembly("add r1 r2 r3 trailing").unwrap_err().position,
        12
    );
    assert!(Add::parse_assembly("add r999 r2 r3").is_err());
}

#[test]
fn add_default_fields() {
    let a = Add::default();
    assert_eq!(a.get_opcode(), 2);
    assert_eq!(a.get_dst(), 0);
    assert_eq!(a.get_src1(), 0);
    assert_eq!(a.get_src2(), 0);
}
