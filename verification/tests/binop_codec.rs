use isf::codec::binop::Add;
use isf::codec::binop::Sub;
use isf::AssemblyInstruction;
use isf::MachineInstruction;

#[test]
fn binop_add() {
    let raw_add = 0b00000101_00000100_00000011_00000010;
    let a = Add::parse_machine(raw_add).unwrap();
    assert_eq!(a.get_opcode(), 2);
    assert_eq!(a.get_dst(), 3);
    assert_eq!(a.get_src1(), 4);
    assert_eq!(a.get_src2(), 5);

    let raw_sub = 0b00000101_00000100_00000011_00000011;
    let s = Sub::parse_machine(raw_sub).unwrap();
    assert_eq!(s.get_opcode(), 3);
    assert_eq!(s.get_dst(), 3);
    assert_eq!(s.get_src1(), 4);
    assert_eq!(s.get_src2(), 5);

    let ap = Add::parse_assembly("add r3 r4 r5").unwrap();
    assert_eq!(ap.get_opcode(), 2);
    assert_eq!(ap.get_dst(), 3);
    assert_eq!(ap.get_src1(), 4);
    assert_eq!(ap.get_src2(), 5);
    assert_eq!(a, ap);
    assert_eq!(a.emit_assembly(), "add r3 r4 r5");
    assert_eq!(ap.emit_assembly(), "add r3 r4 r5");
    assert_eq!(a.emit_machine(), raw_add);
    assert_eq!(ap.emit_machine(), raw_add);

    let sp = Sub::parse_assembly("sub r3 r4 r5").unwrap();
    assert_eq!(sp.get_opcode(), 3);
    assert_eq!(sp.get_dst(), 3);
    assert_eq!(sp.get_src1(), 4);
    assert_eq!(sp.get_src2(), 5);
    assert_eq!(s, sp);
    assert_eq!(s.emit_assembly(), "sub r3 r4 r5");
    assert_eq!(sp.emit_assembly(), "sub r3 r4 r5");
    assert_eq!(s.emit_machine(), raw_sub);
    assert_eq!(sp.emit_machine(), raw_sub);
}

#[test]
fn binop_instances_independent() {
    // The two instantiations of the shared base carry their own opcode
    // constants and mnemonics, with no residual coupling.
    let a = Add::default();
    let s = Sub::default();
    assert_eq!(a.get_opcode(), 2);
    assert_eq!(s.get_opcode(), 3);
    assert!(Add::parse_machine(s.emit_machine()).is_err());
    assert!(Sub::parse_machine(a.emit_machine()).is_err());
    assert!(Add::parse_assembly("sub r1 r2 r3").is_err());
    assert!(Sub::parse_assembly("add r1 r2 r3").is_err());
}

#[test]
fn binop_sign_extend_direct() {
    // In this layout sign_extend is stored directly: logical true is
    // raw bit 1.
    let mut a = Add::default();
    a.set_sign_extend(true);
    assert_eq!(a.emit_machine() & (1 << 7), 1 << 7);
    assert_eq!(a.emit_assembly(), "add.sx r0 r0 r0");
    let back = Add::parse_assembly("add.sx r0 r0 r0").unwrap();
    assert_eq!(back, a);
}
