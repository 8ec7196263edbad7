use isf::codec::slice_add::SliceAdd;
use isf::AssemblyInstruction;
use isf::MachineInstruction;

#[test]
fn slice_add() {
    let mut a = SliceAdd::parse_assembly("add r4 0x1122").unwrap();
    assert_eq!(a.get_src(), 0x1122);
    a.set_src(0x3344);
    assert_eq!(a.get_src(), 0x3344);
}

#[test]
fn slice_accumulation() {
    // A 14-bit field split into two 7-bit slices at bit offsets 16 and
    // 25: any value within the field's width reads back exactly.
    let mut a = SliceAdd::default();
    for v in [0u16, 1, 0x7f, 0x80, 0x1fff, 0x2aaa, 0x3fff] {
        a.set_src(v);
        assert_eq!(a.get_src(), v);
    }
    // The two placements land in the expected windows.
    a.set_src(0b1010101_0110011);
    let w = a.emit_machine();
    assert_eq!((w >> 16) & 0x7f, 0b0110011);
    assert_eq!((w >> 25) & 0x7f, 0b1010101);
}

#[test]
fn slice_add_machine_round_trip() {
    let mut a = SliceAdd::default();
    a.set_dst(21);
    a.set_src(0x2345);
    a.set_sign_extend(true);
    let back = SliceAdd::parse_machine(a.emit_machine()).unwrap();
    assert_eq!(back, a);
}

#[test]
fn slice_add_assembly_round_trip() {
    let mut a = SliceAdd::default();
    a.set_dst(7);
    a.set_src(4386);
    let text = a.emit_assembly();
    assert_eq!(text, "add r7 4386");
    let back = SliceAdd::parse_assembly(text.as_str()).unwrap();
    assert_eq!(back, a);
}

#[test]
fn slice_add_constant_enforcement() {
    let a = SliceAdd::default();
    let bad = a.emit_machine() ^ 0b100;
    let e = SliceAdd::parse_machine(bad).unwrap_err();
    assert_eq!(e.field, "opcode");
    assert_eq!(e.expected, 2);
    assert_eq!(e.found, 6);
}
