use isf::codec::add_field_opt::AddOptField;
use isf::AssemblyInstruction;
use isf::MachineInstruction;

#[test]
fn add_field_opt_add() {
    let a = AddOptField::parse_assembly("add r4 r3 2 1").unwrap();
    assert_eq!(a.get_a(), 2);
    assert_eq!(a.get_b(), 1);
    assert_eq!(a.get_src1_sel(), 0);
    assert!(!a.src1_sel_is_set());

    let a = AddOptField::parse_assembly("add r4 r3.7 2 1").unwrap();
    assert_eq!(a.get_a(), 2);
    assert_eq!(a.get_b(), 1);
    assert_eq!(a.get_src1_sel(), 7);
    assert!(a.src1_sel_is_set());
}

#[test]
fn add_field_opt_marker() {
    // The optional-field marker: a fresh instruction reports the field
    // not explicitly supplied; invoking its setter flips the report.
    let mut a = AddOptField::default();
    assert!(!a.src1_sel_is_set());
    assert_eq!(a.get_src1_sel(), 0);
    a.set_src1_sel(5);
    assert!(a.src1_sel_is_set());
    assert_eq!(a.get_src1_sel(), 5);
}

#[test]
fn add_field_opt_machine_round_trip() {
    let mut a = AddOptField::default();
    a.set_dst(4);
    a.set_src1(3);
    a.set_src1_sel(7);
    a.set_a(2);
    a.set_b(1);
    let word = a.emit_machine();
    let back = AddOptField::parse_machine(word).unwrap();
    assert_eq!(back, a);
}

#[test]
fn add_field_opt_assembly_round_trip() {
    let mut a = AddOptField::default();
    a.set_sign_extend(false);
    a.set_dst(4);
    a.set_src1(3);
    a.set_src1_sel(7);
    a.set_a(2);
    a.set_b(1);
    let text = a.emit_assembly();
    assert_eq!(text, "add r4 r3.7 2 1");
    let back = AddOptField::parse_assembly(text.as_str()).unwrap();
    assert_eq!(back, a);
}

#[test]
fn add_field_opt_emission_suppresses_zero() {
    // An optional field whose raw value is zero is left out of the
    // emitted text; such values are exempt from the round trip.
    let mut a = AddOptField::default();
    a.set_sign_extend(false);
    a.set_dst(1);
    a.set_src1(2);
    a.set_b(3);
    assert_eq!(a.emit_assembly(), "add r1 r2  3");
}

#[test]
fn add_field_opt_constant_enforcement() {
    let mut a = AddOptField::default();
    a.set_dst(4);
    let word = a.emit_machine();
    let bad = word ^ 0b1;
    let e = AddOptField::parse_machine(bad).unwrap_err();
    assert_eq!(e.field, "opcode");
    assert_eq!(e.expected, 2);
    assert_eq!(e.found, 3);
}
