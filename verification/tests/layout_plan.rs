use isf::layout::accessor_plan;
use isf::layout::uint_size;
use isf::layout::validate_spec;
use isf::layout::LayoutError;
use isf::layout::PartKind;
use isf::parse::parse;
use isf::resolve::form_spec;

fn add_spec_text() -> String {
    [
        "instruction_width = 32;",
        "/// Add values from two registers",
        "instruction Add {",
        "    fields:",
        "        /// The destination register",
        "        dst: 5,",
        "        /// The first source register",
        "        src1: 5,",
        "        /// The second source register",
        "        src2: 5,",
        "        /// Set a flag that sign extends the result",
        "        sign_extend: 1,",
        "    machine:",
        "        opcode: 7 = 2,",
        "        sign_extend!,",
        "        dst,",
        "        _: 3,",
        "        src1,",
        "        _: 3,",
        "        src2,",
        "        _: 3,",
        "}",
    ]
    .join("\n")
}

#[test]
fn uint_size_steps() {
    assert_eq!(uint_size(0), 8);
    assert_eq!(uint_size(1), 8);
    assert_eq!(uint_size(8), 8);
    assert_eq!(uint_size(9), 16);
    assert_eq!(uint_size(16), 16);
    assert_eq!(uint_size(17), 32);
    assert_eq!(uint_size(32), 32);
    assert_eq!(uint_size(33), 64);
    assert_eq!(uint_size(64), 64);
    assert_eq!(uint_size(65), 128);
    assert_eq!(uint_size(128), 128);
}

#[test]
fn plan_offsets_for_add() {
    let text = add_spec_text();
    let tree = parse(text.as_str()).unwrap();
    let spec = form_spec(&tree).unwrap();
    let parts = accessor_plan(&spec.instructions[0]).unwrap();
    assert_eq!(parts.len(), 8);
    let offsets: Vec<usize> = parts.iter().map(|p| p.offset).collect();
    assert_eq!(offsets, vec![0, 7, 8, 13, 16, 21, 24, 29]);
    let widths: Vec<usize> = parts.iter().map(|p| p.element_width).collect();
    assert_eq!(widths, vec![7, 1, 5, 3, 5, 3, 5, 3]);
    assert!(matches!(parts[0].kind, PartKind::Constant { value: Some(2) }));
    assert!(matches!(parts[1].kind, PartKind::Negate));
    assert!(matches!(parts[2].kind, PartKind::Field));
    assert!(matches!(parts[3].kind, PartKind::Padding));
    assert_eq!(parts[1].name, "sign_extend");
    assert_eq!(parts[2].name, "dst");
    assert_eq!(parts[3].name, "_");
}

#[test]
fn plan_slices_and_markers() {
    let text = [
        "instruction_width = 16;",
        "/// An instruction",
        "instruction X {",
        "    fields:",
        "        /// A wide immediate",
        "        imm: 14,",
        "        /// A selector",
        "        sel: 1,",
        "    machine:",
        "        imm[0:6],",
        "        imm[7:13],",
        "        sel?,",
        "        sel?!,",
        "}",
    ]
    .join("\n");
    let tree = parse(text.as_str()).unwrap();
    let spec = form_spec(&tree).unwrap();
    let parts = accessor_plan(&spec.instructions[0]).unwrap();
    assert_eq!(parts.len(), 4);
    assert!(matches!(parts[0].kind, PartKind::Slice { begin: 0, end: 6 }));
    assert!(matches!(parts[1].kind, PartKind::Slice { begin: 7, end: 13 }));
    assert!(matches!(parts[2].kind, PartKind::PresentTest));
    assert!(matches!(parts[3].kind, PartKind::AbsentTest));
    assert_eq!(parts[0].offset, 0);
    assert_eq!(parts[1].offset, 7);
    assert_eq!(parts[2].offset, 14);
    assert_eq!(parts[3].offset, 15);
    assert_eq!(parts[0].field_width, 14);
    assert_eq!(parts[2].field_width, 1);
    assert!(validate_spec(&spec).is_ok());
}

#[test]
fn validate_spec_checks_sum() {
    // The element widths must sum to the instruction width exactly.
    let text = [
        "instruction_width = 16;",
        "/// An instruction",
        "instruction X {",
        "    machine:",
        "        opcode: 7 = 2,",
        "}",
    ]
    .join("\n");
    let tree = parse(text.as_str()).unwrap();
    let spec = form_spec(&tree).unwrap();
    let e = validate_spec(&spec).unwrap_err();
    assert_eq!(e, LayoutError::WidthMismatch { instruction: "X".to_owned() });
}

#[test]
fn plan_rejects_undefined_field() {
    let text = [
        "instruction_width = 8;",
        "/// An instruction",
        "instruction X {",
        "    machine:",
        "        mystery,",
        "}",
    ]
    .join("\n");
    let tree = parse(text.as_str()).unwrap();
    let spec = form_spec(&tree).unwrap();
    let e = accessor_plan(&spec.instructions[0]).unwrap_err();
    assert_eq!(
        e,
        LayoutError::UndefinedField { instruction: "X".to_owned(), element: "mystery".to_owned() }
    );
}

#[test]
fn plan_rejects_reversed_slice() {
    let text = [
        "instruction_width = 8;",
        "/// An instruction",
        "instruction X {",
        "    fields:",
        "        /// An immediate",
        "        imm: 8,",
        "    machine:",
        "        imm[7:0],",
        "}",
    ]
    .join("\n");
    let tree = parse(text.as_str()).unwrap();
    let spec = form_spec(&tree).unwrap();
    let e = accessor_plan(&spec.instructions[0]).unwrap_err();
    assert_eq!(
        e,
        LayoutError::InvalidSlice { instruction: "X".to_owned(), element: "imm".to_owned() }
    );
}

#[test]
fn validate_rejects_overwide_width() {
    // The bit-window accessors cover storage words up to 64 bits; wider
    // declared widths are rejected at validation.
    let spec = isf::resolve::Spec { instruction_width: 65, instructions: Vec::new() };
    let e = validate_spec(&spec).unwrap_err();
    assert_eq!(e, LayoutError::WidthTooLarge { width: 65 });
    let spec = isf::resolve::Spec { instruction_width: 64, instructions: Vec::new() };
    assert!(validate_spec(&spec).is_ok());
}

#[test]
fn default_word_from_plan() {
    // The default word of the worked layout holds the opcode constant
    // and nothing else.
    let text = add_spec_text();
    let tree = parse(text.as_str()).unwrap();
    let spec = form_spec(&tree).unwrap();
    let parts = accessor_plan(&spec.instructions[0]).unwrap();
    assert_eq!(isf::layout::default_word64(&parts), 2);
}

#[test]
fn default_word_marks_absent_tests() {
    // An absent-test marker defaults to raw 1: the field reads "not
    // explicitly supplied" through its inverted exposure, and the
    // setter's write of 0 flips the report.
    let text = [
        "instruction_width = 8;",
        "/// An instruction",
        "instruction X {",
        "    fields:",
        "        /// A selector",
        "        sel: 3,",
        "    machine:",
        "        opcode: 4 = 9,",
        "        sel,",
        "        sel?!,",
        "}",
    ]
    .join("\n");
    let tree = parse(text.as_str()).unwrap();
    let spec = form_spec(&tree).unwrap();
    let parts = accessor_plan(&spec.instructions[0]).unwrap();
    let w = isf::layout::default_word64(&parts);
    assert_eq!(w & 0xf, 9);
    assert_eq!((w >> 4) & 0x7, 0);
    assert_eq!((w >> 7) & 1, 1);
}
