use isf::layout::LayoutError;
use isf::parse::parse;
use isf::render::render_instruction;
use isf::resolve::form_spec;

fn slice_spec_text() -> String {
    [
        "instruction_width = 32;",
        "/// An instruction",
        "instruction SliceAdd {",
        "    fields:",
        "        /// The destination register",
        "        dst: 5,",
        "        /// The source immediate",
        "        src: 14,",
        "        /// Sign extension flag",
        "        sign_extend: 1,",
        "    assembly:",
        "        'add'['.sx' = sign_extend] 'r'dst src;",
        "    machine:",
        "        opcode: 7 = 2,",
        "        sign_extend,",
        "        dst,",
        "        _: 3,",
        "        src[0:6],",
        "        _: 2,",
        "        src[7:13],",
        "}",
    ]
    .join("\n")
}

#[test]
fn render_slice_layout() {
    let tree = parse(slice_spec_text().as_str()).unwrap();
    let spec = form_spec(&tree).unwrap();
    let text = render_instruction(&spec.instructions[0], 32).unwrap();
    // The emitted text is well-formed Rust.
    assert!(syn::parse_file(&text).is_ok(), "{text}");
    // The struct, the default word, and the accumulated slice getter.
    assert!(text.contains("pub struct SliceAdd(pub u32);"));
    assert!(text.contains("Self(2 as u32)"));
    assert!(text.contains("pub fn get_src(&self) -> u16 { let mut result: u16 = 0; "));
    assert!(text.contains(
        "result |= (isf::bits::get_bits64(self.0 as u64, 16, 7) as u16) << 0; "
    ));
    assert!(text.contains(
        "result |= (isf::bits::get_bits64(self.0 as u64, 25, 7) as u16) << 7; "
    ));
    // One logical setter writes both placements.
    assert!(text.contains("pub fn set_src(&mut self, value: u16) {"));
    assert!(text.contains("(value >> 7) as u64"));
    // The machine decode validates the opcode constant.
    assert!(text.contains("if found != 2 { return Err(isf::FieldMismatchError"));
    // The padding regions get no accessors.
    assert!(!text.contains("get__"));
}

#[test]
fn render_markers_and_negation() {
    let text = [
        "instruction_width = 8;",
        "/// An instruction",
        "instruction X {",
        "    fields:",
        "        /// A selector",
        "        sel: 3,",
        "        /// A flag",
        "        neg: 1,",
        "    assembly:",
        "        'x' [.sel];",
        "    machine:",
        "        opcode: 3 = 5,",
        "        sel,",
        "        sel?!,",
        "        neg!,",
        "}",
    ]
    .join("\n");
    let tree = parse(text.as_str()).unwrap();
    let spec = form_spec(&tree).unwrap();
    let out = render_instruction(&spec.instructions[0], 8).unwrap();
    assert!(syn::parse_file(&out).is_ok(), "{out}");
    // The absent-test marker reads inverted and defaults to raw 1: the
    // default word holds opcode 5 and the marker bit.
    assert!(out.contains("pub fn sel_is_set(&self) -> bool { !isf::bits::get_bit64(self.0 as u64, 6) }"));
    assert!(out.contains(&format!("Self({} as u8)", 5 | (1 << 6))));
    // The field's setter writes the value and clears the marker.
    assert!(out.contains("pub fn set_sel(&mut self, value: u8) { "));
    assert!(out.contains("isf::bits::set_bits64(self.0 as u64, 6, 1, 0) as u8; "));
    // The negated one-bit field inverts on both paths.
    assert!(out.contains("pub fn get_neg(&self) -> bool { !isf::bits::get_bit64(self.0 as u64, 7) }"));
    assert!(out.contains("set_bit64(self.0 as u64, 7, !value) as u8; "));
}

#[test]
fn render_rejects_undefined_field() {
    let text = [
        "instruction_width = 8;",
        "/// An instruction",
        "instruction X {",
        "    machine:",
        "        mystery,",
        "}",
    ]
    .join("\n");
    let tree = parse(text.as_str()).unwrap();
    let spec = form_spec(&tree).unwrap();
    let e = render_instruction(&spec.instructions[0], 8).unwrap_err();
    assert_eq!(
        e,
        LayoutError::UndefinedField { instruction: "X".to_owned(), element: "mystery".to_owned() }
    );
}

#[test]
fn render_escapes_literals() {
    let text = [
        "instruction_width = 2;",
        "/// An instruction",
        "instruction X {",
        "    fields:",
        "        /// A register",
        "        r: 2,",
        "    assembly:",
        "        'a\"b' r;",
        "    machine:",
        "        r,",
        "}",
    ]
    .join("\n");
    let tree = parse(text.as_str()).unwrap();
    let spec = form_spec(&tree).unwrap();
    let out = render_instruction(&spec.instructions[0], 8).unwrap();
    assert!(syn::parse_file(&out).is_ok(), "{out}");
    assert!(out.contains("match_lit(text, i, \"a\\\"b\")"));
}
