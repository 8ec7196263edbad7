use isf::ast;
use isf::parse::parse;

#[test]
fn parse_characteristics_block() {
    let text = "// a comment line\ninstruction_width = 47;\n";
    let parsed = parse(text).unwrap();
    assert_eq!(parsed.characteristics[0], ast::Characteristic::InstructionWidth(47));
    assert_eq!(parsed.instructions.len(), 0);
}

#[test]
fn parse_add() {
    let text = [
        "instruction_width = 32;",
        "",
        "/// Add values from two registers",
        "instruction Add {",
        "    fields:",
        "        /// The destination register",
        "        dst: 5,",
        "        /// The first source register",
        "        src1: 5,",
        "        /// The second source register",
        "        src2: 5,",
        "        /// Set a flag that sign extends the result",
        "        sign_extend: 1,",
        "    assembly:",
        "        'add'['.sx' = sign_extend] 'r'dst 'r'src1 'r'src2;",
        "        examples:",
        "            /// Add the contents of registers 4 and 7 placing the result in",
        "            /// register 0.",
        "            add r0 r4 r7;",
        "            /// Add the contents of registers 4 and 7 sign-extending and",
        "            /// placing the result in register 0.",
        "            add.sx r0 r4 r7;",
        "    machine:",
        "        opcode: 7 = 2,",
        "        sign_extend!,",
        "        dst,",
        "        _: 3,",
        "        src1,",
        "        _: 3,",
        "        src2,",
        "        _: 3,",
        "}",
    ]
    .join("\n");
    let parsed = parse(text.as_str()).unwrap();
    assert_eq!(parsed.instructions.len(), 1);
    assert_eq!(parsed.instructions[0].doc, "Add values from two registers");
    assert_eq!(parsed.instructions[0].name, "Add");
    assert_eq!(parsed.instructions[0].fields.len(), 4);
    assert_eq!(
        parsed.instructions[0].fields[0],
        ast::Field {
            doc: "The destination register".to_owned(),
            name: "dst".to_owned(),
            width: 5,
            value: None,
        }
    );
    assert_eq!(
        parsed.instructions[0].fields[3],
        ast::Field {
            doc: "Set a flag that sign extends the result".to_owned(),
            name: "sign_extend".to_owned(),
            width: 1,
            value: None,
        }
    );
    assert_eq!(
        parsed.instructions[0].assembly.syntax,
        vec![
            ast::AssemblyElement::StringLiteral { value: "add".to_owned() },
            ast::AssemblyElement::OptionalFlag {
                name: ".sx".to_owned(),
                field: "sign_extend".to_owned(),
            },
            ast::AssemblyElement::Space,
            ast::AssemblyElement::StringLiteral { value: "r".to_owned() },
            ast::AssemblyElement::Field { name: "dst".to_owned() },
            ast::AssemblyElement::Space,
            ast::AssemblyElement::StringLiteral { value: "r".to_owned() },
            ast::AssemblyElement::Field { name: "src1".to_owned() },
            ast::AssemblyElement::Space,
            ast::AssemblyElement::StringLiteral { value: "r".to_owned() },
            ast::AssemblyElement::Field { name: "src2".to_owned() },
        ]
    );
    assert_eq!(parsed.instructions[0].assembly.example.len(), 2);
    assert_eq!(
        parsed.instructions[0].assembly.example[0],
        ast::AssemblyExample {
            doc: [
                "Add the contents of registers 4 and 7 placing the result in",
                "register 0.",
            ]
            .join("\n"),
            example: "add r0 r4 r7".to_owned(),
        }
    );
    assert_eq!(
        parsed.instructions[0].assembly.example[1],
        ast::AssemblyExample {
            doc: [
                "Add the contents of registers 4 and 7 sign-extending and",
                "placing the result in register 0.",
            ]
            .join("\n"),
            example: "add.sx r0 r4 r7".to_owned(),
        }
    );
    assert_eq!(parsed.instructions[0].machine.layout.len(), 8);
    assert_eq!(
        parsed.instructions[0].machine.layout[0],
        ast::MachineElement::Constant {
            name: "opcode".to_owned(),
            width: 7,
            value: Some(ast::MachineElementValue::NumericConstant(2)),
        }
    );
    assert_eq!(
        parsed.instructions[0].machine.layout[1],
        ast::MachineElement::FieldNegate { name: "sign_extend".to_owned() }
    );
    assert_eq!(
        parsed.instructions[0].machine.layout[2],
        ast::MachineElement::Field { name: "dst".to_owned() }
    );
    assert_eq!(
        parsed.instructions[0].machine.layout[3],
        ast::MachineElement::Constant { name: "_".to_owned(), width: 3, value: None }
    );
}

#[test]
fn parse_binop_base() {
    let text = [
        "instruction_width = 32;",
        "/// A base instruction for binary arithmetic operations",
        "instruction BinOp<name, opcode> {",
        "    fields:",
        "        /// The destination register",
        "        dst: 5,",
        "    assembly:",
        "        $name['.sx' = sign_extend] 'r'dst;",
        "    machine:",
        "        opcode: 7 = $opcode,",
        "        dst,",
        "}",
        "/// Add values from two registers",
        "instruction Add: BinOp<'add', 2> {",
        "}",
    ]
    .join("\n");
    let parsed = parse(text.as_str()).unwrap();
    assert_eq!(parsed.instructions.len(), 2);
    assert_eq!(parsed.instructions[0].parameters.len(), 2);
    assert_eq!(parsed.instructions[0].parameters[0], "name");
    assert_eq!(parsed.instructions[0].parameters[1], "opcode");
    assert_eq!(
        parsed.instructions[0].assembly.syntax[0],
        ast::AssemblyElement::Expansion { name: "name".to_owned() }
    );
    assert_eq!(
        parsed.instructions[0].machine.layout[0],
        ast::MachineElement::Constant {
            name: "opcode".to_owned(),
            width: 7,
            value: Some(ast::MachineElementValue::GenericParameter("opcode".to_owned())),
        }
    );
    assert_eq!(
        parsed.instructions[1].base,
        Some(ast::Base {
            name: "BinOp".to_owned(),
            parameters: vec![
                ast::BaseParameter::Text("add".to_owned()),
                ast::BaseParameter::Number(2),
            ],
        })
    );
}

#[test]
fn parse_slice_add() {
    let text = [
        "instruction_width = 32;",
        "/// An instruction",
        "instruction SliceAdd {",
        "    fields:",
        "        /// The destination register",
        "        dst: 5,",
        "        /// The source immediate",
        "        src: 14,",
        "        /// Sign extension flag",
        "        sign_extend: 1,",
        "    assembly:",
        "        'add'['.sx' = sign_extend] 'r'dst src;",
        "    machine:",
        "        opcode: 7 = 2,",
        "        sign_extend,",
        "        dst,",
        "        _: 3,",
        "        src[0:6],",
        "        _: 2,",
        "        src[7:13],",
        "}",
    ]
    .join("\n");
    let parsed = parse(text.as_str()).unwrap();
    assert_eq!(parsed.instructions.len(), 1);
    assert_eq!(parsed.instructions[0].machine.layout.len(), 7);
    assert_eq!(
        parsed.instructions[0].machine.layout[4],
        ast::MachineElement::FieldSlice { name: "src".to_owned(), begin: 0, end: 6 }
    );
    assert_eq!(
        parsed.instructions[0].machine.layout[6],
        ast::MachineElement::FieldSlice { name: "src".to_owned(), begin: 7, end: 13 }
    );
}

#[test]
fn parse_slice_add_contiguous() {
    let text = [
        "instruction_width = 32;",
        "/// An instruction",
        "instruction SliceAdd {",
        "    fields:",
        "        /// The destination register",
        "        dst: 5,",
        "        /// The source immediate",
        "        src: 16,",
        "    assembly:",
        "        'add' 'r'dst src;",
        "    machine:",
        "        opcode: 7 = 2,",
        "        dst,",
        "        _: 4,",
        "        src[0:7],",
        "        src[8:15],",
        "}",
    ]
    .join("\n");
    let parsed = parse(text.as_str()).unwrap();
    assert_eq!(parsed.instructions.len(), 1);
    assert_eq!(parsed.instructions[0].machine.layout.len(), 5);
    assert_eq!(
        parsed.instructions[0].machine.layout[3],
        ast::MachineElement::FieldSlice { name: "src".to_owned(), begin: 0, end: 7 }
    );
    assert_eq!(
        parsed.instructions[0].machine.layout[4],
        ast::MachineElement::FieldSlice { name: "src".to_owned(), begin: 8, end: 15 }
    );
}

#[test]
fn parse_machine_markers() {
    let text = [
        "/// An instruction",
        "instruction X {",
        "    machine:",
        "        sel?,",
        "        alt?!,",
        "        pad: 2,",
        "}",
    ]
    .join("\n");
    let parsed = parse(text.as_str()).unwrap();
    assert_eq!(
        parsed.instructions[0].machine.layout[0],
        ast::MachineElement::OptionalFieldPresentTest { name: "sel".to_owned() }
    );
    assert_eq!(
        parsed.instructions[0].machine.layout[1],
        ast::MachineElement::OptionalFieldAbsentTest { name: "alt".to_owned() }
    );
    assert_eq!(
        parsed.instructions[0].machine.layout[2],
        ast::MachineElement::Constant { name: "pad".to_owned(), width: 2, value: None }
    );
}

#[test]
fn parse_rejects_garbage() {
    assert!(parse("instruction_width = ;").is_err());
    assert!(parse("bogus").is_err());
    let e = parse("/// doc\ninstruction {").unwrap_err();
    assert_eq!(e.context, "instruction body");
    assert!(parse("/// doc\ninstruction X {\n    machine:\n        : 3,\n}").is_err());
}

#[test]
fn parse_optional_field_elements() {
    let text = [
        "/// An instruction",
        "instruction X {",
        "    assembly:",
        "        'x' [.sel] [alt];",
        "}",
    ]
    .join("\n");
    let parsed = parse(text.as_str()).unwrap();
    let syntax = &parsed.instructions[0].assembly.syntax;
    assert_eq!(syntax[0], ast::AssemblyElement::StringLiteral { value: "x".to_owned() });
    assert_eq!(syntax[1], ast::AssemblyElement::Space);
    assert_eq!(
        syntax[2],
        ast::AssemblyElement::OptionalField { name: "sel".to_owned(), with_dot: true }
    );
    assert_eq!(syntax[3], ast::AssemblyElement::Space);
    assert_eq!(
        syntax[4],
        ast::AssemblyElement::OptionalField { name: "alt".to_owned(), with_dot: false }
    );
}

#[test]
fn parse_comments_between_tokens() {
    let text = [
        "// leading comment",
        "instruction_width = 16;",
        "// a comment between blocks",
        "/// An instruction",
        "instruction X {",
        "    // a comment before a section",
        "    timing: multi",
        "    fields:",
        "        // a comment before a field",
        "        /// A register",
        "        reg: 8,",
        "    machine:",
        "        // a comment before an element",
        "        opcode: 8 = 0x2a,",
        "        reg,",
        "}",
        "// trailing comment",
        "",
    ]
    .join("\n");
    let parsed = parse(text.as_str()).unwrap();
    assert_eq!(parsed.instructions.len(), 1);
    assert_eq!(parsed.instructions[0].timing, Some(ast::Timing::Multi));
    assert_eq!(parsed.instructions[0].fields[0].name, "reg");
    assert_eq!(
        parsed.instructions[0].machine.layout[0],
        ast::MachineElement::Constant {
            name: "opcode".to_owned(),
            width: 8,
            value: Some(ast::MachineElementValue::NumericConstant(42)),
        }
    );
}

#[test]
fn parse_timing_variants() {
    let cycle = "/// doc\ninstruction X {\n    timing: 3 cycle\n}";
    let parsed = parse(cycle).unwrap();
    assert_eq!(parsed.instructions[0].timing, Some(ast::Timing::Cycle(3)));
    let asy = "/// doc\ninstruction X {\n    timing: async\n}";
    let parsed = parse(asy).unwrap();
    assert_eq!(parsed.instructions[0].timing, Some(ast::Timing::Async));
    let none = "/// doc\ninstruction X {\n}";
    let parsed = parse(none).unwrap();
    assert_eq!(parsed.instructions[0].timing, None);
}

#[test]
fn parse_number_literal_base_argument() {
    let text = [
        "/// A base",
        "instruction B<opcode> {",
        "    machine:",
        "        opcode: 8 = $opcode,",
        "}",
        "/// An instruction",
        "instruction X: B<0x2a> {",
        "}",
    ]
    .join("\n");
    let parsed = parse(text.as_str()).unwrap();
    assert_eq!(
        parsed.instructions[1].base,
        Some(ast::Base {
            name: "B".to_owned(),
            parameters: vec![ast::BaseParameter::Number(42)],
        })
    );
}
