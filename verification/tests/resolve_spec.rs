use isf::ast;
use isf::parse::parse;
use isf::resolve::form_spec;
use isf::resolve::AssemblyElement;
use isf::resolve::MachineElement;
use isf::resolve::ResolveError;

fn binop_text() -> String {
    [
        "instruction_width = 32;",
        "",
        "/// A base instruction for binary arithmetic operations",
        "instruction BinOp<name, opcode> {",
        "    fields:",
        "        /// The destination register",
        "        dst: 5,",
        "        /// The first source register",
        "        src1: 5,",
        "        /// The second source register",
        "        src2: 5,",
        "        /// Set a flag that sign extends the result",
        "        sign_extend: 1,",
        "    assembly:",
        "        $name['.sx' = sign_extend] 'r'dst 'r'src1 'r'src2;",
        "    machine:",
        "        opcode: 7 = $opcode,",
        "        sign_extend,",
        "        dst,",
        "        _: 3,",
        "        src1,",
        "        _: 3,",
        "        src2,",
        "        _: 3,",
        "}",
        "",
        "/// Add values from two registers",
        "instruction Add: BinOp<'add', 2> {",
        "    timing: async",
        "    assembly:",
        "        examples:",
        "            /// Add the contents of registers 4 and 7 placing the result in",
        "            /// register 0.",
        "            add r0 r4 r7;",
        "            /// Add the contents of registers 4 and 7 sign-extending and",
        "            /// placing the result in register 0.",
        "            add.sx r0 r4 r7;",
        "}",
        "",
        "/// Subtract values from two registers",
        "instruction Sub: BinOp<'sub', 3> {",
        "    timing: 47 cycle",
        "    assembly:",
        "        examples:",
        "            /// Subtract the contents of registers 4 and 7 placing the result in",
        "            /// register 0.",
        "            sub r0 r4 r7;",
        "            /// Subtract the contents of registers 4 and 7 sign-extending and",
        "            /// placing the result in register 0.",
        "            sub.sx r0 r4 r7;",
        "}",
    ]
    .join("\n")
}

#[test]
fn binop_spec() {
    let text = binop_text();
    let tree = parse(text.as_str()).expect("parse binop");
    let spec = form_spec(&tree).expect("form spec");

    assert_eq!(spec.instruction_width, 32);
    assert_eq!(spec.instructions.len(), 2);

    // add instruction
    assert_eq!(spec.instructions[0].timing, ast::Timing::Async);
    assert_eq!(spec.instructions[0].doc, "Add values from two registers");
    assert_eq!(spec.instructions[0].name, "Add");
    assert_eq!(spec.instructions[0].fields.len(), 4);

    assert_eq!(spec.instructions[0].fields[0].doc, "The destination register");
    assert_eq!(spec.instructions[0].fields[0].name, "dst");
    assert_eq!(spec.instructions[0].fields[0].width, 5);
    assert_eq!(spec.instructions[0].fields[0].value, None);

    assert_eq!(spec.instructions[0].fields[1].doc, "The first source register");
    assert_eq!(spec.instructions[0].fields[1].name, "src1");
    assert_eq!(spec.instructions[0].fields[1].width, 5);
    assert_eq!(spec.instructions[0].fields[1].value, None);

    assert_eq!(spec.instructions[0].fields[2].doc, "The second source register");
    assert_eq!(spec.instructions[0].fields[2].name, "src2");
    assert_eq!(spec.instructions[0].fields[2].width, 5);
    assert_eq!(spec.instructions[0].fields[2].value, None);

    assert_eq!(spec.instructions[0].fields[3].doc, "Set a flag that sign extends the result");
    assert_eq!(spec.instructions[0].fields[3].name, "sign_extend");
    assert_eq!(spec.instructions[0].fields[3].width, 1);
    assert_eq!(spec.instructions[0].fields[3].value, None);

    // assembly
    assert_eq!(spec.instructions[0].assembly.syntax.len(), 11);
    assert_eq!(
        spec.instructions[0].assembly.syntax[0],
        AssemblyElement::StringLiteral { value: "add".to_owned() }
    );
    assert_eq!(
        spec.instructions[0].assembly.syntax[1],
        AssemblyElement::OptionalFlag { name: ".sx".to_owned(), field: "sign_extend".to_owned() }
    );
    assert_eq!(spec.instructions[0].assembly.syntax[2], AssemblyElement::Space);
    assert_eq!(
        spec.instructions[0].assembly.syntax[3],
        AssemblyElement::StringLiteral { value: "r".to_owned() }
    );
    assert_eq!(
        spec.instructions[0].assembly.syntax[4],
        AssemblyElement::Field { name: "dst".to_owned() }
    );
    assert_eq!(spec.instructions[0].assembly.syntax[5], AssemblyElement::Space);
    assert_eq!(
        spec.instructions[0].assembly.syntax[6],
        AssemblyElement::StringLiteral { value: "r".to_owned() }
    );
    assert_eq!(
        spec.instructions[0].assembly.syntax[7],
        AssemblyElement::Field { name: "src1".to_owned() }
    );
    assert_eq!(spec.instructions[0].assembly.syntax[8], AssemblyElement::Space);
    assert_eq!(
        spec.instructions[0].assembly.syntax[9],
        AssemblyElement::StringLiteral { value: "r".to_owned() }
    );
    assert_eq!(
        spec.instructions[0].assembly.syntax[10],
        AssemblyElement::Field { name: "src2".to_owned() }
    );

    assert_eq!(spec.instructions[0].assembly.example.len(), 2);
    assert_eq!(
        spec.instructions[0].assembly.example[0].doc,
        "Add the contents of registers 4 and 7 placing the result in\nregister 0."
    );
    assert_eq!(spec.instructions[0].assembly.example[0].example, "add r0 r4 r7");
    assert_eq!(
        spec.instructions[0].assembly.example[1].doc,
        "Add the contents of registers 4 and 7 sign-extending and\nplacing the result in register 0."
    );
    assert_eq!(spec.instructions[0].assembly.example[1].example, "add.sx r0 r4 r7");

    // machine
    assert_eq!(spec.instructions[0].machine.layout.len(), 8);
    assert_eq!(
        spec.instructions[0].machine.layout[0],
        MachineElement::Constant { name: "opcode".to_owned(), width: 7, value: Some(2) }
    );
    assert_eq!(
        spec.instructions[0].machine.layout[1],
        MachineElement::Field { name: "sign_extend".to_owned() }
    );
    assert_eq!(
        spec.instructions[0].machine.layout[2],
        MachineElement::Field { name: "dst".to_owned() }
    );
    assert_eq!(
        spec.instructions[0].machine.layout[3],
        MachineElement::Constant { name: "_".to_owned(), width: 3, value: None }
    );
    assert_eq!(
        spec.instructions[0].machine.layout[4],
        MachineElement::Field { name: "src1".to_owned() }
    );
    assert_eq!(
        spec.instructions[0].machine.layout[5],
        MachineElement::Constant { name: "_".to_owned(), width: 3, value: None }
    );
    assert_eq!(
        spec.instructions[0].machine.layout[6],
        MachineElement::Field { name: "src2".to_owned() }
    );
    assert_eq!(
        spec.instructions[0].machine.layout[7],
        MachineElement::Constant { name: "_".to_owned(), width: 3, value: None }
    );

    // sub instruction
    assert_eq!(spec.instructions[1].timing, ast::Timing::Cycle(47));
    assert_eq!(spec.instructions[1].doc, "Subtract values from two registers");
    assert_eq!(spec.instructions[1].name, "Sub");
    assert_eq!(spec.instructions[1].fields.len(), 4);
    assert_eq!(spec.instructions[1].fields[0].name, "dst");
    assert_eq!(spec.instructions[1].fields[1].name, "src1");
    assert_eq!(spec.instructions[1].fields[2].name, "src2");
    assert_eq!(spec.instructions[1].fields[3].name, "sign_extend");

    assert_eq!(spec.instructions[1].assembly.syntax.len(), 11);
    assert_eq!(
        spec.instructions[1].assembly.syntax[0],
        AssemblyElement::StringLiteral { value: "sub".to_owned() }
    );
    assert_eq!(
        spec.instructions[1].assembly.syntax[1],
        AssemblyElement::OptionalFlag { name: ".sx".to_owned(), field: "sign_extend".to_owned() }
    );
    assert_eq!(
        spec.instructions[1].machine.layout[0],
        MachineElement::Constant { name: "opcode".to_owned(), width: 7, value: Some(3) }
    );

    assert_eq!(spec.instructions[1].assembly.example.len(), 2);
    assert_eq!(
        spec.instructions[1].assembly.example[0].doc,
        "Subtract the contents of registers 4 and 7 placing the result in\nregister 0."
    );
    assert_eq!(spec.instructions[1].assembly.example[0].example, "sub r0 r4 r7");
    assert_eq!(
        spec.instructions[1].assembly.example[1].example,
        "sub.sx r0 r4 r7"
    );
}

#[test]
fn resolve_missing_width() {
    let text = "/// An instruction\ninstruction Nop {\n}\n";
    let tree = parse(text).unwrap();
    let e = form_spec(&tree).unwrap_err();
    assert_eq!(e, ResolveError::MissingInstructionWidth);
}

#[test]
fn resolve_width_too_large() {
    let text = "instruction_width = 129;\n";
    let tree = parse(text).unwrap();
    let e = form_spec(&tree).unwrap_err();
    assert_eq!(e, ResolveError::WidthTooLarge { width: 129 });
}

#[test]
fn resolve_base_not_found() {
    let text = "instruction_width = 8;\n/// An instruction\ninstruction X: Nope<1> {\n}\n";
    let tree = parse(text).unwrap();
    let e = form_spec(&tree).unwrap_err();
    assert_eq!(
        e,
        ResolveError::BaseNotFound { instruction: "X".to_owned(), base: "Nope".to_owned() }
    );
}

#[test]
fn resolve_unbound_parameter() {
    // The base reference supplies one argument for two parameters, and
    // the second parameter is referenced by the machine layout.
    let text = [
        "instruction_width = 8;",
        "/// A base",
        "instruction B<name, opcode> {",
        "    machine:",
        "        opcode: 8 = $opcode,",
        "}",
        "/// An instruction",
        "instruction X: B<'x'> {",
        "}",
    ]
    .join("\n");
    let tree = parse(text.as_str()).unwrap();
    let e = form_spec(&tree).unwrap_err();
    assert_eq!(
        e,
        ResolveError::UnresolvedParameter {
            instruction: "B".to_owned(),
            element: "opcode".to_owned(),
        }
    );
}

#[test]
fn resolve_non_numeric_value() {
    // A textual argument is bound where the layout constant needs a
    // number.
    let text = [
        "instruction_width = 8;",
        "/// A base",
        "instruction B<opcode> {",
        "    machine:",
        "        opcode: 8 = $opcode,",
        "}",
        "/// An instruction",
        "instruction X: B<'x'> {",
        "}",
    ]
    .join("\n");
    let tree = parse(text.as_str()).unwrap();
    let e = form_spec(&tree).unwrap_err();
    assert_eq!(
        e,
        ResolveError::NonNumericValue {
            instruction: "B".to_owned(),
            element: "opcode".to_owned(),
        }
    );
}

#[test]
fn ast_queries() {
    let text = binop_text();
    let tree = parse(text.as_str()).unwrap();
    assert_eq!(tree.instruction_width(), Some(32));
    assert!(tree.get_instruction("BinOp").is_some());
    assert!(tree.get_instruction("BinOp").unwrap().is_base());
    assert!(!tree.get_instruction("Add").unwrap().is_base());
    assert!(tree.get_instruction("Mul").is_none());
}

#[test]
fn timing_display() {
    assert_eq!(ast::Timing::Cycle(1).display_string(), "1 cycle");
    assert_eq!(ast::Timing::Cycle(47).display_string(), "47 cycles");
    assert_eq!(ast::Timing::Async.display_string(), "async");
    assert_eq!(ast::Timing::Multi.display_string(), "multiple cycles");
    assert_eq!(ast::Timing::default(), ast::Timing::Cycle(0));
}

#[test]
fn machine_element_names() {
    let e = MachineElement::Constant { name: "opcode".to_owned(), width: 7, value: Some(2) };
    assert_eq!(e.name(), "opcode");
    let e = MachineElement::FieldSlice { name: "src".to_owned(), begin: 0, end: 6 };
    assert_eq!(e.name(), "src");
    let e = MachineElement::FieldNegate { name: "sign_extend".to_owned() };
    assert_eq!(e.name(), "sign_extend");
}
