use isf::docgen::assembly_string;
use isf::docgen::machine_element_table;
use isf::docgen::Field;
use isf::parse::parse;
use isf::resolve;
use isf::resolve::form_spec;

#[test]
fn table_for_slice_layout() {
    let text = [
        "instruction_width = 32;",
        "/// An instruction",
        "instruction SliceAdd {",
        "    fields:",
        "        /// The destination register",
        "        dst: 5,",
        "        /// The source immediate",
        "        src: 14,",
        "        /// Sign extension flag",
        "        sign_extend: 1,",
        "    machine:",
        "        opcode: 7 = 2,",
        "        sign_extend,",
        "        dst,",
        "        _: 3,",
        "        src[0:6],",
        "        _: 2,",
        "        src[7:13],",
        "}",
    ]
    .join("\n");
    let tree = parse(text.as_str()).unwrap();
    let spec = form_spec(&tree).unwrap();
    let table = machine_element_table(&spec.instructions[0]);
    assert_eq!(table.len(), 7);
    assert_eq!(table[0], (0, 7, "opcode = 2".to_owned()));
    assert_eq!(table[1], (7, 1, "<span class=\"field\">sign_extend</span>".to_owned()));
    assert_eq!(table[2], (8, 5, "<span class=\"field\">dst</span>".to_owned()));
    assert_eq!(table[3], (13, 3, "~".to_owned()));
    assert_eq!(table[4], (16, 7, "<span class=\"field\">src</span>[0:6]".to_owned()));
    assert_eq!(table[5], (23, 2, "~".to_owned()));
    assert_eq!(table[6], (25, 7, "<span class=\"field\">src</span>[7:13]".to_owned()));
}

#[test]
fn table_labels_markers_and_reserved() {
    let text = [
        "instruction_width = 4;",
        "/// An instruction",
        "instruction X {",
        "    fields:",
        "        /// A flag",
        "        f: 1,",
        "    machine:",
        "        f!,",
        "        f?,",
        "        f?!,",
        "        keep: 1,",
        "}",
    ]
    .join("\n");
    let tree = parse(text.as_str()).unwrap();
    let spec = form_spec(&tree).unwrap();
    let table = machine_element_table(&spec.instructions[0]);
    assert_eq!(table[0], (0, 1, "<span class=\"field\">f</span>!".to_owned()));
    assert_eq!(table[1], (1, 1, "<span class=\"field\">f</span>?".to_owned()));
    assert_eq!(table[2], (2, 1, "<span class=\"field\">f</span>?!".to_owned()));
    assert_eq!(table[3], (3, 1, "keep = 0".to_owned()));
}

#[test]
fn assembly_string_annotates_elements() {
    let syntax = vec![
        resolve::AssemblyElement::StringLiteral { value: "add".to_owned() },
        resolve::AssemblyElement::OptionalFlag {
            name: ".sx".to_owned(),
            field: "sign_extend".to_owned(),
        },
        resolve::AssemblyElement::Space,
        resolve::AssemblyElement::StringLiteral { value: "r".to_owned() },
        resolve::AssemblyElement::Field { name: "dst".to_owned() },
    ];
    let a = resolve::Assembly { syntax, example: Vec::new() };
    assert_eq!(
        assembly_string(&a),
        "<span class=\"constant\">'add'</span>\
        [<span class=\"constant\">'.sx'</span> = <span class=\"field\">sign_extend</span>] \
        <span class=\"constant\">'r'</span><span class=\"field\">dst</span>"
    );
}

#[test]
fn assembly_string_strips_quote_seams_and_trims() {
    // An empty string literal leaves a quote seam, which is removed, and
    // surrounding separators are trimmed away.
    let syntax = vec![
        resolve::AssemblyElement::Space,
        resolve::AssemblyElement::StringLiteral { value: "".to_owned() },
        resolve::AssemblyElement::NumberLiteral { value: 7 },
        resolve::AssemblyElement::Dot,
        resolve::AssemblyElement::Comma,
        resolve::AssemblyElement::OptionalField { name: "sel".to_owned(), with_dot: true },
        resolve::AssemblyElement::OptionalField { name: "alt".to_owned(), with_dot: false },
        resolve::AssemblyElement::Space,
    ];
    let a = resolve::Assembly { syntax, example: Vec::new() };
    assert_eq!(
        assembly_string(&a),
        "<span class=\"constant\"></span>7.,\
        [.<span class=\"field\">sel</span>]\
        [<span class=\"field\">alt</span>]"
    );
}

#[test]
fn doc_field_from_resolved() {
    let f = resolve::Field {
        doc: "The destination register".to_owned(),
        name: "dst".to_owned(),
        width: 5,
        value: None,
    };
    let d = Field::from(f);
    assert_eq!(d.doc, "The destination register");
    assert_eq!(d.name, "dst");
    assert_eq!(d.width, 5);
    assert_eq!(d.class, None);
}
