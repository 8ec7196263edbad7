//! The instruction-format parser: source text in, abstract syntax tree
//! out, or a positioned, contextual syntax error.  Parsing is a single
//! left-to-right pass with no backtracking once a section keyword has
//! matched; line comments are skippable whitespace between tokens.

use crate::ast;
use crate::text::has_lit;
use crate::text::is_ws;
use crate::text::match_lit;
use crate::text::push_char;
use crate::text::scan_number;
use crate::text::skip_ws;
use crate::text::skip_ws_end;
use crate::text::spec_number;
use vstd::prelude::*;
use vstd::string::StrSliceExecFns;

verus! {

/// A syntax error: where parsing stopped and which grammar production
/// was being read.
#[derive(Debug)]
pub struct SyntaxError {
    pub position: usize,
    pub context: String,
}

/// Whether `c` may start an identifier.
pub open spec fn is_ident_start(c: char) -> bool {
    c == '_' || (97 <= c as u32 <= 122) || (65 <= c as u32 <= 90)
}

/// Whether `c` may continue an identifier.
pub open spec fn is_ident_char(c: char) -> bool {
    is_ident_start(c) || (48 <= c as u32 <= 57)
}

/// The end of the identifier-character run starting at `i`.
pub open spec fn ident_end(s: Seq<char>, i: int) -> int
    decreases s.len() - i when 0 <= i <= s.len()
{
    if i < 0 || i >= s.len() {
        i
    } else if is_ident_char(s[i]) {
        ident_end(s, i + 1)
    } else {
        i
    }
}

/// Characters skipped over by `ident_end` are identifier characters.
pub proof fn lemma_ident_end(s: Seq<char>, i: int)
    requires
        0 <= i <= s.len(),
    ensures
        i <= ident_end(s, i) <= s.len(),
        forall|k: int| i <= k < ident_end(s, i) ==> is_ident_char(s[k]),
        ident_end(s, i) < s.len() ==> !is_ident_char(s[ident_end(s, i)]),
    decreases s.len() - i,
{
    if i < s.len() && is_ident_char(s[i]) {
        lemma_ident_end(s, i + 1);
    }
}

/// The first quote character at or after `i`, or the end of the text.
pub open spec fn quote_end(s: Seq<char>, i: int) -> int
    decreases s.len() - i when 0 <= i <= s.len()
{
    if i < 0 || i >= s.len() {
        i
    } else if s[i] == '\'' {
        i
    } else {
        quote_end(s, i + 1)
    }
}

/// The first semicolon at or after `i`, or the end of the text.
pub open spec fn semi_end(s: Seq<char>, i: int) -> int
    decreases s.len() - i when 0 <= i <= s.len()
{
    if i < 0 || i >= s.len() {
        i
    } else if s[i] == ';' {
        i
    } else {
        semi_end(s, i + 1)
    }
}

/// The first non-whitespace position in `[lo, hi)`, or `hi`.
pub open spec fn ltrim(s: Seq<char>, lo: int, hi: int) -> int
    decreases hi - lo when lo <= hi
{
    if lo >= hi {
        lo
    } else if is_ws(s[lo]) {
        ltrim(s, lo + 1, hi)
    } else {
        lo
    }
}

/// The position after the last non-whitespace character in `[lo, hi)`,
/// or `lo`.
pub open spec fn rtrim(s: Seq<char>, lo: int, hi: int) -> int
    decreases hi - lo when lo <= hi
{
    if hi <= lo {
        hi
    } else if is_ws(s[hi - 1]) {
        rtrim(s, lo, hi - 1)
    } else {
        hi
    }
}

/// Where a whitespace-wrapped literal token ends: the token must stand
/// at the first non-whitespace position, and trailing whitespace is
/// consumed.
pub open spec fn lit_end(s: Seq<char>, i: int, tok: Seq<char>) -> Option<int> {
    let a = skip_ws_end(s, i);
    if has_lit(s, a, tok) {
        Some(skip_ws_end(s, a + tok.len()))
    } else {
        None
    }
}

/// What reading an identifier standing exactly at `i` yields.
pub open spec fn spec_ident_at(s: Seq<char>, i: int) -> Option<(Seq<char>, int)> {
    if 0 <= i < s.len() && is_ident_start(s[i]) {
        Some((s.subrange(i, ident_end(s, i)), ident_end(s, i)))
    } else {
        None
    }
}

/// What reading a whitespace-wrapped identifier yields.
pub open spec fn spec_ident_ws_at(s: Seq<char>, i: int) -> Option<(Seq<char>, int)> {
    let a = skip_ws_end(s, i);
    if a < s.len() && is_ident_start(s[a]) {
        Some((s.subrange(a, ident_end(s, a)), skip_ws_end(s, ident_end(s, a))))
    } else {
        None
    }
}

/// What reading one doc-comment line yields: the trimmed text after
/// `///`, and the position past the line ending, which is required.
pub open spec fn spec_docstring_line(s: Seq<char>, i: int) -> Option<(Seq<char>, int)> {
    let a = skip_ws_end(s, i);
    if !has_lit(s, a, "///"@) {
        None
    } else {
        let b = a + 3;
        let j = line_text_end(s, b);
        if j == s.len() {
            None
        } else if s[j] == '\r' && j + 1 < s.len() && s[j + 1] == '\n' {
            let ls = ltrim(s, b, j);
            Some((s.subrange(ls, rtrim(s, ls, j)), j + 2))
        } else if s[j] == '\n' {
            let ls = ltrim(s, b, j);
            Some((s.subrange(ls, rtrim(s, ls, j)), j + 1))
        } else {
            None
        }
    }
}

/// What reading a doc comment yields: one or more doc lines, joined
/// with line breaks.
pub open spec fn spec_docstring(s: Seq<char>, i: int) -> Option<(Seq<char>, int)>
    decreases s.len() - i when 0 <= i <= s.len() via spec_docstring_dec
{
    match spec_docstring_line(s, i) {
        None => None,
        Some((t, j)) => {
            if j <= i || j > s.len() {
                Some((t, j))
            } else {
                match spec_docstring(s, j) {
                    None => Some((t, j)),
                    Some((rest, k)) => Some((t + seq!['\n'] + rest, k)),
                }
            }
        },
    }
}

#[via_fn]
proof fn spec_docstring_dec(s: Seq<char>, i: int) {
    crate::text::lemma_skip_ws_end(s, i);
}

/// The spec-level image of a parsed field declaration.
pub struct ParsedField {
    pub doc: Seq<char>,
    pub name: Seq<char>,
    pub width: u64,
}

/// The spec-level image of a parsed assembly element.
pub enum ParsedElem {
    Expansion { name: Seq<char> },
    StringLiteral { value: Seq<char> },
    OptionalFlag { name: Seq<char>, field: Seq<char> },
    OptionalField { name: Seq<char>, with_dot: bool },
    Dot,
    Comma,
    Space,
    Field { name: Seq<char> },
}

/// The spec-level image of a parsed worked example.
pub struct ParsedExample {
    pub doc: Seq<char>,
    pub example: Seq<char>,
}

/// The spec-level image of a parsed constant value.
pub enum ParsedValue {
    Number(u64),
    Parameter(Seq<char>),
}

/// The spec-level image of a parsed machine-layout element.
pub enum ParsedMach {
    Field { name: Seq<char> },
    FieldSlice { name: Seq<char>, begin: u64, end: u64 },
    FieldNegate { name: Seq<char> },
    PresentTest { name: Seq<char> },
    AbsentTest { name: Seq<char> },
    Constant { name: Seq<char>, width: u64, value: Option<ParsedValue> },
}

/// The spec-level image of a parsed base-reference argument.
pub enum ParsedArg {
    Number(u64),
    Text(Seq<char>),
}

/// The spec-level image of a parsed base reference.
pub struct ParsedBase {
    pub name: Seq<char>,
    pub args: Seq<ParsedArg>,
}

/// The spec-level image of an instruction body's four sections.
pub struct ParsedSections {
    pub timing: Option<ast::Timing>,
    pub fields: Seq<ParsedField>,
    pub syntax: Seq<ParsedElem>,
    pub examples: Seq<ParsedExample>,
    pub layout: Seq<ParsedMach>,
}

/// The spec-level image of a parsed instruction.
pub struct ParsedInstr {
    pub doc: Seq<char>,
    pub name: Seq<char>,
    pub params: Seq<Seq<char>>,
    pub base: Option<ParsedBase>,
    pub timing: Option<ast::Timing>,
    pub fields: Seq<ParsedField>,
    pub syntax: Seq<ParsedElem>,
    pub examples: Seq<ParsedExample>,
    pub layout: Seq<ParsedMach>,
}

/// What one step of the instruction list yields: no further
/// instruction, a hard failure, or one instruction and the position
/// after it.
pub enum InstrStep {
    NoMore,
    Bad,
    One { instr: ParsedInstr, next: int },
}

/// What reading a quoted string literal standing exactly at `i` yields.
pub open spec fn spec_string_literal(s: Seq<char>, i: int) -> Option<(Seq<char>, int)> {
    if 0 <= i < s.len() && s[i] == '\'' {
        let q = quote_end(s, i + 1);
        if q >= s.len() {
            None
        } else {
            Some((s.subrange(i + 1, q), q + 1))
        }
    } else {
        None
    }
}

/// What the characteristics block yields: each `instruction_width =
/// value;` statement in order, stopping before the first thing that is
/// not a characteristic; malformed content after the matched keyword is
/// a hard failure.
pub open spec fn spec_characteristics(s: Seq<char>, i: int) -> Option<
    (Seq<ast::Characteristic>, int),
>
    decreases s.len() - i when 0 <= i <= s.len()
{
    let a = skip_comments_end(s, i);
    if 0 <= a <= s.len() {
        match lit_end(s, a, "instruction_width"@) {
            None => Some((Seq::empty(), i)),
            Some(b) => match lit_end(s, b, "="@) {
                None => None,
                Some(c) => match spec_number(s, c) {
                    None => None,
                    Some((w, d)) => {
                        if w > usize::MAX {
                            None
                        } else {
                            match lit_end(s, d, ";"@) {
                                None => None,
                                Some(e) => {
                                    if e <= i || e > s.len() {
                                        Some(
                                            (
                                                seq![
                                                    ast::Characteristic::InstructionWidth(
                                                        w as usize,
                                                    ),
                                                ],
                                                e,
                                            ),
                                        )
                                    } else {
                                        match spec_characteristics(s, e) {
                                            None => None,
                                            Some((rest, j)) => Some(
                                                (
                                                    seq![
                                                        ast::Characteristic::InstructionWidth(
                                                            w as usize,
                                                        ),
                                                    ] + rest,
                                                    j,
                                                ),
                                            ),
                                        }
                                    }
                                },
                            }
                        }
                    },
                },
            },
        }
    } else {
        None
    }
}

/// What the timing annotation yields: `N cycle`, `async` or `multi`,
/// with surrounding comments consumed.
pub open spec fn spec_timing(s: Seq<char>, i: int) -> Option<(ast::Timing, int)> {
    let a = skip_comments_end(s, i);
    let b = skip_ws_end(s, a);
    match spec_number(s, b) {
        Some((nv, c)) => match lit_end(s, c, "cycle"@) {
            None => None,
            Some(d) => {
                if nv > usize::MAX {
                    None
                } else {
                    Some((ast::Timing::Cycle(nv as usize), skip_comments_end(s, d)))
                }
            },
        },
        None => match lit_end(s, b, "async"@) {
            Some(c) => Some((ast::Timing::Async, skip_comments_end(s, c))),
            None => match lit_end(s, b, "multi"@) {
                Some(c) => Some((ast::Timing::Multi, skip_comments_end(s, c))),
                None => None,
            },
        },
    }
}

/// What the fields section yields: comma-separated declarations, each a
/// doc comment then `name: width`; the section ends where no further
/// doc comment follows.
pub open spec fn spec_fields(s: Seq<char>, i: int) -> Option<(Seq<ParsedField>, int)>
    decreases s.len() - i, 2int when 0 <= i <= s.len()
{
    let a = skip_comments_end(s, i);
    if 0 <= a <= s.len() {
        match spec_docstring(s, a) {
            None => Some((Seq::empty(), i)),
            Some((doc, b)) => spec_fields_rest(s, i, doc, b),
        }
    } else {
        None
    }
}

/// The remainder of one field declaration after its doc comment, and
/// the declarations after it.
pub open spec fn spec_fields_rest(s: Seq<char>, i: int, doc: Seq<char>, b: int) -> Option<
    (Seq<ParsedField>, int),
>
    decreases s.len() - i, 1int when 0 <= i <= s.len()
{
    if b < 0 || b > s.len() {
        None
    } else {
        let c = skip_comments_end(s, b);
        match spec_ident_ws_at(s, c) {
            None => None,
            Some((name, d)) => match lit_end(s, d, ":"@) {
                None => None,
                Some(e) => match spec_number(s, e) {
                    None => None,
                    Some((w, f)) => spec_fields_tail(s, i, (ParsedField { doc: doc, name: name, width: w }), f),
                },
            },
        }
    }
}

/// The separator after one parsed field declaration: a comma continues
/// the section, anything else ends it.
pub open spec fn spec_fields_tail(s: Seq<char>, i: int, fld: ParsedField, f: int) -> Option<
    (Seq<ParsedField>, int),
>
    decreases s.len() - i, 0int when 0 <= i <= s.len()
{
    if f < 0 || f > s.len() || w_too_big(fld) {
        None
    } else {
        let g = skip_comments_end(s, f);
        match lit_end(s, g, ","@) {
            None => Some((seq![fld], g)),
            Some(h) => {
                if h <= i || h > s.len() {
                    Some((seq![fld], h))
                } else {
                    match spec_fields(s, h) {
                        None => None,
                        Some((rest, j)) => Some((seq![fld] + rest, j)),
                    }
                }
            },
        }
    }
}

/// Whether a field's width exceeds the machine's address range.
pub open spec fn w_too_big(fld: ParsedField) -> bool {
    fld.width > usize::MAX
}

/// What one assembly element yields, by the grammar's alternatives in
/// order: a generic expansion, a string literal, an optional flag or
/// optional field in brackets, a bare field reference, a dot, a comma,
/// or a whitespace separator.
pub open spec fn spec_asm_element(s: Seq<char>, i: int) -> Option<(ParsedElem, int)> {
    if i < 0 || i >= s.len() {
        None
    } else if s[i] == '$' {
        match spec_ident_at(s, i + 1) {
            None => None,
            Some((name, j)) => Some((ParsedElem::Expansion { name }, j)),
        }
    } else if s[i] == '\'' {
        match spec_string_literal(s, i) {
            None => None,
            Some((value, j)) => Some((ParsedElem::StringLiteral { value }, j)),
        }
    } else if s[i] == '[' {
        spec_asm_bracket(s, skip_ws_end(s, i + 1))
    } else {
        match spec_ident_at(s, i) {
            Some((name, j)) => Some((ParsedElem::Field { name }, j)),
            None => {
                if s[i] == '.' {
                    Some((ParsedElem::Dot, i + 1))
                } else if s[i] == ',' {
                    Some((ParsedElem::Comma, i + 1))
                } else if is_ws(s[i]) {
                    Some((ParsedElem::Space, skip_ws_end(s, i)))
                } else {
                    None
                }
            },
        }
    }
}

/// A bracketed element: an optional flag when a string literal follows,
/// else an optional field, with or without its leading dot.
pub open spec fn spec_asm_bracket(s: Seq<char>, a: int) -> Option<(ParsedElem, int)> {
    if 0 <= a < s.len() && s[a] == '\'' {
        match spec_string_literal(s, a) {
            None => None,
            Some((name, b)) => spec_asm_flag(s, name, skip_ws_end(s, b)),
        }
    } else if 0 <= a < s.len() && s[a] == '.' {
        spec_asm_optname(s, skip_ws_end(s, a + 1), true)
    } else {
        spec_asm_optname(s, a, false)
    }
}

/// The tail of an optional flag: the equals sign, the flag's field, and
/// the closing bracket.
pub open spec fn spec_asm_flag(s: Seq<char>, name: Seq<char>, b2: int) -> Option<
    (ParsedElem, int),
> {
    match lit_end(s, b2, "="@) {
        None => None,
        Some(d) => match spec_ident_ws_at(s, d) {
            None => None,
            Some((field, e)) => {
                if 0 <= e < s.len() && s[e] == ']' {
                    Some((ParsedElem::OptionalFlag { name, field }, e + 1))
                } else {
                    None
                }
            },
        },
    }
}

/// The tail of an optional field: its name and the closing bracket.
pub open spec fn spec_asm_optname(s: Seq<char>, start: int, with_dot: bool) -> Option<
    (ParsedElem, int),
> {
    match spec_ident_ws_at(s, start) {
        None => None,
        Some((name, b)) => {
            if 0 <= b < s.len() && s[b] == ']' {
                Some((ParsedElem::OptionalField { name, with_dot }, b + 1))
            } else {
                None
            }
        },
    }
}

/// The element sequence: elements read until none matches.
pub open spec fn spec_asm_elements(s: Seq<char>, i: int) -> (Seq<ParsedElem>, int)
    decreases s.len() - i when 0 <= i <= s.len()
{
    match spec_asm_element(s, i) {
        None => (Seq::empty(), i),
        Some((x, j)) => {
            if j <= i || j > s.len() {
                (seq![x], j)
            } else {
                cons_elem(x, spec_asm_elements(s, j))
            }
        },
    }
}

/// Prepend one element to a sequence-and-position pair.
pub open spec fn cons_elem(x: ParsedElem, rest: (Seq<ParsedElem>, int)) -> (Seq<ParsedElem>, int) {
    (seq![x] + rest.0, rest.1)
}

/// The worked examples: doc and literal-text pairs, each text running
/// to its terminating semicolon.
pub open spec fn spec_examples(s: Seq<char>, k: int) -> Option<(Seq<ParsedExample>, int)>
    decreases s.len() - k, 3int when 0 <= k <= s.len()
{
    match spec_docstring(s, skip_comments_end(s, k)) {
        None => Some((Seq::empty(), k)),
        Some((doc, b)) => {
            if b < 0 || b > s.len() {
                None
            } else {
                spec_examples_text(s, k, doc, skip_comments_end(s, b))
            }
        },
    }
}

/// One example's literal text, up to the required semicolon, trimmed.
pub open spec fn spec_examples_text(s: Seq<char>, k: int, doc: Seq<char>, c: int) -> Option<
    (Seq<ParsedExample>, int),
>
    decreases s.len() - k, 2int when 0 <= k <= s.len()
{
    if c < 0 || c > s.len() {
        None
    } else {
        let e = semi_end(s, c);
        if e >= s.len() || e == c {
            None
        } else {
            spec_examples_tail(
                s,
                k,
                (ParsedExample { doc: doc, example: s.subrange(ltrim(s, c, e), rtrim(s, ltrim(s, c, e), e)) }),
                e,
            )
        }
    }
}

/// The examples after one completed pair.
pub open spec fn spec_examples_tail(s: Seq<char>, k: int, ex: ParsedExample, e: int) -> Option<
    (Seq<ParsedExample>, int),
>
    decreases s.len() - k, 1int when 0 <= k <= s.len()
{
    if e < 0 || e + 1 > s.len() {
        None
    } else {
        let k2 = skip_comments_end(s, e + 1);
        if k2 <= k || k2 > s.len() {
            Some((seq![ex], k2))
        } else {
            match spec_examples(s, k2) {
                None => None,
                Some((rest, j)) => Some((seq![ex] + rest, j)),
            }
        }
    }
}

/// What the assembly section yields: the element sequence, its
/// terminating semicolon when non-empty, and the optional examples
/// block.
pub open spec fn spec_assembly(s: Seq<char>, i: int) -> Option<
    (Seq<ParsedElem>, Seq<ParsedExample>, int),
> {
    let j1 = skip_ws_end(s, skip_comments_end(s, i));
    if has_lit(s, j1, "examples:"@) {
        spec_assembly_examples(s, Seq::empty(), skip_comments_end(s, j1))
    } else {
        spec_assembly_semi(s, spec_asm_elements(s, j1))
    }
}

/// The semicolon after a non-empty element sequence.
pub open spec fn spec_assembly_semi(s: Seq<char>, syn: (Seq<ParsedElem>, int)) -> Option<
    (Seq<ParsedElem>, Seq<ParsedExample>, int),
> {
    if syn.0.len() > 0 {
        match lit_end(s, syn.1, ";"@) {
            None => None,
            Some(j3) => spec_assembly_examples(s, syn.0, skip_comments_end(s, j3)),
        }
    } else {
        spec_assembly_examples(s, syn.0, skip_comments_end(s, syn.1))
    }
}

/// The optional examples block after the element sequence.
pub open spec fn spec_assembly_examples(s: Seq<char>, syn: Seq<ParsedElem>, j4: int) -> Option<
    (Seq<ParsedElem>, Seq<ParsedExample>, int),
> {
    match lit_end(s, j4, "examples:"@) {
        None => Some((syn, Seq::empty(), j4)),
        Some(k) => {
            if k < 0 || k > s.len() {
                None
            } else {
                match spec_examples(s, k) {
                    None => None,
                    Some((exs, j5)) => Some((syn, exs, j5)),
                }
            }
        },
    }
}

/// What one machine-layout element yields: a constant `name: width
/// [= value]`, or a field placement with its suffix form mapped to its
/// element kind.
pub open spec fn spec_machine_element(s: Seq<char>, i: int) -> Option<(ParsedMach, int)> {
    match spec_ident_ws_at(s, i) {
        None => None,
        Some((name, a)) => match lit_end(s, a, ":"@) {
            Some(b) => spec_mach_const(s, name, b),
            None => spec_mach_suffix(s, name, a),
        },
    }
}

/// A constant's width and optional value.
pub open spec fn spec_mach_const(s: Seq<char>, name: Seq<char>, b: int) -> Option<
    (ParsedMach, int),
> {
    match spec_number(s, b) {
        None => None,
        Some((w, c)) => {
            if w > usize::MAX {
                None
            } else {
                match lit_end(s, c, "="@) {
                    None => Some((ParsedMach::Constant { name, width: w, value: None }, c)),
                    Some(c2) => spec_mach_const_value(s, name, w, c2),
                }
            }
        },
    }
}

/// A constant's declared value: a numeral, or a `$parameter` reference.
pub open spec fn spec_mach_const_value(s: Seq<char>, name: Seq<char>, w: u64, c2: int) -> Option<
    (ParsedMach, int),
> {
    match spec_number(s, c2) {
        Some((v, d)) => {
            if d < 0 || d > s.len() {
                None
            } else {
                Some(
                    (
                        ParsedMach::Constant {
                            name,
                            width: w,
                            value: Some(ParsedValue::Number(v)),
                        },
                        skip_ws_end(s, d),
                    ),
                )
            }
        },
        None => match lit_end(s, c2, "$"@) {
            None => None,
            Some(c3) => match spec_ident_ws_at(s, c3) {
                None => None,
                Some((p, d)) => Some(
                    (
                        ParsedMach::Constant {
                            name,
                            width: w,
                            value: Some(ParsedValue::Parameter(p)),
                        },
                        d,
                    ),
                ),
            },
        },
    }
}

/// A field placement's suffix: `[b:e]` slices, `!` negates, `?` and
/// `?!` mark present and absent tests, and a bare name places the
/// field.
pub open spec fn spec_mach_suffix(s: Seq<char>, name: Seq<char>, a: int) -> Option<
    (ParsedMach, int),
> {
    if 0 <= a < s.len() && s[a] == '[' {
        spec_mach_slice(s, name, a + 1)
    } else if 0 <= a < s.len() && s[a] == '!' {
        Some((ParsedMach::FieldNegate { name }, a + 1))
    } else if 0 <= a < s.len() && s[a] == '?' {
        if a + 1 < s.len() && s[a + 1] == '!' {
            Some((ParsedMach::AbsentTest { name }, a + 2))
        } else {
            Some((ParsedMach::PresentTest { name }, a + 1))
        }
    } else {
        Some((ParsedMach::Field { name }, a))
    }
}

/// A slice's bit range `b:e` and closing bracket.
pub open spec fn spec_mach_slice(s: Seq<char>, name: Seq<char>, p: int) -> Option<
    (ParsedMach, int),
> {
    match spec_number(s, p) {
        None => None,
        Some((b, c)) => {
            if !has_lit(s, c, ":"@) {
                None
            } else {
                spec_mach_slice_end(s, name, b, c + 1)
            }
        },
    }
}

/// A slice's end bound and closing bracket.
pub open spec fn spec_mach_slice_end(s: Seq<char>, name: Seq<char>, b: u64, c2: int) -> Option<
    (ParsedMach, int),
> {
    match spec_number(s, c2) {
        None => None,
        Some((e2, d)) => {
            if d >= s.len() || d < 0 || s[d] != ']' {
                None
            } else if b > usize::MAX || e2 > usize::MAX {
                None
            } else {
                Some((ParsedMach::FieldSlice { name, begin: b, end: e2 }, d + 1))
            }
        },
    }
}

/// What the machine section yields: comma-separated layout elements,
/// with an optional trailing comma before the closing brace.
pub open spec fn spec_machine(s: Seq<char>, i: int) -> Option<(Seq<ParsedMach>, int)>
    decreases s.len() - i, 2int when 0 <= i <= s.len()
{
    match spec_machine_element(s, skip_comments_end(s, i)) {
        None => None,
        Some((x, b)) => {
            if b < 0 || b > s.len() {
                None
            } else {
                spec_machine_sep(s, i, x, skip_comments_end(s, b))
            }
        },
    }
}

/// The separator after one layout element.
pub open spec fn spec_machine_sep(s: Seq<char>, i: int, x: ParsedMach, c: int) -> Option<
    (Seq<ParsedMach>, int),
>
    decreases s.len() - i, 1int when 0 <= i <= s.len()
{
    if c < 0 || c > s.len() {
        None
    } else {
        match lit_end(s, c, ","@) {
            None => Some((seq![x], c)),
            Some(d) => {
                if d < 0 || d > s.len() {
                    None
                } else {
                    spec_machine_next(s, i, x, skip_comments_end(s, d))
                }
            },
        }
    }
}

/// After a comma: the closing brace or the end of the text ends the
/// section, anything else must be a further element.
pub open spec fn spec_machine_next(s: Seq<char>, i: int, x: ParsedMach, d2: int) -> Option<
    (Seq<ParsedMach>, int),
>
    decreases s.len() - i, 0int when 0 <= i <= s.len()
{
    if lit_end(s, d2, "}"@) is Some || d2 >= s.len() || d2 <= i || d2 < 0 {
        Some((seq![x], d2))
    } else {
        match spec_machine(s, d2) {
            None => None,
            Some((rest, j)) => Some((seq![x] + rest, j)),
        }
    }
}

/// The generic parameter list after its opening angle bracket.
pub open spec fn spec_params(s: Seq<char>, i: int) -> Option<(Seq<Seq<char>>, int)>
    decreases s.len() - i, 1int when 0 <= i <= s.len()
{
    match spec_ident_ws_at(s, i) {
        None => None,
        Some((p, b)) => spec_params_sep(s, i, p, b),
    }
}

/// The separator after one parameter: a comma continues, the closing
/// angle bracket ends.
pub open spec fn spec_params_sep(s: Seq<char>, i: int, p: Seq<char>, b: int) -> Option<
    (Seq<Seq<char>>, int),
>
    decreases s.len() - i, 0int when 0 <= i <= s.len()
{
    match lit_end(s, b, ","@) {
        Some(c) => {
            if c <= i || c > s.len() {
                None
            } else {
                match spec_params(s, c) {
                    None => None,
                    Some((rest, j)) => Some((seq![p] + rest, j)),
                }
            }
        },
        None => match lit_end(s, b, ">"@) {
            None => None,
            Some(c) => Some((seq![p], c)),
        },
    }
}

/// The base reference's argument list after its opening angle bracket:
/// each argument a numeral or a quoted text.
pub open spec fn spec_base_args(s: Seq<char>, i: int) -> Option<(Seq<ParsedArg>, int)>
    decreases s.len() - i, 1int when 0 <= i <= s.len()
{
    match spec_number(s, i) {
        Some((v, d)) => {
            if d < 0 || d > s.len() {
                None
            } else {
                spec_base_args_sep(s, i, ParsedArg::Number(v), skip_ws_end(s, d))
            }
        },
        None => match spec_string_literal(s, skip_ws_end(s, i)) {
            None => None,
            Some((t, d)) => {
                if d < 0 || d > s.len() {
                    None
                } else {
                    spec_base_args_sep(s, i, ParsedArg::Text(t), skip_ws_end(s, d))
                }
            },
        },
    }
}

/// The separator after one argument.
pub open spec fn spec_base_args_sep(s: Seq<char>, i: int, arg: ParsedArg, d: int) -> Option<
    (Seq<ParsedArg>, int),
>
    decreases s.len() - i, 0int when 0 <= i <= s.len()
{
    match lit_end(s, d, ","@) {
        Some(e) => {
            if e <= i || e > s.len() {
                None
            } else {
                match spec_base_args(s, e) {
                    None => None,
                    Some((rest, j)) => Some((seq![arg] + rest, j)),
                }
            }
        },
        None => match lit_end(s, d, ">"@) {
            None => None,
            Some(e) => Some((seq![arg], e)),
        },
    }
}

/// The four optional labeled sections of an instruction body, in fixed
/// order, and the closing brace.
pub open spec fn spec_sections(s: Seq<char>, k: int) -> Option<(ParsedSections, int)> {
    match lit_end(s, skip_comments_end(s, k), "timing:"@) {
        Some(a) => match spec_timing(s, a) {
            None => None,
            Some((t, k1)) => spec_sections_fields(s, Some(t), k1),
        },
        None => spec_sections_fields(s, None, skip_comments_end(s, k)),
    }
}

/// The fields section onward.
pub open spec fn spec_sections_fields(s: Seq<char>, t: Option<ast::Timing>, k: int) -> Option<
    (ParsedSections, int),
> {
    match lit_end(s, skip_comments_end(s, k), "fields:"@) {
        Some(a) => {
            if a < 0 || a > s.len() {
                None
            } else {
                match spec_fields(s, a) {
                    None => None,
                    Some((fs, k1)) => spec_sections_assembly(s, t, fs, k1),
                }
            }
        },
        None => spec_sections_assembly(s, t, Seq::empty(), skip_comments_end(s, k)),
    }
}

/// The assembly section onward.
pub open spec fn spec_sections_assembly(
    s: Seq<char>,
    t: Option<ast::Timing>,
    fs: Seq<ParsedField>,
    k: int,
) -> Option<(ParsedSections, int)> {
    match lit_end(s, skip_comments_end(s, k), "assembly:"@) {
        Some(a) => match spec_assembly(s, a) {
            None => None,
            Some((syn, exs, k1)) => spec_sections_machine(s, t, fs, syn, exs, k1),
        },
        None => spec_sections_machine(
            s,
            t,
            fs,
            Seq::empty(),
            Seq::empty(),
            skip_comments_end(s, k),
        ),
    }
}

/// The machine section and the closing brace.
pub open spec fn spec_sections_machine(
    s: Seq<char>,
    t: Option<ast::Timing>,
    fs: Seq<ParsedField>,
    syn: Seq<ParsedElem>,
    exs: Seq<ParsedExample>,
    k: int,
) -> Option<(ParsedSections, int)> {
    match lit_end(s, skip_comments_end(s, k), "machine:"@) {
        Some(a) => {
            if a < 0 || a > s.len() {
                None
            } else {
                match spec_machine(s, a) {
                    None => None,
                    Some((lay, k1)) => spec_sections_end(s, t, fs, syn, exs, lay, k1),
                }
            }
        },
        None => spec_sections_end(s, t, fs, syn, exs, Seq::empty(), skip_comments_end(s, k)),
    }
}

/// The closing brace.
pub open spec fn spec_sections_end(
    s: Seq<char>,
    t: Option<ast::Timing>,
    fs: Seq<ParsedField>,
    syn: Seq<ParsedElem>,
    exs: Seq<ParsedExample>,
    lay: Seq<ParsedMach>,
    k: int,
) -> Option<(ParsedSections, int)> {
    match lit_end(s, skip_comments_end(s, k), "}"@) {
        None => None,
        Some(e) => Some(
            (
                ParsedSections { timing: t, fields: fs, syntax: syn, examples: exs, layout: lay },
                e,
            ),
        ),
    }
}

/// What an instruction body yields: the name, the optional generic
/// parameters and base reference, and the brace-delimited sections.
pub open spec fn spec_instruction_body(s: Seq<char>, i: int) -> Option<(ParsedInstr, int)> {
    match spec_ident_ws_at(s, i) {
        None => None,
        Some((name, j0)) => spec_body_params(s, name, j0),
    }
}

/// The optional generic parameter list.
pub open spec fn spec_body_params(s: Seq<char>, name: Seq<char>, j0: int) -> Option<
    (ParsedInstr, int),
> {
    match lit_end(s, j0, "<"@) {
        Some(a) => {
            if a < 0 || a > s.len() {
                None
            } else {
                match spec_params(s, a) {
                    None => None,
                    Some((ps, j1)) => spec_body_base(s, name, ps, j1),
                }
            }
        },
        None => spec_body_base(s, name, Seq::empty(), j0),
    }
}

/// The optional base reference.
pub open spec fn spec_body_base(s: Seq<char>, name: Seq<char>, ps: Seq<Seq<char>>, j: int) -> Option<
    (ParsedInstr, int),
> {
    match lit_end(s, j, ":"@) {
        Some(a) => match spec_ident_ws_at(s, a) {
            None => None,
            Some((bn, b)) => match lit_end(s, b, "<"@) {
                None => None,
                Some(c) => {
                    if c < 0 || c > s.len() {
                        None
                    } else {
                        match spec_base_args(s, c) {
                            None => None,
                            Some((args, j1)) => spec_body_brace(
                                s,
                                name,
                                ps,
                                Some((ParsedBase { name: bn, args: args })),
                                j1,
                            ),
                        }
                    }
                },
            },
        },
        None => spec_body_brace(s, name, ps, None, j),
    }
}

/// The brace-delimited sections.
pub open spec fn spec_body_brace(
    s: Seq<char>,
    name: Seq<char>,
    ps: Seq<Seq<char>>,
    base: Option<ParsedBase>,
    j: int,
) -> Option<(ParsedInstr, int)> {
    match lit_end(s, j, "{"@) {
        None => None,
        Some(k) => match spec_sections(s, k) {
            None => None,
            Some((sec, e)) => Some(
                (
                    ParsedInstr {
                        doc: Seq::empty(),
                        name: name,
                        params: ps,
                        base: base,
                        timing: sec.timing,
                        fields: sec.fields,
                        syntax: sec.syntax,
                        examples: sec.examples,
                        layout: sec.layout,
                    },
                    e,
                ),
            ),
        },
    }
}

/// The instruction with its doc comment attached.
pub open spec fn with_doc(g: ParsedInstr, doc: Seq<char>) -> ParsedInstr {
    ParsedInstr {
        doc: doc,
        name: g.name,
        params: g.params,
        base: g.base,
        timing: g.timing,
        fields: g.fields,
        syntax: g.syntax,
        examples: g.examples,
        layout: g.layout,
    }
}

/// What one instruction step yields: no doc comment or no `instruction`
/// keyword means no further instruction; once the keyword has matched, a
/// malformed body is a hard failure.
pub open spec fn spec_instruction(s: Seq<char>, i: int) -> InstrStep {
    match spec_docstring(s, skip_comments_end(s, i)) {
        None => InstrStep::NoMore,
        Some((doc, b)) => {
            if b < 0 || b > s.len() {
                InstrStep::Bad
            } else {
                spec_instruction_kw(s, i, doc, skip_comments_end(s, b))
            }
        },
    }
}

/// The `instruction` keyword and the body.
pub open spec fn spec_instruction_kw(s: Seq<char>, i: int, doc: Seq<char>, c: int) -> InstrStep {
    match lit_end(s, c, "instruction"@) {
        None => InstrStep::NoMore,
        Some(d) => match spec_instruction_body(s, d) {
            None => InstrStep::Bad,
            Some((g, e)) => {
                if e <= i || e > s.len() {
                    InstrStep::NoMore
                } else {
                    InstrStep::One { instr: with_doc(g, doc), next: e }
                }
            },
        },
    }
}

/// The instruction list: instructions read until none follows.
pub open spec fn spec_instructions(s: Seq<char>, i: int) -> Option<(Seq<ParsedInstr>, int)>
    decreases s.len() - i when 0 <= i <= s.len()
{
    match spec_instruction(s, i) {
        InstrStep::NoMore => Some((Seq::empty(), i)),
        InstrStep::Bad => None,
        InstrStep::One { instr, next } => {
            if next <= i || next > s.len() {
                Some((seq![instr], next))
            } else {
                match spec_instructions(s, next) {
                    None => None,
                    Some((rest, k)) => Some((seq![instr] + rest, k)),
                }
            }
        },
    }
}

/// What parsing the whole text yields: the characteristics block, then
/// every instruction, with nothing but comments and whitespace left
/// over; anything else fails, so a success is never partial.
pub open spec fn spec_parse(s: Seq<char>) -> Option<
    (Seq<ast::Characteristic>, Seq<ParsedInstr>),
> {
    match spec_characteristics(s, 0) {
        None => None,
        Some((cs, j)) => {
            if j < 0 || j > s.len() {
                None
            } else {
                match spec_instructions(s, j) {
                    None => None,
                    Some((gs, k)) => {
                        if 0 <= k <= s.len() && skip_ws_end(s, skip_comments_end(s, k)) == s.len() {
                            Some((cs, gs))
                        } else {
                            None
                        }
                    },
                }
            }
        },
    }
}

/// Whether an AST field is the image of a parsed field.
pub open spec fn field_matches_text(g: ParsedField, f: ast::Field) -> bool {
    &&& f.doc@ == g.doc
    &&& f.name@ == g.name
    &&& f.width as u64 == g.width
    &&& f.value is None
}

/// Whether an AST field list is the image of a parsed field list.
pub open spec fn fields_match_text(gs: Seq<ParsedField>, fs: Seq<ast::Field>) -> bool {
    fs.len() == gs.len() && forall|k: int|
        0 <= k < gs.len() ==> field_matches_text(gs[k], #[trigger] fs[k])
}

/// Whether an AST assembly element is the image of a parsed element.
pub open spec fn elem_matches_text(g: ParsedElem, x: ast::AssemblyElement) -> bool {
    match g {
        ParsedElem::Expansion { name } => x matches ast::AssemblyElement::Expansion { name: xn }
            && xn@ == name,
        ParsedElem::StringLiteral { value } => x matches ast::AssemblyElement::StringLiteral {
            value: xv,
        } && xv@ == value,
        ParsedElem::OptionalFlag { name, field } => x matches ast::AssemblyElement::OptionalFlag {
            name: xn,
            field: xf,
        } && xn@ == name && xf@ == field,
        ParsedElem::OptionalField { name, with_dot } => x
            matches ast::AssemblyElement::OptionalField { name: xn, with_dot: xd } && xn@ == name
            && xd == with_dot,
        ParsedElem::Dot => x is Dot,
        ParsedElem::Comma => x is Comma,
        ParsedElem::Space => x is Space,
        ParsedElem::Field { name } => x matches ast::AssemblyElement::Field { name: xn } && xn@
            == name,
    }
}

/// Whether an AST element list is the image of a parsed element list.
pub open spec fn elems_match_text(gs: Seq<ParsedElem>, xs: Seq<ast::AssemblyElement>) -> bool {
    xs.len() == gs.len() && forall|k: int|
        0 <= k < gs.len() ==> elem_matches_text(gs[k], #[trigger] xs[k])
}

/// Whether an AST example is the image of a parsed example.
pub open spec fn example_matches_text(g: ParsedExample, x: ast::AssemblyExample) -> bool {
    x.doc@ == g.doc && x.example@ == g.example
}

/// Whether an AST example list is the image of a parsed example list.
pub open spec fn examples_match_text(gs: Seq<ParsedExample>, xs: Seq<ast::AssemblyExample>) -> bool {
    xs.len() == gs.len() && forall|k: int|
        0 <= k < gs.len() ==> example_matches_text(gs[k], #[trigger] xs[k])
}

/// Whether an AST layout element is the image of a parsed one.
pub open spec fn mach_matches_text(g: ParsedMach, m: ast::MachineElement) -> bool {
    match g {
        ParsedMach::Field { name } => m matches ast::MachineElement::Field { name: xn } && xn@
            == name,
        ParsedMach::FieldSlice { name, begin, end } => m
            matches ast::MachineElement::FieldSlice { name: xn, begin: xb, end: xe } && xn@ == name
            && xb as u64 == begin && xe as u64 == end,
        ParsedMach::FieldNegate { name } => m matches ast::MachineElement::FieldNegate {
            name: xn,
        } && xn@ == name,
        ParsedMach::PresentTest { name } => m
            matches ast::MachineElement::OptionalFieldPresentTest { name: xn } && xn@ == name,
        ParsedMach::AbsentTest { name } => m
            matches ast::MachineElement::OptionalFieldAbsentTest { name: xn } && xn@ == name,
        ParsedMach::Constant { name, width, value } => m matches ast::MachineElement::Constant {
            name: xn,
            width: xw,
            value: xv,
        } && xn@ == name && xw as u64 == width && value_matches_text(value, xv),
    }
}

/// Whether an AST constant value is the image of a parsed one.
pub open spec fn value_matches_text(
    g: Option<ParsedValue>,
    v: Option<ast::MachineElementValue>,
) -> bool {
    match g {
        None => v is None,
        Some(ParsedValue::Number(n)) => v matches Some(
            ast::MachineElementValue::NumericConstant(xn),
        ) && xn == n,
        Some(ParsedValue::Parameter(p)) => v matches Some(
            ast::MachineElementValue::GenericParameter(xp),
        ) && xp@ == p,
    }
}

/// Whether an AST layout is the image of a parsed one.
pub open spec fn machs_match_text(gs: Seq<ParsedMach>, ms: Seq<ast::MachineElement>) -> bool {
    ms.len() == gs.len() && forall|k: int|
        0 <= k < gs.len() ==> mach_matches_text(gs[k], #[trigger] ms[k])
}

/// Whether an AST base argument is the image of a parsed one.
pub open spec fn arg_matches_text(g: ParsedArg, a: ast::BaseParameter) -> bool {
    match g {
        ParsedArg::Number(n) => a matches ast::BaseParameter::Number(xn) && xn == n,
        ParsedArg::Text(t) => a matches ast::BaseParameter::Text(xt) && xt@ == t,
    }
}

/// Whether an AST base reference is the image of a parsed one.
pub open spec fn base_matches_text(g: Option<ParsedBase>, b: Option<ast::Base>) -> bool {
    match g {
        None => b is None,
        Some(gb) => b matches Some(xb) && xb.name@ == gb.name && xb.parameters@.len()
            == gb.args.len() && forall|k: int|
            0 <= k < gb.args.len() ==> arg_matches_text(gb.args[k], #[trigger] xb.parameters@[k]),
    }
}

/// Whether an AST instruction is the image of a parsed one.
pub open spec fn instr_matches_text(g: ParsedInstr, x: ast::Instruction) -> bool {
    &&& x.doc@ == g.doc
    &&& x.name@ == g.name
    &&& x.timing == g.timing
    &&& x.parameters@.len() == g.params.len()
    &&& forall|k: int| 0 <= k < g.params.len() ==> (#[trigger] x.parameters@[k])@ == g.params[k]
    &&& base_matches_text(g.base, x.base)
    &&& fields_match_text(g.fields, x.fields@)
    &&& elems_match_text(g.syntax, x.assembly.syntax@)
    &&& examples_match_text(g.examples, x.assembly.example@)
    &&& machs_match_text(g.layout, x.machine.layout@)
}

/// Whether an AST instruction list is the image of a parsed one.
pub open spec fn instrs_match_text(gs: Seq<ParsedInstr>, xs: Seq<ast::Instruction>) -> bool {
    xs.len() == gs.len() && forall|k: int|
        0 <= k < gs.len() ==> instr_matches_text(gs[k], #[trigger] xs[k])
}

/// Whether `c` may start an identifier.
fn char_is_ident_start(c: char) -> (r: bool)
    ensures
        r == is_ident_start(c),
{
    let u = c as u32;
    c == '_' || (97 <= u && u <= 122) || (65 <= u && u <= 90)
}

/// Whether `c` may continue an identifier.
fn char_is_ident_char(c: char) -> (r: bool)
    ensures
        r == is_ident_char(c),
{
    let u = c as u32;
    char_is_ident_start(c) || (48 <= u && u <= 57)
}

/// Read an identifier standing exactly at `i`: an underscore or letter
/// followed by letters, digits and underscores.
fn scan_ident(s: &str, i: usize) -> (r: Option<(String, usize)>)
    requires
        i <= s@.len(),
    ensures
        match r {
            Some(v) => {
                &&& i < v.1 <= s@.len()
                &&& v.1 == ident_end(s@, i as int)
                &&& v.0@ == s@.subrange(i as int, v.1 as int)
                &&& is_ident_start(s@[i as int])
            },
            None => i == s@.len() || !is_ident_start(s@[i as int]),
        },
{
    let n = s.unicode_len();
    if i == n || !char_is_ident_start(s.get_char(i)) {
        return None;
    }
    proof {
        lemma_ident_end(s@, i as int);
    }
    let ghost e = ident_end(s@, i as int);
    let mut j = i;
    while j < n && char_is_ident_char(s.get_char(j))
        invariant
            i <= j <= e <= n,
            n == s@.len(),
            e == ident_end(s@, i as int),
            forall|k: int| i <= k < e ==> is_ident_char(s@[k]),
            e < n ==> !is_ident_char(s@[e as int]),
        decreases n - j,
    {
        proof {
            if j == e {
                assert(!is_ident_char(s@[j as int]));
                assert(false);
            }
        }
        j += 1;
    }
    proof {
        if j < e {
            assert(is_ident_char(s@[j as int]));
            assert(false);
        }
    }
    let piece = s.substring_char(i, j);
    Some((piece.to_owned(), j))
}

/// Skip whitespace, then read an identifier, then skip whitespace: the
/// spacing every free-standing identifier token allows.
fn scan_ident_ws(s: &str, i: usize) -> (r: Option<(String, usize)>)
    requires
        i <= s@.len(),
    ensures
        match r {
            Some(v) => {
                &&& i <= v.1 <= s@.len()
                &&& {
                    let a = skip_ws_end(s@, i as int);
                    let e = ident_end(s@, a);
                    &&& a < s@.len() && is_ident_start(s@[a])
                    &&& v.0@ == s@.subrange(a, e)
                    &&& v.1 == skip_ws_end(s@, e)
                }
            },
            None => {
                let a = skip_ws_end(s@, i as int);
                a == s@.len() || !is_ident_start(s@[a])
            },
        },
{
    let a = skip_ws(s, i);
    match scan_ident(s, a) {
        Some((name, j)) => {
            let b = skip_ws(s, j);
            Some((name, b))
        },
        None => None,
    }
}

/// Skip whitespace, then match the literal token, then skip whitespace.
fn lit_ws(s: &str, i: usize, tok: &str) -> (r: Option<usize>)
    requires
        i <= s@.len(),
    ensures
        match r {
            Some(j) => {
                &&& i <= j <= s@.len()
                &&& has_lit(s@, skip_ws_end(s@, i as int), tok@)
                &&& j == skip_ws_end(s@, skip_ws_end(s@, i as int) + tok@.len())
            },
            None => !has_lit(s@, skip_ws_end(s@, i as int), tok@),
        },
{
    let a = skip_ws(s, i);
    match match_lit(s, a, tok) {
        Some(j) => {
            let b = skip_ws(s, j);
            Some(b)
        },
        None => None,
    }
}

/// A line-break character.
pub open spec fn is_line_break(c: char) -> bool {
    c == '\n' || c == '\r'
}

/// The end of the current line's text: the first line-break character at
/// or after `i`, or the end of the text.
pub open spec fn line_text_end(s: Seq<char>, i: int) -> int
    decreases s.len() - i when 0 <= i <= s.len()
{
    if i < 0 || i >= s.len() {
        i
    } else if is_line_break(s[i]) {
        i
    } else {
        line_text_end(s, i + 1)
    }
}

/// Characters skipped over by `line_text_end` are not line breaks; the
/// position reached holds one or ends the text.
pub proof fn lemma_line_text_end(s: Seq<char>, i: int)
    requires
        0 <= i <= s.len(),
    ensures
        i <= line_text_end(s, i) <= s.len(),
        line_text_end(s, i) < s.len() ==> is_line_break(s[line_text_end(s, i)]),
        forall|k: int| i <= k < line_text_end(s, i) ==> !is_line_break(s[k]),
    decreases s.len() - i,
{
    if i < s.len() && !is_line_break(s[i]) {
        lemma_line_text_end(s, i + 1);
    }
}

/// Where comment skipping ends: past any run of `//` lines that are not
/// doc comments, each with leading whitespace and a complete line
/// ending; a run that cannot complete consumes nothing.
pub open spec fn skip_comments_end(s: Seq<char>, i: int) -> int
    decreases s.len() - i when 0 <= i <= s.len() via skip_comments_end_dec
{
    let a = skip_ws_end(s, i);
    if a + 2 < s.len() && s[a] == '/' && s[a + 1] == '/' && s[a + 2] != '/' {
        let j = line_text_end(s, a + 2);
        if j == s.len() {
            i
        } else if s[j] == '\r' && j + 1 < s.len() && s[j + 1] == '\n' {
            skip_comments_end(s, j + 2)
        } else if s[j] == '\n' {
            skip_comments_end(s, j + 1)
        } else {
            i
        }
    } else {
        i
    }
}

#[via_fn]
proof fn skip_comments_end_dec(s: Seq<char>, i: int) {
    crate::text::lemma_skip_ws_end(s, i);
    let a = skip_ws_end(s, i);
    if 0 <= a + 2 <= s.len() {
        lemma_line_text_end(s, a + 2);
    }
}

/// The skipped run never moves backward or past the end.
pub proof fn lemma_skip_comments_end(s: Seq<char>, i: int)
    requires
        0 <= i <= s.len(),
    ensures
        i <= skip_comments_end(s, i) <= s.len(),
    decreases s.len() - i,
{
    crate::text::lemma_skip_ws_end(s, i);
    let a = skip_ws_end(s, i);
    if a + 2 < s.len() && s[a] == '/' && s[a + 1] == '/' && s[a + 2] != '/' {
        lemma_line_text_end(s, a + 2);
        let j = line_text_end(s, a + 2);
        if j < s.len() {
            if s[j] == '\r' && j + 1 < s.len() && s[j + 1] == '\n' {
                lemma_skip_comments_end(s, j + 2);
            } else if s[j] == '\n' {
                lemma_skip_comments_end(s, j + 1);
            }
        }
    }
}

/// Skip line comments: any run of `//` lines that are not doc comments,
/// each ending in a line break, with leading whitespace.
fn skip_comments(s: &str, i: usize) -> (r: usize)
    requires
        i <= s@.len(),
    ensures
        i <= r <= s@.len(),
        r == skip_comments_end(s@, i as int),
    decreases s@.len() - i,
{
    let n = s.unicode_len();
    let a = skip_ws(s, i);
    // A comment line: `//` not followed by a third slash.
    if a < n && s.get_char(a) == '/' && a + 1 < n && s.get_char(a + 1) == '/' && a + 2 < n
        && s.get_char(a + 2) != '/' {
        proof {
            lemma_line_text_end(s@, a + 2);
        }
        let ghost le = line_text_end(s@, a + 2);
        // Consume to the end of the line; the line break is required.
        let mut j = a + 2;
        while j < n && s.get_char(j) != '\n' && s.get_char(j) != '\r'
            invariant
                a + 2 <= j <= le <= n,
                n == s@.len(),
                le == line_text_end(s@, a + 2),
                forall|k: int| a + 2 <= k < le ==> !is_line_break(s@[k]),
                le < n ==> is_line_break(s@[le as int]),
            decreases n - j,
        {
            proof {
                if j == le {
                    assert(is_line_break(s@[j as int]));
                    assert(false);
                }
            }
            j += 1;
        }
        proof {
            if j < le {
                assert(!is_line_break(s@[j as int]));
                assert(false);
            }
        }
        if j == n {
            // No line ending: the comment line does not match, and
            // nothing is consumed.
            return i;
        }
        let j2 = if s.get_char(j) == '\r' && j + 1 < n && s.get_char(j + 1) == '\n' {
            j + 2
        } else if s.get_char(j) == '\n' {
            j + 1
        } else {
            // A bare carriage return is not a line ending.
            return i;
        };
        skip_comments(s, j2)
    } else {
        i
    }
}

/// Advance to the first line-break character at or after `i`.
fn scan_line_text(s: &str, i: usize) -> (r: usize)
    requires
        i <= s@.len(),
    ensures
        r == line_text_end(s@, i as int),
        i <= r <= s@.len(),
{
    let n = s.unicode_len();
    let mut j = i;
    loop
        invariant
            i <= j <= n,
            n == s@.len(),
            line_text_end(s@, i as int) == line_text_end(s@, j as int),
        decreases n - j,
    {
        if j < n && s.get_char(j) != '\n' && s.get_char(j) != '\r' {
            j += 1;
        } else {
            return j;
        }
    }
}

/// Advance to the first quote character at or after `i`.
fn scan_quote(s: &str, i: usize) -> (r: usize)
    requires
        i <= s@.len(),
    ensures
        r == quote_end(s@, i as int),
        i <= r <= s@.len(),
{
    let n = s.unicode_len();
    let mut j = i;
    loop
        invariant
            i <= j <= n,
            n == s@.len(),
            quote_end(s@, i as int) == quote_end(s@, j as int),
        decreases n - j,
    {
        if j < n && s.get_char(j) != '\'' {
            j += 1;
        } else {
            return j;
        }
    }
}

/// The first non-whitespace position in `[lo, hi)`.
fn scan_ltrim(s: &str, lo: usize, hi: usize) -> (r: usize)
    requires
        lo <= hi <= s@.len(),
    ensures
        r == ltrim(s@, lo as int, hi as int),
        lo <= r <= hi,
{
    let mut ls = lo;
    while ls < hi && char_is_ws_at(s, ls)
        invariant
            lo <= ls <= hi <= s@.len(),
            ltrim(s@, lo as int, hi as int) == ltrim(s@, ls as int, hi as int),
        decreases hi - ls,
    {
        ls += 1;
    }
    ls
}

/// The position after the last non-whitespace character in `[lo, hi)`.
fn scan_rtrim(s: &str, lo: usize, hi: usize) -> (r: usize)
    requires
        lo <= hi <= s@.len(),
    ensures
        r == rtrim(s@, lo as int, hi as int),
        lo <= r <= hi,
{
    let mut le = hi;
    while le > lo && char_is_ws_at(s, le - 1)
        invariant
            lo <= le <= hi <= s@.len(),
            rtrim(s@, lo as int, hi as int) == rtrim(s@, lo as int, le as int),
        decreases le,
    {
        le -= 1;
    }
    le
}

/// Read one doc-comment line: `///` after optional whitespace, the text
/// to the end of the line, trimmed.
fn docstring_line(s: &str, i: usize) -> (r: Option<(String, usize)>)
    requires
        i <= s@.len(),
    ensures
        match r {
            Some(v) => {
                &&& i < v.1 <= s@.len()
                &&& spec_docstring_line(s@, i as int) matches Some(p) && p.0 == v.0@ && p.1 == v.1
            },
            None => spec_docstring_line(s@, i as int) is None,
        },
{
    proof {
        reveal_strlit("///");
    }
    let n = s.unicode_len();
    let a = skip_ws(s, i);
    let b = match match_lit(s, a, "///") {
        Some(b) => b,
        None => {
            return None;
        },
    };
    let j = scan_line_text(s, b);
    if j == n {
        return None;
    }
    let j2 = if s.get_char(j) == '\r' && j + 1 < n && s.get_char(j + 1) == '\n' {
        j + 2
    } else if s.get_char(j) == '\n' {
        j + 1
    } else {
        return None;
    };
    // Trim the line's own whitespace.
    let ls = scan_ltrim(s, b, j);
    let le = scan_rtrim(s, ls, j);
    let piece = s.substring_char(ls, le);
    Some((piece.to_owned(), j2))
}

/// Whether the character at `k` is whitespace.
fn char_is_ws_at(s: &str, k: usize) -> (r: bool)
    requires
        k < s@.len(),
    ensures
        r == is_ws(s@[k as int]),
{
    crate::text::char_is_ws(s.get_char(k))
}

/// Read a doc comment: one or more doc lines, joined with line breaks.
fn docstring(s: &str, i: usize) -> (r: Option<(String, usize)>)
    requires
        i <= s@.len(),
    ensures
        match r {
            Some(v) => {
                &&& i < v.1 <= s@.len()
                &&& spec_docstring(s@, i as int) matches Some(p) && p.0 == v.0@ && p.1 == v.1
            },
            None => spec_docstring(s@, i as int) is None,
        },
    decreases s@.len() - i,
{
    let (first, j) = match docstring_line(s, i) {
        Some(v) => v,
        None => {
            return None;
        },
    };
    let mut doc = first;
    match docstring(s, j) {
        Some((rest, k)) => {
            push_char(&mut doc, '\n');
            doc.append(rest.as_str());
            proof {
                assert(doc@ =~= spec_docstring(s@, i as int)->Some_0.0);
            }
            Some((doc, k))
        },
        None => Some((doc, j)),
    }
}

/// Read a quoted string literal: the text between two single quotes.
fn string_literal(s: &str, i: usize) -> (r: Option<(String, usize)>)
    requires
        i <= s@.len(),
    ensures
        match r {
            Some(v) => {
                &&& i < v.1 <= s@.len()
                &&& spec_string_literal(s@, i as int) matches Some(p) && p.0 == v.0@ && p.1 == v.1
            },
            None => spec_string_literal(s@, i as int) is None,
        },
{
    let n = s.unicode_len();
    if i >= n || s.get_char(i) != '\'' {
        return None;
    }
    let j = scan_quote(s, i + 1);
    if j == n {
        return None;
    }
    let piece = s.substring_char(i + 1, j);
    Some((piece.to_owned(), j + 1))
}

/// Read a numeral with surrounding whitespace allowed, as the grammar's
/// number token.
fn number_ws(s: &str, i: usize) -> (r: Option<(u64, usize)>)
    requires
        i <= s@.len(),
    ensures
        match r {
            Some(v) => spec_number(s@, i as int) == Some((v.0, v.1 as int)) && i <= v.1
                <= s@.len(),
            None => spec_number(s@, i as int) is None,
        },
{
    scan_number(s, i)
}

/// Build a syntax error at `position` with a context label.
fn syntax_error(position: usize, context: &str) -> (r: SyntaxError)
    ensures
        r.position == position,
        r.context@ == context@,
{
    SyntaxError { position, context: context.to_owned() }
}

/// Parse the characteristics block: zero or more `instruction_width =
/// value;` statements, line comments between them; malformed content
/// after the matched keyword is a hard failure.
fn parse_characteristics(s: &str, i: usize) -> (r: Result<
    (Vec<ast::Characteristic>, usize),
    SyntaxError,
>)
    requires
        i <= s@.len(),
    ensures
        match r {
            Ok(v) => {
                &&& i <= v.1 <= s@.len()
                &&& spec_characteristics(s@, i as int) matches Some(p) && p.0 == v.0@ && p.1
                    == v.1
            },
            Err(e) => {
                &&& spec_characteristics(s@, i as int) is None
                &&& e.position <= s@.len()
                &&& e.context@ == "characteristic"@
            },
        },
    decreases s@.len() - i,
{
    let a = skip_comments(s, i);
    let b = match lit_ws(s, a, "instruction_width") {
        Some(b) => b,
        None => {
            let r: Vec<ast::Characteristic> = Vec::new();
            proof {
                assert(r@ =~= spec_characteristics(s@, i as int)->Some_0.0);
            }
            return Ok((r, i));
        },
    };
    let c = match lit_ws(s, b, "=") {
        Some(c) => c,
        None => {
            return Err(syntax_error(b, "characteristic"));
        },
    };
    let (w, d) = match number_ws(s, c) {
        Some(v) => v,
        None => {
            return Err(syntax_error(c, "characteristic"));
        },
    };
    if w > (usize::MAX as u64) {
        return Err(syntax_error(c, "characteristic"));
    }
    let e = match lit_ws(s, d, ";") {
        Some(e) => e,
        None => {
            return Err(syntax_error(d, "characteristic"));
        },
    };
    let mut result: Vec<ast::Characteristic> = Vec::new();
    result.push(ast::Characteristic::InstructionWidth(w as usize));
    if e <= i {
        proof {
            assert(result@ =~= spec_characteristics(s@, i as int)->Some_0.0);
        }
        return Ok((result, e));
    }
    match parse_characteristics(s, e) {
        Ok((mut rest, j)) => {
            result.append(&mut rest);
            proof {
                assert(result@ =~= spec_characteristics(s@, i as int)->Some_0.0);
            }
            Ok((result, j))
        },
        Err(err) => Err(err),
    }
}

/// Parse the timing annotation: `N cycle`, `async` or `multi`.
fn parse_timing(s: &str, i: usize) -> (r: Result<(ast::Timing, usize), SyntaxError>)
    requires
        i <= s@.len(),
    ensures
        match r {
            Ok(v) => {
                &&& i <= v.1 <= s@.len()
                &&& spec_timing(s@, i as int) == Some((v.0, v.1 as int))
            },
            Err(e) => {
                &&& spec_timing(s@, i as int) is None
                &&& e.position <= s@.len()
                &&& e.context@ == "timing"@
            },
        },
{
    let a = skip_comments(s, i);
    let b = skip_ws(s, a);
    match number_ws(s, b) {
        Some((nv, c)) => {
            let d = match lit_ws(s, c, "cycle") {
                Some(d) => d,
                None => {
                    return Err(syntax_error(c, "timing"));
                },
            };
            if nv > (usize::MAX as u64) {
                return Err(syntax_error(b, "timing"));
            }
            let e = skip_comments(s, d);
            Ok((ast::Timing::Cycle(nv as usize), e))
        },
        None => {
            if let Some(c) = lit_ws(s, b, "async") {
                let e = skip_comments(s, c);
                return Ok((ast::Timing::Async, e));
            }
            if let Some(c) = lit_ws(s, b, "multi") {
                let e = skip_comments(s, c);
                return Ok((ast::Timing::Multi, e));
            }
            Err(syntax_error(b, "timing"))
        },
    }
}

/// Parse the fields section: comma-separated field declarations, each a
/// doc comment followed by `name: width`; the section ends where no
/// further doc comment follows.
fn parse_fields(s: &str, i: usize) -> (r: Result<(Vec<ast::Field>, usize), SyntaxError>)
    requires
        i <= s@.len(),
    ensures
        match r {
            Ok(v) => {
                &&& i <= v.1 <= s@.len()
                &&& spec_fields(s@, i as int) matches Some(p) && fields_match_text(p.0, v.0@)
                    && p.1 == v.1
            },
            Err(e) => {
                &&& spec_fields(s@, i as int) is None
                &&& e.position <= s@.len()
                &&& (e.context@ == "field docstring"@ || e.context@ == "field identifier"@
                    || e.context@ == "fields"@)
            },
        },
    decreases s@.len() - i,
{
    let a = skip_comments(s, i);
    let (doc, b) = match docstring(s, a) {
        Some(v) => v,
        None => {
            let r: Vec<ast::Field> = Vec::new();
            return Ok((r, i));
        },
    };
    let c = skip_comments(s, b);
    let (name, d) = match scan_ident_ws(s, c) {
        Some(v) => v,
        None => {
            return Err(syntax_error(c, "field identifier"));
        },
    };
    let e = match lit_ws(s, d, ":") {
        Some(e) => e,
        None => {
            return Err(syntax_error(d, "fields"));
        },
    };
    let (w, f) = match number_ws(s, e) {
        Some(v) => v,
        None => {
            return Err(syntax_error(e, "fields"));
        },
    };
    if w > (usize::MAX as u64) {
        return Err(syntax_error(e, "fields"));
    }
    let g = skip_comments(s, f);
    let mut result: Vec<ast::Field> = Vec::new();
    result.push(ast::Field { doc, name, width: w as usize, value: None });
    let h = match lit_ws(s, g, ",") {
        Some(h) => h,
        None => {
            return Ok((result, g));
        },
    };
    if h <= i {
        return Ok((result, h));
    }
    match parse_fields(s, h) {
        Ok((mut rest, j)) => {
            result.append(&mut rest);
            Ok((result, j))
        },
        Err(err) => Err(err),
    }
}

/// Advance to the first semicolon at or after `i`.
fn scan_semi(s: &str, i: usize) -> (r: usize)
    requires
        i <= s@.len(),
    ensures
        r == semi_end(s@, i as int),
        i <= r <= s@.len(),
{
    let n = s.unicode_len();
    let mut j = i;
    loop
        invariant
            i <= j <= n,
            n == s@.len(),
            semi_end(s@, i as int) == semi_end(s@, j as int),
        decreases n - j,
    {
        if j < n && s.get_char(j) != ';' {
            j += 1;
        } else {
            return j;
        }
    }
}

/// Parse one assembly element, by the grammar's alternatives in order.
fn parse_assembly_element(s: &str, i: usize) -> (r: Option<(ast::AssemblyElement, usize)>)
    requires
        i <= s@.len(),
    ensures
        match r {
            Some(v) => {
                &&& i < v.1 <= s@.len()
                &&& spec_asm_element(s@, i as int) matches Some(p) && elem_matches_text(p.0, v.0)
                    && p.1 == v.1
            },
            None => spec_asm_element(s@, i as int) is None,
        },
{
    let n = s.unicode_len();
    if i >= n {
        return None;
    }
    let c = s.get_char(i);
    // Generic-parameter expansion: `$name`.
    if c == '$' {
        match scan_ident(s, i + 1) {
            Some((name, j)) => {
                return Some((ast::AssemblyElement::Expansion { name }, j));
            },
            None => {
                return None;
            },
        }
    }
    // String literal: `'text'`.
    if c == '\'' {
        match string_literal(s, i) {
            Some((value, j)) => {
                return Some((ast::AssemblyElement::StringLiteral { value }, j));
            },
            None => {
                return None;
            },
        }
    }
    // Optional flag `['tok' = field]` or optional field `[.field]`.
    if c == '[' {
        let a = skip_ws(s, i + 1);
        if a < n && s.get_char(a) == '\'' {
            let (name, b) = match string_literal(s, a) {
                Some(v) => v,
                None => {
                    return None;
                },
            };
            let b2 = skip_ws(s, b);
            let d = match lit_ws(s, b2, "=") {
                Some(d) => d,
                None => {
                    return None;
                },
            };
            let (field, e) = match scan_ident_ws(s, d) {
                Some(v) => v,
                None => {
                    return None;
                },
            };
            if e < n && s.get_char(e) == ']' {
                return Some((ast::AssemblyElement::OptionalFlag { name, field }, e + 1));
            }
            return None;
        }
        let (with_dot, a2) = if a < n && s.get_char(a) == '.' {
            (true, skip_ws(s, a + 1))
        } else {
            (false, a)
        };
        let (name, b) = match scan_ident_ws(s, a2) {
            Some(v) => v,
            None => {
                return None;
            },
        };
        if b < n && s.get_char(b) == ']' {
            return Some((ast::AssemblyElement::OptionalField { name, with_dot }, b + 1));
        }
        return None;
    }
    // A bare identifier is a mandatory field reference.
    match scan_ident(s, i) {
        Some((name, j)) => {
            return Some((ast::AssemblyElement::Field { name }, j));
        },
        None => {},
    }
    if c == '.' {
        return Some((ast::AssemblyElement::Dot, i + 1));
    }
    if c == ',' {
        return Some((ast::AssemblyElement::Comma, i + 1));
    }
    // A whitespace run is a separator.
    if crate::text::char_is_ws(c) {
        let j = skip_ws(s, i);
        proof {
            crate::text::lemma_skip_ws_end(s@, i as int);
        }
        return Some((ast::AssemblyElement::Space, j));
    }
    None
}

/// Parse the element sequence: elements read until none matches.
fn parse_asm_elements(s: &str, i: usize) -> (r: (Vec<ast::AssemblyElement>, usize))
    requires
        i <= s@.len(),
    ensures
        i <= r.1 <= s@.len(),
        elems_match_text(spec_asm_elements(s@, i as int).0, r.0@),
        r.1 as int == spec_asm_elements(s@, i as int).1,
    decreases s@.len() - i,
{
    match parse_assembly_element(s, i) {
        None => {
            let v: Vec<ast::AssemblyElement> = Vec::new();
            (v, i)
        },
        Some((x, j)) => {
            let (mut rest, k) = parse_asm_elements(s, j);
            let mut v: Vec<ast::AssemblyElement> = Vec::new();
            v.push(x);
            v.append(&mut rest);
            (v, k)
        },
    }
}

/// Parse the worked examples: doc and literal-text pairs, each text
/// running to its required semicolon.
fn parse_examples(s: &str, k: usize) -> (r: Result<(Vec<ast::AssemblyExample>, usize), SyntaxError>)
    requires
        k <= s@.len(),
    ensures
        match r {
            Ok(v) => {
                &&& k <= v.1 <= s@.len()
                &&& spec_examples(s@, k as int) matches Some(p) && examples_match_text(p.0, v.0@)
                    && p.1 == v.1
            },
            Err(e) => {
                &&& spec_examples(s@, k as int) is None
                &&& e.position <= s@.len()
                &&& e.context@ == "assembly"@
            },
        },
    decreases s@.len() - k,
{
    let a = skip_comments(s, k);
    let (doc, b) = match docstring(s, a) {
        Some(v) => v,
        None => {
            let v: Vec<ast::AssemblyExample> = Vec::new();
            return Ok((v, k));
        },
    };
    let c = skip_comments(s, b);
    let n = s.unicode_len();
    let e = scan_semi(s, c);
    if e == n || e == c {
        return Err(syntax_error(c, "assembly"));
    }
    let ls = scan_ltrim(s, c, e);
    let le = scan_rtrim(s, ls, e);
    let text = s.substring_char(ls, le);
    let mut result: Vec<ast::AssemblyExample> = Vec::new();
    result.push(ast::AssemblyExample { doc, example: text.to_owned() });
    let k2 = skip_comments(s, e + 1);
    if k2 <= k {
        return Ok((result, k2));
    }
    match parse_examples(s, k2) {
        Ok((mut rest, j)) => {
            result.append(&mut rest);
            Ok((result, j))
        },
        Err(err) => Err(err),
    }
}

/// Parse the assembly section: the element sequence, terminated by `;`
/// when non-empty, then an optional `examples:` block.
fn parse_assembly(s: &str, i: usize) -> (r: Result<(ast::Assembly, usize), SyntaxError>)
    requires
        i <= s@.len(),
    ensures
        match r {
            Ok(v) => {
                &&& i <= v.1 <= s@.len()
                &&& spec_assembly(s@, i as int) matches Some(p) && elems_match_text(
                    p.0,
                    v.0.syntax@,
                ) && examples_match_text(p.1, v.0.example@) && p.2 == v.1
            },
            Err(e) => {
                &&& spec_assembly(s@, i as int) is None
                &&& e.position <= s@.len()
                &&& e.context@ == "assembly"@
            },
        },
{
    let j0 = skip_comments(s, i);
    let j1 = skip_ws(s, j0);
    let (syntax, j2) = if match_lit(s, j1, "examples:").is_none() {
        parse_asm_elements(s, j1)
    } else {
        let v: Vec<ast::AssemblyElement> = Vec::new();
        (v, j1)
    };
    let j3 = if syntax.len() > 0 {
        match lit_ws(s, j2, ";") {
            Some(v) => v,
            None => {
                return Err(syntax_error(j2, "assembly"));
            },
        }
    } else {
        j2
    };
    let j4 = skip_comments(s, j3);
    match lit_ws(s, j4, "examples:") {
        None => {
            let ex: Vec<ast::AssemblyExample> = Vec::new();
            Ok((ast::Assembly { syntax, example: ex }, j4))
        },
        Some(k) => match parse_examples(s, k) {
            Ok((example, j5)) => Ok((ast::Assembly { syntax, example }, j5)),
            Err(err) => Err(err),
        },
    }
}

/// Parse one machine-layout element: a constant `name: width
/// [= value]`, or a field placement `name`, `name[begin:end]`, `name!`,
/// `name?`, `name?!`, each suffix mapped to its element kind.
fn parse_machine_element(s: &str, i: usize) -> (r: Result<(ast::MachineElement, usize), SyntaxError>)
    requires
        i <= s@.len(),
    ensures
        match r {
            Ok(v) => {
                &&& i <= v.1 <= s@.len()
                &&& spec_machine_element(s@, i as int) matches Some(p) && mach_matches_text(
                    p.0,
                    v.0,
                ) && p.1 == v.1
            },
            Err(e) => {
                &&& spec_machine_element(s@, i as int) is None
                &&& e.position <= s@.len()
                &&& e.context@ == "machine"@
            },
        },
{
    proof {
        reveal_strlit(":");
    }
    let n = s.unicode_len();
    let (name, a) = match scan_ident_ws(s, i) {
        Some(v) => v,
        None => {
            return Err(syntax_error(i, "machine"));
        },
    };
    // A constant: `name: width [= value]`.
    if let Some(b) = lit_ws(s, a, ":") {
        let (w, c) = match number_ws(s, b) {
            Some(v) => v,
            None => {
                return Err(syntax_error(b, "machine"));
            },
        };
        if w > (usize::MAX as u64) {
            return Err(syntax_error(b, "machine"));
        }
        let (value, d) = if let Some(c2) = lit_ws(s, c, "=") {
            match number_ws(s, c2) {
                Some((v, d)) => (Some(ast::MachineElementValue::NumericConstant(v)), skip_ws(s, d)),
                None => {
                    let c3 = match lit_ws(s, c2, "$") {
                        Some(v) => v,
                        None => {
                            return Err(syntax_error(c2, "machine"));
                        },
                    };
                    match scan_ident_ws(s, c3) {
                        Some((p, d)) => (
                            Some(ast::MachineElementValue::GenericParameter(p)),
                            d,
                        ),
                        None => {
                            return Err(syntax_error(c3, "machine"));
                        },
                    }
                },
            }
        } else {
            (None, c)
        };
        return Ok((ast::MachineElement::Constant { name, width: w as usize, value }, d));
    }
    // A slice: `name[begin:end]`.
    if a < n && s.get_char(a) == '[' {
        let (b, c) = match number_ws(s, a + 1) {
            Some(v) => v,
            None => {
                return Err(syntax_error(a, "machine"));
            },
        };
        let c2 = match match_lit(s, c, ":") {
            Some(v) => v,
            None => {
                return Err(syntax_error(c, "machine"));
            },
        };
        let (e, d) = match number_ws(s, c2) {
            Some(v) => v,
            None => {
                return Err(syntax_error(c2, "machine"));
            },
        };
        if d >= n || s.get_char(d) != ']' {
            return Err(syntax_error(d, "machine"));
        }
        if b > (usize::MAX as u64) || e > (usize::MAX as u64) {
            return Err(syntax_error(a, "machine"));
        }
        return Ok(
            (
                ast::MachineElement::FieldSlice {
                    name,
                    begin: b as usize,
                    end: e as usize,
                },
                d + 1,
            ),
        );
    }
    // A negated field: `name!`.
    if a < n && s.get_char(a) == '!' {
        return Ok((ast::MachineElement::FieldNegate { name }, a + 1));
    }
    // Present and absent tests: `name?` and `name?!`.
    if a < n && s.get_char(a) == '?' {
        if a + 1 < n && s.get_char(a + 1) == '!' {
            return Ok((ast::MachineElement::OptionalFieldAbsentTest { name }, a + 2));
        }
        return Ok((ast::MachineElement::OptionalFieldPresentTest { name }, a + 1));
    }
    Ok((ast::MachineElement::Field { name }, a))
}

/// Parse the machine section: comma-separated layout elements, with an
/// optional trailing comma before the closing brace.
fn parse_machine(s: &str, i: usize) -> (r: Result<(ast::Machine, usize), SyntaxError>)
    requires
        i <= s@.len(),
    ensures
        match r {
            Ok(v) => {
                &&& i <= v.1 <= s@.len()
                &&& spec_machine(s@, i as int) matches Some(p) && machs_match_text(
                    p.0,
                    v.0.layout@,
                ) && p.1 == v.1
            },
            Err(e) => {
                &&& spec_machine(s@, i as int) is None
                &&& e.position <= s@.len()
                &&& e.context@ == "machine"@
            },
        },
    decreases s@.len() - i,
{
    let a = skip_comments(s, i);
    let (x, b) = match parse_machine_element(s, a) {
        Ok(v) => v,
        Err(e) => {
            return Err(e);
        },
    };
    let c = skip_comments(s, b);
    let mut layout: Vec<ast::MachineElement> = Vec::new();
    layout.push(x);
    let d = match lit_ws(s, c, ",") {
        Some(d) => d,
        None => {
            return Ok((ast::Machine { layout }, c));
        },
    };
    let d2 = skip_comments(s, d);
    if lit_ws(s, d2, "}").is_some() || d2 >= s.unicode_len() || d2 <= i {
        return Ok((ast::Machine { layout }, d2));
    }
    match parse_machine(s, d2) {
        Ok((mut rest, j)) => {
            layout.append(&mut rest.layout);
            Ok((ast::Machine { layout }, j))
        },
        Err(e) => Err(e),
    }
}

/// Parse the generic parameter list after its opening angle bracket.
fn parse_params(s: &str, i: usize) -> (r: Result<(Vec<String>, usize), SyntaxError>)
    requires
        i <= s@.len(),
    ensures
        match r {
            Ok(v) => {
                &&& i <= v.1 <= s@.len()
                &&& spec_params(s@, i as int) matches Some(p) && p.1 == v.1 && p.0.len()
                    == v.0@.len() && (forall|k: int|
                    0 <= k < p.0.len() ==> (#[trigger] v.0@[k])@ == p.0[k])
            },
            Err(e) => {
                &&& spec_params(s@, i as int) is None
                &&& e.position <= s@.len()
                &&& e.context@ == "instruction body"@
            },
        },
    decreases s@.len() - i,
{
    let (param, b) = match scan_ident_ws(s, i) {
        Some(v) => v,
        None => {
            return Err(syntax_error(i, "instruction body"));
        },
    };
    let mut params: Vec<String> = Vec::new();
    params.push(param);
    if let Some(c) = lit_ws(s, b, ",") {
        if c <= i {
            return Err(syntax_error(c, "instruction body"));
        }
        match parse_params(s, c) {
            Ok((mut rest, j)) => {
                params.append(&mut rest);
                Ok((params, j))
            },
            Err(e) => Err(e),
        }
    } else {
        let c = match lit_ws(s, b, ">") {
            Some(v) => v,
            None => {
                return Err(syntax_error(b, "instruction body"));
            },
        };
        Ok((params, c))
    }
}

/// Parse the base reference's argument list after its opening angle
/// bracket: each argument a numeral or a quoted text.
fn parse_base_args(s: &str, i: usize) -> (r: Result<(Vec<ast::BaseParameter>, usize), SyntaxError>)
    requires
        i <= s@.len(),
    ensures
        match r {
            Ok(v) => {
                &&& i <= v.1 <= s@.len()
                &&& spec_base_args(s@, i as int) matches Some(p) && p.1 == v.1 && p.0.len()
                    == v.0@.len() && (forall|k: int|
                    0 <= k < p.0.len() ==> arg_matches_text(p.0[k], #[trigger] v.0@[k]))
            },
            Err(e) => {
                &&& spec_base_args(s@, i as int) is None
                &&& e.position <= s@.len()
                &&& e.context@ == "instruction body"@
            },
        },
    decreases s@.len() - i,
{
    let (arg, d) = match number_ws(s, i) {
        Some((v, d0)) => (ast::BaseParameter::Number(v), skip_ws(s, d0)),
        None => {
            let c1 = skip_ws(s, i);
            match string_literal(s, c1) {
                Some((t, d0)) => (ast::BaseParameter::Text(t), skip_ws(s, d0)),
                None => {
                    return Err(syntax_error(c1, "instruction body"));
                },
            }
        },
    };
    let mut args: Vec<ast::BaseParameter> = Vec::new();
    args.push(arg);
    if let Some(e) = lit_ws(s, d, ",") {
        if e <= i {
            return Err(syntax_error(e, "instruction body"));
        }
        match parse_base_args(s, e) {
            Ok((mut rest, j)) => {
                args.append(&mut rest);
                Ok((args, j))
            },
            Err(err) => Err(err),
        }
    } else {
        let e = match lit_ws(s, d, ">") {
            Some(v) => v,
            None => {
                return Err(syntax_error(d, "instruction body"));
            },
        };
        Ok((args, e))
    }
}

/// Whether a syntax error's context names one of the grammar
/// productions an instruction body can fail in.
pub open spec fn body_context(e: SyntaxError) -> bool {
    ||| e.context@ == "instruction body"@
    ||| e.context@ == "timing"@
    ||| e.context@ == "field docstring"@
    ||| e.context@ == "field identifier"@
    ||| e.context@ == "fields"@
    ||| e.context@ == "assembly"@
    ||| e.context@ == "machine"@
}

/// Parse the four optional labeled sections of an instruction body, in
/// fixed order, and the closing brace; once a section keyword has
/// matched, malformed content is a hard failure under that section's
/// label.
fn parse_sections(s: &str, k: usize) -> (r: Result<
    ((Option<ast::Timing>, Vec<ast::Field>, ast::Assembly, ast::Machine), usize),
    SyntaxError,
>)
    requires
        k <= s@.len(),
    ensures
        match r {
            Ok(v) => {
                &&& k <= v.1 <= s@.len()
                &&& spec_sections(s@, k as int) matches Some(p) && p.1 == v.1 && p.0.timing
                    == v.0.0 && fields_match_text(p.0.fields, v.0.1@) && elems_match_text(
                    p.0.syntax,
                    v.0.2.syntax@,
                ) && examples_match_text(p.0.examples, v.0.2.example@) && machs_match_text(
                    p.0.layout,
                    v.0.3.layout@,
                )
            },
            Err(e) => {
                &&& spec_sections(s@, k as int) is None
                &&& e.position <= s@.len()
                &&& body_context(e)
            },
        },
{
    let k0 = skip_comments(s, k);
    let (timing, k) = match lit_ws(s, k0, "timing:") {
        Some(a) => match parse_timing(s, a) {
            Ok((t, b)) => (Some(t), b),
            Err(e) => {
                return Err(e);
            },
        },
        None => (None, k0),
    };
    let k0 = skip_comments(s, k);
    let (fields, k) = match lit_ws(s, k0, "fields:") {
        Some(a) => match parse_fields(s, a) {
            Ok(v) => v,
            Err(e) => {
                return Err(e);
            },
        },
        None => {
            let v: Vec<ast::Field> = Vec::new();
            (v, k0)
        },
    };
    let k0 = skip_comments(s, k);
    let (assembly, k) = match lit_ws(s, k0, "assembly:") {
        Some(a) => match parse_assembly(s, a) {
            Ok(v) => v,
            Err(e) => {
                return Err(e);
            },
        },
        None => (ast::Assembly::default(), k0),
    };
    let k0 = skip_comments(s, k);
    let (machine, k) = match lit_ws(s, k0, "machine:") {
        Some(a) => match parse_machine(s, a) {
            Ok(v) => v,
            Err(e) => {
                return Err(e);
            },
        },
        None => (ast::Machine::default(), k0),
    };
    let k0 = skip_comments(s, k);
    let end = match lit_ws(s, k0, "}") {
        Some(v) => v,
        None => {
            return Err(syntax_error(k0, "instruction body"));
        },
    };
    Ok(((timing, fields, assembly, machine), end))
}

/// Parse an instruction body: the name, optional generic parameters,
/// optional base reference, and the brace-delimited sections.
#[verifier::rlimit(60)]
fn parse_instruction_body(s: &str, i: usize) -> (r: Result<(ast::Instruction, usize), SyntaxError>)
    requires
        i <= s@.len(),
    ensures
        match r {
            Ok(v) => {
                &&& i <= v.1 <= s@.len()
                &&& spec_instruction_body(s@, i as int) matches Some(p) && instr_matches_text(
                    p.0,
                    v.0,
                ) && p.1 == v.1
            },
            Err(e) => {
                &&& spec_instruction_body(s@, i as int) is None
                &&& e.position <= s@.len()
                &&& body_context(e)
            },
        },
{
    let (name, j0) = match scan_ident_ws(s, i) {
        Some(v) => v,
        None => {
            return Err(syntax_error(i, "instruction body"));
        },
    };
    // Optional generic parameter list `<p, q>`.
    let (parameters, j) = match lit_ws(s, j0, "<") {
        Some(a) => match parse_params(s, a) {
            Ok(v) => v,
            Err(e) => {
                return Err(e);
            },
        },
        None => {
            let v: Vec<String> = Vec::new();
            (v, j0)
        },
    };
    // Optional base reference `: Base<arg, arg>`.
    let (base, j) = match lit_ws(s, j, ":") {
        Some(a) => {
            let (bname, b) = match scan_ident_ws(s, a) {
                Some(v) => v,
                None => {
                    return Err(syntax_error(a, "instruction body"));
                },
            };
            let c = match lit_ws(s, b, "<") {
                Some(v) => v,
                None => {
                    return Err(syntax_error(b, "instruction body"));
                },
            };
            match parse_base_args(s, c) {
                Ok((args, j1)) => (Some(ast::Base { name: bname, parameters: args }), j1),
                Err(e) => {
                    return Err(e);
                },
            }
        },
        None => (None, j),
    };
    let k = match lit_ws(s, j, "{") {
        Some(v) => v,
        None => {
            return Err(syntax_error(j, "instruction body"));
        },
    };
    match parse_sections(s, k) {
        Ok(((timing, fields, assembly, machine), end)) => {
            Ok(
                (
                    ast::Instruction {
                        doc: String::new(),
                        name,
                        timing,
                        parameters,
                        base,
                        fields,
                        assembly,
                        machine,
                    },
                    end,
                ),
            )
        },
        Err(e) => Err(e),
    }
}

/// Parse one instruction: its doc comment, the `instruction` keyword,
/// and the body; no doc comment or no keyword means no further
/// instruction, and once the keyword has matched, a malformed body is a
/// hard failure.
fn parse_instruction(s: &str, i: usize) -> (r: Result<Option<(ast::Instruction, usize)>, SyntaxError>)
    requires
        i <= s@.len(),
    ensures
        match r {
            Ok(Some(v)) => {
                &&& i < v.1 <= s@.len()
                &&& spec_instruction(s@, i as int) matches InstrStep::One { instr, next }
                    && instr_matches_text(instr, v.0) && next == v.1
            },
            Ok(None) => spec_instruction(s@, i as int) is NoMore,
            Err(e) => {
                &&& spec_instruction(s@, i as int) is Bad
                &&& e.position <= s@.len()
                &&& body_context(e)
            },
        },
{
    let a = skip_comments(s, i);
    let (doc, b) = match docstring(s, a) {
        Some(v) => v,
        None => {
            return Ok(None);
        },
    };
    let c = skip_comments(s, b);
    let d = match lit_ws(s, c, "instruction") {
        Some(v) => v,
        None => {
            return Ok(None);
        },
    };
    let (mut instr, e) = match parse_instruction_body(s, d) {
        Ok(v) => v,
        Err(err) => {
            return Err(err);
        },
    };
    instr.doc = doc;
    if e <= i {
        return Ok(None);
    }
    Ok(Some((instr, e)))
}

/// Parse the instruction list: instructions read until none follows.
fn parse_instructions(s: &str, i: usize) -> (r: Result<(Vec<ast::Instruction>, usize), SyntaxError>)
    requires
        i <= s@.len(),
    ensures
        match r {
            Ok(v) => {
                &&& i <= v.1 <= s@.len()
                &&& spec_instructions(s@, i as int) matches Some(p) && instrs_match_text(
                    p.0,
                    v.0@,
                ) && p.1 == v.1
            },
            Err(e) => {
                &&& spec_instructions(s@, i as int) is None
                &&& e.position <= s@.len()
                &&& body_context(e)
            },
        },
    decreases s@.len() - i,
{
    match parse_instruction(s, i) {
        Ok(Some((instr, j))) => {
            let mut instructions: Vec<ast::Instruction> = Vec::new();
            instructions.push(instr);
            match parse_instructions(s, j) {
                Ok((mut rest, k)) => {
                    instructions.append(&mut rest);
                    Ok((instructions, k))
                },
                Err(e) => Err(e),
            }
        },
        Ok(None) => {
            let v: Vec<ast::Instruction> = Vec::new();
            Ok((v, i))
        },
        Err(e) => Err(e),
    }
}

/// Parse instruction-format source text into an abstract syntax tree:
/// the characteristics block, then every instruction definition, with
/// nothing but comments and whitespace left over, so a success is never
/// partial; a failure carries the position and the enclosing grammar
/// production.
pub fn parse(text: &str) -> (r: Result<ast::Ast, SyntaxError>)
    ensures
        r is Ok <==> spec_parse(text@) is Some,
        r matches Ok(tree) ==> spec_parse(text@) matches Some(p) && p.0 == tree.characteristics@
            && instrs_match_text(p.1, tree.instructions@),
        r matches Err(e) ==> e.position <= text@.len() && (e.context@ == "characteristic"@
            || e.context@ == "instruction"@ || body_context(e)),
{
    let (characteristics, j) = match parse_characteristics(text, 0) {
        Ok(v) => v,
        Err(e) => {
            return Err(e);
        },
    };
    let (instructions, k) = match parse_instructions(text, j) {
        Ok(v) => v,
        Err(e) => {
            return Err(e);
        },
    };
    let k2 = skip_comments(text, k);
    let end = skip_ws(text, k2);
    if end != text.unicode_len() {
        return Err(syntax_error(end, "instruction"));
    }
    Ok(ast::Ast { characteristics, instructions })
}

} // verus!
