//! Documentation views of a resolved specification: a flattened
//! bit-offset table for the machine layout and an annotated string for
//! the assembly syntax, both consumed read-only by the documentation
//! renderer.

use crate::layout::layout_ok;
use crate::layout::spec_elem_width;
use crate::layout::width0;
use crate::layout::width_sum;
use crate::resolve;
use crate::resolve::Assembly;
use crate::resolve::Instruction;
use crate::resolve::MachineElement;
use crate::text::char_is_ws;
use crate::text::dec_digits;
use crate::text::is_ws;
use crate::text::push_char;
use crate::text::skip_ws;
use crate::text::skip_ws_end;
use crate::text::u64_to_dec;
use vstd::pervasive::unreached;
use vstd::prelude::*;

verus! {

/// A field as the documentation renderer sees it.
#[derive(Debug, PartialEq, Eq)]
pub struct Field {
    pub doc: String,
    pub name: String,
    pub width: usize,
    pub class: Option<String>,
}

impl From<resolve::Field> for Field {
    /// A documentation field carries the resolved field's text and
    /// width; no styling class is assigned.
    fn from(value: resolve::Field) -> (r: Self) {
        Field { doc: value.doc, name: value.name, width: value.width, class: None }
    }
}

impl vstd::std_specs::convert::FromSpecImpl<resolve::Field> for Field {
    open spec fn obeys_from_spec() -> bool {
        true
    }

    open spec fn from_spec(value: resolve::Field) -> Self {
        Field { doc: value.doc, name: value.name, width: value.width, class: None }
    }
}

/// The opening of a field-styled span.
pub open spec fn span_field_open() -> Seq<char> {
    "<span class=\"field\">"@
}

/// The opening of a constant-styled span.
pub open spec fn span_const_open() -> Seq<char> {
    "<span class=\"constant\">"@
}

/// The closing span tag.
pub open spec fn span_close() -> Seq<char> {
    "</span>"@
}

/// A field name wrapped in a field-styled span.
pub open spec fn spec_span_field(name: Seq<char>) -> Seq<char> {
    span_field_open() + name + span_close()
}

/// The table label of one layout element.
pub open spec fn spec_elem_label(e: MachineElement) -> Seq<char> {
    match e {
        MachineElement::Field { name } => spec_span_field(name@),
        MachineElement::FieldSlice { name, begin, end } => spec_span_field(name@) + "["@
            + dec_digits(begin as nat) + ":"@ + dec_digits(end as nat) + "]"@,
        MachineElement::FieldNegate { name } => spec_span_field(name@) + "!"@,
        MachineElement::OptionalFieldPresentTest { name } => spec_span_field(name@) + "?"@,
        MachineElement::OptionalFieldAbsentTest { name } => spec_span_field(name@) + "?!"@,
        MachineElement::Constant { name, width, value } => match value {
            Some(v) => name@ + " = "@ + dec_digits(v as nat),
            None => if name@ == seq!['_'] {
                "~"@
            } else {
                name@ + " = 0"@
            },
        },
    }
}

/// Wrap a field name in a field-styled span.
fn span_field(name: &str) -> (r: String)
    ensures
        r@ == spec_span_field(name@),
{
    let mut s = String::from_str("<span class=\"field\">");
    s.append(name);
    s.append("</span>");
    s
}

/// The flattened machine-layout table: one row per layout element, with
/// its bit offset, its width, and a label naming what occupies the bits.
pub fn machine_element_table(i: &Instruction) -> (r: Vec<(usize, usize, String)>)
    requires
        layout_ok(i.machine.layout@, i.fields@),
        width_sum(i.machine.layout@, i.fields@, i.machine.layout@.len() as int) <= usize::MAX,
    ensures
        r@.len() == i.machine.layout@.len(),
        forall|k: int|
            0 <= k < r@.len() ==> (#[trigger] r@[k]).0 == width_sum(
                i.machine.layout@,
                i.fields@,
                k,
            ) && r@[k].1 == width0(i.machine.layout@[k], i.fields@) && r@[k].2@ == spec_elem_label(
                i.machine.layout@[k],
            ),
{
    let n = i.machine.layout.len();
    let mut result: Vec<(usize, usize, String)> = Vec::new();
    let mut idx: usize = 0;
    let mut k: usize = 0;
    while k < n
        invariant
            0 <= k <= n,
            n == i.machine.layout@.len(),
            layout_ok(i.machine.layout@, i.fields@),
            width_sum(i.machine.layout@, i.fields@, n as int) <= usize::MAX,
            idx == width_sum(i.machine.layout@, i.fields@, k as int),
            result@.len() == k,
            forall|q: int|
                0 <= q < k ==> (#[trigger] result@[q]).0 == width_sum(
                    i.machine.layout@,
                    i.fields@,
                    q,
                ) && result@[q].1 == width0(i.machine.layout@[q], i.fields@) && result@[q].2@
                    == spec_elem_label(i.machine.layout@[q]),
        decreases n - k,
    {
        proof {
            crate::layout::lemma_width_sum_mono(i.machine.layout@, i.fields@, k + 1, n as int);
        }
        let e = &i.machine.layout[k];
        let (w, label): (usize, String) = match e {
            MachineElement::Field { name } => {
                let f = match i.get_field(name.as_str()) {
                    Some(f) => f,
                    None => {
                        proof {
                            assert(spec_elem_width(i.machine.layout@[k as int], i.fields@)
                                is Some);
                            assert(false);
                        }
                        unreached()
                    },
                };
                (f.width, span_field(name.as_str()))
            },
            MachineElement::FieldSlice { name, begin, end } => {
                let mut s = span_field(name.as_str());
                s.append("[");
                let b = u64_to_dec(*begin as u64);
                s.append(b.as_str());
                s.append(":");
                let d = u64_to_dec(*end as u64);
                s.append(d.as_str());
                s.append("]");
                proof {
                    assert(spec_elem_width(i.machine.layout@[k as int], i.fields@) is Some);
                }
                ((*end - *begin) + 1, s)
            },
            MachineElement::FieldNegate { name } => {
                let f = match i.get_field(name.as_str()) {
                    Some(f) => f,
                    None => {
                        proof {
                            assert(spec_elem_width(i.machine.layout@[k as int], i.fields@)
                                is Some);
                            assert(false);
                        }
                        unreached()
                    },
                };
                let mut s = span_field(name.as_str());
                s.append("!");
                (f.width, s)
            },
            MachineElement::OptionalFieldPresentTest { name } => {
                let mut s = span_field(name.as_str());
                s.append("?");
                (1, s)
            },
            MachineElement::OptionalFieldAbsentTest { name } => {
                let mut s = span_field(name.as_str());
                s.append("?!");
                (1, s)
            },
            MachineElement::Constant { name, width, value } => {
                let s: String = match value {
                    Some(v) => {
                        let mut s = name.clone();
                        s.append(" = ");
                        let d = u64_to_dec(*v);
                        s.append(d.as_str());
                        s
                    },
                    None => {
                        if crate::text::str_eq(name.as_str(), "_") {
                            proof {
                                reveal_strlit("_");
                                assert("_"@ =~= seq!['_']);
                            }
                            String::from_str("~")
                        } else {
                            proof {
                                reveal_strlit("_");
                                assert("_"@ =~= seq!['_']);
                            }
                            let mut s = name.clone();
                            s.append(" = 0");
                            s
                        }
                    },
                };
                (*width, s)
            },
        };
        proof {
            assert(label@ =~= spec_elem_label(i.machine.layout@[k as int]));
            assert(Some(w as int) == spec_elem_width(i.machine.layout@[k as int], i.fields@));
        }
        result.push((idx, w, label));
        idx = idx + w;
        k += 1;
    }
    result
}

/// The annotated text of one assembly element.
pub open spec fn spec_asm_piece(x: resolve::AssemblyElement) -> Seq<char> {
    match x {
        resolve::AssemblyElement::StringLiteral { value } => span_const_open() + "'"@ + value@
            + "'"@ + span_close(),
        resolve::AssemblyElement::NumberLiteral { value } => dec_digits(value as nat),
        resolve::AssemblyElement::OptionalFlag { name, field } => "["@ + span_const_open() + "'"@
            + name@ + "'"@ + span_close() + " = "@ + spec_span_field(field@) + "]"@,
        resolve::AssemblyElement::OptionalField { name, with_dot } => if with_dot {
            "[."@ + spec_span_field(name@) + "]"@
        } else {
            "["@ + spec_span_field(name@) + "]"@
        },
        resolve::AssemblyElement::Dot => "."@,
        resolve::AssemblyElement::Comma => ","@,
        resolve::AssemblyElement::Space => " "@,
        resolve::AssemblyElement::Field { name } => spec_span_field(name@),
    }
}

/// The annotated text of a whole syntax, before cleanup.
pub open spec fn spec_asm_raw(syntax: Seq<resolve::AssemblyElement>) -> Seq<char>
    decreases syntax.len(),
{
    if syntax.len() == 0 {
        Seq::empty()
    } else {
        spec_asm_raw(syntax.drop_last()) + spec_asm_piece(syntax.last())
    }
}

/// The text with every adjacent pair of quotes removed, left to right:
/// the seam left where two consecutive string literals meet.
pub open spec fn strip_quote_pairs(s: Seq<char>) -> Seq<char>
    decreases s.len(),
{
    if s.len() >= 2 && s[0] == '\'' && s[1] == '\'' {
        strip_quote_pairs(s.skip(2))
    } else if s.len() > 0 {
        seq![s[0]] + strip_quote_pairs(s.skip(1))
    } else {
        Seq::empty()
    }
}

/// The position after the last character that is not whitespace, looking
/// backward from `j`.
pub open spec fn rstrip_end(s: Seq<char>, j: int) -> int
    decreases j when 0 <= j <= s.len()
{
    if j <= 0 {
        0
    } else if is_ws(s[j - 1]) {
        rstrip_end(s, j - 1)
    } else {
        j
    }
}

/// The text with leading and trailing whitespace removed.
pub open spec fn spec_trim(s: Seq<char>) -> Seq<char> {
    let a = skip_ws_end(s, 0);
    let b = rstrip_end(s, s.len() as int);
    if a <= b {
        s.subrange(a, b)
    } else {
        Seq::empty()
    }
}

/// The position after the last character that is not whitespace.
fn rstrip_pos(s: &str) -> (r: usize)
    ensures
        r == rstrip_end(s@, s@.len() as int),
        r <= s@.len(),
{
    let n = s.unicode_len();
    let mut j = n;
    loop
        invariant
            0 <= j <= n,
            n == s@.len(),
            rstrip_end(s@, n as int) == rstrip_end(s@, j as int),
        decreases j,
    {
        if j > 0 && char_is_ws(s.get_char(j - 1)) {
            j -= 1;
        } else {
            return j;
        }
    }
}

/// The assembly syntax as one annotated string: each element's text in
/// order, quote seams between adjacent literals removed, and surrounding
/// whitespace trimmed.
pub fn assembly_string(a: &Assembly) -> (r: String)
    ensures
        r@ == spec_trim(strip_quote_pairs(spec_asm_raw(a.syntax@))),
{
    let n = a.syntax.len();
    let mut raw = String::new();
    let mut i: usize = 0;
    while i < n
        invariant
            0 <= i <= n,
            n == a.syntax@.len(),
            raw@ == spec_asm_raw(a.syntax@.subrange(0, i as int)),
        decreases n - i,
    {
        proof {
            reveal_strlit("'");
            reveal_strlit("[");
            reveal_strlit("]");
            reveal_strlit("[.");
            reveal_strlit(" = ");
        }
        let x = &a.syntax[i];
        match x {
            resolve::AssemblyElement::StringLiteral { value } => {
                raw.append("<span class=\"constant\">");
                raw.append("'");
                raw.append(value.as_str());
                raw.append("'");
                raw.append("</span>");
            },
            resolve::AssemblyElement::NumberLiteral { value } => {
                let d = u64_to_dec(*value);
                raw.append(d.as_str());
            },
            resolve::AssemblyElement::OptionalFlag { name, field } => {
                raw.append("[");
                raw.append("<span class=\"constant\">");
                raw.append("'");
                raw.append(name.as_str());
                raw.append("'");
                raw.append("</span>");
                raw.append(" = ");
                let f = span_field(field.as_str());
                raw.append(f.as_str());
                raw.append("]");
            },
            resolve::AssemblyElement::OptionalField { name, with_dot } => {
                if *with_dot {
                    raw.append("[.");
                } else {
                    raw.append("[");
                }
                let f = span_field(name.as_str());
                raw.append(f.as_str());
                raw.append("]");
            },
            resolve::AssemblyElement::Dot => {
                raw.append(".");
            },
            resolve::AssemblyElement::Comma => {
                raw.append(",");
            },
            resolve::AssemblyElement::Space => {
                raw.append(" ");
            },
            resolve::AssemblyElement::Field { name } => {
                let f = span_field(name.as_str());
                raw.append(f.as_str());
            },
        }
        proof {
            let pre = a.syntax@.subrange(0, i as int);
            let post = a.syntax@.subrange(0, i + 1);
            assert(post.drop_last() =~= pre);
            assert(post.last() == a.syntax@[i as int]);
            assert(raw@ =~= spec_asm_raw(post));
        }
        i += 1;
    }
    proof {
        assert(a.syntax@.subrange(0, n as int) =~= a.syntax@);
    }

    // Remove the quote seams between adjacent string literals.
    let m = raw.as_str().unicode_len();
    let mut stripped = String::new();
    proof {
        assert(raw@.skip(0) =~= raw@);
        assert(Seq::<char>::empty() + strip_quote_pairs(raw@) =~= strip_quote_pairs(raw@));
    }
    let mut j: usize = 0;
    while j < m
        invariant
            0 <= j <= m,
            m == raw@.len(),
            strip_quote_pairs(raw@) == stripped@ + strip_quote_pairs(raw@.skip(j as int)),
        decreases m - j,
    {
        let c = raw.as_str().get_char(j);
        if c == '\'' && j + 1 < m && raw.as_str().get_char(j + 1) == '\'' {
            proof {
                let t = raw@.skip(j as int);
                assert(t[0] == raw@[j as int] && t[1] == raw@[j + 1]);
                assert(t.skip(2) =~= raw@.skip(j + 2));
            }
            j += 2;
        } else {
            proof {
                let t = raw@.skip(j as int);
                assert(t[0] == raw@[j as int]);
                assert(t.skip(1) =~= raw@.skip(j + 1));
                if t.len() >= 2 && t[0] == '\'' && t[1] == '\'' {
                    assert(raw@[j + 1] == t[1]);
                    assert(false);
                }
            }
            let ghost pre_s = stripped@;
            push_char(&mut stripped, c);
            proof {
                assert(stripped@ + strip_quote_pairs(raw@.skip(j + 1)) =~= pre_s + (seq![
                    raw@[j as int],
                ] + strip_quote_pairs(raw@.skip(j + 1))));
            }
            j += 1;
        }
    }
    proof {
        assert(raw@.skip(m as int) =~= Seq::<char>::empty());
        assert(stripped@ + Seq::<char>::empty() =~= stripped@);
    }

    // Trim surrounding whitespace.
    let start = skip_ws(stripped.as_str(), 0);
    let endpos = rstrip_pos(stripped.as_str());
    proof {
        crate::text::lemma_skip_ws_end(stripped@, 0);
    }
    if start >= endpos {
        let r = String::new();
        proof {
            assert(r@ =~= spec_trim(stripped@));
        }
        r
    } else {
        let piece = stripped.as_str().substring_char(start, endpos);
        piece.to_owned()
    }
}

} // verus!
