//! Resolution of an abstract syntax tree into a concrete [`Spec`]: the
//! [`form_spec`] function validates the global instruction width, expands
//! every concrete instruction's base template with its positional
//! arguments substituted, and appends the instruction's own declarations
//! on top of the base-derived ones.

use crate::ast;
use crate::ast::spec_find_instruction;
use crate::text::str_eq;
use vstd::prelude::*;

verus! {

/// A semantic error found during resolution, naming the offending
/// instruction and element.
#[derive(Debug, PartialEq, Eq)]
pub enum ResolveError {
    /// No instruction-width characteristic was declared.
    MissingInstructionWidth,
    /// The declared instruction width exceeds 128 bits.
    WidthTooLarge { width: usize },
    /// A base reference names an instruction that does not exist.
    BaseNotFound { instruction: String, base: String },
    /// A generic-parameter reference has no bound argument.
    UnresolvedParameter { instruction: String, element: String },
    /// A textual argument was bound where a numeric value is required.
    NonNumericValue { instruction: String, element: String },
    /// An optional field value wraps another optional field value.
    NestedOptionalValue { instruction: String, element: String },
}

/// Concrete specification resolved from an abstract syntax tree.
#[derive(Debug)]
pub struct Spec {
    pub instruction_width: usize,
    pub instructions: Vec<Instruction>,
}

/// Concrete instruction: base instruction elements fully incorporated.
#[derive(Debug)]
pub struct Instruction {
    pub doc: String,
    pub name: String,
    pub timing: ast::Timing,
    pub fields: Vec<Field>,
    pub assembly: Assembly,
    pub machine: Machine,
}

/// A fully resolved field: any generic-parameter value replaced by the
/// bound numeric argument.
#[derive(Debug, PartialEq, Eq)]
pub struct Field {
    pub doc: String,
    pub name: String,
    pub width: usize,
    pub value: Option<u64>,
}

/// A fully resolved assembly description.
#[derive(Debug)]
pub struct Assembly {
    pub syntax: Vec<AssemblyElement>,
    pub example: Vec<ast::AssemblyExample>,
}

/// A fully resolved assembly element: generic expansions replaced by
/// literals.
#[derive(Debug, PartialEq, Eq)]
pub enum AssemblyElement {
    StringLiteral { value: String },
    NumberLiteral { value: u64 },
    OptionalFlag { name: String, field: String },
    OptionalField { name: String, with_dot: bool },
    Dot,
    Comma,
    Space,
    Field { name: String },
}

/// A fully resolved machine layout.
#[derive(Debug)]
pub struct Machine {
    pub layout: Vec<MachineElement>,
}

/// A fully resolved machine-layout element: any constant's
/// generic-parameter value replaced by the bound numeric argument.
#[derive(Debug, PartialEq, Eq)]
pub enum MachineElement {
    Field { name: String },
    FieldSlice { name: String, begin: usize, end: usize },
    FieldNegate { name: String },
    OptionalFieldPresentTest { name: String },
    OptionalFieldAbsentTest { name: String },
    Constant { name: String, width: usize, value: Option<u64> },
}

/// The parameter map: base parameter names bound, in declared order, to
/// the base reference's positional arguments.  A later binding of the
/// same name shadows an earlier one.
pub open spec fn spec_lookup(pm: Seq<(String, ast::BaseParameter)>, name: Seq<char>) -> Option<
    ast::BaseParameter,
>
    decreases pm.len(),
{
    if pm.len() == 0 {
        None
    } else if pm.last().0@ == name {
        Some(pm.last().1)
    } else {
        spec_lookup(pm.drop_last(), name)
    }
}

/// How one declared field value resolves under a parameter map.
pub enum Resolution {
    /// Resolves to this value.
    Value(Option<u64>),
    /// References a parameter with no bound argument.
    Unbound,
    /// A textual argument stands where a number is required.
    NonNumeric,
    /// An optional value wraps another optional value.
    Nested,
}

/// Resolve a field value under a parameter map: a numeric constant
/// stands; a generic parameter takes its bound argument, which must be
/// numeric; an optional value resolves by the same rules, one level deep.
pub open spec fn spec_field_value(
    v: Option<ast::FieldValue>,
    pm: Seq<(String, ast::BaseParameter)>,
) -> Resolution {
    match v {
        None => Resolution::Value(None),
        Some(fv) => spec_inner_value(fv, pm, true),
    }
}

/// Resolve one field-value node; `allow_opt` is spent by the optional
/// wrapper, so a nested optional is rejected.
pub open spec fn spec_inner_value(
    fv: ast::FieldValue,
    pm: Seq<(String, ast::BaseParameter)>,
    allow_opt: bool,
) -> Resolution
    decreases fv,
{
    match fv {
        ast::FieldValue::NumericConstant(n) => Resolution::Value(Some(n)),
        ast::FieldValue::GenericParameter(p) => match spec_lookup(pm, p@) {
            None => Resolution::Unbound,
            Some(ast::BaseParameter::Number(n)) => Resolution::Value(Some(n)),
            Some(ast::BaseParameter::Text(_)) => Resolution::NonNumeric,
        },
        ast::FieldValue::OptionalFieldValue(b) => if allow_opt {
            spec_inner_value(*b, pm, false)
        } else {
            Resolution::Nested
        },
    }
}

/// Whether `out` is the resolution of the declared field `f` under `pm`.
pub open spec fn field_matches(
    f: ast::Field,
    pm: Seq<(String, ast::BaseParameter)>,
    out: Field,
) -> bool {
    &&& out.doc@ == f.doc@
    &&& out.name@ == f.name@
    &&& out.width == f.width
    &&& spec_field_value(f.value, pm) == Resolution::Value(out.value)
}

/// Whether every field of `instr` resolves under `pm`.
pub open spec fn fields_ok(instr: ast::Instruction, pm: Seq<(String, ast::BaseParameter)>) -> bool {
    forall|i: int|
        0 <= i < instr.fields@.len() ==> (#[trigger] spec_field_value(
            instr.fields@[i].value,
            pm,
        )) matches Resolution::Value(_)
}

/// Look up the argument bound to `name`, preferring the latest binding.
fn pm_get<'a>(pm: &'a Vec<(String, ast::BaseParameter)>, name: &str) -> (r: Option<
    &'a ast::BaseParameter,
>)
    ensures
        match r {
            Some(bp) => spec_lookup(pm@, name@) == Some(*bp),
            None => spec_lookup(pm@, name@) is None,
        },
{
    let n = pm.len();
    proof {
        assert(pm@.subrange(0, pm@.len() as int) =~= pm@);
    }
    let mut k: usize = n;
    while k > 0
        invariant
            0 <= k <= n,
            n == pm@.len(),
            spec_lookup(pm@, name@) == spec_lookup(pm@.subrange(0, k as int), name@),
        decreases k,
    {
        k -= 1;
        let sub = &pm[k];
        if str_eq(sub.0.as_str(), name) {
            proof {
                let s = pm@.subrange(0, k + 1);
                assert(s.last() == pm@[k as int]);
            }
            return Some(&pm[k].1);
        }
        proof {
            let s = pm@.subrange(0, k + 1);
            assert(s.last() == pm@[k as int]);
            assert(s.drop_last() =~= pm@.subrange(0, k as int));
        }
    }
    proof {
        assert(pm@.subrange(0, 0) =~= Seq::<(String, ast::BaseParameter)>::empty());
    }
    None
}

impl Instruction {
    /// The first field with the given name, if any.
    pub(crate) fn get_field<'a>(&'a self, name: &str) -> (r: Option<&'a Field>)
        ensures
            match r {
                Some(f) => {
                    &&& spec_find_field(self.fields@, name@) matches Some(i) && *f
                        == self.fields@[i]
                },
                None => spec_find_field(self.fields@, name@) is None,
            },
    {
        proof {
            lemma_find_field(self.fields@, name@);
        }
        let n = self.fields.len();
        let mut k: usize = 0;
        while k < n
            invariant
                0 <= k <= n,
                n == self.fields@.len(),
                forall|j: int| 0 <= j < k ==> self.fields@[j].name@ != name@,
            decreases n - k,
        {
            if str_eq(self.fields[k].name.as_str(), name) {
                proof {
                    lemma_find_field(self.fields@, name@);
                }
                return Some(&self.fields[k]);
            }
            k += 1;
        }
        None
    }

    /// Bind the base's declared parameter names, in order, to the base
    /// reference's positional arguments; arguments are consumed in
    /// declared order and parameters beyond the supplied arguments stay
    /// unbound.
    fn parameter_map(base_instr: &ast::Instruction, base: &ast::Base) -> (r: Vec<
        (String, ast::BaseParameter),
    >)
        ensures
            r@.len() == min_len(base_instr.parameters@.len() as int, base.parameters@.len() as int),
            forall|i: int|
                0 <= i < r@.len() ==> (#[trigger] r@[i]).0 == base_instr.parameters@[i] && r@[i].1
                    == base.parameters@[i],
    {
        let mut m: Vec<(String, ast::BaseParameter)> = Vec::new();
        let n = if base_instr.parameters.len() <= base.parameters.len() {
            base_instr.parameters.len()
        } else {
            base.parameters.len()
        };
        let mut i: usize = 0;
        while i < n
            invariant
                0 <= i <= n,
                n == min_len(base_instr.parameters@.len() as int, base.parameters@.len() as int),
                m@.len() == i,
                forall|k: int|
                    0 <= k < i ==> (#[trigger] m@[k]).0 == base_instr.parameters@[k] && m@[k].1
                        == base.parameters@[k],
            decreases n - i,
        {
            m.push((base_instr.parameters[i].clone(), base.parameters[i].clone()));
            i += 1;
        }
        m
    }

    /// Apply the instruction's timing declaration, overriding any
    /// base-derived timing; absent, the previous timing stands.
    fn resolve_timing(
        &mut self,
        instr: &ast::Instruction,
        _pmap: &Vec<(String, ast::BaseParameter)>,
    ) -> (r: Result<(), ResolveError>)
        ensures
            r is Ok,
            final(self).timing == (match instr.timing {
                Some(t) => t,
                None => old(self).timing,
            }),
            final(self).doc == old(self).doc,
            final(self).name == old(self).name,
            final(self).fields == old(self).fields,
            final(self).assembly == old(self).assembly,
            final(self).machine == old(self).machine,
    {
        if let Some(t) = &instr.timing {
            self.timing = *t;
        }
        Ok(())
    }

    /// Resolve and append the instruction's declared fields: each keeps
    /// its documentation, name and width, and any generic-parameter value
    /// is replaced by its bound numeric argument.
    fn resolve_fields(
        &mut self,
        instr: &ast::Instruction,
        pmap: &Vec<(String, ast::BaseParameter)>,
    ) -> (r: Result<(), ResolveError>)
        ensures
            final(self).doc == old(self).doc,
            final(self).name == old(self).name,
            final(self).timing == old(self).timing,
            final(self).assembly == old(self).assembly,
            final(self).machine == old(self).machine,
            r is Ok <==> fields_ok(*instr, pmap@),
            r is Ok ==> {
                &&& final(self).fields@.len() == old(self).fields@.len() + instr.fields@.len()
                &&& forall|i: int|
                    0 <= i < old(self).fields@.len() ==> final(self).fields@[i] == old(
                        self,
                    ).fields@[i]
                &&& forall|i: int|
                    0 <= i < instr.fields@.len() ==> field_matches(
                        instr.fields@[i],
                        pmap@,
                        #[trigger] final(self).fields@[old(self).fields@.len() + i],
                    )
            },
            r matches Err(e) ==> {
                &&& (e is UnresolvedParameter || e is NonNumericValue || e is NestedOptionalValue)
                &&& exists|i: int|
                    0 <= i < instr.fields@.len() && !((#[trigger] spec_field_value(
                        instr.fields@[i].value,
                        pmap@,
                    )) matches Resolution::Value(_))
                &&& e matches ResolveError::UnresolvedParameter { instruction, element } ==> {
                    &&& instruction@ == instr.name@
                    &&& exists|i: int|
                        0 <= i < instr.fields@.len() && element@ == (
                        #[trigger] instr.fields@[i]).name@ && spec_field_value(
                            instr.fields@[i].value,
                            pmap@,
                        ) == Resolution::Unbound
                }
                &&& e matches ResolveError::NonNumericValue { instruction, element } ==> {
                    &&& instruction@ == instr.name@
                    &&& exists|i: int|
                        0 <= i < instr.fields@.len() && element@ == (
                        #[trigger] instr.fields@[i]).name@ && spec_field_value(
                            instr.fields@[i].value,
                            pmap@,
                        ) == Resolution::NonNumeric
                }
                &&& e matches ResolveError::NestedOptionalValue { instruction, element } ==> {
                    &&& instruction@ == instr.name@
                    &&& exists|i: int|
                        0 <= i < instr.fields@.len() && element@ == (
                        #[trigger] instr.fields@[i]).name@ && spec_field_value(
                            instr.fields@[i].value,
                            pmap@,
                        ) == Resolution::Nested
                }
            },
    {
        let n = instr.fields.len();
        let mut i: usize = 0;
        while i < n
            invariant
                0 <= i <= n,
                n == instr.fields@.len(),
                self.doc == old(self).doc,
                self.name == old(self).name,
                self.timing == old(self).timing,
                self.assembly == old(self).assembly,
                self.machine == old(self).machine,
                self.fields@.len() == old(self).fields@.len() + i,
                forall|k: int|
                    0 <= k < old(self).fields@.len() ==> self.fields@[k] == old(self).fields@[k],
                forall|k: int|
                    0 <= k < i ==> field_matches(
                        instr.fields@[k],
                        pmap@,
                        #[trigger] self.fields@[old(self).fields@.len() + k],
                    ),
                forall|k: int|
                    0 <= k < i ==> (#[trigger] spec_field_value(instr.fields@[k].value, pmap@))
                        matches Resolution::Value(_),
            decreases n - i,
        {
            let f = &instr.fields[i];
            let value: Option<u64> = match resolve_field_value(&f.value, pmap) {
                Ok(v) => v,
                Err(k) => {
                    return Err(
                        make_field_error(k, &instr.name, &f.name),
                    );
                },
            };
            let field = Field {
                doc: f.doc.clone(),
                name: f.name.clone(),
                width: f.width,
                value,
            };
            self.fields.push(field);
            i += 1;
        }
        Ok(())
    }

    /// Append the instruction's worked examples, then resolve and append
    /// its assembly elements: generic expansions become the literal of
    /// their bound argument, every other element carries over.
    fn resolve_assembly(
        &mut self,
        instr: &ast::Instruction,
        pmap: &Vec<(String, ast::BaseParameter)>,
    ) -> (r: Result<(), ResolveError>)
        ensures
            final(self).doc == old(self).doc,
            final(self).name == old(self).name,
            final(self).timing == old(self).timing,
            final(self).fields == old(self).fields,
            final(self).machine == old(self).machine,
            final(self).assembly.example@.len() == old(self).assembly.example@.len()
                + instr.assembly.example@.len(),
            forall|i: int|
                0 <= i < old(self).assembly.example@.len() ==> final(self).assembly.example@[i]
                    == old(self).assembly.example@[i],
            forall|i: int|
                0 <= i < instr.assembly.example@.len() ==> final(self).assembly.example@[old(
                    self,
                ).assembly.example@.len() + i] == #[trigger] instr.assembly.example@[i],
            r is Ok <==> asm_ok(*instr, pmap@),
            r is Ok ==> {
                &&& final(self).assembly.syntax@.len() == old(self).assembly.syntax@.len()
                    + instr.assembly.syntax@.len()
                &&& forall|i: int|
                    0 <= i < old(self).assembly.syntax@.len() ==> final(self).assembly.syntax@[i]
                        == old(self).assembly.syntax@[i]
                &&& forall|i: int|
                    0 <= i < instr.assembly.syntax@.len() ==> asm_elem_matches(
                        instr.assembly.syntax@[i],
                        pmap@,
                        #[trigger] final(self).assembly.syntax@[old(self).assembly.syntax@.len()
                            + i],
                    )
            },
            r matches Err(e) ==> e matches ResolveError::UnresolvedParameter {
                instruction,
                element,
            } && instruction@ == instr.name@ && exists|i: int|
                0 <= i < instr.assembly.syntax@.len() && ((#[trigger] instr.assembly.syntax@[i])
                    matches ast::AssemblyElement::Expansion { name } && element@ == name@
                    && spec_lookup(pmap@, name@) is None),
    {
        let ne = instr.assembly.example.len();
        let mut j: usize = 0;
        while j < ne
            invariant
                0 <= j <= ne,
                ne == instr.assembly.example@.len(),
                self.doc == old(self).doc,
                self.name == old(self).name,
                self.timing == old(self).timing,
                self.fields == old(self).fields,
                self.machine == old(self).machine,
                self.assembly.syntax == old(self).assembly.syntax,
                self.assembly.example@.len() == old(self).assembly.example@.len() + j,
                forall|i: int|
                    0 <= i < old(self).assembly.example@.len() ==> self.assembly.example@[i]
                        == old(self).assembly.example@[i],
                forall|i: int|
                    0 <= i < j ==> self.assembly.example@[old(self).assembly.example@.len() + i]
                        == #[trigger] instr.assembly.example@[i],
            decreases ne - j,
        {
            self.assembly.example.push(instr.assembly.example[j].clone());
            j += 1;
        }
        let n = instr.assembly.syntax.len();
        let mut i: usize = 0;
        while i < n
            invariant
                0 <= i <= n,
                n == instr.assembly.syntax@.len(),
                self.doc == old(self).doc,
                self.name == old(self).name,
                self.timing == old(self).timing,
                self.fields == old(self).fields,
                self.machine == old(self).machine,
                self.assembly.example@.len() == old(self).assembly.example@.len()
                    + instr.assembly.example@.len(),
                forall|k: int|
                    0 <= k < old(self).assembly.example@.len() ==> self.assembly.example@[k]
                        == old(self).assembly.example@[k],
                forall|k: int|
                    0 <= k < instr.assembly.example@.len() ==> self.assembly.example@[old(
                        self,
                    ).assembly.example@.len() + k] == #[trigger] instr.assembly.example@[k],
                self.assembly.syntax@.len() == old(self).assembly.syntax@.len() + i,
                forall|k: int|
                    0 <= k < old(self).assembly.syntax@.len() ==> self.assembly.syntax@[k] == old(
                        self,
                    ).assembly.syntax@[k],
                forall|k: int|
                    0 <= k < i ==> asm_elem_matches(
                        instr.assembly.syntax@[k],
                        pmap@,
                        #[trigger] self.assembly.syntax@[old(self).assembly.syntax@.len() + k],
                    ),
                forall|k: int|
                    0 <= k < i ==> asm_elem_ok(#[trigger] instr.assembly.syntax@[k], pmap@),
            decreases n - i,
        {
            let x = &instr.assembly.syntax[i];
            let out: AssemblyElement = match x {
                ast::AssemblyElement::StringLiteral { value } => AssemblyElement::StringLiteral {
                    value: value.clone(),
                },
                ast::AssemblyElement::NumberLiteral { value } => AssemblyElement::NumberLiteral {
                    value: *value,
                },
                ast::AssemblyElement::OptionalFlag { name, field } => AssemblyElement::OptionalFlag {
                    name: name.clone(),
                    field: field.clone(),
                },
                ast::AssemblyElement::OptionalField { name, with_dot } => AssemblyElement::OptionalField {
                    name: name.clone(),
                    with_dot: *with_dot,
                },
                ast::AssemblyElement::Dot => AssemblyElement::Dot,
                ast::AssemblyElement::Comma => AssemblyElement::Comma,
                ast::AssemblyElement::Space => AssemblyElement::Space,
                ast::AssemblyElement::Field { name } => AssemblyElement::Field {
                    name: name.clone(),
                },
                ast::AssemblyElement::Expansion { name } => match pm_get(pmap, name.as_str()) {
                    Some(ast::BaseParameter::Text(v)) => AssemblyElement::StringLiteral {
                        value: v.clone(),
                    },
                    Some(ast::BaseParameter::Number(v)) => AssemblyElement::NumberLiteral {
                        value: *v,
                    },
                    None => {
                        return Err(
                            ResolveError::UnresolvedParameter {
                                instruction: instr.name.clone(),
                                element: name.clone(),
                            },
                        );
                    },
                },
            };
            self.assembly.syntax.push(out);
            i += 1;
        }
        Ok(())
    }

    /// Resolve and append the instruction's machine-layout elements: a
    /// constant's generic-parameter value is replaced by its bound
    /// numeric argument, every other element carries over.
    fn resolve_machine(
        &mut self,
        instr: &ast::Instruction,
        pmap: &Vec<(String, ast::BaseParameter)>,
    ) -> (r: Result<(), ResolveError>)
        ensures
            final(self).doc == old(self).doc,
            final(self).name == old(self).name,
            final(self).timing == old(self).timing,
            final(self).fields == old(self).fields,
            final(self).assembly == old(self).assembly,
            r is Ok <==> mach_ok(*instr, pmap@),
            r is Ok ==> {
                &&& final(self).machine.layout@.len() == old(self).machine.layout@.len()
                    + instr.machine.layout@.len()
                &&& forall|i: int|
                    0 <= i < old(self).machine.layout@.len() ==> final(self).machine.layout@[i]
                        == old(self).machine.layout@[i]
                &&& forall|i: int|
                    0 <= i < instr.machine.layout@.len() ==> mach_elem_matches(
                        instr.machine.layout@[i],
                        pmap@,
                        #[trigger] final(self).machine.layout@[old(self).machine.layout@.len()
                            + i],
                    )
            },
            r matches Err(e) ==> {
                &&& (e is UnresolvedParameter || e is NonNumericValue)
                &&& exists|i: int|
                    0 <= i < instr.machine.layout@.len() && !((#[trigger] mach_elem_res(
                        instr.machine.layout@[i],
                        pmap@,
                    )) matches Resolution::Value(_))
                &&& e matches ResolveError::UnresolvedParameter { instruction, element } ==> {
                    &&& instruction@ == instr.name@
                    &&& exists|i: int|
                        0 <= i < instr.machine.layout@.len() && ((#[trigger] instr.machine.layout@[i])
                            matches ast::MachineElement::Constant { name, .. } && element@ == name@
                            && mach_elem_res(instr.machine.layout@[i], pmap@)
                            == Resolution::Unbound)
                }
                &&& e matches ResolveError::NonNumericValue { instruction, element } ==> {
                    &&& instruction@ == instr.name@
                    &&& exists|i: int|
                        0 <= i < instr.machine.layout@.len() && ((#[trigger] instr.machine.layout@[i])
                            matches ast::MachineElement::Constant {
                            value: Some(ast::MachineElementValue::GenericParameter(p)),
                            ..
                        } && element@ == p@ && mach_elem_res(instr.machine.layout@[i], pmap@)
                            == Resolution::NonNumeric)
                }
            },
    {
        let n = instr.machine.layout.len();
        let mut i: usize = 0;
        while i < n
            invariant
                0 <= i <= n,
                n == instr.machine.layout@.len(),
                self.doc == old(self).doc,
                self.name == old(self).name,
                self.timing == old(self).timing,
                self.fields == old(self).fields,
                self.assembly == old(self).assembly,
                self.machine.layout@.len() == old(self).machine.layout@.len() + i,
                forall|k: int|
                    0 <= k < old(self).machine.layout@.len() ==> self.machine.layout@[k] == old(
                        self,
                    ).machine.layout@[k],
                forall|k: int|
                    0 <= k < i ==> mach_elem_matches(
                        instr.machine.layout@[k],
                        pmap@,
                        #[trigger] self.machine.layout@[old(self).machine.layout@.len() + k],
                    ),
                forall|k: int|
                    0 <= k < i ==> (#[trigger] mach_elem_res(instr.machine.layout@[k], pmap@))
                        matches Resolution::Value(_),
            decreases n - i,
        {
            let x = &instr.machine.layout[i];
            let out: MachineElement = match x {
                ast::MachineElement::Field { name } => MachineElement::Field {
                    name: name.clone(),
                },
                ast::MachineElement::FieldNegate { name } => MachineElement::FieldNegate {
                    name: name.clone(),
                },
                ast::MachineElement::OptionalFieldPresentTest { name } => MachineElement::OptionalFieldPresentTest {
                    name: name.clone(),
                },
                ast::MachineElement::OptionalFieldAbsentTest { name } => MachineElement::OptionalFieldAbsentTest {
                    name: name.clone(),
                },
                ast::MachineElement::FieldSlice { name, begin, end } => MachineElement::FieldSlice {
                    name: name.clone(),
                    begin: *begin,
                    end: *end,
                },
                ast::MachineElement::Constant { name, width, value } => {
                    let v: Option<u64> = match value {
                        None => None,
                        Some(ast::MachineElementValue::NumericConstant(v)) => Some(*v),
                        Some(ast::MachineElementValue::GenericParameter(p)) => {
                            match pm_get(pmap, p.as_str()) {
                                Some(ast::BaseParameter::Number(n)) => Some(*n),
                                Some(ast::BaseParameter::Text(_)) => {
                                    proof {
                                        assert(mach_elem_res(
                                            instr.machine.layout@[i as int],
                                            pmap@,
                                        ) == Resolution::NonNumeric);
                                    }
                                    return Err(
                                        ResolveError::NonNumericValue {
                                            instruction: instr.name.clone(),
                                            element: p.clone(),
                                        },
                                    );
                                },
                                None => {
                                    proof {
                                        assert(mach_elem_res(
                                            instr.machine.layout@[i as int],
                                            pmap@,
                                        ) == Resolution::Unbound);
                                    }
                                    return Err(
                                        ResolveError::UnresolvedParameter {
                                            instruction: instr.name.clone(),
                                            element: name.clone(),
                                        },
                                    );
                                },
                            }
                        },
                    };
                    MachineElement::Constant { name: name.clone(), width: *width, value: v }
                },
            };
            self.machine.layout.push(out);
            i += 1;
        }
        Ok(())
    }
}

/// The smaller of two lengths.
pub open spec fn min_len(a: int, b: int) -> int {
    if a <= b {
        a
    } else {
        b
    }
}

/// The first field with the given name, if any.
pub open spec fn spec_find_field(s: Seq<Field>, name: Seq<char>) -> Option<int>
    decreases s.len(),
{
    if s.len() == 0 {
        None
    } else if s[0].name@ == name {
        Some(0)
    } else {
        match spec_find_field(s.drop_first(), name) {
            None => None,
            Some(i) => Some(i + 1),
        }
    }
}

/// The found field bears the name, stands first among those that do, and
/// absence means no field bears it.
pub proof fn lemma_find_field(s: Seq<Field>, name: Seq<char>)
    ensures
        match spec_find_field(s, name) {
            Some(i) => 0 <= i < s.len() && s[i].name@ == name && forall|j: int|
                0 <= j < i ==> s[j].name@ != name,
            None => forall|j: int| 0 <= j < s.len() ==> s[j].name@ != name,
        },
    decreases s.len(),
{
    if s.len() > 0 && s[0].name@ != name {
        let t = s.drop_first();
        lemma_find_field(t, name);
        match spec_find_field(s, name) {
            Some(i) => {
                assert(t[i - 1] == s[i]);
                assert forall|j: int| 0 <= j < i implies s[j].name@ != name by {
                    if j > 0 {
                        assert(t[j - 1] == s[j]);
                    }
                }
            },
            None => {
                assert forall|j: int| 0 <= j < s.len() implies s[j].name@ != name by {
                    if j > 0 {
                        assert(t[j - 1] == s[j]);
                    }
                }
            },
        }
    }
}

/// Whether an assembly element resolves under `pm`: only a generic
/// expansion can fail, when its parameter has no bound argument.
pub open spec fn asm_elem_ok(x: ast::AssemblyElement, pm: Seq<(String, ast::BaseParameter)>) -> bool {
    match x {
        ast::AssemblyElement::Expansion { name } => spec_lookup(pm, name@) is Some,
        _ => true,
    }
}

/// Whether every assembly element of `instr` resolves under `pm`.
pub open spec fn asm_ok(instr: ast::Instruction, pm: Seq<(String, ast::BaseParameter)>) -> bool {
    forall|i: int|
        0 <= i < instr.assembly.syntax@.len() ==> asm_elem_ok(
            #[trigger] instr.assembly.syntax@[i],
            pm,
        )
}

/// Whether `out` is the resolution of the assembly element `x` under
/// `pm`: an expansion becomes a string literal for a textual argument
/// and a number literal for a numeric one; everything else carries over.
pub open spec fn asm_elem_matches(
    x: ast::AssemblyElement,
    pm: Seq<(String, ast::BaseParameter)>,
    out: AssemblyElement,
) -> bool {
    match x {
        ast::AssemblyElement::Expansion { name } => match spec_lookup(pm, name@) {
            Some(ast::BaseParameter::Text(v)) => out matches AssemblyElement::StringLiteral {
                value,
            } && value@ == v@,
            Some(ast::BaseParameter::Number(n)) => out == (AssemblyElement::NumberLiteral {
                value: n,
            }),
            None => false,
        },
        ast::AssemblyElement::StringLiteral { value } => out
            matches AssemblyElement::StringLiteral { value: ov } && ov@ == value@,
        ast::AssemblyElement::NumberLiteral { value } => out == (AssemblyElement::NumberLiteral {
            value,
        }),
        ast::AssemblyElement::OptionalFlag { name, field } => out
            matches AssemblyElement::OptionalFlag { name: on, field: of } && on@ == name@ && of@
            == field@,
        ast::AssemblyElement::OptionalField { name, with_dot } => out
            matches AssemblyElement::OptionalField { name: on, with_dot: od } && on@ == name@
            && od == with_dot,
        ast::AssemblyElement::Dot => out == AssemblyElement::Dot,
        ast::AssemblyElement::Comma => out == AssemblyElement::Comma,
        ast::AssemblyElement::Space => out == AssemblyElement::Space,
        ast::AssemblyElement::Field { name } => out matches AssemblyElement::Field { name: on }
            && on@ == name@,
    }
}

/// How a machine-layout element resolves under `pm`: only a constant
/// with a generic-parameter value can fail.
pub open spec fn mach_elem_res(
    x: ast::MachineElement,
    pm: Seq<(String, ast::BaseParameter)>,
) -> Resolution {
    match x {
        ast::MachineElement::Constant { name, width, value } => match value {
            None => Resolution::Value(None),
            Some(ast::MachineElementValue::NumericConstant(v)) => Resolution::Value(Some(v)),
            Some(ast::MachineElementValue::GenericParameter(p)) => match spec_lookup(pm, p@) {
                None => Resolution::Unbound,
                Some(ast::BaseParameter::Number(n)) => Resolution::Value(Some(n)),
                Some(ast::BaseParameter::Text(_)) => Resolution::NonNumeric,
            },
        },
        _ => Resolution::Value(None),
    }
}

/// Whether every machine-layout element of `instr` resolves under `pm`.
pub open spec fn mach_ok(instr: ast::Instruction, pm: Seq<(String, ast::BaseParameter)>) -> bool {
    forall|i: int|
        0 <= i < instr.machine.layout@.len() ==> (#[trigger] mach_elem_res(
            instr.machine.layout@[i],
            pm,
        )) matches Resolution::Value(_)
}

/// Whether `out` is the resolution of the machine-layout element `x`
/// under `pm`.
pub open spec fn mach_elem_matches(
    x: ast::MachineElement,
    pm: Seq<(String, ast::BaseParameter)>,
    out: MachineElement,
) -> bool {
    match x {
        ast::MachineElement::Field { name } => out matches MachineElement::Field { name: on }
            && on@ == name@,
        ast::MachineElement::FieldSlice { name, begin, end } => out
            matches MachineElement::FieldSlice { name: on, begin: ob, end: oe } && on@ == name@
            && ob == begin && oe == end,
        ast::MachineElement::FieldNegate { name } => out matches MachineElement::FieldNegate {
            name: on,
        } && on@ == name@,
        ast::MachineElement::OptionalFieldPresentTest { name } => out
            matches MachineElement::OptionalFieldPresentTest { name: on } && on@ == name@,
        ast::MachineElement::OptionalFieldAbsentTest { name } => out
            matches MachineElement::OptionalFieldAbsentTest { name: on } && on@ == name@,
        ast::MachineElement::Constant { name, width, value } => out
            matches MachineElement::Constant { name: on, width: ow, value: ov } && on@ == name@
            && ow == width && mach_elem_res(x, pm) == Resolution::Value(ov),
    }
}

/// The parameter map induced by a base reference: the base's declared
/// parameter names bound, in order, to the reference's positional
/// arguments, as far as both run.
pub open spec fn pm_of(bi: ast::Instruction, b: ast::Base) -> Seq<(String, ast::BaseParameter)> {
    Seq::new(
        min_len(bi.parameters@.len() as int, b.parameters@.len() as int) as nat,
        |i: int| (bi.parameters@[i], b.parameters@[i]),
    )
}

/// The empty parameter map, under which a concrete instruction's own
/// declarations resolve.
pub open spec fn no_pm() -> Seq<(String, ast::BaseParameter)> {
    Seq::empty()
}

/// Whether every declaration of `instr` resolves under `pm`.
pub open spec fn parts_ok(instr: ast::Instruction, pm: Seq<(String, ast::BaseParameter)>) -> bool {
    fields_ok(instr, pm) && asm_ok(instr, pm) && mach_ok(instr, pm)
}

/// Whether the concrete instruction `instr` resolves against the
/// instruction list `instrs`: its base, if referenced, exists, the
/// base's declarations resolve under the induced parameter map, and the
/// instruction's own declarations resolve under the empty map.
pub open spec fn spec_instr_ok(instr: ast::Instruction, instrs: Seq<ast::Instruction>) -> bool {
    match instr.base {
        None => parts_ok(instr, no_pm()),
        Some(b) => match spec_find_instruction(instrs, b.name@) {
            None => false,
            Some(ib) => parts_ok(instrs[ib], pm_of(instrs[ib], b)) && parts_ok(instr, no_pm()),
        },
    }
}

/// Whether `out`'s lists hold, from `off` on, the resolution of `src`'s
/// declarations under `pm`.
pub open spec fn lists_match_at(
    src: ast::Instruction,
    pm: Seq<(String, ast::BaseParameter)>,
    out: Instruction,
    foff: int,
    aoff: int,
    eoff: int,
    moff: int,
) -> bool {
    &&& forall|i: int|
        0 <= i < src.fields@.len() ==> field_matches(
            src.fields@[i],
            pm,
            #[trigger] out.fields@[foff + i],
        )
    &&& forall|i: int|
        0 <= i < src.assembly.syntax@.len() ==> asm_elem_matches(
            src.assembly.syntax@[i],
            pm,
            #[trigger] out.assembly.syntax@[aoff + i],
        )
    &&& forall|i: int|
        0 <= i < src.assembly.example@.len() ==> #[trigger] out.assembly.example@[eoff + i]
            == src.assembly.example@[i]
    &&& forall|i: int|
        0 <= i < src.machine.layout@.len() ==> mach_elem_matches(
            src.machine.layout@[i],
            pm,
            #[trigger] out.machine.layout@[moff + i],
        )
}

/// Whether `out` is the full resolution of `instr` against `instrs`:
/// base-derived declarations first, the instruction's own appended after
/// them, timing overridden by the latest declaration.
pub open spec fn spec_instr_matches(
    instr: ast::Instruction,
    instrs: Seq<ast::Instruction>,
    out: Instruction,
) -> bool {
    &&& out.doc@ == instr.doc@
    &&& out.name@ == instr.name@
    &&& match instr.base {
        None => {
            &&& out.timing == (match instr.timing {
                Some(t) => t,
                None => ast::Timing::Cycle(0usize),
            })
            &&& out.fields@.len() == instr.fields@.len()
            &&& out.assembly.syntax@.len() == instr.assembly.syntax@.len()
            &&& out.assembly.example@.len() == instr.assembly.example@.len()
            &&& out.machine.layout@.len() == instr.machine.layout@.len()
            &&& lists_match_at(instr, no_pm(), out, 0, 0, 0, 0)
        },
        Some(b) => match spec_find_instruction(instrs, b.name@) {
            None => false,
            Some(ib) => {
                let bi = instrs[ib];
                let pm = pm_of(bi, b);
                &&& out.timing == (match instr.timing {
                    Some(t) => t,
                    None => match bi.timing {
                        Some(t) => t,
                        None => ast::Timing::Cycle(0usize),
                    },
                })
                &&& out.fields@.len() == bi.fields@.len() + instr.fields@.len()
                &&& out.assembly.syntax@.len() == bi.assembly.syntax@.len()
                    + instr.assembly.syntax@.len()
                &&& out.assembly.example@.len() == bi.assembly.example@.len()
                    + instr.assembly.example@.len()
                &&& out.machine.layout@.len() == bi.machine.layout@.len()
                    + instr.machine.layout@.len()
                &&& lists_match_at(bi, pm, out, 0, 0, 0, 0)
                &&& lists_match_at(
                    instr,
                    no_pm(),
                    out,
                    bi.fields@.len() as int,
                    bi.assembly.syntax@.len() as int,
                    bi.assembly.example@.len() as int,
                    bi.machine.layout@.len() as int,
                )
            },
        },
    }
}

impl Instruction {
    /// Resolve one concrete instruction against the tree: expand its
    /// base, if referenced, under the induced parameter map, then apply
    /// the instruction's own declarations on top.
    fn resolve(instr: &ast::Instruction, tree: &ast::Ast) -> (r: Result<Instruction, ResolveError>)
        ensures
            r is Ok <==> spec_instr_ok(*instr, tree.instructions@),
            r matches Ok(out) ==> spec_instr_matches(*instr, tree.instructions@, out),
            r matches Err(e) ==> {
                &&& (e is BaseNotFound || e is UnresolvedParameter || e is NonNumericValue
                    || e is NestedOptionalValue)
                &&& (e matches ResolveError::BaseNotFound { instruction, base }
                    ==> instruction@ == instr.name@ && (instr.base matches Some(b) && base@
                    == b.name@ && spec_find_instruction(tree.instructions@, b.name@) is None))
            },
            instr.base matches Some(b) ==> (spec_find_instruction(tree.instructions@, b.name@)
                is None ==> (r matches Err(e) && (e matches ResolveError::BaseNotFound {
                instruction,
                base,
            } && instruction@ == instr.name@ && base@ == b.name@))),
    {
        let mut result = Instruction {
            doc: instr.doc.clone(),
            name: instr.name.clone(),
            timing: ast::Timing::Cycle(0),
            fields: Vec::new(),
            assembly: Assembly { syntax: Vec::new(), example: Vec::new() },
            machine: Machine { layout: Vec::new() },
        };

        if let Some(base) = &instr.base {
            let base_instr = match tree.get_instruction(base.name.as_str()) {
                Some(x) => x,
                None => {
                    return Err(
                        ResolveError::BaseNotFound {
                            instruction: instr.name.clone(),
                            base: base.name.clone(),
                        },
                    );
                },
            };
            let pmap = Self::parameter_map(base_instr, base);
            proof {
                assert(pmap@ =~= pm_of(*base_instr, *base));
            }
            match result.resolve_timing(base_instr, &pmap) {
                Ok(()) => (),
                Err(e) => {
                    return Err(e);
                },
            }
            match result.resolve_fields(base_instr, &pmap) {
                Ok(()) => (),
                Err(e) => {
                    return Err(e);
                },
            }
            match result.resolve_assembly(base_instr, &pmap) {
                Ok(()) => (),
                Err(e) => {
                    return Err(e);
                },
            }
            match result.resolve_machine(base_instr, &pmap) {
                Ok(()) => (),
                Err(e) => {
                    return Err(e);
                },
            }
        }

        let empty: Vec<(String, ast::BaseParameter)> = Vec::new();
        proof {
            assert(empty@ =~= no_pm());
        }
        match result.resolve_timing(instr, &empty) {
            Ok(()) => (),
            Err(e) => {
                return Err(e);
            },
        }
        match result.resolve_fields(instr, &empty) {
            Ok(()) => (),
            Err(e) => {
                return Err(e);
            },
        }
        match result.resolve_assembly(instr, &empty) {
            Ok(()) => (),
            Err(e) => {
                return Err(e);
            },
        }
        match result.resolve_machine(instr, &empty) {
            Ok(()) => (),
            Err(e) => {
                return Err(e);
            },
        }

        Ok(result)
    }
}

/// The concrete (non-templated) instructions of a list, in order.
pub open spec fn spec_non_base(s: Seq<ast::Instruction>) -> Seq<ast::Instruction>
    decreases s.len(),
{
    if s.len() == 0 {
        Seq::empty()
    } else {
        let rest = spec_non_base(s.drop_last());
        if s.last().parameters@.len() == 0 {
            rest.push(s.last())
        } else {
            rest
        }
    }
}

/// Resolve the tree into a concrete specification: validate that exactly
/// the instruction-width characteristic is declared and within bounds,
/// then resolve every concrete instruction; templates are resolution
/// sources only and are not emitted.
pub fn form_spec(tree: &ast::Ast) -> (r: Result<Spec, ResolveError>)
    ensures
        r is Ok <==> {
            &&& tree.characteristics@.len() > 0
            &&& (match tree.characteristics@[0] {
                ast::Characteristic::InstructionWidth(w) => w <= 128,
            })
            &&& forall|i: int|
                0 <= i < tree.instructions@.len() && (#[trigger] tree.instructions@[i]).parameters@.len()
                    == 0 ==> spec_instr_ok(tree.instructions@[i], tree.instructions@)
        },
        r matches Ok(s) ==> {
            &&& (match tree.characteristics@[0] {
                ast::Characteristic::InstructionWidth(w) => s.instruction_width == w,
            })
            &&& s.instructions@.len() == spec_non_base(tree.instructions@).len()
            &&& forall|k: int|
                0 <= k < s.instructions@.len() ==> spec_instr_matches(
                    spec_non_base(tree.instructions@)[k],
                    tree.instructions@,
                    #[trigger] s.instructions@[k],
                )
        },
        r matches Err(e) ==> match e {
            ResolveError::MissingInstructionWidth => tree.characteristics@.len() == 0,
            ResolveError::WidthTooLarge { width } => tree.characteristics@.len() > 0
                && tree.characteristics@[0] == ast::Characteristic::InstructionWidth(width)
                && width > 128,
            _ => exists|i: int|
                0 <= i < tree.instructions@.len() && (#[trigger] tree.instructions@[i]).parameters@.len()
                    == 0 && !spec_instr_ok(tree.instructions@[i], tree.instructions@),
        },
{
    let instruction_width = match tree.instruction_width() {
        Some(w) => w,
        None => {
            return Err(ResolveError::MissingInstructionWidth);
        },
    };

    if instruction_width > 128 {
        return Err(ResolveError::WidthTooLarge { width: instruction_width });
    }

    let mut instructions: Vec<Instruction> = Vec::new();
    let n = tree.instructions.len();
    let mut i: usize = 0;
    while i < n
        invariant
            0 <= i <= n,
            n == tree.instructions@.len(),
            instructions@.len() == spec_non_base(tree.instructions@.subrange(0, i as int)).len(),
            forall|k: int|
                0 <= k < instructions@.len() ==> spec_instr_matches(
                    spec_non_base(tree.instructions@.subrange(0, i as int))[k],
                    tree.instructions@,
                    #[trigger] instructions@[k],
                ),
            forall|j: int|
                0 <= j < i && (#[trigger] tree.instructions@[j]).parameters@.len() == 0
                    ==> spec_instr_ok(tree.instructions@[j], tree.instructions@),
        decreases n - i,
    {
        let ast_instr = &tree.instructions[i];
        let ghost pre = tree.instructions@.subrange(0, i as int);
        let ghost post = tree.instructions@.subrange(0, i + 1);
        proof {
            assert(post.drop_last() =~= pre);
            assert(post.last() == tree.instructions@[i as int]);
        }
        if ast_instr.is_base() {
            i += 1;
            continue ;
        }
        let instr = match Instruction::resolve(ast_instr, tree) {
            Ok(x) => x,
            Err(e) => {
                proof {
                    assert(tree.instructions@[i as int].parameters@.len() == 0 && !spec_instr_ok(
                        tree.instructions@[i as int],
                        tree.instructions@,
                    ));
                }
                return Err(e);
            },
        };
        instructions.push(instr);
        i += 1;
    }
    proof {
        assert(tree.instructions@.subrange(0, n as int) =~= tree.instructions@);
    }
    Ok(Spec { instruction_width, instructions })
}

impl MachineElement {
    /// The name a layout element answers to: the field it places, or the
    /// constant's label.
    pub fn name(&self) -> (r: String)
        ensures
            r@ == (match *self {
                MachineElement::Field { name } => name@,
                MachineElement::FieldSlice { name, .. } => name@,
                MachineElement::FieldNegate { name } => name@,
                MachineElement::OptionalFieldPresentTest { name } => name@,
                MachineElement::OptionalFieldAbsentTest { name } => name@,
                MachineElement::Constant { name, .. } => name@,
            }),
    {
        match self {
            MachineElement::Field { name } => name.clone(),
            MachineElement::FieldSlice { name, begin: _, end: _ } => name.clone(),
            MachineElement::FieldNegate { name } => name.clone(),
            MachineElement::OptionalFieldPresentTest { name } => name.clone(),
            MachineElement::OptionalFieldAbsentTest { name } => name.clone(),
            MachineElement::Constant { name, width: _, value: _ } => name.clone(),
        }
    }
}

/// The kind of failure a field value's resolution can meet.
enum ValueErrKind {
    Unbound,
    NonNumeric,
    Nested,
}

/// Build the resolution error for a failed field value.
fn make_field_error(k: ValueErrKind, instruction: &String, element: &String) -> (r: ResolveError)
    ensures
        match k {
            ValueErrKind::Unbound => r matches ResolveError::UnresolvedParameter {
                instruction: ri,
                element: re,
            } && ri@ == instruction@ && re@ == element@,
            ValueErrKind::NonNumeric => r matches ResolveError::NonNumericValue {
                instruction: ri,
                element: re,
            } && ri@ == instruction@ && re@ == element@,
            ValueErrKind::Nested => r matches ResolveError::NestedOptionalValue {
                instruction: ri,
                element: re,
            } && ri@ == instruction@ && re@ == element@,
        },
{
    match k {
        ValueErrKind::Unbound => ResolveError::UnresolvedParameter {
            instruction: instruction.clone(),
            element: element.clone(),
        },
        ValueErrKind::NonNumeric => ResolveError::NonNumericValue {
            instruction: instruction.clone(),
            element: element.clone(),
        },
        ValueErrKind::Nested => ResolveError::NestedOptionalValue {
            instruction: instruction.clone(),
            element: element.clone(),
        },
    }
}

/// Resolve a declared field value under the parameter map.
fn resolve_field_value(
    v: &Option<ast::FieldValue>,
    pmap: &Vec<(String, ast::BaseParameter)>,
) -> (r: Result<Option<u64>, ValueErrKind>)
    ensures
        match r {
            Ok(value) => spec_field_value(*v, pmap@) == Resolution::Value(value),
            Err(k) => spec_field_value(*v, pmap@) == (match k {
                ValueErrKind::Unbound => Resolution::Unbound,
                ValueErrKind::NonNumeric => Resolution::NonNumeric,
                ValueErrKind::Nested => Resolution::Nested,
            }),
        },
{
    match v {
        None => Ok(None),
        Some(fv) => resolve_inner_value(fv, pmap, true),
    }
}

/// Resolve one field-value node; the optional wrapper may be entered
/// once.
fn resolve_inner_value(
    fv: &ast::FieldValue,
    pmap: &Vec<(String, ast::BaseParameter)>,
    allow_opt: bool,
) -> (r: Result<Option<u64>, ValueErrKind>)
    ensures
        match r {
            Ok(value) => spec_inner_value(*fv, pmap@, allow_opt) == Resolution::Value(value),
            Err(k) => spec_inner_value(*fv, pmap@, allow_opt) == (match k {
                ValueErrKind::Unbound => Resolution::Unbound,
                ValueErrKind::NonNumeric => Resolution::NonNumeric,
                ValueErrKind::Nested => Resolution::Nested,
            }),
        },
    decreases *fv,
{
    match fv {
        ast::FieldValue::NumericConstant(n) => Ok(Some(*n)),
        ast::FieldValue::GenericParameter(p) => match pm_get(pmap, p.as_str()) {
            None => Err(ValueErrKind::Unbound),
            Some(ast::BaseParameter::Number(n)) => Ok(Some(*n)),
            Some(ast::BaseParameter::Text(_)) => Err(ValueErrKind::NonNumeric),
        },
        ast::FieldValue::OptionalFieldValue(b) => {
            if allow_opt {
                resolve_inner_value(b, pmap, false)
            } else {
                Err(ValueErrKind::Nested)
            }
        },
    }
}

} // verus!
