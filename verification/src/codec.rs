//! Instruction codec types produced by the generator for the worked
//! example layouts, with their bit-packing, machine codec and assembly
//! codec verified against the layout they were generated from.

pub mod add;
pub mod add_field_opt;
pub mod binop;
pub mod slice_add;
