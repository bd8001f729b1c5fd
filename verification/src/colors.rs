//! Display-support classification of opcodes: the highlight color a front
//! end paints each opcode with, by the opcode's category.

use vstd::prelude::*;
use crate::graphics::Rgb;

verus! {

/// The highlight color of opcode `op`: digits, stack/arithmetic operators,
/// direction changes, grid modification, input/output, and graphics opcodes
/// each share a color; the halt opcode and anything unrecognized have none.
pub open spec fn color_of_op(op: u8) -> Option<Rgb> {
    if 48 <= op <= 57 {
        Some(Rgb { r: 32, g: 159, b: 181 })
    } else if op == 43 || op == 45 || op == 42 || op == 47 || op == 37 || op == 96 || op == 34
        || op == 92 || op == 33 || op == 58 || op == 36 {
        Some(Rgb { r: 210, g: 15, b: 57 })
    } else if op == 62 || op == 60 || op == 94 || op == 118 || op == 35 || op == 63 || op == 95
        || op == 124 {
        Some(Rgb { r: 64, g: 160, b: 43 })
    } else if op == 112 || op == 103 {
        Some(Rgb { r: 136, g: 57, b: 239 })
    } else if op == 38 || op == 126 || op == 46 || op == 44 {
        Some(Rgb { r: 234, g: 118, b: 203 })
    } else if op == 115 || op == 102 || op == 120 || op == 99 || op == 117 || op == 108 || op
        == 122 {
        Some(Rgb { r: 114, g: 135, b: 253 })
    } else {
        None
    }
}

/// The highlight color of opcode `op`, if its category has one.
pub fn get_color_of_bf_op(op: u8) -> (r: Option<Rgb>)
    ensures
        r == color_of_op(op),
{
    if 48 <= op && op <= 57 {
        Some(Rgb { r: 32, g: 159, b: 181 })
    } else if op == 43 || op == 45 || op == 42 || op == 47 || op == 37 || op == 96 || op == 34
        || op == 92 || op == 33 || op == 58 || op == 36 {
        Some(Rgb { r: 210, g: 15, b: 57 })
    } else if op == 62 || op == 60 || op == 94 || op == 118 || op == 35 || op == 63 || op == 95
        || op == 124 {
        Some(Rgb { r: 64, g: 160, b: 43 })
    } else if op == 112 || op == 103 {
        Some(Rgb { r: 136, g: 57, b: 239 })
    } else if op == 38 || op == 126 || op == 46 || op == 44 {
        Some(Rgb { r: 234, g: 118, b: 203 })
    } else if op == 115 || op == 102 || op == 120 || op == 99 || op == 117 || op == 108 || op
        == 122 {
        Some(Rgb { r: 114, g: 135, b: 253 })
    } else {
        None
    }
}

} // verus!
