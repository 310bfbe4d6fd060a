//! A toolchain for the LunaCore 16-bit register machine: an assembler that
//! turns source text into little-endian 16-bit words, and a cycle-level
//! emulator that executes them.

pub mod binary;
pub mod bits;
pub mod compiler;
pub mod components;
pub mod cpu;
pub mod debugger;
pub mod disasm;
pub mod instructions;
pub mod labels;
pub mod parser;
pub mod text;
