//! A gadget-discovery engine for return-, jump- and syscall-oriented
//! programming: it extracts the executable sections of an ELF, PE or raw
//! binary, disassembles each section at every byte offset, classifies tails
//! and heads, enumerates every well-formed gadget backward from each tail,
//! and deduplicates, filters and sorts what it found. Every step carries a
//! contract over the mathematical value of its data, and the laws module
//! states and proves the properties the search promises.

pub mod binary;
pub mod container;
pub mod decode;
pub mod disassembler;
pub mod error;
pub mod formatting;
pub mod gadgets;
pub mod instr;
pub mod laws;
pub mod pipeline;
pub mod ranges;
pub mod rules;
pub mod sections;
pub mod settings;
