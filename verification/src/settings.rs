use vstd::prelude::*;

verus! {

/// The knobs of a gadget search: which tail categories are enabled, whether
/// the noisy relaxation is on, which gadget-level property filters apply, the
/// instruction-count bound, and whether duplicate gadget bodies are folded.
#[derive(Clone, Copy, Debug, PartialEq, Eq, Structural)]
pub struct Settings {
    pub noisy: bool,
    pub rop: bool,
    pub sys: bool,
    pub jop: bool,
    pub stack_pivot: bool,
    pub base_pivot: bool,
    pub max_instructions: usize,
    pub uniq: bool,
}

impl Default for Settings {
    /// The default search: all tail categories, quiet mode, no property
    /// filters, at most 6 instructions, duplicates folded.
    fn default() -> (r: Settings)
        ensures
            r == (Settings {
                noisy: false,
                rop: true,
                sys: true,
                jop: true,
                stack_pivot: false,
                base_pivot: false,
                max_instructions: 6,
                uniq: true,
            }),
    {
        Settings {
            noisy: false,
            rop: true,
            sys: true,
            jop: true,
            stack_pivot: false,
            base_pivot: false,
            max_instructions: 6,
            uniq: true,
        }
    }
}

} // verus!
