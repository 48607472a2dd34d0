use std::collections::HashMap;
use vstd::prelude::*;

verus! {

/// The integer type an enumeration is represented by in generated code.
#[derive(Debug, Clone, Copy, PartialEq, Eq, Structural)]
pub enum ReprKind {
    I32,
    U32,
}

impl ReprKind {
    /// The Rust type's name.
    pub fn rust_type(self) -> (r: &'static str)
        ensures
            r@ == match self {
                ReprKind::I32 => "i32"@,
                ReprKind::U32 => "u32"@,
            },
    {
        match self {
            ReprKind::I32 => "i32",
            ReprKind::U32 => "u32",
        }
    }
}

/// Settings for the generated code: representation types, variant names
/// and enumeration prefixes chosen by hand, each keyed by enumeration name.
#[derive(Debug, Clone)]
pub struct RenderConfig {
    pub repr_overrides: HashMap<String, ReprKind>,
    pub variant_name_overrides: HashMap<String, HashMap<String, String>>,
    pub enum_prefix_overrides: HashMap<String, String>,
}

impl Default for RenderConfig {
    /// No overrides.
    fn default() -> (r: RenderConfig)
        ensures
            r.repr_overrides@ == Map::<String, ReprKind>::empty(),
            r.variant_name_overrides@ == Map::<String, HashMap<String, String>>::empty(),
            r.enum_prefix_overrides@ == Map::<String, String>::empty(),
    {
        RenderConfig {
            repr_overrides: HashMap::new(),
            variant_name_overrides: HashMap::new(),
            enum_prefix_overrides: HashMap::new(),
        }
    }
}

} // verus!
