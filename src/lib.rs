use vstd::prelude::*;

pub mod context;
pub mod error;
pub mod laws;
pub mod parser;
pub mod resolver;
pub mod segment_tree;
pub mod text;

pub use crate::context::{Context, DerivedContext};
pub use crate::error::{Error, Result};
pub use crate::parser::parse_template;
pub use crate::resolver::resolve_tree;
pub use crate::segment_tree::{Segment, SegmentTree};

verus! {

/// Parses `template_text` and renders it against `context`, appending the
/// output to `f`.
pub fn process_template<C: Context>(f: &mut String, template_text: &str, context: &C) -> (r: Result<()>)
    ensures
        match crate::parser::parse(template_text@) {
            Ok(t) => crate::resolver::wrote(r, crate::resolver::render(t, context.vars()), old(f)@, final(f)@),
            Err(e) => r is Err && r->Err_0@ == e && final(f)@ == old(f)@,
        },
{
    let parsed_tree = match parse_template(template_text) {
        Ok(t) => t,
        Err(e) => return Err(e),
    };
    resolve_tree(f, &parsed_tree, context)
}

} // verus!
