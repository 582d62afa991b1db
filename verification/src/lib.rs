//! Front end for a stack-based single-character-opcode language.
//!
//! Source files hold one method per line, each line a dense run of opcode
//! characters, followed by `;e <filename>` extend declarations, then
//! `;u <filename>` use declarations, then optional blank lines.  The crate
//! decodes the characters ([`parse::parse_source`]), loads every
//! transitively referenced file exactly once ([`resolve::Resolver`]), and
//! hands out memoized, execution-ready per-method operation lists
//! ([`enrich::Enricher`]).

use vstd::prelude::*;

pub mod enrich;
pub mod parse;
pub mod resolve;

pub use crate::parse::{Method, Program};
use crate::parse::parse_spec;

verus! {

/// Resolve the program rooted at `name`, loading every reachable file from
/// `files` — the in-memory stand-in for storage; callers that read real
/// storage drive a [`resolve::Resolver`] the same way.  Succeeds exactly
/// when every transitively referenced file is present and parses, and
/// returns the root program with its methods decoded; its extend/use lists
/// are left empty — referenced programs are looked up by filename in the
/// resolver's graph rather than linked in place.
pub fn parse(name: String, files: &resolve::FileSet) -> (r: Result<Program, resolve::ResolveError>)
    ensures
        r matches Ok(p) ==> {
            &&& files@.dom().contains(name@)
            &&& parse_spec(files@[name@]) matches Ok(pv) && parse::methods_view(p.methods@)
                == pv.methods
            &&& p.extends@.len() == 0
            &&& p.uses@.len() == 0
        },
        r is Ok <==> resolve::resolution_ok(files@, name@),
        r matches Err(resolve::ResolveError::Io { name: n }) ==> resolve::reachable(
            files@,
            name@,
            n@,
        ) && !files@.dom().contains(n@),
        r matches Err(resolve::ResolveError::Parse { name: n, error: e }) ==> {
            &&& resolve::reachable(files@, name@, n@)
            &&& files@.dom().contains(n@)
            &&& parse_spec(files@[n@]) == Err::<parse::ProgramView, parse::ParseError>(e)
        },
{
    resolve::parse(name, files)
}

} // verus!
