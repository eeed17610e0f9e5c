//! A small scripting-language toolchain: statements and expressions are
//! lowered by a bytecode compiler into a chunk of stack instructions, and a
//! virtual machine executes the chunk against a chain of nested scopes,
//! with user-defined functions spliced into the running program at their
//! call sites and native (host) functions reached by name through an
//! explicit hand-off.  The compiler's output and every machine step are
//! specified against a mathematical model of values, instructions and the
//! scope chain.

use vstd::prelude::*;

pub mod compiler;
pub mod error;
pub mod expr;
pub mod opcode;
pub mod render;
pub mod stmt;
pub mod token;
pub mod value;
pub mod vm;

verus! {

/// Greeting served at the root of the playground service.
pub fn index() -> (r: &'static str)
    ensures
        r@ == "Hello, world!"@,
{
    "Hello, world!"
}

} // verus!
