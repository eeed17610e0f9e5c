use vstd::prelude::*;
use crate::value::{val_view, Value, ValueV};

verus! {

/// One bytecode instruction.  Instructions operate on the operand stack of
/// the innermost scope; jump offsets are relative to the instruction's own
/// position.  `JumpIf`'s flag selects pop-and-jump (`true`) over
/// peek-and-jump (`false`).  `Range`'s flag says whether a step value was
/// compiled; `Return`'s whether a value is returned; `Iterable` carries the
/// element count of a list literal; `NativeCall` the argument count found at
/// the call site.
pub enum OpCode {
    Constant(Value),
    Store(String),
    Load(String),
    Add,
    Subtract,
    Multiply,
    Divide,
    Modulo,
    EqualEqual,
    NotEqual,
    Less,
    LessEqual,
    Greater,
    GreaterEqual,
    LogicalAnd,
    LogicalOr,
    LogicalNot,
    Negate,
    Jump(i128),
    JumpIf(i128, bool),
    Call(String),
    NativeCall(String, usize),
    Print,
    Range(bool),
    Scope,
    EndScope,
    EndFn,
    Return(bool),
    For,
    FnDef,
    Iterable(usize),
    Eof,
}

/// The mathematical model of an instruction: names become character
/// sequences and constants become value models.
#[verifier::ext_equal]
pub enum OpCodeV {
    Constant(ValueV),
    Store(Seq<char>),
    Load(Seq<char>),
    Add,
    Subtract,
    Multiply,
    Divide,
    Modulo,
    EqualEqual,
    NotEqual,
    Less,
    LessEqual,
    Greater,
    GreaterEqual,
    LogicalAnd,
    LogicalOr,
    LogicalNot,
    Negate,
    Jump(i128),
    JumpIf(i128, bool),
    Call(Seq<char>),
    NativeCall(Seq<char>, usize),
    Print,
    Range(bool),
    Scope,
    EndScope,
    EndFn,
    Return(bool),
    For,
    FnDef,
    Iterable(usize),
    Eof,
}

/// Model of a single instruction.
pub open spec fn op_view(op: OpCode) -> OpCodeV {
    match op {
        OpCode::Constant(v) => OpCodeV::Constant(val_view(v)),
        OpCode::Store(n) => OpCodeV::Store(n@),
        OpCode::Load(n) => OpCodeV::Load(n@),
        OpCode::Add => OpCodeV::Add,
        OpCode::Subtract => OpCodeV::Subtract,
        OpCode::Multiply => OpCodeV::Multiply,
        OpCode::Divide => OpCodeV::Divide,
        OpCode::Modulo => OpCodeV::Modulo,
        OpCode::EqualEqual => OpCodeV::EqualEqual,
        OpCode::NotEqual => OpCodeV::NotEqual,
        OpCode::Less => OpCodeV::Less,
        OpCode::LessEqual => OpCodeV::LessEqual,
        OpCode::Greater => OpCodeV::Greater,
        OpCode::GreaterEqual => OpCodeV::GreaterEqual,
        OpCode::LogicalAnd => OpCodeV::LogicalAnd,
        OpCode::LogicalOr => OpCodeV::LogicalOr,
        OpCode::LogicalNot => OpCodeV::LogicalNot,
        OpCode::Negate => OpCodeV::Negate,
        OpCode::Jump(x) => OpCodeV::Jump(x),
        OpCode::JumpIf(x, pops) => OpCodeV::JumpIf(x, pops),
        OpCode::Call(n) => OpCodeV::Call(n@),
        OpCode::NativeCall(n, c) => OpCodeV::NativeCall(n@, c),
        OpCode::Print => OpCodeV::Print,
        OpCode::Range(s) => OpCodeV::Range(s),
        OpCode::Scope => OpCodeV::Scope,
        OpCode::EndScope => OpCodeV::EndScope,
        OpCode::EndFn => OpCodeV::EndFn,
        OpCode::Return(h) => OpCodeV::Return(h),
        OpCode::For => OpCodeV::For,
        OpCode::FnDef => OpCodeV::FnDef,
        OpCode::Iterable(n) => OpCodeV::Iterable(n),
        OpCode::Eof => OpCodeV::Eof,
    }
}

/// Model of an instruction sequence, element for element.
pub open spec fn ops_view(s: Seq<OpCode>) -> Seq<OpCodeV> {
    Seq::new(s.len(), |i: int| op_view(s[i]))
}

/// `true` or `false`, as a listing shows a flag.
pub open spec fn flag_str(b: bool) -> Seq<char> {
    if b {
        "true"@
    } else {
        "false"@
    }
}

/// How one instruction reads in a listing: its name, then its payload -
/// a constant rendered as print would render it, a name as itself, an
/// offset or count in decimal, a flag as a word.
pub open spec fn op_listing(op: OpCodeV) -> Seq<char> {
    match op {
        OpCodeV::Constant(v) => "Constant "@ + crate::render::render_view(v),
        OpCodeV::Store(n) => "Store "@ + n,
        OpCodeV::Load(n) => "Load "@ + n,
        OpCodeV::Add => "Add"@,
        OpCodeV::Subtract => "Subtract"@,
        OpCodeV::Multiply => "Multiply"@,
        OpCodeV::Divide => "Divide"@,
        OpCodeV::Modulo => "Modulo"@,
        OpCodeV::EqualEqual => "EqualEqual"@,
        OpCodeV::NotEqual => "NotEqual"@,
        OpCodeV::Less => "Less"@,
        OpCodeV::LessEqual => "LessEqual"@,
        OpCodeV::Greater => "Greater"@,
        OpCodeV::GreaterEqual => "GreaterEqual"@,
        OpCodeV::LogicalAnd => "LogicalAnd"@,
        OpCodeV::LogicalOr => "LogicalOr"@,
        OpCodeV::LogicalNot => "LogicalNot"@,
        OpCodeV::Negate => "Negate"@,
        OpCodeV::Jump(x) => "Jump "@ + crate::render::int_str(x as int),
        OpCodeV::JumpIf(x, pops) => "JumpIf "@ + crate::render::int_str(x as int) + " "@
            + flag_str(pops),
        OpCodeV::Call(n) => "Call "@ + n,
        OpCodeV::NativeCall(n, c) => "NativeCall "@ + n + " "@ + crate::render::dec_u(c as nat),
        OpCodeV::Print => "Print"@,
        OpCodeV::Range(b) => "Range "@ + flag_str(b),
        OpCodeV::Scope => "Scope"@,
        OpCodeV::EndScope => "EndScope"@,
        OpCodeV::EndFn => "EndFn"@,
        OpCodeV::Return(b) => "Return "@ + flag_str(b),
        OpCodeV::For => "For"@,
        OpCodeV::FnDef => "FnDef"@,
        OpCodeV::Iterable(n) => "Iterable "@ + crate::render::dec_u(n as nat),
        OpCodeV::Eof => "Eof"@,
    }
}

/// A flag as a listing word.
fn flag_string(b: bool) -> (r: &'static str)
    ensures
        r@ == flag_str(b),
{
    if b {
        "true"
    } else {
        "false"
    }
}

impl OpCode {
    /// One listing line for the instruction.
    pub fn listing(&self) -> (r: String)
        ensures
            r@ == op_listing(op_view(*self)),
    {
        match self {
            OpCode::Constant(v) => {
                let mut out = String::from_str("Constant ");
                let piece = crate::render::render_value(v);
                out.append(piece.as_str());
                proof {
                    assert(out@ =~= op_listing(op_view(*self)));
                }
                out
            }
            OpCode::Store(n) => {
                let mut out = String::from_str("Store ");
                out.append(n.as_str());
                proof {
                    assert(out@ =~= op_listing(op_view(*self)));
                }
                out
            }
            OpCode::Load(n) => {
                let mut out = String::from_str("Load ");
                out.append(n.as_str());
                proof {
                    assert(out@ =~= op_listing(op_view(*self)));
                }
                out
            }
            OpCode::Add => String::from_str("Add"),
            OpCode::Subtract => String::from_str("Subtract"),
            OpCode::Multiply => String::from_str("Multiply"),
            OpCode::Divide => String::from_str("Divide"),
            OpCode::Modulo => String::from_str("Modulo"),
            OpCode::EqualEqual => String::from_str("EqualEqual"),
            OpCode::NotEqual => String::from_str("NotEqual"),
            OpCode::Less => String::from_str("Less"),
            OpCode::LessEqual => String::from_str("LessEqual"),
            OpCode::Greater => String::from_str("Greater"),
            OpCode::GreaterEqual => String::from_str("GreaterEqual"),
            OpCode::LogicalAnd => String::from_str("LogicalAnd"),
            OpCode::LogicalOr => String::from_str("LogicalOr"),
            OpCode::LogicalNot => String::from_str("LogicalNot"),
            OpCode::Negate => String::from_str("Negate"),
            OpCode::Jump(x) => {
                let mut out = String::from_str("Jump ");
                let digits = crate::render::i128_to_string(*x);
                out.append(digits.as_str());
                proof {
                    assert(out@ =~= op_listing(op_view(*self)));
                }
                out
            }
            OpCode::JumpIf(x, pops) => {
                let mut out = String::from_str("JumpIf ");
                let digits = crate::render::i128_to_string(*x);
                out.append(digits.as_str());
                out.append(" ");
                out.append(flag_string(*pops));
                proof {
                    assert(out@ =~= op_listing(op_view(*self)));
                }
                out
            }
            OpCode::Call(n) => {
                let mut out = String::from_str("Call ");
                out.append(n.as_str());
                proof {
                    assert(out@ =~= op_listing(op_view(*self)));
                }
                out
            }
            OpCode::NativeCall(n, c) => {
                let mut out = String::from_str("NativeCall ");
                out.append(n.as_str());
                out.append(" ");
                let digits = crate::render::dec_u64(*c as u64);
                out.append(digits.as_str());
                proof {
                    assert((*c) as u64 as nat == (*c) as nat);
                    assert(out@ =~= op_listing(op_view(*self)));
                }
                out
            }
            OpCode::Print => String::from_str("Print"),
            OpCode::Range(b) => {
                let mut out = String::from_str("Range ");
                out.append(flag_string(*b));
                proof {
                    assert(out@ =~= op_listing(op_view(*self)));
                }
                out
            }
            OpCode::Scope => String::from_str("Scope"),
            OpCode::EndScope => String::from_str("EndScope"),
            OpCode::EndFn => String::from_str("EndFn"),
            OpCode::Return(b) => {
                let mut out = String::from_str("Return ");
                out.append(flag_string(*b));
                proof {
                    assert(out@ =~= op_listing(op_view(*self)));
                }
                out
            }
            OpCode::For => String::from_str("For"),
            OpCode::FnDef => String::from_str("FnDef"),
            OpCode::Iterable(n) => {
                let mut out = String::from_str("Iterable ");
                let digits = crate::render::dec_u64(*n as u64);
                out.append(digits.as_str());
                proof {
                    assert((*n) as u64 as nat == (*n) as nat);
                    assert(out@ =~= op_listing(op_view(*self)));
                }
                out
            }
            OpCode::Eof => String::from_str("Eof"),
        }
    }

    /// Copy of the instruction with the same model.
    pub fn duplicate(&self) -> (r: OpCode)
        ensures
            op_view(r) == op_view(*self),
    {
        match self {
            OpCode::Constant(v) => OpCode::Constant(v.duplicate()),
            OpCode::Store(n) => OpCode::Store(n.clone()),
            OpCode::Load(n) => OpCode::Load(n.clone()),
            OpCode::Add => OpCode::Add,
            OpCode::Subtract => OpCode::Subtract,
            OpCode::Multiply => OpCode::Multiply,
            OpCode::Divide => OpCode::Divide,
            OpCode::Modulo => OpCode::Modulo,
            OpCode::EqualEqual => OpCode::EqualEqual,
            OpCode::NotEqual => OpCode::NotEqual,
            OpCode::Less => OpCode::Less,
            OpCode::LessEqual => OpCode::LessEqual,
            OpCode::Greater => OpCode::Greater,
            OpCode::GreaterEqual => OpCode::GreaterEqual,
            OpCode::LogicalAnd => OpCode::LogicalAnd,
            OpCode::LogicalOr => OpCode::LogicalOr,
            OpCode::LogicalNot => OpCode::LogicalNot,
            OpCode::Negate => OpCode::Negate,
            OpCode::Jump(x) => OpCode::Jump(*x),
            OpCode::JumpIf(x, pops) => OpCode::JumpIf(*x, *pops),
            OpCode::Call(n) => OpCode::Call(n.clone()),
            OpCode::NativeCall(n, c) => OpCode::NativeCall(n.clone(), *c),
            OpCode::Print => OpCode::Print,
            OpCode::Range(s) => OpCode::Range(*s),
            OpCode::Scope => OpCode::Scope,
            OpCode::EndScope => OpCode::EndScope,
            OpCode::EndFn => OpCode::EndFn,
            OpCode::Return(h) => OpCode::Return(*h),
            OpCode::For => OpCode::For,
            OpCode::FnDef => OpCode::FnDef,
            OpCode::Iterable(n) => OpCode::Iterable(*n),
            OpCode::Eof => OpCode::Eof,
        }
    }
}

} // verus!
