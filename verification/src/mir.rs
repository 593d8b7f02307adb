//! The mid-level IR: programs, functions and instructions.
use vstd::prelude::*;

verus! {

/// A source range of the item that a function was lowered from.
#[derive(Clone, Copy, Debug, PartialEq, Eq, Structural)]
pub struct Span {
    pub start: u32,
    pub end: u32,
}

/// A whole lowered program.
#[derive(Debug)]
pub struct Program {
    pub enums: Vec<EnumType>,
    pub structs: Vec<StructType>,
    pub functions: Vec<Function>,
    pub externs: Vec<ExternFunction>,
}

/// A function provided by the host and declared to the emitted code.
#[derive(Clone, Debug)]
pub struct ExternFunction {
    pub name: String,
    pub params: Vec<Param>,
    pub return_type: Option<String>,
}

#[derive(Clone, Debug)]
pub struct EnumType {
    pub name: String,
    pub variants: Vec<EnumVariantType>,
}

#[derive(Clone, Debug)]
pub struct EnumVariantType {
    pub name: String,
    pub payload_type: Option<String>,
}

#[derive(Clone, Debug)]
pub struct StructType {
    pub name: String,
    pub fields: Vec<StructField>,
}

#[derive(Clone, Debug)]
pub struct StructField {
    pub name: String,
    pub ty: String,
}

/// A lowered function. `value_count` bounds the value ids and `slot_count`
/// the local slot ids that its instructions use.
#[derive(Debug)]
pub struct Function {
    pub name: String,
    pub params: Vec<Param>,
    pub return_type: Option<String>,
    pub effects: Vec<String>,
    pub mutable_locals: Vec<MutableLocal>,
    pub instructions: Vec<Inst>,
    pub result: Option<ValueId>,
    pub span: Span,
    pub value_count: u32,
    pub slot_count: u32,
}

/// The kind of value that a backend gives to an IR value.
#[derive(Debug, PartialEq, Eq)]
pub enum CodegenValueKind {
    Unit,
    I32,
    F64,
    Bool,
    Text,
    TextBuilder,
    List(Box<CodegenValueKind>),
    Enum(String),
    Record(String),
    Bytes,
    TextIndex,
    File,
}

#[derive(Clone, Copy, Debug, PartialEq, Eq, Structural)]
pub enum ContractKind {
    Requires,
    Ensures,
    Bounds,
}

#[derive(Clone, Debug)]
pub struct Param {
    pub name: String,
    pub ty: String,
}

#[derive(Clone, Debug)]
pub struct MutableLocal {
    pub slot: LocalSlotId,
    pub name: String,
    pub ty: String,
    pub mutable: bool,
}

/// The id of an SSA-like value within one function.
#[derive(Clone, Copy, Debug, PartialEq, Eq, PartialOrd, Ord, Hash, Structural)]
pub struct ValueId(pub u32);

/// The id of a mutable local slot within one function.
#[derive(Clone, Copy, Debug, PartialEq, Eq, PartialOrd, Ord, Hash, Structural)]
pub struct LocalSlotId(pub u32);

#[derive(Debug)]
pub struct HandleArm {
    pub effect: String,
    pub operation: String,
    pub params: Vec<String>,
    pub body_insts: Vec<Inst>,
    pub body_result: Option<ValueId>,
}

#[derive(Debug)]
pub enum Inst {
    TextBuilderNew { dest: ValueId },
    TextBuilderAppend { dest: ValueId, builder: ValueId, text: ValueId },
    TextBuilderAppendCodepoint { dest: ValueId, builder: ValueId, codepoint: ValueId },
    TextBuilderFinish { dest: ValueId, builder: ValueId },
    ListNew { dest: ValueId, len: ValueId, value: ValueId },
    ListLen { dest: ValueId, list: ValueId },
    ListGet { dest: ValueId, list: ValueId, index: ValueId },
    ListSet { dest: ValueId, list: ValueId, index: ValueId, value: ValueId },
    F64FromI32 { dest: ValueId, value: ValueId },
    TextLen { dest: ValueId, text: ValueId },
    TextConcat { dest: ValueId, left: ValueId, right: ValueId },
    TextSlice { dest: ValueId, text: ValueId, start: ValueId, end: ValueId },
    TextByte { dest: ValueId, text: ValueId, index: ValueId },
    TextCmp { dest: ValueId, left: ValueId, right: ValueId },
    TextEqRange { dest: ValueId, source: ValueId, start: ValueId, end: ValueId, expected: ValueId },
    TextFindByteRange { dest: ValueId, source: ValueId, start: ValueId, end: ValueId, byte: ValueId },
    TextFromF64Fixed { dest: ValueId, value: ValueId, digits: ValueId },
    ArgCount { dest: ValueId },
    AllocPush,
    AllocPop,
    ArgText { dest: ValueId, index: ValueId },
    StdinText { dest: ValueId },
    StdoutWrite { text: ValueId },
    ParseI32 { dest: ValueId, text: ValueId },
    ParseI32Range { dest: ValueId, text: ValueId, start: ValueId, end: ValueId },
    ParseF64 { dest: ValueId, text: ValueId },
    LoadParam { dest: ValueId, index: usize },
    LoadLocal { dest: ValueId, slot: LocalSlotId },
    StoreLocal { slot: LocalSlotId, src: ValueId },
    ConstInt { dest: ValueId, value: i64 },
    ConstF64 { dest: ValueId, bits: u64 },
    ConstBool { dest: ValueId, value: bool },
    ConstText { dest: ValueId, value: String },
    MakeEnum { dest: ValueId, name: String, variant: String, payload: Option<ValueId> },
    MakeRecord { dest: ValueId, name: String, fields: Vec<(String, ValueId)> },
    Field { dest: ValueId, base: ValueId, name: String },
    EnumTagEq { dest: ValueId, value: ValueId, tag: i64 },
    EnumPayload { dest: ValueId, value: ValueId, payload_type: String },
    If {
        dest: ValueId,
        condition: ValueId,
        then_insts: Vec<Inst>,
        then_result: Option<ValueId>,
        else_insts: Vec<Inst>,
        else_result: Option<ValueId>,
    },
    While { dest: ValueId, condition_insts: Vec<Inst>, condition: ValueId, body_insts: Vec<Inst> },
    Repeat {
        dest: ValueId,
        count: ValueId,
        index_slot: Option<LocalSlotId>,
        body_insts: Vec<Inst>,
    },
    Add { dest: ValueId, left: ValueId, right: ValueId },
    Sub { dest: ValueId, left: ValueId, right: ValueId },
    Mul { dest: ValueId, left: ValueId, right: ValueId },
    Div { dest: ValueId, left: ValueId, right: ValueId },
    Sqrt { dest: ValueId, value: ValueId },
    And { dest: ValueId, left: ValueId, right: ValueId },
    Or { dest: ValueId, left: ValueId, right: ValueId },
    Eq { dest: ValueId, left: ValueId, right: ValueId },
    Ne { dest: ValueId, left: ValueId, right: ValueId },
    Lt { dest: ValueId, left: ValueId, right: ValueId },
    Le { dest: ValueId, left: ValueId, right: ValueId },
    Gt { dest: ValueId, left: ValueId, right: ValueId },
    Ge { dest: ValueId, left: ValueId, right: ValueId },
    Call { dest: ValueId, callee: String, args: Vec<ValueId> },
    Assert { condition: ValueId, kind: ContractKind },
    Perform { dest: ValueId, effect: String, operation: String, args: Vec<ValueId> },
    Handle {
        dest: ValueId,
        body_insts: Vec<Inst>,
        body_result: Option<ValueId>,
        arms: Vec<HandleArm>,
    },
}

impl Function {
    /// The declared type of the mutable local that owns `slot`.
    pub fn mutable_local_type(&self, slot: LocalSlotId) -> (r: Option<&str>)
        ensures
            match first_local_for(self.mutable_locals@, slot) {
                Some(local) => r matches Some(t) && t@ == local.ty@,
                None => r is None,
            },
    {
        let mut i: usize = 0;
        assert(self.mutable_locals@.skip(0) =~= self.mutable_locals@);
        while i < self.mutable_locals.len()
            invariant
                i <= self.mutable_locals.len(),
                first_local_for(self.mutable_locals@, slot) == first_local_for(
                    self.mutable_locals@.skip(i as int),
                    slot,
                ),
            decreases self.mutable_locals.len() - i,
        {
            if self.mutable_locals[i].slot == slot {
                return Some(self.mutable_locals[i].ty.as_str());
            }
            assert(self.mutable_locals@.skip(i as int).drop_first() =~= self.mutable_locals@.skip(
                i + 1,
            ));
            i = i + 1;
        }
        None
    }
}

/// The first local in `locals` that owns `slot`.
pub open spec fn first_local_for(locals: Seq<MutableLocal>, slot: LocalSlotId) -> Option<
    MutableLocal,
>
    decreases locals.len(),
{
    if locals.len() == 0 {
        None
    } else if locals[0].slot == slot {
        Some(locals[0])
    } else {
        first_local_for(locals.drop_first(), slot)
    }
}

} // verus!
