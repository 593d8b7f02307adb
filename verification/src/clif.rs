//! The Cranelift function builder as the native lowering sees it.
//!
//! Cranelift's `FunctionBuilder` is an outside type whose inside Verus does
//! not see. What the lowering needs to know of it is named by `clif_state`:
//! the types of the SSA values made so far (by value number), the types of
//! the declared variables (by variable number), how many blocks there are,
//! how many results each imported function returns, the current block and
//! whether it still takes instructions, and which blocks are pristine,
//! filled and sealed, and the function's instructions in the order they
//! were created, with their operands and results. Cranelift's frontend asserts (in debug builds) the
//! block states that its calls need; the wrappers require them.
//! Each wrapper below states how one builder call changes that state; these
//! statements are what Cranelift's source shows of the call, and they are
//! trusted.
use vstd::prelude::*;
use cranelift_codegen::ir::{BlockArg, InstBuilder, MemFlagsData, TrapCode, types};
use cranelift_codegen::ir::condcodes::{FloatCC, IntCC};
use cranelift_codegen::ir::immediates::Ieee64;

verus! {

#[verifier::external_type_specification]
#[verifier::external_body]
pub struct ExClifValue(cranelift_codegen::ir::Value);

#[verifier::external_type_specification]
#[verifier::external_body]
pub struct ExClifBlock(cranelift_codegen::ir::Block);

#[verifier::external_type_specification]
#[verifier::external_body]
pub struct ExClifFuncRef(cranelift_codegen::ir::FuncRef);

#[verifier::external_type_specification]
#[verifier::external_body]
pub struct ExClifGlobalValue(cranelift_codegen::ir::GlobalValue);

#[verifier::external_type_specification]
#[verifier::external_body]
pub struct ExClifVariable(cranelift_frontend::Variable);

#[verifier::external_type_specification]
#[verifier::external_body]
pub struct ExClifType(cranelift_codegen::ir::Type);

#[verifier::external_type_specification]
#[verifier::external_body]
pub struct ExClifFunctionBuilder<'a>(cranelift_frontend::FunctionBuilder<'a>);

/// The scalar types that the lowering names; every other Cranelift type is
/// `Other`, and `Invalid` is Cranelift's `INVALID`.
#[derive(Clone, Copy, Debug, PartialEq, Eq, Structural)]
pub enum ClifType {
    Invalid,
    I8,
    I16,
    I32,
    I64,
    I128,
    F16,
    F32,
    F64,
    F128,
    Other,
}

impl ClifType {
    /// Cranelift's `Type::is_int`: the scalar integer types.
    pub open spec fn spec_is_int(self) -> bool {
        self is I8 || self is I16 || self is I32 || self is I64 || self is I128
    }

    pub fn is_int(self) -> (r: bool)
        ensures
            r == self.spec_is_int(),
    {
        match self {
            ClifType::I8 | ClifType::I16 | ClifType::I32 | ClifType::I64 | ClifType::I128 => true,
            _ => false,
        }
    }
}

/// Integer comparison conditions used by the lowering.
#[derive(Clone, Copy, Debug, PartialEq, Eq, Structural)]
pub enum IntCond {
    Equal,
    NotEqual,
    SignedLessThan,
    SignedLessThanOrEqual,
    SignedGreaterThan,
    SignedGreaterThanOrEqual,
    UnsignedGreaterThan,
    UnsignedGreaterThanOrEqual,
}

/// Float comparison conditions used by the lowering.
#[derive(Clone, Copy, Debug, PartialEq, Eq, Structural)]
pub enum FloatCond {
    Equal,
    NotEqual,
    LessThan,
    LessThanOrEqual,
    GreaterThan,
    GreaterThanOrEqual,
}

/// The memory flags that the lowering puts on loads and stores:
/// Cranelift's `MemFlagsData::new()` and `MemFlagsData::trusted()`.
#[derive(Clone, Copy, Debug, PartialEq, Eq, Structural)]
pub enum MemKind {
    Plain,
    Trusted,
}

/// What the lowering knows of a function under construction.
pub struct BuilderView {
    /// The type of each SSA value, by value number.
    pub value_types: Seq<ClifType>,
    /// The declared type of each variable, by variable number.
    pub var_types: Seq<ClifType>,
    /// The number of blocks created.
    pub blocks: nat,
    /// The number of results of each function imported into the function,
    /// by import number.
    pub func_returns: Seq<nat>,
    /// The result types of each imported function, by import number.
    pub func_result_types: Seq<Seq<ClifType>>,
    /// Whether there is a current block that still takes instructions: one
    /// has been chosen and no terminator (jump or branch) has been added to
    /// it since.
    pub positioned: bool,
    /// The number of the current block, when one has been chosen.
    pub current: nat,
    /// Whether each block is pristine (no instruction added), by block
    /// number.
    pub pristine: Seq<bool>,
    /// Whether each block is filled (ends with a terminator), by block number.
    pub filled: Seq<bool>,
    /// Whether each block is sealed (all its predecessors declared), by block
    /// number.
    pub sealed: Seq<bool>,
    /// The function's instructions, in the order they were created.
    pub emitted: Seq<ClifEntry>,
    /// The block that each instruction is in, by the instruction's place in
    /// `emitted`.
    pub placed: Seq<nat>,
}

/// An instruction of the function, by its opcode and immediate operands.
pub enum ClifOp {
    Iconst(i64),
    IntCompare(IntCond),
    FloatCompare(FloatCond),
    TrapnzHeap,
    TrapzUser(u8),
    Call(nat),
    Uextend,
    Sextend,
    Ireduce,
    Load(MemKind, i32),
    Store(MemKind, i32),
    Iadd,
    Isub,
    Imul,
    Sdiv,
    Band,
    Bor,
    Bxor,
    Fadd,
    Fsub,
    Fmul,
    Fdiv,
    Bnot,
    Sqrt,
    FcvtFromSint,
    F64const(u64),
    SymbolValue,
    Bitcast,
    Select,
    Jump(nat),
    Brif(nat, nat),
    /// An instruction of a kind that the lowering never makes itself (such as
    /// a constant of another float type).
    Foreign,
}

/// One instruction: its opcode, its value operands and its result values,
/// by value number. The operands of a branch are those it tests (the
/// condition of `brif`, none for `jump`); the arguments it passes to its
/// target blocks are not among them (settling a variable may add to them).
pub struct ClifEntry {
    pub op: ClifOp,
    pub args: Seq<nat>,
    pub results: Seq<nat>,
}

/// The entry of a call with operands `args` and results `results`.
pub open spec fn entry(op: ClifOp, args: Seq<cranelift_codegen::ir::Value>, results: Seq<cranelift_codegen::ir::Value>) -> ClifEntry {
    ClifEntry {
        op,
        args: args.map_values(|v: cranelift_codegen::ir::Value| value_number(v)),
        results: results.map_values(|v: cranelift_codegen::ir::Value| value_number(v)),
    }
}

/// No value of the function has the type `INVALID`.
pub open spec fn values_typed(s: BuilderView) -> bool {
    forall|i: int| 0 <= i < s.value_types.len() ==> #[trigger] s.value_types[i] != ClifType::Invalid
}

/// The block tables cover the blocks, and the current block, if any, is one
/// of them and not filled; no value, variable or imported function's result
/// has the type `INVALID`.
pub open spec fn view_wf(s: BuilderView) -> bool {
    &&& s.placed.len() == s.emitted.len()
    &&& s.pristine.len() == s.blocks
    &&& s.filled.len() == s.blocks
    &&& s.sealed.len() == s.blocks
    &&& s.positioned ==> s.current < s.blocks && !s.filled[s.current as int]
    &&& values_typed(s)
    &&& forall|i: int| 0 <= i < s.var_types.len() ==> #[trigger] s.var_types[i] != ClifType::Invalid
    &&& s.func_result_types.len() == s.func_returns.len()
    &&& forall|f: int| 0 <= f < s.func_returns.len() ==> #[trigger] s.func_result_types[f].len() == s.func_returns[f]
    &&& forall|f: int, j: int| 0 <= f < s.func_result_types.len() && 0 <= j < s.func_result_types[f].len()
        ==> #[trigger] s.func_result_types[f][j] != ClifType::Invalid
}

/// The state after an instruction that is not a terminator was added to the
/// current block: the block is no longer pristine.
pub open spec fn after_instruction(s: BuilderView, e: ClifEntry) -> BuilderView {
    BuilderView {
        pristine: s.pristine.update(s.current as int, false),
        emitted: s.emitted.push(e),
        placed: s.placed.push(s.current),
        ..s
    }
}

/// The state after a terminator was added to the current block: the block
/// is filled and takes no more instructions.
pub open spec fn after_terminator(s: BuilderView, e: ClifEntry) -> BuilderView {
    BuilderView {
        pristine: s.pristine.update(s.current as int, false),
        emitted: s.emitted.push(e),
        placed: s.placed.push(s.current),
        filled: s.filled.update(s.current as int, true),
        positioned: false,
        ..s
    }
}

/// The instructions `old` are the first instructions of `new`.
pub open spec fn emitted_prefix(old: Seq<ClifEntry>, new: Seq<ClifEntry>) -> bool {
    &&& old.len() <= new.len()
    &&& forall|i: int| 0 <= i < old.len() ==> #[trigger] new[i] == old[i]
}

/// What settling variables (sealing a block, using a variable) may do to
/// the blocks: add parameters, with the matching arguments to the jumps to
/// those blocks, and instructions (the zero constant of a variable used
/// before any definition), so that a pristine block may stop being pristine
/// and instructions may follow those there were; nothing else about the
/// blocks changes.
pub open spec fn blocks_settled(old: BuilderView, new: BuilderView) -> bool {
    &&& new.blocks == old.blocks
    &&& new.current == old.current
    &&& new.positioned == old.positioned
    &&& new.filled == old.filled
    &&& emitted_prefix(old.emitted, new.emitted)
    &&& new.placed.len() == new.emitted.len()
    &&& forall|i: int| 0 <= i < old.placed.len() ==> #[trigger] new.placed[i] == old.placed[i]
    &&& forall|i: int| old.emitted.len() <= i < new.emitted.len() ==> settle_zero(#[trigger] new.emitted[i].op)
    &&& new.pristine.len() == old.pristine.len()
    &&& forall|i: int| 0 <= i < old.pristine.len() && !old.pristine[i] ==> !#[trigger] new.pristine[i]
}

/// The opcode of an instruction that settling a variable makes: the zero
/// constant of a variable used before any definition (`iconst 0`, the
/// `uextend` of a zero `I128`, `f64const 0`, or a constant of another type).
pub open spec fn settle_zero(op: ClifOp) -> bool {
    op == ClifOp::Iconst(0) || op == ClifOp::Uextend || op == ClifOp::F64const(0) || op == ClifOp::Foreign
}

/// The instructions made after those of `old` all went into `old`'s current
/// block; those of `old` stay where they were.
pub open spec fn placed_current(old: BuilderView, new: BuilderView) -> bool {
    &&& new.placed.len() == new.emitted.len()
    &&& old.placed.len() <= new.placed.len()
    &&& forall|i: int| 0 <= i < old.placed.len() ==> #[trigger] new.placed[i] == old.placed[i]
    &&& forall|i: int| old.placed.len() <= i < new.placed.len() ==> #[trigger] new.placed[i] == old.current
}

/// The state of a Cranelift function builder: its function's values (the
/// data-flow graph's value types), variables, blocks, imported functions'
/// result counts and types, its position and block states, and its
/// instructions in creation order with the block that each is in.
pub uninterp spec fn clif_state(b: cranelift_frontend::FunctionBuilder) -> BuilderView;

/// The entity number of a Cranelift value (`Value::as_u32`).
pub uninterp spec fn value_number(v: cranelift_codegen::ir::Value) -> nat;

/// The entity number of a Cranelift block (`Block::as_u32`).
pub uninterp spec fn block_number(b: cranelift_codegen::ir::Block) -> nat;

/// The entity number of an imported function (`FuncRef::as_u32`).
pub uninterp spec fn func_ref_number(f: cranelift_codegen::ir::FuncRef) -> nat;

/// The entity number of a frontend variable (`Variable::index`).
pub uninterp spec fn var_number(v: cranelift_frontend::Variable) -> nat;

/// How the lowering tells a Cranelift type apart: its scalar type, `Invalid`
/// for `INVALID`, and `Other` for every other type.
pub uninterp spec fn clif_type_of(t: cranelift_codegen::ir::Type) -> ClifType;

/// The values only grow; variables and imported functions stay.
pub open spec fn values_extended(old: BuilderView, new: BuilderView) -> bool {
    &&& old.value_types.len() <= new.value_types.len()
    &&& new.value_types.subrange(0, old.value_types.len() as int) == old.value_types
    &&& new.var_types == old.var_types
    &&& new.func_returns == old.func_returns
    &&& new.func_result_types == old.func_result_types
}

/// Instructions that are not terminators were added to the current block:
/// the values only grow, and the block is no longer pristine.
pub open spec fn grows_values(old: BuilderView, new: BuilderView) -> bool {
    &&& values_extended(old, new)
    &&& new.blocks == old.blocks
    &&& new.positioned == old.positioned
    &&& new.current == old.current
    &&& new.pristine == old.pristine.update(old.current as int, false)
    &&& new.filled == old.filled
    &&& new.sealed == old.sealed
    &&& values_typed(new)
    &&& placed_current(old, new)
}

/// The builder made exactly one value, `r`.
pub open spec fn made_one(old: BuilderView, new: BuilderView, r: cranelift_codegen::ir::Value) -> bool {
    &&& grows_values(old, new)
    &&& new.value_types.len() == old.value_types.len() + 1
    &&& value_number(r) == old.value_types.len()
}

/// The builder made exactly one value, `r`, of type `ty`.
pub open spec fn made_typed(old: BuilderView, new: BuilderView, r: cranelift_codegen::ir::Value, ty: ClifType) -> bool {
    &&& made_one(old, new, r)
    &&& new.value_types.last() == ty
}

/// The builder made exactly one value, `r`, of the type of `x` (the
/// instruction's controlling type is that of its operand `x`).
pub open spec fn made_like(old: BuilderView, new: BuilderView, r: cranelift_codegen::ir::Value, x: cranelift_codegen::ir::Value) -> bool {
    &&& made_one(old, new, r)
    &&& new.value_types.last() == old.value_types[value_number(x) as int]
}

/// The builder made exactly one value, `r`, the result of a comparison of
/// operands like `x`: `I8` when `x` is a scalar (Cranelift's `as_truthy`),
/// and never `INVALID`.
pub open spec fn made_truthy(old: BuilderView, new: BuilderView, r: cranelift_codegen::ir::Value, x: cranelift_codegen::ir::Value) -> bool {
    &&& made_one(old, new, r)
    &&& new.value_types.last() != ClifType::Invalid
    &&& old.value_types[value_number(x) as int] != ClifType::Other ==> new.value_types.last() == ClifType::I8
}

/// The immediate that Cranelift stores for a constant of type `t`: its low
/// bits for a type narrower than 64 bits (`Imm64::mask_to_width`), unchanged
/// otherwise.
pub open spec fn masked_imm(imm: i64, t: ClifType) -> i64 {
    match t {
        ClifType::I8 => imm & 0xff,
        ClifType::I16 | ClifType::F16 => imm & 0xffff,
        ClifType::I32 | ClifType::F32 => imm & 0xffff_ffff,
        _ => imm,
    }
}

/// The instructions that an `_imm` convenience method of operation `op`
/// makes for operand `x` of scalar type `t`, with value numbers from
/// `first`: the immediate as a constant of `t` (for `I128`, an `I64`
/// constant then sign-extended), then `op` on `x` and that constant.
pub open spec fn imm_entries(op: ClifOp, x: nat, t: ClifType, imm: i64, first: nat) -> Seq<ClifEntry> {
    if t == ClifType::I128 {
        seq![
            ClifEntry { op: ClifOp::Iconst(imm), args: seq![], results: seq![first] },
            ClifEntry { op: ClifOp::Sextend, args: seq![first], results: seq![first + 1] },
            ClifEntry { op, args: seq![x, first + 1], results: seq![first + 2] },
        ]
    } else {
        seq![
            ClifEntry { op: ClifOp::Iconst(masked_imm(imm, t)), args: seq![], results: seq![first] },
            ClifEntry { op, args: seq![x, first], results: seq![first + 1] },
        ]
    }
}

/// The number of values that an `_imm` convenience method makes for an
/// operand of type `t`.
pub open spec fn imm_values(t: ClifType) -> nat {
    if t == ClifType::I128 { 3 } else { 2 }
}

/// The builder made the instructions of an `_imm` convenience method of
/// `op` on `x`, whose last value, `r`, is the result.
pub open spec fn made_imm(old: BuilderView, new: BuilderView, op: ClifOp, x: cranelift_codegen::ir::Value, imm: i64, r: cranelift_codegen::ir::Value) -> bool {
    let t = old.value_types[value_number(x) as int];
    &&& grows_values(old, new)
    &&& emitted_prefix(old.emitted, new.emitted)
    &&& t != ClifType::Other ==> new.value_types.len() == old.value_types.len() + imm_values(t)
        && new.emitted == old.emitted + imm_entries(op, value_number(x), t, imm, old.value_types.len())
    &&& old.value_types.len() < new.value_types.len()
    &&& value_number(r) == new.value_types.len() - 1
}

/// Nothing that the lowering tracks changed.
pub open spec fn unchanged(old: BuilderView, new: BuilderView) -> bool {
    old == new
}

/// `builder.ins().iconst(ty, imm)`: one new value of type `ty`.
#[verifier::external_body]
pub fn ins_iconst(b: &mut cranelift_frontend::FunctionBuilder, ty: cranelift_codegen::ir::Type, imm: i64) -> (r: cranelift_codegen::ir::Value)
    requires
        clif_state(*old(b)).positioned,
        view_wf(clif_state(*old(b))),
        clif_type_of(ty) != ClifType::Other,
        clif_type_of(ty) != ClifType::Invalid,
    ensures
        clif_state(*final(b)).emitted == clif_state(*old(b)).emitted.push(entry(ClifOp::Iconst(masked_imm(imm, clif_type_of(ty))), seq![], seq![r])),
        made_typed(clif_state(*old(b)), clif_state(*final(b)), r, clif_type_of(ty)),
        value_number(r) == clif_state(*old(b)).value_types.len(),
{
    b.ins().iconst(ty, imm)
}

/// `builder.ins().icmp(cc, x, y)`: one new value.
#[verifier::external_body]
pub fn ins_int_compare(b: &mut cranelift_frontend::FunctionBuilder, cc: IntCond, x: cranelift_codegen::ir::Value, y: cranelift_codegen::ir::Value) -> (r: cranelift_codegen::ir::Value)
    requires
        clif_state(*old(b)).positioned,
        view_wf(clif_state(*old(b))),
        value_number(x) < clif_state(*old(b)).value_types.len(),
        value_number(y) < clif_state(*old(b)).value_types.len(),
    ensures
        clif_state(*final(b)).emitted == clif_state(*old(b)).emitted.push(entry(ClifOp::IntCompare(cc), seq![x, y], seq![r])),
        made_truthy(clif_state(*old(b)), clif_state(*final(b)), r, x),
        value_number(r) == clif_state(*old(b)).value_types.len(),
{
    let cc = match cc {
        IntCond::Equal => IntCC::Equal,
        IntCond::NotEqual => IntCC::NotEqual,
        IntCond::SignedLessThan => IntCC::SignedLessThan,
        IntCond::SignedLessThanOrEqual => IntCC::SignedLessThanOrEqual,
        IntCond::SignedGreaterThan => IntCC::SignedGreaterThan,
        IntCond::SignedGreaterThanOrEqual => IntCC::SignedGreaterThanOrEqual,
        IntCond::UnsignedGreaterThan => IntCC::UnsignedGreaterThan,
        IntCond::UnsignedGreaterThanOrEqual => IntCC::UnsignedGreaterThanOrEqual,
    };
    b.ins().icmp(cc, x, y)
}

/// `builder.ins().icmp_imm(cc, x, imm)`: Cranelift builds the immediate as a
/// constant of `x`'s type (for 128-bit operands an `I64` constant, then
/// sign-extended) and then `icmp` on `x` and that constant, whose value, the
/// last one made, is the result (see `imm_entries`).
#[verifier::external_body]
pub fn ins_int_compare_imm(b: &mut cranelift_frontend::FunctionBuilder, cc: IntCond, x: cranelift_codegen::ir::Value, imm: i64) -> (r: cranelift_codegen::ir::Value)
    requires
        clif_state(*old(b)).positioned,
        view_wf(clif_state(*old(b))),
        value_number(x) < clif_state(*old(b)).value_types.len(),
    ensures
        made_imm(clif_state(*old(b)), clif_state(*final(b)), ClifOp::IntCompare(cc), x, imm, r),
        clif_state(*final(b)).value_types.last() != ClifType::Invalid,
{
    let cc = match cc {
        IntCond::Equal => IntCC::Equal,
        IntCond::NotEqual => IntCC::NotEqual,
        IntCond::SignedLessThan => IntCC::SignedLessThan,
        IntCond::SignedLessThanOrEqual => IntCC::SignedLessThanOrEqual,
        IntCond::SignedGreaterThan => IntCC::SignedGreaterThan,
        IntCond::SignedGreaterThanOrEqual => IntCC::SignedGreaterThanOrEqual,
        IntCond::UnsignedGreaterThan => IntCC::UnsignedGreaterThan,
        IntCond::UnsignedGreaterThanOrEqual => IntCC::UnsignedGreaterThanOrEqual,
    };
    b.ins().icmp_imm(cc, x, imm)
}

/// `builder.ins().fcmp(cc, x, y)`: one new value.
#[verifier::external_body]
pub fn ins_float_compare(b: &mut cranelift_frontend::FunctionBuilder, cc: FloatCond, x: cranelift_codegen::ir::Value, y: cranelift_codegen::ir::Value) -> (r: cranelift_codegen::ir::Value)
    requires
        clif_state(*old(b)).positioned,
        view_wf(clif_state(*old(b))),
        value_number(x) < clif_state(*old(b)).value_types.len(),
        value_number(y) < clif_state(*old(b)).value_types.len(),
    ensures
        clif_state(*final(b)).emitted == clif_state(*old(b)).emitted.push(entry(ClifOp::FloatCompare(cc), seq![x, y], seq![r])),
        made_truthy(clif_state(*old(b)), clif_state(*final(b)), r, x),
        value_number(r) == clif_state(*old(b)).value_types.len(),
{
    let cc = match cc {
        FloatCond::Equal => FloatCC::Equal,
        FloatCond::NotEqual => FloatCC::NotEqual,
        FloatCond::LessThan => FloatCC::LessThan,
        FloatCond::LessThanOrEqual => FloatCC::LessThanOrEqual,
        FloatCond::GreaterThan => FloatCC::GreaterThan,
        FloatCond::GreaterThanOrEqual => FloatCC::GreaterThanOrEqual,
    };
    b.ins().fcmp(cc, x, y)
}

/// `builder.ins().trapnz(c, TrapCode::HEAP_OUT_OF_BOUNDS)`: makes no value.
#[verifier::external_body]
pub fn ins_trapnz_heap(b: &mut cranelift_frontend::FunctionBuilder, c: cranelift_codegen::ir::Value)
    requires
        clif_state(*old(b)).positioned,
        view_wf(clif_state(*old(b))),
        value_number(c) < clif_state(*old(b)).value_types.len(),
    ensures
        clif_state(*final(b)) == after_instruction(clif_state(*old(b)), entry(ClifOp::TrapnzHeap, seq![c], seq![])),
{
    b.ins().trapnz(c, TrapCode::HEAP_OUT_OF_BOUNDS);
}

/// `builder.ins().trapz(c, TrapCode::unwrap_user(code))`: makes no value.
/// Cranelift panics on a user code of 0 or one of its reserved codes (251 and up).
#[verifier::external_body]
pub fn ins_trapz_user(b: &mut cranelift_frontend::FunctionBuilder, c: cranelift_codegen::ir::Value, code: u8)
    requires
        clif_state(*old(b)).positioned,
        view_wf(clif_state(*old(b))),
        value_number(c) < clif_state(*old(b)).value_types.len(),
        0 < code < 251,
    ensures
        clif_state(*final(b)) == after_instruction(clif_state(*old(b)), entry(ClifOp::TrapzUser(code), seq![c], seq![])),
{
    b.ins().trapz(c, TrapCode::unwrap_user(code));
}

/// `builder.ins().call(f, args)` followed by `builder.inst_results(call)`: the
/// call's results, one new value for each result of the imported function's
/// signature, of that result's type, numbered in order after the values
/// there were.
#[verifier::external_body]
pub fn ins_call(b: &mut cranelift_frontend::FunctionBuilder, f: cranelift_codegen::ir::FuncRef, args: &[cranelift_codegen::ir::Value]) -> (r: Vec<cranelift_codegen::ir::Value>)
    requires
        clif_state(*old(b)).positioned,
        view_wf(clif_state(*old(b))),
        func_ref_number(f) < clif_state(*old(b)).func_returns.len(),
        forall|i: int| 0 <= i < args.len() ==> #[trigger] value_number(args[i]) < clif_state(*old(b)).value_types.len(),
    ensures
        clif_state(*final(b)).emitted == clif_state(*old(b)).emitted.push(entry(ClifOp::Call(func_ref_number(f)), args@, r@)),
        grows_values(clif_state(*old(b)), clif_state(*final(b))),
        func_ref_number(f) < clif_state(*final(b)).func_returns.len(),
        r.len() == clif_state(*old(b)).func_returns[func_ref_number(f) as int],
        forall|i: int| 0 <= i < r.len() ==> clif_state(*old(b)).value_types.len() <= #[trigger] value_number(r[i]) && value_number(r[i]) < clif_state(*final(b)).value_types.len(),
        clif_state(*final(b)).value_types.len() == clif_state(*old(b)).value_types.len() + r.len(),
        forall|i: int| 0 <= i < r.len() ==> #[trigger] value_number(r[i]) == clif_state(*old(b)).value_types.len() + i,
        forall|i: int| 0 <= i < r.len() ==> clif_state(*final(b)).value_types[#[trigger] value_number(r[i]) as int] == clif_state(*old(b)).func_result_types[func_ref_number(f) as int][i],
{
    let call = b.ins().call(f, args);
    b.inst_results(call).to_vec()
}

/// `builder.ins().uextend(ty, x)`: one new value of type `ty`.
#[verifier::external_body]
pub fn ins_uextend(b: &mut cranelift_frontend::FunctionBuilder, ty: cranelift_codegen::ir::Type, x: cranelift_codegen::ir::Value) -> (r: cranelift_codegen::ir::Value)
    requires
        clif_state(*old(b)).positioned,
        view_wf(clif_state(*old(b))),
        value_number(x) < clif_state(*old(b)).value_types.len(),
        clif_type_of(ty) != ClifType::Other,
        clif_type_of(ty) != ClifType::Invalid,
    ensures
        clif_state(*final(b)).emitted == clif_state(*old(b)).emitted.push(entry(ClifOp::Uextend, seq![x], seq![r])),
        made_typed(clif_state(*old(b)), clif_state(*final(b)), r, clif_type_of(ty)),
        value_number(r) == clif_state(*old(b)).value_types.len(),
{
    b.ins().uextend(ty, x)
}

/// `builder.ins().ireduce(ty, x)`: one new value of type `ty`.
#[verifier::external_body]
pub fn ins_ireduce(b: &mut cranelift_frontend::FunctionBuilder, ty: cranelift_codegen::ir::Type, x: cranelift_codegen::ir::Value) -> (r: cranelift_codegen::ir::Value)
    requires
        clif_state(*old(b)).positioned,
        view_wf(clif_state(*old(b))),
        value_number(x) < clif_state(*old(b)).value_types.len(),
        clif_type_of(ty) != ClifType::Other,
        clif_type_of(ty) != ClifType::Invalid,
    ensures
        clif_state(*final(b)).emitted == clif_state(*old(b)).emitted.push(entry(ClifOp::Ireduce, seq![x], seq![r])),
        made_typed(clif_state(*old(b)), clif_state(*final(b)), r, clif_type_of(ty)),
        value_number(r) == clif_state(*old(b)).value_types.len(),
{
    b.ins().ireduce(ty, x)
}

/// `builder.ins().load(ty, flags, addr, offset)`: one new value of type `ty`.
#[verifier::external_body]
pub fn ins_load(b: &mut cranelift_frontend::FunctionBuilder, ty: cranelift_codegen::ir::Type, flags: MemKind, addr: cranelift_codegen::ir::Value, offset: i32) -> (r: cranelift_codegen::ir::Value)
    requires
        clif_state(*old(b)).positioned,
        view_wf(clif_state(*old(b))),
        value_number(addr) < clif_state(*old(b)).value_types.len(),
        clif_type_of(ty) != ClifType::Other,
        clif_type_of(ty) != ClifType::Invalid,
    ensures
        clif_state(*final(b)).emitted == clif_state(*old(b)).emitted.push(entry(ClifOp::Load(flags, offset), seq![addr], seq![r])),
        made_typed(clif_state(*old(b)), clif_state(*final(b)), r, clif_type_of(ty)),
        value_number(r) == clif_state(*old(b)).value_types.len(),
{
    let flags = match flags {
        MemKind::Plain => MemFlagsData::new(),
        MemKind::Trusted => MemFlagsData::trusted(),
    };
    b.ins().load(ty, flags, addr, offset)
}

/// `builder.ins().store(flags, value, addr, offset)`: makes no value.
#[verifier::external_body]
pub fn ins_store(b: &mut cranelift_frontend::FunctionBuilder, flags: MemKind, value: cranelift_codegen::ir::Value, addr: cranelift_codegen::ir::Value, offset: i32)
    requires
        clif_state(*old(b)).positioned,
        view_wf(clif_state(*old(b))),
        value_number(value) < clif_state(*old(b)).value_types.len(),
        value_number(addr) < clif_state(*old(b)).value_types.len(),
    ensures
        clif_state(*final(b)) == after_instruction(clif_state(*old(b)), entry(ClifOp::Store(flags, offset), seq![value, addr], seq![])),
{
    let flags = match flags {
        MemKind::Plain => MemFlagsData::new(),
        MemKind::Trusted => MemFlagsData::trusted(),
    };
    b.ins().store(flags, value, addr, offset);
}

/// `builder.ins().iadd(x, y)`: one new value.
#[verifier::external_body]
pub fn ins_iadd(b: &mut cranelift_frontend::FunctionBuilder, x: cranelift_codegen::ir::Value, y: cranelift_codegen::ir::Value) -> (r: cranelift_codegen::ir::Value)
    requires
        clif_state(*old(b)).positioned,
        view_wf(clif_state(*old(b))),
        value_number(x) < clif_state(*old(b)).value_types.len(),
        value_number(y) < clif_state(*old(b)).value_types.len(),
    ensures
        clif_state(*final(b)).emitted == clif_state(*old(b)).emitted.push(entry(ClifOp::Iadd, seq![x, y], seq![r])),
        made_like(clif_state(*old(b)), clif_state(*final(b)), r, x),
        value_number(r) == clif_state(*old(b)).value_types.len(),
{
    b.ins().iadd(x, y)
}

/// `builder.ins().isub(x, y)`: one new value.
#[verifier::external_body]
pub fn ins_isub(b: &mut cranelift_frontend::FunctionBuilder, x: cranelift_codegen::ir::Value, y: cranelift_codegen::ir::Value) -> (r: cranelift_codegen::ir::Value)
    requires
        clif_state(*old(b)).positioned,
        view_wf(clif_state(*old(b))),
        value_number(x) < clif_state(*old(b)).value_types.len(),
        value_number(y) < clif_state(*old(b)).value_types.len(),
    ensures
        clif_state(*final(b)).emitted == clif_state(*old(b)).emitted.push(entry(ClifOp::Isub, seq![x, y], seq![r])),
        made_like(clif_state(*old(b)), clif_state(*final(b)), r, x),
        value_number(r) == clif_state(*old(b)).value_types.len(),
{
    b.ins().isub(x, y)
}

/// `builder.ins().imul(x, y)`: one new value.
#[verifier::external_body]
pub fn ins_imul(b: &mut cranelift_frontend::FunctionBuilder, x: cranelift_codegen::ir::Value, y: cranelift_codegen::ir::Value) -> (r: cranelift_codegen::ir::Value)
    requires
        clif_state(*old(b)).positioned,
        view_wf(clif_state(*old(b))),
        value_number(x) < clif_state(*old(b)).value_types.len(),
        value_number(y) < clif_state(*old(b)).value_types.len(),
    ensures
        clif_state(*final(b)).emitted == clif_state(*old(b)).emitted.push(entry(ClifOp::Imul, seq![x, y], seq![r])),
        made_like(clif_state(*old(b)), clif_state(*final(b)), r, x),
        value_number(r) == clif_state(*old(b)).value_types.len(),
{
    b.ins().imul(x, y)
}

/// `builder.ins().sdiv(x, y)`: one new value.
#[verifier::external_body]
pub fn ins_sdiv(b: &mut cranelift_frontend::FunctionBuilder, x: cranelift_codegen::ir::Value, y: cranelift_codegen::ir::Value) -> (r: cranelift_codegen::ir::Value)
    requires
        clif_state(*old(b)).positioned,
        view_wf(clif_state(*old(b))),
        value_number(x) < clif_state(*old(b)).value_types.len(),
        value_number(y) < clif_state(*old(b)).value_types.len(),
    ensures
        clif_state(*final(b)).emitted == clif_state(*old(b)).emitted.push(entry(ClifOp::Sdiv, seq![x, y], seq![r])),
        made_like(clif_state(*old(b)), clif_state(*final(b)), r, x),
        value_number(r) == clif_state(*old(b)).value_types.len(),
{
    b.ins().sdiv(x, y)
}

/// `builder.ins().band(x, y)`: one new value.
#[verifier::external_body]
pub fn ins_band(b: &mut cranelift_frontend::FunctionBuilder, x: cranelift_codegen::ir::Value, y: cranelift_codegen::ir::Value) -> (r: cranelift_codegen::ir::Value)
    requires
        clif_state(*old(b)).positioned,
        view_wf(clif_state(*old(b))),
        value_number(x) < clif_state(*old(b)).value_types.len(),
        value_number(y) < clif_state(*old(b)).value_types.len(),
    ensures
        clif_state(*final(b)).emitted == clif_state(*old(b)).emitted.push(entry(ClifOp::Band, seq![x, y], seq![r])),
        made_like(clif_state(*old(b)), clif_state(*final(b)), r, x),
        value_number(r) == clif_state(*old(b)).value_types.len(),
{
    b.ins().band(x, y)
}

/// `builder.ins().bor(x, y)`: one new value.
#[verifier::external_body]
pub fn ins_bor(b: &mut cranelift_frontend::FunctionBuilder, x: cranelift_codegen::ir::Value, y: cranelift_codegen::ir::Value) -> (r: cranelift_codegen::ir::Value)
    requires
        clif_state(*old(b)).positioned,
        view_wf(clif_state(*old(b))),
        value_number(x) < clif_state(*old(b)).value_types.len(),
        value_number(y) < clif_state(*old(b)).value_types.len(),
    ensures
        clif_state(*final(b)).emitted == clif_state(*old(b)).emitted.push(entry(ClifOp::Bor, seq![x, y], seq![r])),
        made_like(clif_state(*old(b)), clif_state(*final(b)), r, x),
        value_number(r) == clif_state(*old(b)).value_types.len(),
{
    b.ins().bor(x, y)
}

/// `builder.ins().bxor(x, y)`: one new value.
#[verifier::external_body]
pub fn ins_bxor(b: &mut cranelift_frontend::FunctionBuilder, x: cranelift_codegen::ir::Value, y: cranelift_codegen::ir::Value) -> (r: cranelift_codegen::ir::Value)
    requires
        clif_state(*old(b)).positioned,
        view_wf(clif_state(*old(b))),
        value_number(x) < clif_state(*old(b)).value_types.len(),
        value_number(y) < clif_state(*old(b)).value_types.len(),
    ensures
        clif_state(*final(b)).emitted == clif_state(*old(b)).emitted.push(entry(ClifOp::Bxor, seq![x, y], seq![r])),
        made_like(clif_state(*old(b)), clif_state(*final(b)), r, x),
        value_number(r) == clif_state(*old(b)).value_types.len(),
{
    b.ins().bxor(x, y)
}

/// `builder.ins().fadd(x, y)`: one new value.
#[verifier::external_body]
pub fn ins_fadd(b: &mut cranelift_frontend::FunctionBuilder, x: cranelift_codegen::ir::Value, y: cranelift_codegen::ir::Value) -> (r: cranelift_codegen::ir::Value)
    requires
        clif_state(*old(b)).positioned,
        view_wf(clif_state(*old(b))),
        value_number(x) < clif_state(*old(b)).value_types.len(),
        value_number(y) < clif_state(*old(b)).value_types.len(),
    ensures
        clif_state(*final(b)).emitted == clif_state(*old(b)).emitted.push(entry(ClifOp::Fadd, seq![x, y], seq![r])),
        made_like(clif_state(*old(b)), clif_state(*final(b)), r, x),
        value_number(r) == clif_state(*old(b)).value_types.len(),
{
    b.ins().fadd(x, y)
}

/// `builder.ins().fsub(x, y)`: one new value.
#[verifier::external_body]
pub fn ins_fsub(b: &mut cranelift_frontend::FunctionBuilder, x: cranelift_codegen::ir::Value, y: cranelift_codegen::ir::Value) -> (r: cranelift_codegen::ir::Value)
    requires
        clif_state(*old(b)).positioned,
        view_wf(clif_state(*old(b))),
        value_number(x) < clif_state(*old(b)).value_types.len(),
        value_number(y) < clif_state(*old(b)).value_types.len(),
    ensures
        clif_state(*final(b)).emitted == clif_state(*old(b)).emitted.push(entry(ClifOp::Fsub, seq![x, y], seq![r])),
        made_like(clif_state(*old(b)), clif_state(*final(b)), r, x),
        value_number(r) == clif_state(*old(b)).value_types.len(),
{
    b.ins().fsub(x, y)
}

/// `builder.ins().fmul(x, y)`: one new value.
#[verifier::external_body]
pub fn ins_fmul(b: &mut cranelift_frontend::FunctionBuilder, x: cranelift_codegen::ir::Value, y: cranelift_codegen::ir::Value) -> (r: cranelift_codegen::ir::Value)
    requires
        clif_state(*old(b)).positioned,
        view_wf(clif_state(*old(b))),
        value_number(x) < clif_state(*old(b)).value_types.len(),
        value_number(y) < clif_state(*old(b)).value_types.len(),
    ensures
        clif_state(*final(b)).emitted == clif_state(*old(b)).emitted.push(entry(ClifOp::Fmul, seq![x, y], seq![r])),
        made_like(clif_state(*old(b)), clif_state(*final(b)), r, x),
        value_number(r) == clif_state(*old(b)).value_types.len(),
{
    b.ins().fmul(x, y)
}

/// `builder.ins().fdiv(x, y)`: one new value.
#[verifier::external_body]
pub fn ins_fdiv(b: &mut cranelift_frontend::FunctionBuilder, x: cranelift_codegen::ir::Value, y: cranelift_codegen::ir::Value) -> (r: cranelift_codegen::ir::Value)
    requires
        clif_state(*old(b)).positioned,
        view_wf(clif_state(*old(b))),
        value_number(x) < clif_state(*old(b)).value_types.len(),
        value_number(y) < clif_state(*old(b)).value_types.len(),
    ensures
        clif_state(*final(b)).emitted == clif_state(*old(b)).emitted.push(entry(ClifOp::Fdiv, seq![x, y], seq![r])),
        made_like(clif_state(*old(b)), clif_state(*final(b)), r, x),
        value_number(r) == clif_state(*old(b)).value_types.len(),
{
    b.ins().fdiv(x, y)
}

/// `builder.ins().bnot(x)`: one new value.
#[verifier::external_body]
pub fn ins_bnot(b: &mut cranelift_frontend::FunctionBuilder, x: cranelift_codegen::ir::Value) -> (r: cranelift_codegen::ir::Value)
    requires
        clif_state(*old(b)).positioned,
        view_wf(clif_state(*old(b))),
        value_number(x) < clif_state(*old(b)).value_types.len(),
    ensures
        clif_state(*final(b)).emitted == clif_state(*old(b)).emitted.push(entry(ClifOp::Bnot, seq![x], seq![r])),
        made_like(clif_state(*old(b)), clif_state(*final(b)), r, x),
        value_number(r) == clif_state(*old(b)).value_types.len(),
{
    b.ins().bnot(x)
}

/// `builder.ins().sqrt(x)`: one new value.
#[verifier::external_body]
pub fn ins_sqrt(b: &mut cranelift_frontend::FunctionBuilder, x: cranelift_codegen::ir::Value) -> (r: cranelift_codegen::ir::Value)
    requires
        clif_state(*old(b)).positioned,
        view_wf(clif_state(*old(b))),
        value_number(x) < clif_state(*old(b)).value_types.len(),
    ensures
        clif_state(*final(b)).emitted == clif_state(*old(b)).emitted.push(entry(ClifOp::Sqrt, seq![x], seq![r])),
        made_like(clif_state(*old(b)), clif_state(*final(b)), r, x),
        value_number(r) == clif_state(*old(b)).value_types.len(),
{
    b.ins().sqrt(x)
}

/// `builder.ins().imul_imm(x, imm)`: the immediate as a constant of `x`'s
/// type, then `imul` on `x` and that constant (see `imm_entries`).
#[verifier::external_body]
pub fn ins_imul_imm(b: &mut cranelift_frontend::FunctionBuilder, x: cranelift_codegen::ir::Value, imm: i64) -> (r: cranelift_codegen::ir::Value)
    requires
        clif_state(*old(b)).positioned,
        view_wf(clif_state(*old(b))),
        value_number(x) < clif_state(*old(b)).value_types.len(),
    ensures
        made_imm(clif_state(*old(b)), clif_state(*final(b)), ClifOp::Imul, x, imm, r),
        clif_state(*final(b)).value_types.last() == clif_state(*old(b)).value_types[value_number(x) as int],
{
    b.ins().imul_imm(x, imm)
}

/// `builder.ins().iadd_imm(x, imm)`: the immediate as a constant of `x`'s
/// type, then `iadd` on `x` and that constant (see `imm_entries`).
#[verifier::external_body]
pub fn ins_iadd_imm(b: &mut cranelift_frontend::FunctionBuilder, x: cranelift_codegen::ir::Value, imm: i64) -> (r: cranelift_codegen::ir::Value)
    requires
        clif_state(*old(b)).positioned,
        view_wf(clif_state(*old(b))),
        value_number(x) < clif_state(*old(b)).value_types.len(),
    ensures
        made_imm(clif_state(*old(b)), clif_state(*final(b)), ClifOp::Iadd, x, imm, r),
        clif_state(*final(b)).value_types.last() == clif_state(*old(b)).value_types[value_number(x) as int],
{
    b.ins().iadd_imm(x, imm)
}

/// `builder.ins().fcvt_from_sint(ty, x)`: one new value of type `ty`.
#[verifier::external_body]
pub fn ins_fcvt_from_sint(b: &mut cranelift_frontend::FunctionBuilder, ty: cranelift_codegen::ir::Type, x: cranelift_codegen::ir::Value) -> (r: cranelift_codegen::ir::Value)
    requires
        clif_state(*old(b)).positioned,
        view_wf(clif_state(*old(b))),
        value_number(x) < clif_state(*old(b)).value_types.len(),
        clif_type_of(ty) != ClifType::Other,
        clif_type_of(ty) != ClifType::Invalid,
    ensures
        clif_state(*final(b)).emitted == clif_state(*old(b)).emitted.push(entry(ClifOp::FcvtFromSint, seq![x], seq![r])),
        made_typed(clif_state(*old(b)), clif_state(*final(b)), r, clif_type_of(ty)),
        value_number(r) == clif_state(*old(b)).value_types.len(),
{
    b.ins().fcvt_from_sint(ty, x)
}

/// `builder.ins().f64const(Ieee64::with_bits(bits))`: one new value of type F64,
/// the float whose IEEE-754 bits are `bits`.
#[verifier::external_body]
pub fn ins_f64const(b: &mut cranelift_frontend::FunctionBuilder, bits: u64) -> (r: cranelift_codegen::ir::Value)
    requires
        clif_state(*old(b)).positioned,
        view_wf(clif_state(*old(b))),
    ensures
        clif_state(*final(b)).emitted == clif_state(*old(b)).emitted.push(entry(ClifOp::F64const(bits), seq![], seq![r])),
        made_typed(clif_state(*old(b)), clif_state(*final(b)), r, ClifType::F64),
        value_number(r) == clif_state(*old(b)).value_types.len(),
{
    b.ins().f64const(Ieee64::with_bits(bits))
}

/// `builder.ins().symbol_value(ty, gv)`: one new value of type `ty`.
#[verifier::external_body]
pub fn ins_symbol_value(b: &mut cranelift_frontend::FunctionBuilder, ty: cranelift_codegen::ir::Type, gv: cranelift_codegen::ir::GlobalValue) -> (r: cranelift_codegen::ir::Value)
    requires
        clif_state(*old(b)).positioned,
        view_wf(clif_state(*old(b))),
        clif_type_of(ty) != ClifType::Other,
        clif_type_of(ty) != ClifType::Invalid,
    ensures
        clif_state(*final(b)).emitted == clif_state(*old(b)).emitted.push(entry(ClifOp::SymbolValue, seq![], seq![r])),
        made_typed(clif_state(*old(b)), clif_state(*final(b)), r, clif_type_of(ty)),
        value_number(r) == clif_state(*old(b)).value_types.len(),
{
    b.ins().symbol_value(ty, gv)
}

/// `builder.ins().bitcast(ty, MemFlagsData::new(), x)`: one new value of type `ty`.
#[verifier::external_body]
pub fn ins_bitcast(b: &mut cranelift_frontend::FunctionBuilder, ty: cranelift_codegen::ir::Type, x: cranelift_codegen::ir::Value) -> (r: cranelift_codegen::ir::Value)
    requires
        clif_state(*old(b)).positioned,
        view_wf(clif_state(*old(b))),
        value_number(x) < clif_state(*old(b)).value_types.len(),
        clif_type_of(ty) != ClifType::Other,
        clif_type_of(ty) != ClifType::Invalid,
    ensures
        clif_state(*final(b)).emitted == clif_state(*old(b)).emitted.push(entry(ClifOp::Bitcast, seq![x], seq![r])),
        made_typed(clif_state(*old(b)), clif_state(*final(b)), r, clif_type_of(ty)),
        value_number(r) == clif_state(*old(b)).value_types.len(),
{
    b.ins().bitcast(ty, MemFlagsData::new(), x)
}

/// `builder.ins().select(c, x, y)`: one new value.
#[verifier::external_body]
pub fn ins_select(b: &mut cranelift_frontend::FunctionBuilder, c: cranelift_codegen::ir::Value, x: cranelift_codegen::ir::Value, y: cranelift_codegen::ir::Value) -> (r: cranelift_codegen::ir::Value)
    requires
        clif_state(*old(b)).positioned,
        view_wf(clif_state(*old(b))),
        value_number(c) < clif_state(*old(b)).value_types.len(),
        value_number(x) < clif_state(*old(b)).value_types.len(),
        value_number(y) < clif_state(*old(b)).value_types.len(),
    ensures
        clif_state(*final(b)).emitted == clif_state(*old(b)).emitted.push(entry(ClifOp::Select, seq![c, x, y], seq![r])),
        made_like(clif_state(*old(b)), clif_state(*final(b)), r, x),
        value_number(r) == clif_state(*old(b)).value_types.len(),
{
    b.ins().select(c, x, y)
}

/// `builder.ins().jump(block, args)`, each argument passed as `BlockArg::Value`:
/// makes no value.
#[verifier::external_body]
pub fn ins_jump(b: &mut cranelift_frontend::FunctionBuilder, block: cranelift_codegen::ir::Block, args: &[cranelift_codegen::ir::Value])
    requires
        clif_state(*old(b)).positioned,
        view_wf(clif_state(*old(b))),
        block_number(block) < clif_state(*old(b)).blocks,
        !clif_state(*old(b)).sealed[block_number(block) as int],
        forall|i: int| 0 <= i < args.len() ==> #[trigger] value_number(args[i]) < clif_state(*old(b)).value_types.len(),
    ensures
        clif_state(*final(b)) == after_terminator(clif_state(*old(b)), ClifEntry { op: ClifOp::Jump(block_number(block)), args: seq![], results: seq![] }),
{
    let args: Vec<BlockArg> = args.iter().map(|v| BlockArg::Value(*v)).collect();
    b.ins().jump(block, &args);
}

/// `builder.ins().brif(c, then_block, &[], else_block, &[])`: makes no value.
#[verifier::external_body]
pub fn ins_brif(b: &mut cranelift_frontend::FunctionBuilder, c: cranelift_codegen::ir::Value, then_block: cranelift_codegen::ir::Block, else_block: cranelift_codegen::ir::Block)
    requires
        clif_state(*old(b)).positioned,
        view_wf(clif_state(*old(b))),
        value_number(c) < clif_state(*old(b)).value_types.len(),
        block_number(then_block) < clif_state(*old(b)).blocks,
        block_number(else_block) < clif_state(*old(b)).blocks,
        !clif_state(*old(b)).sealed[block_number(then_block) as int],
        !clif_state(*old(b)).sealed[block_number(else_block) as int],
    ensures
        clif_state(*final(b)) == after_terminator(clif_state(*old(b)), entry(ClifOp::Brif(block_number(then_block), block_number(else_block)), seq![c], seq![])),
{
    b.ins().brif(c, then_block, &[], else_block, &[]);
}

/// `builder.create_block()`: a new block, numbered after the existing ones,
/// pristine, not filled and not sealed.
#[verifier::external_body]
pub fn create_block(b: &mut cranelift_frontend::FunctionBuilder) -> (r: cranelift_codegen::ir::Block)
    ensures
        clif_state(*final(b)).value_types == clif_state(*old(b)).value_types,
        clif_state(*final(b)).var_types == clif_state(*old(b)).var_types,
        clif_state(*final(b)).func_returns == clif_state(*old(b)).func_returns,
        clif_state(*final(b)).func_result_types == clif_state(*old(b)).func_result_types,
        clif_state(*final(b)).positioned == clif_state(*old(b)).positioned,
        clif_state(*final(b)).current == clif_state(*old(b)).current,
        clif_state(*final(b)).blocks == clif_state(*old(b)).blocks + 1,
        clif_state(*final(b)).pristine == clif_state(*old(b)).pristine.push(true),
        clif_state(*final(b)).placed == clif_state(*old(b)).placed,
        clif_state(*final(b)).filled == clif_state(*old(b)).filled.push(false),
        clif_state(*final(b)).sealed == clif_state(*old(b)).sealed.push(false),
        clif_state(*final(b)).emitted == clif_state(*old(b)).emitted,
        block_number(r) == clif_state(*old(b)).blocks,
{
    b.create_block()
}

/// `builder.switch_to_block(block)`: new instructions now go to `block`.
/// Cranelift asserts (in debug builds) that the block switched from is
/// pristine or filled and that `block` is not filled; here the block
/// switched from, if any, must be filled.
#[verifier::external_body]
pub fn switch_to_block(b: &mut cranelift_frontend::FunctionBuilder, block: cranelift_codegen::ir::Block)
    requires
        view_wf(clif_state(*old(b))),
        block_number(block) < clif_state(*old(b)).blocks,
        !clif_state(*old(b)).positioned,
        !clif_state(*old(b)).filled[block_number(block) as int],
    ensures
        clif_state(*final(b)) == (BuilderView { positioned: true, current: block_number(block), ..clif_state(*old(b)) }),
{
    b.switch_to_block(block);
}

/// `builder.seal_block(block)`: the block becomes sealed. Cranelift asserts
/// (in debug builds) that it was not sealed. Settling the variables used in
/// `block` may add block parameters, which are new values, and instructions
/// to other blocks; each new value has the type of a variable (or `I64`, the
/// constant that a zero `I128` is extended from), so none is `INVALID`.
#[verifier::external_body]
pub fn seal_block(b: &mut cranelift_frontend::FunctionBuilder, block: cranelift_codegen::ir::Block)
    requires
        view_wf(clif_state(*old(b))),
        block_number(block) < clif_state(*old(b)).blocks,
        !clif_state(*old(b)).sealed[block_number(block) as int],
    ensures
        values_extended(clif_state(*old(b)), clif_state(*final(b))),
        blocks_settled(clif_state(*old(b)), clif_state(*final(b))),
        values_typed(clif_state(*final(b))),
        clif_state(*final(b)).sealed == clif_state(*old(b)).sealed.update(block_number(block) as int, true),
{
    b.seal_block(block);
}

/// `builder.append_block_param(block, ty)`: one new value of type `ty`.
/// Cranelift asserts (in debug builds) that the block is pristine.
#[verifier::external_body]
pub fn append_block_param(b: &mut cranelift_frontend::FunctionBuilder, block: cranelift_codegen::ir::Block, ty: cranelift_codegen::ir::Type) -> (r: cranelift_codegen::ir::Value)
    requires
        view_wf(clif_state(*old(b))),
        block_number(block) < clif_state(*old(b)).blocks,
        clif_state(*old(b)).pristine[block_number(block) as int],
        clif_type_of(ty) != ClifType::Other,
        clif_type_of(ty) != ClifType::Invalid,
    ensures
        clif_state(*final(b)) == (BuilderView {
            value_types: clif_state(*old(b)).value_types.push(clif_type_of(ty)),
            ..clif_state(*old(b))
        }),
        value_number(r) == clif_state(*old(b)).value_types.len(),
{
    b.append_block_param(block, ty)
}

/// `builder.block_params(block)`: values of the builder's function.
#[verifier::external_body]
pub fn block_params(b: &cranelift_frontend::FunctionBuilder, block: cranelift_codegen::ir::Block) -> (r: Vec<cranelift_codegen::ir::Value>)
    requires
        block_number(block) < clif_state(*b).blocks,
    ensures
        forall|i: int| 0 <= i < r.len() ==> #[trigger] value_number(r[i]) < clif_state(*b).value_types.len(),
{
    b.block_params(block).to_vec()
}

/// `builder.use_var(var)`: a value of the variable's declared type.
/// Cranelift asserts (in debug builds) that the current block is not filled
/// and that the variable's type is declared (not `INVALID`). The current
/// block stops being pristine, and settling the variable may add block
/// parameters, which are new values, and instructions to other blocks; each
/// new value has the type of a variable (or `I64`, the constant that a zero
/// `I128` is extended from), so none is `INVALID`.
#[verifier::external_body]
pub fn use_var(b: &mut cranelift_frontend::FunctionBuilder, var: cranelift_frontend::Variable) -> (r: cranelift_codegen::ir::Value)
    requires
        clif_state(*old(b)).positioned,
        view_wf(clif_state(*old(b))),
        var_number(var) < clif_state(*old(b)).var_types.len(),
        clif_state(*old(b)).var_types[var_number(var) as int] != ClifType::Invalid,
    ensures
        values_extended(clif_state(*old(b)), clif_state(*final(b))),
        blocks_settled(clif_state(*old(b)), clif_state(*final(b))),
        values_typed(clif_state(*final(b))),
        clif_state(*final(b)).sealed == clif_state(*old(b)).sealed,
        value_number(r) < clif_state(*final(b)).value_types.len(),
        clif_state(*final(b)).value_types[value_number(r) as int] == clif_state(*old(b)).var_types[var_number(var) as int],
{
    b.use_var(var)
}

/// `builder.def_var(var, value)`: makes no value. Cranelift panics when the
/// value's type is not the variable's declared type; a type that the lowering
/// names is one Cranelift type, so the names being equal (and not `Other`)
/// means the types are.
#[verifier::external_body]
pub fn def_var(b: &mut cranelift_frontend::FunctionBuilder, var: cranelift_frontend::Variable, value: cranelift_codegen::ir::Value)
    requires
        clif_state(*old(b)).positioned,
        view_wf(clif_state(*old(b))),
        var_number(var) < clif_state(*old(b)).var_types.len(),
        value_number(value) < clif_state(*old(b)).value_types.len(),
        clif_state(*old(b)).value_types[value_number(value) as int] == clif_state(*old(b)).var_types[var_number(var) as int],
        clif_state(*old(b)).var_types[var_number(var) as int] != ClifType::Other,
    ensures
        clif_state(*final(b)) == clif_state(*old(b)),
{
    b.def_var(var, value);
}

/// `builder.func.dfg.value_type(v)`, told apart by the types that the
/// lowering names.
#[verifier::external_body]
pub fn value_type(b: &cranelift_frontend::FunctionBuilder, v: cranelift_codegen::ir::Value) -> (r: cranelift_codegen::ir::Type)
    requires
        value_number(v) < clif_state(*b).value_types.len(),
    ensures
        clif_type_of(r) == clif_state(*b).value_types[value_number(v) as int],
{
    b.func.dfg.value_type(v)
}

/// Cranelift's type for a scalar type that the lowering names (`types::I64`
/// and the like, `types::INVALID` for `Invalid`).
#[verifier::external_body]
pub fn clif_type(t: ClifType) -> (r: cranelift_codegen::ir::Type)
    requires
        t != ClifType::Other,
    ensures
        clif_type_of(r) == t,
{
    match t {
        ClifType::Invalid => types::INVALID,
        ClifType::I8 => types::I8,
        ClifType::I16 => types::I16,
        ClifType::I32 => types::I32,
        ClifType::I64 => types::I64,
        ClifType::I128 => types::I128,
        ClifType::F16 => types::F16,
        ClifType::F32 => types::F32,
        ClifType::F64 => types::F64,
        ClifType::F128 => types::F128,
        ClifType::Other => types::INVALID,
    }
}

/// Tells a Cranelift type apart as the lowering names it.
#[verifier::external_body]
pub fn type_kind(t: cranelift_codegen::ir::Type) -> (r: ClifType)
    ensures
        r == clif_type_of(t),
{
    match t {
        types::INVALID => ClifType::Invalid,
        types::I8 => ClifType::I8,
        types::I16 => ClifType::I16,
        types::I32 => ClifType::I32,
        types::I64 => ClifType::I64,
        types::I128 => ClifType::I128,
        types::F16 => ClifType::F16,
        types::F32 => ClifType::F32,
        types::F64 => ClifType::F64,
        types::F128 => ClifType::F128,
        _ => ClifType::Other,
    }
}

/// `Value::as_u32`.
#[verifier::external_body]
pub fn value_index(v: cranelift_codegen::ir::Value) -> (r: u32)
    ensures
        r == value_number(v),
{
    v.as_u32()
}

/// The text that Cranelift's `Display` gives a type (`i64`, `f64` and the
/// like).
pub uninterp spec fn clif_type_text(t: cranelift_codegen::ir::Type) -> Seq<char>;

/// The text of a scalar type that the lowering names: `i` or `f` and its
/// width in bits.
pub open spec fn scalar_type_text(t: ClifType) -> Seq<char> {
    match t {
        ClifType::I8 => "i8"@,
        ClifType::I16 => "i16"@,
        ClifType::I32 => "i32"@,
        ClifType::I64 => "i64"@,
        ClifType::I128 => "i128"@,
        ClifType::F16 => "f16"@,
        ClifType::F32 => "f32"@,
        ClifType::F64 => "f64"@,
        ClifType::F128 => "f128"@,
        _ => Seq::empty(),
    }
}

/// `format!("{t}")` for a Cranelift type. Cranelift's `Display` panics on
/// `INVALID`, which is therefore left out; it writes an integer or float
/// scalar type as `i` or `f` and its width in bits.
#[verifier::external_body]
pub fn type_text(t: cranelift_codegen::ir::Type) -> (r: String)
    requires
        clif_type_of(t) != ClifType::Invalid,
    ensures
        r@ == clif_type_text(t),
        clif_type_of(t) != ClifType::Other ==> r@ == scalar_type_text(clif_type_of(t)),
{
    format!("{t}")
}

} // verus!
