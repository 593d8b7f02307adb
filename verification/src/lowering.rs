//! Lowering of IR instructions to Cranelift IR through a function builder.
use vstd::prelude::*;

use cranelift_codegen::ir::{Block, FuncRef, GlobalValue, Type, Value};
use cranelift_frontend::{FunctionBuilder, Variable};

use crate::clif::{
    clif_state, clif_type, clif_type_of, clif_type_text, func_ref_number, ins_band, ins_bor, ins_call, ins_fadd, ins_fcvt_from_sint,
    ins_fdiv, ins_fmul, ins_fsub, ins_iadd, ins_iadd_imm, ins_int_compare, ins_iconst, ins_imul, ins_ireduce, ins_isub, ins_load, ins_sdiv,
    ins_bitcast, ins_bnot, ins_bxor, ins_float_compare, ins_int_compare_imm, ins_f64const, ins_imul_imm, ins_sqrt, ins_store, ins_symbol_value, ins_trapnz_heap, ins_trapz_user, ins_uextend, use_var, def_var, ins_brif, ins_jump, ins_select, create_block, switch_to_block,
    seal_block, append_block_param, block_params, settle_zero, type_kind, type_text, value_index, value_number, block_number, value_type, var_number, BuilderView,
    ClifType, FloatCond, IntCond, MemKind, ClifOp, ClifEntry, entry, imm_entries, imm_values, view_wf, after_instruction, after_terminator, values_extended, blocks_settled, grows_values, emitted_prefix,
};
use crate::kinds::KindMap;
use crate::analysis::spec_inst_dest;
use crate::mir::{ContractKind, Function, Inst, LocalSlotId, ValueId};
use crate::infer::{find_first_field, find_last_record, first_field_named, last_record_named};
use crate::native::{enum_names, native_value_kind, record_names, spec_native_kind, native_enum_is_payload_free, native_enum_variant_index, contract_trap_code, kind_view, KindView, NativeEnum, NativeRecord, NativeRecordField, NativeValueKind};
use crate::pretty::{debug_text, slot_text, spec_debug_text, value_text};
use crate::text::{nat_text, push_u64, text_eq};
use crate::trusted::{collect_trusted_repeat_list_accesses, defined_by, defined_in, PairSet, TrustedListAccesses};

verus! {

/// How a lowered IR value is represented in native code.
#[derive(Clone, Copy, Debug)]
pub enum NativeValueRepr {
    Native(Value),
    Unit,
}

/// The length and the element pointer of a list, loaded once per list value.
#[derive(Clone, Copy, Debug)]
pub struct ListHeader {
    pub len: Value,
    pub values_ptr: Value,
}

/// The native representation of each lowered IR value; a later entry for a
/// value replaces an earlier one.
#[derive(Debug)]
pub struct ValueMap {
    pub entries: Vec<(ValueId, NativeValueRepr)>,
}

pub open spec fn repr_map(entries: Seq<(ValueId, NativeValueRepr)>) -> Map<u32, NativeValueRepr>
    decreases entries.len(),
{
    if entries.len() == 0 {
        Map::empty()
    } else {
        repr_map(entries.drop_last()).insert(entries.last().0.0, entries.last().1)
    }
}

impl View for ValueMap {
    type V = Map<u32, NativeValueRepr>;

    open spec fn view(&self) -> Map<u32, NativeValueRepr> {
        repr_map(self.entries@)
    }
}

impl ValueMap {
    pub fn new() -> (r: ValueMap)
        ensures
            r@ == Map::<u32, NativeValueRepr>::empty(),
    {
        ValueMap { entries: Vec::new() }
    }

    /// Gives `value` the representation `repr`.
    pub fn insert(&mut self, value: ValueId, repr: NativeValueRepr)
        ensures
            final(self)@ == old(self)@.insert(value.0, repr),
    {
        let ghost before = self.entries@;
        self.entries.push((value, repr));
        assert(self.entries@.drop_last() =~= before);
    }

    /// The representation of `value`, if it has one.
    pub fn get(&self, value: ValueId) -> (r: Option<NativeValueRepr>)
        ensures
            match r {
                Some(x) => self@.contains_key(value.0) && self@[value.0] == x,
                None => !self@.contains_key(value.0),
            },
    {
        let mut i: usize = self.entries.len();
        assert(self.entries@.take(i as int) =~= self.entries@);
        while i > 0
            invariant
                i <= self.entries.len(),
                repr_map(self.entries@).contains_key(value.0) == repr_map(
                    self.entries@.take(i as int),
                ).contains_key(value.0),
                repr_map(self.entries@.take(i as int)).contains_key(value.0)
                    ==> repr_map(self.entries@)[value.0] == repr_map(self.entries@.take(i as int))[value.0],
            decreases i,
        {
            let ghost t = self.entries@.take(i as int);
            assert(t.drop_last() =~= self.entries@.take(i - 1));
            assert(t.last() == self.entries@[i - 1]);
            if self.entries[i - 1].0.0 == value.0 {
                return Some(self.entries[i - 1].1);
            }
            i = i - 1;
        }
        assert(self.entries@.take(0) =~= Seq::<(ValueId, NativeValueRepr)>::empty());
        None
    }

    /// An independent copy of the map.
    pub fn copy(&self) -> (r: ValueMap)
        ensures
            r@ == self@,
    {
        let mut entries: Vec<(ValueId, NativeValueRepr)> = Vec::new();
        let mut i: usize = 0;
        while i < self.entries.len()
            invariant
                i <= self.entries.len(),
                entries@ == self.entries@.take(i as int),
            decreases self.entries.len() - i,
        {
            entries.push(self.entries[i]);
            assert(self.entries@.take(i + 1) =~= self.entries@.take(i as int).push(self.entries@[i as int]));
            i = i + 1;
        }
        assert(self.entries@.take(self.entries.len() as int) =~= self.entries@);
        ValueMap { entries }
    }
}

/// The list headers loaded so far, by the number of the list's native value;
/// a later entry replaces an earlier one.
#[derive(Debug)]
pub struct HeaderCache {
    pub entries: Vec<(u32, ListHeader)>,
}

pub open spec fn header_map(entries: Seq<(u32, ListHeader)>) -> Map<u32, ListHeader>
    decreases entries.len(),
{
    if entries.len() == 0 {
        Map::empty()
    } else {
        header_map(entries.drop_last()).insert(entries.last().0, entries.last().1)
    }
}

impl View for HeaderCache {
    type V = Map<u32, ListHeader>;

    open spec fn view(&self) -> Map<u32, ListHeader> {
        header_map(self.entries@)
    }
}

impl HeaderCache {
    pub fn new() -> (r: HeaderCache)
        ensures
            r@ == Map::<u32, ListHeader>::empty(),
    {
        HeaderCache { entries: Vec::new() }
    }

    pub fn insert(&mut self, key: u32, header: ListHeader)
        ensures
            final(self)@ == old(self)@.insert(key, header),
    {
        let ghost before = self.entries@;
        self.entries.push((key, header));
        assert(self.entries@.drop_last() =~= before);
    }

    pub fn get(&self, key: u32) -> (r: Option<ListHeader>)
        ensures
            match r {
                Some(x) => self@.contains_key(key) && self@[key] == x,
                None => !self@.contains_key(key),
            },
    {
        let mut i: usize = self.entries.len();
        assert(self.entries@.take(i as int) =~= self.entries@);
        while i > 0
            invariant
                i <= self.entries.len(),
                header_map(self.entries@).contains_key(key) == header_map(
                    self.entries@.take(i as int),
                ).contains_key(key),
                header_map(self.entries@.take(i as int)).contains_key(key)
                    ==> header_map(self.entries@)[key] == header_map(self.entries@.take(i as int))[key],
            decreases i,
        {
            let ghost t = self.entries@.take(i as int);
            assert(t.drop_last() =~= self.entries@.take(i - 1));
            assert(t.last() == self.entries@[i - 1]);
            if self.entries[i - 1].0 == key {
                return Some(self.entries[i - 1].1);
            }
            i = i - 1;
        }
        assert(self.entries@.take(0) =~= Seq::<(u32, ListHeader)>::empty());
        None
    }

    pub fn copy(&self) -> (r: HeaderCache)
        ensures
            r@ == self@,
    {
        let mut entries: Vec<(u32, ListHeader)> = Vec::new();
        let mut i: usize = 0;
        while i < self.entries.len()
            invariant
                i <= self.entries.len(),
                entries@ == self.entries@.take(i as int),
            decreases self.entries.len() - i,
        {
            entries.push(self.entries[i]);
            assert(self.entries@.take(i + 1) =~= self.entries@.take(i as int).push(self.entries@[i as int]));
            i = i + 1;
        }
        assert(self.entries@.take(self.entries.len() as int) =~= self.entries@);
        HeaderCache { entries }
    }
}

/// The runtime helpers, imported into the function being lowered.
#[derive(Clone, Copy, Debug)]
pub struct NativeHelpers {
    pub allocator: FuncRef,
    pub text_builder_new: FuncRef,
    pub text_builder_append: FuncRef,
    pub text_builder_append_codepoint: FuncRef,
    pub text_builder_finish: FuncRef,
    pub list_new: FuncRef,
    pub text_concat: FuncRef,
    pub text_slice: FuncRef,
    pub text_from_f64_fixed: FuncRef,
    pub parse_i32: FuncRef,
    pub parse_f64: FuncRef,
    pub arg_count: FuncRef,
    pub arg_text: FuncRef,
    pub stdin_text: FuncRef,
    pub stdout_write: FuncRef,
    pub text_eq: FuncRef,
}

/// Everything that the lowering of one function reads: the imported
/// helpers, callees and text data, the layout tables, the value kinds, the
/// function, its entry parameters and its mutable locals' variables and
/// types, and the backend's name for messages.
pub struct NativeLowering<'a> {
    pub helpers: NativeHelpers,
    pub callees: &'a [(String, FuncRef)],
    pub texts: &'a [(String, GlobalValue)],
    pub records: &'a [NativeRecord],
    pub enums: &'a [(String, NativeEnum)],
    pub kinds: &'a KindMap,
    pub function: &'a Function,
    pub block_params: &'a [Value],
    pub slot_vars: &'a [(LocalSlotId, Variable)],
    pub slot_types: &'a [(LocalSlotId, Type)],
    pub backend: &'a str,
}

pub open spec fn helpers_ok(h: NativeHelpers, n: nat) -> bool {
    &&& func_ref_number(h.allocator) < n
    &&& func_ref_number(h.text_builder_new) < n
    &&& func_ref_number(h.text_builder_append) < n
    &&& func_ref_number(h.text_builder_append_codepoint) < n
    &&& func_ref_number(h.text_builder_finish) < n
    &&& func_ref_number(h.list_new) < n
    &&& func_ref_number(h.text_concat) < n
    &&& func_ref_number(h.text_slice) < n
    &&& func_ref_number(h.text_from_f64_fixed) < n
    &&& func_ref_number(h.parse_i32) < n
    &&& func_ref_number(h.parse_f64) < n
    &&& func_ref_number(h.arg_count) < n
    &&& func_ref_number(h.arg_text) < n
    &&& func_ref_number(h.stdin_text) < n
    &&& func_ref_number(h.stdout_write) < n
    &&& func_ref_number(h.text_eq) < n
}

/// The lowering environment fits the builder: an insertion block is chosen,
/// every imported function and entry parameter belongs to the builder's
/// function, every local's variable is declared, and a local's variable has
/// the local's declared native type.
pub open spec fn env_ok(env: NativeLowering, s: BuilderView) -> bool {
    &&& view_wf(s)
    &&& helpers_ok(env.helpers, s.func_returns.len())
    &&& forall|i: int| 0 <= i < env.callees@.len() ==> #[trigger] func_ref_number(env.callees@[i].1) < s.func_returns.len()
    &&& forall|i: int| 0 <= i < env.block_params@.len() ==> #[trigger] value_number(env.block_params@[i]) < s.value_types.len()
    &&& forall|i: int| 0 <= i < env.slot_vars@.len() ==> #[trigger] var_number(env.slot_vars@[i].1) < s.var_types.len()
    &&& forall|j: int| 0 <= j < env.slot_types@.len() ==> #[trigger] clif_type_of(env.slot_types@[j].1) != ClifType::Other
        && clif_type_of(env.slot_types@[j].1) != ClifType::Invalid
    &&& forall|i: int, j: int|
        0 <= i < env.slot_vars@.len() && 0 <= j < env.slot_types@.len() && (#[trigger] env.slot_vars@[i]).0 == (#[trigger] env.slot_types@[j]).0
            ==> s.var_types[var_number(env.slot_vars@[i].1) as int] == clif_type_of(env.slot_types@[j].1)
    &&& forall|i: int| 0 <= i < env.slot_vars@.len() ==> s.var_types[var_number(#[trigger] env.slot_vars@[i].1) as int] != ClifType::Invalid
}

/// Every native value of the map belongs to the builder's function.
pub open spec fn values_ok(values: Map<u32, NativeValueRepr>, s: BuilderView) -> bool {
    forall|k: u32| #[trigger] values.contains_key(k) ==> match values[k] {
        NativeValueRepr::Native(v) => value_number(v) < s.value_types.len(),
        NativeValueRepr::Unit => true,
    }
}

/// Every cached header value belongs to the builder's function.
pub open spec fn headers_ok(headers: Map<u32, ListHeader>, s: BuilderView) -> bool {
    forall|k: u32| #[trigger] headers.contains_key(k) ==> value_number(headers[k].len) < s.value_types.len()
        && value_number(headers[k].values_ptr) < s.value_types.len()
}

/// The instructions of `old` stay in their blocks, and each instruction
/// made since is in `old`'s current block, in a block made since, or is a
/// zero constant that settling a variable made.
pub open spec fn placed_within(old: BuilderView, new: BuilderView) -> bool {
    &&& old.placed.len() <= new.placed.len()
    &&& forall|i: int| 0 <= i < old.placed.len() ==> #[trigger] new.placed[i] == old.placed[i]
    &&& forall|i: int| old.emitted.len() <= i < new.emitted.len() ==> (#[trigger] new.placed[i] == old.current
        || new.placed[i] >= old.blocks || settle_zero(new.emitted[i].op))
}

/// What the lowering relies on stays: values only grow in number, variables
/// and imported functions are the same, blocks only grow in number; the
/// current block is the same one or a new one; the blocks that were there
/// keep being sealed or not, and those that were neither filled nor current
/// stay unfilled.
pub open spec fn extends(old: BuilderView, new: BuilderView) -> bool {
    &&& old.value_types.len() <= new.value_types.len()
    &&& new.var_types == old.var_types
    &&& new.func_returns == old.func_returns
    &&& old.blocks <= new.blocks
    &&& view_wf(new)
    &&& emitted_prefix(old.emitted, new.emitted)
    &&& placed_within(old, new)
    &&& new.current == old.current || new.current >= old.blocks
    &&& forall|i: int| 0 <= i < old.blocks ==> #[trigger] new.sealed[i] == old.sealed[i]
    &&& forall|i: int| 0 <= i < old.blocks && i != old.current && !old.filled[i] ==> !#[trigger] new.filled[i]
}

pub proof fn lemma_ok_kept(env: NativeLowering, values: Map<u32, NativeValueRepr>, headers: Map<u32, ListHeader>, a: BuilderView, b: BuilderView)
    requires
        env_ok(env, a),
        values_ok(values, a),
        headers_ok(headers, a),
        extends(a, b),
    ensures
        env_ok(env, b),
        values_ok(values, b),
        headers_ok(headers, b),
{
    assert forall|k: u32| #[trigger] values.contains_key(k) implies match values[k] {
        NativeValueRepr::Native(v) => value_number(v) < b.value_types.len(),
        NativeValueRepr::Unit => true,
    } by {
        match values[k] {
            NativeValueRepr::Native(v) => {},
            NativeValueRepr::Unit => {},
        }
    }
}

/// ` in `name`` for the function being lowered.
pub open spec fn in_fn(function: Function) -> Seq<char> {
    " in `"@ + function.name@ + "`"@
}

/// `backend`, a space, `middle` and ` in `function``.
pub open spec fn fn_msg(backend: Seq<char>, middle: Seq<char>, function: Function) -> Seq<char> {
    backend + " "@ + middle + in_fn(function)
}

pub open spec fn unresolved_msg(backend: Seq<char>, context: Seq<char>, v: ValueId, function: Function) -> Seq<char> {
    fn_msg(backend, "could not resolve "@ + context + " "@ + value_text(v), function)
}

pub open spec fn not_native_msg(backend: Seq<char>, context: Seq<char>, function: Function) -> Seq<char> {
    fn_msg(backend, "expected a native value for "@ + context, function)
}

/// `backend`, a space, `middle` and ` in `function``.
pub fn fn_message(backend: &str, middle: &str, function: &Function) -> (r: String)
    ensures
        r@ == fn_msg(backend@, middle@, *function),
{
    let mut s = String::from_str(backend);
    s.append(" ");
    s.append(middle);
    s.append(" in `");
    s.append(function.name.as_str());
    s.append("`");
    assert(s@ =~= fn_msg(backend@, middle@, *function));
    s
}

/// The representation of an IR value, or the error for a value that has
/// none.
pub fn value_repr(values: &ValueMap, value: ValueId, function: &Function, context: &str, backend: &str) -> (r: Result<NativeValueRepr, String>)
    ensures
        match r {
            Ok(x) => values@.contains_key(value.0) && values@[value.0] == x,
            Err(e) => !values@.contains_key(value.0) && e@ == unresolved_msg(backend@, context@, value, *function),
        },
{
    match values.get(value) {
        Some(x) => Ok(x),
        None => {
            let mut middle = String::from_str("could not resolve ");
            middle.append(context);
            middle.append(" ");
            let vt = value.render();
            middle.append(vt.as_str());
            let r = fn_message(backend, middle.as_str(), function);
            assert(middle@ =~= "could not resolve "@ + context@ + " "@ + value_text(value));
            Err(r)
        },
    }
}

/// The native value of an IR value: an error for a value that has no
/// representation or is the unit.
pub fn native_value(values: &ValueMap, value: ValueId, function: &Function, context: &str, backend: &str) -> (r: Result<Value, String>)
    ensures
        match r {
            Ok(v) => values@.contains_key(value.0) && values@[value.0] == NativeValueRepr::Native(v),
            Err(e) => if !values@.contains_key(value.0) {
                e@ == unresolved_msg(backend@, context@, value, *function)
            } else {
                values@[value.0] is Unit && e@ == not_native_msg(backend@, context@, *function)
            },
        },
{
    match value_repr(values, value, function, context, backend)? {
        NativeValueRepr::Native(v) => Ok(v),
        NativeValueRepr::Unit => {
            let mut middle = String::from_str("expected a native value for ");
            middle.append(context);
            Err(fn_message(backend, middle.as_str(), function))
        },
    }
}

/// The header of a list: the cached one, or the length and element
/// pointer loaded from the list (trusted loads at offsets 0 and 8), which
/// are then cached.
/// The loads of a list's header words from list value `l` into values `n`
/// (the length, offset 0) and `n + 1` (the element pointer, offset 8).
pub open spec fn header_loads(l: nat, n: nat) -> Seq<ClifEntry> {
    seq![
        ClifEntry { op: ClifOp::Load(MemKind::Trusted, 0), args: seq![l], results: seq![n] },
        ClifEntry { op: ClifOp::Load(MemKind::Trusted, 8), args: seq![l], results: seq![n + 1] },
    ]
}

/// The instructions of a list instruction that its first steps fix: a new
/// list's fill value (bit-cast to an integer for a float kind) and the
/// runtime helper call (with its null check); a length read's header loads
/// when the list's header is not cached yet.
pub open spec fn list_entries(
    env: NativeLowering,
    s0: BuilderView,
    v0: Map<u32, NativeValueRepr>,
    h0: Map<u32, ListHeader>,
    v1: Map<u32, NativeValueRepr>,
    inst: Inst,
) -> Option<Seq<ClifEntry>> {
    let n = s0.value_types.len();
    match inst {
        Inst::ListNew { dest, len, value } => {
            let float = env.kinds@.get(value.0) == Some(KindView::F64);
            let fill = if float { n } else { native_number(v0, value) };
            let first = if float { n + 1 } else { n };
            let cast = if float {
                seq![ClifEntry { op: ClifOp::Bitcast, args: seq![native_number(v0, value)], results: seq![n] }]
            } else {
                Seq::empty()
            };
            Some(cast + helper_entries(func_ref_number(env.helpers.list_new), seq![native_number(v0, len), fill], true, first))
        },
        Inst::ListLen { list, .. } => {
            let l = native_number(v0, list);
            Some(if h0.contains_key(l as u32) { Seq::empty() } else { header_loads(l, n) })
        },
        _ => None,
    }
}

/// The element access that a list read or write ends with: the load of the
/// element at offset 0 of its address into the destination, or the store
/// of the value there.
pub open spec fn list_access_last(s0: BuilderView, s1: BuilderView, v0: Map<u32, NativeValueRepr>, v1: Map<u32, NativeValueRepr>, inst: Inst) -> bool {
    match inst {
        Inst::ListGet { dest, .. } => s1.emitted.len() > s0.emitted.len() && s1.emitted.last().op == ClifOp::Load(MemKind::Trusted, 0)
            && s1.emitted.last().results == seq![native_number(v1, dest)],
        Inst::ListSet { value, .. } => s1.emitted.len() > s0.emitted.len() && s1.emitted.last().op == ClifOp::Store(MemKind::Trusted, 0)
            && s1.emitted.last().args.len() == 2 && s1.emitted.last().args[0] == native_number(v0, value),
        _ => true,
    }
}

pub fn cached_list_header(builder: &mut FunctionBuilder, headers: &mut HeaderCache, list: Value) -> (r: ListHeader)
    requires
        clif_state(*old(builder)).positioned,
        view_wf(clif_state(*old(builder))),
        value_number(list) < clif_state(*old(builder)).value_types.len(),
        headers_ok(old(headers)@, clif_state(*old(builder))),
    ensures
        extends(clif_state(*old(builder)), clif_state(*final(builder))),
        clif_state(*final(builder)).positioned,
        value_number(r.len) < clif_state(*final(builder)).value_types.len(),
        value_number(r.values_ptr) < clif_state(*final(builder)).value_types.len(),
        final(headers)@ == old(headers)@.insert(value_number(list) as u32, r),
        old(headers)@.contains_key(value_number(list) as u32) ==> r == old(headers)@[value_number(list) as u32]
            && clif_state(*final(builder)) == clif_state(*old(builder)),
        !old(headers)@.contains_key(value_number(list) as u32) ==> clif_state(*final(builder)).emitted == clif_state(
            *old(builder),
        ).emitted + header_loads(value_number(list), clif_state(*old(builder)).value_types.len())
            && value_number(r.len) == clif_state(*old(builder)).value_types.len()
            && value_number(r.values_ptr) == clif_state(*old(builder)).value_types.len() + 1,
{
    let key = value_index(list);
    if let Some(header) = headers.get(key) {
        assert(old(headers)@.insert(key, header) =~= old(headers)@);
        return header;
    }
    let i64t = clif_type(ClifType::I64);
    let len = ins_load(builder, i64t, MemKind::Trusted, list, 0);
    let values_ptr = ins_load(builder, i64t, MemKind::Trusted, list, 8);
    proof {
        lemma_entry_shape(ClifOp::Load(MemKind::Trusted, 0), seq![list], seq![len]);
        lemma_entry_shape(ClifOp::Load(MemKind::Trusted, 8), seq![list], seq![values_ptr]);
        assert(clif_state(*builder).emitted =~= clif_state(*old(builder)).emitted + header_loads(
            value_number(list),
            clif_state(*old(builder)).value_types.len(),
        ));
    }
    let header = ListHeader { len, values_ptr };
    headers.insert(key, header);
    header
}

/// Cranelift's float condition for an integer comparison condition, for
/// the conditions that have one.
pub fn float_cc(condition: IntCond) -> (r: Option<FloatCond>)
    ensures
        r == match condition {
            IntCond::Equal => Some(FloatCond::Equal),
            IntCond::NotEqual => Some(FloatCond::NotEqual),
            IntCond::SignedLessThan => Some(FloatCond::LessThan),
            IntCond::SignedLessThanOrEqual => Some(FloatCond::LessThanOrEqual),
            IntCond::SignedGreaterThan => Some(FloatCond::GreaterThan),
            IntCond::SignedGreaterThanOrEqual => Some(FloatCond::GreaterThanOrEqual),
            _ => None::<FloatCond>,
        },
{
    match condition {
        IntCond::Equal => Some(FloatCond::Equal),
        IntCond::NotEqual => Some(FloatCond::NotEqual),
        IntCond::SignedLessThan => Some(FloatCond::LessThan),
        IntCond::SignedLessThanOrEqual => Some(FloatCond::LessThanOrEqual),
        IntCond::SignedGreaterThan => Some(FloatCond::GreaterThan),
        IntCond::SignedGreaterThanOrEqual => Some(FloatCond::GreaterThanOrEqual),
        _ => None,
    }
}

/// The native type of a value kind: `F64` for floats, a 64-bit integer
/// (a handle or pointer for everything that is not a number) otherwise.
pub open spec fn spec_kind_type(k: KindView) -> ClifType {
    match k {
        KindView::F64 => ClifType::F64,
        _ => ClifType::I64,
    }
}

pub fn native_kind_type(kind: &NativeValueKind) -> (r: ClifType)
    ensures
        r == spec_kind_type(kind_view(*kind)),
{
    match kind {
        NativeValueKind::F64 => ClifType::F64,
        _ => ClifType::I64,
    }
}

pub open spec fn shape_msg(backend: Seq<char>, what: Seq<char>, function: Function) -> Seq<char> {
    fn_msg(backend, what + " returned an unexpected result shape"@, function)
}

/// Calls a runtime helper that returns one value; with `null_check`, the
/// code then traps (heap out of bounds) when that value is 0.
/// The instructions of a runtime helper call whose result is value `p`:
/// the call, then, with a null check, a zero constant, the comparison of the
/// result with it and a heap trap when they are equal.
pub open spec fn helper_entries(func: nat, args: Seq<nat>, null_check: bool, p: nat) -> Seq<ClifEntry> {
    let call = ClifEntry { op: ClifOp::Call(func), args, results: seq![p] };
    if null_check {
        seq![
            call,
            ClifEntry { op: ClifOp::Iconst(0), args: seq![], results: seq![p + 1] },
            ClifEntry { op: ClifOp::IntCompare(IntCond::Equal), args: seq![p, p + 1], results: seq![p + 2] },
            ClifEntry { op: ClifOp::TrapnzHeap, args: seq![p + 2], results: seq![] },
        ]
    } else {
        seq![call]
    }
}

/// The instructions of the runtime helper call that lowers a helper
/// instruction: its operands' native values (`v0`) and its destination's
/// (`v1`).
pub open spec fn helper_call_entries(env: NativeLowering, inst: Inst, v0: Map<u32, NativeValueRepr>, v1: Map<u32, NativeValueRepr>) -> Seq<ClifEntry> {
    let plan = helper_plan(env.helpers, inst)->0;
    helper_entries(
        func_ref_number(plan.func),
        plan.ops.map_values(|o: (ValueId, Seq<char>)| native_number(v0, o.0)),
        plan.null_check,
        native_number(v1, spec_inst_dest(inst)->0),
    )
}

pub fn call_helper(
    builder: &mut FunctionBuilder,
    helper: FuncRef,
    args: &[Value],
    null_check: bool,
    what: &str,
    function: &Function,
    backend: &str,
) -> (r: Result<Value, String>)
    requires
        clif_state(*old(builder)).positioned,
        view_wf(clif_state(*old(builder))),
        func_ref_number(helper) < clif_state(*old(builder)).func_returns.len(),
        forall|i: int| 0 <= i < args@.len() ==> #[trigger] value_number(args@[i]) < clif_state(*old(builder)).value_types.len(),
    ensures
        extends(clif_state(*old(builder)), clif_state(*final(builder))),
        clif_state(*final(builder)).positioned,
        match r {
            Ok(v) => value_number(v) < clif_state(*final(builder)).value_types.len()
                && value_number(v) == clif_state(*old(builder)).value_types.len()
                && clif_state(*final(builder)).value_types.len() == clif_state(*old(builder)).value_types.len() + (if null_check {
                3int
            } else {
                1int
            })
                && clif_state(*old(builder)).func_returns[func_ref_number(helper) as int] == 1
                && clif_state(*final(builder)).emitted == clif_state(*old(builder)).emitted + helper_entries(
                func_ref_number(helper),
                args@.map_values(|a: Value| value_number(a)),
                null_check,
                value_number(v),
            ),
            Err(e) => e@ == shape_msg(backend@, what@, *function)
                && clif_state(*old(builder)).func_returns[func_ref_number(helper) as int] != 1,
        },
{
    let results = ins_call(builder, helper, args);
    if results.len() != 1 {
        let mut middle = String::from_str(what);
        middle.append(" returned an unexpected result shape");
        return Err(fn_message(backend, middle.as_str(), function));
    }
    let ptr = results[0];
    let ghost e0 = clif_state(*old(builder)).emitted;
    proof {
        assert(results@.map_values(|v: Value| value_number(v)) =~= seq![value_number(ptr)]);
    }
    if null_check {
        let i64t = clif_type(ClifType::I64);
        let null = ins_iconst(builder, i64t, 0);
        let is_null = ins_int_compare(builder, IntCond::Equal, ptr, null);
        ins_trapnz_heap(builder, is_null);
        proof {
            lemma_entry_shape(ClifOp::Iconst(0), seq![], seq![null]);
            lemma_entry_shape(ClifOp::IntCompare(IntCond::Equal), seq![ptr, null], seq![is_null]);
            lemma_entry_shape(ClifOp::TrapnzHeap, seq![is_null], seq![]);
        }
    }
    assert(clif_state(*builder).emitted =~= e0 + helper_entries(
        func_ref_number(helper),
        args@.map_values(|a: Value| value_number(a)),
        null_check,
        value_number(ptr),
    ));
    Ok(ptr)
}

pub open spec fn coerce_msg(backend: Seq<char>, actual: Type, expected: Type, function: Function) -> Seq<char> {
    fn_msg(
        backend,
        "cannot store `"@ + clif_type_text(actual) + "` into mutable local declared as `"@ + clif_type_text(expected) + "`"@,
        function,
    )
}

/// Makes a value fit a mutable local of type `expected`: unchanged when its
/// type already is `expected`, zero-extended to I64 or reduced (from I64) or
/// zero-extended to I32 when it is an integer and `expected` is I64 or I32,
/// and an error otherwise.
/// The instructions of making value `x` of type `actual` fit a local of
/// type `want` (into value `n`): none when the types are the same, a
/// reduction from I64 to I32, a zero extension otherwise.
pub open spec fn coerce_entries(actual: ClifType, want: ClifType, x: nat, n: nat) -> Seq<ClifEntry> {
    if actual == want {
        Seq::empty()
    } else if want == ClifType::I32 && actual == ClifType::I64 {
        seq![ClifEntry { op: ClifOp::Ireduce, args: seq![x], results: seq![n] }]
    } else {
        seq![ClifEntry { op: ClifOp::Uextend, args: seq![x], results: seq![n] }]
    }
}

pub fn coerce_var_value(
    builder: &mut FunctionBuilder,
    value: Value,
    expected: Type,
    function: &Function,
    backend: &str,
) -> (r: Result<Value, String>)
    requires
        clif_state(*old(builder)).positioned,
        view_wf(clif_state(*old(builder))),
        value_number(value) < clif_state(*old(builder)).value_types.len(),
        clif_type_of(expected) != ClifType::Other,
        clif_type_of(expected) != ClifType::Invalid,
    ensures
        extends(clif_state(*old(builder)), clif_state(*final(builder))),
        clif_state(*final(builder)).positioned,
        ({
            let actual = clif_state(*old(builder)).value_types[value_number(value) as int];
            let want = clif_type_of(expected);
            match r {
                Ok(v) => (actual == want || ((want == ClifType::I64 || want == ClifType::I32) && actual.spec_is_int()))
                    && value_number(v) < clif_state(*final(builder)).value_types.len()
                    && clif_state(*final(builder)).emitted == clif_state(*old(builder)).emitted + coerce_entries(
                    actual,
                    want,
                    value_number(value),
                    clif_state(*old(builder)).value_types.len(),
                )
                    && clif_state(*final(builder)).value_types[value_number(v) as int] == want
                    && (actual == want ==> v == value),
                Err(e) => actual != want && !((want == ClifType::I64 || want == ClifType::I32) && actual.spec_is_int())
                    && exists|t: Type| clif_type_of(t) == actual && e@ == coerce_msg(backend@, t, expected, *function),
            }
        }),
{
    let actual_type = value_type(builder, value);
    let actual = type_kind(actual_type);
    let want = type_kind(expected);
    if actual == want {
        assert(clif_state(*builder).emitted =~= clif_state(*old(builder)).emitted + Seq::<ClifEntry>::empty());
        return Ok(value);
    }
    if want == ClifType::I64 && actual.is_int() {
        let v = ins_uextend(builder, expected, value);
        proof {
            lemma_entry_shape(ClifOp::Uextend, seq![value], seq![v]);
        }
        return Ok(v);
    }
    if want == ClifType::I32 && actual.is_int() {
        if actual == ClifType::I64 {
            let v = ins_ireduce(builder, expected, value);
            proof {
                lemma_entry_shape(ClifOp::Ireduce, seq![value], seq![v]);
            }
            return Ok(v);
        }
        let v = ins_uextend(builder, expected, value);
        proof {
            lemma_entry_shape(ClifOp::Uextend, seq![value], seq![v]);
        }
        return Ok(v);
    }
    let mut middle = String::from_str("cannot store `");
    let at = type_text(actual_type);
    middle.append(at.as_str());
    middle.append("` into mutable local declared as `");
    let et = type_text(expected);
    middle.append(et.as_str());
    middle.append("`");
    let r = fn_message(backend, middle.as_str(), function);
    assert(middle@ =~= "cannot store `"@ + clif_type_text(actual_type) + "` into mutable local declared as `"@ + clif_type_text(expected) + "`"@);
    assert(clif_type_of(actual_type) == actual);
    Err(r)
}

/// The error of the first operand that has no native value, if any.
pub open spec fn operand_error(
    values: Map<u32, NativeValueRepr>,
    ops: Seq<(ValueId, Seq<char>)>,
    backend: Seq<char>,
    function: Function,
) -> Option<Seq<char>>
    decreases ops.len(),
{
    if ops.len() == 0 {
        None
    } else if !values.contains_key(ops[0].0.0) {
        Some(unresolved_msg(backend, ops[0].1, ops[0].0, function))
    } else if values[ops[0].0.0] is Unit {
        Some(not_native_msg(backend, ops[0].1, function))
    } else {
        operand_error(values, ops.drop_first(), backend, function)
    }
}

pub open spec fn ops_view(ops: Seq<(ValueId, &str)>) -> Seq<(ValueId, Seq<char>)> {
    ops.map_values(|p: (ValueId, &str)| (p.0, p.1@))
}

/// The native values of the operands, in order; the error of the first one
/// that has none.
pub fn native_operands(values: &ValueMap, ops: &Vec<(ValueId, &str)>, function: &Function, backend: &str) -> (r: Result<Vec<Value>, String>)
    ensures
        match r {
            Ok(vs) => operand_error(values@, ops_view(ops@), backend@, *function) is None
                && vs@.len() == ops@.len()
                && forall|i: int| 0 <= i < ops@.len() ==> values@.contains_key(#[trigger] ops@[i].0.0)
                    && values@[ops@[i].0.0] == NativeValueRepr::Native(vs@[i]),
            Err(e) => operand_error(values@, ops_view(ops@), backend@, *function) == Some(e@),
        },
{
    let mut out: Vec<Value> = Vec::new();
    let mut i: usize = 0;
    assert(ops_view(ops@).skip(0) =~= ops_view(ops@));
    while i < ops.len()
        invariant
            i <= ops@.len(),
            out@.len() == i,
            operand_error(values@, ops_view(ops@), backend@, *function) == operand_error(
                values@,
                ops_view(ops@).skip(i as int),
                backend@,
                *function,
            ),
            forall|k: int| 0 <= k < i ==> values@.contains_key(#[trigger] ops@[k].0.0)
                && values@[ops@[k].0.0] == NativeValueRepr::Native(out@[k]),
        decreases ops@.len() - i,
    {
        let ghost rest = ops_view(ops@).skip(i as int);
        assert(rest[0] == (ops@[i as int].0, ops@[i as int].1@));
        assert(rest.drop_first() =~= ops_view(ops@).skip(i + 1));
        let v = native_value(values, ops[i].0, function, ops[i].1, backend)?;
        out.push(v);
        i = i + 1;
    }
    assert(ops_view(ops@).skip(ops@.len() as int) =~= Seq::<(ValueId, Seq<char>)>::empty());
    Ok(out)
}

/// Lowering does not panic on the instruction: it is one that the native
/// lowering handles, the kinds that it reads of list values are known, and
/// so for the instructions in its blocks.
pub open spec fn lowerable(inst: Inst, env: NativeLowering) -> bool
    decreases inst, 0nat,
{
    let kinds = env.kinds@;
    match inst {
        Inst::TextCmp { .. } | Inst::TextEqRange { .. } | Inst::TextFindByteRange { .. }
        | Inst::AllocPush | Inst::AllocPop | Inst::ParseI32Range { .. } => false,
        Inst::ListNew { value, .. } => kinds.contains_key(value.0),
        Inst::ListGet { list, .. } => kinds.contains_key(list.0),
        Inst::If { then_insts, else_insts, .. } => all_lowerable(then_insts@, env) && all_lowerable(else_insts@, env),
        Inst::While { condition_insts, body_insts, .. } => all_lowerable(condition_insts@, env) && all_lowerable(body_insts@, env),
        Inst::Repeat { body_insts, .. } => all_lowerable(body_insts@, env),
        Inst::Eq { left, .. } | Inst::Ne { left, .. } | Inst::Lt { left, .. } | Inst::Le { left, .. }
        | Inst::Gt { left, .. } | Inst::Ge { left, .. } => kinds.contains_key(left.0) ==> eq_fuel(
            env,
            kinds[left.0],
            compare_fuel(env),
        ),
        _ => true,
    }
}

pub open spec fn all_lowerable(insts: Seq<Inst>, env: NativeLowering) -> bool
    decreases insts, 1nat,
{
    if insts.len() == 0 {
        true
    } else {
        all_lowerable(insts.subrange(0, insts.len() - 1), env) && lowerable(insts[insts.len() - 1], env)
    }
}

/// The nesting depth of layouts within which comparing a kind must finish:
/// one per record and enum layout (enough whenever no layout contains
/// itself).
pub open spec fn compare_fuel(env: NativeLowering) -> nat {
    (env.records@.len() + env.enums@.len()) as nat
}

pub proof fn lemma_all_lowerable_each(insts: Seq<Inst>, env: NativeLowering)
    requires
        all_lowerable(insts, env),
    ensures
        forall|i: int| 0 <= i < insts.len() ==> lowerable(#[trigger] insts[i], env),
    decreases insts.len(),
{
    if insts.len() > 0 {
        let pre = insts.subrange(0, insts.len() - 1);
        lemma_all_lowerable_each(pre, env);
        assert forall|i: int| 0 <= i < insts.len() implies lowerable(#[trigger] insts[i], env) by {
            if i < insts.len() - 1 {
                assert(insts[i] == pre[i]);
            }
        }
    }
}

/// What lowering an instruction needs of its state.
pub open spec fn lower_pre(env: NativeLowering, s: BuilderView, values: Map<u32, NativeValueRepr>, headers: Map<u32, ListHeader>) -> bool {
    &&& s.positioned
    &&& env_ok(env, s)
    &&& values_ok(values, s)
    &&& headers_ok(headers, s)
}

/// Lowering an instruction changes the representation of its destination
/// and of nothing else.
pub open spec fn frame(inst: Inst, v0: Map<u32, NativeValueRepr>, v1: Map<u32, NativeValueRepr>) -> bool {
    match spec_inst_dest(inst) {
        Some(d) => v1.contains_key(d.0) && v1 == v0.insert(d.0, v1[d.0]),
        None => v1 == v0,
    }
}

/// The destination of the instruction, if it has one, is a native value.
pub open spec fn dest_native(inst: Inst, v1: Map<u32, NativeValueRepr>) -> bool {
    match spec_inst_dest(inst) {
        Some(d) => v1[d.0] is Native,
        None => true,
    }
}

/// The result is the error with message `m`.
pub open spec fn err_is<T>(r: Result<T, String>, m: Seq<char>) -> bool {
    r matches Err(e) && e@ == m
}

/// A call of a runtime helper: which helper, the operands in order with the
/// words that name them in messages, whether a null result traps, and how
/// messages name the helper.
pub struct HelperPlan {
    pub func: FuncRef,
    pub ops: Seq<(ValueId, Seq<char>)>,
    pub null_check: bool,
    pub what: Seq<char>,
}

pub open spec fn helper_plan(h: NativeHelpers, inst: Inst) -> Option<HelperPlan> {
    match inst {
        Inst::TextBuilderNew { .. } => Some(HelperPlan { func: h.text_builder_new, ops: seq![], null_check: true, what: "text builder new helper"@ }),
        Inst::TextBuilderAppend { builder, text, .. } => Some(HelperPlan {
            func: h.text_builder_append,
            ops: seq![(builder, "text_builder_append builder"@), (text, "text_builder_append text"@)],
            null_check: true,
            what: "text builder append helper"@,
        }),
        Inst::TextBuilderAppendCodepoint { builder, codepoint, .. } => Some(HelperPlan {
            func: h.text_builder_append_codepoint,
            ops: seq![(builder, "text_builder_append_codepoint builder"@), (codepoint, "text_builder_append_codepoint codepoint"@)],
            null_check: true,
            what: "text builder append codepoint helper"@,
        }),
        Inst::TextBuilderFinish { builder, .. } => Some(HelperPlan {
            func: h.text_builder_finish,
            ops: seq![(builder, "text_builder_finish builder"@)],
            null_check: true,
            what: "text builder finish helper"@,
        }),
        Inst::TextConcat { left, right, .. } => Some(HelperPlan {
            func: h.text_concat,
            ops: seq![(left, "text_concat left"@), (right, "text_concat right"@)],
            null_check: true,
            what: "text concat helper"@,
        }),
        Inst::TextSlice { text, start, end, .. } => Some(HelperPlan {
            func: h.text_slice,
            ops: seq![(text, "text_slice text"@), (start, "text_slice start"@), (end, "text_slice end"@)],
            null_check: true,
            what: "text slice helper"@,
        }),
        Inst::TextFromF64Fixed { value, digits, .. } => Some(HelperPlan {
            func: h.text_from_f64_fixed,
            ops: seq![(value, "text_from_f64_fixed value"@), (digits, "text_from_f64_fixed digits"@)],
            null_check: true,
            what: "text_from_f64_fixed helper"@,
        }),
        Inst::ParseI32 { text, .. } => Some(HelperPlan {
            func: h.parse_i32,
            ops: seq![(text, "parse_i32 text"@)],
            null_check: false,
            what: "parse_i32 helper"@,
        }),
        Inst::ParseF64 { text, .. } => Some(HelperPlan {
            func: h.parse_f64,
            ops: seq![(text, "parse_f64 text"@)],
            null_check: false,
            what: "parse_f64 helper"@,
        }),
        Inst::ArgCount { .. } => Some(HelperPlan { func: h.arg_count, ops: seq![], null_check: false, what: "arg count helper"@ }),
        Inst::ArgText { index, .. } => Some(HelperPlan {
            func: h.arg_text,
            ops: seq![(index, "arg_text index"@)],
            null_check: true,
            what: "arg text helper"@,
        }),
        Inst::StdinText { .. } => Some(HelperPlan { func: h.stdin_text, ops: seq![], null_check: true, what: "stdin text helper"@ }),
        _ => None,
    }
}

/// The error of a helper call: that of its first operand without a native
/// value, or a helper that does not return exactly one result.
pub open spec fn helper_error(env: NativeLowering, s: BuilderView, values: Map<u32, NativeValueRepr>, plan: HelperPlan) -> Option<Seq<char>> {
    match operand_error(values, plan.ops, env.backend@, *env.function) {
        Some(e) => Some(e),
        None => if s.func_returns[func_ref_number(plan.func) as int] != 1 {
            Some(shape_msg(env.backend@, plan.what, *env.function))
        } else {
            None
        },
    }
}

/// Lowers an instruction that calls a runtime helper for its one result
/// (see `helper_plan`): the operands' native values are passed, a result
/// other than one value is an error, and with the plan's null check the code
/// traps when the result is 0.
pub fn lower_helper_inst(
    env: &NativeLowering,
    builder: &mut FunctionBuilder,
    values: &mut ValueMap,
    inst: &Inst,
    Ghost(headers): Ghost<Map<u32, ListHeader>>,
) -> (r: Result<bool, String>)
    requires
        helper_plan(env.helpers, *inst) is Some,
        lower_pre(*env, clif_state(*old(builder)), old(values)@, headers),
    ensures
        extends(clif_state(*old(builder)), clif_state(*final(builder))),
        ({
            let plan = helper_plan(env.helpers, *inst)->0;
            match helper_error(*env, clif_state(*old(builder)), old(values)@, plan) {
                Some(e) => err_is(r, e),
                None => r == Ok::<bool, String>(true) && lower_pre(*env, clif_state(*final(builder)), final(values)@, headers)
                    && frame(*inst, old(values)@, final(values)@) && dest_native(*inst, final(values)@)
                    && clif_state(*final(builder)).emitted == clif_state(*old(builder)).emitted + helper_call_entries(
                    *env,
                    *inst,
                    old(values)@,
                    final(values)@,
                ),
            }
        }),
{
    let h = &env.helpers;
    let (dest, func, ops, null_check, what): (ValueId, FuncRef, Vec<(ValueId, &str)>, bool, &str) = match inst {
        Inst::TextBuilderNew { dest } => (*dest, h.text_builder_new, vec![], true, "text builder new helper"),
        Inst::TextBuilderAppend { dest, builder: b, text } => (
            *dest,
            h.text_builder_append,
            vec![(*b, "text_builder_append builder"), (*text, "text_builder_append text")],
            true,
            "text builder append helper",
        ),
        Inst::TextBuilderAppendCodepoint { dest, builder: b, codepoint } => (
            *dest,
            h.text_builder_append_codepoint,
            vec![(*b, "text_builder_append_codepoint builder"), (*codepoint, "text_builder_append_codepoint codepoint")],
            true,
            "text builder append codepoint helper",
        ),
        Inst::TextBuilderFinish { dest, builder: b } => (
            *dest,
            h.text_builder_finish,
            vec![(*b, "text_builder_finish builder")],
            true,
            "text builder finish helper",
        ),
        Inst::TextConcat { dest, left, right } => (
            *dest,
            h.text_concat,
            vec![(*left, "text_concat left"), (*right, "text_concat right")],
            true,
            "text concat helper",
        ),
        Inst::TextSlice { dest, text, start, end } => (
            *dest,
            h.text_slice,
            vec![(*text, "text_slice text"), (*start, "text_slice start"), (*end, "text_slice end")],
            true,
            "text slice helper",
        ),
        Inst::TextFromF64Fixed { dest, value, digits } => (
            *dest,
            h.text_from_f64_fixed,
            vec![(*value, "text_from_f64_fixed value"), (*digits, "text_from_f64_fixed digits")],
            true,
            "text_from_f64_fixed helper",
        ),
        Inst::ParseI32 { dest, text } => (*dest, h.parse_i32, vec![(*text, "parse_i32 text")], false, "parse_i32 helper"),
        Inst::ParseF64 { dest, text } => (*dest, h.parse_f64, vec![(*text, "parse_f64 text")], false, "parse_f64 helper"),
        Inst::ArgCount { dest } => (*dest, h.arg_count, vec![], false, "arg count helper"),
        Inst::ArgText { dest, index } => (*dest, h.arg_text, vec![(*index, "arg_text index")], true, "arg text helper"),
        Inst::StdinText { dest } => (*dest, h.stdin_text, vec![], true, "stdin text helper"),
        _ => {
            assert(false);
            return Err(String::new());
        },
    };
    let ghost plan = helper_plan(env.helpers, *inst)->0;
    assert(ops_view(ops@) =~= plan.ops);
    assert(what@ == plan.what);
    assert(func == plan.func);
    let args = native_operands(values, &ops, env.function, env.backend)?;
    assert forall|i: int| 0 <= i < args@.len() implies #[trigger] value_number(args@[i]) < clif_state(*builder).value_types.len() by {
        assert(values@.contains_key(ops@[i].0.0));
    }
    let v = call_helper(builder, func, args.as_slice(), null_check, what, env.function, env.backend)?;
    proof {
        assert(null_check == plan.null_check);
        let fa = |a: Value| value_number(a);
        let fo = |o: (ValueId, Seq<char>)| native_number(old(values)@, o.0);
        let la = args@.map_values(fa);
        let lo = plan.ops.map_values(fo);
        assert forall|i: int| 0 <= i < args@.len() implies #[trigger] la[i] == lo[i] by {
            assert(values@[ops@[i].0.0] == NativeValueRepr::Native(args@[i]));
            assert(plan.ops[i] == ops_view(ops@)[i]);
        }
        assert(la =~= lo);
    }
    let ghost mid = values@;
    values.insert(dest, NativeValueRepr::Native(v));
    proof {
        lemma_ok_kept(*env, mid, headers, clif_state(*old(builder)), clif_state(*builder));
    }
    Ok(true)
}

/// The operands, in order, of the instructions that compute one value from
/// native operands with builder instructions alone (and of `stdout_write`
/// and `assert`), with the words that name them in messages.
pub open spec fn value_ops(inst: Inst) -> Option<Seq<(ValueId, Seq<char>)>> {
    match inst {
        Inst::Add { left, right, .. } => Some(seq![(left, "add left operand"@), (right, "add right operand"@)]),
        Inst::Sub { left, right, .. } => Some(seq![(left, "sub left operand"@), (right, "sub right operand"@)]),
        Inst::Mul { left, right, .. } => Some(seq![(left, "mul left operand"@), (right, "mul right operand"@)]),
        Inst::Div { left, right, .. } => Some(seq![(left, "div left operand"@), (right, "div right operand"@)]),
        Inst::And { left, right, .. } => Some(seq![(left, "and left operand"@), (right, "and right operand"@)]),
        Inst::Or { left, right, .. } => Some(seq![(left, "or left operand"@), (right, "or right operand"@)]),
        Inst::Sqrt { value, .. } => Some(seq![(value, "sqrt operand"@)]),
        Inst::F64FromI32 { value, .. } => Some(seq![(value, "f64_from_i32 value"@)]),
        Inst::TextLen { text, .. } => Some(seq![(text, "text_len"@)]),
        Inst::TextByte { text, index, .. } => Some(seq![(text, "text_byte text"@), (index, "text_byte index"@)]),
        Inst::StdoutWrite { text } => Some(seq![(text, "stdout_write text"@)]),
        Inst::Assert { condition, .. } => Some(seq![(condition, "contract condition"@)]),
        _ => None,
    }
}

/// The arithmetic instructions pick integer or float instructions by the
/// kind of the left operand; they name it by this word when it has none.
pub open spec fn arith_word(inst: Inst) -> Option<(ValueId, Seq<char>)> {
    match inst {
        Inst::Add { left, .. } => Some((left, "add"@)),
        Inst::Sub { left, .. } => Some((left, "sub"@)),
        Inst::Mul { left, .. } => Some((left, "mul"@)),
        Inst::Div { left, .. } => Some((left, "div"@)),
        _ => None,
    }
}

pub open spec fn kind_missing_msg(backend: Seq<char>, word: Seq<char>, function: Function) -> Seq<char> {
    backend + " could not resolve "@ + word + " left operand kind for `"@ + function.name@ + "`"@
}

/// The value number of the native value that `id` stands for.
pub open spec fn native_number(values: Map<u32, NativeValueRepr>, id: ValueId) -> nat {
    value_number(values[id.0]->Native_0)
}

/// The instruction-builder call that lowering an arithmetic, bitwise or
/// conversion instruction makes, over the native values of its operands
/// (`v0`) and of its result (`v1`): the float call for a left operand of
/// kind F64, the integer call otherwise.
pub open spec fn value_call(env: NativeLowering, inst: Inst, v0: Map<u32, NativeValueRepr>, v1: Map<u32, NativeValueRepr>) -> Option<ClifEntry> {
    let is_float = |l: ValueId| env.kinds@[l.0] == KindView::F64;
    match inst {
        Inst::Add { dest, left, right } => Some(ClifEntry {
            op: if is_float(left) { ClifOp::Fadd } else { ClifOp::Iadd },
            args: seq![native_number(v0, left), native_number(v0, right)],
            results: seq![native_number(v1, dest)],
        }),
        Inst::Sub { dest, left, right } => Some(ClifEntry {
            op: if is_float(left) { ClifOp::Fsub } else { ClifOp::Isub },
            args: seq![native_number(v0, left), native_number(v0, right)],
            results: seq![native_number(v1, dest)],
        }),
        Inst::Mul { dest, left, right } => Some(ClifEntry {
            op: if is_float(left) { ClifOp::Fmul } else { ClifOp::Imul },
            args: seq![native_number(v0, left), native_number(v0, right)],
            results: seq![native_number(v1, dest)],
        }),
        Inst::Div { dest, left, right } => Some(ClifEntry {
            op: if is_float(left) { ClifOp::Fdiv } else { ClifOp::Sdiv },
            args: seq![native_number(v0, left), native_number(v0, right)],
            results: seq![native_number(v1, dest)],
        }),
        Inst::And { dest, left, right } => Some(ClifEntry {
            op: ClifOp::Band,
            args: seq![native_number(v0, left), native_number(v0, right)],
            results: seq![native_number(v1, dest)],
        }),
        Inst::Or { dest, left, right } => Some(ClifEntry {
            op: ClifOp::Bor,
            args: seq![native_number(v0, left), native_number(v0, right)],
            results: seq![native_number(v1, dest)],
        }),
        Inst::Sqrt { dest, value } => Some(ClifEntry {
            op: ClifOp::Sqrt,
            args: seq![native_number(v0, value)],
            results: seq![native_number(v1, dest)],
        }),
        Inst::F64FromI32 { dest, value } => Some(ClifEntry {
            op: ClifOp::FcvtFromSint,
            args: seq![native_number(v0, value)],
            results: seq![native_number(v1, dest)],
        }),
        Inst::TextLen { dest, text } => Some(ClifEntry {
            op: ClifOp::Load(MemKind::Trusted, 0),
            args: seq![native_number(v0, text)],
            results: seq![native_number(v1, dest)],
        }),
        Inst::Assert { condition, kind, .. } => Some(ClifEntry {
            op: ClifOp::TrapzUser(
                match kind {
                    ContractKind::Requires => 1u8,
                    ContractKind::Ensures => 2u8,
                    ContractKind::Bounds => 3u8,
                },
            ),
            args: seq![native_number(v0, condition)],
            results: seq![],
        }),
        _ => None,
    }
}

/// The instructions of the value instructions that make more than one:
/// `text_byte` adds 8 (the length word) to the index (an `_imm` call),
/// adds that to the text's pointer, loads the byte there and zero-extends
/// it; `stdout_write` calls its runtime helper on the text. `None` for
/// other instructions, and for a `text_byte` index of a type that the
/// lowering does not name.
pub open spec fn value_calls(env: NativeLowering, s0: BuilderView, inst: Inst, v0: Map<u32, NativeValueRepr>) -> Option<Seq<ClifEntry>> {
    let n = s0.value_types.len();
    match inst {
        Inst::TextByte { text, index, .. } => {
            let x = native_number(v0, index);
            let t = s0.value_types[x as int];
            let off = (n + imm_values(t) - 1) as nat;
            if t == ClifType::Other {
                None
            } else {
                Some(imm_entries(ClifOp::Iadd, x, t, 8, n) + seq![
                    ClifEntry { op: ClifOp::Iadd, args: seq![native_number(v0, text), off], results: seq![off + 1] },
                    ClifEntry { op: ClifOp::Load(MemKind::Trusted, 0), args: seq![off + 1], results: seq![off + 2] },
                    ClifEntry { op: ClifOp::Uextend, args: seq![off + 2], results: seq![off + 3] },
                ])
            }
        },
        Inst::StdoutWrite { text } => Some(seq![ClifEntry {
            op: ClifOp::Call(func_ref_number(env.helpers.stdout_write)),
            args: seq![native_number(v0, text)],
            results: Seq::new(s0.func_returns[func_ref_number(env.helpers.stdout_write) as int], |i: int| (n + i) as nat),
        }]),
        _ => None,
    }
}

pub proof fn lemma_entry_shape(op: ClifOp, args: Seq<Value>, results: Seq<Value>)
    ensures
        args.len() == 2 && results.len() == 1 ==> entry(op, args, results) == (ClifEntry {
            op,
            args: seq![value_number(args[0]), value_number(args[1])],
            results: seq![value_number(results[0])],
        }),
        args.len() == 1 && results.len() == 1 ==> entry(op, args, results) == (ClifEntry {
            op,
            args: seq![value_number(args[0])],
            results: seq![value_number(results[0])],
        }),
        args.len() == 1 && results.len() == 0 ==> entry(op, args, results) == (ClifEntry {
            op,
            args: seq![value_number(args[0])],
            results: seq![],
        }),
        args.len() == 2 && results.len() == 0 ==> entry(op, args, results) == (ClifEntry {
            op,
            args: seq![value_number(args[0]), value_number(args[1])],
            results: seq![],
        }),
        args.len() == 0 && results.len() == 0 ==> entry(op, args, results) == (ClifEntry {
            op,
            args: seq![],
            results: seq![],
        }),
        args.len() == 0 && results.len() == 1 ==> entry(op, args, results) == (ClifEntry {
            op,
            args: seq![],
            results: seq![value_number(results[0])],
        }),
{
    let f = |v: Value| value_number(v);
    if args.len() == 2 && results.len() == 1 {
        assert(args.map_values(f) =~= seq![value_number(args[0]), value_number(args[1])]);
        assert(results.map_values(f) =~= seq![value_number(results[0])]);
    }
    if args.len() == 1 && results.len() == 1 {
        assert(args.map_values(f) =~= seq![value_number(args[0])]);
        assert(results.map_values(f) =~= seq![value_number(results[0])]);
    }
    if args.len() == 1 && results.len() == 0 {
        assert(args.map_values(f) =~= seq![value_number(args[0])]);
        assert(results.map_values(f) =~= Seq::<nat>::empty());
    }
    if args.len() == 2 && results.len() == 0 {
        assert(args.map_values(f) =~= seq![value_number(args[0]), value_number(args[1])]);
        assert(results.map_values(f) =~= Seq::<nat>::empty());
    }
    if args.len() == 0 && results.len() == 0 {
        assert(args.map_values(f) =~= Seq::<nat>::empty());
        assert(results.map_values(f) =~= Seq::<nat>::empty());
    }
    if args.len() == 0 && results.len() == 1 {
        assert(args.map_values(f) =~= Seq::<nat>::empty());
        assert(results.map_values(f) =~= seq![value_number(results[0])]);
    }
}

/// The error of lowering such an instruction, if it fails.
pub open spec fn value_inst_error(env: NativeLowering, values: Map<u32, NativeValueRepr>, inst: Inst) -> Option<Seq<char>> {
    match arith_word(inst) {
        Some((left, word)) if !env.kinds@.contains_key(left.0) => Some(kind_missing_msg(env.backend@, word, *env.function)),
        _ => operand_error(values, value_ops(inst)->0, env.backend@, *env.function),
    }
}

/// Lowers an instruction of `value_ops`: float or integer arithmetic by the
/// kind of the left operand, bitwise and/or, square root, integer-to-float
/// conversion, text length (the word at offset 0), a text byte (the byte at
/// offset 8 + index, zero-extended), writing text to stdout through the
/// runtime, and a contract check that traps with the contract's code when
/// its condition is 0.
#[verifier::spinoff_prover]
#[verifier::rlimit(60)]
pub fn lower_value_inst(
    env: &NativeLowering,
    builder: &mut FunctionBuilder,
    values: &mut ValueMap,
    inst: &Inst,
    Ghost(headers): Ghost<Map<u32, ListHeader>>,
) -> (r: Result<bool, String>)
    requires
        value_ops(*inst) is Some,
        lower_pre(*env, clif_state(*old(builder)), old(values)@, headers),
    ensures
        extends(clif_state(*old(builder)), clif_state(*final(builder))),
        match value_inst_error(*env, old(values)@, *inst) {
            Some(e) => err_is(r, e),
            None => r == Ok::<bool, String>(true) && lower_pre(*env, clif_state(*final(builder)), final(values)@, headers)
                && frame(*inst, old(values)@, final(values)@) && dest_native(*inst, final(values)@)
                && (value_call(*env, *inst, old(values)@, final(values)@) matches Some(e) ==> clif_state(*final(builder)).emitted
                    == clif_state(*old(builder)).emitted.push(e))
                && (value_calls(*env, clif_state(*old(builder)), *inst, old(values)@) matches Some(es)
                    ==> clif_state(*final(builder)).emitted == clif_state(*old(builder)).emitted + es),
        },
{
    let ghost s0 = clif_state(*builder);
    let mut is_float = false;
    match inst {
        Inst::Add { left, .. } | Inst::Sub { left, .. } | Inst::Mul { left, .. } | Inst::Div { left, .. } => {
            let word = match inst {
                Inst::Add { .. } => "add",
                Inst::Sub { .. } => "sub",
                Inst::Mul { .. } => "mul",
                _ => "div",
            };
            match env.kinds.get(*left) {
                Some(k) => {
                    is_float = matches!(k, NativeValueKind::F64);
                },
                None => {
                    let mut m = String::from_str(env.backend);
                    m.append(" could not resolve ");
                    m.append(word);
                    m.append(" left operand kind for `");
                    m.append(env.function.name.as_str());
                    m.append("`");
                    assert(m@ =~= kind_missing_msg(env.backend@, word@, *env.function));
                    return Err(m);
                },
            }
        },
        _ => {},
    }
    let ops: Vec<(ValueId, &str)> = match inst {
        Inst::Add { left, right, .. } => vec![(*left, "add left operand"), (*right, "add right operand")],
        Inst::Sub { left, right, .. } => vec![(*left, "sub left operand"), (*right, "sub right operand")],
        Inst::Mul { left, right, .. } => vec![(*left, "mul left operand"), (*right, "mul right operand")],
        Inst::Div { left, right, .. } => vec![(*left, "div left operand"), (*right, "div right operand")],
        Inst::And { left, right, .. } => vec![(*left, "and left operand"), (*right, "and right operand")],
        Inst::Or { left, right, .. } => vec![(*left, "or left operand"), (*right, "or right operand")],
        Inst::Sqrt { value, .. } => vec![(*value, "sqrt operand")],
        Inst::F64FromI32 { value, .. } => vec![(*value, "f64_from_i32 value")],
        Inst::TextLen { text, .. } => vec![(*text, "text_len")],
        Inst::TextByte { text, index, .. } => vec![(*text, "text_byte text"), (*index, "text_byte index")],
        Inst::StdoutWrite { text } => vec![(*text, "stdout_write text")],
        Inst::Assert { condition, .. } => vec![(*condition, "contract condition")],
        _ => {
            assert(false);
            vec![]
        },
    };
    assert(ops_view(ops@) =~= value_ops(*inst)->0);
    let args = native_operands(values, &ops, env.function, env.backend)?;
    assert forall|i: int| 0 <= i < args@.len() implies #[trigger] value_number(args@[i]) < s0.value_types.len() by {
        assert(values@.contains_key(ops@[i].0.0));
    }
    let dest: ValueId = match inst {
        Inst::Add { dest, .. } => {
            let v = if is_float { ins_fadd(builder, args[0], args[1]) } else { ins_iadd(builder, args[0], args[1]) };
            proof {
                lemma_entry_shape(ClifOp::Fadd, seq![args@[0], args@[1]], seq![v]);
                lemma_entry_shape(ClifOp::Fadd, seq![args@[0], args@[1]], seq![v]);
                lemma_entry_shape(ClifOp::Iadd, seq![args@[0], args@[1]], seq![v]);
            }
            values.insert(*dest, NativeValueRepr::Native(v));
            *dest
        },
        Inst::Sub { dest, .. } => {
            let v = if is_float { ins_fsub(builder, args[0], args[1]) } else { ins_isub(builder, args[0], args[1]) };
            proof {
                lemma_entry_shape(ClifOp::Fadd, seq![args@[0], args@[1]], seq![v]);
                lemma_entry_shape(ClifOp::Fsub, seq![args@[0], args@[1]], seq![v]);
                lemma_entry_shape(ClifOp::Isub, seq![args@[0], args@[1]], seq![v]);
            }
            values.insert(*dest, NativeValueRepr::Native(v));
            *dest
        },
        Inst::Mul { dest, .. } => {
            let v = if is_float { ins_fmul(builder, args[0], args[1]) } else { ins_imul(builder, args[0], args[1]) };
            proof {
                lemma_entry_shape(ClifOp::Fadd, seq![args@[0], args@[1]], seq![v]);
                lemma_entry_shape(ClifOp::Fmul, seq![args@[0], args@[1]], seq![v]);
                lemma_entry_shape(ClifOp::Imul, seq![args@[0], args@[1]], seq![v]);
            }
            values.insert(*dest, NativeValueRepr::Native(v));
            *dest
        },
        Inst::Div { dest, .. } => {
            let v = if is_float { ins_fdiv(builder, args[0], args[1]) } else { ins_sdiv(builder, args[0], args[1]) };
            proof {
                lemma_entry_shape(ClifOp::Fadd, seq![args@[0], args@[1]], seq![v]);
                lemma_entry_shape(ClifOp::Fdiv, seq![args@[0], args@[1]], seq![v]);
                lemma_entry_shape(ClifOp::Sdiv, seq![args@[0], args@[1]], seq![v]);
            }
            values.insert(*dest, NativeValueRepr::Native(v));
            *dest
        },
        Inst::And { dest, .. } => {
            let v = ins_band(builder, args[0], args[1]);
            proof {
                lemma_entry_shape(ClifOp::Band, seq![args@[0], args@[1]], seq![v]);
            }
            values.insert(*dest, NativeValueRepr::Native(v));
            *dest
        },
        Inst::Or { dest, .. } => {
            let v = ins_bor(builder, args[0], args[1]);
            proof {
                lemma_entry_shape(ClifOp::Bor, seq![args@[0], args@[1]], seq![v]);
            }
            values.insert(*dest, NativeValueRepr::Native(v));
            *dest
        },
        Inst::Sqrt { dest, .. } => {
            let v = ins_sqrt(builder, args[0]);
            proof {
                lemma_entry_shape(ClifOp::Sqrt, seq![args@[0]], seq![v]);
            }
            values.insert(*dest, NativeValueRepr::Native(v));
            *dest
        },
        Inst::F64FromI32 { dest, .. } => {
            let f64t = clif_type(ClifType::F64);
            let v = ins_fcvt_from_sint(builder, f64t, args[0]);
            proof {
                lemma_entry_shape(ClifOp::FcvtFromSint, seq![args@[0]], seq![v]);
            }
            values.insert(*dest, NativeValueRepr::Native(v));
            *dest
        },
        Inst::TextLen { dest, .. } => {
            let i64t = clif_type(ClifType::I64);
            let v = ins_load(builder, i64t, MemKind::Trusted, args[0], 0);
            proof {
                lemma_entry_shape(ClifOp::Load(MemKind::Trusted, 0), seq![args@[0]], seq![v]);
            }
            values.insert(*dest, NativeValueRepr::Native(v));
            *dest
        },
        Inst::TextByte { dest, .. } => {
            let ghost sb = clif_state(*builder);
            let offset = ins_iadd_imm(builder, args[1], 8);
            let ghost si = clif_state(*builder);
            let addr = ins_iadd(builder, args[0], offset);
            let i8t = clif_type(ClifType::I8);
            let byte = ins_load(builder, i8t, MemKind::Trusted, addr, 0);
            let i64t = clif_type(ClifType::I64);
            let v = ins_uextend(builder, i64t, byte);
            proof {
                lemma_entry_shape(ClifOp::Iadd, seq![args@[0], offset], seq![addr]);
                lemma_entry_shape(ClifOp::Load(MemKind::Trusted, 0), seq![addr], seq![byte]);
                lemma_entry_shape(ClifOp::Uextend, seq![byte], seq![v]);
                let t = sb.value_types[value_number(args@[1]) as int];
                if t != ClifType::Other {
                    assert(value_calls(*env, sb, *inst, old(values)@) is Some);
                    assert(clif_state(*builder).emitted =~= sb.emitted + value_calls(*env, sb, *inst, old(values)@)->0);
                }
            }
            values.insert(*dest, NativeValueRepr::Native(v));
            *dest
        },
        Inst::StdoutWrite { .. } => {
            let ghost sb = clif_state(*builder);
            let results = ins_call(builder, env.helpers.stdout_write, args.as_slice());
            proof {
                let n = sb.value_types.len();
                assert(results@.map_values(|v: Value| value_number(v)) =~= Seq::new(
                    sb.func_returns[func_ref_number(env.helpers.stdout_write) as int],
                    |i: int| (n + i) as nat,
                ));
                assert(args@.map_values(|v: Value| value_number(v)) =~= seq![value_number(args@[0])]);
                assert(clif_state(*builder).emitted =~= sb.emitted + value_calls(*env, sb, *inst, old(values)@)->0);
            }
            ValueId(0)
        },
        Inst::Assert { kind, .. } => {
            let code = contract_trap_code(*kind);
            ins_trapz_user(builder, args[0], code);
            proof {
                lemma_entry_shape(ClifOp::TrapzUser(code), seq![args@[0]], seq![]);
            }
            ValueId(0)
        },
        _ => {
            assert(false);
            ValueId(0)
        },
    };
    proof {
        lemma_ok_kept(*env, old(values)@, headers, s0, clif_state(*builder));
    }
    Ok(true)
}

/// The variable of the first entry for `slot`.
pub open spec fn slot_var(vars: Seq<(LocalSlotId, Variable)>, slot: LocalSlotId) -> Option<Variable>
    decreases vars.len(),
{
    if vars.len() == 0 {
        None
    } else if vars[0].0 == slot {
        Some(vars[0].1)
    } else {
        slot_var(vars.drop_first(), slot)
    }
}

/// The type of the first entry for `slot`.
pub open spec fn slot_type(types: Seq<(LocalSlotId, Type)>, slot: LocalSlotId) -> Option<Type>
    decreases types.len(),
{
    if types.len() == 0 {
        None
    } else if types[0].0 == slot {
        Some(types[0].1)
    } else {
        slot_type(types.drop_first(), slot)
    }
}

/// The global value of the first entry for the text.
pub open spec fn text_global(texts: Seq<(String, GlobalValue)>, text: Seq<char>) -> Option<GlobalValue>
    decreases texts.len(),
{
    if texts.len() == 0 {
        None
    } else if texts[0].0@ == text {
        Some(texts[0].1)
    } else {
        text_global(texts.drop_first(), text)
    }
}

fn find_slot_var(vars: &[(LocalSlotId, Variable)], slot: LocalSlotId) -> (r: Option<Variable>)
    ensures
        r == slot_var(vars@, slot),
        r is Some ==> exists|i: int| 0 <= i < vars@.len() && vars@[i].0 == slot && vars@[i].1 == r->0,
{
    let mut i: usize = 0;
    assert(vars@.skip(0) =~= vars@);
    while i < vars.len()
        invariant
            i <= vars@.len(),
            slot_var(vars@, slot) == slot_var(vars@.skip(i as int), slot),
        decreases vars@.len() - i,
    {
        assert(vars@.skip(i as int).drop_first() =~= vars@.skip(i + 1));
        if vars[i].0.0 == slot.0 {
            assert(vars@.skip(i as int)[0] == vars@[i as int]);
            return Some(vars[i].1);
        }
        i = i + 1;
    }
    None
}

fn find_slot_type(types: &[(LocalSlotId, Type)], slot: LocalSlotId) -> (r: Option<Type>)
    ensures
        r == slot_type(types@, slot),
        r is Some ==> exists|i: int| 0 <= i < types@.len() && types@[i].0 == slot && types@[i].1 == r->0,
{
    let mut i: usize = 0;
    assert(types@.skip(0) =~= types@);
    while i < types.len()
        invariant
            i <= types@.len(),
            slot_type(types@, slot) == slot_type(types@.skip(i as int), slot),
        decreases types@.len() - i,
    {
        assert(types@.skip(i as int).drop_first() =~= types@.skip(i + 1));
        if types[i].0.0 == slot.0 {
            assert(types@.skip(i as int)[0] == types@[i as int]);
            return Some(types[i].1);
        }
        i = i + 1;
    }
    None
}

fn find_text_global(texts: &[(String, GlobalValue)], text: &str) -> (r: Option<GlobalValue>)
    ensures
        r == text_global(texts@, text@),
{
    let mut i: usize = 0;
    assert(texts@.skip(0) =~= texts@);
    while i < texts.len()
        invariant
            i <= texts@.len(),
            text_global(texts@, text@) == text_global(texts@.skip(i as int), text@),
        decreases texts@.len() - i,
    {
        assert(texts@.skip(i as int).drop_first() =~= texts@.skip(i + 1));
        if text_eq(texts[i].0.as_str(), text) {
            assert(texts@.skip(i as int)[0] == texts@[i as int]);
            return Some(texts[i].1);
        }
        i = i + 1;
    }
    None
}

pub open spec fn param_oob_msg(backend: Seq<char>, function: Function, index: usize) -> Seq<char> {
    backend + " parameter load out of bounds in `"@ + function.name@ + "` at index "@ + nat_text(index as nat)
}

pub open spec fn local_unavailable_msg(backend: Seq<char>, slot: LocalSlotId, function: Function) -> Seq<char> {
    fn_msg(backend, "mutable local "@ + slot_text(slot) + " is unavailable"@, function)
}

pub open spec fn local_untyped_msg(backend: Seq<char>, slot: LocalSlotId, function: Function) -> Seq<char> {
    fn_msg(backend, "mutable local "@ + slot_text(slot) + " is missing a declared native type"@, function)
}

pub open spec fn missing_text_msg(backend: Seq<char>, text: Seq<char>, function: Function) -> Seq<char> {
    fn_msg(backend, "is missing text data for "@ + spec_debug_text(text), function)
}

/// The instructions that load constants, parameters and locals, and store
/// locals.
pub open spec fn is_local_inst(inst: Inst) -> bool {
    inst is ConstInt || inst is ConstF64 || inst is ConstBool || inst is ConstText || inst is LoadParam
        || inst is LoadLocal || inst is StoreLocal
}

/// The error of lowering such an instruction, if it fails on the lowering's
/// own tables (a failed store coercion aside, see `coerce_var_value`).
pub open spec fn local_inst_error(env: NativeLowering, values: Map<u32, NativeValueRepr>, inst: Inst) -> Option<Seq<char>> {
    match inst {
        Inst::LoadParam { index, .. } => if index >= env.block_params@.len() {
            Some(param_oob_msg(env.backend@, *env.function, index))
        } else {
            None
        },
        Inst::LoadLocal { slot, .. } => if slot_var(env.slot_vars@, slot) is None {
            Some(local_unavailable_msg(env.backend@, slot, *env.function))
        } else {
            None
        },
        Inst::StoreLocal { slot, src } => if slot_var(env.slot_vars@, slot) is None {
            Some(local_unavailable_msg(env.backend@, slot, *env.function))
        } else if slot_type(env.slot_types@, slot) is None {
            Some(local_untyped_msg(env.backend@, slot, *env.function))
        } else {
            operand_error(values, seq![(src, "mutable store"@)], env.backend@, *env.function)
        },
        Inst::ConstText { value, .. } => if text_global(env.texts@, value@) is None {
            Some(missing_text_msg(env.backend@, value@, *env.function))
        } else {
            None
        },
        _ => None,
    }
}

/// Whether a local store's value fits its local: the value's type is the
/// local's declared type, or it is an integer and the local's type is I64
/// or I32 (the value is then zero-extended or reduced).
pub open spec fn store_fits(env: NativeLowering, s: BuilderView, values: Map<u32, NativeValueRepr>, inst: Inst) -> bool {
    match inst {
        Inst::StoreLocal { slot, src } => match slot_type(env.slot_types@, slot) {
            Some(t) => {
                let actual = s.value_types[native_number(values, src) as int];
                let want = clif_type_of(t);
                actual == want || ((want == ClifType::I64 || want == ClifType::I32) && actual.spec_is_int())
            },
            None => true,
        },
        _ => true,
    }
}

/// The instruction-builder calls that lowering a constant, parameter load or
/// local load makes: an I64 constant for an integer or a bool (0 or 1), an
/// F64 constant by its bits, the text's symbol address, none for a
/// parameter load, for a local load none beyond what settling the
/// variable adds, and for a local store the conversion of the value to the
/// local's type (see `coerce_entries`).
pub open spec fn local_emitted(env: NativeLowering, inst: Inst, s0: BuilderView, s1: BuilderView, v1: Map<u32, NativeValueRepr>) -> bool {
    let made = |op: ClifOp, d: ValueId| s1.emitted == s0.emitted.push(ClifEntry { op, args: seq![], results: seq![native_number(v1, d)] });
    match inst {
        Inst::ConstInt { dest, value } => made(ClifOp::Iconst(value), dest),
        Inst::ConstBool { dest, value } => made(ClifOp::Iconst(if value { 1 } else { 0 }), dest),
        Inst::ConstF64 { dest, bits } => made(ClifOp::F64const(bits), dest),
        Inst::ConstText { dest, .. } => made(ClifOp::SymbolValue, dest),
        Inst::LoadParam { .. } => s1.emitted == s0.emitted,
        Inst::LoadLocal { .. } => emitted_prefix(s0.emitted, s1.emitted),
        Inst::StoreLocal { slot, src } => match slot_type(env.slot_types@, slot) {
            Some(t) => s1.emitted == s0.emitted + coerce_entries(
                s0.value_types[native_number(v1, src) as int],
                clif_type_of(t),
                native_number(v1, src),
                s0.value_types.len(),
            ),
            None => true,
        },
        _ => true,
    }
}

/// Lowers a constant (an I64 constant, a bool as 0 or 1, an F64 constant by
/// its bits, the address of a text's data), a parameter load (the entry
/// block's parameter at the index), a local load (the local's variable) or
/// a local store (the value, made to fit the local's type, defined for its
/// variable).
pub fn lower_local_inst(
    env: &NativeLowering,
    builder: &mut FunctionBuilder,
    values: &mut ValueMap,
    inst: &Inst,
    Ghost(headers): Ghost<Map<u32, ListHeader>>,
) -> (r: Result<bool, String>)
    requires
        is_local_inst(*inst),
        lower_pre(*env, clif_state(*old(builder)), old(values)@, headers),
    ensures
        extends(clif_state(*old(builder)), clif_state(*final(builder))),
        r is Ok ==> r == Ok::<bool, String>(true) && lower_pre(*env, clif_state(*final(builder)), final(values)@, headers)
            && frame(*inst, old(values)@, final(values)@) && dest_native(*inst, final(values)@)
            && local_emitted(*env, *inst, clif_state(*old(builder)), clif_state(*final(builder)), final(values)@),
        match local_inst_error(*env, old(values)@, *inst) {
            Some(e) => err_is(r, e),
            None => r is Err ==> *inst is StoreLocal && !store_fits(*env, clif_state(*old(builder)), old(values)@, *inst),
        },
{
    let ghost s0 = clif_state(*builder);
    let i64t = clif_type(ClifType::I64);
    match inst {
        Inst::ConstInt { dest, value } => {
            let v = ins_iconst(builder, i64t, *value);
            proof {
                lemma_entry_shape(ClifOp::Iconst(*value), seq![], seq![v]);
            }
            values.insert(*dest, NativeValueRepr::Native(v));
        },
        Inst::ConstBool { dest, value } => {
            let n: i64 = if *value { 1 } else { 0 };
            let v = ins_iconst(builder, i64t, n);
            proof {
                lemma_entry_shape(ClifOp::Iconst(n), seq![], seq![v]);
            }
            values.insert(*dest, NativeValueRepr::Native(v));
        },
        Inst::ConstF64 { dest, bits } => {
            let v = ins_f64const(builder, *bits);
            proof {
                lemma_entry_shape(ClifOp::F64const(*bits), seq![], seq![v]);
            }
            values.insert(*dest, NativeValueRepr::Native(v));
        },
        Inst::ConstText { dest, value } => {
            match find_text_global(env.texts, value.as_str()) {
                Some(gv) => {
                    let v = ins_symbol_value(builder, i64t, gv);
                    proof {
                        lemma_entry_shape(ClifOp::SymbolValue, seq![], seq![v]);
                    }
                    values.insert(*dest, NativeValueRepr::Native(v));
                },
                None => {
                    let mut middle = String::from_str("is missing text data for ");
                    let d = debug_text(value.as_str());
                    middle.append(d.as_str());
                    assert(middle@ =~= "is missing text data for "@ + spec_debug_text(value@));
                    return Err(fn_message(env.backend, middle.as_str(), env.function));
                },
            }
        },
        Inst::LoadParam { dest, index } => {
            if *index >= env.block_params.len() {
                let mut m = String::from_str(env.backend);
                m.append(" parameter load out of bounds in `");
                m.append(env.function.name.as_str());
                m.append("` at index ");
                push_u64(&mut m, *index as u64);
                assert(m@ =~= param_oob_msg(env.backend@, *env.function, *index));
                return Err(m);
            }
            let v = env.block_params[*index];
            assert(value_number(env.block_params@[*index as int]) < s0.value_types.len());
            values.insert(*dest, NativeValueRepr::Native(v));
        },
        Inst::LoadLocal { dest, slot } => {
            match find_slot_var(env.slot_vars, *slot) {
                Some(var) => {
                    let v = use_var(builder, var);
                    values.insert(*dest, NativeValueRepr::Native(v));
                },
                None => {
                    return Err(local_message(env.backend, *slot, " is unavailable", env.function));
                },
            }
        },
        Inst::StoreLocal { slot, src } => {
            let var = match find_slot_var(env.slot_vars, *slot) {
                Some(var) => var,
                None => {
                    return Err(local_message(env.backend, *slot, " is unavailable", env.function));
                },
            };
            let expected = match find_slot_type(env.slot_types, *slot) {
                Some(t) => t,
                None => {
                    return Err(local_message(env.backend, *slot, " is missing a declared native type", env.function));
                },
            };
            let ghost ops = seq![(*src, "mutable store"@)];
            assert(ops.drop_first() =~= Seq::<(ValueId, Seq<char>)>::empty());
            assert(operand_error(old(values)@, ops.drop_first(), env.backend@, *env.function) is None);
            let v = native_value(values, *src, env.function, "mutable store", env.backend)?;
            let v = coerce_var_value(builder, v, expected, env.function, env.backend)?;
            def_var(builder, var, v);
        },
        _ => {
            assert(false);
        },
    }
    proof {
        lemma_ok_kept(*env, old(values)@, headers, s0, clif_state(*builder));
    }
    Ok(true)
}

/// `backend`, ` mutable local `, the slot, `rest` and ` in `function``.
fn local_message(backend: &str, slot: LocalSlotId, rest: &str, function: &Function) -> (r: String)
    ensures
        r@ == fn_msg(backend@, "mutable local "@ + slot_text(slot) + rest@, *function),
{
    let mut middle = String::from_str("mutable local ");
    let st = slot.render();
    middle.append(st.as_str());
    middle.append(rest);
    assert(middle@ =~= "mutable local "@ + slot_text(slot) + rest@);
    fn_message(backend, middle.as_str(), function)
}

pub open spec fn list_ops(inst: Inst) -> Option<Seq<(ValueId, Seq<char>)>> {
    match inst {
        Inst::ListNew { len, value, .. } => Some(seq![(len, "list_new len"@), (value, "list_new value"@)]),
        Inst::ListLen { list, .. } => Some(seq![(list, "list_len list"@)]),
        Inst::ListGet { list, index, .. } => Some(seq![(list, "list_get list"@), (index, "list_get index"@)]),
        Inst::ListSet { list, index, value, .. } => Some(
            seq![(list, "list_set list"@), (index, "list_set index"@), (value, "list_set value"@)],
        ),
        _ => None,
    }
}

/// The error of lowering a list instruction, if it fails before the list
/// helper is called.
pub open spec fn list_inst_error(env: NativeLowering, values: Map<u32, NativeValueRepr>, inst: Inst) -> Option<Seq<char>> {
    match operand_error(values, list_ops(inst)->0, env.backend@, *env.function) {
        Some(e) => Some(e),
        None => match inst {
            Inst::ListGet { list, .. } => if env.kinds@[list.0] is List {
                None
            } else {
                Some("native list_get input is not a list"@ + in_fn(*env.function))
            },
            _ => None,
        },
    }
}

/// Lowers a list instruction. A new list comes from the runtime helper (a
/// float fill value passed by its bits, a null result trapping); length,
/// element reads and element writes go through the list's header (loaded
/// once per list value), element `i` living at `values_ptr + 8 * i`; reads
/// and writes check the index against the length (trapping when it is not
/// below it) unless the access is a trusted one.
pub fn lower_list_inst(
    env: &NativeLowering,
    builder: &mut FunctionBuilder,
    values: &mut ValueMap,
    headers: &mut HeaderCache,
    trusted: &TrustedListAccesses,
    inst: &Inst,
) -> (r: Result<bool, String>)
    requires
        list_ops(*inst) is Some,
        lowerable(*inst, *env),
        lower_pre(*env, clif_state(*old(builder)), old(values)@, old(headers)@),
    ensures
        extends(clif_state(*old(builder)), clif_state(*final(builder))),
        r is Ok ==> r == Ok::<bool, String>(true) && lower_pre(*env, clif_state(*final(builder)), final(values)@, final(headers)@)
            && frame(*inst, old(values)@, final(values)@) && dest_native(*inst, final(values)@),
        r is Ok ==> list_access_last(clif_state(*old(builder)), clif_state(*final(builder)), old(values)@, final(values)@, *inst),
        (r is Ok && list_entries(*env, clif_state(*old(builder)), old(values)@, old(headers)@, final(values)@, *inst) is Some)
            ==> clif_state(*final(builder)).emitted == clif_state(*old(builder)).emitted + list_entries(
            *env,
            clif_state(*old(builder)),
            old(values)@,
            old(headers)@,
            final(values)@,
            *inst,
        )->0,
        match list_inst_error(*env, old(values)@, *inst) {
            Some(e) => err_is(r, e),
            None => if *inst is ListNew && clif_state(*old(builder)).func_returns[func_ref_number(env.helpers.list_new) as int] != 1 {
                err_is(r, shape_msg(env.backend@, "list new helper"@, *env.function))
            } else {
                r is Ok
            },
        },
{
    let ghost s0 = clif_state(*builder);
    let ops: Vec<(ValueId, &str)> = match inst {
        Inst::ListNew { len, value, .. } => vec![(*len, "list_new len"), (*value, "list_new value")],
        Inst::ListLen { list, .. } => vec![(*list, "list_len list")],
        Inst::ListGet { list, index, .. } => vec![(*list, "list_get list"), (*index, "list_get index")],
        Inst::ListSet { list, index, value, .. } => vec![(*list, "list_set list"), (*index, "list_set index"), (*value, "list_set value")],
        _ => {
            assert(false);
            vec![]
        },
    };
    assert(ops_view(ops@) =~= list_ops(*inst)->0);
    let args = native_operands(values, &ops, env.function, env.backend)?;
    assert forall|i: int| 0 <= i < args@.len() implies #[trigger] value_number(args@[i]) < s0.value_types.len() by {
        assert(values@.contains_key(ops@[i].0.0));
    }
    let i64t = clif_type(ClifType::I64);
    match inst {
        Inst::ListNew { dest, value, .. } => {
            let mut fill = args[1];
            match env.kinds.get(*value) {
                Some(k) => {
                    if matches!(k, NativeValueKind::F64) {
                        fill = ins_bitcast(builder, i64t, fill);
                        proof {
                            lemma_entry_shape(ClifOp::Bitcast, seq![args@[1]], seq![fill]);
                        }
                    }
                },
                None => {
                    assert(false);
                },
            }
            let ghost s_fill = clif_state(*builder);
            let call_args = vec![args[0], fill];
            let ptr = call_helper(builder, env.helpers.list_new, call_args.as_slice(), true, "list new helper", env.function, env.backend)?;
            proof {
                assert(call_args@.map_values(|a: Value| value_number(a)) =~= seq![value_number(args@[0]), value_number(fill)]);
            }
            values.insert(*dest, NativeValueRepr::Native(ptr));
            proof {
                assert(clif_state(*builder).emitted =~= s0.emitted + list_entries(*env, s0, old(values)@, old(headers)@, values@, *inst)->0);
            }
        },
        Inst::ListLen { dest, .. } => {
            let header = cached_list_header(builder, headers, args[0]);
            values.insert(*dest, NativeValueRepr::Native(header.len));
            proof {
                assert(clif_state(*builder).emitted =~= s0.emitted + list_entries(*env, s0, old(values)@, old(headers)@, values@, *inst)->0);
            }
        },
        Inst::ListGet { dest, list, index } => {
            let header = cached_list_header(builder, headers, args[0]);
            let element = match env.kinds.get(*list) {
                Some(NativeValueKind::List(e)) => native_kind_type(e),
                _ => {
                    let mut m = String::from_str("native list_get input is not a list");
                    m.append(" in `");
                    m.append(env.function.name.as_str());
                    m.append("`");
                    assert(m@ =~= "native list_get input is not a list"@ + in_fn(*env.function));
                    return Err(m);
                },
            };
            if !trusted.contains(*list, *index) {
                let too_large = ins_int_compare(builder, IntCond::UnsignedGreaterThanOrEqual, args[1], header.len);
                ins_trapnz_heap(builder, too_large);
            }
            let byte_offset = ins_imul_imm(builder, args[1], 8);
            let addr = ins_iadd(builder, header.values_ptr, byte_offset);
            let et = clif_type(element);
            let v = ins_load(builder, et, MemKind::Trusted, addr, 0);
            proof {
                lemma_entry_shape(ClifOp::Load(MemKind::Trusted, 0), seq![addr], seq![v]);
            }
            values.insert(*dest, NativeValueRepr::Native(v));
        },
        Inst::ListSet { dest, list, index, .. } => {
            let header = cached_list_header(builder, headers, args[0]);
            if !trusted.contains(*list, *index) {
                let too_large = ins_int_compare(builder, IntCond::UnsignedGreaterThanOrEqual, args[1], header.len);
                ins_trapnz_heap(builder, too_large);
            }
            let byte_offset = ins_imul_imm(builder, args[1], 8);
            let addr = ins_iadd(builder, header.values_ptr, byte_offset);
            ins_store(builder, MemKind::Trusted, args[2], addr, 0);
            proof {
                lemma_entry_shape(ClifOp::Store(MemKind::Trusted, 0), seq![args@[2], addr], seq![]);
            }
            values.insert(*dest, NativeValueRepr::Native(args[0]));
        },
        _ => {
            assert(false);
        },
    }
    proof {
        lemma_ok_kept(*env, old(values)@, old(headers)@, s0, clif_state(*builder));
    }
    Ok(true)
}

/// The last enum layout with the given name.
pub open spec fn last_native_enum(es: Seq<(String, NativeEnum)>, name: Seq<char>) -> Option<NativeEnum>
    decreases es.len(),
{
    if es.len() == 0 {
        None
    } else if es.last().0@ == name {
        Some(es.last().1)
    } else {
        last_native_enum(es.drop_last(), name)
    }
}

pub(crate) fn find_native_enum<'a>(enums: &'a [(String, NativeEnum)], name: &str) -> (r: Option<&'a NativeEnum>)
    ensures
        match last_native_enum(enums@, name@) {
            Some(x) => r matches Some(y) && *y == x,
            None => r is None,
        },
{
    let mut i: usize = enums.len();
    assert(enums@.take(i as int) =~= enums@);
    while i > 0
        invariant
            i <= enums.len(),
            last_native_enum(enums@, name@) == last_native_enum(enums@.take(i as int), name@),
        decreases i,
    {
        let ghost t = enums@.take(i as int);
        assert(t.drop_last() =~= enums@.take(i - 1));
        if text_eq(enums[i - 1].0.as_str(), name) {
            return Some(&enums[i - 1].1);
        }
        i = i - 1;
    }
    None
}

pub open spec fn missing_record_msg(name: Seq<char>) -> Seq<char> {
    "missing native record metadata for `"@ + name + "`"@
}

pub open spec fn missing_enum_msg(name: Seq<char>) -> Seq<char> {
    "missing native enum metadata for `"@ + name + "`"@
}

pub open spec fn offset_limit_msg(backend: Seq<char>) -> Seq<char> {
    backend + " record offset exceeds backend limits"@
}

fn quoted_message(prefix: &str, name: &str, suffix: &str) -> (r: String)
    ensures
        r@ == prefix@ + name@ + suffix@,
{
    let mut m = String::from_str(prefix);
    m.append(name);
    m.append(suffix);
    m
}

fn offset_limit_message(backend: &str) -> (r: String)
    ensures
        r@ == offset_limit_msg(backend@),
{
    let mut m = String::from_str(backend);
    m.append(" record offset exceeds backend limits");
    m
}

/// The error of loading a record field, if it fails.
pub open spec fn field_error(env: NativeLowering, values: Map<u32, NativeValueRepr>, base: ValueId, name: Seq<char>) -> Option<Seq<char>> {
    match env.kinds@.get(base.0) {
        Some(KindView::Record(rn)) => match last_record_named(env.records@, rn) {
            None => Some(missing_record_msg(rn)),
            Some(record) => match first_field_named(record.fields@, name) {
                None => Some("record `"@ + rn + "` has no native field `"@ + name + "`"@ + in_fn(*env.function)),
                Some(field) => match operand_error(values, seq![(base, "field base"@)], env.backend@, *env.function) {
                    Some(e) => Some(e),
                    None => if field.offset > i32::MAX {
                        Some(offset_limit_msg(env.backend@))
                    } else {
                        None
                    },
                },
            },
        },
        _ => Some(fn_msg(env.backend@, "field base "@ + value_text(base) + " is not a record"@, *env.function)),
    }
}

/// The load that lowers a field access: at the field's offset from the
/// record's pointer (the base's native value), into the destination.
pub open spec fn field_entry(
    env: NativeLowering,
    v0: Map<u32, NativeValueRepr>,
    v1: Map<u32, NativeValueRepr>,
    dest: ValueId,
    base: ValueId,
    name: Seq<char>,
) -> ClifEntry {
    let rn = env.kinds@[base.0]->Record_0;
    let field = first_field_named(last_record_named(env.records@, rn)->0.fields@, name)->0;
    ClifEntry {
        op: ClifOp::Load(MemKind::Plain, field.offset as i32),
        args: seq![native_number(v0, base)],
        results: seq![native_number(v1, dest)],
    }
}

/// Loads a record field: the field's native type, at its offset from the
/// record's pointer.
pub fn lower_field(
    env: &NativeLowering,
    builder: &mut FunctionBuilder,
    values: &mut ValueMap,
    dest: ValueId,
    base: ValueId,
    name: &str,
    Ghost(headers): Ghost<Map<u32, ListHeader>>,
) -> (r: Result<bool, String>)
    requires
        lower_pre(*env, clif_state(*old(builder)), old(values)@, headers),
    ensures
        extends(clif_state(*old(builder)), clif_state(*final(builder))),
        match field_error(*env, old(values)@, base, name@) {
            Some(e) => err_is(r, e),
            None => r == Ok::<bool, String>(true) && lower_pre(*env, clif_state(*final(builder)), final(values)@, headers)
                && final(values)@.contains_key(dest.0) && final(values)@ == old(values)@.insert(dest.0, final(values)@[dest.0])
                && final(values)@[dest.0] is Native
                && clif_state(*final(builder)).emitted == clif_state(*old(builder)).emitted.push(
                field_entry(*env, old(values)@, final(values)@, dest, base, name@),
            ),
        },
{
    let ghost s0 = clif_state(*builder);
    let record_name = match env.kinds.get(base) {
        Some(NativeValueKind::Record(rn)) => rn,
        _ => {
            let mut middle = String::from_str("field base ");
            let vt = base.render();
            middle.append(vt.as_str());
            middle.append(" is not a record");
            assert(middle@ =~= "field base "@ + value_text(base) + " is not a record"@);
            return Err(fn_message(env.backend, middle.as_str(), env.function));
        },
    };
    let record = match find_last_record(env.records, record_name.as_str()) {
        Some(r) => r,
        None => {
            return Err(quoted_message("missing native record metadata for `", record_name.as_str(), "`"));
        },
    };
    let field = match find_first_field(&record.fields, name) {
        Some(f) => f,
        None => {
            let mut m = String::from_str("record `");
            m.append(record_name.as_str());
            m.append("` has no native field `");
            m.append(name);
            m.append("`");
            m.append(" in `");
            m.append(env.function.name.as_str());
            m.append("`");
            assert(m@ =~= "record `"@ + record_name@ + "` has no native field `"@ + name@ + "`"@ + in_fn(*env.function));
            return Err(m);
        },
    };
    let ghost ops = seq![(base, "field base"@)];
    assert(ops.drop_first() =~= Seq::<(ValueId, Seq<char>)>::empty());
    assert(operand_error(old(values)@, ops.drop_first(), env.backend@, *env.function) is None);
    let b = native_value(values, base, env.function, "field base", env.backend)?;
    if field.offset > 2147483647 {
        return Err(offset_limit_message(env.backend));
    }
    let offset = field.offset as i32;
    let ft = clif_type(native_kind_type(&field.kind));
    let v = ins_load(builder, ft, MemKind::Plain, b, offset);
    proof {
        lemma_entry_shape(ClifOp::Load(MemKind::Plain, offset), seq![b], seq![v]);
    }
    values.insert(dest, NativeValueRepr::Native(v));
    proof {
        lemma_ok_kept(*env, old(values)@, headers, s0, clif_state(*builder));
    }
    Ok(true)
}

/// The value given for the named field by a record instruction (its first
/// entry for the name).
pub open spec fn record_source(fields: Seq<(String, ValueId)>, name: Seq<char>) -> Option<ValueId>
    decreases fields.len(),
{
    if fields.len() == 0 {
        None
    } else if fields[0].0@ == name {
        Some(fields[0].1)
    } else {
        record_source(fields.drop_first(), name)
    }
}

fn find_record_source(fields: &Vec<(String, ValueId)>, name: &str) -> (r: Option<ValueId>)
    ensures
        r == record_source(fields@, name@),
{
    let mut i: usize = 0;
    assert(fields@.skip(0) =~= fields@);
    while i < fields.len()
        invariant
            i <= fields@.len(),
            record_source(fields@, name@) == record_source(fields@.skip(i as int), name@),
        decreases fields@.len() - i,
    {
        assert(fields@.skip(i as int).drop_first() =~= fields@.skip(i + 1));
        if text_eq(fields[i].0.as_str(), name) {
            return Some(fields[i].1);
        }
        i = i + 1;
    }
    None
}

/// The error of storing the fields of a new record, the layout's fields in
/// order, if it fails.
pub open spec fn record_fill_error(
    env: NativeLowering,
    values: Map<u32, NativeValueRepr>,
    layout: Seq<crate::native::NativeRecordField>,
    fields: Seq<(String, ValueId)>,
) -> Option<Seq<char>>
    decreases layout.len(),
{
    if layout.len() == 0 {
        None
    } else {
        match record_source(fields, layout[0].name@) {
            None => Some("record instruction is missing field `"@ + layout[0].name@ + "`"@ + in_fn(*env.function)),
            Some(src) => match operand_error(values, seq![(src, "record field"@)], env.backend@, *env.function) {
                Some(e) => Some(e),
                None => if layout[0].offset > i32::MAX {
                    Some(offset_limit_msg(env.backend@))
                } else {
                    record_fill_error(env, values, layout.drop_first(), fields)
                },
            },
        }
    }
}

/// Lowers a record construction: memory of the layout's size from the
/// runtime allocator (a null result trapping), then each field of the
/// layout, in order, stored at its offset from the value that the
/// instruction gives for it.
pub fn lower_make_record(
    env: &NativeLowering,
    builder: &mut FunctionBuilder,
    values: &mut ValueMap,
    dest: ValueId,
    name: &str,
    fields: &Vec<(String, ValueId)>,
    Ghost(headers): Ghost<Map<u32, ListHeader>>,
) -> (r: Result<bool, String>)
    requires
        lower_pre(*env, clif_state(*old(builder)), old(values)@, headers),
    ensures
        extends(clif_state(*old(builder)), clif_state(*final(builder))),
        match last_record_named(env.records@, name@) {
            None => err_is(r, missing_record_msg(name@)),
            Some(record) => if clif_state(*old(builder)).func_returns[func_ref_number(env.helpers.allocator) as int] != 1 {
                err_is(r, shape_msg(env.backend@, "record allocator"@, *env.function))
            } else {
                match record_fill_error(*env, old(values)@, record.fields@, fields@) {
                    Some(e) => err_is(r, e),
                    None => r == Ok::<bool, String>(true) && lower_pre(*env, clif_state(*final(builder)), final(values)@, headers)
                        && final(values)@.contains_key(dest.0) && final(values)@ == old(values)@.insert(dest.0, final(values)@[dest.0])
                        && final(values)@[dest.0] is Native
                        && clif_state(*final(builder)).emitted == clif_state(*old(builder)).emitted + make_record_entries(
                        *env,
                        clif_state(*old(builder)),
                        old(values)@,
                        name@,
                        fields@,
                    ),
                }
            },
        },
{
    let ghost s0 = clif_state(*builder);
    let record = match find_last_record(env.records, name) {
        Some(r) => r,
        None => {
            return Err(quoted_message("missing native record metadata for `", name, "`"));
        },
    };
    let i64t = clif_type(ClifType::I64);
    let size = ins_iconst(builder, i64t, record.size as i64);
    let size_args = vec![size];
    let ghost s_size = clif_state(*builder);
    let ptr = call_helper(builder, env.helpers.allocator, size_args.as_slice(), true, "record allocator", env.function, env.backend)?;
    let ghost n = s0.value_types.len();
    let ghost head = seq![ClifEntry { op: ClifOp::Iconst(record.size as i64), args: seq![], results: seq![n] }]
        + helper_entries(func_ref_number(env.helpers.allocator), seq![n], true, n + 1);
    proof {
        lemma_entry_shape(ClifOp::Iconst(record.size as i64), seq![], seq![size]);
        assert(size_args@.map_values(|a: Value| value_number(a)) =~= seq![n]);
        assert(value_number(ptr) == n + 1);
        assert(field_stores(old(values)@, fields@, n + 1, record.fields@.take(0)) =~= Seq::<ClifEntry>::empty());
        assert(clif_state(*builder).emitted =~= s0.emitted + head + field_stores(old(values)@, fields@, n + 1, record.fields@.take(0)));
    }
    let mut k: usize = 0;
    assert(record.fields@.skip(0) =~= record.fields@);
    while k < record.fields.len()
        invariant
            k <= record.fields@.len(),
            s0 == clif_state(*old(builder)),
            s0.func_returns[func_ref_number(env.helpers.allocator) as int] == 1,
            last_record_named(env.records@, name@) == Some(*record),
            extends(s0, clif_state(*builder)),
            clif_state(*builder).positioned,
            value_number(ptr) < clif_state(*builder).value_types.len(),
            value_number(ptr) == n + 1,
            n == s0.value_types.len(),
            clif_state(*builder).emitted == s0.emitted + head + field_stores(old(values)@, fields@, n + 1, record.fields@.take(k as int)),
            values@ == old(values)@,
            lower_pre(*env, s0, values@, headers),
            record_fill_error(*env, values@, record.fields@, fields@) == record_fill_error(
                *env,
                values@,
                record.fields@.skip(k as int),
                fields@,
            ),
        decreases record.fields@.len() - k,
    {
        let field = &record.fields[k];
        assert(record.fields@.skip(k as int).drop_first() =~= record.fields@.skip(k + 1));
        assert(record.fields@.skip(k as int)[0] == *field);
        let source = match find_record_source(fields, field.name.as_str()) {
            Some(v) => v,
            None => {
                let mut m = String::from_str("record instruction is missing field `");
                m.append(field.name.as_str());
                m.append("`");
                m.append(" in `");
                m.append(env.function.name.as_str());
                m.append("`");
                assert(m@ =~= "record instruction is missing field `"@ + field.name@ + "`"@ + in_fn(*env.function));
                return Err(m);
            },
        };
        let ghost ops = seq![(source, "record field"@)];
        assert(ops.drop_first() =~= Seq::<(ValueId, Seq<char>)>::empty());
        assert(operand_error(values@, ops.drop_first(), env.backend@, *env.function) is None);
        let v = native_value(values, source, env.function, "record field", env.backend)?;
        if field.offset > 2147483647 {
            return Err(offset_limit_message(env.backend));
        }
        assert(value_number(v) < s0.value_types.len());
        let ghost before = clif_state(*builder).emitted;
        ins_store(builder, MemKind::Plain, v, ptr, field.offset as i32);
        proof {
            lemma_entry_shape(ClifOp::Store(MemKind::Plain, field.offset as i32), seq![v, ptr], seq![]);
            assert(record.fields@[k as int] == *field);
            assert(source == record_source(fields@, field.name@)->0);
            assert(native_number(old(values)@, source) == value_number(v));
            let st = field_store(old(values)@, fields@, n + 1, *field);
            assert(st == entry(ClifOp::Store(MemKind::Plain, field.offset as i32), seq![v, ptr], seq![]));
            assert(field_stores(old(values)@, fields@, n + 1, record.fields@.take(k + 1)) =~= field_stores(
                old(values)@,
                fields@,
                n + 1,
                record.fields@.take(k as int),
            ).push(st));
            assert(clif_state(*builder).emitted =~= s0.emitted + head + field_stores(old(values)@, fields@, n + 1, record.fields@.take(k + 1)));
        }
        k = k + 1;
    }
    assert(record.fields@.take(record.fields@.len() as int) =~= record.fields@);
    values.insert(dest, NativeValueRepr::Native(ptr));
    proof {
        lemma_ok_kept(*env, old(values)@, headers, s0, clif_state(*builder));
    }
    Ok(true)
}

/// The store of one field of a record under construction at `p`: the
/// native value given for the field, at the field's offset.
pub open spec fn field_store(v0: Map<u32, NativeValueRepr>, fields: Seq<(String, ValueId)>, p: nat, f: NativeRecordField) -> ClifEntry {
    ClifEntry {
        op: ClifOp::Store(MemKind::Plain, f.offset as i32),
        args: seq![native_number(v0, record_source(fields, f.name@)->0), p],
        results: seq![],
    }
}

/// The instructions of a record construction: the record's size as a
/// constant, the allocator call on it (with its null check), and the store
/// of each field of the record's layout, in layout order.
pub open spec fn make_record_entries(
    env: NativeLowering,
    s0: BuilderView,
    v0: Map<u32, NativeValueRepr>,
    name: Seq<char>,
    fields: Seq<(String, ValueId)>,
) -> Seq<ClifEntry> {
    let record = last_record_named(env.records@, name)->0;
    let n = s0.value_types.len();
    seq![ClifEntry { op: ClifOp::Iconst(record.size as i64), args: seq![], results: seq![n] }]
        + helper_entries(func_ref_number(env.helpers.allocator), seq![n], true, n + 1)
        + field_stores(v0, fields, n + 1, record.fields@)
}

/// The stores of the fields of a record layout, in order.
pub open spec fn field_stores(v0: Map<u32, NativeValueRepr>, fields: Seq<(String, ValueId)>, p: nat, layout: Seq<NativeRecordField>) -> Seq<ClifEntry> {
    layout.map_values(|f: NativeRecordField| field_store(v0, fields, p, f))
}

/// The position of the first variant of the enum with the name.
pub open spec fn first_variant(e: NativeEnum, variant: Seq<char>) -> int {
    choose|t: int|
        0 <= t < e.variants@.len() && e.variants@[t].name@ == variant && forall|k: int|
            0 <= k < t ==> (#[trigger] e.variants@[k]).name@ != variant
}

/// The instructions of an enum construction. A payload-free enum is its
/// tag (the variant's position) as a constant. Otherwise: the size 16 as a
/// constant, the allocator call on it (with its null check), the tag as a
/// constant stored at offset 0, and at offset 8 the payload's native value,
/// or a zero constant when there is none.
pub open spec fn make_enum_entries(
    env: NativeLowering,
    s0: BuilderView,
    v0: Map<u32, NativeValueRepr>,
    name: Seq<char>,
    variant: Seq<char>,
    payload: Option<ValueId>,
) -> Seq<ClifEntry> {
    let e = last_native_enum(env.enums@, name)->0;
    let t = first_variant(e, variant);
    let n = s0.value_types.len();
    if payload_free(e) {
        seq![ClifEntry { op: ClifOp::Iconst(t as i64), args: seq![], results: seq![n] }]
    } else {
        let head = seq![ClifEntry { op: ClifOp::Iconst(16), args: seq![], results: seq![n] }]
            + helper_entries(func_ref_number(env.helpers.allocator), seq![n], true, n + 1)
            + seq![
            ClifEntry { op: ClifOp::Iconst(t as i64), args: seq![], results: seq![n + 4] },
            ClifEntry { op: ClifOp::Store(MemKind::Plain, 0), args: seq![n + 4, n + 1], results: seq![] },
        ];
        if payload is Some && v0[(payload->0).0] is Native {
            head + seq![
                ClifEntry { op: ClifOp::Store(MemKind::Plain, 8), args: seq![native_number(v0, payload->0), n + 1], results: seq![] },
            ]
        } else {
            head + seq![
                ClifEntry { op: ClifOp::Iconst(0), args: seq![], results: seq![n + 5] },
                ClifEntry { op: ClifOp::Store(MemKind::Plain, 8), args: seq![n + 5, n + 1], results: seq![] },
            ]
        }
    }
}

/// The error of constructing an enum value, if the layout tables or the
/// payload make it fail.
pub open spec fn make_enum_error(
    env: NativeLowering,
    values: Map<u32, NativeValueRepr>,
    name: Seq<char>,
    variant: Seq<char>,
) -> Option<Seq<char>> {
    match last_native_enum(env.enums@, name) {
        None => Some(missing_enum_msg(name)),
        Some(e) => if forall|i: int| 0 <= i < e.variants@.len() ==> (#[trigger] e.variants@[i]).name@ != variant {
            Some("enum `"@ + name + "` has no variant `"@ + variant + "`"@ + in_fn(*env.function))
        } else {
            None
        },
    }
}

/// Lowers an enum construction: the variant's tag (its position) for an
/// enum without payloads; otherwise 16 bytes from the runtime allocator (a
/// null result trapping) holding the tag at offset 0 and the payload (0 for
/// none or the unit) at offset 8.
pub fn lower_make_enum(
    env: &NativeLowering,
    builder: &mut FunctionBuilder,
    values: &mut ValueMap,
    dest: ValueId,
    name: &str,
    variant: &str,
    payload: Option<ValueId>,
    Ghost(headers): Ghost<Map<u32, ListHeader>>,
) -> (r: Result<bool, String>)
    requires
        lower_pre(*env, clif_state(*old(builder)), old(values)@, headers),
        forall|i: int| 0 <= i < env.enums@.len() ==> (#[trigger] env.enums@[i]).1.variants@.len() <= i64::MAX,
    ensures
        extends(clif_state(*old(builder)), clif_state(*final(builder))),
        match make_enum_error(*env, old(values)@, name@, variant@) {
            Some(e) => err_is(r, e),
            None => if !payload_free(last_native_enum(env.enums@, name@)->0)
                && clif_state(*old(builder)).func_returns[func_ref_number(env.helpers.allocator) as int] != 1 {
                err_is(r, shape_msg(env.backend@, "enum allocator"@, *env.function))
            } else if !payload_free(last_native_enum(env.enums@, name@)->0) && payload is Some
                && !old(values)@.contains_key((payload->0).0) {
                err_is(r, unresolved_msg(env.backend@, "enum payload"@, payload->0, *env.function))
            } else {
                r == Ok::<bool, String>(true) && lower_pre(*env, clif_state(*final(builder)), final(values)@, headers)
                    && final(values)@.contains_key(dest.0) && final(values)@ == old(values)@.insert(dest.0, final(values)@[dest.0])
                    && final(values)@[dest.0] is Native
                    && clif_state(*final(builder)).emitted == clif_state(*old(builder)).emitted + make_enum_entries(
                    *env,
                    clif_state(*old(builder)),
                    old(values)@,
                    name@,
                    variant@,
                    payload,
                )
            },
        },
{
    let ghost s0 = clif_state(*builder);
    let enum_ty = match find_native_enum(env.enums, name) {
        Some(e) => e,
        None => {
            return Err(quoted_message("missing native enum metadata for `", name, "`"));
        },
    };
    proof {
        let es = env.enums@;
        if exists|i: int| 0 <= i < es.len() && es[i].0@ == name@ {
        }
        lemma_last_native_enum_in(es, name@);
    }
    let tag = match native_enum_variant_index(enum_ty, variant) {
        Some(t) => t,
        None => {
            let mut m = String::from_str("enum `");
            m.append(name);
            m.append("` has no variant `");
            m.append(variant);
            m.append("`");
            m.append(" in `");
            m.append(env.function.name.as_str());
            m.append("`");
            assert(m@ =~= "enum `"@ + name@ + "` has no variant `"@ + variant@ + "`"@ + in_fn(*env.function));
            return Err(m);
        },
    };
    assert(first_variant(*enum_ty, variant@) == tag as int) by {
        let c = first_variant(*enum_ty, variant@);
        assert(0 <= tag < enum_ty.variants@.len() && enum_ty.variants@[tag as int].name@ == variant@);
        if c < tag as int {
            assert(enum_ty.variants@[c].name@ != variant@);
        }
        if c > tag as int {
            assert(enum_ty.variants@[tag as int].name@ != variant@);
        }
    }
    let i64t = clif_type(ClifType::I64);
    let ghost n = s0.value_types.len();
    if native_enum_is_payload_free(enum_ty) {
        let v = ins_iconst(builder, i64t, tag as i64);
        proof {
            lemma_entry_shape(ClifOp::Iconst(tag as i64), seq![], seq![v]);
            assert(clif_state(*builder).emitted =~= s0.emitted + make_enum_entries(*env, s0, old(values)@, name@, variant@, payload));
        }
        values.insert(dest, NativeValueRepr::Native(v));
        proof {
            lemma_ok_kept(*env, old(values)@, headers, s0, clif_state(*builder));
        }
        return Ok(true);
    }
    let size = ins_iconst(builder, i64t, 16);
    let size_args = vec![size];
    let ptr = call_helper(builder, env.helpers.allocator, size_args.as_slice(), true, "enum allocator", env.function, env.backend)?;
    let tag_value = ins_iconst(builder, i64t, tag as i64);
    ins_store(builder, MemKind::Plain, tag_value, ptr, 0);
    proof {
        lemma_entry_shape(ClifOp::Iconst(16), seq![], seq![size]);
        assert(size_args@.map_values(|a: Value| value_number(a)) =~= seq![n]);
        lemma_entry_shape(ClifOp::Iconst(tag as i64), seq![], seq![tag_value]);
        lemma_entry_shape(ClifOp::Store(MemKind::Plain, 0), seq![tag_value, ptr], seq![]);
    }
    let ghost s_tag = clif_state(*builder);
    let payload_repr = match payload {
        Some(p) => value_repr(values, p, env.function, "enum payload", env.backend)?,
        None => NativeValueRepr::Unit,
    };
    let raw = match payload_repr {
        NativeValueRepr::Native(v) => v,
        NativeValueRepr::Unit => ins_iconst(builder, i64t, 0),
    };
    ins_store(builder, MemKind::Plain, raw, ptr, 8);
    proof {
        lemma_entry_shape(ClifOp::Store(MemKind::Plain, 8), seq![raw, ptr], seq![]);
        if clif_state(*builder).emitted.len() == s_tag.emitted.len() + 2 {
            lemma_entry_shape(ClifOp::Iconst(0), seq![], seq![raw]);
        }
        assert(clif_state(*builder).emitted =~= s0.emitted + make_enum_entries(*env, s0, old(values)@, name@, variant@, payload));
    }
    values.insert(dest, NativeValueRepr::Native(ptr));
    proof {
        lemma_ok_kept(*env, old(values)@, headers, s0, clif_state(*builder));
    }
    Ok(true)
}

/// The enum found by name is one of the table's entries.
pub proof fn lemma_last_native_enum_in(es: Seq<(String, NativeEnum)>, name: Seq<char>)
    ensures
        last_native_enum(es, name) matches Some(e) ==> exists|i: int| 0 <= i < es.len() && es[i].1 == e,
    decreases es.len(),
{
    if es.len() > 0 && es.last().0@ != name {
        lemma_last_native_enum_in(es.drop_last(), name);
        if last_native_enum(es.drop_last(), name) is Some {
            let e = last_native_enum(es.drop_last(), name)->0;
            let i = choose|i: int| 0 <= i < es.drop_last().len() && es.drop_last()[i].1 == e;
            assert(es[i].1 == e);
        }
    } else if es.len() > 0 {
        assert(es[es.len() - 1].1 == es.last().1);
    }
}

pub open spec fn payload_free(e: NativeEnum) -> bool {
    forall|i: int| 0 <= i < e.variants@.len() ==> (#[trigger] e.variants@[i]).payload_type is None
}

/// The error of extracting an enum payload, if it fails.
pub open spec fn enum_payload_error(
    env: NativeLowering,
    values: Map<u32, NativeValueRepr>,
    value: ValueId,
    payload_type: Seq<char>,
) -> Option<Seq<char>> {
    match env.kinds@.get(value.0) {
        Some(KindView::Enum(en)) => match last_native_enum(env.enums@, en) {
            None => Some(missing_enum_msg(en)),
            Some(e) => if payload_free(e) {
                Some(fn_msg(env.backend@, "cannot extract a payload from payload-free enum `"@ + en + "`"@, *env.function))
            } else {
                match operand_error(values, seq![(value, "enum payload base"@)], env.backend@, *env.function) {
                    Some(m) => Some(m),
                    None => match spec_native_kind(payload_type, record_names(env.records@), enum_names(env.enums@)) {
                        Err(m) => Some(m),
                        Ok(_) => None,
                    },
                }
            },
        },
        _ => Some(fn_msg(env.backend@, "enum payload base "@ + value_text(value) + " is not an enum"@, *env.function)),
    }
}

/// Extracts an enum payload: the word at offset 8 of the enum value, read
/// with the native type of the payload's type.
pub fn lower_enum_payload(
    env: &NativeLowering,
    builder: &mut FunctionBuilder,
    values: &mut ValueMap,
    dest: ValueId,
    value: ValueId,
    payload_type: &str,
    Ghost(headers): Ghost<Map<u32, ListHeader>>,
) -> (r: Result<bool, String>)
    requires
        lower_pre(*env, clif_state(*old(builder)), old(values)@, headers),
    ensures
        extends(clif_state(*old(builder)), clif_state(*final(builder))),
        match enum_payload_error(*env, old(values)@, value, payload_type@) {
            Some(e) => err_is(r, e),
            None => r == Ok::<bool, String>(true) && lower_pre(*env, clif_state(*final(builder)), final(values)@, headers)
                && final(values)@.contains_key(dest.0) && final(values)@ == old(values)@.insert(dest.0, final(values)@[dest.0])
                && clif_state(*final(builder)).emitted == clif_state(*old(builder)).emitted + payload_entries(
                *env,
                old(values)@,
                final(values)@,
                dest,
                value,
                payload_type@,
            ),
        },
{
    let ghost s0 = clif_state(*builder);
    let enum_name = match env.kinds.get(value) {
        Some(NativeValueKind::Enum(en)) => en,
        _ => {
            let mut middle = String::from_str("enum payload base ");
            let vt = value.render();
            middle.append(vt.as_str());
            middle.append(" is not an enum");
            assert(middle@ =~= "enum payload base "@ + value_text(value) + " is not an enum"@);
            return Err(fn_message(env.backend, middle.as_str(), env.function));
        },
    };
    let enum_ty = match find_native_enum(env.enums, enum_name.as_str()) {
        Some(e) => e,
        None => {
            return Err(quoted_message("missing native enum metadata for `", enum_name.as_str(), "`"));
        },
    };
    if native_enum_is_payload_free(enum_ty) {
        let middle = quoted_message("cannot extract a payload from payload-free enum `", enum_name.as_str(), "`");
        return Err(fn_message(env.backend, middle.as_str(), env.function));
    }
    let ghost ops = seq![(value, "enum payload base"@)];
    assert(ops.drop_first() =~= Seq::<(ValueId, Seq<char>)>::empty());
    assert(operand_error(old(values)@, ops.drop_first(), env.backend@, *env.function) is None);
    let base = native_value(values, value, env.function, "enum payload base", env.backend)?;
    let payload_kind = native_value_kind(payload_type, env.records, env.enums)?;
    if matches!(payload_kind, NativeValueKind::Unit) {
        values.insert(dest, NativeValueRepr::Unit);
        assert(clif_state(*builder).emitted =~= s0.emitted + Seq::<ClifEntry>::empty());
    } else {
        let pt = clif_type(native_kind_type(&payload_kind));
        let v = ins_load(builder, pt, MemKind::Plain, base, 8);
        proof {
            lemma_entry_shape(ClifOp::Load(MemKind::Plain, 8), seq![base], seq![v]);
        }
        values.insert(dest, NativeValueRepr::Native(v));
    }
    proof {
        lemma_ok_kept(*env, old(values)@, headers, s0, clif_state(*builder));
    }
    Ok(true)
}

/// The instructions of an enum payload read: none for a unit payload, the
/// load of the word at offset 8 of the enum value otherwise.
pub open spec fn payload_entries(
    env: NativeLowering,
    v0: Map<u32, NativeValueRepr>,
    v1: Map<u32, NativeValueRepr>,
    dest: ValueId,
    value: ValueId,
    payload_type: Seq<char>,
) -> Seq<ClifEntry> {
    if spec_native_kind(payload_type, record_names(env.records@), enum_names(env.enums@)) == Ok::<KindView, Seq<char>>(
        KindView::Unit,
    ) {
        Seq::empty()
    } else {
        seq![ClifEntry { op: ClifOp::Load(MemKind::Plain, 8), args: seq![native_number(v0, value)], results: seq![native_number(v1, dest)] }]
    }
}

/// The error of an enum tag test, if it fails.
pub open spec fn enum_tag_error(env: NativeLowering, values: Map<u32, NativeValueRepr>, value: ValueId) -> Option<Seq<char>> {
    match operand_error(values, seq![(value, "enum tag test"@)], env.backend@, *env.function) {
        Some(m) => Some(m),
        None => match env.kinds@.get(value.0) {
            Some(KindView::Enum(en)) => match last_native_enum(env.enums@, en) {
                None => Some(missing_enum_msg(en)),
                Some(_) => None,
            },
            _ => None,
        },
    }
}

/// The instructions of an enum tag test of `value` against `tag`, into
/// `dest`: a load of the tag word (offset 0) when the value is an enum with
/// payloads, then the tag as a constant, the comparison for equality and
/// its zero extension.
pub open spec fn tag_eq_entries(
    env: NativeLowering,
    s0: BuilderView,
    v0: Map<u32, NativeValueRepr>,
    value: ValueId,
    tag: i64,
) -> Seq<ClifEntry> {
    let n = s0.value_types.len();
    let x = native_number(v0, value);
    let loads = match env.kinds@.get(value.0) {
        Some(KindView::Enum(en)) => !payload_free(last_native_enum(env.enums@, en)->0),
        _ => false,
    };
    let first = if loads { n + 1 } else { n };
    let left = if loads { n } else { x };
    let head = if loads {
        seq![ClifEntry { op: ClifOp::Load(MemKind::Plain, 0), args: seq![x], results: seq![n] }]
    } else {
        Seq::empty()
    };
    head + seq![
        ClifEntry { op: ClifOp::Iconst(tag), args: seq![], results: seq![first] },
        ClifEntry { op: ClifOp::IntCompare(IntCond::Equal), args: seq![left, first], results: seq![first + 1] },
        ClifEntry { op: ClifOp::Uextend, args: seq![first + 1], results: seq![first + 2] },
    ]
}

/// Tests an enum value's tag: the value itself for an enum without
/// payloads (and for a value whose kind is not an enum), the word at offset
/// 0 otherwise; the result is 1 when it equals `tag`, else 0.
pub fn lower_enum_tag_eq(
    env: &NativeLowering,
    builder: &mut FunctionBuilder,
    values: &mut ValueMap,
    dest: ValueId,
    value: ValueId,
    tag: i64,
    Ghost(headers): Ghost<Map<u32, ListHeader>>,
) -> (r: Result<bool, String>)
    requires
        lower_pre(*env, clif_state(*old(builder)), old(values)@, headers),
    ensures
        extends(clif_state(*old(builder)), clif_state(*final(builder))),
        match enum_tag_error(*env, old(values)@, value) {
            Some(e) => err_is(r, e),
            None => r == Ok::<bool, String>(true) && lower_pre(*env, clif_state(*final(builder)), final(values)@, headers)
                && final(values)@.contains_key(dest.0) && final(values)@ == old(values)@.insert(dest.0, final(values)@[dest.0])
                && final(values)@[dest.0] is Native
                && clif_state(*final(builder)).emitted == clif_state(*old(builder)).emitted + tag_eq_entries(
                *env,
                clif_state(*old(builder)),
                old(values)@,
                value,
                tag,
            ),
        },
{
    let ghost s0 = clif_state(*builder);
    let ghost ops = seq![(value, "enum tag test"@)];
    assert(ops.drop_first() =~= Seq::<(ValueId, Seq<char>)>::empty());
    assert(operand_error(old(values)@, ops.drop_first(), env.backend@, *env.function) is None);
    let left = native_value(values, value, env.function, "enum tag test", env.backend)?;
    let i64t = clif_type(ClifType::I64);
    let left = match env.kinds.get(value) {
        Some(NativeValueKind::Enum(en)) => {
            let enum_ty = match find_native_enum(env.enums, en.as_str()) {
                Some(e) => e,
                None => {
                    return Err(quoted_message("missing native enum metadata for `", en.as_str(), "`"));
                },
            };
            if native_enum_is_payload_free(enum_ty) {
                left
            } else {
                ins_load(builder, i64t, MemKind::Plain, left, 0)
            }
        },
        _ => left,
    };
    let ghost s_mid = clif_state(*builder);
    let right = ins_iconst(builder, i64t, tag);
    let eq = ins_int_compare(builder, IntCond::Equal, left, right);
    let v = ins_uextend(builder, i64t, eq);
    proof {
        lemma_entry_shape(ClifOp::Iconst(tag), seq![], seq![right]);
        lemma_entry_shape(ClifOp::IntCompare(IntCond::Equal), seq![left, right], seq![eq]);
        lemma_entry_shape(ClifOp::Uextend, seq![eq], seq![v]);
        if s_mid.emitted.len() > s0.emitted.len() {
            lemma_entry_shape(ClifOp::Load(MemKind::Plain, 0), seq![old(values)@[value.0]->Native_0], seq![left]);
        }
        assert(clif_state(*builder).emitted =~= s0.emitted + tag_eq_entries(*env, s0, old(values)@, value, tag));
    }
    values.insert(dest, NativeValueRepr::Native(v));
    proof {
        lemma_ok_kept(*env, old(values)@, headers, s0, clif_state(*builder));
    }
    Ok(true)
}

/// The imported function of the first entry for the callee.
pub open spec fn callee_ref(callees: Seq<(String, FuncRef)>, name: Seq<char>) -> Option<FuncRef>
    decreases callees.len(),
{
    if callees.len() == 0 {
        None
    } else if callees[0].0@ == name {
        Some(callees[0].1)
    } else {
        callee_ref(callees.drop_first(), name)
    }
}

fn find_callee(callees: &[(String, FuncRef)], name: &str) -> (r: Option<FuncRef>)
    ensures
        r == callee_ref(callees@, name@),
        r is Some ==> exists|i: int| 0 <= i < callees@.len() && callees@[i].1 == r->0,
{
    let mut i: usize = 0;
    assert(callees@.skip(0) =~= callees@);
    while i < callees.len()
        invariant
            i <= callees@.len(),
            callee_ref(callees@, name@) == callee_ref(callees@.skip(i as int), name@),
        decreases callees@.len() - i,
    {
        assert(callees@.skip(i as int).drop_first() =~= callees@.skip(i + 1));
        if text_eq(callees[i].0.as_str(), name) {
            assert(callees@.skip(i as int)[0] == callees@[i as int]);
            return Some(callees[i].1);
        }
        i = i + 1;
    }
    None
}

pub open spec fn call_ops(args: Seq<ValueId>) -> Seq<(ValueId, Seq<char>)> {
    args.map_values(|a: ValueId| (a, "call argument"@))
}

/// The error of a call, if the callee or an argument is missing.
pub open spec fn call_error(env: NativeLowering, values: Map<u32, NativeValueRepr>, callee: Seq<char>, args: Seq<ValueId>) -> Option<Seq<char>> {
    if callee_ref(env.callees@, callee) is None {
        Some(fn_msg(env.backend@, "lowering could not find callee `"@ + callee + "`"@, *env.function))
    } else {
        operand_error(values, call_ops(args), env.backend@, *env.function)
    }
}

/// The call instruction of a call of a program function: the callee's
/// import, the native values of the arguments, and the destination's native
/// value as the result when there is one.
pub open spec fn call_entry(
    env: NativeLowering,
    callee: Seq<char>,
    args: Seq<ValueId>,
    v0: Map<u32, NativeValueRepr>,
    v1: Map<u32, NativeValueRepr>,
    dest: ValueId,
) -> ClifEntry {
    ClifEntry {
        op: ClifOp::Call(func_ref_number(callee_ref(env.callees@, callee)->0)),
        args: args.map_values(|a: ValueId| native_number(v0, a)),
        results: if v1[dest.0] is Unit { seq![] } else { seq![native_number(v1, dest)] },
    }
}

/// Lowers a call of a program function: the unit when it returns nothing,
/// its one result otherwise (more results are an error).
pub fn lower_call(
    env: &NativeLowering,
    builder: &mut FunctionBuilder,
    values: &mut ValueMap,
    dest: ValueId,
    callee: &str,
    args: &Vec<ValueId>,
    Ghost(headers): Ghost<Map<u32, ListHeader>>,
) -> (r: Result<bool, String>)
    requires
        lower_pre(*env, clif_state(*old(builder)), old(values)@, headers),
    ensures
        extends(clif_state(*old(builder)), clif_state(*final(builder))),
        match call_error(*env, old(values)@, callee@, args@) {
            Some(e) => err_is(r, e),
            None => {
                let n = clif_state(*old(builder)).func_returns[func_ref_number(callee_ref(env.callees@, callee@)->0) as int];
                if n > 1 {
                    err_is(r, fn_msg(env.backend@, "does not support multi-value returns"@, *env.function))
                } else {
                    r == Ok::<bool, String>(true) && lower_pre(*env, clif_state(*final(builder)), final(values)@, headers)
                        && final(values)@.contains_key(dest.0) && final(values)@ == old(values)@.insert(dest.0, final(values)@[dest.0])
                        && (final(values)@[dest.0] is Unit <==> n == 0)
                        && clif_state(*final(builder)).emitted == clif_state(*old(builder)).emitted.push(call_entry(
                        *env,
                        callee@,
                        args@,
                        old(values)@,
                        final(values)@,
                        dest,
                    ))
                }
            },
        },
{
    let ghost s0 = clif_state(*builder);
    let f = match find_callee(env.callees, callee) {
        Some(f) => f,
        None => {
            let middle = quoted_message("lowering could not find callee `", callee, "`");
            return Err(fn_message(env.backend, middle.as_str(), env.function));
        },
    };
    let mut ops: Vec<(ValueId, &str)> = Vec::new();
    let mut k: usize = 0;
    while k < args.len()
        invariant
            k <= args@.len(),
            ops_view(ops@) == call_ops(args@.take(k as int)),
            forall|i: int| 0 <= i < k ==> (#[trigger] ops@[i]).0 == args@[i],
            ops@.len() == k,
        decreases args@.len() - k,
    {
        let ghost before = ops@;
        ops.push((args[k], "call argument"));
        assert(ops@ == before.push((args@[k as int], "call argument")));
        assert(ops_view(ops@) =~= ops_view(before).push((args@[k as int], "call argument"@)));
        assert(args@.take(k + 1) =~= args@.take(k as int).push(args@[k as int]));
        assert(call_ops(args@.take(k + 1)) =~= call_ops(args@.take(k as int)).push((args@[k as int], "call argument"@)));
        k = k + 1;
    }
    assert(args@.take(args@.len() as int) =~= args@);
    let native_args = native_operands(values, &ops, env.function, env.backend)?;
    assert forall|i: int| 0 <= i < native_args@.len() implies #[trigger] value_number(native_args@[i]) < s0.value_types.len() by {
        assert(values@.contains_key(ops@[i].0.0));
    }
    let results = ins_call(builder, f, native_args.as_slice());
    proof {
        let fv = |v: Value| value_number(v);
        assert(native_args@.map_values(fv) =~= args@.map_values(|a: ValueId| native_number(old(values)@, a))) by {
            assert forall|i: int| 0 <= i < args@.len() implies native_args@.map_values(fv)[i] == args@.map_values(
                |a: ValueId| native_number(old(values)@, a),
            )[i] by {
                assert(ops@[i].0 == args@[i]);
                assert(values@[ops@[i].0.0] == NativeValueRepr::Native(native_args@[i]));
            }
        }
    }
    if results.len() == 0 {
        values.insert(dest, NativeValueRepr::Unit);
        proof {
            assert(results@.map_values(|v: Value| value_number(v)) =~= Seq::<nat>::empty());
        }
    } else if results.len() == 1 {
        values.insert(dest, NativeValueRepr::Native(results[0]));
        proof {
            assert(results@.map_values(|v: Value| value_number(v)) =~= seq![value_number(results@[0])]);
        }
    } else {
        return Err(fn_message(env.backend, "does not support multi-value returns", env.function));
    }
    proof {
        lemma_ok_kept(*env, old(values)@, headers, s0, clif_state(*builder));
    }
    Ok(true)
}

/// Comparing values of the kind finishes within `fuel` nested record and
/// enum layouts, and meets only kinds that the native lowering compares.
pub open spec fn eq_fuel(env: NativeLowering, k: KindView, fuel: nat) -> bool
    decreases fuel,
{
    match k {
        KindView::Bytes | KindView::TextIndex | KindView::File => false,
        KindView::Record(n) => match last_record_named(env.records@, n) {
            None => true,
            Some(r) => fuel > 0 && forall|i: int| 0 <= i < r.fields@.len()
                ==> eq_fuel(env, kind_view(#[trigger] r.fields@[i].kind), (fuel - 1) as nat),
        },
        KindView::Enum(n) => match last_native_enum(env.enums@, n) {
            None => true,
            Some(e) => payload_free(e) || (fuel > 0 && forall|i: int| 0 <= i < e.variants@.len()
                ==> match (#[trigger] e.variants@[i]).payload_type {
                None => true,
                Some(p) => match spec_native_kind(p@, record_names(env.records@), enum_names(env.enums@)) {
                    Ok(pk) => eq_fuel(env, pk, (fuel - 1) as nat),
                    Err(_) => true,
                },
            }),
        },
        _ => true,
    }
}

/// The error of comparing values of the kind for equality, if it fails.
pub open spec fn equality_error(env: NativeLowering, k: KindView, fuel: nat) -> Option<Seq<char>>
    decreases fuel, 0nat,
{
    match k {
        KindView::Record(n) => match last_record_named(env.records@, n) {
            None => Some(missing_record_msg(n)),
            Some(r) => if fuel > 0 {
                fields_equality_error(env, r.fields@, (fuel - 1) as nat)
            } else {
                None
            },
        },
        KindView::Enum(n) => match last_native_enum(env.enums@, n) {
            None => Some(missing_enum_msg(n)),
            Some(e) => if payload_free(e) || fuel == 0 {
                None
            } else {
                variants_equality_error(env, e.variants@, (fuel - 1) as nat)
            },
        },
        _ => None,
    }
}

pub open spec fn fields_equality_error(env: NativeLowering, fields: Seq<crate::native::NativeRecordField>, fuel: nat) -> Option<Seq<char>>
    decreases fuel, fields.len(),
{
    if fields.len() == 0 {
        None
    } else if fields[0].offset > i32::MAX {
        Some("record offset exceeds backend limits"@)
    } else {
        match equality_error(env, kind_view(fields[0].kind), fuel) {
            Some(e) => Some(e),
            None => fields_equality_error(env, fields.drop_first(), fuel),
        }
    }
}

pub open spec fn variants_equality_error(env: NativeLowering, variants: Seq<crate::native::NativeEnumVariant>, fuel: nat) -> Option<Seq<char>>
    decreases fuel, variants.len(),
{
    if variants.len() == 0 {
        None
    } else {
        match variants[0].payload_type {
            None => variants_equality_error(env, variants.drop_first(), fuel),
            Some(p) => match spec_native_kind(p@, record_names(env.records@), enum_names(env.enums@)) {
                Err(e) => Some(e),
                Ok(pk) => match equality_error(env, pk, fuel) {
                    Some(e) => Some(e),
                    None => variants_equality_error(env, variants.drop_first(), fuel),
                },
            },
        }
    }
}

/// What comparing needs of the builder and the layout tables.
pub open spec fn compare_pre(env: NativeLowering, s: BuilderView) -> bool {
    &&& s.positioned
    &&& compare_tables(env, s)
}

/// What comparing needs of the layout tables and imported helpers.
pub open spec fn compare_tables(env: NativeLowering, s: BuilderView) -> bool {
    &&& view_wf(s)
    &&& helpers_ok(env.helpers, s.func_returns.len())
    &&& s.func_returns[func_ref_number(env.helpers.text_eq) as int] >= 1
    &&& forall|i: int| 0 <= i < env.enums@.len() ==> (#[trigger] env.enums@[i]).1.variants@.len() <= i64::MAX
}

/// Compares two native values of a kind for equality, giving 1 or 0 (an
/// I64): integers and handles by value, floats by float equality, texts
/// through the runtime's text equality, records field by field, enums
/// without payloads by tag, and enums with payloads by tag and, for the
/// variant that both have, by payload.
pub fn lower_native_kind_equality(
    env: &NativeLowering,
    builder: &mut FunctionBuilder,
    left: Value,
    right: Value,
    kind: &NativeValueKind,
    Ghost(fuel): Ghost<nat>,
) -> (r: Result<Value, String>)
    requires
        compare_pre(*env, clif_state(*old(builder))),
        value_number(left) < clif_state(*old(builder)).value_types.len(),
        value_number(right) < clif_state(*old(builder)).value_types.len(),
        eq_fuel(*env, kind_view(*kind), fuel),
    ensures
        extends(clif_state(*old(builder)), clif_state(*final(builder))),
        clif_state(*final(builder)).positioned,
        match equality_error(*env, kind_view(*kind), fuel) {
            Some(e) => err_is(r, e),
            None => r matches Ok(v) && value_number(v) < clif_state(*final(builder)).value_types.len(),
        },
        (*kind is Text && r is Ok) ==> clif_state(*final(builder)).emitted == clif_state(*old(builder)).emitted.push(
            ClifEntry {
                op: ClifOp::Call(func_ref_number(env.helpers.text_eq)),
                args: seq![value_number(left), value_number(right)],
                results: Seq::new(
                    clif_state(*old(builder)).func_returns[func_ref_number(env.helpers.text_eq) as int],
                    |i: int| (clif_state(*old(builder)).value_types.len() + i) as nat,
                ),
            },
        ) && value_number(r->Ok_0) == clif_state(*old(builder)).value_types.len()
            && clif_state(*final(builder)).value_types.len() == clif_state(*old(builder)).value_types.len() + clif_state(
            *old(builder),
        ).func_returns[func_ref_number(env.helpers.text_eq) as int]
            && clif_state(*final(builder)).value_types[value_number(r->Ok_0) as int] == clif_state(
            *old(builder),
        ).func_result_types[func_ref_number(env.helpers.text_eq) as int][0],
    decreases fuel, 0nat,
{
    let i64t = clif_type(ClifType::I64);
    match kind {
        NativeValueKind::F64 => {
            let c = ins_float_compare(builder, FloatCond::Equal, left, right);
            Ok(ins_uextend(builder, i64t, c))
        },
        NativeValueKind::Text => {
            let args = vec![left, right];
            let results = ins_call(builder, env.helpers.text_eq, args.as_slice());
            proof {
                let n = clif_state(*old(builder)).value_types.len();
                assert(args@.map_values(|a: Value| value_number(a)) =~= seq![value_number(left), value_number(right)]);
                assert(results@.map_values(|a: Value| value_number(a)) =~= Seq::new(
                    clif_state(*old(builder)).func_returns[func_ref_number(env.helpers.text_eq) as int],
                    |i: int| (n + i) as nat,
                ));
            }
            Ok(results[0])
        },
        NativeValueKind::Record(name) => {
            let record = match find_last_record(env.records, name.as_str()) {
                Some(r) => r,
                None => {
                    return Err(quoted_message("missing native record metadata for `", name.as_str(), "`"));
                },
            };
            assert(fuel > 0);
            lower_record_pointer_comparison(env, builder, left, right, record, Ghost((fuel - 1) as nat))
        },
        NativeValueKind::Enum(name) => {
            let enum_ty = match find_native_enum(env.enums, name.as_str()) {
                Some(e) => e,
                None => {
                    return Err(quoted_message("missing native enum metadata for `", name.as_str(), "`"));
                },
            };
            proof {
                lemma_last_native_enum_in(env.enums@, name@);
            }
            if native_enum_is_payload_free(enum_ty) {
                let c = ins_int_compare(builder, IntCond::Equal, left, right);
                Ok(ins_uextend(builder, i64t, c))
            } else {
                assert(fuel > 0);
                lower_enum_pointer_comparison(env, builder, left, right, enum_ty, Ghost((fuel - 1) as nat))
            }
        },
        _ => {
            let c = ins_int_compare(builder, IntCond::Equal, left, right);
            Ok(ins_uextend(builder, i64t, c))
        },
    }
}

/// Compares two records field by field: the conjunction (bitwise and,
/// starting from 1) of the fields' equalities, each field loaded with its
/// native type at its offset.
fn lower_record_pointer_comparison(
    env: &NativeLowering,
    builder: &mut FunctionBuilder,
    left: Value,
    right: Value,
    record: &NativeRecord,
    Ghost(fuel): Ghost<nat>,
) -> (r: Result<Value, String>)
    requires
        compare_pre(*env, clif_state(*old(builder))),
        value_number(left) < clif_state(*old(builder)).value_types.len(),
        value_number(right) < clif_state(*old(builder)).value_types.len(),
        forall|i: int| 0 <= i < record.fields@.len() ==> eq_fuel(*env, kind_view(#[trigger] record.fields@[i].kind), fuel),
    ensures
        extends(clif_state(*old(builder)), clif_state(*final(builder))),
        clif_state(*final(builder)).positioned,
        match fields_equality_error(*env, record.fields@, fuel) {
            Some(e) => err_is(r, e),
            None => r matches Ok(v) && value_number(v) < clif_state(*final(builder)).value_types.len(),
        },
    decreases fuel, 1nat,
{
    let ghost s0 = clif_state(*builder);
    let i64t = clif_type(ClifType::I64);
    let mut result = ins_iconst(builder, i64t, 1);
    let mut k: usize = 0;
    assert(record.fields@.skip(0) =~= record.fields@);
    while k < record.fields.len()
        invariant
            k <= record.fields@.len(),
            s0 == clif_state(*old(builder)),
            compare_pre(*env, clif_state(*builder)),
            extends(s0, clif_state(*builder)),
            value_number(left) < clif_state(*builder).value_types.len(),
            value_number(right) < clif_state(*builder).value_types.len(),
            value_number(result) < clif_state(*builder).value_types.len(),
            forall|i: int| 0 <= i < record.fields@.len() ==> eq_fuel(*env, kind_view(#[trigger] record.fields@[i].kind), fuel),
            fields_equality_error(*env, record.fields@, fuel) == fields_equality_error(*env, record.fields@.skip(k as int), fuel),
        decreases record.fields@.len() - k,
    {
        let field = &record.fields[k];
        assert(record.fields@.skip(k as int).drop_first() =~= record.fields@.skip(k + 1));
        assert(record.fields@.skip(k as int)[0] == *field);
        if field.offset > 2147483647 {
            return Err(String::from_str("record offset exceeds backend limits"));
        }
        let ft = clif_type(native_kind_type(&field.kind));
        let lf = ins_load(builder, ft, MemKind::Plain, left, field.offset as i32);
        let rf = ins_load(builder, ft, MemKind::Plain, right, field.offset as i32);
        assert(eq_fuel(*env, kind_view(record.fields@[k as int].kind), fuel));
        let fe = lower_native_kind_equality(env, builder, lf, rf, &field.kind, Ghost(fuel))?;
        result = ins_band(builder, result, fe);
        k = k + 1;
    }
    Ok(result)
}

/// Compares two enums with payloads: their tags (the words at offset 0) are
/// equal, and for each variant with a payload, either the left value is not
/// of that variant or the payloads (the words at offset 8) are equal.
fn lower_enum_pointer_comparison(
    env: &NativeLowering,
    builder: &mut FunctionBuilder,
    left: Value,
    right: Value,
    enum_ty: &NativeEnum,
    Ghost(fuel): Ghost<nat>,
) -> (r: Result<Value, String>)
    requires
        compare_pre(*env, clif_state(*old(builder))),
        value_number(left) < clif_state(*old(builder)).value_types.len(),
        value_number(right) < clif_state(*old(builder)).value_types.len(),
        enum_ty.variants@.len() <= i64::MAX,
        forall|i: int| 0 <= i < enum_ty.variants@.len() ==> match (#[trigger] enum_ty.variants@[i]).payload_type {
            None => true,
            Some(p) => match spec_native_kind(p@, record_names(env.records@), enum_names(env.enums@)) {
                Ok(pk) => eq_fuel(*env, pk, fuel),
                Err(_) => true,
            },
        },
    ensures
        extends(clif_state(*old(builder)), clif_state(*final(builder))),
        clif_state(*final(builder)).positioned,
        match variants_equality_error(*env, enum_ty.variants@, fuel) {
            Some(e) => err_is(r, e),
            None => r matches Ok(v) && value_number(v) < clif_state(*final(builder)).value_types.len(),
        },
    decreases fuel, 1nat,
{
    let ghost s0 = clif_state(*builder);
    let i64t = clif_type(ClifType::I64);
    let left_tag = ins_load(builder, i64t, MemKind::Plain, left, 0);
    let right_tag = ins_load(builder, i64t, MemKind::Plain, right, 0);
    let tag_equal = ins_int_compare(builder, IntCond::Equal, left_tag, right_tag);
    let mut result = ins_uextend(builder, i64t, tag_equal);
    let mut k: usize = 0;
    assert(enum_ty.variants@.skip(0) =~= enum_ty.variants@);
    while k < enum_ty.variants.len()
        invariant
            k <= enum_ty.variants@.len(),
            enum_ty.variants@.len() <= i64::MAX,
            clif_type_of(i64t) == ClifType::I64,
            s0 == clif_state(*old(builder)),
            compare_pre(*env, clif_state(*builder)),
            extends(s0, clif_state(*builder)),
            value_number(left) < clif_state(*builder).value_types.len(),
            value_number(right) < clif_state(*builder).value_types.len(),
            value_number(left_tag) < clif_state(*builder).value_types.len(),
            value_number(result) < clif_state(*builder).value_types.len(),
            forall|i: int| 0 <= i < enum_ty.variants@.len() ==> match (#[trigger] enum_ty.variants@[i]).payload_type {
                None => true,
                Some(p) => match spec_native_kind(p@, record_names(env.records@), enum_names(env.enums@)) {
                    Ok(pk) => eq_fuel(*env, pk, fuel),
                    Err(_) => true,
                },
            },
            variants_equality_error(*env, enum_ty.variants@, fuel) == variants_equality_error(
                *env,
                enum_ty.variants@.skip(k as int),
                fuel,
            ),
        decreases enum_ty.variants@.len() - k,
    {
        let variant = &enum_ty.variants[k];
        assert(enum_ty.variants@.skip(k as int).drop_first() =~= enum_ty.variants@.skip(k + 1));
        assert(enum_ty.variants@.skip(k as int)[0] == *variant);
        match &variant.payload_type {
            None => {},
            Some(payload_type) => {
                let lm = ins_int_compare_imm(builder, IntCond::Equal, left_tag, k as i64);
                let lm = ins_uextend(builder, i64t, lm);
                let payload_kind = native_value_kind(payload_type.as_str(), env.records, env.enums)?;
                assert(eq_fuel(*env, kind_view(payload_kind), fuel));
                let pt = clif_type(native_kind_type(&payload_kind));
                let lp = ins_load(builder, pt, MemKind::Plain, left, 8);
                let rp = ins_load(builder, pt, MemKind::Plain, right, 8);
                let pe = lower_native_kind_equality(env, builder, lp, rp, &payload_kind, Ghost(fuel))?;
                let one = ins_iconst(builder, i64t, 1);
                let not_variant = ins_bxor(builder, lm, one);
                let variant_ok = ins_bor(builder, not_variant, pe);
                result = ins_band(builder, result, variant_ok);
            },
        }
        k = k + 1;
    }
    Ok(result)
}

/// The name that Rust's `Debug` gives the condition.
pub open spec fn cond_name(c: IntCond) -> Seq<char> {
    match c {
        IntCond::Equal => "Equal"@,
        IntCond::NotEqual => "NotEqual"@,
        IntCond::SignedLessThan => "SignedLessThan"@,
        IntCond::SignedLessThanOrEqual => "SignedLessThanOrEqual"@,
        IntCond::SignedGreaterThan => "SignedGreaterThan"@,
        IntCond::SignedGreaterThanOrEqual => "SignedGreaterThanOrEqual"@,
        IntCond::UnsignedGreaterThan => "UnsignedGreaterThan"@,
        IntCond::UnsignedGreaterThanOrEqual => "UnsignedGreaterThanOrEqual"@,
    }
}

fn cond_name_text(c: IntCond) -> (r: &'static str)
    ensures
        r@ == cond_name(c),
{
    match c {
        IntCond::Equal => "Equal",
        IntCond::NotEqual => "NotEqual",
        IntCond::SignedLessThan => "SignedLessThan",
        IntCond::SignedLessThanOrEqual => "SignedLessThanOrEqual",
        IntCond::SignedGreaterThan => "SignedGreaterThan",
        IntCond::SignedGreaterThanOrEqual => "SignedGreaterThanOrEqual",
        IntCond::UnsignedGreaterThan => "UnsignedGreaterThan",
        IntCond::UnsignedGreaterThanOrEqual => "UnsignedGreaterThanOrEqual",
    }
}

pub open spec fn float_cond_error(env: NativeLowering, c: IntCond) -> Option<Seq<char>> {
    if c != IntCond::NotEqual && (c == IntCond::UnsignedGreaterThan || c == IntCond::UnsignedGreaterThanOrEqual) {
        Some(fn_msg(env.backend@, "cannot lower float comparison `"@ + cond_name(c) + "`"@, *env.function))
    } else {
        None
    }
}

/// The instructions of a text comparison of values `a` and `b` whose
/// result is value `v` (`None` when the text helper's result type is not
/// one the lowering names): the call of the text equality helper, and for
/// not equal, the comparison of its result with 0 (an `_imm` call) and the
/// zero extension of that.
pub open spec fn text_compare_calls(env: NativeLowering, s0: BuilderView, c: IntCond, a: nat, b: nat, v: nat) -> Option<Seq<ClifEntry>> {
    let f = func_ref_number(env.helpers.text_eq);
    let n = s0.value_types.len();
    let k = s0.func_returns[f as int];
    let t = s0.func_result_types[f as int][0];
    let call = ClifEntry { op: ClifOp::Call(f), args: seq![a, b], results: Seq::new(k, |i: int| (n + i) as nat) };
    if c != IntCond::NotEqual {
        Some(seq![call])
    } else if t == ClifType::Other {
        None
    } else {
        Some(seq![call] + imm_entries(ClifOp::IntCompare(IntCond::Equal), n, t, 0, n + k) + seq![
            ClifEntry { op: ClifOp::Uextend, args: seq![(v - 1) as nat], results: seq![v] },
        ])
    }
}

/// The float condition of an integer comparison condition.
pub open spec fn float_cond_of(c: IntCond) -> FloatCond {
    match c {
        IntCond::Equal => FloatCond::Equal,
        IntCond::NotEqual => FloatCond::NotEqual,
        IntCond::SignedLessThan => FloatCond::LessThan,
        IntCond::SignedLessThanOrEqual => FloatCond::LessThanOrEqual,
        IntCond::SignedGreaterThan => FloatCond::GreaterThan,
        _ => FloatCond::GreaterThanOrEqual,
    }
}

/// The instructions of a float comparison of values `a` and `b` whose
/// result is value `v`: not equal as the negation of float equality, each
/// other condition as that float comparison; then the zero extension.
pub open spec fn float_compare_calls(c: IntCond, a: nat, b: nat, v: nat) -> Seq<ClifEntry> {
    if c == IntCond::NotEqual {
        seq![
            ClifEntry { op: ClifOp::FloatCompare(FloatCond::Equal), args: seq![a, b], results: seq![(v - 2) as nat] },
            ClifEntry { op: ClifOp::Bnot, args: seq![(v - 2) as nat], results: seq![(v - 1) as nat] },
            ClifEntry { op: ClifOp::Uextend, args: seq![(v - 1) as nat], results: seq![v] },
        ]
    } else {
        seq![
            ClifEntry { op: ClifOp::FloatCompare(float_cond_of(c)), args: seq![a, b], results: seq![(v - 1) as nat] },
            ClifEntry { op: ClifOp::Uextend, args: seq![(v - 1) as nat], results: seq![v] },
        ]
    }
}

/// Compares two floats with the condition, giving 1 or 0 (an I64); not
/// equal is the negation of float equality.
fn lower_float_comparison(
    env: &NativeLowering,
    builder: &mut FunctionBuilder,
    left: Value,
    right: Value,
    condition: IntCond,
) -> (r: Result<Value, String>)
    requires
        clif_state(*old(builder)).positioned,
        view_wf(clif_state(*old(builder))),
        value_number(left) < clif_state(*old(builder)).value_types.len(),
        value_number(right) < clif_state(*old(builder)).value_types.len(),
    ensures
        extends(clif_state(*old(builder)), clif_state(*final(builder))),
        clif_state(*final(builder)).positioned,
        match float_cond_error(*env, condition) {
            Some(e) => err_is(r, e),
            None => r matches Ok(v) && value_number(v) < clif_state(*final(builder)).value_types.len()
                && clif_state(*final(builder)).emitted == clif_state(*old(builder)).emitted + float_compare_calls(
                condition,
                value_number(left),
                value_number(right),
                value_number(v),
            ),
        },
{
    let i64t = clif_type(ClifType::I64);
    if condition == IntCond::NotEqual {
        let eq = ins_float_compare(builder, FloatCond::Equal, left, right);
        let ne = ins_bnot(builder, eq);
        let v = ins_uextend(builder, i64t, ne);
        proof {
            lemma_entry_shape(ClifOp::FloatCompare(FloatCond::Equal), seq![left, right], seq![eq]);
            lemma_entry_shape(ClifOp::Bnot, seq![eq], seq![ne]);
            lemma_entry_shape(ClifOp::Uextend, seq![ne], seq![v]);
            assert(clif_state(*builder).emitted =~= clif_state(*old(builder)).emitted + float_compare_calls(
                condition,
                value_number(left),
                value_number(right),
                value_number(v),
            ));
        }
        return Ok(v);
    }
    let fc = match float_cc(condition) {
        Some(fc) => fc,
        None => {
            let middle = quoted_message("cannot lower float comparison `", cond_name_text(condition), "`");
            return Err(fn_message(env.backend, middle.as_str(), env.function));
        },
    };
    let c = ins_float_compare(builder, fc, left, right);
    let v = ins_uextend(builder, i64t, c);
    proof {
        lemma_entry_shape(ClifOp::FloatCompare(fc), seq![left, right], seq![c]);
        lemma_entry_shape(ClifOp::Uextend, seq![c], seq![v]);
        assert(clif_state(*builder).emitted =~= clif_state(*old(builder)).emitted + float_compare_calls(
            condition,
            value_number(left),
            value_number(right),
            value_number(v),
        ));
    }
    Ok(v)
}

/// Compares two values of a text, record or enum kind (or a float kind)
/// with the condition: by float comparison for floats, otherwise by
/// equality, negated for not-equal.
pub fn lower_native_kind_comparison(
    env: &NativeLowering,
    builder: &mut FunctionBuilder,
    left: Value,
    right: Value,
    kind: &NativeValueKind,
    condition: IntCond,
    Ghost(fuel): Ghost<nat>,
) -> (r: Result<Value, String>)
    requires
        compare_pre(*env, clif_state(*old(builder))),
        value_number(left) < clif_state(*old(builder)).value_types.len(),
        value_number(right) < clif_state(*old(builder)).value_types.len(),
        eq_fuel(*env, kind_view(*kind), fuel),
    ensures
        extends(clif_state(*old(builder)), clif_state(*final(builder))),
        clif_state(*final(builder)).positioned,
        match (if *kind is F64 { float_cond_error(*env, condition) } else { equality_error(*env, kind_view(*kind), fuel) }) {
            Some(e) => err_is(r, e),
            None => r matches Ok(v) && value_number(v) < clif_state(*final(builder)).value_types.len()
                && (*kind is F64 ==> clif_state(*final(builder)).emitted == clif_state(*old(builder)).emitted
                + float_compare_calls(condition, value_number(left), value_number(right), value_number(v)))
                && ((*kind is Text && text_compare_calls(*env, clif_state(*old(builder)), condition, value_number(left), value_number(right), value_number(v)) is Some) ==> clif_state(*final(builder)).emitted
                == clif_state(*old(builder)).emitted + text_compare_calls(
                *env,
                clif_state(*old(builder)),
                condition,
                value_number(left),
                value_number(right),
                value_number(v),
            )->0),
        },
{
    if matches!(kind, NativeValueKind::F64) {
        return lower_float_comparison(env, builder, left, right, condition);
    }
    let ghost s0 = clif_state(*builder);
    let equal = lower_native_kind_equality(env, builder, left, right, kind, Ghost(fuel))?;
    let ghost s_eq = clif_state(*builder);
    if condition == IntCond::NotEqual {
        let i64t = clif_type(ClifType::I64);
        let c = ins_int_compare_imm(builder, IntCond::Equal, equal, 0);
        let v = ins_uextend(builder, i64t, c);
        proof {
            lemma_entry_shape(ClifOp::Uextend, seq![c], seq![v]);
            if *kind is Text && text_compare_calls(*env, s0, condition, value_number(left), value_number(right), value_number(v)) is Some {
                assert(clif_state(*builder).emitted =~= s0.emitted + text_compare_calls(
                    *env,
                    s0,
                    condition,
                    value_number(left),
                    value_number(right),
                    value_number(v),
                )->0);
            }
        }
        Ok(v)
    } else {
        proof {
            if *kind is Text {
                assert(clif_state(*builder).emitted =~= s0.emitted + text_compare_calls(
                    *env,
                    s0,
                    condition,
                    value_number(left),
                    value_number(right),
                    value_number(equal),
                )->0);
            }
        }
        Ok(equal)
    }
}

pub open spec fn compare_ops(left: ValueId, right: ValueId) -> Seq<(ValueId, Seq<char>)> {
    seq![(left, "comparison left operand"@), (right, "comparison right operand"@)]
}

/// The error of a comparison, if it fails.
pub open spec fn comparison_error(
    env: NativeLowering,
    values: Map<u32, NativeValueRepr>,
    left: ValueId,
    right: ValueId,
    condition: IntCond,
    fuel: nat,
) -> Option<Seq<char>> {
    match env.kinds@.get(left.0) {
        Some(k) if k is Text || k is Record || k is Enum => match operand_error(values, compare_ops(left, right), env.backend@, *env.function) {
            Some(e) => Some(e),
            None => equality_error(env, k, fuel),
        },
        Some(KindView::F64) => match operand_error(values, compare_ops(left, right), env.backend@, *env.function) {
            Some(e) => Some(e),
            None => float_cond_error(env, condition),
        },
        _ => if !values.contains_key(left.0) {
            Some(unresolved_msg(env.backend@, "comparison left operand"@, left, *env.function))
        } else if !values.contains_key(right.0) {
            Some(unresolved_msg(env.backend@, "comparison right operand"@, right, *env.function))
        } else if (values[left.0] is Unit) != (values[right.0] is Unit) {
            Some(fn_msg(env.backend@, "cannot compare unit and non-unit values"@, *env.function))
        } else {
            None
        },
    }
}

/// Whether a comparison with this left operand compares integers: its kind
/// is not text, record, enum or F64.
pub open spec fn int_compared(env: NativeLowering, left: ValueId) -> bool {
    !(env.kinds@.get(left.0) matches Some(k) && (k is Text || k is Record || k is Enum || k is F64))
}

/// The instruction-builder calls of an integer comparison of values `a` and
/// `b` into the I64 value `n`: the comparison, whose value is the one made
/// just before `n`, then its zero extension to `n`.
pub open spec fn int_compare_calls(cond: IntCond, a: nat, b: nat, n: nat) -> Seq<ClifEntry> {
    seq![
        ClifEntry { op: ClifOp::IntCompare(cond), args: seq![a, b], results: seq![(n - 1) as nat] },
        ClifEntry { op: ClifOp::Uextend, args: seq![(n - 1) as nat], results: seq![n] },
    ]
}

/// Lowers a comparison to 1 or 0 (an I64): texts, records and enums by the
/// kind's equality, floats by float comparison, two units as equal, and
/// other native values by integer comparison with the condition.
pub fn lower_comparison(
    env: &NativeLowering,
    builder: &mut FunctionBuilder,
    values: &ValueMap,
    left: ValueId,
    right: ValueId,
    condition: IntCond,
    Ghost(fuel): Ghost<nat>,
) -> (r: Result<NativeValueRepr, String>)
    requires
        compare_pre(*env, clif_state(*old(builder))),
        values_ok(values@, clif_state(*old(builder))),
        env.kinds@.contains_key(left.0) ==> eq_fuel(*env, env.kinds@[left.0], fuel),
    ensures
        extends(clif_state(*old(builder)), clif_state(*final(builder))),
        clif_state(*final(builder)).positioned,
        match comparison_error(*env, values@, left, right, condition, fuel) {
            Some(e) => err_is(r, e),
            None => r matches Ok(NativeValueRepr::Native(v)) && value_number(v) < clif_state(*final(builder)).value_types.len(),
        },
        (comparison_error(*env, values@, left, right, condition, fuel) is None && env.kinds@.get(left.0) == Some(KindView::Text))
            ==> (r matches Ok(NativeValueRepr::Native(v)) && (text_compare_calls(
            *env,
            clif_state(*old(builder)),
            condition,
            native_number(values@, left),
            native_number(values@, right),
            value_number(v),
        ) is Some ==> clif_state(*final(builder)).emitted == clif_state(*old(builder)).emitted + text_compare_calls(
            *env,
            clif_state(*old(builder)),
            condition,
            native_number(values@, left),
            native_number(values@, right),
            value_number(v),
        )->0)),
        (comparison_error(*env, values@, left, right, condition, fuel) is None && env.kinds@.get(left.0) == Some(KindView::F64))
            ==> (r matches Ok(NativeValueRepr::Native(v)) && clif_state(*final(builder)).emitted == clif_state(*old(builder)).emitted
            + float_compare_calls(condition, native_number(values@, left), native_number(values@, right), value_number(v))),
        (comparison_error(*env, values@, left, right, condition, fuel) is None && int_compared(*env, left)
            && values@[left.0] is Native) ==> (r matches Ok(NativeValueRepr::Native(v))
            && clif_state(*final(builder)).emitted == clif_state(*old(builder)).emitted + int_compare_calls(
                condition,
                native_number(values@, left),
                native_number(values@, right),
                value_number(v),
            )),
{
    let ghost ops = compare_ops(left, right);
    proof {
        reveal_with_fuel(operand_error, 3);
    }
    assert(ops.drop_first().drop_first() =~= Seq::<(ValueId, Seq<char>)>::empty());
    assert(ops.drop_first()[0] == (right, "comparison right operand"@));
    assert(operand_error(values@, ops.drop_first().drop_first(), env.backend@, *env.function) is None);
    match env.kinds.get(left) {
        Some(kind) => {
            assert(env.kinds@.get(left.0) == Some(kind_view(*kind)));
            if matches!(kind, NativeValueKind::Text | NativeValueKind::Record(_) | NativeValueKind::Enum(_) | NativeValueKind::F64) {
                let l = native_value(values, left, env.function, "comparison left operand", env.backend)?;
                let r = native_value(values, right, env.function, "comparison right operand", env.backend)?;
                assert(eq_fuel(*env, kind_view(*kind), fuel));
                let v = lower_native_kind_comparison(env, builder, l, r, kind, condition, Ghost(fuel))?;
                return Ok(NativeValueRepr::Native(v));
            }
        },
        None => {},
    }
    let l = value_repr(values, left, env.function, "comparison left operand", env.backend)?;
    let r = value_repr(values, right, env.function, "comparison right operand", env.backend)?;
    let i64t = clif_type(ClifType::I64);
    match (l, r) {
        (NativeValueRepr::Unit, NativeValueRepr::Unit) => {
            let n: i64 = if condition == IntCond::Equal { 1 } else { 0 };
            Ok(NativeValueRepr::Native(ins_iconst(builder, i64t, n)))
        },
        (NativeValueRepr::Native(a), NativeValueRepr::Native(b)) => {
            let ghost e0 = clif_state(*builder).emitted;
            let c = ins_int_compare(builder, condition, a, b);
            let v = ins_uextend(builder, i64t, c);
            proof {
                lemma_entry_shape(ClifOp::IntCompare(condition), seq![a, b], seq![c]);
                lemma_entry_shape(ClifOp::Uextend, seq![c], seq![v]);
                assert(clif_state(*builder).emitted =~= e0 + int_compare_calls(condition, value_number(a), value_number(b), value_number(v)));
            }
            Ok(NativeValueRepr::Native(v))
        },
        _ => Err(fn_message(env.backend, "cannot compare unit and non-unit values", env.function)),
    }
}

/// What the whole lowering needs of the builder and the layout tables:
/// comparisons can be lowered once a block takes instructions (see
/// `compare_pre`).
pub open spec fn lowering_ok(env: NativeLowering, s: BuilderView) -> bool {
    compare_tables(env, s)
}

pub open spec fn comparison_of(inst: Inst) -> Option<(ValueId, ValueId, IntCond)> {
    match inst {
        Inst::Eq { left, right, .. } => Some((left, right, IntCond::Equal)),
        Inst::Ne { left, right, .. } => Some((left, right, IntCond::NotEqual)),
        Inst::Lt { left, right, .. } => Some((left, right, IntCond::SignedLessThan)),
        Inst::Le { left, right, .. } => Some((left, right, IntCond::SignedLessThanOrEqual)),
        Inst::Gt { left, right, .. } => Some((left, right, IntCond::SignedGreaterThan)),
        Inst::Ge { left, right, .. } => Some((left, right, IntCond::SignedGreaterThanOrEqual)),
        _ => None,
    }
}

pub open spec fn is_control(inst: Inst) -> bool {
    inst is If || inst is While || inst is Repeat
}

/// The error of lowering an instruction that opens no block, if it fails.
pub open spec fn inst_error(env: NativeLowering, s: BuilderView, values: Map<u32, NativeValueRepr>, inst: Inst) -> Option<Seq<char>> {
    if helper_plan(env.helpers, inst) is Some {
        helper_error(env, s, values, helper_plan(env.helpers, inst)->0)
    } else if value_ops(inst) is Some {
        value_inst_error(env, values, inst)
    } else if list_ops(inst) is Some {
        match list_inst_error(env, values, inst) {
            Some(e) => Some(e),
            None => if inst is ListNew && s.func_returns[func_ref_number(env.helpers.list_new) as int] != 1 {
                Some(shape_msg(env.backend@, "list new helper"@, *env.function))
            } else {
                None
            },
        }
    } else if comparison_of(inst) is Some {
        let (l, r, c) = comparison_of(inst)->0;
        comparison_error(env, values, l, r, c, compare_fuel(env))
    } else {
        match inst {
            Inst::Field { base, name, .. } => field_error(env, values, base, name@),
            Inst::EnumPayload { value, payload_type, .. } => enum_payload_error(env, values, value, payload_type@),
            Inst::EnumTagEq { value, .. } => enum_tag_error(env, values, value),
            Inst::Call { callee, args, .. } => match call_error(env, values, callee@, args@) {
                Some(e) => Some(e),
                None => if s.func_returns[func_ref_number(callee_ref(env.callees@, callee@)->0) as int] > 1 {
                    Some(fn_msg(env.backend@, "does not support multi-value returns"@, *env.function))
                } else {
                    None
                },
            },
            Inst::MakeRecord { name, fields, .. } => match last_record_named(env.records@, name@) {
                None => Some(missing_record_msg(name@)),
                Some(record) => if s.func_returns[func_ref_number(env.helpers.allocator) as int] != 1 {
                    Some(shape_msg(env.backend@, "record allocator"@, *env.function))
                } else {
                    record_fill_error(env, values, record.fields@, fields@)
                },
            },
            Inst::MakeEnum { name, variant, payload, .. } => match make_enum_error(env, values, name@, variant@) {
                Some(e) => Some(e),
                None => if payload_free(last_native_enum(env.enums@, name@)->0) {
                    None
                } else if s.func_returns[func_ref_number(env.helpers.allocator) as int] != 1 {
                    Some(shape_msg(env.backend@, "enum allocator"@, *env.function))
                } else if payload is Some && !values.contains_key((payload->0).0) {
                    Some(unresolved_msg(env.backend@, "enum payload"@, payload->0, *env.function))
                } else {
                    None
                },
            },
            Inst::Perform { .. } | Inst::Handle { .. } => Some(fn_msg(env.backend@, "does not yet support effect handlers"@, *env.function)),
            _ => local_inst_error(env, values, inst),
        }
    }
}

/// What lowering an instruction promises: the builder only grows; on
/// success the state still fits, and the instruction changed the
/// representation of its destination only (an `if` whose branches both end
/// changes nothing, a `while` whose condition ends makes its destination the
/// unit); an instruction that opens no block fails exactly with its
/// `inst_error` (a failed store coercion aside); a control instruction fails
/// with its `control_error` when there is one; a `while` or `repeat` that
/// succeeds makes its destination the unit; a `while` whose condition and
/// body are empty succeeds when its condition is native, and a `repeat` with
/// an empty body ends as `repeat_outcome` says; an arithmetic, bitwise,
/// conversion, text-length or assertion instruction that succeeds makes
/// exactly the instruction-builder call of `value_call`.
pub open spec fn lower_post(
    env: NativeLowering,
    s0: BuilderView,
    s1: BuilderView,
    v0: Map<u32, NativeValueRepr>,
    v1: Map<u32, NativeValueRepr>,
    h0: Map<u32, ListHeader>,
    h1: Map<u32, ListHeader>,
    inst: Inst,
    r: Result<bool, String>,
) -> bool {
    &&& extends(s0, s1)
    &&& r is Ok ==> lower_pre(env, s1, v1, h1) && lowering_ok(env, s1)
    &&& !(r matches Ok(false))
    &&& r matches Ok(true) ==> frame(inst, v0, v1)
    &&& (value_ops(inst) is Some && r is Ok && value_call(env, inst, v0, v1) is Some) ==> s1.emitted == s0.emitted.push(
        value_call(env, inst, v0, v1)->0,
    )
    &&& (is_local_inst(inst) && r is Ok) ==> local_emitted(env, inst, s0, s1, v1)
    &&& (value_ops(inst) is Some && r is Ok && value_calls(env, s0, inst, v0) is Some) ==> s1.emitted == s0.emitted
        + value_calls(env, s0, inst, v0)->0
    &&& (list_ops(inst) is Some && r is Ok) ==> list_access_last(s0, s1, v0, v1, inst)
    &&& (list_ops(inst) is Some && r is Ok && list_entries(env, s0, v0, h0, v1, inst) is Some) ==> s1.emitted == s0.emitted
        + list_entries(env, s0, v0, h0, v1, inst)->0
    &&& (helper_plan(env.helpers, inst) is Some && r is Ok) ==> s1.emitted == s0.emitted + helper_call_entries(env, inst, v0, v1)
    &&& r is Ok ==> match inst {
        Inst::Call { dest, callee, args } => s1.emitted == s0.emitted.push(call_entry(env, callee@, args@, v0, v1, dest)),
        Inst::Field { dest, base, name } => s1.emitted == s0.emitted.push(field_entry(env, v0, v1, dest, base, name@)),
        Inst::EnumTagEq { value, tag, .. } => s1.emitted == s0.emitted + tag_eq_entries(env, s0, v0, value, tag),
        Inst::MakeRecord { name, fields, .. } => s1.emitted == s0.emitted + make_record_entries(env, s0, v0, name@, fields@),
        Inst::MakeEnum { name, variant, payload, .. } => s1.emitted == s0.emitted + make_enum_entries(
            env,
            s0,
            v0,
            name@,
            variant@,
            payload,
        ),
        Inst::EnumPayload { dest, value, payload_type } => s1.emitted == s0.emitted + payload_entries(
            env,
            v0,
            v1,
            dest,
            value,
            payload_type@,
        ),
        _ => true,
    }
    &&& (inst is If && control_error(env, v0, inst) is None) ==> emitted_prefix(s0.emitted + if_head(s0, v0, inst), s1.emitted)
    &&& (inst is If && r matches Ok(true)) ==> s1.positioned && s1.current == s0.blocks + 2 && if_layout(s0, s1, inst)
    &&& (inst is If && control_error(env, v0, inst) is None && r is Err) ==> if_error(env, inst, r->Err_0@)
    &&& (inst is While && r is Err) ==> while_error(env, inst, r->Err_0@)
    &&& inst is While ==> emitted_prefix(
        s0.emitted.push(ClifEntry { op: ClifOp::Jump(s0.blocks), args: seq![], results: seq![] }),
        s1.emitted,
    )
    &&& (inst is While && r matches Ok(true)) ==> loop_layout(s0, s1, s0.blocks) && while_layout(s0, s1, inst)
    &&& (inst is Repeat && r is Ok) ==> exists|b: nat| s0.blocks <= b && #[trigger] loop_layout(s0, s1, b) && made_op(s0, s1, ClifOp::Jump(b))
        && repeat_layout(s0, s1, b)
    &&& comparison_of(inst) is Some && r is Ok ==> ({
        let (l, rt, c) = comparison_of(inst)->0;
        &&& int_compared(env, l) && v0[l.0] is Native ==> s1.emitted == s0.emitted + int_compare_calls(
            c,
            native_number(v0, l),
            native_number(v0, rt),
            native_number(v1, spec_inst_dest(inst)->0),
        )
        &&& (env.kinds@.get(l.0) == Some(KindView::Text) && text_compare_calls(
            env,
            s0,
            c,
            native_number(v0, l),
            native_number(v0, rt),
            native_number(v1, spec_inst_dest(inst)->0),
        ) is Some) ==> s1.emitted == s0.emitted + text_compare_calls(
            env,
            s0,
            c,
            native_number(v0, l),
            native_number(v0, rt),
            native_number(v1, spec_inst_dest(inst)->0),
        )->0
        &&& env.kinds@.get(l.0) == Some(KindView::F64) ==> s1.emitted == s0.emitted + float_compare_calls(
            c,
            native_number(v0, l),
            native_number(v0, rt),
            native_number(v1, spec_inst_dest(inst)->0),
        )
    })
    &&& r matches Ok(false) ==> (inst is If && v1 == v0) || (inst is While && v1 == v0.insert(
        (spec_inst_dest(inst)->0).0,
        NativeValueRepr::Unit,
    ))
    &&& !is_control(inst) ==> match inst_error(env, s0, v0, inst) {
        Some(e) => err_is(r, e),
        None => r == Ok::<bool, String>(true) || (inst is StoreLocal && !store_fits(env, s0, v0, inst)),
    }
    &&& is_control(inst) ==> match control_error(env, v0, inst) {
        Some(e) => err_is(r, e),
        None => true,
    }
    &&& (inst is While || inst is Repeat) && r is Ok ==> v1 == v0.insert(
        (spec_inst_dest(inst)->0).0,
        NativeValueRepr::Unit,
    )
    &&& (inst matches Inst::While { condition_insts, body_insts, .. } && condition_insts@.len() == 0
        && body_insts@.len() == 0 && control_error(env, v0, inst) is None) ==> r == Ok::<bool, String>(true)
    &&& (inst matches Inst::Repeat { body_insts, .. } && body_insts@.len() == 0 && control_error(env, v0, inst) is None)
        ==> repeat_outcome(env, inst, r)
}

/// The error of a control instruction that its own operands decide before
/// any nested instruction is lowered: an `if` condition or a `repeat` count
/// that has no native value, and the condition of a `while` whose condition
/// instructions are empty.
pub open spec fn control_error(env: NativeLowering, values: Map<u32, NativeValueRepr>, inst: Inst) -> Option<Seq<char>> {
    match inst {
        Inst::If { condition, .. } => operand_error(values, seq![(condition, "if condition"@)], env.backend@, *env.function),
        Inst::Repeat { count, .. } => operand_error(values, seq![(count, "repeat count"@)], env.backend@, *env.function),
        Inst::While { condition_insts, condition, .. } => if condition_insts@.len() == 0 {
            operand_error(values, seq![(condition, "while condition"@)], env.backend@, *env.function)
        } else {
            None
        },
        _ => None,
    }
}

/// The instructions that start the lowering of an `if` whose condition has
/// a native value: a zero constant, the comparison of the condition with it
/// (not equal), and the branch on that comparison to the then block (the
/// first block made) or else to the else block (the second); the third
/// block made is where the branches meet.
pub open spec fn if_head(s0: BuilderView, v0: Map<u32, NativeValueRepr>, inst: Inst) -> Seq<ClifEntry> {
    match inst {
        Inst::If { condition, .. } => {
            let z = s0.value_types.len();
            seq![
                ClifEntry { op: ClifOp::Iconst(0), args: seq![], results: seq![z] },
                ClifEntry { op: ClifOp::IntCompare(IntCond::NotEqual), args: seq![native_number(v0, condition), z], results: seq![z + 1] },
                ClifEntry { op: ClifOp::Brif(s0.blocks, s0.blocks + 1), args: seq![z + 1], results: seq![] },
            ]
        },
        _ => Seq::empty(),
    }
}

/// Lowering the instructions fails with `e` at some instruction, from some
/// state (see `fails_at`).
pub open spec fn nested_fails(env: NativeLowering, insts: Seq<Inst>, e: Seq<char>) -> bool {
    exists|s0: BuilderView, v0: Map<u32, NativeValueRepr>, k: int, s: BuilderView, v: Map<u32, NativeValueRepr>|
        #[trigger] fails_at(env, s0, v0, insts, k, s, v, e)
}

/// The errors of an `if` whose condition has a native value: a failure in
/// the lowering of either branch, a branch result without a native value,
/// branches that disagree on whether they have a value, or a merge of more
/// than one value.
pub open spec fn if_error(env: NativeLowering, inst: Inst, e: Seq<char>) -> bool {
    match inst {
        Inst::If { then_insts, then_result, else_insts, else_result, .. } => {
            let b = env.backend@;
            let f = *env.function;
            ||| nested_fails(env, then_insts@, e)
            ||| nested_fails(env, else_insts@, e)
            ||| (then_result is Some && e == unresolved_msg(b, "then"@ + " branch result"@, then_result->0, f))
            ||| (then_result is Some && e == not_native_msg(b, "then"@ + " branch result"@, f))
            ||| (else_result is Some && e == unresolved_msg(b, "else"@ + " branch result"@, else_result->0, f))
            ||| (else_result is Some && e == not_native_msg(b, "else"@ + " branch result"@, f))
            ||| (branches_disagree(env, inst) && e == b + " conditional branches in `"@ + f.name@
                + "` do not agree on whether they produce a value"@)
            ||| e == fn_msg(b, "does not support multi-value conditional merges"@, f)
        },
        _ => false,
    }
}

/// Whether a branch of an `if` has a result where the `if` has no native
/// value, or has none where it has one.
pub open spec fn branches_disagree(env: NativeLowering, inst: Inst) -> bool {
    match inst {
        Inst::If { dest, then_result, else_result, .. } => {
            let has_dest = env.kinds@.contains_key(dest.0);
            has_dest != (then_result is Some) || has_dest != (else_result is Some)
        },
        _ => false,
    }
}

/// The instruction at `k` belongs to a branch whose first block is `c`: it is
/// in that block, in a block made after the `if`'s three blocks (`b` is the
/// first of them), or is a zero constant that settling a variable made.
pub open spec fn in_branch(s: BuilderView, k: int, c: nat, b: nat) -> bool {
    s.placed[k] == c || s.placed[k] >= b + 3 || settle_zero(s.emitted[k].op)
}

/// How a lowered `if` is laid out after its head (see `if_head`), with `b`
/// its then block, `b + 1` its else block and `b + 2` where they meet: the
/// then branch's instructions, ending with a jump to `b + 2`, then the else
/// branch's, ending with a jump to `b + 2`, and after that only zero
/// constants that settling variables made. An empty branch makes no
/// instruction but those zero constants and its jump.
#[verifier::opaque]
pub open spec fn if_layout(s0: BuilderView, s1: BuilderView, inst: Inst) -> bool {
    let h = s0.emitted.len() + 3;
    let b = s0.blocks;
    exists|j1: int, j2: int| {
        &&& h <= j1 < j2 < s1.emitted.len()
        &&& #[trigger] s1.emitted[j1].op == ClifOp::Jump(b + 2)
        &&& #[trigger] s1.emitted[j2].op == ClifOp::Jump(b + 2)
        &&& in_branch(s1, j1, b, b)
        &&& in_branch(s1, j2, b + 1, b)
        &&& forall|k: int| h <= k < j1 ==> #[trigger] in_branch(s1, k, b, b)
        &&& forall|k: int| j1 < k < j2 ==> #[trigger] in_branch(s1, k, b + 1, b)
        &&& forall|k: int| j2 < k < s1.emitted.len() ==> settle_zero(#[trigger] s1.emitted[k].op)
        &&& (inst matches Inst::If { then_insts, .. } && then_insts@.len() == 0) ==> forall|k: int|
            h <= k < j1 ==> settle_zero(#[trigger] s1.emitted[k].op)
        &&& (inst matches Inst::If { else_insts, .. } && else_insts@.len() == 0) ==> forall|k: int|
            j1 < k < j2 ==> settle_zero(#[trigger] s1.emitted[k].op)
    }
}

/// The errors of a `while`: a failure in the lowering of its condition or
/// body, or a condition without a native value.
pub open spec fn while_error(env: NativeLowering, inst: Inst, e: Seq<char>) -> bool {
    match inst {
        Inst::While { condition_insts, condition, body_insts, .. } => {
            ||| nested_fails(env, condition_insts@, e)
            ||| nested_fails(env, body_insts@, e)
            ||| e == unresolved_msg(env.backend@, "while condition"@, condition, *env.function)
            ||| e == not_native_msg(env.backend@, "while condition"@, *env.function)
        },
        _ => false,
    }
}

/// How a lowered `while` is laid out after its first jump, with `b` its
/// condition block, `b + 1` its body block and `b + 2` its exit block: the
/// condition's instructions, ending with the branch to `b + 1` or else to
/// `b + 2`, then the body's, ending with the jump back to `b`, and after that
/// only zero constants that settling variables made. An empty condition or
/// body makes no instruction but those zero constants.
#[verifier::opaque]
pub open spec fn while_layout(s0: BuilderView, s1: BuilderView, inst: Inst) -> bool {
    let h = s0.emitted.len() + 1;
    let b = s0.blocks;
    exists|jb: int, jj: int| {
        &&& h <= jb < jj < s1.emitted.len()
        &&& #[trigger] s1.emitted[jb].op == ClifOp::Brif(b + 1, b + 2)
        &&& #[trigger] s1.emitted[jj].op == ClifOp::Jump(b)
        &&& in_branch(s1, jb, b, b)
        &&& in_branch(s1, jj, b + 1, b)
        &&& forall|k: int| h <= k < jb ==> #[trigger] in_branch(s1, k, b, b)
        &&& forall|k: int| jb < k < jj ==> #[trigger] in_branch(s1, k, b + 1, b)
        &&& forall|k: int| jj < k < s1.emitted.len() ==> settle_zero(#[trigger] s1.emitted[k].op)
        &&& (inst matches Inst::While { condition_insts, .. } && condition_insts@.len() == 0) ==> forall|k: int|
            h <= k < jb ==> settle_zero(#[trigger] s1.emitted[k].op)
        &&& (inst matches Inst::While { body_insts, .. } && body_insts@.len() == 0) ==> forall|k: int|
            jb < k < jj ==> settle_zero(#[trigger] s1.emitted[k].op)
    }
}

/// How a lowered `repeat` is laid out from its header block `b` (after the
/// instructions of `s0`), with `b + 1` its body block and `b + 2` its exit
/// block: the header's branch to `b + 1` or else to `b + 2`, in `b`; then
/// the body's instructions (with the index local's update and the step of
/// the count and index), ending with the jump back to `b`; and after that
/// only zero constants that settling variables made.
#[verifier::opaque]
pub open spec fn repeat_layout(s0: BuilderView, s1: BuilderView, b: nat) -> bool {
    exists|jb: int, jj: int| {
        &&& s0.emitted.len() <= jb < jj < s1.emitted.len()
        &&& #[trigger] s1.emitted[jb].op == ClifOp::Brif(b + 1, b + 2)
        &&& s1.placed[jb] == b
        &&& #[trigger] s1.emitted[jj].op == ClifOp::Jump(b)
        &&& in_branch(s1, jj, b + 1, b)
        &&& forall|k: int| jb < k < jj ==> #[trigger] in_branch(s1, k, b + 1, b)
        &&& forall|k: int| jj < k < s1.emitted.len() ==> settle_zero(#[trigger] s1.emitted[k].op)
    }
}

/// Some instruction made after those of `s0` and kept in `s1` has opcode
/// `op`.
pub open spec fn made_op(s0: BuilderView, s1: BuilderView, op: ClifOp) -> bool {
    exists|i: int| s0.emitted.len() <= i < s1.emitted.len() && #[trigger] s1.emitted[i].op == op
}

/// How a loop is laid out: from the block `b` that the loop starts by
/// jumping to, a branch goes to the body block `b + 1` or else to the exit
/// block `b + 2`, where the code goes on.
pub open spec fn loop_layout(s0: BuilderView, s1: BuilderView, b: nat) -> bool {
    &&& made_op(s0, s1, ClifOp::Brif(b + 1, b + 2))
    &&& s1.positioned && s1.current == b + 2
}

/// The error of an instruction that is decided before any nested
/// instruction is lowered (see `inst_error` and `control_error`).
pub open spec fn direct_error(env: NativeLowering, s: BuilderView, values: Map<u32, NativeValueRepr>, inst: Inst) -> Option<Seq<char>> {
    if is_control(inst) {
        control_error(env, values, inst)
    } else {
        inst_error(env, s, values, inst)
    }
}

/// How a `repeat` with an empty body and a native count ends: without an
/// index local it succeeds; with one, it fails when the local has no
/// variable or no declared type, and when the type is not an integer the
/// 64-bit counter converts to (I32 or I64); it succeeds otherwise.
pub open spec fn repeat_outcome(env: NativeLowering, inst: Inst, r: Result<bool, String>) -> bool {
    match inst {
        Inst::Repeat { index_slot, .. } => match index_slot {
            None => r == Ok::<bool, String>(true),
            Some(slot) => match slot_var(env.slot_vars@, slot) {
                None => err_is(r, fn_msg(env.backend@, "lowering is missing loop index slot "@ + slot_text(slot), *env.function)),
                Some(_) => match slot_type(env.slot_types@, slot) {
                    None => err_is(
                        r,
                        fn_msg(env.backend@, "loop index slot "@ + slot_text(slot) + " is missing a declared native type"@, *env.function),
                    ),
                    Some(t) => if clif_type_of(t) == ClifType::I64 || clif_type_of(t) == ClifType::I32 {
                        r == Ok::<bool, String>(true)
                    } else {
                        r is Err
                    },
                },
            },
        },
        _ => true,
    }
}

/// The single operand's error is that of its value alone.
pub proof fn lemma_single_operand(values: Map<u32, NativeValueRepr>, v: ValueId, context: Seq<char>, backend: Seq<char>, function: Function)
    ensures
        operand_error(values, seq![(v, context)], backend, function) == if !values.contains_key(v.0) {
            Some(unresolved_msg(backend, context, v, function))
        } else if values[v.0] is Unit {
            Some(not_native_msg(backend, context, function))
        } else {
            None::<Seq<char>>
        },
{
    let ops = seq![(v, context)];
    assert(ops.len() == 1);
    assert(ops[0] == (v, context));
    assert(ops.drop_first() =~= Seq::<(ValueId, Seq<char>)>::empty());
    assert(operand_error(values, ops.drop_first(), backend, function) is None);
}

pub proof fn lemma_lowering_ok_kept(env: NativeLowering, a: BuilderView, b: BuilderView)
    requires
        lowering_ok(env, a),
        extends(a, b),
    ensures
        lowering_ok(env, b),
{
}

/// The jump arguments of an `if` branch: its result, when the `if` has a
/// value, and nothing when it has none; the branches must agree.
pub fn branch_jump_args(
    values: &ValueMap,
    result: Option<ValueId>,
    has_dest: bool,
    function: &Function,
    branch_name: &str,
    backend: &str,
) -> (r: Result<Vec<Value>, String>)
    ensures
        match (has_dest, result) {
            (false, None) => r matches Ok(v) && v@.len() == 0,
            (true, Some(res)) => match operand_error(values@, seq![(res, branch_name@ + " branch result"@)], backend@, *function) {
                Some(e) => err_is(r, e),
                None => r matches Ok(v) && v@.len() == 1 && values@[res.0] == NativeValueRepr::Native(v@[0]),
            },
            _ => err_is(r, backend@ + " conditional branches in `"@ + function.name@ + "` do not agree on whether they produce a value"@),
        },
{
    match (has_dest, result) {
        (false, None) => Ok(Vec::new()),
        (true, Some(res)) => {
            let ghost ops = seq![(res, branch_name@ + " branch result"@)];
            assert(ops.drop_first() =~= Seq::<(ValueId, Seq<char>)>::empty());
            assert(operand_error(values@, ops.drop_first(), backend@, *function) is None);
            let mut context = String::from_str(branch_name);
            context.append(" branch result");
            let v = native_value(values, res, function, context.as_str(), backend)?;
            Ok(vec![v])
        },
        _ => {
            let mut m = String::from_str(backend);
            m.append(" conditional branches in `");
            m.append(function.name.as_str());
            m.append("` do not agree on whether they produce a value");
            Err(m)
        },
    }
}

/// Outside `keys`, the map has the same entries.
pub open spec fn same_outside(v0: Map<u32, NativeValueRepr>, v1: Map<u32, NativeValueRepr>, keys: Set<u32>) -> bool {
    forall|k: u32| !keys.contains(k) ==> (#[trigger] v1.contains_key(k) == v0.contains_key(k) && (v0.contains_key(k) ==> v1[k] == v0[k]))
}

/// Lowers an instruction (see `lower_post`).
pub fn lower_inst(
    env: &NativeLowering,
    builder: &mut FunctionBuilder,
    values: &mut ValueMap,
    headers: &mut HeaderCache,
    trusted: &TrustedListAccesses,
    inst: &Inst,
) -> (r: Result<bool, String>)
    requires
        lower_pre(*env, clif_state(*old(builder)), old(values)@, old(headers)@),
        lowering_ok(*env, clif_state(*old(builder))),
        lowerable(*inst, *env),
    ensures
        lower_post(*env, clif_state(*old(builder)), clif_state(*final(builder)), old(values)@, final(values)@, old(headers)@, final(headers)@, *inst, r),
    decreases *inst, 1nat,
{
    let ghost s0 = clif_state(*builder);
    let ghost h0 = headers@;
    if is_control_inst(inst) {
        return match inst {
            Inst::If { .. } => lower_if(env, builder, values, headers, trusted, inst),
            Inst::While { .. } => lower_while(env, builder, values, headers, trusted, inst),
            _ => lower_repeat(env, builder, values, headers, inst),
        };
    }
    let r = match inst {
        Inst::TextBuilderNew { .. } | Inst::TextBuilderAppend { .. } | Inst::TextBuilderAppendCodepoint { .. }
        | Inst::TextBuilderFinish { .. } | Inst::TextConcat { .. } | Inst::TextSlice { .. } | Inst::TextFromF64Fixed { .. }
        | Inst::ParseI32 { .. } | Inst::ParseF64 { .. } | Inst::ArgCount { .. } | Inst::ArgText { .. } | Inst::StdinText { .. } => {
            lower_helper_inst(env, builder, values, inst, Ghost(h0))
        },
        Inst::Add { .. } | Inst::Sub { .. } | Inst::Mul { .. } | Inst::Div { .. } | Inst::And { .. } | Inst::Or { .. }
        | Inst::Sqrt { .. } | Inst::F64FromI32 { .. } | Inst::TextLen { .. } | Inst::TextByte { .. }
        | Inst::StdoutWrite { .. } | Inst::Assert { .. } => {
            lower_value_inst(env, builder, values, inst, Ghost(h0))
        },
        Inst::ConstInt { .. } | Inst::ConstF64 { .. } | Inst::ConstBool { .. } | Inst::ConstText { .. }
        | Inst::LoadParam { .. } | Inst::LoadLocal { .. } | Inst::StoreLocal { .. } => {
            lower_local_inst(env, builder, values, inst, Ghost(h0))
        },
        Inst::ListNew { .. } | Inst::ListLen { .. } | Inst::ListGet { .. } | Inst::ListSet { .. } => {
            lower_list_inst(env, builder, values, headers, trusted, inst)
        },
        Inst::Field { dest, base, name } => lower_field(env, builder, values, *dest, *base, name.as_str(), Ghost(h0)),
        Inst::MakeRecord { dest, name, fields } => lower_make_record(env, builder, values, *dest, name.as_str(), fields, Ghost(h0)),
        Inst::MakeEnum { dest, name, variant, payload } => lower_make_enum(
            env,
            builder,
            values,
            *dest,
            name.as_str(),
            variant.as_str(),
            *payload,
            Ghost(h0),
        ),
        Inst::EnumPayload { dest, value, payload_type } => lower_enum_payload(
            env,
            builder,
            values,
            *dest,
            *value,
            payload_type.as_str(),
            Ghost(h0),
        ),
        Inst::EnumTagEq { dest, value, tag } => lower_enum_tag_eq(env, builder, values, *dest, *value, *tag, Ghost(h0)),
        Inst::Call { dest, callee, args } => lower_call(env, builder, values, *dest, callee.as_str(), args, Ghost(h0)),
        Inst::Eq { dest, left, right } | Inst::Ne { dest, left, right } | Inst::Lt { dest, left, right }
        | Inst::Le { dest, left, right } | Inst::Gt { dest, left, right } | Inst::Ge { dest, left, right } => {
            let condition = match inst {
                Inst::Eq { .. } => IntCond::Equal,
                Inst::Ne { .. } => IntCond::NotEqual,
                Inst::Lt { .. } => IntCond::SignedLessThan,
                Inst::Le { .. } => IntCond::SignedLessThanOrEqual,
                Inst::Gt { .. } => IntCond::SignedGreaterThan,
                _ => IntCond::SignedGreaterThanOrEqual,
            };
            let ghost fuel = compare_fuel(*env);
            let native = lower_comparison(env, builder, values, *left, *right, condition, Ghost(fuel))?;
            let ghost mid = values@;
            values.insert(*dest, native);
            proof {
                lemma_ok_kept(*env, mid, h0, s0, clif_state(*builder));
            }
            Ok(true)
        },
        Inst::Perform { .. } | Inst::Handle { .. } => Err(fn_message(env.backend, "does not yet support effect handlers", env.function)),
        _ => {
            assert(false);
            Err(String::new())
        },
    };
    proof {
        if r is Ok {
            lemma_lowering_ok_kept(*env, s0, clif_state(*builder));
        }
    }
    r
}

fn is_control_inst(inst: &Inst) -> (r: bool)
    ensures
        r == is_control(*inst),
{
    matches!(inst, Inst::If { .. } | Inst::While { .. } | Inst::Repeat { .. })
}

/// The sequence fails at instruction `k` with message `e`: the instructions
/// before it were lowered (their destinations have representations, other
/// values are as they were) into the builder state `s` and value map `v`,
/// and `e` is the error of instruction `k` there (for an instruction that
/// lowers nested instructions, an error from within; for a store into a
/// local that the value does not fit, the conversion's error).
pub open spec fn fails_at(
    env: NativeLowering,
    s0: BuilderView,
    v0: Map<u32, NativeValueRepr>,
    insts: Seq<Inst>,
    k: int,
    s: BuilderView,
    v: Map<u32, NativeValueRepr>,
    e: Seq<char>,
) -> bool {
    &&& 0 <= k < insts.len()
    &&& extends(s0, s)
    &&& same_outside(v0, v, defined_in(insts.subrange(0, k)))
    &&& forall|i: int| 0 <= i < k ==> (spec_inst_dest(#[trigger] insts[i]) matches Some(d) ==> v.contains_key(d.0))
    &&& (is_control(insts[k]) || (insts[k] is StoreLocal && !store_fits(env, s, v, insts[k])) || inst_error(
        env,
        s,
        v,
        insts[k],
    ) == Some(e))
}

/// Lowers a sequence of instructions in order, stopping after one that ends
/// its block (then the result is `false`); only the values that the
/// instructions define change. An empty sequence succeeds and changes
/// nothing; when the first instruction fails before any nested lowering
/// (`direct_error`), the sequence fails with that error; a single
/// instruction that opens no block and has no error succeeds; on success
/// every instruction's destination has a representation; on failure some
/// instruction, reached after the ones before it were lowered, fails with
/// that error (`fails_at`).
#[verifier::spinoff_prover]
/// Lowering the instructions went through the builder states `ss`, value
/// maps `vs` and header caches `hs`, one step per instruction in order, each
/// step being what lowering that instruction does (`lower_post`), with
/// success.
#[verifier::opaque]
pub open spec fn lowered_in_order(
    env: NativeLowering,
    insts: Seq<Inst>,
    ss: Seq<BuilderView>,
    vs: Seq<Map<u32, NativeValueRepr>>,
    hs: Seq<Map<u32, ListHeader>>,
) -> bool {
    &&& ss.len() == insts.len() + 1
    &&& vs.len() == insts.len() + 1
    &&& hs.len() == insts.len() + 1
    &&& forall|i: int| 0 <= i < insts.len() ==> #[trigger] lower_post(
        env,
        ss[i],
        ss[i + 1],
        vs[i],
        vs[i + 1],
        hs[i],
        hs[i + 1],
        insts[i],
        Ok::<bool, String>(true),
    )
}

proof fn lemma_lowered_none(env: NativeLowering, insts: Seq<Inst>, s: BuilderView, v: Map<u32, NativeValueRepr>, h: Map<u32, ListHeader>)
    ensures
        lowered_in_order(env, insts.take(0), seq![s], seq![v], seq![h]),
{
    reveal(lowered_in_order);
}

proof fn lemma_lowered_step(
    env: NativeLowering,
    insts: Seq<Inst>,
    k: int,
    ss: Seq<BuilderView>,
    vs: Seq<Map<u32, NativeValueRepr>>,
    hs: Seq<Map<u32, ListHeader>>,
    s: BuilderView,
    v: Map<u32, NativeValueRepr>,
    h: Map<u32, ListHeader>,
)
    requires
        0 <= k < insts.len(),
        lowered_in_order(env, insts.take(k), ss, vs, hs),
        lower_post(env, ss.last(), s, vs.last(), v, hs.last(), h, insts[k], Ok::<bool, String>(true)),
    ensures
        lowered_in_order(env, insts.take(k + 1), ss.push(s), vs.push(v), hs.push(h)),
{
    reveal(lowered_in_order);
    let t = insts.take(k + 1);
    assert forall|i: int| 0 <= i < t.len() implies #[trigger] lower_post(
        env,
        ss.push(s)[i],
        ss.push(s)[i + 1],
        vs.push(v)[i],
        vs.push(v)[i + 1],
        hs.push(h)[i],
        hs.push(h)[i + 1],
        t[i],
        Ok::<bool, String>(true),
    ) by {
        if i < k {
            assert(t[i] == insts.take(k)[i]);
            assert(lower_post(env, ss[i], ss[i + 1], vs[i], vs[i + 1], hs[i], hs[i + 1], insts.take(k)[i], Ok::<bool, String>(true)));
        } else {
            assert(t[i] == insts[k]);
        }
    }
}

pub fn lower_insts(
    env: &NativeLowering,
    builder: &mut FunctionBuilder,
    values: &mut ValueMap,
    headers: &mut HeaderCache,
    trusted: &TrustedListAccesses,
    instructions: &[Inst],
) -> (r: Result<bool, String>)
    requires
        lower_pre(*env, clif_state(*old(builder)), old(values)@, old(headers)@),
        lowering_ok(*env, clif_state(*old(builder))),
        all_lowerable(instructions@, *env),
    ensures
        extends(clif_state(*old(builder)), clif_state(*final(builder))),
        r is Ok ==> lower_pre(*env, clif_state(*final(builder)), final(values)@, final(headers)@)
            && lowering_ok(*env, clif_state(*final(builder)))
            && same_outside(old(values)@, final(values)@, defined_in(instructions@)),
        !(r matches Ok(false)),
        r is Ok ==> forall|i: int| 0 <= i < instructions@.len() ==> (spec_inst_dest(#[trigger] instructions@[i]) matches Some(d)
            ==> final(values)@.contains_key(d.0)),
        r matches Err(e) ==> exists|k: int, s: BuilderView, v: Map<u32, NativeValueRepr>|
            fails_at(*env, clif_state(*old(builder)), old(values)@, instructions@, k, s, v, e@),
        instructions@.len() == 0 ==> r == Ok::<bool, String>(true) && final(values)@ == old(values)@
            && final(headers)@ == old(headers)@ && clif_state(*final(builder)) == clif_state(*old(builder)),
        instructions@.len() > 0 ==> match direct_error(*env, clif_state(*old(builder)), old(values)@, instructions@[0]) {
            Some(e) => err_is(r, e),
            None => true,
        },
        (instructions@.len() == 1 && !is_control(instructions@[0])
            && store_fits(*env, clif_state(*old(builder)), old(values)@, instructions@[0])
            && inst_error(*env, clif_state(*old(builder)), old(values)@, instructions@[0]) is None)
            ==> r == Ok::<bool, String>(true),
        r is Ok ==> exists|ss: Seq<BuilderView>, vs: Seq<Map<u32, NativeValueRepr>>, hs: Seq<Map<u32, ListHeader>>| {
            &&& #[trigger] lowered_in_order(*env, instructions@, ss, vs, hs)
            &&& ss[0] == clif_state(*old(builder)) && ss.last() == clif_state(*final(builder))
            &&& vs[0] == old(values)@ && vs.last() == final(values)@
            &&& hs[0] == old(headers)@ && hs.last() == final(headers)@
        },
    decreases instructions@, 0nat,
{
    let ghost s0 = clif_state(*builder);
    let ghost v0 = values@;
    let ghost h0 = headers@;
    proof {
        lemma_all_lowerable_each(instructions@, *env);
    }
    let mut k: usize = 0;
    assert(instructions@.subrange(0, 0) =~= Seq::<Inst>::empty());
    let ghost mut ss = seq![s0];
    let ghost mut vs = seq![v0];
    let ghost mut hs = seq![h0];
    proof {
        lemma_lowered_none(*env, instructions@, s0, v0, h0);
    }
    while k < instructions.len()
        invariant
            k <= instructions@.len(),
            s0 == clif_state(*old(builder)),
            v0 == old(values)@,
            h0 == old(headers)@,
            lowered_in_order(*env, instructions@.take(k as int), ss, vs, hs),
            ss.len() == k + 1 && vs.len() == k + 1 && hs.len() == k + 1,
            ss[0] == s0 && vs[0] == v0 && hs[0] == h0,
            ss.last() == clif_state(*builder) && vs.last() == values@ && hs.last() == headers@,
            extends(s0, clif_state(*builder)),
            lower_pre(*env, clif_state(*builder), values@, headers@),
            lowering_ok(*env, clif_state(*builder)),
            forall|i: int| 0 <= i < instructions@.len() ==> lowerable(#[trigger] instructions@[i], *env),
            same_outside(v0, values@, defined_in(instructions@.subrange(0, k as int))),
            k == 0 ==> clif_state(*builder) == s0 && values@ == v0 && headers@ == h0,
            k > 0 ==> direct_error(*env, s0, v0, instructions@[0]) is None,
            forall|i: int| 0 <= i < k ==> (spec_inst_dest(#[trigger] instructions@[i]) matches Some(d) ==> values@.contains_key(d.0)),
        decreases instructions@.len() - k,
    {
        let ghost before = values@;
        let ghost pre = instructions@.subrange(0, k + 1);
        assert(pre.subrange(0, pre.len() - 1) =~= instructions@.subrange(0, k as int));
        assert(pre[pre.len() - 1] == instructions@[k as int]);
        assert(decreases_to!(instructions@ => instructions@[k as int]));
        let ghost inst = instructions@[k as int];
        let ghost s_k = clif_state(*builder);
        let ghost h_before = headers@;
        let lowered = lower_inst(env, builder, values, headers, trusted, &instructions[k]);
        let falls = match lowered {
            Ok(b) => b,
            Err(e) => {
                assert(fails_at(*env, s0, v0, instructions@, k as int, s_k, before, e@));
                return Err(e);
            },
        };
        assert(k == 0 ==> direct_error(*env, s0, v0, instructions@[0]) is None);
        proof {
            assert(defined_in(pre) == defined_in(instructions@.subrange(0, k as int)).union(defined_by(inst)));
            lemma_dest_defined(inst);
            assert forall|x: u32| !defined_by(inst).contains(x) implies (#[trigger] values@.contains_key(x) == before.contains_key(x)
                && (before.contains_key(x) ==> values@[x] == before[x])) by {
                if falls {
                    assert(frame(inst, before, values@));
                } else if inst is While {
                    assert(values@ == before.insert((spec_inst_dest(inst)->0).0, NativeValueRepr::Unit));
                }
            }
            assert forall|x: u32| !defined_in(pre).contains(x) implies (#[trigger] values@.contains_key(x) == v0.contains_key(x)
                && (v0.contains_key(x) ==> values@[x] == v0[x])) by {
                assert(!defined_in(instructions@.subrange(0, k as int)).contains(x));
                assert(!defined_by(inst).contains(x));
                assert(before.contains_key(x) == v0.contains_key(x));
                assert(values@.contains_key(x) == before.contains_key(x));
            }
            assert(same_outside(v0, values@, defined_in(pre)));
            lemma_defined_prefix(instructions@, k as int + 1);
        }
        if !falls {
            proof {
                assert(instructions@.subrange(0, k as int + 1) == pre);
                lemma_same_outside_widen(v0, values@, defined_in(pre), defined_in(instructions@));
            }
            return Ok(false);
        }
        proof {
            lemma_lowered_step(*env, instructions@, k as int, ss, vs, hs, clif_state(*builder), values@, headers@);
            ss = ss.push(clif_state(*builder));
            vs = vs.push(values@);
            hs = hs.push(headers@);
        }
        k = k + 1;
    }
    assert(instructions@.subrange(0, instructions@.len() as int) =~= instructions@);
    assert(instructions@.take(instructions@.len() as int) =~= instructions@);
    Ok(true)
}

/// What stays outside a set of keys stays outside any larger set.
pub proof fn lemma_same_outside_widen(v0: Map<u32, NativeValueRepr>, v1: Map<u32, NativeValueRepr>, small: Set<u32>, big: Set<u32>)
    requires
        same_outside(v0, v1, small),
        small.subset_of(big),
    ensures
        same_outside(v0, v1, big),
{
    assert forall|k: u32| !big.contains(k) implies (#[trigger] v1.contains_key(k) == v0.contains_key(k) && (v0.contains_key(k) ==> v1[k] == v0[k])) by {
        assert(!small.contains(k)) by {
            if small.contains(k) {
                assert(big.contains(k));
            }
        }
        assert(v1.contains_key(k) == v0.contains_key(k));
        if v0.contains_key(k) {
            assert(v1[k] == v0[k]);
        }
    }
}

/// An instruction's destination is among the values it defines.
pub proof fn lemma_dest_defined(inst: Inst)
    ensures
        spec_inst_dest(inst) matches Some(d) ==> defined_by(inst).contains(d.0),
{
}

/// The values defined by a prefix are defined by the whole sequence.
pub proof fn lemma_defined_prefix(insts: Seq<Inst>, n: int)
    requires
        0 <= n <= insts.len(),
    ensures
        defined_in(insts.subrange(0, n)).subset_of(defined_in(insts)),
    decreases insts.len() - n,
{
    if n < insts.len() {
        lemma_defined_prefix(insts, n + 1);
        let longer = insts.subrange(0, n + 1);
        assert(longer.subrange(0, longer.len() - 1) =~= insts.subrange(0, n));
    } else {
        assert(insts.subrange(0, n) =~= insts);
    }
}

/// Lowers an `if`: the condition (non-zero) branches to a then block and an
/// else block, each lowered on its own copy of the state; each branch that
/// falls through jumps to a merge block with its result (when the `if` has a
/// kind); when neither falls through the `if` ends its block; otherwise the
/// merge block continues, and its parameter (or the unit) is the `if`'s
/// value.
#[verifier::spinoff_prover]
#[verifier::rlimit(40)]
/// The states that lowering an `if` goes through give its layout: after the
/// head (`h`), sealing the branch blocks (`t0`, positioned at the then
/// block), the then branch (`t1`) and its jump (`t2`), the else branch from
/// the else block (`e0` to `e1`) and its jump (`e2`), and sealing and
/// entering the merge block (`f`).
proof fn lemma_if_layout(
    s0: BuilderView,
    h: BuilderView,
    t0: BuilderView,
    t1: BuilderView,
    t2: BuilderView,
    e0: BuilderView,
    e1: BuilderView,
    e2: BuilderView,
    f: BuilderView,
    inst: Inst,
)
    requires
        inst is If,
        h.emitted.len() == s0.emitted.len() + 3,
        view_wf(h),
        t0.blocks == s0.blocks + 3,
        t0.current == s0.blocks,
        view_wf(t0),
        emitted_prefix(h.emitted, t0.emitted),
        forall|k: int| 0 <= k < h.placed.len() ==> #[trigger] t0.placed[k] == h.placed[k],
        forall|k: int| h.emitted.len() <= k < t0.emitted.len() ==> settle_zero(#[trigger] t0.emitted[k].op),
        extends(t0, t1),
        (inst matches Inst::If { then_insts, .. } && then_insts@.len() == 0) ==> t1 == t0,
        t2 == after_terminator(t1, ClifEntry { op: ClifOp::Jump(s0.blocks + 2), args: seq![], results: seq![] }),
        e0.emitted == t2.emitted,
        e0.placed == t2.placed,
        e0.current == s0.blocks + 1,
        e0.blocks == t2.blocks,
        extends(e0, e1),
        (inst matches Inst::If { else_insts, .. } && else_insts@.len() == 0) ==> e1 == e0,
        e2 == after_terminator(e1, ClifEntry { op: ClifOp::Jump(s0.blocks + 2), args: seq![], results: seq![] }),
        view_wf(e2),
        emitted_prefix(e2.emitted, f.emitted),
        f.placed.len() == f.emitted.len(),
        forall|k: int| 0 <= k < e2.placed.len() ==> #[trigger] f.placed[k] == e2.placed[k],
        forall|k: int| e2.emitted.len() <= k < f.emitted.len() ==> settle_zero(#[trigger] f.emitted[k].op),
    ensures
        if_layout(s0, f, inst),
{
    let b = s0.blocks;
    let hl = s0.emitted.len() + 3;
    let j1 = t1.emitted.len() as int;
    let j2 = e1.emitted.len() as int;
    assert(t0.blocks <= t1.blocks);
    assert(f.emitted[j1] == e2.emitted[j1]);
    assert(f.placed[j1] == e2.placed[j1]);
    assert(f.emitted[j2] == e2.emitted[j2]);
    assert(f.placed[j2] == e2.placed[j2]);
    assert(e2.emitted[j1] == e1.emitted[j1]);
    assert(e1.emitted[j1] == e0.emitted[j1]);
    assert(e2.placed[j1] == e1.placed[j1]);
    assert(e1.placed[j1] == e0.placed[j1]);
    assert(t2.placed[j1] == t1.current);
    assert(in_branch(f, j1, b, b));
    assert(in_branch(f, j2, b + 1, b));
    assert forall|k: int| hl <= k < j1 implies #[trigger] in_branch(f, k, b, b) by {
        assert(f.emitted[k] == e2.emitted[k]);
        assert(f.placed[k] == e2.placed[k]);
        assert(e2.emitted[k] == e1.emitted[k]);
        assert(e2.placed[k] == e1.placed[k]);
        assert(e1.emitted[k] == e0.emitted[k]);
        assert(e1.placed[k] == e0.placed[k]);
        assert(t2.emitted[k] == t1.emitted[k]);
        assert(t2.placed[k] == t1.placed[k]);
        if k < t0.emitted.len() {
            assert(t1.emitted[k] == t0.emitted[k]);
            assert(t1.placed[k] == t0.placed[k]);
        } else {
            assert(t1.placed[k] == t0.current || t1.placed[k] >= t0.blocks || settle_zero(t1.emitted[k].op));
        }
    }
    assert forall|k: int| j1 < k < j2 implies #[trigger] in_branch(f, k, b + 1, b) by {
        assert(f.emitted[k] == e2.emitted[k]);
        assert(f.placed[k] == e2.placed[k]);
        assert(e2.emitted[k] == e1.emitted[k]);
        assert(e2.placed[k] == e1.placed[k]);
        assert(e1.placed[k] == e0.current || e1.placed[k] >= e0.blocks || settle_zero(e1.emitted[k].op));
    }
    assert forall|k: int| j2 < k < f.emitted.len() implies settle_zero(#[trigger] f.emitted[k].op) by {}
    if inst matches Inst::If { then_insts, .. } && then_insts@.len() == 0 {
        assert forall|k: int| hl <= k < j1 implies settle_zero(#[trigger] f.emitted[k].op) by {
            assert(f.emitted[k] == e2.emitted[k]);
            assert(e2.emitted[k] == e1.emitted[k]);
            assert(e1.emitted[k] == e0.emitted[k]);
            assert(t2.emitted[k] == t1.emitted[k]);
        }
    }
    if inst matches Inst::If { else_insts, .. } && else_insts@.len() == 0 {
        assert(j2 == j1 + 1);
    }
    reveal(if_layout);
    assert(f.emitted[j1].op == ClifOp::Jump(b + 2));
    assert(f.emitted[j2].op == ClifOp::Jump(b + 2));
}

#[verifier::spinoff_prover]
#[verifier::rlimit(80)]
fn lower_if(
    env: &NativeLowering,
    builder: &mut FunctionBuilder,
    values: &mut ValueMap,
    headers: &mut HeaderCache,
    trusted: &TrustedListAccesses,
    inst: &Inst,
) -> (r: Result<bool, String>)
    requires
        lower_pre(*env, clif_state(*old(builder)), old(values)@, old(headers)@),
        lowering_ok(*env, clif_state(*old(builder))),
        lowerable(*inst, *env),
        *inst is If,
    ensures
        lower_post(*env, clif_state(*old(builder)), clif_state(*final(builder)), old(values)@, final(values)@, old(headers)@, final(headers)@, *inst, r),
    decreases *inst, 0nat,
{
    let ghost s0 = clif_state(*builder);
    let (dest, condition, then_insts, then_result, else_insts, else_result) = match inst {
        Inst::If { dest, condition, then_insts, then_result, else_insts, else_result } => {
            (*dest, *condition, then_insts, *then_result, else_insts, *else_result)
        },
        _ => {
            assert(false);
            return Err(String::new());
        },
    };
    assert(decreases_to!(*inst => then_insts@));
    assert(decreases_to!(*inst => else_insts@));
    proof {
        lemma_single_operand(values@, condition, "if condition"@, env.backend@, *env.function);
    }
    let c = native_value(values, condition, env.function, "if condition", env.backend)?;
    let i64t = clif_type(ClifType::I64);
    let zero = ins_iconst(builder, i64t, 0);
    let cond = ins_int_compare(builder, IntCond::NotEqual, c, zero);
    let then_block = create_block(builder);
    let else_block = create_block(builder);
    let merge_block = create_block(builder);
    let has_dest = match env.kinds.get(dest) {
        Some(kind) => {
            let ty = clif_type(native_kind_type(kind));
            let _param = append_block_param(builder, merge_block, ty);
            true
        },
        None => false,
    };
    ins_brif(builder, cond, then_block, else_block);
    proof {
        lemma_entry_shape(ClifOp::Iconst(0), seq![], seq![zero]);
        lemma_entry_shape(ClifOp::IntCompare(IntCond::NotEqual), seq![c, zero], seq![cond]);
        lemma_entry_shape(ClifOp::Brif(block_number(then_block), block_number(else_block)), seq![cond], seq![]);
        assert(clif_state(*builder).emitted =~= s0.emitted + if_head(s0, old(values)@, *inst));
    }
    let ghost s_head = clif_state(*builder);
    seal_block(builder, then_block);
    seal_block(builder, else_block);
    proof {
        lemma_ok_kept(*env, values@, headers@, s0, clif_state(*builder));
        lemma_lowering_ok_kept(*env, s0, clif_state(*builder));
    }
    let mut then_values = values.copy();
    let mut then_headers = headers.copy();
    switch_to_block(builder, then_block);
    let ghost s_t0 = clif_state(*builder);
    proof {
        lemma_ok_kept(*env, then_values@, then_headers@, s0, clif_state(*builder));
        lemma_lowering_ok_kept(*env, s0, clif_state(*builder));
        assert forall|k: int| s_head.emitted.len() <= k < s_t0.emitted.len() implies settle_zero(#[trigger] s_t0.emitted[k].op) by {}
    }
    let then_falls = match lower_insts(env, builder, &mut then_values, &mut then_headers, trusted, then_insts.as_slice()) {
        Ok(b) => b,
        Err(e) => {
            assert(nested_fails(*env, then_insts@, e@));
            return Err(e);
        },
    };
    let ghost s_t1 = clif_state(*builder);
    if then_falls {
        let args = match branch_jump_args(&then_values, then_result, has_dest, env.function, "then", env.backend) {
            Ok(a) => a,
            Err(e) => {
                proof {
                    reveal_with_fuel(operand_error, 2);
                }
                return Err(e);
            },
        };
        assert forall|i: int| 0 <= i < args@.len() implies #[trigger] value_number(args@[i]) < clif_state(*builder).value_types.len() by {
            assert(then_values@.contains_key((then_result->0).0));
        }
        ins_jump(builder, merge_block, args.as_slice());
    }
    let ghost s1 = clif_state(*builder);
    proof {
        lemma_ok_kept(*env, values@, headers@, s0, s1);
    }
    let mut else_values = values.copy();
    let mut else_headers = headers.copy();
    switch_to_block(builder, else_block);
    let ghost s_e0 = clif_state(*builder);
    proof {
        lemma_ok_kept(*env, else_values@, else_headers@, s0, clif_state(*builder));
        lemma_lowering_ok_kept(*env, s0, clif_state(*builder));
    }
    let else_falls = match lower_insts(env, builder, &mut else_values, &mut else_headers, trusted, else_insts.as_slice()) {
        Ok(b) => b,
        Err(e) => {
            assert(nested_fails(*env, else_insts@, e@));
            return Err(e);
        },
    };
    let ghost s_e1 = clif_state(*builder);
    if else_falls {
        let args = match branch_jump_args(&else_values, else_result, has_dest, env.function, "else", env.backend) {
            Ok(a) => a,
            Err(e) => {
                proof {
                    reveal_with_fuel(operand_error, 2);
                }
                return Err(e);
            },
        };
        assert forall|i: int| 0 <= i < args@.len() implies #[trigger] value_number(args@[i]) < clif_state(*builder).value_types.len() by {
            assert(else_values@.contains_key((else_result->0).0));
        }
        ins_jump(builder, merge_block, args.as_slice());
    }
    let ghost s_e2 = clif_state(*builder);
    proof {
        lemma_ok_kept(*env, values@, headers@, s0, clif_state(*builder));
    }
    if !(then_falls || else_falls) {
        return Ok(false);
    }
    seal_block(builder, merge_block);
    switch_to_block(builder, merge_block);
    proof {
        lemma_if_layout(s0, s_head, s_t0, s_t1, s1, s_e0, s_e1, s_e2, clif_state(*builder), *inst);
    }
    let params = block_params(builder, merge_block);
    let repr = if params.len() == 0 {
        NativeValueRepr::Unit
    } else if params.len() == 1 {
        NativeValueRepr::Native(params[0])
    } else {
        return Err(fn_message(env.backend, "does not support multi-value conditional merges", env.function));
    };
    let ghost mid = values@;
    values.insert(dest, repr);
    proof {
        lemma_ok_kept(*env, mid, headers@, s0, clif_state(*builder));
        lemma_lowering_ok_kept(*env, s0, clif_state(*builder));
    }
    Ok(true)
}

/// Lowers a `while`: a condition block (lowered on its own copy of the
/// state) whose value, non-zero, branches to the body block (lowered on
/// another copy) and otherwise to the exit block; a body that falls through
/// jumps back to the condition. A condition that ends its block ends the
/// `while`'s. The `while`'s value is the unit.
/// The states that lowering a `while` goes through give its layout: after
/// the first jump and entering the condition block (`c0`), the condition
/// (`c1`) and its branch (`c2`), sealing the body and exit blocks and
/// entering the body block (`d0`), the body (`d1`) and its jump back
/// (`d2`), and sealing the condition block and entering the exit block
/// (`f`).
proof fn lemma_while_layout(
    s0: BuilderView,
    c0: BuilderView,
    c1: BuilderView,
    c2: BuilderView,
    d0: BuilderView,
    d1: BuilderView,
    d2: BuilderView,
    f: BuilderView,
    inst: Inst,
)
    requires
        inst is While,
        c0.emitted.len() == s0.emitted.len() + 1,
        view_wf(c0),
        c0.blocks == s0.blocks + 3,
        c0.current == s0.blocks,
        extends(c0, c1),
        (inst matches Inst::While { condition_insts, .. } && condition_insts@.len() == 0) ==> c1 == c0,
        c2.emitted.len() == c1.emitted.len() + 1,
        c2.emitted[c1.emitted.len() as int].op == ClifOp::Brif(s0.blocks + 1, s0.blocks + 2),
        c2.placed.len() == c2.emitted.len(),
        c2.placed[c1.emitted.len() as int] == c1.current,
        forall|k: int| 0 <= k < c1.emitted.len() ==> #[trigger] c2.emitted[k] == c1.emitted[k],
        forall|k: int| 0 <= k < c1.placed.len() ==> #[trigger] c2.placed[k] == c1.placed[k],
        view_wf(d0),
        d0.current == s0.blocks + 1,
        d0.blocks == c2.blocks,
        c1.blocks <= c2.blocks,
        emitted_prefix(c2.emitted, d0.emitted),
        forall|k: int| 0 <= k < c2.placed.len() ==> #[trigger] d0.placed[k] == c2.placed[k],
        forall|k: int| c2.emitted.len() <= k < d0.emitted.len() ==> settle_zero(#[trigger] d0.emitted[k].op),
        extends(d0, d1),
        (inst matches Inst::While { body_insts, .. } && body_insts@.len() == 0) ==> d1 == d0,
        d2 == after_terminator(d1, ClifEntry { op: ClifOp::Jump(s0.blocks), args: seq![], results: seq![] }),
        emitted_prefix(d2.emitted, f.emitted),
        f.placed.len() == f.emitted.len(),
        forall|k: int| 0 <= k < d2.placed.len() ==> #[trigger] f.placed[k] == d2.placed[k],
        forall|k: int| d2.emitted.len() <= k < f.emitted.len() ==> settle_zero(#[trigger] f.emitted[k].op),
    ensures
        while_layout(s0, f, inst),
{
    let b = s0.blocks;
    let hl = s0.emitted.len() + 1;
    let jb = c1.emitted.len() as int;
    let jj = d1.emitted.len() as int;
    assert(view_wf(c1));
    assert(view_wf(d1));
    assert(f.emitted[jb] == d2.emitted[jb]);
    assert(f.placed[jb] == d2.placed[jb]);
    assert(f.emitted[jj] == d2.emitted[jj]);
    assert(f.placed[jj] == d2.placed[jj]);
    assert(d2.emitted[jb] == d1.emitted[jb]);
    assert(d1.emitted[jb] == d0.emitted[jb]);
    assert(d2.placed[jb] == d1.placed[jb]);
    assert(d1.placed[jb] == d0.placed[jb]);
    assert(in_branch(f, jb, b, b));
    assert(in_branch(f, jj, b + 1, b));
    assert forall|k: int| hl <= k < jb implies #[trigger] in_branch(f, k, b, b) by {
        assert(f.emitted[k] == d2.emitted[k]);
        assert(f.placed[k] == d2.placed[k]);
        assert(d2.emitted[k] == d1.emitted[k]);
        assert(d2.placed[k] == d1.placed[k]);
        assert(d1.emitted[k] == d0.emitted[k]);
        assert(d1.placed[k] == d0.placed[k]);
        assert(d0.emitted[k] == c2.emitted[k]);
        assert(d0.placed[k] == c2.placed[k]);
        assert(c1.placed[k] == c0.current || c1.placed[k] >= c0.blocks || settle_zero(c1.emitted[k].op));
    }
    assert forall|k: int| jb < k < jj implies #[trigger] in_branch(f, k, b + 1, b) by {
        assert(f.emitted[k] == d2.emitted[k]);
        assert(f.placed[k] == d2.placed[k]);
        assert(d2.emitted[k] == d1.emitted[k]);
        assert(d2.placed[k] == d1.placed[k]);
        if k < d0.emitted.len() {
            assert(d1.emitted[k] == d0.emitted[k]);
            assert(d1.placed[k] == d0.placed[k]);
        } else {
            assert(d1.placed[k] == d0.current || d1.placed[k] >= d0.blocks || settle_zero(d1.emitted[k].op));
        }
    }
    assert forall|k: int| jj < k < f.emitted.len() implies settle_zero(#[trigger] f.emitted[k].op) by {}
    if inst matches Inst::While { body_insts, .. } && body_insts@.len() == 0 {
        assert forall|k: int| jb < k < jj implies settle_zero(#[trigger] f.emitted[k].op) by {
            assert(f.emitted[k] == d2.emitted[k]);
            assert(d2.emitted[k] == d1.emitted[k]);
        }
    }
    reveal(while_layout);
    assert(f.emitted[jb].op == ClifOp::Brif(b + 1, b + 2));
    assert(f.emitted[jj].op == ClifOp::Jump(b));
}

#[verifier::spinoff_prover]
#[verifier::rlimit(60)]
fn lower_while(
    env: &NativeLowering,
    builder: &mut FunctionBuilder,
    values: &mut ValueMap,
    headers: &mut HeaderCache,
    trusted: &TrustedListAccesses,
    inst: &Inst,
) -> (r: Result<bool, String>)
    requires
        lower_pre(*env, clif_state(*old(builder)), old(values)@, old(headers)@),
        lowering_ok(*env, clif_state(*old(builder))),
        lowerable(*inst, *env),
        *inst is While,
    ensures
        lower_post(*env, clif_state(*old(builder)), clif_state(*final(builder)), old(values)@, final(values)@, old(headers)@, final(headers)@, *inst, r),
    decreases *inst, 0nat,
{
    let ghost s0 = clif_state(*builder);
    let (dest, condition_insts, condition, body_insts) = match inst {
        Inst::While { dest, condition_insts, condition, body_insts } => (*dest, condition_insts, *condition, body_insts),
        _ => {
            assert(false);
            return Err(String::new());
        },
    };
    assert(decreases_to!(*inst => condition_insts@));
    assert(decreases_to!(*inst => body_insts@));
    let condition_block = create_block(builder);
    let body_block = create_block(builder);
    let exit_block = create_block(builder);
    let no_args: Vec<Value> = Vec::new();
    ins_jump(builder, condition_block, no_args.as_slice());
    proof {
        lemma_entry_shape(ClifOp::Jump(block_number(condition_block)), no_args@, seq![]);
    }
    switch_to_block(builder, condition_block);
    let ghost c0 = clif_state(*builder);
    let mut condition_values = values.copy();
    let mut condition_headers = headers.copy();
    proof {
        lemma_ok_kept(*env, condition_values@, condition_headers@, s0, clif_state(*builder));
        lemma_lowering_ok_kept(*env, s0, clif_state(*builder));
    }
    let condition_falls = match lower_insts(
        env,
        builder,
        &mut condition_values,
        &mut condition_headers,
        trusted,
        condition_insts.as_slice(),
    ) {
        Ok(b) => b,
        Err(e) => {
            assert(nested_fails(*env, condition_insts@, e@));
            return Err(e);
        },
    };
    let ghost c1 = clif_state(*builder);
    if !condition_falls {
        seal_block(builder, condition_block);
        let ghost mid = values@;
        values.insert(dest, NativeValueRepr::Unit);
        proof {
            lemma_ok_kept(*env, mid, headers@, s0, clif_state(*builder));
            lemma_lowering_ok_kept(*env, s0, clif_state(*builder));
        }
        return Ok(false);
    }
    proof {
        lemma_single_operand(values@, condition, "while condition"@, env.backend@, *env.function);
    }
    let cv = native_value(&condition_values, condition, env.function, "while condition", env.backend)?;
    ins_brif(builder, cv, body_block, exit_block);
    let ghost c2 = clif_state(*builder);
    let ghost brif_at = clif_state(*builder).emitted.len() - 1;
    assert(clif_state(*builder).emitted[brif_at].op == ClifOp::Brif(s0.blocks + 1, s0.blocks + 2));
    seal_block(builder, body_block);
    seal_block(builder, exit_block);
    let mut body_values = values.copy();
    let mut body_headers = headers.copy();
    switch_to_block(builder, body_block);
    let ghost d0 = clif_state(*builder);
    proof {
        lemma_ok_kept(*env, body_values@, body_headers@, s0, clif_state(*builder));
        lemma_lowering_ok_kept(*env, s0, clif_state(*builder));
    }
    let body_falls = match lower_insts(env, builder, &mut body_values, &mut body_headers, trusted, body_insts.as_slice()) {
        Ok(b) => b,
        Err(e) => {
            assert(nested_fails(*env, body_insts@, e@));
            return Err(e);
        },
    };
    let ghost d1 = clif_state(*builder);
    if body_falls {
        ins_jump(builder, condition_block, no_args.as_slice());
    }
    let ghost d2 = clif_state(*builder);
    seal_block(builder, condition_block);
    switch_to_block(builder, exit_block);
    proof {
        lemma_while_layout(s0, c0, c1, c2, d0, d1, d2, clif_state(*builder), *inst);
    }
    let ghost mid = values@;
    values.insert(dest, NativeValueRepr::Unit);
    proof {
        lemma_ok_kept(*env, mid, headers@, s0, clif_state(*builder));
        lemma_lowering_ok_kept(*env, s0, clif_state(*builder));
        assert(clif_state(*builder).emitted[brif_at].op == ClifOp::Brif(s0.blocks + 1, s0.blocks + 2));
        assert(made_op(s0, clif_state(*builder), ClifOp::Brif(s0.blocks + 1, s0.blocks + 2)));
    }
    Ok(true)
}

/// Lowers a `repeat`: when the body's list accesses are trusted (indexed by
/// the loop counter, see `collect_trusted_repeat_list_accesses`), the code
/// first traps unless the count (taken as 0 when negative) is at most each
/// such list's length. A header block carries the remaining count and the
/// index (starting at the count and 0) and branches to the body while the
/// remaining count is positive; the body (lowered on its own copy of the
/// state, with the trusted accesses) sets the index local, when there is
/// one, and jumps back with the count decremented and the index
/// incremented. The `repeat`'s value is the unit.
/// The states that lowering a `repeat` goes through give its layout: its
/// branch (`c2`, in the header block `b`), sealing the body and exit blocks
/// and entering the body block (`d0`), the body with the index update
/// (`d1`), the step and the jump back (`d2`), and sealing the header and
/// entering the exit block (`f`).
proof fn lemma_repeat_layout(s0: BuilderView, b: nat, c1: BuilderView, c2: BuilderView, d0: BuilderView, d1: BuilderView, d2: BuilderView, f: BuilderView)
    requires
        s0.emitted.len() <= c1.emitted.len(),
        c1.current == b,
        c2 == after_terminator(c1, c2.emitted.last()),
        c2.emitted.last().op == ClifOp::Brif(b + 1, b + 2),
        view_wf(c1),
        view_wf(d0),
        d0.current == b + 1,
        d0.blocks == b + 3,
        emitted_prefix(c2.emitted, d0.emitted),
        forall|k: int| 0 <= k < c2.placed.len() ==> #[trigger] d0.placed[k] == c2.placed[k],
        forall|k: int| c2.emitted.len() <= k < d0.emitted.len() ==> settle_zero(#[trigger] d0.emitted[k].op),
        extends(d0, d1),
        d2.emitted.len() == d1.emitted.len() + 4,
        d2.emitted.last().op == ClifOp::Jump(b),
        d2.placed.len() == d2.emitted.len(),
        forall|k: int| 0 <= k < d1.emitted.len() ==> #[trigger] d2.emitted[k] == d1.emitted[k],
        forall|k: int| 0 <= k < d1.placed.len() ==> #[trigger] d2.placed[k] == d1.placed[k],
        forall|k: int| d1.emitted.len() <= k < d2.emitted.len() ==> #[trigger] d2.placed[k] == d1.current,
        emitted_prefix(d2.emitted, f.emitted),
        f.placed.len() == f.emitted.len(),
        forall|k: int| 0 <= k < d2.placed.len() ==> #[trigger] f.placed[k] == d2.placed[k],
        forall|k: int| d2.emitted.len() <= k < f.emitted.len() ==> settle_zero(#[trigger] f.emitted[k].op),
    ensures
        repeat_layout(s0, f, b),
{
    let jb = c1.emitted.len() as int;
    let jj = d2.emitted.len() - 1;
    assert(view_wf(d1));
    assert(f.emitted[jb] == d2.emitted[jb]);
    assert(f.placed[jb] == d2.placed[jb]);
    assert(d2.emitted[jb] == d1.emitted[jb]);
    assert(d2.placed[jb] == d1.placed[jb]);
    assert(d1.emitted[jb] == d0.emitted[jb]);
    assert(d1.placed[jb] == d0.placed[jb]);
    assert(d0.emitted[jb] == c2.emitted[jb]);
    assert(d0.placed[jb] == c2.placed[jb]);
    assert(f.emitted[jj] == d2.emitted[jj]);
    assert(f.placed[jj] == d2.placed[jj]);
    assert(in_branch(f, jj, b + 1, b));
    assert forall|k: int| jb < k < jj implies #[trigger] in_branch(f, k, b + 1, b) by {
        assert(f.emitted[k] == d2.emitted[k]);
        assert(f.placed[k] == d2.placed[k]);
        if k < d1.emitted.len() {
            assert(d2.emitted[k] == d1.emitted[k]);
            assert(d2.placed[k] == d1.placed[k]);
            if k < d0.emitted.len() {
                assert(d1.emitted[k] == d0.emitted[k]);
                assert(d1.placed[k] == d0.placed[k]);
            } else {
                assert(d1.placed[k] == d0.current || d1.placed[k] >= d0.blocks || settle_zero(d1.emitted[k].op));
            }
        }
    }
    assert forall|k: int| jj < k < f.emitted.len() implies settle_zero(#[trigger] f.emitted[k].op) by {}
    reveal(repeat_layout);
    assert(f.emitted[jb].op == ClifOp::Brif(b + 1, b + 2));
    assert(f.emitted[jj].op == ClifOp::Jump(b));
}

#[verifier::spinoff_prover]
#[verifier::rlimit(60)]
fn lower_repeat(
    env: &NativeLowering,
    builder: &mut FunctionBuilder,
    values: &mut ValueMap,
    headers: &mut HeaderCache,
    inst: &Inst,
) -> (r: Result<bool, String>)
    requires
        lower_pre(*env, clif_state(*old(builder)), old(values)@, old(headers)@),
        lowering_ok(*env, clif_state(*old(builder))),
        lowerable(*inst, *env),
        *inst is Repeat,
    ensures
        lower_post(*env, clif_state(*old(builder)), clif_state(*final(builder)), old(values)@, final(values)@, old(headers)@, final(headers)@, *inst, r),
    decreases *inst, 0nat,
{
    let ghost s0 = clif_state(*builder);
    let (dest, count, index_slot, body_insts) = match inst {
        Inst::Repeat { dest, count, index_slot, body_insts } => (*dest, *count, *index_slot, body_insts),
        _ => {
            assert(false);
            return Err(String::new());
        },
    };
    assert(decreases_to!(*inst => body_insts@));
    proof {
        lemma_single_operand(values@, count, "repeat count"@, env.backend@, *env.function);
    }
    let initial_count = native_value(values, count, env.function, "repeat count", env.backend)?;
    let loop_trusted = match index_slot {
        Some(slot) => collect_trusted_repeat_list_accesses(body_insts.as_slice(), slot),
        None => TrustedListAccesses { pairs: PairSet::new() },
    };
    proof {
        if body_insts@.len() == 0 || index_slot is None {
            assert(loop_trusted.pairs@ =~= Set::<(u32, u32)>::empty());
            if loop_trusted.pairs.pairs@.len() > 0 {
                let p = loop_trusted.pairs.pairs@[0];
                assert(loop_trusted.pairs@.contains((p.0.0, p.1.0)));
            }
        }
    }
    let i64t = clif_type(ClifType::I64);
    if loop_trusted.pairs.pairs.len() > 0 {
        assert(body_insts@.len() > 0);
        let zero = ins_iconst(builder, i64t, 0);
        let has_positive = ins_int_compare(builder, IntCond::SignedGreaterThan, initial_count, zero);
        let effective = ins_select(builder, has_positive, initial_count, zero);
        let vecs = loop_trusted.unique_vecs();
        let mut k: usize = 0;
        while k < vecs.ids.len()
            invariant
                k <= vecs.ids@.len(),
                *inst is Repeat,
                s0 == clif_state(*old(builder)),
                values@ == old(values)@,
                clif_type_of(i64t) == ClifType::I64,
                extends(s0, clif_state(*builder)),
                clif_state(*builder).positioned,
                lower_pre(*env, s0, values@, old(headers)@),
                headers_ok(headers@, clif_state(*builder)),
                value_number(effective) < clif_state(*builder).value_types.len(),
                body_insts@.len() > 0,
                *inst matches Inst::Repeat { body_insts: b, .. } && b@ == body_insts@,
                control_error(*env, old(values)@, *inst) is None,
            decreases vecs.ids@.len() - k,
        {
            let vec_val = native_value(values, vecs.ids[k], env.function, "repeat trusted f64 vec", env.backend)?;
            let header = cached_list_header(builder, headers, vec_val);
            let exceeds = ins_int_compare(builder, IntCond::UnsignedGreaterThan, effective, header.len);
            ins_trapnz_heap(builder, exceeds);
            k = k + 1;
        }
    }
    let ghost s_mid = clif_state(*builder);
    proof {
        lemma_ok_kept(*env, values@, old(headers)@, s0, s_mid);
    }
    assert(lower_pre(*env, s_mid, values@, headers@));
    let header_block = create_block(builder);
    let body_block = create_block(builder);
    let exit_block = create_block(builder);
    let remaining = append_block_param(builder, header_block, i64t);
    let current_index = append_block_param(builder, header_block, i64t);
    let ghost ci = value_number(current_index) as int;
    assert(clif_state(*builder).value_types[ci] == ClifType::I64);
    let zero = ins_iconst(builder, i64t, 0);
    let entry_args = vec![initial_count, zero];
    ins_jump(builder, header_block, entry_args.as_slice());
    let ghost jump_at = clif_state(*builder).emitted.len() - 1;
    let ghost hb = block_number(header_block);
    assert(clif_state(*builder).emitted[jump_at].op == ClifOp::Jump(hb));
    switch_to_block(builder, header_block);
    let has_more = ins_int_compare(builder, IntCond::SignedGreaterThan, remaining, zero);
    let ghost rc1 = clif_state(*builder);
    ins_brif(builder, has_more, body_block, exit_block);
    let ghost rc2 = clif_state(*builder);
    let ghost brif_at = clif_state(*builder).emitted.len() - 1;
    assert(clif_state(*builder).emitted[brif_at].op == ClifOp::Brif(hb + 1, hb + 2));
    seal_block(builder, body_block);
    seal_block(builder, exit_block);
    let mut body_values = values.copy();
    let mut body_headers = headers.copy();
    switch_to_block(builder, body_block);
    let ghost rd0 = clif_state(*builder);
    if let Some(slot) = index_slot {
        let var = match find_slot_var(env.slot_vars, slot) {
            Some(var) => var,
            None => {
                let mut middle = String::from_str("lowering is missing loop index slot ");
                let st = slot.render();
                middle.append(st.as_str());
                return Err(fn_message(env.backend, middle.as_str(), env.function));
            },
        };
        let expected = match find_slot_type(env.slot_types, slot) {
            Some(t) => t,
            None => {
                let mut middle = String::from_str("loop index slot ");
                let st = slot.render();
                middle.append(st.as_str());
                middle.append(" is missing a declared native type");
                return Err(fn_message(env.backend, middle.as_str(), env.function));
            },
        };
        assert(clif_state(*builder).value_types[ci] == ClifType::I64);
        let index_value = coerce_var_value(builder, current_index, expected, env.function, env.backend)?;
        def_var(builder, var, index_value);
    }
    proof {
        lemma_ok_kept(*env, body_values@, body_headers@, s_mid, clif_state(*builder));
        lemma_lowering_ok_kept(*env, s0, clif_state(*builder));
    }
    let body_falls = lower_insts(env, builder, &mut body_values, &mut body_headers, &loop_trusted, body_insts.as_slice())?;
    let ghost rd1 = clif_state(*builder);
    assert(extends(rd0, rd1));
    if body_falls {
        let one = ins_iconst(builder, i64t, 1);
        let next = ins_isub(builder, remaining, one);
        let next_index = ins_iadd(builder, current_index, one);
        let back_args = vec![next, next_index];
        ins_jump(builder, header_block, back_args.as_slice());
    }
    let ghost rd2 = clif_state(*builder);
    seal_block(builder, header_block);
    switch_to_block(builder, exit_block);
    proof {
        lemma_repeat_layout(s0, hb, rc1, rc2, rd0, rd1, rd2, clif_state(*builder));
    }
    let ghost mid = values@;
    values.insert(dest, NativeValueRepr::Unit);
    proof {
        lemma_ok_kept(*env, mid, headers@, s_mid, clif_state(*builder));
        lemma_lowering_ok_kept(*env, s0, clif_state(*builder));
        assert(clif_state(*builder).emitted[brif_at].op == ClifOp::Brif(hb + 1, hb + 2));
        assert(clif_state(*builder).emitted[jump_at].op == ClifOp::Jump(hb));
        assert(made_op(s0, clif_state(*builder), ClifOp::Brif(hb + 1, hb + 2)));
        assert(made_op(s0, clif_state(*builder), ClifOp::Jump(hb)));
        assert(loop_layout(s0, clif_state(*builder), hb));
        assert(repeat_layout(s0, clif_state(*builder), hb));
    }
    Ok(true)
}

/// The native type of values of the named type: `Invalid` for the unit,
/// which has no native value, and the native type of its kind otherwise.
pub fn native_type(name: &str, records: &[NativeRecord], enums: &[(String, NativeEnum)]) -> (r: Result<ClifType, String>)
    ensures
        name@ == "Unit"@ ==> r == Ok::<ClifType, String>(ClifType::Invalid),
        name@ != "Unit"@ ==> match spec_native_kind(name@, record_names(records@), enum_names(enums@)) {
            Ok(k) => r == Ok::<ClifType, String>(spec_kind_type(k)),
            Err(e) => err_is(r, e),
        },
{
    if text_eq(name, "Unit") {
        return Ok(ClifType::Invalid);
    }
    let kind = native_value_kind(name, records, enums)?;
    Ok(native_kind_type(&kind))
}

/// Whether comparing values of the kind finishes within `fuel` nested
/// layouts (see `eq_fuel`).
pub fn eq_fuel_check(env: &NativeLowering, kind: &NativeValueKind, fuel: usize) -> (r: bool)
    ensures
        r == eq_fuel(*env, kind_view(*kind), fuel as nat),
    decreases fuel,
{
    match kind {
        NativeValueKind::Bytes | NativeValueKind::TextIndex | NativeValueKind::File => false,
        NativeValueKind::Record(name) => {
            let record = match find_last_record(env.records, name.as_str()) {
                Some(r) => r,
                None => {
                    return true;
                },
            };
            if fuel == 0 {
                return false;
            }
            let mut k: usize = 0;
            while k < record.fields.len()
                invariant
                    k <= record.fields@.len(),
                    fuel > 0,
                    *kind == NativeValueKind::Record(*name),
                    last_record_named(env.records@, name@) == Some(*record),
                    forall|i: int| 0 <= i < k ==> eq_fuel(*env, kind_view(#[trigger] record.fields@[i].kind), (fuel - 1) as nat),
                decreases record.fields@.len() - k,
            {
                if !eq_fuel_check(env, &record.fields[k].kind, fuel - 1) {
                    assert(!eq_fuel(*env, kind_view(record.fields@[k as int].kind), (fuel - 1) as nat));
                    return false;
                }
                k = k + 1;
            }
            true
        },
        NativeValueKind::Enum(name) => {
            let enum_ty = match find_native_enum(env.enums, name.as_str()) {
                Some(e) => e,
                None => {
                    return true;
                },
            };
            if native_enum_is_payload_free(enum_ty) {
                return true;
            }
            if fuel == 0 {
                return false;
            }
            let mut k: usize = 0;
            while k < enum_ty.variants.len()
                invariant
                    k <= enum_ty.variants@.len(),
                    fuel > 0,
                    *kind == NativeValueKind::Enum(*name),
                    last_native_enum(env.enums@, name@) == Some(*enum_ty),
                    !payload_free(*enum_ty),
                    forall|i: int| 0 <= i < k ==> match (#[trigger] enum_ty.variants@[i]).payload_type {
                        None => true,
                        Some(p) => match spec_native_kind(p@, record_names(env.records@), enum_names(env.enums@)) {
                            Ok(pk) => eq_fuel(*env, pk, (fuel - 1) as nat),
                            Err(_) => true,
                        },
                    },
                decreases enum_ty.variants@.len() - k,
            {
                match &enum_ty.variants[k].payload_type {
                    None => {},
                    Some(p) => {
                        match native_value_kind(p.as_str(), env.records, env.enums) {
                            Ok(pk) => {
                                if !eq_fuel_check(env, &pk, fuel - 1) {
                                    assert(enum_ty.variants@[k as int].payload_type == Some(*p));
                                    assert(!eq_fuel(*env, kind_view(pk), (fuel - 1) as nat));
                                    return false;
                                }
                            },
                            Err(_) => {},
                        }
                    },
                }
                k = k + 1;
            }
            true
        },
        _ => true,
    }
}

/// Whether the lowering handles the instruction (see `lowerable`), the
/// nesting depth for comparisons being `fuel`.
fn inst_lowerable(env: &NativeLowering, inst: &Inst, fuel: usize) -> (r: bool)
    requires
        fuel == compare_fuel(*env),
    ensures
        r == lowerable(*inst, *env),
    decreases *inst, 1nat,
{
    match inst {
        Inst::TextCmp { .. } | Inst::TextEqRange { .. } | Inst::TextFindByteRange { .. } | Inst::AllocPush
        | Inst::AllocPop | Inst::ParseI32Range { .. } => false,
        Inst::ListNew { value, .. } => env.kinds.get(*value).is_some(),
        Inst::ListGet { list, .. } => env.kinds.get(*list).is_some(),
        Inst::If { then_insts, else_insts, .. } => {
            assert(decreases_to!(*inst => then_insts@));
            assert(decreases_to!(*inst => else_insts@));
            insts_lowerable(env, then_insts.as_slice(), fuel) && insts_lowerable(env, else_insts.as_slice(), fuel)
        },
        Inst::While { condition_insts, body_insts, .. } => {
            assert(decreases_to!(*inst => condition_insts@));
            assert(decreases_to!(*inst => body_insts@));
            insts_lowerable(env, condition_insts.as_slice(), fuel) && insts_lowerable(env, body_insts.as_slice(), fuel)
        },
        Inst::Repeat { body_insts, .. } => {
            assert(decreases_to!(*inst => body_insts@));
            insts_lowerable(env, body_insts.as_slice(), fuel)
        },
        Inst::Eq { left, .. } | Inst::Ne { left, .. } | Inst::Lt { left, .. } | Inst::Le { left, .. }
        | Inst::Gt { left, .. } | Inst::Ge { left, .. } => match env.kinds.get(*left) {
            Some(k) => eq_fuel_check(env, k, fuel),
            None => true,
        },
        _ => true,
    }
}

fn insts_lowerable(env: &NativeLowering, insts: &[Inst], fuel: usize) -> (r: bool)
    requires
        fuel == compare_fuel(*env),
    ensures
        r == all_lowerable(insts@, *env),
    decreases insts@, 0nat,
{
    let mut k: usize = 0;
    assert(insts@.subrange(0, 0) =~= Seq::<Inst>::empty());
    while k < insts.len()
        invariant
            k <= insts@.len(),
            fuel == compare_fuel(*env),
            all_lowerable(insts@.subrange(0, k as int), *env),
        decreases insts@.len() - k,
    {
        let ghost pre = insts@.subrange(0, k + 1);
        assert(pre.subrange(0, pre.len() - 1) =~= insts@.subrange(0, k as int));
        assert(decreases_to!(insts@ => insts@[k as int]));
        if !inst_lowerable(env, &insts[k], fuel) {
            proof {
                lemma_prefix_lowerable(insts@, k as int + 1, *env);
            }
            return false;
        }
        k = k + 1;
    }
    assert(insts@.subrange(0, insts@.len() as int) =~= insts@);
    true
}

/// A sequence that can be lowered has prefixes that can.
proof fn lemma_prefix_lowerable(insts: Seq<Inst>, n: int, env: NativeLowering)
    requires
        0 <= n <= insts.len(),
        !all_lowerable(insts.subrange(0, n), env),
    ensures
        !all_lowerable(insts, env),
    decreases insts.len() - n,
{
    if n < insts.len() {
        let longer = insts.subrange(0, n + 1);
        assert(longer.subrange(0, longer.len() - 1) =~= insts.subrange(0, n));
        lemma_prefix_lowerable(insts, n + 1, env);
    } else {
        assert(insts.subrange(0, n) =~= insts);
    }
}

/// Whether the lowering handles every instruction (see `lowerable`).
pub fn all_native_lowerable(env: &NativeLowering, insts: &[Inst]) -> (r: bool)
    requires
        env.records@.len() + env.enums@.len() <= usize::MAX,
    ensures
        r == all_lowerable(insts@, *env),
{
    let fuel = env.records.len() + env.enums.len();
    insts_lowerable(env, insts, fuel)
}

/// What a successful lowering of an arithmetic or logic instruction makes:
/// exactly one Cranelift instruction, on the native values of its operands,
/// whose result is the native value of its destination, and whose opcode is
/// that instruction's own: `iadd`, `isub`, `imul` and `sdiv` for integer
/// operands (`fadd`, `fsub`, `fmul` and `fdiv` when the left operand is an
/// `F64`), `band` for `And` and `bor` for `Or`. So `Mul` is never lowered to
/// the instruction of `Add`, nor any of them to another's.
pub proof fn lemma_lowered_arithmetic(
    env: NativeLowering,
    s0: BuilderView,
    s1: BuilderView,
    v0: Map<u32, NativeValueRepr>,
    v1: Map<u32, NativeValueRepr>,
    h0: Map<u32, ListHeader>,
    h1: Map<u32, ListHeader>,
    inst: Inst,
)
    requires
        lower_post(env, s0, s1, v0, v1, h0, h1, inst, Ok::<bool, String>(true)),
        inst is Add || inst is Sub || inst is Mul || inst is Div || inst is And || inst is Or,
    ensures
        s1.emitted.len() == s0.emitted.len() + 1,
        emitted_prefix(s0.emitted, s1.emitted),
        match inst {
            Inst::Add { dest, left, right } => s1.emitted.last() == ClifEntry {
                op: if env.kinds@[left.0] == KindView::F64 { ClifOp::Fadd } else { ClifOp::Iadd },
                args: seq![native_number(v0, left), native_number(v0, right)],
                results: seq![native_number(v1, dest)],
            },
            Inst::Sub { dest, left, right } => s1.emitted.last() == ClifEntry {
                op: if env.kinds@[left.0] == KindView::F64 { ClifOp::Fsub } else { ClifOp::Isub },
                args: seq![native_number(v0, left), native_number(v0, right)],
                results: seq![native_number(v1, dest)],
            },
            Inst::Mul { dest, left, right } => s1.emitted.last() == ClifEntry {
                op: if env.kinds@[left.0] == KindView::F64 { ClifOp::Fmul } else { ClifOp::Imul },
                args: seq![native_number(v0, left), native_number(v0, right)],
                results: seq![native_number(v1, dest)],
            },
            Inst::Div { dest, left, right } => s1.emitted.last() == ClifEntry {
                op: if env.kinds@[left.0] == KindView::F64 { ClifOp::Fdiv } else { ClifOp::Sdiv },
                args: seq![native_number(v0, left), native_number(v0, right)],
                results: seq![native_number(v1, dest)],
            },
            Inst::And { dest, left, right } => s1.emitted.last() == ClifEntry {
                op: ClifOp::Band,
                args: seq![native_number(v0, left), native_number(v0, right)],
                results: seq![native_number(v1, dest)],
            },
            Inst::Or { dest, left, right } => s1.emitted.last() == ClifEntry {
                op: ClifOp::Bor,
                args: seq![native_number(v0, left), native_number(v0, right)],
                results: seq![native_number(v1, dest)],
            },
            _ => false,
        },
{
    assert(value_ops(inst) is Some);
    assert(value_call(env, inst, v0, v1) is Some);
    assert(s1.emitted == s0.emitted.push(value_call(env, inst, v0, v1)->0));
}

/// What a successful lowering of a comparison of two integer-like native
/// values makes: the Cranelift integer comparison under the instruction's
/// own condition (`eq`, `ne`, `slt`, `sle`, `sgt`, `sge` for `Eq`, `Ne`,
/// `Lt`, `Le`, `Gt`, `Ge`) of the two operands, then its zero extension to
/// the destination; for `F64` operands other than `Ne`, the float comparison
/// under the matching condition comes first.
pub proof fn lemma_lowered_comparisons(
    env: NativeLowering,
    s0: BuilderView,
    s1: BuilderView,
    v0: Map<u32, NativeValueRepr>,
    v1: Map<u32, NativeValueRepr>,
    h0: Map<u32, ListHeader>,
    h1: Map<u32, ListHeader>,
    inst: Inst,
)
    requires
        lower_post(env, s0, s1, v0, v1, h0, h1, inst, Ok::<bool, String>(true)),
    ensures
        match inst {
            Inst::Eq { dest, left, right } => (int_compared(env, left) && v0[left.0] is Native) ==> compared_with(
                s0,
                s1,
                IntCond::Equal,
                native_number(v0, left),
                native_number(v0, right),
                native_number(v1, dest),
            ),
            Inst::Ne { dest, left, right } => (int_compared(env, left) && v0[left.0] is Native) ==> compared_with(
                s0,
                s1,
                IntCond::NotEqual,
                native_number(v0, left),
                native_number(v0, right),
                native_number(v1, dest),
            ),
            Inst::Lt { dest, left, right } => ((int_compared(env, left) && v0[left.0] is Native) ==> compared_with(
                s0,
                s1,
                IntCond::SignedLessThan,
                native_number(v0, left),
                native_number(v0, right),
                native_number(v1, dest),
            )) && (env.kinds@.get(left.0) == Some(KindView::F64) ==> s1.emitted[s0.emitted.len() as int].op
                == ClifOp::FloatCompare(FloatCond::LessThan)),
            Inst::Le { dest, left, right } => ((int_compared(env, left) && v0[left.0] is Native) ==> compared_with(
                s0,
                s1,
                IntCond::SignedLessThanOrEqual,
                native_number(v0, left),
                native_number(v0, right),
                native_number(v1, dest),
            )) && (env.kinds@.get(left.0) == Some(KindView::F64) ==> s1.emitted[s0.emitted.len() as int].op
                == ClifOp::FloatCompare(FloatCond::LessThanOrEqual)),
            Inst::Gt { dest, left, right } => ((int_compared(env, left) && v0[left.0] is Native) ==> compared_with(
                s0,
                s1,
                IntCond::SignedGreaterThan,
                native_number(v0, left),
                native_number(v0, right),
                native_number(v1, dest),
            )) && (env.kinds@.get(left.0) == Some(KindView::F64) ==> s1.emitted[s0.emitted.len() as int].op
                == ClifOp::FloatCompare(FloatCond::GreaterThan)),
            Inst::Ge { dest, left, right } => ((int_compared(env, left) && v0[left.0] is Native) ==> compared_with(
                s0,
                s1,
                IntCond::SignedGreaterThanOrEqual,
                native_number(v0, left),
                native_number(v0, right),
                native_number(v1, dest),
            )) && (env.kinds@.get(left.0) == Some(KindView::F64) ==> s1.emitted[s0.emitted.len() as int].op
                == ClifOp::FloatCompare(FloatCond::GreaterThanOrEqual)),
            _ => true,
        },
{
}

/// The lowering made exactly two instructions: the integer comparison of
/// `a` and `b` under `cond`, then the zero extension of its result to `d`.
pub open spec fn compared_with(s0: BuilderView, s1: BuilderView, cond: IntCond, a: nat, b: nat, d: nat) -> bool {
    &&& s1.emitted.len() == s0.emitted.len() + 2
    &&& emitted_prefix(s0.emitted, s1.emitted)
    &&& s1.emitted[s0.emitted.len() as int].op == ClifOp::IntCompare(cond)
    &&& s1.emitted[s0.emitted.len() as int].args == seq![a, b]
    &&& s1.emitted[s0.emitted.len() as int + 1].op == ClifOp::Uextend
    &&& s1.emitted[s0.emitted.len() as int + 1].results == seq![d]
}

/// What a successful lowering of a constant makes: one Cranelift constant
/// whose result is the destination's native value, holding the integer for
/// `ConstInt`, 1 for `true` and 0 for `false`, and the float's bits for
/// `ConstF64`.
pub proof fn lemma_lowered_constants(
    env: NativeLowering,
    s0: BuilderView,
    s1: BuilderView,
    v0: Map<u32, NativeValueRepr>,
    v1: Map<u32, NativeValueRepr>,
    h0: Map<u32, ListHeader>,
    h1: Map<u32, ListHeader>,
    inst: Inst,
)
    requires
        lower_post(env, s0, s1, v0, v1, h0, h1, inst, Ok::<bool, String>(true)),
    ensures
        match inst {
            Inst::ConstInt { dest, value } => s1.emitted == s0.emitted.push(
                ClifEntry { op: ClifOp::Iconst(value), args: seq![], results: seq![native_number(v1, dest)] },
            ),
            Inst::ConstBool { dest, value } => s1.emitted == s0.emitted.push(
                ClifEntry {
                    op: ClifOp::Iconst(if value { 1 } else { 0 }),
                    args: seq![],
                    results: seq![native_number(v1, dest)],
                },
            ),
            Inst::ConstF64 { dest, bits } => s1.emitted == s0.emitted.push(
                ClifEntry { op: ClifOp::F64const(bits), args: seq![], results: seq![native_number(v1, dest)] },
            ),
            _ => true,
        },
{
}

} // verus!
