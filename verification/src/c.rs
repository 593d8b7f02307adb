//! The C backend: value kinds and the emitted C text.
use vstd::prelude::*;

use crate::infer::kind_of;
use crate::kinds::KindMap;
use crate::mir::{
    first_local_for, CodegenValueKind, EnumType, EnumVariantType, ExternFunction, Function, Inst,
    StructField, StructType, ValueId,
};
use crate::native::{is_list_type, kind_view, program_enum_names, struct_names, KindView};
use crate::text::{chars_of, nat_text, push_u64, text_eq};
use vstd::string::StringSliceAdditionalSpecFns;

verus! {

/// Four spaces per level.
pub open spec fn pad(n: nat) -> Seq<char>
    decreases n,
{
    if n == 0 {
        Seq::empty()
    } else {
        pad((n - 1) as nat) + "    "@
    }
}

/// A line of text at the given indentation level, with its newline.
pub open spec fn line_at(indent: nat, s: Seq<char>) -> Seq<char> {
    pad(indent) + s + "\n"@
}

/// C text being built, with the current indentation level.
pub struct Output {
    pub buf: String,
    pub indent: u32,
}

impl Output {
    pub fn new() -> (r: Output)
        ensures
            r.buf@ == Seq::<char>::empty(),
            r.indent == 0,
    {
        Output { buf: String::new(), indent: 0 }
    }

    /// Appends `s` as a line at the current indentation.
    pub fn line(&mut self, s: &str) -> (r: Result<(), String>)
        ensures
            r is Ok,
            final(self).buf@ == old(self).buf@ + line_at(old(self).indent as nat, s@),
            final(self).indent == old(self).indent,
    {
        let mut i: u32 = 0;
        let ghost start = self.buf@;
        while i < self.indent
            invariant
                i <= self.indent,
                self.indent == old(self).indent,
                start == old(self).buf@,
                self.buf@ == start + pad(i as nat),
            decreases self.indent - i,
        {
            self.buf.append("    ");
            i = i + 1;
        }
        self.buf.append(s);
        self.buf.append("\n");
        Ok(())
    }

    /// Appends `header` as a line and indents what follows one level more.
    pub fn block_open(&mut self, header: &str) -> (r: Result<(), String>)
        requires
            old(self).indent < u32::MAX,
        ensures
            r is Ok,
            final(self).buf@ == old(self).buf@ + line_at(old(self).indent as nat, header@),
            final(self).indent == old(self).indent + 1,
    {
        let _ = self.line(header);
        self.indent = self.indent + 1;
        Ok(())
    }

    /// Indents one level less (not below zero) and appends a closing brace.
    pub fn block_close(&mut self) -> (r: Result<(), String>)
        ensures
            r is Ok,
            final(self).indent == if old(self).indent == 0 {
                0
            } else {
                old(self).indent - 1
            },
            final(self).buf@ == old(self).buf@ + line_at(final(self).indent as nat, "}"@),
    {
        self.indent = self.indent.saturating_sub(1);
        self.line("}")
    }
}

/// The C variable of an IR value: `v` and its number.
pub open spec fn vref_text(v: ValueId) -> Seq<char> {
    "v"@ + nat_text(v.0 as nat)
}

pub fn vref(id: &ValueId) -> (r: String)
    ensures
        r@ == vref_text(*id),
{
    let mut s = String::from_str("v");
    push_u64(&mut s, id.0 as u64);
    s
}

/// The C type of values of the named IR type.
pub open spec fn c_type_name(ty: Option<Seq<char>>) -> Seq<char> {
    match ty {
        Some(t) => if t == "F64"@ {
            "double"@
        } else if t == "Unit"@ {
            "void"@
        } else {
            "uint64_t"@
        },
        None => "void"@,
    }
}

pub open spec fn opt_str_view(ty: Option<&str>) -> Option<Seq<char>> {
    match ty {
        Some(t) => Some(t@),
        None => None,
    }
}

pub fn func_type_name(ty: Option<&str>) -> (r: &'static str)
    ensures
        r@ == c_type_name(opt_str_view(ty)),
{
    match ty {
        Some(t) => {
            if text_eq(t, "F64") {
                "double"
            } else if text_eq(t, "Unit") {
                "void"
            } else {
                "uint64_t"
            }
        },
        None => "void",
    }
}

/// Whether a character is alphanumeric in Unicode's sense.
pub uninterp spec fn spec_is_alphanumeric(c: char) -> bool;

/// `char::is_alphanumeric`: true for characters with Unicode's Alphabetic
/// or Numeric property. Which characters those are is left to the name.
#[verifier::external_body]
fn is_alphanumeric(c: char) -> (r: bool)
    ensures
        r == spec_is_alphanumeric(c),
{
    c.is_alphanumeric()
}

/// A type name with every character that is not alphanumeric replaced by
/// `_`.
pub open spec fn safe_name(ty: Seq<char>) -> Seq<char> {
    ty.map_values(|c: char| if spec_is_alphanumeric(c) { c } else { '_' })
}

pub fn safe_local_name(ty: &str) -> (r: String)
    ensures
        r@ == safe_name(ty@),
{
    let cs = chars_of(ty);
    let mut out = String::new();
    let mut i: usize = 0;
    while i < cs.len()
        invariant
            i <= cs.len(),
            cs@ == ty@,
            out@ == safe_name(ty@).take(i as int),
        decreases cs.len() - i,
    {
        let c = cs[i];
        let d = if is_alphanumeric(c) {
            c
        } else {
            '_'
        };
        out.push(d);
        assert(safe_name(ty@).take(i + 1) =~= safe_name(ty@).take(i as int).push(d));
        i = i + 1;
    }
    assert(safe_name(ty@).take(cs.len() as int) =~= safe_name(ty@));
    out
}

pub open spec fn kind_is(kinds: Map<u32, KindView>, v: ValueId, k: KindView) -> bool {
    kind_of(kinds, v) == Some(k)
}

/// Whether the value is a signed integer.
pub fn is_signed(val: &ValueId, value_kinds: &KindMap) -> (r: bool)
    ensures
        r == kind_is(value_kinds@, *val, KindView::I32),
{
    match value_kinds.get(*val) {
        Some(k) => matches!(k, CodegenValueKind::I32),
        None => false,
    }
}

/// Whether the value is text.
pub fn is_text(val: &ValueId, value_kinds: &KindMap) -> (r: bool)
    ensures
        r == kind_is(value_kinds@, *val, KindView::Text),
{
    match value_kinds.get(*val) {
        Some(k) => matches!(k, CodegenValueKind::Text),
        None => false,
    }
}

/// Whether the value is a 64-bit float.
pub fn is_f64(val: &ValueId, value_kinds: &KindMap) -> (r: bool)
    ensures
        r == kind_is(value_kinds@, *val, KindView::F64),
{
    match value_kinds.get(*val) {
        Some(k) => matches!(k, CodegenValueKind::F64),
        None => false,
    }
}

/// The first struct with the given name.
pub open spec fn first_struct_named(ss: Seq<StructType>, name: Seq<char>) -> Option<StructType>
    decreases ss.len(),
{
    if ss.len() == 0 {
        None
    } else if ss[0].name@ == name {
        Some(ss[0])
    } else {
        first_struct_named(ss.drop_first(), name)
    }
}

/// The first enum with the given name.
pub open spec fn first_enum_named(es: Seq<EnumType>, name: Seq<char>) -> Option<EnumType>
    decreases es.len(),
{
    if es.len() == 0 {
        None
    } else if es[0].name@ == name {
        Some(es[0])
    } else {
        first_enum_named(es.drop_first(), name)
    }
}

/// The position of the first field with the given name.
pub open spec fn field_position(fs: Seq<StructField>, name: Seq<char>) -> Option<nat>
    decreases fs.len(),
{
    if fs.len() == 0 {
        None
    } else if fs[0].name@ == name {
        Some(0)
    } else {
        match field_position(fs.drop_first(), name) {
            Some(p) => Some(p + 1),
            None => None,
        }
    }
}

/// The position of the first variant with the given name.
pub open spec fn variant_position(vs: Seq<EnumVariantType>, name: Seq<char>) -> Option<nat>
    decreases vs.len(),
{
    if vs.len() == 0 {
        None
    } else if vs[0].name@ == name {
        Some(0)
    } else {
        match variant_position(vs.drop_first(), name) {
            Some(p) => Some(p + 1),
            None => None,
        }
    }
}

pub(crate) fn find_struct<'a>(structs: &'a [StructType], name: &str) -> (r: Option<&'a StructType>)
    ensures
        match first_struct_named(structs@, name@) {
            Some(x) => r matches Some(y) && *y == x,
            None => r is None,
        },
{
    let mut i: usize = 0;
    assert(structs@.skip(0) =~= structs@);
    while i < structs.len()
        invariant
            i <= structs.len(),
            first_struct_named(structs@, name@) == first_struct_named(structs@.skip(i as int), name@),
        decreases structs.len() - i,
    {
        assert(structs@.skip(i as int).drop_first() =~= structs@.skip(i + 1));
        if text_eq(structs[i].name.as_str(), name) {
            return Some(&structs[i]);
        }
        i = i + 1;
    }
    None
}

pub(crate) fn find_enum<'a>(enums: &'a [EnumType], name: &str) -> (r: Option<&'a EnumType>)
    ensures
        match first_enum_named(enums@, name@) {
            Some(x) => r matches Some(y) && *y == x,
            None => r is None,
        },
{
    let mut i: usize = 0;
    assert(enums@.skip(0) =~= enums@);
    while i < enums.len()
        invariant
            i <= enums.len(),
            first_enum_named(enums@, name@) == first_enum_named(enums@.skip(i as int), name@),
        decreases enums.len() - i,
    {
        assert(enums@.skip(i as int).drop_first() =~= enums@.skip(i + 1));
        if text_eq(enums[i].name.as_str(), name) {
            return Some(&enums[i]);
        }
        i = i + 1;
    }
    None
}

proof fn lemma_field_position_bound(fs: Seq<StructField>, name: Seq<char>)
    ensures
        match field_position(fs, name) {
            Some(p) => p < fs.len(),
            None => true,
        },
    decreases fs.len(),
{
    if fs.len() > 0 {
        lemma_field_position_bound(fs.drop_first(), name);
    }
}

proof fn lemma_variant_position_bound(vs: Seq<EnumVariantType>, name: Seq<char>)
    ensures
        match variant_position(vs, name) {
            Some(p) => p < vs.len(),
            None => true,
        },
    decreases vs.len(),
{
    if vs.len() > 0 {
        lemma_variant_position_bound(vs.drop_first(), name);
    }
}

fn find_field_position(fields: &Vec<StructField>, name: &str) -> (r: Option<usize>)
    ensures
        match r {
            Some(i) => field_position(fields@, name@) == Some(i as nat),
            None => field_position(fields@, name@) is None,
        },
{
    let mut i: usize = 0;
    assert(fields@.skip(0) =~= fields@);
    proof {
        lemma_field_position_bound(fields@, name@);
    }
    while i < fields.len()
        invariant
            i <= fields.len(),
            match field_position(fields@.skip(i as int), name@) {
                Some(p) => field_position(fields@, name@) == Some((p + i) as nat),
                None => field_position(fields@, name@) is None,
            },
        decreases fields.len() - i,
    {
        assert(fields@.skip(i as int).drop_first() =~= fields@.skip(i + 1));
        if text_eq(fields[i].name.as_str(), name) {
            return Some(i);
        }
        i = i + 1;
    }
    None
}

pub(crate) fn find_variant_position(variants: &Vec<EnumVariantType>, name: &str) -> (r: Option<usize>)
    ensures
        match r {
            Some(i) => variant_position(variants@, name@) == Some(i as nat),
            None => variant_position(variants@, name@) is None,
        },
{
    let mut i: usize = 0;
    assert(variants@.skip(0) =~= variants@);
    proof {
        lemma_variant_position_bound(variants@, name@);
    }
    while i < variants.len()
        invariant
            i <= variants.len(),
            match variant_position(variants@.skip(i as int), name@) {
                Some(p) => variant_position(variants@, name@) == Some((p + i) as nat),
                None => variant_position(variants@, name@) is None,
            },
        decreases variants.len() - i,
    {
        assert(variants@.skip(i as int).drop_first() =~= variants@.skip(i + 1));
        if text_eq(variants[i].name.as_str(), name) {
            return Some(i);
        }
        i = i + 1;
    }
    None
}

/// The byte offset of a record field: eight bytes per field position, or 0
/// where the position or the offset does not fit in 32 bits.
pub open spec fn spec_field_offset(structs: Seq<StructType>, record: Seq<char>, field: Seq<char>) -> Option<
    u32,
> {
    match first_struct_named(structs, record) {
        None => None,
        Some(s) => match field_position(s.fields@, field) {
            None => None,
            Some(idx) => Some(
                if idx > u32::MAX || idx * 8 > u32::MAX {
                    0u32
                } else {
                    (idx * 8) as u32
                },
            ),
        },
    }
}

pub fn record_field_offset(structs: &[StructType], record_name: &str, field_name: &str) -> (r: Option<
    u32,
>)
    ensures
        r == spec_field_offset(structs@, record_name@, field_name@),
{
    let record = match find_struct(structs, record_name) {
        Some(s) => s,
        None => {
            return None;
        },
    };
    let idx = match find_field_position(&record.fields, field_name) {
        Some(i) => i,
        None => {
            return None;
        },
    };
    assert(field_position(record.fields@, field_name@) == Some(idx as nat));
    if idx > 4294967295 {
        return Some(0);
    }
    let i = idx as u32;
    match i.checked_mul(8) {
        Some(v) => Some(v),
        None => Some(0),
    }
}

/// The tag of a variant: its position among the enum's variants.
pub open spec fn spec_variant_tag(enums: Seq<EnumType>, enum_name: Seq<char>, variant: Seq<char>) -> Option<
    u64,
> {
    match first_enum_named(enums, enum_name) {
        None => None,
        Some(e) => match variant_position(e.variants@, variant) {
            None => None,
            Some(p) => Some(p as u64),
        },
    }
}

pub fn enum_variant_tag(enums: &[EnumType], enum_name: &str, variant_name: &str) -> (r: Option<u64>)
    ensures
        r == spec_variant_tag(enums@, enum_name@, variant_name@),
{
    let enum_ty = match find_enum(enums, enum_name) {
        Some(e) => e,
        None => {
            return None;
        },
    };
    match find_variant_position(&enum_ty.variants, variant_name) {
        Some(p) => {
            assert(variant_position(enum_ty.variants@, variant_name@) == Some(p as nat));
            Some(p as u64)
        },
        None => None,
    }
}

/// Whether some variant of the enum carries a payload.
pub open spec fn has_payload_variant(e: EnumType) -> bool {
    exists|i: int| 0 <= i < e.variants@.len() && (#[trigger] e.variants@[i]).payload_type is Some
}

pub(crate) fn enum_has_payload(e: &EnumType) -> (r: bool)
    ensures
        r == has_payload_variant(*e),
{
    let mut i: usize = 0;
    while i < e.variants.len()
        invariant
            i <= e.variants.len(),
            forall|k: int| 0 <= k < i ==> (#[trigger] e.variants@[k]).payload_type is None,
        decreases e.variants.len() - i,
    {
        if e.variants[i].payload_type.is_some() {
            return true;
        }
        i = i + 1;
    }
    false
}

} // verus!

verus! {

/// The kind the C backend gives to values of the named type: unknown names
/// are integers.
pub open spec fn c_kind(ty: Seq<char>, structs: Seq<StructType>, enums: Seq<EnumType>) -> KindView
    decreases ty.len(),
{
    if is_list_type(ty) {
        KindView::List(Box::new(c_kind(ty.subrange(5, ty.len() - 1), structs, enums)))
    } else if ty == "I32"@ {
        KindView::I32
    } else if ty == "F64"@ {
        KindView::F64
    } else if ty == "Bool"@ {
        KindView::Bool
    } else if ty == "Text"@ {
        KindView::Text
    } else if ty == "Bytes"@ {
        KindView::Bytes
    } else if ty == "TextBuilder"@ {
        KindView::TextBuilder
    } else if ty == "TextIndex"@ {
        KindView::TextIndex
    } else if ty == "File"@ {
        KindView::File
    } else if ty == "Unit"@ {
        KindView::Unit
    } else if first_enum_named(enums, ty) is Some {
        KindView::Enum(ty)
    } else if first_struct_named(structs, ty) is Some {
        KindView::Record(ty)
    } else {
        KindView::I32
    }
}

pub fn str_to_kind(ty: &str, program: &crate::mir::Program) -> (r: CodegenValueKind)
    ensures
        kind_view(r) == c_kind(ty@, program.structs@, program.enums@),
    decreases ty@.len(),
{
    if let Some(element) = crate::native::list_element(ty) {
        return CodegenValueKind::List(Box::new(str_to_kind(element, program)));
    }
    if text_eq(ty, "I32") {
        CodegenValueKind::I32
    } else if text_eq(ty, "F64") {
        CodegenValueKind::F64
    } else if text_eq(ty, "Bool") {
        CodegenValueKind::Bool
    } else if text_eq(ty, "Text") {
        CodegenValueKind::Text
    } else if text_eq(ty, "Bytes") {
        CodegenValueKind::Bytes
    } else if text_eq(ty, "TextBuilder") {
        CodegenValueKind::TextBuilder
    } else if text_eq(ty, "TextIndex") {
        CodegenValueKind::TextIndex
    } else if text_eq(ty, "File") {
        CodegenValueKind::File
    } else if text_eq(ty, "Unit") {
        CodegenValueKind::Unit
    } else if find_enum(program.enums.as_slice(), ty).is_some() {
        CodegenValueKind::Enum(String::from_str(ty))
    } else if find_struct(program.structs.as_slice(), ty).is_some() {
        CodegenValueKind::Record(String::from_str(ty))
    } else {
        CodegenValueKind::I32
    }
}

/// What C kind inference reads besides the instructions.
pub struct CEnv {
    pub func: Function,
    pub functions: Seq<Function>,
    pub externs: Seq<ExternFunction>,
    pub structs: Seq<StructType>,
    pub enums: Seq<EnumType>,
}

pub open spec fn c_env(func: Function, program: crate::mir::Program) -> CEnv {
    CEnv {
        func,
        functions: program.functions@,
        externs: program.externs@,
        structs: program.structs@,
        enums: program.enums@,
    }
}

pub open spec fn env_c_kind(env: CEnv, ty: Seq<char>) -> KindView {
    c_kind(ty, env.structs, env.enums)
}

/// The name of a declared return type, `Unit` when there is none.
pub open spec fn ret_or_unit(t: Option<String>) -> Seq<char> {
    match t {
        Some(s) => s@,
        None => "Unit"@,
    }
}

pub open spec fn first_extern_named(xs: Seq<ExternFunction>, name: Seq<char>) -> Option<ExternFunction>
    decreases xs.len(),
{
    if xs.len() == 0 {
        None
    } else if xs[0].name@ == name {
        Some(xs[0])
    } else {
        first_extern_named(xs.drop_first(), name)
    }
}

pub open spec fn first_struct_field(fs: Seq<StructField>, name: Seq<char>) -> Option<StructField>
    decreases fs.len(),
{
    if fs.len() == 0 {
        None
    } else if fs[0].name@ == name {
        Some(fs[0])
    } else {
        first_struct_field(fs.drop_first(), name)
    }
}

/// The kind of a field read: from the struct's declared field type, else an
/// integer.
pub open spec fn c_field_kind(env: CEnv, base: Option<KindView>, field: Seq<char>) -> KindView {
    match base {
        Some(KindView::Record(rn)) => match first_struct_named(env.structs, rn) {
            Some(s) => match first_struct_field(s.fields@, field) {
                Some(f) => env_c_kind(env, f.ty@),
                None => KindView::I32,
            },
            None => KindView::I32,
        },
        _ => KindView::I32,
    }
}

pub open spec fn or_i32(k: Option<KindView>) -> KindView {
    match k {
        Some(x) => x,
        None => KindView::I32,
    }
}

/// The kinds after one instruction, for the C backend.
pub open spec fn c_infer_inst(env: CEnv, inst: Inst, kinds: Map<u32, KindView>) -> Map<u32, KindView>
    decreases inst, 0nat,
{
    let f = env.func;
    match inst {
        Inst::LoadParam { dest, index } => kinds.insert(
            dest.0,
            env_c_kind(
                env,
                if index < f.params@.len() {
                    f.params@[index as int].ty@
                } else {
                    "I32"@
                },
            ),
        ),
        Inst::LoadLocal { dest, slot } => kinds.insert(
            dest.0,
            env_c_kind(
                env,
                match first_local_for(f.mutable_locals@, slot) {
                    Some(l) => l.ty@,
                    None => "I32"@,
                },
            ),
        ),
        Inst::ConstInt { dest, .. } | Inst::TextLen { dest, .. } | Inst::TextByte { dest, .. }
        | Inst::TextCmp { dest, .. } | Inst::TextEqRange { dest, .. }
        | Inst::TextFindByteRange { dest, .. } | Inst::ListLen { dest, .. } | Inst::ArgCount {
            dest,
        } | Inst::ParseI32 { dest, .. } | Inst::ParseI32Range { dest, .. } => kinds.insert(
            dest.0,
            KindView::I32,
        ),
        Inst::ConstBool { dest, .. } | Inst::And { dest, .. } | Inst::Or { dest, .. }
        | Inst::Eq { dest, .. } | Inst::Ne { dest, .. } | Inst::Lt { dest, .. } | Inst::Le {
            dest,
            ..
        } | Inst::Gt { dest, .. } | Inst::Ge { dest, .. } | Inst::EnumTagEq { dest, .. } => kinds.insert(
            dest.0,
            KindView::Bool,
        ),
        Inst::ConstText { dest, .. } | Inst::TextConcat { dest, .. } | Inst::TextSlice { dest, .. }
        | Inst::TextFromF64Fixed { dest, .. } | Inst::TextBuilderFinish { dest, .. }
        | Inst::ArgText { dest, .. } | Inst::StdinText { dest } => kinds.insert(
            dest.0,
            KindView::Text,
        ),
        Inst::ConstF64 { dest, .. } | Inst::Sqrt { dest, .. } | Inst::F64FromI32 { dest, .. }
        | Inst::ParseF64 { dest, .. } => kinds.insert(dest.0, KindView::F64),
        Inst::Add { dest, left, .. } | Inst::Sub { dest, left, .. } | Inst::Mul { dest, left, .. }
        | Inst::Div { dest, left, .. } => kinds.insert(dest.0, or_i32(kind_of(kinds, left))),
        Inst::TextBuilderNew { dest } | Inst::TextBuilderAppend { dest, .. }
        | Inst::TextBuilderAppendCodepoint { dest, .. } => kinds.insert(
            dest.0,
            KindView::TextBuilder,
        ),
        Inst::ListNew { dest, value, .. } => kinds.insert(
            dest.0,
            KindView::List(Box::new(or_i32(kind_of(kinds, value)))),
        ),
        Inst::ListSet { dest, list, .. } => kinds.insert(
            dest.0,
            match kind_of(kinds, list) {
                Some(k) => k,
                None => KindView::List(Box::new(KindView::I32)),
            },
        ),
        Inst::ListGet { dest, list, .. } => kinds.insert(
            dest.0,
            match kind_of(kinds, list) {
                Some(KindView::List(e)) => *e,
                _ => KindView::I32,
            },
        ),
        Inst::Call { dest, callee, .. } => kinds.insert(
            dest.0,
            match first_function_named_c(env.functions, callee@) {
                Some(c) => env_c_kind(env, ret_or_unit(c.return_type)),
                None => match first_extern_named(env.externs, callee@) {
                    Some(x) => env_c_kind(env, ret_or_unit(x.return_type)),
                    None => KindView::I32,
                },
            },
        ),
        Inst::MakeRecord { dest, name, .. } => kinds.insert(dest.0, KindView::Record(name@)),
        Inst::Field { dest, base, name } => kinds.insert(
            dest.0,
            c_field_kind(env, kind_of(kinds, base), name@),
        ),
        Inst::MakeEnum { dest, name, .. } => kinds.insert(dest.0, KindView::Enum(name@)),
        Inst::EnumPayload { dest, payload_type, .. } => kinds.insert(
            dest.0,
            env_c_kind(env, payload_type@),
        ),
        Inst::If { dest, then_insts, then_result, else_insts, .. } => {
            let k2 = c_infer_insts(env, else_insts@, c_infer_insts(env, then_insts@, kinds));
            kinds_after_if(k2, dest, then_result)
        },
        Inst::While { dest, condition_insts, body_insts, .. } => c_infer_insts(
            env,
            body_insts@,
            c_infer_insts(env, condition_insts@, kinds),
        ).insert(dest.0, KindView::I32),
        Inst::Repeat { dest, body_insts, .. } => c_infer_insts(env, body_insts@, kinds).insert(
            dest.0,
            KindView::I32,
        ),
        Inst::Handle { dest, body_insts, body_result, .. } => {
            let k1 = c_infer_insts(env, body_insts@, kinds);
            match body_result {
                Some(r) => match kind_of(k1, r) {
                    Some(k) => k1.insert(dest.0, k),
                    None => k1,
                },
                None => k1,
            }
        },
        Inst::Assert { .. } | Inst::StdoutWrite { .. } | Inst::AllocPush | Inst::AllocPop
        | Inst::StoreLocal { .. } | Inst::Perform { .. } => kinds,
    }
}

/// After an `if`: the destination takes the kind of the `then` result, or
/// `Unit`.
pub open spec fn kinds_after_if(k: Map<u32, KindView>, dest: ValueId, then_result: Option<ValueId>) -> Map<
    u32,
    KindView,
> {
    match then_result {
        Some(r) => match kind_of(k, r) {
            Some(x) => k.insert(dest.0, x),
            None => k.insert(dest.0, KindView::Unit),
        },
        None => k.insert(dest.0, KindView::Unit),
    }
}

pub open spec fn first_function_named_c(fs: Seq<Function>, name: Seq<char>) -> Option<Function> {
    crate::infer::first_function_named(fs, name)
}

/// The kinds after a sequence of instructions, for the C backend.
pub open spec fn c_infer_insts(env: CEnv, insts: Seq<Inst>, kinds: Map<u32, KindView>) -> Map<
    u32,
    KindView,
>
    decreases insts, 0nat,
{
    if insts.len() == 0 {
        kinds
    } else {
        c_infer_inst(env, insts[insts.len() - 1], c_infer_insts(env, insts.subrange(0, insts.len() - 1), kinds))
    }
}

} // verus!

verus! {

fn find_extern<'a>(xs: &'a [ExternFunction], name: &str) -> (r: Option<&'a ExternFunction>)
    ensures
        match first_extern_named(xs@, name@) {
            Some(x) => r matches Some(y) && *y == x,
            None => r is None,
        },
{
    let mut i: usize = 0;
    assert(xs@.skip(0) =~= xs@);
    while i < xs.len()
        invariant
            i <= xs.len(),
            first_extern_named(xs@, name@) == first_extern_named(xs@.skip(i as int), name@),
        decreases xs.len() - i,
    {
        assert(xs@.skip(i as int).drop_first() =~= xs@.skip(i + 1));
        if text_eq(xs[i].name.as_str(), name) {
            return Some(&xs[i]);
        }
        i = i + 1;
    }
    None
}

fn find_struct_field<'a>(fs: &'a Vec<StructField>, name: &str) -> (r: Option<&'a StructField>)
    ensures
        match first_struct_field(fs@, name@) {
            Some(x) => r matches Some(y) && *y == x,
            None => r is None,
        },
{
    let mut i: usize = 0;
    assert(fs@.skip(0) =~= fs@);
    while i < fs.len()
        invariant
            i <= fs.len(),
            first_struct_field(fs@, name@) == first_struct_field(fs@.skip(i as int), name@),
        decreases fs.len() - i,
    {
        assert(fs@.skip(i as int).drop_first() =~= fs@.skip(i + 1));
        if text_eq(fs[i].name.as_str(), name) {
            return Some(&fs[i]);
        }
        i = i + 1;
    }
    None
}

fn ret_name(t: &Option<String>) -> (r: &str)
    ensures
        r@ == ret_or_unit(*t),
{
    match t {
        Some(s) => s.as_str(),
        None => "Unit",
    }
}

/// Records the kind that one instruction gives its destination (see
/// `c_infer_inst`).
#[verifier::rlimit(60)]
fn infer_inst_kind_c(
    inst: &Inst,
    func: &Function,
    program: &crate::mir::Program,
    kinds: &mut KindMap,
) -> (r: Result<(), String>)
    ensures
        r is Ok,
        final(kinds)@ == c_infer_inst(c_env(*func, *program), *inst, old(kinds)@),
    decreases *inst, 1nat,
{
    match inst {
        Inst::LoadParam { dest, index } => {
            let ty = if *index < func.params.len() {
                func.params[*index].ty.as_str()
            } else {
                "I32"
            };
            kinds.insert(*dest, str_to_kind(ty, program));
        },
        Inst::LoadLocal { dest, slot } => {
            let ty = match func.mutable_local_type(*slot) {
                Some(t) => t,
                None => "I32",
            };
            kinds.insert(*dest, str_to_kind(ty, program));
        },
        Inst::ConstInt { dest, .. } | Inst::TextLen { dest, .. } | Inst::TextByte { dest, .. }
        | Inst::TextCmp { dest, .. } | Inst::TextEqRange { dest, .. }
        | Inst::TextFindByteRange { dest, .. } | Inst::ListLen { dest, .. } | Inst::ArgCount {
            dest,
        } | Inst::ParseI32 { dest, .. } | Inst::ParseI32Range { dest, .. } => {
            kinds.insert(*dest, CodegenValueKind::I32);
        },
        Inst::ConstBool { dest, .. } | Inst::And { dest, .. } | Inst::Or { dest, .. }
        | Inst::Eq { dest, .. } | Inst::Ne { dest, .. } | Inst::Lt { dest, .. } | Inst::Le {
            dest,
            ..
        } | Inst::Gt { dest, .. } | Inst::Ge { dest, .. } | Inst::EnumTagEq { dest, .. } => {
            kinds.insert(*dest, CodegenValueKind::Bool);
        },
        Inst::ConstText { dest, .. } | Inst::TextConcat { dest, .. } | Inst::TextSlice { dest, .. }
        | Inst::TextFromF64Fixed { dest, .. } | Inst::TextBuilderFinish { dest, .. }
        | Inst::ArgText { dest, .. } | Inst::StdinText { dest } => {
            kinds.insert(*dest, CodegenValueKind::Text);
        },
        Inst::ConstF64 { dest, .. } | Inst::Sqrt { dest, .. } | Inst::F64FromI32 { dest, .. }
        | Inst::ParseF64 { dest, .. } => {
            kinds.insert(*dest, CodegenValueKind::F64);
        },
        Inst::Add { dest, left, .. } | Inst::Sub { dest, left, .. } | Inst::Mul { dest, left, .. }
        | Inst::Div { dest, left, .. } => {
            let k = match kinds.get(*left) {
                Some(k) => crate::native::clone_kind(k),
                None => CodegenValueKind::I32,
            };
            kinds.insert(*dest, k);
        },
        Inst::TextBuilderNew { dest } | Inst::TextBuilderAppend { dest, .. }
        | Inst::TextBuilderAppendCodepoint { dest, .. } => {
            kinds.insert(*dest, CodegenValueKind::TextBuilder);
        },
        Inst::ListNew { dest, value, .. } => {
            let k = match kinds.get(*value) {
                Some(k) => crate::native::clone_kind(k),
                None => CodegenValueKind::I32,
            };
            kinds.insert(*dest, CodegenValueKind::List(Box::new(k)));
        },
        Inst::ListSet { dest, list, .. } => {
            let k = match kinds.get(*list) {
                Some(k) => crate::native::clone_kind(k),
                None => CodegenValueKind::List(Box::new(CodegenValueKind::I32)),
            };
            kinds.insert(*dest, k);
        },
        Inst::ListGet { dest, list, .. } => {
            let k = match kinds.get(*list) {
                Some(CodegenValueKind::List(e)) => crate::native::clone_kind(e),
                _ => CodegenValueKind::I32,
            };
            kinds.insert(*dest, k);
        },
        Inst::Call { dest, callee, .. } => {
            let k = match crate::infer::find_first_function(program.functions.as_slice(), callee.as_str()) {
                Some(c) => str_to_kind(ret_name(&c.return_type), program),
                None => match find_extern(program.externs.as_slice(), callee.as_str()) {
                    Some(x) => str_to_kind(ret_name(&x.return_type), program),
                    None => CodegenValueKind::I32,
                },
            };
            kinds.insert(*dest, k);
        },
        Inst::MakeRecord { dest, name, .. } => {
            kinds.insert(*dest, CodegenValueKind::Record(name.clone()));
        },
        Inst::Field { dest, base, name } => {
            let record_name = match kinds.get(*base) {
                Some(CodegenValueKind::Record(n)) => Some(n.clone()),
                _ => None,
            };
            let k = match record_name {
                Some(rn) => match find_struct(program.structs.as_slice(), rn.as_str()) {
                    Some(s) => match find_struct_field(&s.fields, name.as_str()) {
                        Some(f) => str_to_kind(f.ty.as_str(), program),
                        None => CodegenValueKind::I32,
                    },
                    None => CodegenValueKind::I32,
                },
                None => CodegenValueKind::I32,
            };
            kinds.insert(*dest, k);
        },
        Inst::MakeEnum { dest, name, .. } => {
            kinds.insert(*dest, CodegenValueKind::Enum(name.clone()));
        },
        Inst::EnumPayload { dest, payload_type, .. } => {
            kinds.insert(*dest, str_to_kind(payload_type.as_str(), program));
        },
        Inst::If { dest, then_insts, then_result, else_insts, .. } => {
            assert(decreases_to!(*inst => then_insts@));
            assert(decreases_to!(*inst => else_insts@));
            let _ = infer_insts_kind_c(then_insts.as_slice(), func, program, kinds);
            let _ = infer_insts_kind_c(else_insts.as_slice(), func, program, kinds);
            let k = match then_result {
                Some(r) => match kinds.get(*r) {
                    Some(k) => crate::native::clone_kind(k),
                    None => CodegenValueKind::Unit,
                },
                None => CodegenValueKind::Unit,
            };
            kinds.insert(*dest, k);
        },
        Inst::While { dest, condition_insts, body_insts, .. } => {
            assert(decreases_to!(*inst => condition_insts@));
            assert(decreases_to!(*inst => body_insts@));
            let _ = infer_insts_kind_c(condition_insts.as_slice(), func, program, kinds);
            let _ = infer_insts_kind_c(body_insts.as_slice(), func, program, kinds);
            kinds.insert(*dest, CodegenValueKind::I32);
        },
        Inst::Repeat { dest, body_insts, .. } => {
            assert(decreases_to!(*inst => body_insts@));
            let _ = infer_insts_kind_c(body_insts.as_slice(), func, program, kinds);
            kinds.insert(*dest, CodegenValueKind::I32);
        },
        Inst::Handle { dest, body_insts, body_result, .. } => {
            assert(decreases_to!(*inst => body_insts@));
            let _ = infer_insts_kind_c(body_insts.as_slice(), func, program, kinds);
            if let Some(r) = body_result {
                let k = match kinds.get(*r) {
                    Some(k) => Some(crate::native::clone_kind(k)),
                    None => None,
                };
                if let Some(k) = k {
                    kinds.insert(*dest, k);
                }
            }
        },
        Inst::Assert { .. } | Inst::StdoutWrite { .. } | Inst::AllocPush | Inst::AllocPop
        | Inst::StoreLocal { .. } | Inst::Perform { .. } => {},
    }
    Ok(())
}

/// Records the kinds of a sequence of instructions, in order.
fn infer_insts_kind_c(
    insts: &[Inst],
    func: &Function,
    program: &crate::mir::Program,
    kinds: &mut KindMap,
) -> (r: Result<(), String>)
    ensures
        r is Ok,
        final(kinds)@ == c_infer_insts(c_env(*func, *program), insts@, old(kinds)@),
    decreases insts@, 0nat,
{
    let ghost k0 = kinds@;
    let mut k: usize = 0;
    assert(insts@.subrange(0, 0) =~= Seq::<Inst>::empty());
    while k < insts.len()
        invariant
            k <= insts.len(),
            kinds@ == c_infer_insts(c_env(*func, *program), insts@.subrange(0, k as int), k0),
        decreases insts.len() - k,
    {
        let ghost pre = insts@.subrange(0, k + 1);
        assert(pre.subrange(0, pre.len() - 1) =~= insts@.subrange(0, k as int));
        assert(decreases_to!(insts@ => insts@[k as int]));
        let _ = infer_inst_kind_c(&insts[k], func, program, kinds);
        k = k + 1;
    }
    assert(insts@.subrange(0, insts@.len() as int) =~= insts@);
    Ok(())
}

/// The C kinds of the values of a function.
pub fn infer_value_kinds_for_func(func: &Function, program: &crate::mir::Program) -> (r: Result<
    KindMap,
    String,
>)
    ensures
        r matches Ok(m) && m@ == c_infer_insts(
            c_env(*func, *program),
            func.instructions@,
            Map::empty(),
        ),
{
    let mut kinds = KindMap::new();
    let _ = infer_insts_kind_c(func.instructions.as_slice(), func, program, &mut kinds);
    Ok(kinds)
}

} // verus!
