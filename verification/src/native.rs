//! Layout tables and value kinds for the native backend.
use vstd::prelude::*;

use crate::mir::{CodegenValueKind, ContractKind, EnumType, Program, StructType};
use crate::runtime::{le_byte, pow256};
use crate::text::{chars_of, text_eq};
use vstd::string::StringSliceAdditionalSpecFns;

verus! {

/// The kind of a value in native code.
pub type NativeValueKind = CodegenValueKind;

#[derive(Debug)]
pub struct NativeRecord {
    pub name: String,
    pub fields: Vec<NativeRecordField>,
    pub size: u32,
}

#[derive(Debug)]
pub struct NativeRecordField {
    pub name: String,
    pub kind: NativeValueKind,
    pub offset: u32,
}

#[derive(Debug)]
pub struct NativeEnum {
    pub variants: Vec<NativeEnumVariant>,
}

#[derive(Clone, Debug)]
pub struct NativeEnumVariant {
    pub name: String,
    pub payload_type: Option<String>,
}

/// A value kind with its names as character sequences.
pub enum KindView {
    Unit,
    I32,
    F64,
    Bool,
    Text,
    TextBuilder,
    List(Box<KindView>),
    Enum(Seq<char>),
    Record(Seq<char>),
    Bytes,
    TextIndex,
    File,
}

pub open spec fn kind_view(k: CodegenValueKind) -> KindView
    decreases k,
{
    match k {
        CodegenValueKind::Unit => KindView::Unit,
        CodegenValueKind::I32 => KindView::I32,
        CodegenValueKind::F64 => KindView::F64,
        CodegenValueKind::Bool => KindView::Bool,
        CodegenValueKind::Text => KindView::Text,
        CodegenValueKind::TextBuilder => KindView::TextBuilder,
        CodegenValueKind::List(e) => KindView::List(Box::new(kind_view(*e))),
        CodegenValueKind::Enum(n) => KindView::Enum(n@),
        CodegenValueKind::Record(n) => KindView::Record(n@),
        CodegenValueKind::Bytes => KindView::Bytes,
        CodegenValueKind::TextIndex => KindView::TextIndex,
        CodegenValueKind::File => KindView::File,
    }
}

/// A copy of a value kind.
pub fn clone_kind(k: &CodegenValueKind) -> (r: CodegenValueKind)
    ensures
        r == *k,
    decreases *k,
{
    match k {
        CodegenValueKind::Unit => CodegenValueKind::Unit,
        CodegenValueKind::I32 => CodegenValueKind::I32,
        CodegenValueKind::F64 => CodegenValueKind::F64,
        CodegenValueKind::Bool => CodegenValueKind::Bool,
        CodegenValueKind::Text => CodegenValueKind::Text,
        CodegenValueKind::TextBuilder => CodegenValueKind::TextBuilder,
        CodegenValueKind::List(e) => CodegenValueKind::List(Box::new(clone_kind(e))),
        CodegenValueKind::Enum(n) => CodegenValueKind::Enum(n.clone()),
        CodegenValueKind::Record(n) => CodegenValueKind::Record(n.clone()),
        CodegenValueKind::Bytes => CodegenValueKind::Bytes,
        CodegenValueKind::TextIndex => CodegenValueKind::TextIndex,
        CodegenValueKind::File => CodegenValueKind::File,
    }
}

/// The trap code that a failed contract check of the kind raises.
pub fn contract_trap_code(kind: ContractKind) -> (r: u8)
    ensures
        r == match kind {
            ContractKind::Requires => 1u8,
            ContractKind::Ensures => 2u8,
            ContractKind::Bounds => 3u8,
        },
{
    match kind {
        ContractKind::Requires => 1,
        ContractKind::Ensures => 2,
        ContractKind::Bounds => 3,
    }
}

/// The eight little-endian bytes of `n`.
pub open spec fn u64_le_bytes(n: u64) -> Seq<u8> {
    Seq::new(8, |i: int| le_byte(n, i as nat))
}

/// The in-memory form of a text constant: its byte length as eight
/// little-endian bytes, then its UTF-8 bytes.
pub fn encode_text_blob(value: &str) -> (r: Vec<u8>)
    ensures
        r@ == u64_le_bytes(value.spec_bytes().len() as u64) + value.spec_bytes(),
{
    let bytes = value.as_bytes();
    let len = bytes.len() as u64;
    let mut out: Vec<u8> = Vec::new();
    let mut rest: u64 = len;
    let mut i: u64 = 0;
    assert(pow256(0) == 1);
    while i < 8
        invariant
            i <= 8,
            out@ == u64_le_bytes(len).take(i as int),
            rest as nat == len as nat / pow256(i as nat),
        decreases 8 - i,
    {
        let b = (rest % 256) as u8;
        out.push(b);
        proof {
            assert(pow256((i + 1) as nat) == 256 * pow256(i as nat));
            crate::runtime::lemma_pow256_positive(i as nat);
            vstd::arithmetic::div_mod::lemma_div_denominator(
                len as int,
                pow256(i as nat) as int,
                256,
            );
            assert(pow256(i as nat) * 256 == 256 * pow256(i as nat)) by (nonlinear_arith);
            assert(out@ =~= u64_le_bytes(len).take(i + 1));
        }
        rest = rest / 256;
        i = i + 1;
    }
    assert(out@ =~= u64_le_bytes(len));
    let mut k: usize = 0;
    let ghost head = out@;
    while k < bytes.len()
        invariant
            k <= bytes.len(),
            bytes@ == value.spec_bytes(),
            out@ == head + bytes@.take(k as int),
        decreases bytes.len() - k,
    {
        out.push(bytes[k]);
        assert(bytes@.take(k + 1) =~= bytes@.take(k as int).push(bytes@[k as int]));
        k = k + 1;
    }
    assert(bytes@.take(bytes.len() as int) =~= bytes@);
    out
}

/// Whether no variant of the enum carries a payload.
pub fn native_enum_is_payload_free(enum_ty: &NativeEnum) -> (r: bool)
    ensures
        r == forall|i: int| 0 <= i < enum_ty.variants@.len() ==> (#[trigger] enum_ty.variants@[i]).payload_type is None,
{
    let mut i: usize = 0;
    while i < enum_ty.variants.len()
        invariant
            i <= enum_ty.variants.len(),
            forall|k: int| 0 <= k < i ==> (#[trigger] enum_ty.variants@[k]).payload_type is None,
        decreases enum_ty.variants.len() - i,
    {
        if enum_ty.variants[i].payload_type.is_some() {
            return false;
        }
        i = i + 1;
    }
    true
}

/// The position of the first variant with the given name.
pub fn native_enum_variant_index(enum_ty: &NativeEnum, name: &str) -> (r: Option<usize>)
    ensures
        match r {
            Some(i) => i < enum_ty.variants@.len() && enum_ty.variants@[i as int].name@ == name@
                && forall|k: int| 0 <= k < i ==> (#[trigger] enum_ty.variants@[k]).name@ != name@,
            None => forall|k: int| 0 <= k < enum_ty.variants@.len() ==> (#[trigger] enum_ty.variants@[k]).name@ != name@,
        },
{
    let mut i: usize = 0;
    while i < enum_ty.variants.len()
        invariant
            i <= enum_ty.variants.len(),
            forall|k: int| 0 <= k < i ==> (#[trigger] enum_ty.variants@[k]).name@ != name@,
        decreases enum_ty.variants.len() - i,
    {
        if text_eq(enum_ty.variants[i].name.as_str(), name) {
            return Some(i);
        }
        i = i + 1;
    }
    None
}

/// The native entry describes the enum: same name, same variants.
pub open spec fn enum_entry_matches(entry: (String, NativeEnum), e: EnumType) -> bool {
    &&& entry.0@ == e.name@
    &&& entry.1.variants@.len() == e.variants@.len()
    &&& forall|j: int|
        0 <= j < e.variants@.len() ==> #[trigger] entry.1.variants@[j].name@ == e.variants@[j].name@
            && entry.1.variants@[j].payload_type == e.variants@[j].payload_type
}

/// The native form of each enum of the program, with its name.
pub fn collect_native_enums(program: &Program) -> (r: Vec<(String, NativeEnum)>)
    ensures
        r@.len() == program.enums@.len(),
        forall|i: int| 0 <= i < r@.len() ==> enum_entry_matches(#[trigger] r@[i], program.enums@[i]),
{
    let mut out: Vec<(String, NativeEnum)> = Vec::new();
    let mut i: usize = 0;
    while i < program.enums.len()
        invariant
            i <= program.enums.len(),
            out@.len() == i,
            forall|k: int| 0 <= k < i ==> enum_entry_matches(#[trigger] out@[k], program.enums@[k]),
        decreases program.enums.len() - i,
    {
        let e = &program.enums[i];
        let mut variants: Vec<NativeEnumVariant> = Vec::new();
        let mut j: usize = 0;
        while j < e.variants.len()
            invariant
                j <= e.variants.len(),
                variants@.len() == j,
                forall|m: int|
                    #![trigger variants@[m]]
                    0 <= m < j ==> variants@[m].name@ == e.variants@[m].name@
                        && variants@[m].payload_type == e.variants@[m].payload_type,
            decreases e.variants.len() - j,
        {
            let v = &e.variants[j];
            let payload = match &v.payload_type {
                Some(p) => Some(p.clone()),
                None => None,
            };
            let ghost before = variants@;
            variants.push(NativeEnumVariant { name: v.name.clone(), payload_type: payload });
            assert(forall|m: int| 0 <= m < j ==> variants@[m] == before[m]);
            assert(variants@[j as int].name@ == e.variants@[j as int].name@);
            assert(variants@[j as int].payload_type == e.variants@[j as int].payload_type);
            j = j + 1;
        }
        let entry = (e.name.clone(), NativeEnum { variants });
        assert(enum_entry_matches(entry, program.enums@[i as int]));
        out.push(entry);
        i = i + 1;
    }
    out
}

/// The byte offset of the field at `index` of a record: eight bytes per
/// field, within 32-bit limits.
pub fn record_offset(index: usize) -> (r: Result<u32, String>)
    ensures
        match r {
            Ok(v) => index * 8 <= u32::MAX && v == index * 8,
            Err(e) => if index > u32::MAX {
                e@ == "record index exceeds stage-0 limits"@
            } else {
                index * 8 > u32::MAX && e@ == "record offset exceeds stage-0 limits"@
            },
        },
{
    if index > 4294967295 {
        return Err(String::from_str("record index exceeds stage-0 limits"));
    }
    let i = index as u32;
    match i.checked_mul(8) {
        Some(v) => Ok(v),
        None => Err(String::from_str("record offset exceeds stage-0 limits")),
    }
}

} // verus!

verus! {

/// `List[element]`.
pub open spec fn is_list_type(name: Seq<char>) -> bool {
    name.len() >= 6 && name.subrange(0, 5) == "List["@ && name.last() == ']'
}

pub open spec fn unsupported_type_message(name: Seq<char>) -> Seq<char> {
    "native backend does not support values of type `"@ + name + "` in stage-0"@
}

/// The native kind of values of the named type, given the names of the
/// records and enums in scope (enums take precedence).
pub open spec fn spec_native_kind(
    name: Seq<char>,
    record_names: Seq<Seq<char>>,
    enum_names: Seq<Seq<char>>,
) -> Result<KindView, Seq<char>>
    decreases name.len(),
{
    if is_list_type(name) {
        match spec_native_kind(name.subrange(5, name.len() - 1), record_names, enum_names) {
            Ok(k) => Ok(KindView::List(Box::new(k))),
            Err(e) => Err(e),
        }
    } else if name == "I32"@ {
        Ok(KindView::I32)
    } else if name == "F64"@ {
        Ok(KindView::F64)
    } else if name == "Bool"@ {
        Ok(KindView::Bool)
    } else if name == "Text"@ {
        Ok(KindView::Text)
    } else if name == "TextBuilder"@ {
        Ok(KindView::TextBuilder)
    } else if name == "List"@ {
        Ok(KindView::List(Box::new(KindView::F64)))
    } else if name == "Unit"@ {
        Err("unit should be represented as an omitted native value type"@)
    } else if enum_names.contains(name) {
        Ok(KindView::Enum(name))
    } else if record_names.contains(name) {
        Ok(KindView::Record(name))
    } else {
        Err(unsupported_type_message(name))
    }
}

pub open spec fn record_names(records: Seq<NativeRecord>) -> Seq<Seq<char>> {
    records.map_values(|r: NativeRecord| r.name@)
}

pub open spec fn enum_names(enums: Seq<(String, NativeEnum)>) -> Seq<Seq<char>> {
    enums.map_values(|e: (String, NativeEnum)| e.0@)
}

pub open spec fn kind_result_view(r: Result<NativeValueKind, String>) -> Result<KindView, Seq<char>> {
    match r {
        Ok(k) => Ok(kind_view(k)),
        Err(e) => Err(e@),
    }
}

fn has_record(records: &[NativeRecord], name: &str) -> (r: bool)
    ensures
        r == record_names(records@).contains(name@),
{
    let mut i: usize = 0;
    while i < records.len()
        invariant
            i <= records.len(),
            forall|k: int| 0 <= k < i ==> (#[trigger] records@[k]).name@ != name@,
        decreases records.len() - i,
    {
        if text_eq(records[i].name.as_str(), name) {
            assert(record_names(records@)[i as int] == name@);
            return true;
        }
        i = i + 1;
    }
    assert(!record_names(records@).contains(name@)) by {
        if record_names(records@).contains(name@) {
            let k = choose|k: int| 0 <= k < record_names(records@).len() && record_names(records@)[k] == name@;
            assert(records@[k].name@ == name@);
        }
    }
    false
}

fn has_enum(enums: &[(String, NativeEnum)], name: &str) -> (r: bool)
    ensures
        r == enum_names(enums@).contains(name@),
{
    let mut i: usize = 0;
    while i < enums.len()
        invariant
            i <= enums.len(),
            forall|k: int| 0 <= k < i ==> (#[trigger] enums@[k]).0@ != name@,
        decreases enums.len() - i,
    {
        if text_eq(enums[i].0.as_str(), name) {
            assert(enum_names(enums@)[i as int] == name@);
            return true;
        }
        i = i + 1;
    }
    assert(!enum_names(enums@).contains(name@)) by {
        if enum_names(enums@).contains(name@) {
            let k = choose|k: int| 0 <= k < enum_names(enums@).len() && enum_names(enums@)[k] == name@;
            assert(enums@[k].0@ == name@);
        }
    }
    false
}

pub(crate) fn list_element<'a>(name: &'a str) -> (r: Option<&'a str>)
    ensures
        match r {
            Some(e) => is_list_type(name@) && e@ == name@.subrange(5, name@.len() - 1),
            None => !is_list_type(name@),
        },
{
    let cs = chars_of(name);
    let n = cs.len();
    if n < 6 {
        return None;
    }
    proof {
        reveal_strlit("List[");
    }
    if cs[0] == 'L' && cs[1] == 'i' && cs[2] == 's' && cs[3] == 't' && cs[4] == '[' && cs[n - 1] == ']' {
        assert(name@.subrange(0, 5) =~= "List["@);
        Some(name.substring_char(5, n - 1))
    } else {
        assert(name@.subrange(0, 5)[0] == name@[0]);
        assert(name@.subrange(0, 5)[1] == name@[1]);
        assert(name@.subrange(0, 5)[2] == name@[2]);
        assert(name@.subrange(0, 5)[3] == name@[3]);
        assert(name@.subrange(0, 5)[4] == name@[4]);
        None
    }
}

/// The native kind of values of the named type (see `spec_native_kind`).
pub fn native_value_kind(name: &str, records: &[NativeRecord], enums: &[(String, NativeEnum)]) -> (r: Result<NativeValueKind, String>)
    ensures
        kind_result_view(r) == spec_native_kind(name@, record_names(records@), enum_names(enums@)),
    decreases name@.len(),
{
    if let Some(element) = list_element(name) {
        let k = native_value_kind(element, records, enums)?;
        return Ok(CodegenValueKind::List(Box::new(k)));
    }
    if text_eq(name, "I32") {
        Ok(CodegenValueKind::I32)
    } else if text_eq(name, "F64") {
        Ok(CodegenValueKind::F64)
    } else if text_eq(name, "Bool") {
        Ok(CodegenValueKind::Bool)
    } else if text_eq(name, "Text") {
        Ok(CodegenValueKind::Text)
    } else if text_eq(name, "TextBuilder") {
        Ok(CodegenValueKind::TextBuilder)
    } else if text_eq(name, "List") {
        Ok(CodegenValueKind::List(Box::new(CodegenValueKind::F64)))
    } else if text_eq(name, "Unit") {
        Err(String::from_str("unit should be represented as an omitted native value type"))
    } else if has_enum(enums, name) {
        Ok(CodegenValueKind::Enum(String::from_str(name)))
    } else if has_record(records, name) {
        Ok(CodegenValueKind::Record(String::from_str(name)))
    } else {
        let mut msg = String::from_str("native backend does not support values of type `");
        msg.append(name);
        msg.append("` in stage-0");
        Err(msg)
    }
}

} // verus!

verus! {

pub struct FieldView {
    pub name: Seq<char>,
    pub kind: KindView,
    pub offset: u32,
}

pub struct RecordView {
    pub name: Seq<char>,
    pub fields: Seq<FieldView>,
    pub size: u32,
}

pub open spec fn field_view(f: NativeRecordField) -> FieldView {
    FieldView { name: f.name@, kind: kind_view(f.kind), offset: f.offset }
}

pub open spec fn record_view(r: NativeRecord) -> RecordView {
    RecordView {
        name: r.name@,
        fields: r.fields@.map_values(|f: NativeRecordField| field_view(f)),
        size: r.size,
    }
}

pub open spec fn offset_result(index: int) -> Result<u32, Seq<char>> {
    if index > u32::MAX {
        Err("record index exceeds stage-0 limits"@)
    } else if index * 8 > u32::MAX {
        Err("record offset exceeds stage-0 limits"@)
    } else {
        Ok((index * 8) as u32)
    }
}

/// The layout of the first `n` fields of a record: the first error, or one
/// view per field.
pub open spec fn fields_result(
    fields: Seq<crate::mir::StructField>,
    n: int,
    rn: Seq<Seq<char>>,
    en: Seq<Seq<char>>,
) -> Result<Seq<FieldView>, Seq<char>>
    decreases n,
{
    if n <= 0 {
        Ok(Seq::empty())
    } else {
        match fields_result(fields, n - 1, rn, en) {
            Err(e) => Err(e),
            Ok(prev) => match offset_result(n - 1) {
                Err(e) => Err(e),
                Ok(off) => match spec_native_kind(fields[n - 1].ty@, rn, en) {
                    Err(e) => Err(e),
                    Ok(k) => Ok(prev.push(FieldView { name: fields[n - 1].name@, kind: k, offset: off })),
                },
            },
        }
    }
}

proof fn lemma_fields_err_sticks(
    fields: Seq<crate::mir::StructField>,
    m: int,
    n: int,
    rn: Seq<Seq<char>>,
    en: Seq<Seq<char>>,
)
    requires
        0 <= m <= n,
        fields_result(fields, m, rn, en) is Err,
    ensures
        fields_result(fields, n, rn, en) == fields_result(fields, m, rn, en),
    decreases n - m,
{
    if n > m {
        lemma_fields_err_sticks(fields, m, n - 1, rn, en);
    }
}

pub open spec fn record_result(s: StructType, rn: Seq<Seq<char>>, en: Seq<Seq<char>>) -> Result<
    RecordView,
    Seq<char>,
> {
    match fields_result(s.fields@, s.fields@.len() as int, rn, en) {
        Err(e) => Err(e),
        Ok(fs) => if fs.len() > u32::MAX {
            Err("record `"@ + s.name@ + "` exceeds stage-0 field limits"@)
        } else if fs.len() * 8 > u32::MAX {
            Err("record `"@ + s.name@ + "` exceeds stage-0 size limits"@)
        } else {
            Ok(RecordView { name: s.name@, fields: fs, size: (fs.len() * 8) as u32 })
        },
    }
}

/// The layouts of the first `n` structs: the first error, or one layout per
/// struct.
pub open spec fn records_result(
    structs: Seq<StructType>,
    n: int,
    rn: Seq<Seq<char>>,
    en: Seq<Seq<char>>,
) -> Result<Seq<RecordView>, Seq<char>>
    decreases n,
{
    if n <= 0 {
        Ok(Seq::empty())
    } else {
        match records_result(structs, n - 1, rn, en) {
            Err(e) => Err(e),
            Ok(prev) => match record_result(structs[n - 1], rn, en) {
                Err(e) => Err(e),
                Ok(r) => Ok(prev.push(r)),
            },
        }
    }
}

proof fn lemma_records_err_sticks(
    structs: Seq<StructType>,
    m: int,
    n: int,
    rn: Seq<Seq<char>>,
    en: Seq<Seq<char>>,
)
    requires
        0 <= m <= n,
        records_result(structs, m, rn, en) is Err,
    ensures
        records_result(structs, n, rn, en) == records_result(structs, m, rn, en),
    decreases n - m,
{
    if n > m {
        lemma_records_err_sticks(structs, m, n - 1, rn, en);
    }
}

proof fn lemma_records_err_sticks_if(
    structs: Seq<StructType>,
    m: int,
    n: int,
    rn: Seq<Seq<char>>,
    en: Seq<Seq<char>>,
)
    requires
        0 <= m <= n,
    ensures
        records_result(structs, m, rn, en) is Err ==> records_result(structs, n, rn, en)
            == records_result(structs, m, rn, en),
{
    if records_result(structs, m, rn, en) is Err {
        lemma_records_err_sticks(structs, m, n, rn, en);
    }
}

pub open spec fn struct_names(structs: Seq<StructType>) -> Seq<Seq<char>> {
    structs.map_values(|s: StructType| s.name@)
}

pub open spec fn program_enum_names(enums: Seq<EnumType>) -> Seq<Seq<char>> {
    enums.map_values(|e: EnumType| e.name@)
}

fn native_record_fields(
    s: &StructType,
    stubs: &[NativeRecord],
    enums: &[(String, NativeEnum)],
) -> (r: Result<Vec<NativeRecordField>, String>)
    ensures
        match r {
            Ok(v) => fields_result(s.fields@, s.fields@.len() as int, record_names(stubs@), enum_names(enums@))
                == Ok::<Seq<FieldView>, Seq<char>>(v@.map_values(|f: NativeRecordField| field_view(f))),
            Err(e) => fields_result(s.fields@, s.fields@.len() as int, record_names(stubs@), enum_names(enums@))
                == Err::<Seq<FieldView>, Seq<char>>(e@),
        },
{
    let ghost rn = record_names(stubs@);
    let ghost en = enum_names(enums@);
    let mut out: Vec<NativeRecordField> = Vec::new();
    let mut j: usize = 0;
    assert(out@.map_values(|f: NativeRecordField| field_view(f)) =~= Seq::<FieldView>::empty());
    while j < s.fields.len()
        invariant
            j <= s.fields.len(),
            rn == record_names(stubs@),
            en == enum_names(enums@),
            fields_result(s.fields@, j as int, rn, en) == Ok::<Seq<FieldView>, Seq<char>>(
                out@.map_values(|f: NativeRecordField| field_view(f)),
            ),
        decreases s.fields.len() - j,
    {
        let offset = match record_offset(j) {
            Ok(o) => o,
            Err(e) => {
                proof {
                    lemma_fields_err_sticks(s.fields@, j + 1, s.fields@.len() as int, rn, en);
                }
                return Err(e);
            },
        };
        let kind = match native_value_kind(s.fields[j].ty.as_str(), stubs, enums) {
            Ok(k) => k,
            Err(e) => {
                proof {
                    lemma_fields_err_sticks(s.fields@, j + 1, s.fields@.len() as int, rn, en);
                }
                return Err(e);
            },
        };
        let ghost before = out@;
        out.push(NativeRecordField { name: s.fields[j].name.clone(), kind, offset });
        assert(out@.map_values(|f: NativeRecordField| field_view(f)) =~= before.map_values(
            |f: NativeRecordField| field_view(f),
        ).push(field_view(out@[before.len() as int])));
        j = j + 1;
    }
    Ok(out)
}

/// The native layout of every record of the program: one entry per struct,
/// in order, each field eight bytes at its index; or the first error.
/// Field kinds are resolved against the names of all structs and enums.
pub fn collect_native_records(program: &Program) -> (r: Result<Vec<NativeRecord>, String>)
    ensures
        match r {
            Ok(v) => records_result(
                program.structs@,
                program.structs@.len() as int,
                struct_names(program.structs@),
                program_enum_names(program.enums@),
            ) == Ok::<Seq<RecordView>, Seq<char>>(v@.map_values(|x: NativeRecord| record_view(x))),
            Err(e) => records_result(
                program.structs@,
                program.structs@.len() as int,
                struct_names(program.structs@),
                program_enum_names(program.enums@),
            ) == Err::<Seq<RecordView>, Seq<char>>(e@),
        },
{
    let enums = collect_native_enums(program);
    let ghost en = program_enum_names(program.enums@);
    assert(enum_names(enums@) =~= en) by {
        assert forall|i: int| 0 <= i < enums@.len() implies enum_names(enums@)[i] == en[i] by {
            assert(enum_entry_matches(enums@[i], program.enums@[i]));
        }
    }
    let mut stubs: Vec<NativeRecord> = Vec::new();
    let mut i: usize = 0;
    while i < program.structs.len()
        invariant
            i <= program.structs.len(),
            record_names(stubs@) =~= struct_names(program.structs@).take(i as int),
        decreases program.structs.len() - i,
    {
        stubs.push(NativeRecord { name: program.structs[i].name.clone(), fields: Vec::new(), size: 0 });
        assert(struct_names(program.structs@).take(i + 1) =~= struct_names(program.structs@).take(i as int).push(program.structs@[i as int].name@));
        i = i + 1;
    }
    assert(struct_names(program.structs@).take(program.structs.len() as int) =~= struct_names(program.structs@));
    let ghost rn = struct_names(program.structs@);
    let mut out: Vec<NativeRecord> = Vec::new();
    let mut k: usize = 0;
    assert(out@.map_values(|x: NativeRecord| record_view(x)) =~= Seq::<RecordView>::empty());
    while k < program.structs.len()
        invariant
            k <= program.structs.len(),
            record_names(stubs@) == rn,
            enum_names(enums@) == en,
            rn == struct_names(program.structs@),
            en == program_enum_names(program.enums@),
            records_result(program.structs@, k as int, rn, en) == Ok::<Seq<RecordView>, Seq<char>>(
                out@.map_values(|x: NativeRecord| record_view(x)),
            ),
        decreases program.structs.len() - k,
    {
        let s = &program.structs[k];
        let fields = match native_record_fields(s, stubs.as_slice(), enums.as_slice()) {
            Ok(f) => f,
            Err(e) => {
                proof {
                    lemma_records_err_sticks(program.structs@, k + 1, program.structs@.len() as int, rn, en);
                }
                return Err(e);
            },
        };
        proof {
            lemma_records_err_sticks_if(program.structs@, k + 1, program.structs@.len() as int, rn, en);
        }
        if fields.len() > 4294967295 {
            let mut msg = String::from_str("record `");
            msg.append(s.name.as_str());
            msg.append("` exceeds stage-0 field limits");
            return Err(msg);
        }
        let n = fields.len() as u32;
        let size = match n.checked_mul(8) {
            Some(v) => v,
            None => {
                let mut msg = String::from_str("record `");
                msg.append(s.name.as_str());
                msg.append("` exceeds stage-0 size limits");
                return Err(msg);
            },
        };
        let ghost before = out@;
        let rec = NativeRecord { name: s.name.clone(), fields, size };
        assert(record_result(*s, rn, en) == Ok::<RecordView, Seq<char>>(record_view(rec)));
        out.push(rec);
        assert(out@.map_values(|x: NativeRecord| record_view(x)) =~= before.map_values(
            |x: NativeRecord| record_view(x),
        ).push(record_view(rec)));
        k = k + 1;
    }
    Ok(out)
}

} // verus!
