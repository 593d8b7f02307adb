//! Values of the IR interpreter and what the library computes on them.
use vstd::prelude::*;

use crate::lower_type::{array_field_name, array_field_text, lt_view, LowerType, LowerTypeView};
use crate::pretty::float_text;
use crate::text::{int_text, join_seq, push_i64, starts_with_text, text_eq, text_starts_with};

verus! {

/// A value computed by the interpreter. A float is held by its IEEE-754
/// bits.
#[derive(Debug)]
pub enum RuntimeValue {
    Int(i64),
    F64(u64),
    Bool(bool),
    Text(String),
    TextBuilder(u64),
    List(u64),
    Enum(RuntimeEnum),
    Record(RuntimeRecord),
    Unit,
}

#[derive(Debug)]
pub struct RuntimeEnum {
    pub name: String,
    pub variant: String,
    pub payload: Option<Box<RuntimeValue>>,
}

#[derive(Debug)]
pub struct RuntimeRecord {
    pub name: String,
    pub fields: Vec<(String, RuntimeValue)>,
}

/// Why evaluation stopped: a message, or an effect that no handler took.
#[derive(Debug)]
pub enum RuntimeError {
    Message(String),
    EffectUnwind { effect: String, operation: String, args: Vec<RuntimeValue> },
}

impl RuntimeError {
    pub fn new(message: String) -> (r: RuntimeError)
        ensures
            r == RuntimeError::Message(message),
    {
        RuntimeError::Message(message)
    }
}

/// The lowered type of a value; a record laid out as an array of same-typed
/// elements is an array.
pub open spec fn value_lower_type(v: RuntimeValue) -> LowerTypeView
    decreases v, 2nat, 0nat,
{
    match v {
        RuntimeValue::Int(_) => LowerTypeView::I32,
        RuntimeValue::F64(_) => LowerTypeView::F64,
        RuntimeValue::Bool(_) => LowerTypeView::Bool,
        RuntimeValue::Text(_) => LowerTypeView::Text,
        RuntimeValue::TextBuilder(_) => LowerTypeView::TextBuilder,
        RuntimeValue::List(_) => LowerTypeView::List(Box::new(LowerTypeView::Error)),
        RuntimeValue::Enum(e) => LowerTypeView::Named(e.name@),
        RuntimeValue::Record(r) => match array_info(r) {
            Some((t, n)) => LowerTypeView::Array(Box::new(t), n),
            None => LowerTypeView::Named(r.name@),
        },
        RuntimeValue::Unit => LowerTypeView::Unit,
    }
}

/// Whether the fields from `i` on have the element type `t`.
pub open spec fn fields_typed(r: RuntimeRecord, i: nat, t: LowerTypeView) -> bool
    decreases r, 0nat, r.fields@.len() - i,
{
    if i >= r.fields@.len() {
        true
    } else {
        value_lower_type(r.fields@[i as int].1) == t && fields_typed(r, i + 1, t)
    }
}

/// Whether every field is named `slot0`, `slot1`, ... in order.
pub open spec fn slot_names(fields: Seq<(String, RuntimeValue)>) -> bool {
    forall|i: int| 0 <= i < fields.len() ==> (#[trigger] fields[i]).0@ == array_field_text(i as nat)
}

/// The element type and length of a record that stands for an array: a
/// record named `__Array_...` whose fields are `slot0..` of one type.
pub open spec fn array_info(r: RuntimeRecord) -> Option<(LowerTypeView, usize)>
    decreases r, 1nat, 0nat,
{
    if starts_with_text(r.name@, "__Array_"@) && r.fields@.len() > 0 && slot_names(r.fields@) {
        let t = value_lower_type(r.fields@[0].1);
        if fields_typed(r, 1, t) {
            Some((t, r.fields.len()))
        } else {
            None
        }
    } else {
        None
    }
}

pub fn runtime_value_lower_type(value: &RuntimeValue) -> (r: LowerType)
    ensures
        lt_view(r) == value_lower_type(*value),
    decreases *value, 2nat, 0nat,
{
    match value {
        RuntimeValue::Int(_) => LowerType::I32,
        RuntimeValue::F64(_) => LowerType::F64,
        RuntimeValue::Bool(_) => LowerType::Bool,
        RuntimeValue::Text(_) => LowerType::Text,
        RuntimeValue::TextBuilder(_) => LowerType::TextBuilder,
        RuntimeValue::List(_) => {
            assert(lt_view(LowerType::Error) == LowerTypeView::Error);
            LowerType::List(Box::new(LowerType::Error))
        },
        RuntimeValue::Enum(e) => LowerType::Named(e.name.clone()),
        RuntimeValue::Record(r) => match synthetic_array_record_info(r) {
            Some((t, n)) => LowerType::Array(Box::new(t), n),
            None => LowerType::Named(r.name.clone()),
        },
        RuntimeValue::Unit => LowerType::Unit,
    }
}

/// The element type and length of a record that stands for an array (see
/// `array_info`).
pub fn synthetic_array_record_info(record: &RuntimeRecord) -> (r: Option<(LowerType, usize)>)
    ensures
        match array_info(*record) {
            Some((t, n)) => r matches Some((x, m)) && lt_view(x) == t && m == n,
            None => r is None,
        },
    decreases *record, 1nat, 0nat,
{
    if !text_starts_with(record.name.as_str(), "__Array_") || record.fields.len() == 0 {
        return None;
    }
    let mut i: usize = 0;
    while i < record.fields.len()
        invariant
            i <= record.fields.len(),
            forall|k: int| 0 <= k < i ==> (#[trigger] record.fields@[k]).0@ == array_field_text(k as nat),
        decreases record.fields.len() - i,
    {
        let expected = array_field_name(i);
        if !text_eq(record.fields[i].0.as_str(), expected.as_str()) {
            assert(!slot_names(record.fields@)) by {
                assert(record.fields@[i as int].0@ != array_field_text(i as nat));
            }
            return None;
        }
        i = i + 1;
    }
    assert(slot_names(record.fields@));
    assert(decreases_to!(*record => record.fields@[0].1));
    let element_ty = runtime_value_lower_type(&record.fields[0].1);
    let mut j: usize = record.fields.len();
    while j > 1
        invariant
            1 <= j <= record.fields.len(),
            lt_view(element_ty) == value_lower_type(record.fields@[0].1),
            fields_typed(*record, j as nat, lt_view(element_ty)),
        decreases j,
    {
        assert(decreases_to!(*record => record.fields@[j - 1].1));
        let t = runtime_value_lower_type(&record.fields[j - 1].1);
        if !crate::lower_type::lower_type_eq(&t, &element_ty) {
            proof {
                lemma_fields_typed_fails(*record, 1, (j - 1) as nat, lt_view(element_ty));
            }
            return None;
        }
        j = j - 1;
    }
    Some((element_ty, record.fields.len()))
}

/// A field of the wrong type makes every earlier start fail.
proof fn lemma_fields_typed_fails(r: RuntimeRecord, i: nat, k: nat, t: LowerTypeView)
    requires
        i <= k < r.fields@.len(),
        value_lower_type(r.fields@[k as int].1) != t,
    ensures
        !fields_typed(r, i, t),
    decreases k - i,
{
    if i < k {
        lemma_fields_typed_fails(r, i + 1, k, t);
    }
}

} // verus!

verus! {

/// The text of a value: floats by the text `floats` gives their bits.
pub open spec fn render_text(v: RuntimeValue, floats: Seq<(u64, String)>) -> Seq<char>
    decreases v, 2nat, 0nat,
{
    match v {
        RuntimeValue::Int(i) => int_text(i as int),
        RuntimeValue::F64(b) => float_text(floats, b),
        RuntimeValue::Bool(b) => if b {
            "true"@
        } else {
            "false"@
        },
        RuntimeValue::Text(t) => t@,
        RuntimeValue::TextBuilder(_) => "<text-builder>"@,
        RuntimeValue::List(_) => "<list>"@,
        RuntimeValue::Enum(e) => match e.payload {
            Some(p) => e.name@ + "."@ + e.variant@ + "("@ + render_text(*p, floats) + ")"@,
            None => e.name@ + "."@ + e.variant@,
        },
        RuntimeValue::Record(r) => record_text(r, floats),
        RuntimeValue::Unit => "unit"@,
    }
}

/// An array record as `[a, b]`; another record as `Name{x: a, y: b}`.
pub open spec fn record_text(r: RuntimeRecord, floats: Seq<(u64, String)>) -> Seq<char>
    decreases r, 1nat, 0nat,
{
    if array_info(r) is Some {
        "["@ + items_text(r, r.fields@.len(), floats, true) + "]"@
    } else {
        r.name@ + "{"@ + items_text(r, r.fields@.len(), floats, false) + "}"@
    }
}

/// The first `n` fields, separated by `, `: values alone, or `name: value`.
pub open spec fn items_text(r: RuntimeRecord, n: nat, floats: Seq<(u64, String)>, bare: bool) -> Seq<
    char,
>
    decreases r, 0nat, n,
{
    if n == 0 || n > r.fields@.len() {
        Seq::empty()
    } else {
        items_text(r, (n - 1) as nat, floats, bare) + (if n > 1 {
            ", "@
        } else {
            Seq::empty()
        }) + if bare {
            render_text(r.fields@[n - 1].1, floats)
        } else {
            r.fields@[n - 1].0@ + ": "@ + render_text(r.fields@[n - 1].1, floats)
        }
    }
}

impl RuntimeValue {
    /// The text of the value (see `render_text`).
    pub fn render(&self, floats: &crate::pretty::FloatTexts) -> (r: String)
        ensures
            r@ == render_text(*self, floats@),
        decreases *self, 2nat, 0nat,
    {
        match self {
            RuntimeValue::Int(i) => {
                let mut s = String::new();
                push_i64(&mut s, *i);
                s
            },
            RuntimeValue::F64(b) => String::from_str(crate::pretty::lookup_float_text(floats, *b)),
            RuntimeValue::Bool(b) => String::from_str(
                if *b {
                    "true"
                } else {
                    "false"
                },
            ),
            RuntimeValue::Text(t) => t.clone(),
            RuntimeValue::TextBuilder(_) => String::from_str("<text-builder>"),
            RuntimeValue::List(_) => String::from_str("<list>"),
            RuntimeValue::Enum(e) => {
                let mut s = e.name.clone();
                s.append(".");
                s.append(e.variant.as_str());
                if let Some(p) = &e.payload {
                    s.append("(");
                    let inner = p.render(floats);
                    s.append(inner.as_str());
                    s.append(")");
                }
                s
            },
            RuntimeValue::Record(r) => render_runtime_record(r, floats),
            RuntimeValue::Unit => String::from_str("unit"),
        }
    }
}

/// The text of a record (see `record_text`).
pub fn render_runtime_record(record: &RuntimeRecord, floats: &crate::pretty::FloatTexts) -> (r: String)
    ensures
        r@ == record_text(*record, floats@),
    decreases *record, 1nat, 0nat,
{
    let bare = synthetic_array_record_info(record).is_some();
    let mut s = if bare {
        String::from_str("[")
    } else {
        let mut h = record.name.clone();
        h.append("{");
        h
    };
    let ghost head = s@;
    let mut i: usize = 0;
    while i < record.fields.len()
        invariant
            i <= record.fields.len(),
            s@ == head + items_text(*record, i as nat, floats@, bare),
        decreases record.fields.len() - i,
    {
        if i > 0 {
            s.append(", ");
        }
        assert(decreases_to!(*record => record.fields@[i as int].1));
        if !bare {
            s.append(record.fields[i].0.as_str());
            s.append(": ");
        }
        let t = record.fields[i].1.render(floats);
        s.append(t.as_str());
        assert(s@ =~= head + items_text(*record, (i + 1) as nat, floats@, bare));
        i = i + 1;
    }
    s.append(
        if bare {
            "]"
        } else {
            "}"
        },
    );
    s
}

} // verus!

verus! {

/// The variant names of each enum of the program, by enum name.
pub fn enum_variants(program: &crate::mir::Program) -> (r: Vec<(String, Vec<String>)>)
    ensures
        r@.len() == program.enums@.len(),
        forall|i: int|
            0 <= i < r@.len() ==> (#[trigger] r@[i]).0@ == program.enums@[i].name@ && r@[i].1@.len()
                == program.enums@[i].variants@.len() && forall|j: int|
                0 <= j < r@[i].1@.len() ==> (#[trigger] r@[i].1@[j])@ == program.enums@[i].variants@[j].name@,
{
    let mut out: Vec<(String, Vec<String>)> = Vec::new();
    let mut i: usize = 0;
    while i < program.enums.len()
        invariant
            i <= program.enums.len(),
            out@.len() == i,
            forall|k: int|
                0 <= k < i ==> (#[trigger] out@[k]).0@ == program.enums@[k].name@ && out@[k].1@.len()
                    == program.enums@[k].variants@.len() && forall|j: int|
                    0 <= j < out@[k].1@.len() ==> (#[trigger] out@[k].1@[j])@
                        == program.enums@[k].variants@[j].name@,
        decreases program.enums.len() - i,
    {
        let e = &program.enums[i];
        let mut names: Vec<String> = Vec::new();
        let mut j: usize = 0;
        while j < e.variants.len()
            invariant
                j <= e.variants.len(),
                names@.len() == j,
                forall|m: int| 0 <= m < j ==> (#[trigger] names@[m])@ == e.variants@[m].name@,
            decreases e.variants.len() - j,
        {
            names.push(e.variants[j].name.clone());
            j = j + 1;
        }
        out.push((e.name.clone(), names));
        i = i + 1;
    }
    out
}

/// The variant names of the last entry named `name` (a later entry for a
/// name replaces an earlier one).
pub open spec fn variants_named(table: Seq<(String, Vec<String>)>, name: Seq<char>) -> Option<Seq<String>>
    decreases table.len(),
{
    if table.len() == 0 {
        None
    } else if table.last().0@ == name {
        Some(table.last().1@)
    } else {
        variants_named(table.drop_last(), name)
    }
}

/// The position of the first name equal to `name`.
pub open spec fn name_position(names: Seq<String>, name: Seq<char>) -> Option<nat>
    decreases names.len(),
{
    if names.len() == 0 {
        None
    } else if names[0]@ == name {
        Some(0)
    } else {
        match name_position(names.drop_first(), name) {
            Some(p) => Some(p + 1),
            None => None,
        }
    }
}

fn find_variants<'a>(table: &'a [(String, Vec<String>)], name: &str) -> (r: Option<&'a Vec<String>>)
    ensures
        match variants_named(table@, name@) {
            Some(v) => r matches Some(x) && x@ == v,
            None => r is None,
        },
{
    let mut i: usize = table.len();
    assert(table@.take(i as int) =~= table@);
    while i > 0
        invariant
            i <= table.len(),
            variants_named(table@, name@) == variants_named(table@.take(i as int), name@),
        decreases i,
    {
        let ghost t = table@.take(i as int);
        assert(t.drop_last() =~= table@.take(i - 1));
        if text_eq(table[i - 1].0.as_str(), name) {
            return Some(&table[i - 1].1);
        }
        i = i - 1;
    }
    None
}

fn find_name_position(names: &Vec<String>, name: &str) -> (r: Option<usize>)
    ensures
        match r {
            Some(i) => name_position(names@, name@) == Some(i as nat),
            None => name_position(names@, name@) is None,
        },
{
    let mut i: usize = 0;
    assert(names@.skip(0) =~= names@);
    while i < names.len()
        invariant
            i <= names.len(),
            match name_position(names@.skip(i as int), name@) {
                Some(p) => name_position(names@, name@) == Some((p + i) as nat),
                None => name_position(names@, name@) is None,
            },
        decreases names.len() - i,
    {
        assert(names@.skip(i as int).drop_first() =~= names@.skip(i + 1));
        if text_eq(names[i].as_str(), name) {
            return Some(i);
        }
        i = i + 1;
    }
    None
}

/// The tag of an enum value: the position of its variant in its enum.
pub open spec fn spec_encode_tag(name: Seq<char>, variant: Seq<char>, table: Seq<(String, Vec<String>)>) -> Result<
    i64,
    Seq<char>,
> {
    match variants_named(table, name) {
        None => Err("unknown enum type `"@ + name + "`"@),
        Some(vs) => match name_position(vs, variant) {
            None => Err("enum `"@ + name + "` has no variant `"@ + variant + "`"@),
            Some(p) => if p <= i64::MAX {
                Ok(p as i64)
            } else {
                Err("enum `"@ + name + "` exceeds stage-0 limits"@)
            },
        },
    }
}

pub open spec fn msg_result<T>(r: Result<T, String>) -> Result<T, Seq<char>> {
    match r {
        Ok(v) => Ok(v),
        Err(e) => Err(e@),
    }
}

pub fn encode_enum_tag(value: &RuntimeEnum, enums: &[(String, Vec<String>)]) -> (r: Result<i64, String>)
    ensures
        msg_result(r) == spec_encode_tag(value.name@, value.variant@, enums@),
{
    let variants = match find_variants(enums, value.name.as_str()) {
        Some(v) => v,
        None => {
            let mut s = String::from_str("unknown enum type `");
            s.append(value.name.as_str());
            s.append("`");
            return Err(s);
        },
    };
    match find_name_position(variants, value.variant.as_str()) {
        None => {
            let mut s = String::from_str("enum `");
            s.append(value.name.as_str());
            s.append("` has no variant `");
            s.append(value.variant.as_str());
            s.append("`");
            Err(s)
        },
        Some(index) => {
            if index as u64 <= 9223372036854775807u64 {
                Ok(index as i64)
            } else {
                let mut s = String::from_str("enum `");
                s.append(value.name.as_str());
                s.append("` exceeds stage-0 limits");
                Err(s)
            }
        },
    }
}

/// The payload-free enum value that a tag stands for.
pub open spec fn spec_decode_tag(tag: i64, name: Seq<char>, table: Seq<(String, Vec<String>)>) -> Result<
    (Seq<char>, Seq<char>),
    Seq<char>,
> {
    match variants_named(table, name) {
        None => Err("unknown enum type `"@ + name + "`"@),
        Some(vs) => if 0 <= tag < vs.len() {
            Ok((name, vs[tag as int]@))
        } else {
            Err("enum `"@ + name + "` tag `"@ + int_text(tag as int) + "` is out of range"@)
        },
    }
}

pub open spec fn decoded_view(r: Result<RuntimeValue, String>) -> Result<(Seq<char>, Seq<char>), Seq<char>> {
    match r {
        Ok(RuntimeValue::Enum(e)) => if e.payload is None {
            Ok((e.name@, e.variant@))
        } else {
            Err(Seq::empty())
        },
        Ok(_) => Err(Seq::empty()),
        Err(e) => Err(e@),
    }
}

pub fn decode_enum_tag(tag: i64, name: &str, enums: &[(String, Vec<String>)]) -> (r: Result<RuntimeValue, String>)
    ensures
        decoded_view(r) == spec_decode_tag(tag, name@, enums@),
        r is Ok ==> r matches Ok(RuntimeValue::Enum(_)),
{
    let variants = match find_variants(enums, name) {
        Some(v) => v,
        None => {
            let mut s = String::from_str("unknown enum type `");
            s.append(name);
            s.append("`");
            return Err(s);
        },
    };
    if tag < 0 || tag as u64 >= variants.len() as u64 {
        let mut s = String::from_str("enum `");
        s.append(name);
        s.append("` tag `");
        push_i64(&mut s, tag);
        s.append("` is out of range");
        return Err(s);
    }
    let variant = variants[tag as usize].clone();
    Ok(RuntimeValue::Enum(RuntimeEnum { name: String::from_str(name), variant, payload: None }))
}

/// The last `.` of a path splits it into an enum and a variant, both
/// non-empty.
pub open spec fn spec_split_path(path: Seq<char>) -> Option<(Seq<char>, Seq<char>)> {
    if exists|k: int| 0 <= k < path.len() && path[k] == '.' {
        let k = choose|k: int|
            0 <= k < path.len() && path[k] == '.' && forall|j: int| k < j < path.len() ==> path[j] != '.';
        if k > 0 && k + 1 < path.len() {
            Some((path.subrange(0, k), path.subrange(k + 1, path.len() as int)))
        } else {
            None
        }
    } else {
        None
    }
}

pub open spec fn opt_pair_view(r: Option<(String, String)>) -> Option<(Seq<char>, Seq<char>)> {
    match r {
        Some((a, b)) => Some((a@, b@)),
        None => None,
    }
}

/// Splits `Enum.Variant` at its last `.` (see `spec_split_path`).
pub fn split_enum_variant_path(path: &str) -> (r: Option<(String, String)>)
    ensures
        opt_pair_view(r) == spec_split_path(path@),
{
    let cs = crate::text::chars_of(path);
    let n = cs.len();
    let mut i = n;
    while i > 0 && cs[i - 1] != '.'
        invariant
            i <= n == cs@.len(),
            cs@ == path@,
            forall|j: int| i <= j < n ==> cs@[j] != '.',
        decreases i,
    {
        i = i - 1;
    }
    if i == 0 {
        return None;
    }
    let k = i - 1;
    proof {
        let kk = choose|kk: int|
            0 <= kk < path@.len() && path@[kk] == '.' && forall|j: int| kk < j < path@.len() ==> path@[j] != '.';
        assert(0 <= k < path@.len() && path@[k as int] == '.' && forall|j: int| k < j < path@.len() ==> path@[j] != '.');
        if kk < k {
            assert(path@[k as int] != '.');
        }
        if kk > k {
            assert(path@[kk] != '.');
        }
        assert(kk == k);
    }
    if k == 0 || k + 1 >= n {
        return None;
    }
    let mut a = String::new();
    let mut j: usize = 0;
    while j < k
        invariant
            j <= k < n == cs@.len(),
            a@ == cs@.subrange(0, j as int),
        decreases k - j,
    {
        a.push(cs[j]);
        assert(cs@.subrange(0, j + 1) =~= cs@.subrange(0, j as int).push(cs@[j as int]));
        j = j + 1;
    }
    let mut b = String::new();
    let mut m: usize = k + 1;
    while m < n
        invariant
            k + 1 <= m <= n == cs@.len(),
            b@ == cs@.subrange(k + 1, m as int),
        decreases n - m,
    {
        b.push(cs[m]);
        assert(cs@.subrange(k + 1, m + 1) =~= cs@.subrange(k + 1, m as int).push(cs@[m as int]));
        m = m + 1;
    }
    Some((a, b))
}

} // verus!

verus! {

/// The last enum with the given name (a later declaration replaces an
/// earlier one).
pub open spec fn last_enum_named(es: Seq<crate::mir::EnumType>, name: Seq<char>) -> Option<crate::mir::EnumType>
    decreases es.len(),
{
    if es.len() == 0 {
        None
    } else if es.last().name@ == name {
        Some(es.last())
    } else {
        last_enum_named(es.drop_last(), name)
    }
}

/// The last struct with the given name.
pub open spec fn last_struct_named(ss: Seq<crate::mir::StructType>, name: Seq<char>) -> Option<
    crate::mir::StructType,
>
    decreases ss.len(),
{
    if ss.len() == 0 {
        None
    } else if ss.last().name@ == name {
        Some(ss.last())
    } else {
        last_struct_named(ss.drop_last(), name)
    }
}

pub open spec fn first_variant_named(vs: Seq<crate::mir::EnumVariantType>, name: Seq<char>) -> Option<
    crate::mir::EnumVariantType,
>
    decreases vs.len(),
{
    if vs.len() == 0 {
        None
    } else if vs[0].name@ == name {
        Some(vs[0])
    } else {
        first_variant_named(vs.drop_first(), name)
    }
}

pub open spec fn builtin_match(ty: Seq<char>, v: RuntimeValue) -> bool {
    ||| ty == "I32"@ && v is Int
    ||| ty == "F64"@ && v is F64
    ||| ty == "Bool"@ && v is Bool
    ||| ty == "Text"@ && v is Text
    ||| ty == "TextBuilder"@ && v is TextBuilder
    ||| ty == "List"@ && v is List
    ||| ty == "Unit"@ && v is Unit
}

/// Whether a value has the named type: built-in names by the kind of value,
/// enums and records by their declarations, checked deeply; else the error
/// message.
pub open spec fn type_check(p: crate::mir::Program, ty: Seq<char>, v: RuntimeValue, floats: Seq<(u64, String)>) -> Result<
    (),
    Seq<char>,
>
    decreases v, 2nat, 0nat,
{
    if builtin_match(ty, v) {
        Ok(())
    } else {
        match v {
            RuntimeValue::Enum(e) => enum_check(p, ty, e, floats),
            RuntimeValue::Record(r) => record_check(p, ty, r, floats),
            _ => Err("expected `"@ + ty + "`, found "@ + render_text(v, floats)),
        }
    }
}

pub open spec fn enum_check(p: crate::mir::Program, ty: Seq<char>, e: RuntimeEnum, floats: Seq<(u64, String)>) -> Result<
    (),
    Seq<char>,
>
    decreases e, 1nat, 0nat,
{
    match last_enum_named(p.enums@, ty) {
        None => Err("unknown enum type `"@ + ty + "`"@),
        Some(et) => if e.name@ != ty {
            Err("expected enum `"@ + ty + "`, found `"@ + e.name@ + "`"@)
        } else {
            match first_variant_named(et.variants@, e.variant@) {
                None => Err("enum `"@ + ty + "` has no variant `"@ + e.variant@ + "`"@),
                Some(var) => match var.payload_type {
                    Some(x) => match e.payload {
                        Some(pl) => type_check(p, x@, *pl, floats),
                        None => Err(
                            "enum variant `"@ + ty + "."@ + e.variant@
                                + "`\n                             requires a payload"@,
                        ),
                    },
                    None => match e.payload {
                        Some(_) => Err(
                            "enum variant `"@ + ty + "."@ + e.variant@
                                + "`\n                             does not accept a payload"@,
                        ),
                        None => Ok(()),
                    },
                },
            }
        },
    }
}

pub open spec fn record_check(p: crate::mir::Program, ty: Seq<char>, r: RuntimeRecord, floats: Seq<(u64, String)>) -> Result<
    (),
    Seq<char>,
>
    decreases r, 1nat, 0nat,
{
    match last_struct_named(p.structs@, ty) {
        None => Err("unknown struct type `"@ + ty + "`"@),
        Some(st) => if r.name@ != ty {
            Err("expected record `"@ + ty + "`, found `"@ + r.name@ + "`"@)
        } else if r.fields@.len() != st.fields@.len() {
            Err("record `"@ + ty + "` field count mismatch"@)
        } else {
            fields_check(p, ty, r, st.fields@, 0, floats)
        },
    }
}

pub open spec fn fields_check(
    p: crate::mir::Program,
    ty: Seq<char>,
    r: RuntimeRecord,
    sfs: Seq<crate::mir::StructField>,
    i: nat,
    floats: Seq<(u64, String)>,
) -> Result<(), Seq<char>>
    decreases r, 0nat, r.fields@.len() - i,
{
    if i >= r.fields@.len() || i >= sfs.len() {
        Ok(())
    } else if r.fields@[i as int].0@ != sfs[i as int].name@ {
        Err(
            "record `"@ + ty + "` field order mismatch: expected `"@ + sfs[i as int].name@ + "`, found `"@
                + r.fields@[i as int].0@ + "`"@,
        )
    } else {
        match type_check(p, sfs[i as int].ty@, r.fields@[i as int].1, floats) {
            Err(e) => Err(e),
            Ok(_) => fields_check(p, ty, r, sfs, i + 1, floats),
        }
    }
}

pub open spec fn error_text(r: Result<(), RuntimeError>) -> Result<(), Seq<char>> {
    match r {
        Ok(_) => Ok(()),
        Err(RuntimeError::Message(m)) => Err(m@),
        Err(RuntimeError::EffectUnwind { .. }) => Err(Seq::empty()),
    }
}

fn find_last_enum<'a>(enums: &'a [crate::mir::EnumType], name: &str) -> (r: Option<&'a crate::mir::EnumType>)
    ensures
        match last_enum_named(enums@, name@) {
            Some(x) => r matches Some(y) && *y == x,
            None => r is None,
        },
{
    let mut i: usize = enums.len();
    assert(enums@.take(i as int) =~= enums@);
    while i > 0
        invariant
            i <= enums.len(),
            last_enum_named(enums@, name@) == last_enum_named(enums@.take(i as int), name@),
        decreases i,
    {
        let ghost t = enums@.take(i as int);
        assert(t.drop_last() =~= enums@.take(i - 1));
        if text_eq(enums[i - 1].name.as_str(), name) {
            return Some(&enums[i - 1]);
        }
        i = i - 1;
    }
    None
}

fn find_last_struct<'a>(structs: &'a [crate::mir::StructType], name: &str) -> (r: Option<&'a crate::mir::StructType>)
    ensures
        match last_struct_named(structs@, name@) {
            Some(x) => r matches Some(y) && *y == x,
            None => r is None,
        },
{
    let mut i: usize = structs.len();
    assert(structs@.take(i as int) =~= structs@);
    while i > 0
        invariant
            i <= structs.len(),
            last_struct_named(structs@, name@) == last_struct_named(structs@.take(i as int), name@),
        decreases i,
    {
        let ghost t = structs@.take(i as int);
        assert(t.drop_last() =~= structs@.take(i - 1));
        if text_eq(structs[i - 1].name.as_str(), name) {
            return Some(&structs[i - 1]);
        }
        i = i - 1;
    }
    None
}

fn find_first_variant<'a>(vs: &'a Vec<crate::mir::EnumVariantType>, name: &str) -> (r: Option<&'a crate::mir::EnumVariantType>)
    ensures
        match first_variant_named(vs@, name@) {
            Some(x) => r matches Some(y) && *y == x,
            None => r is None,
        },
{
    let mut i: usize = 0;
    assert(vs@.skip(0) =~= vs@);
    while i < vs.len()
        invariant
            i <= vs.len(),
            first_variant_named(vs@, name@) == first_variant_named(vs@.skip(i as int), name@),
        decreases vs.len() - i,
    {
        assert(vs@.skip(i as int).drop_first() =~= vs@.skip(i + 1));
        if text_eq(vs[i].name.as_str(), name) {
            return Some(&vs[i]);
        }
        i = i + 1;
    }
    None
}

fn msg(s: String) -> (r: RuntimeError)
    ensures
        error_text(Err(r)) == Err::<(), Seq<char>>(s@),
{
    RuntimeError::Message(s)
}

/// Checks that a value has the named type (see `type_check`).
pub fn ensure_type(
    program: &crate::mir::Program,
    ty: &str,
    value: &RuntimeValue,
    floats: &crate::pretty::FloatTexts,
) -> (r: Result<(), RuntimeError>)
    ensures
        error_text(r) == type_check(*program, ty@, *value, floats@),
    decreases *value, 2nat, 0nat,
{
    let builtin = match value {
        RuntimeValue::Int(_) => text_eq(ty, "I32"),
        RuntimeValue::F64(_) => text_eq(ty, "F64"),
        RuntimeValue::Bool(_) => text_eq(ty, "Bool"),
        RuntimeValue::Text(_) => text_eq(ty, "Text"),
        RuntimeValue::TextBuilder(_) => text_eq(ty, "TextBuilder"),
        RuntimeValue::List(_) => text_eq(ty, "List"),
        RuntimeValue::Unit => text_eq(ty, "Unit"),
        _ => false,
    };
    if builtin {
        return Ok(());
    }
    match value {
        RuntimeValue::Enum(e) => ensure_enum_type(program, ty, e, floats),
        RuntimeValue::Record(rec) => ensure_record_type(program, ty, rec, floats),
        _ => {
            let mut s = String::from_str("expected `");
            s.append(ty);
            s.append("`, found ");
            let v = value.render(floats);
            s.append(v.as_str());
            Err(msg(s))
        },
    }
}

fn ensure_enum_type(
    program: &crate::mir::Program,
    ty: &str,
    e: &RuntimeEnum,
    floats: &crate::pretty::FloatTexts,
) -> (r: Result<(), RuntimeError>)
    ensures
        error_text(r) == enum_check(*program, ty@, *e, floats@),
    decreases *e, 1nat, 0nat,
{
    let enum_ty = match find_last_enum(program.enums.as_slice(), ty) {
        Some(t) => t,
        None => {
            let mut s = String::from_str("unknown enum type `");
            s.append(ty);
            s.append("`");
            return Err(msg(s));
        },
    };
    if !text_eq(e.name.as_str(), ty) {
        let mut s = String::from_str("expected enum `");
        s.append(ty);
        s.append("`, found `");
        s.append(e.name.as_str());
        s.append("`");
        return Err(msg(s));
    }
    let variant = match find_first_variant(&enum_ty.variants, e.variant.as_str()) {
        Some(v) => v,
        None => {
            let mut s = String::from_str("enum `");
            s.append(ty);
            s.append("` has no variant `");
            s.append(e.variant.as_str());
            s.append("`");
            return Err(msg(s));
        },
    };
    match &variant.payload_type {
        Some(expected) => match &e.payload {
            Some(payload) => ensure_type(program, expected.as_str(), payload, floats),
            None => {
                let mut s = String::from_str("enum variant `");
                s.append(ty);
                s.append(".");
                s.append(e.variant.as_str());
                s.append("`\n                             requires a payload");
                Err(msg(s))
            },
        },
        None => match &e.payload {
            Some(_) => {
                let mut s = String::from_str("enum variant `");
                s.append(ty);
                s.append(".");
                s.append(e.variant.as_str());
                s.append("`\n                             does not accept a payload");
                Err(msg(s))
            },
            None => Ok(()),
        },
    }
}

fn ensure_record_type(
    program: &crate::mir::Program,
    ty: &str,
    rec: &RuntimeRecord,
    floats: &crate::pretty::FloatTexts,
) -> (r: Result<(), RuntimeError>)
    ensures
        error_text(r) == record_check(*program, ty@, *rec, floats@),
    decreases *rec, 1nat, 0nat,
{
    let struct_ty = match find_last_struct(program.structs.as_slice(), ty) {
        Some(t) => t,
        None => {
            let mut s = String::from_str("unknown struct type `");
            s.append(ty);
            s.append("`");
            return Err(msg(s));
        },
    };
    if !text_eq(rec.name.as_str(), ty) {
        let mut s = String::from_str("expected record `");
        s.append(ty);
        s.append("`, found `");
        s.append(rec.name.as_str());
        s.append("`");
        return Err(msg(s));
    }
    if rec.fields.len() != struct_ty.fields.len() {
        let mut s = String::from_str("record `");
        s.append(ty);
        s.append("` field count mismatch");
        return Err(msg(s));
    }
    let ghost sfs = struct_ty.fields@;
    let mut i: usize = 0;
    while i < rec.fields.len()
        invariant
            i <= rec.fields.len() == struct_ty.fields.len(),
            sfs == struct_ty.fields@,
            record_check(*program, ty@, *rec, floats@) == fields_check(*program, ty@, *rec, sfs, 0, floats@),
            fields_check(*program, ty@, *rec, sfs, 0, floats@) == fields_check(
                *program,
                ty@,
                *rec,
                sfs,
                i as nat,
                floats@,
            ),
        decreases rec.fields.len() - i,
    {
        let fname = rec.fields[i].0.as_str();
        let expected = &struct_ty.fields[i];
        if !text_eq(fname, expected.name.as_str()) {
            let mut s = String::from_str("record `");
            s.append(ty);
            s.append("` field order mismatch: expected `");
            s.append(expected.name.as_str());
            s.append("`, found `");
            s.append(fname);
            s.append("`");
            return Err(msg(s));
        }
        assert(decreases_to!(*rec => rec.fields@[i as int].1));
        let c = ensure_type(program, expected.ty.as_str(), &rec.fields[i].1, floats);
        if c.is_err() {
            return c;
        }
        i = i + 1;
    }
    Ok(())
}

/// The tag of an enum value: the position of its variant in its enum.
pub open spec fn spec_enum_tag(p: crate::mir::Program, e: RuntimeEnum) -> Result<i64, Seq<char>> {
    match last_enum_named(p.enums@, e.name@) {
        None => Err("unknown enum type `"@ + e.name@ + "`"@),
        Some(et) => match crate::c::variant_position(et.variants@, e.variant@) {
            Some(p) => Ok(p as i64),
            None => Err("enum `"@ + e.name@ + "` has no variant `"@ + e.variant@ + "`"@),
        },
    }
}

pub open spec fn tag_result(r: Result<i64, RuntimeError>) -> Result<i64, Seq<char>> {
    match r {
        Ok(t) => Ok(t),
        Err(RuntimeError::Message(m)) => Err(m@),
        Err(RuntimeError::EffectUnwind { .. }) => Err(Seq::empty()),
    }
}

/// The tag of an enum value (see `spec_enum_tag`).
pub fn enum_tag(program: &crate::mir::Program, value: &RuntimeEnum) -> (r: Result<i64, RuntimeError>)
    requires
        forall|i: int|
            0 <= i < program.enums@.len() ==> (#[trigger] program.enums@[i]).variants@.len() <= i64::MAX,
    ensures
        tag_result(r) == spec_enum_tag(*program, *value),
{
    let enum_ty = match find_last_enum(program.enums.as_slice(), value.name.as_str()) {
        Some(t) => t,
        None => {
            let mut s = String::from_str("unknown enum type `");
            s.append(value.name.as_str());
            s.append("`");
            return Err(msg(s));
        },
    };
    proof {
        lemma_last_enum_in(program.enums@, value.name@);
    }
    match crate::c::find_variant_position(&enum_ty.variants, value.variant.as_str()) {
        Some(index) => Ok(index as i64),
        None => {
            let mut s = String::from_str("enum `");
            s.append(value.name.as_str());
            s.append("` has no variant `");
            s.append(value.variant.as_str());
            s.append("`");
            Err(msg(s))
        },
    }
}

proof fn lemma_last_enum_in(es: Seq<crate::mir::EnumType>, name: Seq<char>)
    ensures
        last_enum_named(es, name) matches Some(e) ==> exists|i: int| 0 <= i < es.len() && #[trigger] es[i] == e,
    decreases es.len(),
{
    if es.len() > 0 {
        if es.last().name@ == name {
            assert(es[es.len() - 1] == es.last());
        } else {
            lemma_last_enum_in(es.drop_last(), name);
            if let Some(e) = last_enum_named(es, name) {
                let i = choose|i: int| 0 <= i < es.drop_last().len() && #[trigger] es.drop_last()[i] == e;
                assert(es[i] == e);
            }
        }
    }
}

} // verus!

verus! {

proof fn lemma_name_position_found(names: Seq<String>, name: Seq<char>)
    ensures
        name_position(names, name) matches Some(p) ==> p < names.len() && names[p as int]@ == name,
    decreases names.len(),
{
    if names.len() > 0 && names[0]@ != name {
        lemma_name_position_found(names.drop_first(), name);
    }
}

proof fn lemma_name_position_exists(names: Seq<String>, name: Seq<char>, k: int)
    requires
        0 <= k < names.len(),
        names[k]@ == name,
    ensures
        name_position(names, name) matches Some(p) && p <= k,
    decreases names.len(),
{
    if names[0]@ != name {
        lemma_name_position_exists(names.drop_first(), name, k - 1);
    }
}

/// The round trip of enum tags: `encode_enum_tag` on an enum value whose
/// variant its enum lists succeeds (its contract is `spec_encode_tag`) with
/// a tag that names that variant, and `decode_enum_tag` of that tag and the
/// enum's name (its contract is `spec_decode_tag`) gives back the enum
/// value of that name and variant, without payload (for enums of at most
/// `i64::MAX` variants, a machine limit).
pub proof fn lemma_enum_tag_round_trip(name: Seq<char>, variant: Seq<char>, table: Seq<(String, Vec<String>)>, k: int)
    requires
        variants_named(table, name) matches Some(vs) && 0 <= k < vs.len() && vs[k]@ == variant && vs.len() <= i64::MAX,
    ensures
        spec_encode_tag(name, variant, table) is Ok,
        variants_named(table, name)->0[spec_encode_tag(name, variant, table)->Ok_0 as int]@ == variant,
        spec_decode_tag(spec_encode_tag(name, variant, table)->Ok_0, name, table) == Ok::<
            (Seq<char>, Seq<char>),
            Seq<char>,
        >((name, variant)),
{
    let vs = variants_named(table, name)->Some_0;
    lemma_name_position_exists(vs, variant, k);
    lemma_name_position_found(vs, variant);
}

} // verus!

verus! {

/// The position of the first field named `name` at or after `i`.
pub open spec fn field_position(fields: Seq<(String, RuntimeValue)>, name: Seq<char>, i: nat) -> Option<nat>
    decreases fields.len() - i,
{
    if i >= fields.len() {
        None
    } else if fields[i as int].0@ == name {
        Some(i)
    } else {
        field_position(fields, name, i + 1)
    }
}

proof fn lemma_field_position_bounds(fields: Seq<(String, RuntimeValue)>, name: Seq<char>, i: nat, k: nat)
    requires
        i <= k < fields.len(),
        fields[k as int].0@ == name,
    ensures
        field_position(fields, name, i) matches Some(p) && i <= p <= k && fields[p as int].0@ == name,
    decreases k - i,
{
    if fields[i as int].0@ != name {
        lemma_field_position_bounds(fields, name, i + 1, k);
    }
}

proof fn lemma_field_position_at_least(fields: Seq<(String, RuntimeValue)>, name: Seq<char>, i: nat)
    ensures
        field_position(fields, name, i) matches Some(p) ==> i <= p,
    decreases fields.len() - i,
{
    if i < fields.len() && fields[i as int].0@ != name {
        lemma_field_position_at_least(fields, name, i + 1);
    }
}

pub open spec fn index_out_of_bounds_msg() -> Seq<char> {
    "compile-time array index is out of bounds"@
}

pub open spec fn not_an_array_msg() -> Seq<char> {
    "compile-time indexed assignment target is not an array"@
}

/// Replaces element `index` of a compile-time array value (a record that
/// stands for an array, see `array_info`): the first field named after the
/// index gets the replacement. A negative or too large index, and a value
/// that is no array, are errors.
pub fn update_runtime_array_index(value: RuntimeValue, index: i64, replacement: RuntimeValue) -> (r: Result<
    RuntimeValue,
    String,
>)
    ensures
        index < 0 ==> (r matches Err(e) && e@ == index_out_of_bounds_msg()),
        index >= 0 ==> (match value {
            RuntimeValue::Record(rec) => match array_info(rec) {
                Some((_, n)) => if index >= n {
                    r matches Err(e) && e@ == index_out_of_bounds_msg()
                } else {
                    match field_position(rec.fields@, array_field_text(index as nat), 0) {
                        Some(p) => r matches Ok(RuntimeValue::Record(out)) && out.name == rec.name
                            && out.fields@ == rec.fields@.update(p as int, (out.fields@[p as int].0, replacement))
                            && out.fields@[p as int].0 == rec.fields@[p as int].0,
                        None => false,
                    }
                },
                None => r matches Err(e) && e@ == not_an_array_msg(),
            },
            _ => r matches Err(e) && e@ == not_an_array_msg(),
        }),
{
    if index < 0 {
        return Err(String::from_str("compile-time array index is out of bounds"));
    }
    let mut record = match value {
        RuntimeValue::Record(record) => record,
        _ => {
            return Err(String::from_str("compile-time indexed assignment target is not an array"));
        },
    };
    let len = match synthetic_array_record_info(&record) {
        Some((_, len)) => len,
        None => {
            return Err(String::from_str("compile-time indexed assignment target is not an array"));
        },
    };
    if index as u64 >= len as u64 {
        return Err(String::from_str("compile-time array index is out of bounds"));
    }
    let field_name = array_field_name(index as usize);
    let ghost fields0 = record.fields@;
    let ghost rec0 = record;
    proof {
        assert(slot_names(fields0));
        assert(fields0[index as int].0@ == array_field_text(index as nat));
        lemma_field_position_bounds(fields0, field_name@, 0, index as nat);
    }
    let mut k: usize = 0;
    while k < record.fields.len()
        invariant
            record.fields@ == fields0,
            record.name == rec0.name,
            rec0.fields@ == fields0,
            value == RuntimeValue::Record(rec0),
            0 <= index,
            array_info(rec0) matches Some((_, n)) && index < n,
            field_name@ == array_field_text(index as nat),
            field_position(fields0, field_name@, 0) == field_position(fields0, field_name@, k as nat),
            field_position(fields0, field_name@, 0) matches Some(p) && k <= p,
        decreases record.fields@.len() - k,
    {
        if text_eq(&record.fields[k].0, &field_name) {
            let (name, _previous) = record.fields.remove(k);
            record.fields.insert(k, (name, replacement));
            proof {
                assert(record.fields@ =~= fields0.update(k as int, (record.fields@[k as int].0, replacement)));
            }
            return Ok(RuntimeValue::Record(record));
        }
        proof {
            assert(field_position(fields0, field_name@, k as nat) == field_position(fields0, field_name@, (k + 1) as nat));
            lemma_field_position_at_least(fields0, field_name@, (k + 1) as nat);
        }
        k = k + 1;
    }
    Err(String::from_str("compile-time indexed assignment target is not an array"))
}

} // verus!
