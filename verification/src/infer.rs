//! Value kind inference for the native backend.
use vstd::prelude::*;

use crate::analysis::{falls_through, insts_fall_through};
use crate::kinds::KindMap;
use crate::mir::{first_local_for, CodegenValueKind, Function, Inst, ValueId};
use crate::native::{
    clone_kind, enum_names, kind_result_view, kind_view, native_value_kind, record_names,
    spec_native_kind, KindView, NativeEnum, NativeRecord, NativeRecordField,
};
use crate::pretty::{debug_text, slot_text, spec_debug_text, value_text};
use crate::text::{nat_text, push_u64, text_eq};

verus! {

/// What kind inference reads besides the instructions: the function being
/// compiled, the record and enum layouts, and every function of the program.
pub struct KindEnv {
    pub function: Function,
    pub records: Seq<NativeRecord>,
    pub enums: Seq<(String, NativeEnum)>,
    pub functions: Seq<Function>,
}

pub open spec fn env_kind(env: KindEnv, name: Seq<char>) -> Result<KindView, Seq<char>> {
    spec_native_kind(name, record_names(env.records), enum_names(env.enums))
}

/// The `{:?}` rendering of a value kind.
pub open spec fn kind_debug(k: KindView) -> Seq<char>
    decreases k,
{
    match k {
        KindView::Unit => "Unit"@,
        KindView::I32 => "I32"@,
        KindView::F64 => "F64"@,
        KindView::Bool => "Bool"@,
        KindView::Text => "Text"@,
        KindView::TextBuilder => "TextBuilder"@,
        KindView::List(e) => "List("@ + kind_debug(*e) + ")"@,
        KindView::Enum(n) => "Enum("@ + spec_debug_text(n) + ")"@,
        KindView::Record(n) => "Record("@ + spec_debug_text(n) + ")"@,
        KindView::Bytes => "Bytes"@,
        KindView::TextIndex => "TextIndex"@,
        KindView::File => "File"@,
    }
}

/// The kind recorded for `v`, if any.
pub open spec fn kind_of(kinds: Map<u32, KindView>, v: ValueId) -> Option<KindView> {
    if kinds.dom().contains(v.0) {
        Some(kinds[v.0])
    } else {
        None
    }
}

/// The last record layout with the given name.
pub open spec fn last_record_named(rs: Seq<NativeRecord>, name: Seq<char>) -> Option<NativeRecord>
    decreases rs.len(),
{
    if rs.len() == 0 {
        None
    } else if rs.last().name@ == name {
        Some(rs.last())
    } else {
        last_record_named(rs.drop_last(), name)
    }
}

/// The first field with the given name.
pub open spec fn first_field_named(fs: Seq<NativeRecordField>, name: Seq<char>) -> Option<
    NativeRecordField,
>
    decreases fs.len(),
{
    if fs.len() == 0 {
        None
    } else if fs[0].name@ == name {
        Some(fs[0])
    } else {
        first_field_named(fs.drop_first(), name)
    }
}

/// The first function with the given name.
pub open spec fn first_function_named(fs: Seq<Function>, name: Seq<char>) -> Option<Function>
    decreases fs.len(),
{
    if fs.len() == 0 {
        None
    } else if fs[0].name@ == name {
        Some(fs[0])
    } else {
        first_function_named(fs.drop_first(), name)
    }
}

/// ` in `name`` for error messages.
pub open spec fn in_fn(f: Function) -> Seq<char> {
    " in `"@ + f.name@ + "`"@
}

pub open spec fn put(kinds: Map<u32, KindView>, dest: ValueId, r: Result<KindView, Seq<char>>) -> Result<
    Map<u32, KindView>,
    Seq<char>,
> {
    match r {
        Ok(k) => Ok(kinds.insert(dest.0, k)),
        Err(e) => Err(e),
    }
}

/// The kind of a branch result: none for no result, an error when the
/// result has no kind yet.
pub open spec fn branch_kind(
    f: Function,
    kinds: Map<u32, KindView>,
    result: Option<ValueId>,
    branch: Seq<char>,
) -> Result<Option<KindView>, Seq<char>> {
    match result {
        None => Ok(None),
        Some(r) => match kind_of(kinds, r) {
            Some(k) => Ok(Some(k)),
            None => Err(
                "native "@ + branch + " branch result "@ + value_text(r) + " is unavailable"@
                    + in_fn(f),
            ),
        },
    }
}

/// How an `if` gives its destination a kind once both branches are done.
pub open spec fn join_branches(
    f: Function,
    kinds: Map<u32, KindView>,
    dest: ValueId,
    then_falls: bool,
    else_falls: bool,
    then_kind: Option<KindView>,
    else_kind: Option<KindView>,
) -> Result<Map<u32, KindView>, Seq<char>> {
    if then_falls && else_falls {
        match (then_kind, else_kind) {
            (Some(l), Some(r)) => if l == r {
                Ok(kinds.insert(dest.0, l))
            } else {
                Err(
                    "native conditional branches in `"@ + f.name@
                        + "` produce incompatible kinds `"@ + kind_debug(l) + "` and `"@
                        + kind_debug(r) + "`"@,
                )
            },
            (None, None) => Ok(kinds),
            _ => Err(
                "native conditional fallthrough branches in `"@ + f.name@
                    + "` do not agree on whether they produce a value"@,
            ),
        }
    } else if then_falls {
        match then_kind {
            Some(k) => Ok(kinds.insert(dest.0, k)),
            None => Ok(kinds),
        }
    } else if else_falls {
        match else_kind {
            Some(k) => Ok(kinds.insert(dest.0, k)),
            None => Ok(kinds),
        }
    } else {
        Ok(kinds)
    }
}

/// The kinds after one instruction, or the first error.
pub open spec fn infer_inst(env: KindEnv, inst: Inst, kinds: Map<u32, KindView>) -> Result<
    Map<u32, KindView>,
    Seq<char>,
>
    decreases inst, 0nat,
{
    let f = env.function;
    match inst {
        Inst::LoadParam { dest, index } => if index < f.params@.len() {
            put(kinds, dest, env_kind(env, f.params@[index as int].ty@))
        } else {
            Err(
                "native parameter load out of bounds in `"@ + f.name@ + "` at index "@ + nat_text(
                    index as nat,
                ),
            )
        },
        Inst::LoadLocal { dest, slot } => match first_local_for(f.mutable_locals@, slot) {
            Some(local) => put(kinds, dest, env_kind(env, local.ty@)),
            None => Err("native mutable local "@ + slot_text(slot) + " is unknown"@ + in_fn(f)),
        },
        Inst::ConstInt { dest, .. } | Inst::TextLen { dest, .. } | Inst::TextByte { dest, .. }
        | Inst::ArgCount { dest } | Inst::ListLen { dest, .. } | Inst::ParseI32 { dest, .. }
        | Inst::TextCmp { dest, .. } | Inst::TextEqRange { dest, .. }
        | Inst::TextFindByteRange { dest, .. } | Inst::ParseI32Range { dest, .. } => Ok(
            kinds.insert(dest.0, KindView::I32),
        ),
        Inst::ParseF64 { dest, .. } | Inst::F64FromI32 { dest, .. } | Inst::ConstF64 { dest, .. }
        | Inst::Sqrt { dest, .. } => Ok(kinds.insert(dest.0, KindView::F64)),
        Inst::ListGet { dest, list, .. } => match kind_of(kinds, list) {
            Some(KindView::List(e)) => Ok(kinds.insert(dest.0, *e)),
            _ => Err("native list_get input "@ + value_text(list) + " is not a list"@ + in_fn(f)),
        },
        Inst::TextBuilderNew { dest } | Inst::TextBuilderAppend { dest, .. }
        | Inst::TextBuilderAppendCodepoint { dest, .. } => Ok(
            kinds.insert(dest.0, KindView::TextBuilder),
        ),
        Inst::ListNew { dest, value, .. } => match kind_of(kinds, value) {
            Some(k) => Ok(kinds.insert(dest.0, KindView::List(Box::new(k)))),
            None => Err(
                "native list_new input "@ + value_text(value) + " has unknown kind"@ + in_fn(f),
            ),
        },
        Inst::ListSet { dest, list, .. } => match kind_of(kinds, list) {
            Some(k) => Ok(kinds.insert(dest.0, k)),
            None => Err(
                "native list_set input "@ + value_text(list) + " has unknown kind"@ + in_fn(f),
            ),
        },
        Inst::TextConcat { dest, .. } | Inst::TextSlice { dest, .. }
        | Inst::TextBuilderFinish { dest, .. } | Inst::TextFromF64Fixed { dest, .. }
        | Inst::ArgText { dest, .. } | Inst::StdinText { dest } | Inst::ConstText {
            dest,
            ..
        } => Ok(kinds.insert(dest.0, KindView::Text)),
        Inst::Add { dest, left, .. } | Inst::Sub { dest, left, .. } | Inst::Mul { dest, left, .. }
        | Inst::Div { dest, left, .. } => match kind_of(kinds, left) {
            Some(k) => match k {
                KindView::I32 | KindView::F64 => Ok(kinds.insert(dest.0, k)),
                _ => Err(
                    "native arithmetic in `"@ + f.name@ + "` only supports numeric kinds, found `"@
                        + kind_debug(k) + "`"@,
                ),
            },
            None => Err(
                "native arithmetic input "@ + value_text(left) + " has unknown kind"@ + in_fn(f),
            ),
        },
        Inst::ConstBool { dest, .. } | Inst::And { dest, .. } | Inst::Or { dest, .. }
        | Inst::Eq { dest, .. } | Inst::Ne { dest, .. } | Inst::Lt { dest, .. } | Inst::Le {
            dest,
            ..
        } | Inst::Gt { dest, .. } | Inst::Ge { dest, .. } | Inst::EnumTagEq { dest, .. } => Ok(
            kinds.insert(dest.0, KindView::Bool),
        ),
        Inst::MakeEnum { dest, name, .. } => Ok(kinds.insert(dest.0, KindView::Enum(name@))),
        Inst::EnumPayload { dest, payload_type, .. } => put(
            kinds,
            dest,
            env_kind(env, payload_type@),
        ),
        Inst::MakeRecord { dest, name, .. } => Ok(kinds.insert(dest.0, KindView::Record(name@))),
        Inst::Field { dest, base, name } => match kind_of(kinds, base) {
            Some(KindView::Record(rname)) => match last_record_named(env.records, rname) {
                None => Err("missing native record metadata for `"@ + rname + "`"@),
                Some(rec) => match first_field_named(rec.fields@, name@) {
                    None => Err(
                        "record `"@ + rname + "` has no native field `"@ + name@ + "`"@ + in_fn(f),
                    ),
                    Some(field) => Ok(kinds.insert(dest.0, kind_view(field.kind))),
                },
            },
            _ => Err("native field base "@ + value_text(base) + " is not a record"@ + in_fn(f)),
        },
        Inst::Call { dest, callee, .. } => match first_function_named(env.functions, callee@) {
            Some(c) => match c.return_type {
                Some(rt) => if rt@ == "Unit"@ {
                    Ok(kinds)
                } else {
                    put(kinds, dest, env_kind(env, rt@))
                },
                None => Ok(kinds),
            },
            None => Ok(kinds),
        },
        Inst::If { dest, then_insts, then_result, else_insts, else_result, .. } => match infer_insts(
            env,
            then_insts@,
            kinds,
        ) {
            Err(e) => Err(e),
            Ok(k1) => match infer_insts(env, else_insts@, k1) {
                Err(e) => Err(e),
                Ok(k2) => match branch_kind(f, k2, then_result, "then"@) {
                    Err(e) => Err(e),
                    Ok(tk) => match branch_kind(f, k2, else_result, "else"@) {
                        Err(e) => Err(e),
                        Ok(ek) => join_branches(
                            f,
                            k2,
                            dest,
                            falls_through(then_insts@),
                            falls_through(else_insts@),
                            tk,
                            ek,
                        ),
                    },
                },
            },
        },
        Inst::While { condition_insts, body_insts, .. } => match infer_insts(
            env,
            condition_insts@,
            kinds,
        ) {
            Err(e) => Err(e),
            Ok(k1) => infer_insts(env, body_insts@, k1),
        },
        Inst::Repeat { body_insts, .. } => infer_insts(env, body_insts@, kinds),
        Inst::StoreLocal { .. } | Inst::Assert { .. } | Inst::StdoutWrite { .. }
        | Inst::Perform { .. } | Inst::Handle { .. } | Inst::AllocPush | Inst::AllocPop => Ok(
            kinds,
        ),
    }
}

/// The kinds after a sequence of instructions, in order, or the first error.
pub open spec fn infer_insts(env: KindEnv, insts: Seq<Inst>, kinds: Map<u32, KindView>) -> Result<
    Map<u32, KindView>,
    Seq<char>,
>
    decreases insts, 0nat,
{
    if insts.len() == 0 {
        Ok(kinds)
    } else {
        match infer_insts(env, insts.subrange(0, insts.len() - 1), kinds) {
            Err(e) => Err(e),
            Ok(k) => infer_inst(env, insts[insts.len() - 1], k),
        }
    }
}

proof fn lemma_infer_err_sticks(
    env: KindEnv,
    insts: Seq<Inst>,
    m: int,
    n: int,
    kinds: Map<u32, KindView>,
)
    requires
        0 <= m <= n <= insts.len(),
        infer_insts(env, insts.subrange(0, m), kinds) is Err,
    ensures
        infer_insts(env, insts.subrange(0, n), kinds) == infer_insts(
            env,
            insts.subrange(0, m),
            kinds,
        ),
    decreases n - m,
{
    if n > m {
        lemma_infer_err_sticks(env, insts, m, n - 1, kinds);
        let pre = insts.subrange(0, n);
        assert(pre.subrange(0, pre.len() - 1) =~= insts.subrange(0, n - 1));
    }
}

/// The spec environment of the executable arguments.
pub open spec fn kind_env(
    function: Function,
    records: Seq<NativeRecord>,
    enums: Seq<(String, NativeEnum)>,
    functions: Seq<Function>,
) -> KindEnv {
    KindEnv { function, records, enums, functions }
}

} // verus!

verus! {

/// The `{:?}` rendering of a value kind.
pub fn kind_debug_text(k: &CodegenValueKind) -> (r: String)
    ensures
        r@ == kind_debug(kind_view(*k)),
    decreases *k,
{
    match k {
        CodegenValueKind::Unit => String::from_str("Unit"),
        CodegenValueKind::I32 => String::from_str("I32"),
        CodegenValueKind::F64 => String::from_str("F64"),
        CodegenValueKind::Bool => String::from_str("Bool"),
        CodegenValueKind::Text => String::from_str("Text"),
        CodegenValueKind::TextBuilder => String::from_str("TextBuilder"),
        CodegenValueKind::List(e) => {
            let mut s = String::from_str("List(");
            let inner = kind_debug_text(e);
            s.append(inner.as_str());
            s.append(")");
            s
        },
        CodegenValueKind::Enum(n) => {
            let mut s = String::from_str("Enum(");
            let d = debug_text(n.as_str());
            s.append(d.as_str());
            s.append(")");
            s
        },
        CodegenValueKind::Record(n) => {
            let mut s = String::from_str("Record(");
            let d = debug_text(n.as_str());
            s.append(d.as_str());
            s.append(")");
            s
        },
        CodegenValueKind::Bytes => String::from_str("Bytes"),
        CodegenValueKind::TextIndex => String::from_str("TextIndex"),
        CodegenValueKind::File => String::from_str("File"),
    }
}

/// Whether two kinds are the same kind.
pub fn kind_eq(a: &CodegenValueKind, b: &CodegenValueKind) -> (r: bool)
    ensures
        r == (kind_view(*a) == kind_view(*b)),
    decreases *a,
{
    match a {
        CodegenValueKind::Unit => matches!(b, CodegenValueKind::Unit),
        CodegenValueKind::I32 => matches!(b, CodegenValueKind::I32),
        CodegenValueKind::F64 => matches!(b, CodegenValueKind::F64),
        CodegenValueKind::Bool => matches!(b, CodegenValueKind::Bool),
        CodegenValueKind::Text => matches!(b, CodegenValueKind::Text),
        CodegenValueKind::TextBuilder => matches!(b, CodegenValueKind::TextBuilder),
        CodegenValueKind::Bytes => matches!(b, CodegenValueKind::Bytes),
        CodegenValueKind::TextIndex => matches!(b, CodegenValueKind::TextIndex),
        CodegenValueKind::File => matches!(b, CodegenValueKind::File),
        CodegenValueKind::List(x) => match b {
            CodegenValueKind::List(y) => kind_eq(x, y),
            _ => false,
        },
        CodegenValueKind::Enum(x) => match b {
            CodegenValueKind::Enum(y) => text_eq(x.as_str(), y.as_str()),
            _ => false,
        },
        CodegenValueKind::Record(x) => match b {
            CodegenValueKind::Record(y) => text_eq(x.as_str(), y.as_str()),
            _ => false,
        },
    }
}

/// The last record layout named `name`.
pub(crate) fn find_last_record<'a>(records: &'a [NativeRecord], name: &str) -> (r: Option<&'a NativeRecord>)
    ensures
        match last_record_named(records@, name@) {
            Some(x) => r matches Some(y) && *y == x,
            None => r is None,
        },
{
    let mut i: usize = records.len();
    assert(records@.take(i as int) =~= records@);
    while i > 0
        invariant
            i <= records.len(),
            last_record_named(records@, name@) == last_record_named(records@.take(i as int), name@),
        decreases i,
    {
        let ghost t = records@.take(i as int);
        assert(t.drop_last() =~= records@.take(i - 1));
        if text_eq(records[i - 1].name.as_str(), name) {
            return Some(&records[i - 1]);
        }
        i = i - 1;
    }
    None
}

/// The first field named `name`.
pub(crate) fn find_first_field<'a>(fields: &'a Vec<NativeRecordField>, name: &str) -> (r: Option<
    &'a NativeRecordField,
>)
    ensures
        match first_field_named(fields@, name@) {
            Some(x) => r matches Some(y) && *y == x,
            None => r is None,
        },
{
    let mut i: usize = 0;
    assert(fields@.skip(0) =~= fields@);
    while i < fields.len()
        invariant
            i <= fields.len(),
            first_field_named(fields@, name@) == first_field_named(fields@.skip(i as int), name@),
        decreases fields.len() - i,
    {
        assert(fields@.skip(i as int).drop_first() =~= fields@.skip(i + 1));
        if text_eq(fields[i].name.as_str(), name) {
            return Some(&fields[i]);
        }
        i = i + 1;
    }
    None
}

/// The first function named `name`.
pub(crate) fn find_first_function<'a>(functions: &'a [Function], name: &str) -> (r: Option<&'a Function>)
    ensures
        match first_function_named(functions@, name@) {
            Some(x) => r matches Some(y) && *y == x,
            None => r is None,
        },
{
    let mut i: usize = 0;
    assert(functions@.skip(0) =~= functions@);
    while i < functions.len()
        invariant
            i <= functions.len(),
            first_function_named(functions@, name@) == first_function_named(
                functions@.skip(i as int),
                name@,
            ),
        decreases functions.len() - i,
    {
        assert(functions@.skip(i as int).drop_first() =~= functions@.skip(i + 1));
        if text_eq(functions[i].name.as_str(), name) {
            return Some(&functions[i]);
        }
        i = i + 1;
    }
    None
}

/// `prefix`, the value, `middle` and ` in `function``.
fn value_message(prefix: &str, v: ValueId, middle: &str, function: &Function) -> (r: String)
    ensures
        r@ == prefix@ + value_text(v) + middle@ + in_fn(*function),
{
    let mut s = String::from_str(prefix);
    let vt = v.render();
    s.append(vt.as_str());
    s.append(middle);
    s.append(" in `");
    s.append(function.name.as_str());
    s.append("`");
    assert(s@ =~= prefix@ + value_text(v) + middle@ + in_fn(*function));
    s
}

pub open spec fn opt_kind_view(o: Option<CodegenValueKind>) -> Option<KindView> {
    match o {
        Some(k) => Some(kind_view(k)),
        None => None,
    }
}

/// The kind of a branch result, if the branch has one.
fn branch_result_kind(
    kinds: &KindMap,
    result: Option<ValueId>,
    function: &Function,
    branch_name: &str,
) -> (r: Result<Option<CodegenValueKind>, String>)
    ensures
        match branch_kind(*function, kinds@, result, branch_name@) {
            Ok(o) => r matches Ok(x) && opt_kind_view(x) == o,
            Err(e) => r matches Err(x) && x@ == e,
        },
{
    match result {
        None => Ok(None),
        Some(v) => match kinds.get(v) {
            Some(k) => Ok(Some(clone_kind(k))),
            None => {
                let mut s = String::from_str("native ");
                s.append(branch_name);
                let rest = value_message(" branch result ", v, " is unavailable", function);
                s.append(rest.as_str());
                assert(s@ =~= "native "@ + branch_name@ + " branch result "@ + value_text(v)
                    + " is unavailable"@ + in_fn(*function));
                Err(s)
            },
        },
    }
}

/// Records the kind, or passes the error on.
fn put_kind(kinds: &mut KindMap, dest: ValueId, r: Result<CodegenValueKind, String>) -> (res: Result<
    (),
    String,
>)
    ensures
        match put(old(kinds)@, dest, kind_result_view(r)) {
            Ok(m) => res is Ok && final(kinds)@ == m,
            Err(e) => res matches Err(x) && x@ == e,
        },
{
    match r {
        Ok(k) => {
            kinds.insert(dest, k);
            Ok(())
        },
        Err(e) => Err(e),
    }
}

/// Gives the destination of an `if` its kind from the kinds of its branches.
fn join_branch_kinds(
    kinds: &mut KindMap,
    dest: ValueId,
    function: &Function,
    then_falls: bool,
    else_falls: bool,
    then_kind: Option<CodegenValueKind>,
    else_kind: Option<CodegenValueKind>,
) -> (r: Result<(), String>)
    ensures
        match join_branches(
            *function,
            old(kinds)@,
            dest,
            then_falls,
            else_falls,
            opt_kind_view(then_kind),
            opt_kind_view(else_kind),
        ) {
            Ok(m) => r is Ok && final(kinds)@ == m,
            Err(e) => r matches Err(x) && x@ == e,
        },
{
    if then_falls && else_falls {
        match then_kind {
            Some(left) => match else_kind {
                Some(right) => {
                    if kind_eq(&left, &right) {
                        kinds.insert(dest, left);
                        Ok(())
                    } else {
                        let mut s = String::from_str("native conditional branches in `");
                        s.append(function.name.as_str());
                        s.append("` produce incompatible kinds `");
                        let l = kind_debug_text(&left);
                        s.append(l.as_str());
                        s.append("` and `");
                        let rt = kind_debug_text(&right);
                        s.append(rt.as_str());
                        s.append("`");
                        Err(s)
                    }
                },
                None => {
                    let mut s = String::from_str("native conditional fallthrough branches in `");
                    s.append(function.name.as_str());
                    s.append("` do not agree on whether they produce a value");
                    Err(s)
                },
            },
            None => match else_kind {
                Some(_) => {
                    let mut s = String::from_str("native conditional fallthrough branches in `");
                    s.append(function.name.as_str());
                    s.append("` do not agree on whether they produce a value");
                    Err(s)
                },
                None => Ok(()),
            },
        }
    } else if then_falls {
        if let Some(k) = then_kind {
            kinds.insert(dest, k);
        }
        Ok(())
    } else if else_falls {
        if let Some(k) = else_kind {
            kinds.insert(dest, k);
        }
        Ok(())
    } else {
        Ok(())
    }
}

} // verus!

verus! {

/// Records the kinds that one instruction gives, inferring nested blocks in
/// order (see `infer_inst`).
#[verifier::rlimit(60)]
fn infer_one_inst(
    function: &Function,
    inst: &Inst,
    records: &[NativeRecord],
    enums: &[(String, NativeEnum)],
    functions: &[Function],
    kinds: &mut KindMap,
) -> (r: Result<(), String>)
    ensures
        match infer_inst(kind_env(*function, records@, enums@, functions@), *inst, old(kinds)@) {
            Ok(m) => r is Ok && final(kinds)@ == m,
            Err(e) => r matches Err(x) && x@ == e,
        },
    decreases *inst, 1nat,
{
    match inst {
        Inst::LoadParam { dest, index } => {
            if *index < function.params.len() {
                let ty = function.params[*index].ty.as_str();
                put_kind(kinds, *dest, native_value_kind(ty, records, enums))
            } else {
                let mut s = String::from_str("native parameter load out of bounds in `");
                s.append(function.name.as_str());
                s.append("` at index ");
                push_u64(&mut s, *index as u64);
                Err(s)
            }
        },
        Inst::LoadLocal { dest, slot } => match function.mutable_local_type(*slot) {
            Some(ty) => put_kind(kinds, *dest, native_value_kind(ty, records, enums)),
            None => {
                let mut s = String::from_str("native mutable local ");
                let st = slot.render();
                s.append(st.as_str());
                s.append(" is unknown");
                s.append(" in `");
                s.append(function.name.as_str());
                s.append("`");
                assert(s@ =~= "native mutable local "@ + slot_text(*slot) + " is unknown"@ + in_fn(
                    *function,
                ));
                Err(s)
            },
        },
        Inst::ConstInt { dest, .. } | Inst::TextLen { dest, .. } | Inst::TextByte { dest, .. }
        | Inst::ArgCount { dest } | Inst::ListLen { dest, .. } | Inst::ParseI32 { dest, .. }
        | Inst::TextCmp { dest, .. } | Inst::TextEqRange { dest, .. }
        | Inst::TextFindByteRange { dest, .. } | Inst::ParseI32Range { dest, .. } => {
            kinds.insert(*dest, CodegenValueKind::I32);
            Ok(())
        },
        Inst::ParseF64 { dest, .. } | Inst::F64FromI32 { dest, .. } | Inst::ConstF64 { dest, .. }
        | Inst::Sqrt { dest, .. } => {
            kinds.insert(*dest, CodegenValueKind::F64);
            Ok(())
        },
        Inst::ListGet { dest, list, .. } => {
            let element = match kinds.get(*list) {
                Some(CodegenValueKind::List(e)) => clone_kind(e),
                _ => {
                    return Err(value_message("native list_get input ", *list, " is not a list", function));
                },
            };
            kinds.insert(*dest, element);
            Ok(())
        },
        Inst::TextBuilderNew { dest } | Inst::TextBuilderAppend { dest, .. }
        | Inst::TextBuilderAppendCodepoint { dest, .. } => {
            kinds.insert(*dest, CodegenValueKind::TextBuilder);
            Ok(())
        },
        Inst::ListNew { dest, value, .. } => {
            let element = match kinds.get(*value) {
                Some(k) => clone_kind(k),
                None => {
                    return Err(value_message("native list_new input ", *value, " has unknown kind", function));
                },
            };
            kinds.insert(*dest, CodegenValueKind::List(Box::new(element)));
            Ok(())
        },
        Inst::ListSet { dest, list, .. } => {
            let kind = match kinds.get(*list) {
                Some(k) => clone_kind(k),
                None => {
                    return Err(value_message("native list_set input ", *list, " has unknown kind", function));
                },
            };
            kinds.insert(*dest, kind);
            Ok(())
        },
        Inst::TextConcat { dest, .. } | Inst::TextSlice { dest, .. }
        | Inst::TextBuilderFinish { dest, .. } | Inst::TextFromF64Fixed { dest, .. }
        | Inst::ArgText { dest, .. } | Inst::StdinText { dest } | Inst::ConstText {
            dest,
            ..
        } => {
            kinds.insert(*dest, CodegenValueKind::Text);
            Ok(())
        },
        Inst::Add { dest, left, .. } | Inst::Sub { dest, left, .. } | Inst::Mul { dest, left, .. }
        | Inst::Div { dest, left, .. } => {
            let kind = match kinds.get(*left) {
                Some(k) => clone_kind(k),
                None => {
                    return Err(value_message("native arithmetic input ", *left, " has unknown kind", function));
                },
            };
            if matches!(kind, CodegenValueKind::I32 | CodegenValueKind::F64) {
                kinds.insert(*dest, kind);
                Ok(())
            } else {
                let mut s = String::from_str("native arithmetic in `");
                s.append(function.name.as_str());
                s.append("` only supports numeric kinds, found `");
                let d = kind_debug_text(&kind);
                s.append(d.as_str());
                s.append("`");
                Err(s)
            }
        },
        Inst::ConstBool { dest, .. } | Inst::And { dest, .. } | Inst::Or { dest, .. }
        | Inst::Eq { dest, .. } | Inst::Ne { dest, .. } | Inst::Lt { dest, .. } | Inst::Le {
            dest,
            ..
        } | Inst::Gt { dest, .. } | Inst::Ge { dest, .. } | Inst::EnumTagEq { dest, .. } => {
            kinds.insert(*dest, CodegenValueKind::Bool);
            Ok(())
        },
        Inst::MakeEnum { dest, name, .. } => {
            kinds.insert(*dest, CodegenValueKind::Enum(name.clone()));
            Ok(())
        },
        Inst::EnumPayload { dest, payload_type, .. } => put_kind(
            kinds,
            *dest,
            native_value_kind(payload_type.as_str(), records, enums),
        ),
        Inst::MakeRecord { dest, name, .. } => {
            kinds.insert(*dest, CodegenValueKind::Record(name.clone()));
            Ok(())
        },
        Inst::Field { dest, base, name } => {
            let record_name = match kinds.get(*base) {
                Some(CodegenValueKind::Record(n)) => n.clone(),
                _ => {
                    return Err(value_message("native field base ", *base, " is not a record", function));
                },
            };
            match find_last_record(records, record_name.as_str()) {
                None => {
                    let mut s = String::from_str("missing native record metadata for `");
                    s.append(record_name.as_str());
                    s.append("`");
                    Err(s)
                },
                Some(rec) => match find_first_field(&rec.fields, name.as_str()) {
                    None => {
                        let mut s = String::from_str("record `");
                        s.append(record_name.as_str());
                        s.append("` has no native field `");
                        s.append(name.as_str());
                        s.append("`");
                        s.append(" in `");
                        s.append(function.name.as_str());
                        s.append("`");
                        assert(s@ =~= "record `"@ + record_name@ + "` has no native field `"@
                            + name@ + "`"@ + in_fn(*function));
                        Err(s)
                    },
                    Some(field) => {
                        let k = clone_kind(&field.kind);
                        kinds.insert(*dest, k);
                        Ok(())
                    },
                },
            }
        },
        Inst::Call { dest, callee, .. } => match find_first_function(functions, callee.as_str()) {
            None => Ok(()),
            Some(c) => match &c.return_type {
                None => Ok(()),
                Some(rt) => {
                    if text_eq(rt.as_str(), "Unit") {
                        Ok(())
                    } else {
                        put_kind(kinds, *dest, native_value_kind(rt.as_str(), records, enums))
                    }
                },
            },
        },
        Inst::If { dest, then_insts, then_result, else_insts, else_result, .. } => {
            assert(decreases_to!(*inst => then_insts@));
            assert(decreases_to!(*inst => else_insts@));
            let a = infer_inst_kinds(function, then_insts.as_slice(), records, enums, functions, kinds);
            if let Err(e) = a {
                return Err(e);
            }
            let b = infer_inst_kinds(function, else_insts.as_slice(), records, enums, functions, kinds);
            if let Err(e) = b {
                return Err(e);
            }
            let then_falls = insts_fall_through(then_insts.as_slice());
            let else_falls = insts_fall_through(else_insts.as_slice());
            let then_kind = match branch_result_kind(kinds, *then_result, function, "then") {
                Ok(k) => k,
                Err(e) => {
                    return Err(e);
                },
            };
            let else_kind = match branch_result_kind(kinds, *else_result, function, "else") {
                Ok(k) => k,
                Err(e) => {
                    return Err(e);
                },
            };
            join_branch_kinds(kinds, *dest, function, then_falls, else_falls, then_kind, else_kind)
        },
        Inst::While { condition_insts, body_insts, .. } => {
            assert(decreases_to!(*inst => condition_insts@));
            assert(decreases_to!(*inst => body_insts@));
            let a = infer_inst_kinds(function, condition_insts.as_slice(), records, enums, functions, kinds);
            if let Err(e) = a {
                return Err(e);
            }
            infer_inst_kinds(function, body_insts.as_slice(), records, enums, functions, kinds)
        },
        Inst::Repeat { body_insts, .. } => {
            assert(decreases_to!(*inst => body_insts@));
            infer_inst_kinds(function, body_insts.as_slice(), records, enums, functions, kinds)
        },
        Inst::StoreLocal { .. } | Inst::Assert { .. } | Inst::StdoutWrite { .. }
        | Inst::Perform { .. } | Inst::Handle { .. } | Inst::AllocPush | Inst::AllocPop => Ok(()),
    }
}

/// Records the kinds that a sequence of instructions gives, in order; stops
/// at the first error (see `infer_insts`).
fn infer_inst_kinds(
    function: &Function,
    instructions: &[Inst],
    records: &[NativeRecord],
    enums: &[(String, NativeEnum)],
    functions: &[Function],
    kinds: &mut KindMap,
) -> (r: Result<(), String>)
    ensures
        match infer_insts(
            kind_env(*function, records@, enums@, functions@),
            instructions@,
            old(kinds)@,
        ) {
            Ok(m) => r is Ok && final(kinds)@ == m,
            Err(e) => r matches Err(x) && x@ == e,
        },
    decreases instructions@, 0nat,
{
    let ghost env = kind_env(*function, records@, enums@, functions@);
    let ghost k0 = kinds@;
    let mut k: usize = 0;
    assert(instructions@.subrange(0, 0) =~= Seq::<Inst>::empty());
    while k < instructions.len()
        invariant
            k <= instructions.len(),
            env == kind_env(*function, records@, enums@, functions@),
            k0 == old(kinds)@,
            infer_insts(env, instructions@.subrange(0, k as int), k0) == Ok::<
                Map<u32, KindView>,
                Seq<char>,
            >(kinds@),
        decreases instructions.len() - k,
    {
        let ghost pre = instructions@.subrange(0, k + 1);
        assert(pre.subrange(0, pre.len() - 1) =~= instructions@.subrange(0, k as int));
        assert(pre[pre.len() - 1] == instructions@[k as int]);
        assert(decreases_to!(instructions@ => instructions@[k as int]));
        let ghost before = kinds@;
        let r = infer_one_inst(function, &instructions[k], records, enums, functions, kinds);
        if let Err(e) = r {
            proof {
                assert(infer_insts(env, pre, k0) == infer_inst(env, instructions@[k as int], before));
                lemma_infer_err_sticks(env, instructions@, k + 1, instructions@.len() as int, k0);
                assert(instructions@.subrange(0, instructions@.len() as int) =~= instructions@);
            }
            return Err(e);
        }
        k = k + 1;
    }
    assert(instructions@.subrange(0, instructions@.len() as int) =~= instructions@);
    Ok(())
}

/// The kind of every value that the function defines, or the first error
/// (see `infer_insts`).
pub fn infer_value_kinds(
    function: &Function,
    records: &[NativeRecord],
    enums: &[(String, NativeEnum)],
    functions: &[Function],
) -> (r: Result<KindMap, String>)
    ensures
        match infer_insts(
            kind_env(*function, records@, enums@, functions@),
            function.instructions@,
            Map::empty(),
        ) {
            Ok(m) => r matches Ok(x) && x@ == m,
            Err(e) => r matches Err(x) && x@ == e,
        },
{
    let mut kinds = KindMap::new();
    match infer_inst_kinds(function, function.instructions.as_slice(), records, enums, functions, &mut kinds) {
        Ok(()) => Ok(kinds),
        Err(e) => Err(e),
    }
}

} // verus!
