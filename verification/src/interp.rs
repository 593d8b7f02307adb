//! Instruction evaluation of the MIR interpreter, on operand values already
//! read: text queries and concatenation, enum tag tests, field, payload and
//! parameter reads, integer arithmetic, ordering comparisons, structural
//! equality (floats compared as IEEE-754 numbers on their bits), conditions
//! and contract checks, and the interpreter's text builders and lists. Float arithmetic
//! and comparisons are handed back as a request, over the operands' bits,
//! for the caller to compute.
use vstd::prelude::*;

use crate::runtime::{
    sarif_text_cmp, sarif_text_eq_range, sarif_text_find_byte_range, spec_find_byte, starts_at_char, text_order,
    text_range_spec,
};
use crate::text_builder::{is_scalar, sarif_text_builder_append_codepoint, utf8_encode};
use crate::lower_type::{is_whitespace, spec_is_whitespace};
use crate::mir::ContractKind;
use crate::pretty::keyword_text;
use crate::text::text_eq;
use crate::values::{enum_tag, field_position, spec_enum_tag, tag_result, RuntimeError, RuntimeValue};

verus! {

/// The four arithmetic instructions.
#[derive(Clone, Copy, Debug, PartialEq, Eq, Structural)]
pub enum ArithOp {
    Add,
    Sub,
    Mul,
    Div,
}

/// The four ordering comparisons.
#[derive(Clone, Copy, Debug, PartialEq, Eq, Structural)]
pub enum OrderOp {
    Lt,
    Le,
    Gt,
    Ge,
}

/// What evaluating an instruction gives: its value, or a float operation
/// (on the operands' bits) that the caller computes.
pub enum Evaluated {
    Value(RuntimeValue),
    FloatArith(ArithOp, u64, u64),
    FloatOrder(OrderOp, u64, u64),
}

/// The result is the interpreter error with message `m`.
pub open spec fn fails_with<T>(r: Result<T, RuntimeError>, m: Seq<char>) -> bool {
    r matches Err(RuntimeError::Message(s)) && s@ == m
}

/// The bytes of a text value.
pub open spec fn text_bytes(t: String) -> Seq<u8> {
    vstd::utf8::encode_utf8(t@)
}

/// The bytes of a text start at a character.
pub proof fn lemma_text_starts_at_char(t: String)
    ensures
        starts_at_char(text_bytes(t)),
{
    let b = text_bytes(t);
    vstd::utf8::encode_utf8_valid_utf8(t@);
    if b.len() > 0 {
        vstd::utf8::is_char_boundary_iff_not_is_continuation_byte(b, 0);
    }
}

fn bytes_of(t: &String) -> (r: &[u8])
    ensures
        r@ == text_bytes(*t),
{
    t.as_str().as_bytes()
}

/// `TextLen`: the number of bytes of a text.
pub fn text_len_value(text: &RuntimeValue) -> (r: Result<RuntimeValue, RuntimeError>)
    ensures
        match *text {
            RuntimeValue::Text(t) => r == Ok::<RuntimeValue, RuntimeError>(RuntimeValue::Int(text_bytes(t).len() as i64)),
            _ => fails_with(r, "expected Text"@),
        },
{
    match text {
        RuntimeValue::Text(t) => Ok(RuntimeValue::Int(bytes_of(t).len() as i64)),
        _ => Err(RuntimeError::new(String::from_str("expected Text"))),
    }
}

/// `TextByte`: the byte at the index, 0 when the index is outside the text.
pub fn text_byte_value(text: &RuntimeValue, index: &RuntimeValue) -> (r: Result<RuntimeValue, RuntimeError>)
    ensures
        match (*text, *index) {
            (RuntimeValue::Text(t), RuntimeValue::Int(i)) => r == Ok::<RuntimeValue, RuntimeError>(RuntimeValue::Int(
                if 0 <= i < text_bytes(t).len() {
                    text_bytes(t)[i as int] as i64
                } else {
                    0
                },
            )),
            (RuntimeValue::Text(_), _) => fails_with(r, "expected Int"@),
            _ => fails_with(r, "expected Text"@),
        },
{
    let t = match text {
        RuntimeValue::Text(t) => t,
        _ => return Err(RuntimeError::new(String::from_str("expected Text"))),
    };
    let i = match index {
        RuntimeValue::Int(i) => *i,
        _ => return Err(RuntimeError::new(String::from_str("expected Int"))),
    };
    let bytes = bytes_of(t);
    if 0 <= i && (i as u64) < (bytes.len() as u64) {
        Ok(RuntimeValue::Int(bytes[i as usize] as i64))
    } else {
        Ok(RuntimeValue::Int(0))
    }
}

/// `TextCmp`: -1, 0 or 1 as the left text orders before, equal to or after
/// the right one, bytewise.
pub fn text_compare_value(left: &RuntimeValue, right: &RuntimeValue) -> (r: Result<RuntimeValue, RuntimeError>)
    ensures
        match (*left, *right) {
            (RuntimeValue::Text(l), RuntimeValue::Text(rt)) => r matches Ok(RuntimeValue::Int(v)) && v == text_order(
                Some(text_bytes(l)),
                Some(text_bytes(rt)),
            ),
            _ => fails_with(r, "expected Text"@),
        },
{
    match (left, right) {
        (RuntimeValue::Text(l), RuntimeValue::Text(rt)) => {
            let order = sarif_text_cmp(Some(bytes_of(l)), Some(bytes_of(rt)));
            Ok(RuntimeValue::Int(order))
        },
        _ => Err(RuntimeError::new(String::from_str("expected Text"))),
    }
}

/// `TextEqRange`: whether the range `text_range_spec(start, end)` of the
/// source text holds exactly the expected text.
pub fn text_eq_range_value(
    source: &RuntimeValue,
    start: &RuntimeValue,
    end: &RuntimeValue,
    expected: &RuntimeValue,
) -> (r: Result<RuntimeValue, RuntimeError>)
    ensures
        match (*source, *start, *end, *expected) {
            (RuntimeValue::Text(s), RuntimeValue::Int(a), RuntimeValue::Int(b), RuntimeValue::Text(x)) => r
                == Ok::<RuntimeValue, RuntimeError>(RuntimeValue::Bool(
                text_bytes(s).subrange(
                    text_range_spec(text_bytes(s), a as int, b as int).0,
                    text_range_spec(text_bytes(s), a as int, b as int).1,
                ) == text_bytes(x),
            )),
            (RuntimeValue::Text(_), RuntimeValue::Int(_), RuntimeValue::Int(_), _) => fails_with(r, "expected Text"@),
            (RuntimeValue::Text(_), RuntimeValue::Int(_), _, _) => fails_with(r, "expected Int"@),
            (RuntimeValue::Text(_), _, _, _) => fails_with(r, "expected Int"@),
            _ => fails_with(r, "expected Text"@),
        },
{
    let s = match source {
        RuntimeValue::Text(s) => s,
        _ => return Err(RuntimeError::new(String::from_str("expected Text"))),
    };
    let a = match start {
        RuntimeValue::Int(a) => *a,
        _ => return Err(RuntimeError::new(String::from_str("expected Int"))),
    };
    let b = match end {
        RuntimeValue::Int(b) => *b,
        _ => return Err(RuntimeError::new(String::from_str("expected Int"))),
    };
    let x = match expected {
        RuntimeValue::Text(x) => x,
        _ => return Err(RuntimeError::new(String::from_str("expected Text"))),
    };
    proof {
        lemma_text_starts_at_char(*s);
    }
    let found = sarif_text_eq_range(Some(bytes_of(s)), a, b, Some(bytes_of(x)));
    Ok(RuntimeValue::Bool(found == 1))
}

/// `TextFindByteRange`: the first position of the byte (taken modulo 256)
/// in the range `text_range_spec(start, end)` of the source text, or the
/// end of that range.
pub fn text_find_byte_range_value(
    source: &RuntimeValue,
    start: &RuntimeValue,
    end: &RuntimeValue,
    byte: &RuntimeValue,
) -> (r: Result<RuntimeValue, RuntimeError>)
    requires
        *source matches RuntimeValue::Text(s) ==> text_bytes(s).len() <= i64::MAX,
    ensures
        match (*source, *start, *end, *byte) {
            (RuntimeValue::Text(s), RuntimeValue::Int(a), RuntimeValue::Int(b), RuntimeValue::Int(c)) => r
                == Ok::<RuntimeValue, RuntimeError>(RuntimeValue::Int(
                spec_find_byte(Some(text_bytes(s)), a as int, b as int, c as int) as i64,
            )),
            (RuntimeValue::Text(_), _, _, _) => fails_with(r, "expected Int"@),
            _ => fails_with(r, "expected Text"@),
        },
{
    let s = match source {
        RuntimeValue::Text(s) => s,
        _ => return Err(RuntimeError::new(String::from_str("expected Text"))),
    };
    let a = match start {
        RuntimeValue::Int(a) => *a,
        _ => return Err(RuntimeError::new(String::from_str("expected Int"))),
    };
    let b = match end {
        RuntimeValue::Int(b) => *b,
        _ => return Err(RuntimeError::new(String::from_str("expected Int"))),
    };
    let c = match byte {
        RuntimeValue::Int(c) => *c,
        _ => return Err(RuntimeError::new(String::from_str("expected Int"))),
    };
    proof {
        lemma_text_starts_at_char(*s);
    }
    let found = sarif_text_find_byte_range(Some(bytes_of(s)), a, b, c);
    Ok(RuntimeValue::Int(found))
}

/// `TextConcat`: the left text followed by the right one.
pub fn text_concat_value(left: &RuntimeValue, right: &RuntimeValue) -> (r: Result<RuntimeValue, RuntimeError>)
    ensures
        match (*left, *right) {
            (RuntimeValue::Text(l), RuntimeValue::Text(rt)) => r matches Ok(RuntimeValue::Text(v)) && v@ == l@ + rt@,
            _ => fails_with(r, "expected Text"@),
        },
{
    match (left, right) {
        (RuntimeValue::Text(l), RuntimeValue::Text(rt)) => {
            let mut v = l.clone();
            v.append(rt.as_str());
            Ok(RuntimeValue::Text(v))
        },
        _ => Err(RuntimeError::new(String::from_str("expected Text"))),
    }
}

/// `EnumTagEq`: whether an enum value's tag (its variant's position in its
/// enum), or an integer taken as a tag, is `tag`.
pub fn enum_tag_eq_value(program: &crate::mir::Program, value: &RuntimeValue, tag: i64) -> (r: Result<RuntimeValue, RuntimeError>)
    requires
        forall|i: int|
            0 <= i < program.enums@.len() ==> (#[trigger] program.enums@[i]).variants@.len() <= i64::MAX,
    ensures
        match *value {
            RuntimeValue::Enum(e) => match spec_enum_tag(*program, e) {
                Ok(t) => r matches Ok(RuntimeValue::Bool(b)) && b == (t == tag),
                Err(m) => r matches Err(err) && tag_result(Err(err)) == Err::<i64, Seq<char>>(m),
            },
            RuntimeValue::Int(v) => r matches Ok(RuntimeValue::Bool(b)) && b == (v == tag),
            _ => fails_with(r, "expected enum value or enum tag for tag test"@),
        },
{
    let actual = match value {
        RuntimeValue::Enum(e) => match enum_tag(program, e) {
            Ok(t) => t,
            Err(err) => return Err(err),
        },
        RuntimeValue::Int(v) => *v,
        _ => return Err(RuntimeError::new(String::from_str("expected enum value or enum tag for tag test"))),
    };
    Ok(RuntimeValue::Bool(actual == tag))
}

/// A code point below 2^32 is its own low 32 bits.
proof fn lemma_low_bits_of_small(c: i64)
    requires
        0 <= c <= 0x10FFFF,
    ensures
        crate::text_builder::code_point_of(c as int) == c as nat,
{
    reveal_with_fuel(crate::runtime::pow256, 5);
    assert(crate::runtime::pow256(4) == 0x1_0000_0000);
}

/// The message for a value that is not a record in a field access.
pub open spec fn not_record_msg(name: Seq<char>) -> Seq<char> {
    "expected record value for field access `"@ + name + "`"@
}

/// The message for a record without the field.
pub open spec fn no_field_msg(record: Seq<char>, name: Seq<char>) -> Seq<char> {
    "record `"@ + record + "` has no field `"@ + name + "`"@
}

/// `Field`: the value of the first field of a record with the name.
pub fn field_value<'a>(base: &'a RuntimeValue, name: &str) -> (r: Result<&'a RuntimeValue, RuntimeError>)
    ensures
        match *base {
            RuntimeValue::Record(rec) => match field_position(rec.fields@, name@, 0) {
                Some(p) => r matches Ok(v) && *v == rec.fields@[p as int].1,
                None => fails_with(r, no_field_msg(rec.name@, name@)),
            },
            _ => fails_with(r, not_record_msg(name@)),
        },
{
    let rec = match base {
        RuntimeValue::Record(rec) => rec,
        _ => {
            let mut m = String::from_str("expected record value for field access `");
            m.append(name);
            m.append("`");
            return Err(RuntimeError::new(m));
        },
    };
    let mut i: usize = 0;
    while i < rec.fields.len()
        invariant
            *base == RuntimeValue::Record(*rec),
            i <= rec.fields@.len(),
            field_position(rec.fields@, name@, 0) == field_position(rec.fields@, name@, i as nat),
        decreases rec.fields@.len() - i,
    {
        if text_eq(rec.fields[i].0.as_str(), name) {
            assert(field_position(rec.fields@, name@, i as nat) == Some(i as nat));
            return Ok(&rec.fields[i].1);
        }
        i = i + 1;
    }
    let mut m = String::from_str("record `");
    m.append(rec.name.as_str());
    m.append("` has no field `");
    m.append(name);
    m.append("`");
    Err(RuntimeError::new(m))
}

/// `EnumPayload`: the payload of an enum value.
pub fn payload_value(value: &RuntimeValue) -> (r: Result<&RuntimeValue, RuntimeError>)
    ensures
        match *value {
            RuntimeValue::Enum(e) => match e.payload {
                Some(p) => r matches Ok(v) && *v == *p,
                None => fails_with(r, "enum variant has no payload"@),
            },
            _ => fails_with(r, "expected enum value for payload access"@),
        },
{
    match value {
        RuntimeValue::Enum(e) => match &e.payload {
            Some(p) => Ok(&**p),
            None => Err(RuntimeError::new(String::from_str("enum variant has no payload"))),
        },
        _ => Err(RuntimeError::new(String::from_str("expected enum value for payload access"))),
    }
}

/// `LoadParam`: the argument at the index.
pub fn param_value(args: &[RuntimeValue], index: usize) -> (r: Result<&RuntimeValue, RuntimeError>)
    ensures
        if index < args@.len() {
            r matches Ok(v) && *v == args@[index as int]
        } else {
            fails_with(r, "parameter load out of bounds"@)
        },
{
    if index < args.len() {
        Ok(&args[index])
    } else {
        Err(RuntimeError::new(String::from_str("parameter load out of bounds")))
    }
}

/// The message of a failed `Assert` in the named function.
pub open spec fn contract_failure_msg(kind: ContractKind, function: Seq<char>) -> Seq<char> {
    match kind {
        ContractKind::Bounds => "bounds assertion failed in `"@ + function + "`"@,
        _ => keyword_text(kind) + " contract failed in `"@ + function + "`"@,
    }
}

/// `Assert`: nothing when the condition holds, and the failure of the
/// contract or bounds check otherwise.
pub fn check_assert(condition: bool, kind: ContractKind, function: &str) -> (r: Result<(), RuntimeError>)
    ensures
        condition ==> r is Ok,
        !condition ==> fails_with(r, contract_failure_msg(kind, function@)),
{
    if condition {
        return Ok(());
    }
    let mut m = String::new();
    match kind {
        ContractKind::Bounds => {
            m.append("bounds assertion failed in `");
        },
        _ => {
            m.append(kind.keyword());
            m.append(" contract failed in `");
        },
    }
    m.append(function);
    m.append("`");
    Err(RuntimeError::new(m))
}

/// The position of the first character at or after `i` that is not white
/// space, or the length.
pub open spec fn first_non_space(s: Seq<char>, i: int) -> int
    decreases s.len() - i,
{
    if i >= s.len() || i < 0 {
        s.len() as int
    } else if spec_is_whitespace(s[i]) {
        first_non_space(s, i + 1)
    } else {
        i
    }
}

/// The end of the text up to `j` without its trailing white space.
pub open spec fn end_non_space(s: Seq<char>, j: int) -> int
    decreases j,
{
    if j <= 0 || j > s.len() {
        0
    } else if spec_is_whitespace(s[j - 1]) {
        end_non_space(s, j - 1)
    } else {
        j
    }
}

/// The text without its leading and trailing white space.
pub open spec fn trimmed(s: Seq<char>) -> Seq<char> {
    let lo = first_non_space(s, 0);
    let hi = end_non_space(s, s.len() as int);
    if hi <= lo {
        Seq::empty()
    } else {
        s.subrange(lo, hi)
    }
}

/// Whether every character is an ASCII digit.
pub open spec fn all_digits(s: Seq<char>) -> bool {
    forall|i: int| 0 <= i < s.len() ==> '0' <= #[trigger] s[i] <= '9'
}

/// The number that decimal digits spell.
pub open spec fn digits_value(s: Seq<char>) -> int
    decreases s.len(),
{
    if s.len() == 0 {
        0
    } else {
        digits_value(s.drop_last()) * 10 + (s.last() as int - '0' as int)
    }
}

/// What Rust's `i64` parsing gives for a text: an optional sign (`+` or
/// `-`) and at least one decimal digit, whose value fits an `i64`.
pub open spec fn spec_parse_i64(s: Seq<char>) -> Option<i64> {
    if s.len() == 0 {
        None
    } else {
        let neg = s[0] == '-';
        let body = if s[0] == '-' || s[0] == '+' { s.drop_first() } else { s };
        if body.len() == 0 || !all_digits(body) {
            None
        } else {
            let v = if neg { -digits_value(body) } else { digits_value(body) };
            if i64::MIN <= v <= i64::MAX {
                Some(v as i64)
            } else {
                None
            }
        }
    }
}

proof fn lemma_digits_grow(s: Seq<char>, j: int, k: int)
    requires
        all_digits(s),
        0 <= j <= k <= s.len(),
    ensures
        0 <= digits_value(s.subrange(0, j)) <= digits_value(s.subrange(0, k)),
    decreases k - j,
{
    if j < k {
        lemma_digits_grow(s, j, k - 1);
        assert(s.subrange(0, k).drop_last() =~= s.subrange(0, k - 1));
        assert('0' <= s[k - 1] <= '9');
    } else {
        lemma_digits_nonneg(s.subrange(0, j));
    }
}

proof fn lemma_digits_nonneg(s: Seq<char>)
    requires
        all_digits(s),
    ensures
        digits_value(s) >= 0,
    decreases s.len(),
{
    if s.len() > 0 {
        assert(all_digits(s.drop_last())) by {
            assert forall|i: int| 0 <= i < s.drop_last().len() implies '0' <= #[trigger] s.drop_last()[i] <= '9' by {
                assert(s.drop_last()[i] == s[i]);
            }
        }
        lemma_digits_nonneg(s.drop_last());
        assert('0' <= s[s.len() - 1] <= '9');
    }
}

/// `ParseI32`: the integer that a text spells once its surrounding white
/// space is removed (Rust's `i64` parsing), or an error.
pub fn parse_int_value(text: &RuntimeValue) -> (r: Result<RuntimeValue, RuntimeError>)
    ensures
        match *text {
            RuntimeValue::Text(t) => match spec_parse_i64(trimmed(t@)) {
                Some(v) => r matches Ok(RuntimeValue::Int(x)) && x == v,
                None => fails_with(r, "expected base-10 integer text"@),
            },
            _ => fails_with(r, "expected Text"@),
        },
{
    let t = match text {
        RuntimeValue::Text(t) => t,
        _ => return Err(RuntimeError::new(String::from_str("expected Text"))),
    };
    let s = t.as_str();
    let n = s.unicode_len();
    let ghost cs = t@;
    let mut lo: usize = 0;
    while lo < n && is_whitespace(s.get_char(lo))
        invariant
            *text == RuntimeValue::Text(*t),
            cs == t@,
            n == cs.len(),
            s@ == cs,
            lo <= n,
            first_non_space(cs, 0) == first_non_space(cs, lo as int),
        decreases n - lo,
    {
        lo = lo + 1;
    }
    let mut hi: usize = n;
    while hi > lo && is_whitespace(s.get_char(hi - 1))
        invariant
            *text == RuntimeValue::Text(*t),
            cs == t@,
            n == cs.len(),
            s@ == cs,
            lo <= hi <= n,
            end_non_space(cs, cs.len() as int) == end_non_space(cs, hi as int),
            lo < n ==> !spec_is_whitespace(cs[lo as int]),
            lo == first_non_space(cs, 0),
        decreases hi - lo,
    {
        hi = hi - 1;
    }
    assert(lo < hi ==> end_non_space(cs, hi as int) == hi);
    assert(hi <= lo ==> end_non_space(cs, hi as int) <= lo) by {
        lemma_end_non_space_at_most(cs, hi as int);
    }
    let ghost body_all = trimmed(cs);
    assert(lo < hi ==> body_all == cs.subrange(lo as int, hi as int));
    assert(hi <= lo ==> body_all.len() == 0);
    if hi <= lo {
        return Err(RuntimeError::new(String::from_str("expected base-10 integer text")));
    }
    let first = s.get_char(lo);
    let neg = first == '-';
    let start: usize = if first == '-' || first == '+' { lo + 1 } else { lo };
    let ghost body = cs.subrange(start as int, hi as int);
    assert(body =~= if body_all[0] == '-' || body_all[0] == '+' { body_all.drop_first() } else { body_all });
    if start >= hi {
        return Err(RuntimeError::new(String::from_str("expected base-10 integer text")));
    }
    let mut acc: i128 = 0;
    let mut k: usize = start;
    while k < hi
        invariant
            *text == RuntimeValue::Text(*t),
            cs == t@,
            n == cs.len(),
            s@ == cs,
            start <= k <= hi <= n,
            body == cs.subrange(start as int, hi as int),
            body_all == trimmed(cs),
            body_all.len() > 0,
            neg == (body_all[0] == '-'),
            body == (if body_all[0] == '-' || body_all[0] == '+' { body_all.drop_first() } else { body_all }),
            all_digits(cs.subrange(start as int, k as int)),
            acc == digits_value(cs.subrange(start as int, k as int)),
            0 <= acc <= 0x8000_0000_0000_0000,
        decreases hi - k,
    {
        let c = s.get_char(k);
        let ghost prefix = cs.subrange(start as int, k as int);
        let ghost next = cs.subrange(start as int, k + 1);
        assert(next.drop_last() =~= prefix);
        if !('0' <= c && c <= '9') {
            assert(body[k - start] == c);
            assert(!all_digits(body));
            return Err(RuntimeError::new(String::from_str("expected base-10 integer text")));
        }
        assert(all_digits(next)) by {
            assert forall|i: int| 0 <= i < next.len() implies '0' <= #[trigger] next[i] <= '9' by {
                if i < prefix.len() {
                    assert(next[i] == prefix[i]);
                }
            }
        }
        let d: i128 = (c as u32 - '0' as u32) as i128;
        acc = acc * 10 + d;
        if acc > 0x8000_0000_0000_0000 {
            proof {
                let m = k + 1 - start;
                assert(cs.subrange(start as int, k + 1) =~= body.subrange(0, m as int));
                if all_digits(body) {
                    lemma_digits_grow(body, m as int, body.len() as int);
                    assert(body.subrange(0, body.len() as int) =~= body);
                }
            }
            return Err(RuntimeError::new(String::from_str("expected base-10 integer text")));
        }
        k = k + 1;
    }
    assert(cs.subrange(start as int, hi as int) =~= body);
    let v: i128 = if neg { -acc } else { acc };
    if v < i64::MIN as i128 || v > i64::MAX as i128 {
        return Err(RuntimeError::new(String::from_str("expected base-10 integer text")));
    }
    Ok(RuntimeValue::Int(v as i64))
}

proof fn lemma_end_non_space_at_most(s: Seq<char>, j: int)
    ensures
        end_non_space(s, j) <= (if j < 0 { 0 } else { j }),
    decreases j,
{
    if j > 0 && j <= s.len() && spec_is_whitespace(s[j - 1]) {
        lemma_end_non_space_at_most(s, j - 1);
    }
}

/// The interpreter's text builders. A builder's handle is its position; a
/// finished builder's slot is empty, and its handle is not given out again.
pub struct TextBuilders {
    slots: Vec<Option<Vec<u8>>>,
}

/// The bytes of a builder slot.
pub open spec fn slot_view(o: Option<Vec<u8>>) -> Option<Seq<u8>> {
    match o {
        Some(v) => Some(v@),
        None => None,
    }
}

impl View for TextBuilders {
    type V = Seq<Option<Seq<u8>>>;

    closed spec fn view(&self) -> Seq<Option<Seq<u8>>> {
        self.slots@.map_values(|o: Option<Vec<u8>>| slot_view(o))
    }
}

/// The message for a handle that names no open builder.
pub open spec fn unavailable_msg() -> Seq<char> {
    "text builder handle is unavailable"@
}

/// The open builder that a value names: its handle, when the value is a
/// text builder whose slot holds bytes.
pub open spec fn open_builder(b: Seq<Option<Seq<u8>>>, v: RuntimeValue) -> Option<int> {
    match v {
        RuntimeValue::TextBuilder(id) => if id < b.len() && b[id as int] is Some {
            Some(id as int)
        } else {
            None
        },
        _ => None,
    }
}

impl TextBuilders {
    /// No builders.
    pub fn new() -> (r: TextBuilders)
        ensures
            r@ == Seq::<Option<Seq<u8>>>::empty(),
    {
        let r = TextBuilders { slots: Vec::new() };
        assert(r@ =~= Seq::<Option<Seq<u8>>>::empty());
        r
    }

    fn lookup(&self, v: &RuntimeValue) -> (r: Option<usize>)
        ensures
            r is Some <==> open_builder(self@, *v) is Some,
            r matches Some(j) ==> open_builder(self@, *v) == Some(j as int) && j < self@.len() && self@[j as int] is Some,
    {
        match v {
            RuntimeValue::TextBuilder(id) => {
                if *id < self.slots.len() as u64 {
                    let i = *id as usize;
                    if self.slots[i].is_some() {
                        return Some(i);
                    }
                }
                None
            },
            _ => None,
        }
    }

    /// The number of handles given out.
    pub fn len(&self) -> (r: usize)
        ensures
            r == self@.len(),
    {
        self.slots.len()
    }

    /// `TextBuilderNew`: opens an empty builder with the next handle.
    pub fn open(&mut self) -> (r: RuntimeValue)
        requires
            old(self)@.len() < u64::MAX,
        ensures
            final(self)@ == old(self)@.push(Some(Seq::<u8>::empty())),
            r == RuntimeValue::TextBuilder(old(self)@.len() as u64),
    {
        let id = self.slots.len() as u64;
        self.slots.push(Some(Vec::new()));
        assert(self@ =~= old(self)@.push(Some(Seq::<u8>::empty())));
        RuntimeValue::TextBuilder(id)
    }

    /// Appends `bytes` to the open builder at `i`.
    fn extend(&mut self, i: usize, piece: &[u8])
        requires
            i < old(self)@.len(),
            old(self)@[i as int] is Some,
        ensures
            final(self)@ == old(self)@.update(i as int, Some(old(self)@[i as int]->0 + piece@)),
    {
        let mut slot: Option<Vec<u8>> = None;
        self.slots.set_and_swap(i, &mut slot);
        let mut cur = match slot {
            Some(v) => v,
            None => Vec::new(),
        };
        let ghost before = cur@;
        let mut k: usize = 0;
        while k < piece.len()
            invariant
                k <= piece.len(),
                cur@ == before + piece@.subrange(0, k as int),
            decreases piece.len() - k,
        {
            cur.push(piece[k]);
            assert(piece@.subrange(0, k + 1) =~= piece@.subrange(0, k as int).push(piece@[k as int]));
            k = k + 1;
        }
        assert(piece@.subrange(0, piece.len() as int) =~= piece@);
        self.slots.set(i, Some(cur));
        assert(self@ =~= old(self)@.update(i as int, Some(old(self)@[i as int]->0 + piece@)));
    }

    /// `TextBuilderAppend`: appends a text's bytes to an open builder and
    /// gives the builder back.
    pub fn append_text(&mut self, builder: &RuntimeValue, text: &RuntimeValue) -> (r: Result<RuntimeValue, RuntimeError>)
        ensures
            match (*builder, *text) {
                (RuntimeValue::TextBuilder(_), RuntimeValue::Text(t)) => match open_builder(old(self)@, *builder) {
                    Some(i) => r == Ok::<RuntimeValue, RuntimeError>(*builder) && final(self)@ == old(self)@.update(
                        i,
                        Some(old(self)@[i]->0 + text_bytes(t)),
                    ),
                    None => fails_with(r, unavailable_msg()) && final(self)@ == old(self)@,
                },
                (RuntimeValue::TextBuilder(_), _) => fails_with(r, "expected Text"@) && final(self)@ == old(self)@,
                _ => fails_with(r, "expected TextBuilder"@) && final(self)@ == old(self)@,
            },
    {
        let id = match builder {
            RuntimeValue::TextBuilder(id) => *id,
            _ => return Err(RuntimeError::new(String::from_str("expected TextBuilder"))),
        };
        let t = match text {
            RuntimeValue::Text(t) => t,
            _ => return Err(RuntimeError::new(String::from_str("expected Text"))),
        };
        match self.lookup(builder) {
            Some(i) => {
                self.extend(i, bytes_of(t));
                Ok(RuntimeValue::TextBuilder(id))
            },
            None => Err(RuntimeError::new(String::from_str("text builder handle is unavailable"))),
        }
    }

    /// `TextBuilderAppendCodepoint`: appends the UTF-8 encoding of a code
    /// point to an open builder and gives the builder back. The code point
    /// must fit 32 unsigned bits and be a Unicode scalar value.
    pub fn append_codepoint(&mut self, builder: &RuntimeValue, codepoint: &RuntimeValue) -> (r: Result<
        RuntimeValue,
        RuntimeError,
    >)
        ensures
            match (*builder, *codepoint) {
                (RuntimeValue::TextBuilder(_), RuntimeValue::Int(c)) => if !(0 <= c <= u32::MAX) {
                    fails_with(r, "text builder codepoint must be non-negative"@) && final(self)@ == old(self)@
                } else if !is_scalar(c as nat) {
                    fails_with(r, "text builder codepoint must be a valid Unicode scalar"@) && final(self)@ == old(self)@
                } else {
                    match open_builder(old(self)@, *builder) {
                        Some(i) => r == Ok::<RuntimeValue, RuntimeError>(*builder) && final(self)@ == old(self)@.update(
                            i,
                            Some(old(self)@[i]->0 + utf8_encode(c as nat)),
                        ),
                        None => fails_with(r, unavailable_msg()) && final(self)@ == old(self)@,
                    }
                },
                (RuntimeValue::TextBuilder(_), _) => fails_with(r, "expected Int"@) && final(self)@ == old(self)@,
                _ => fails_with(r, "expected TextBuilder"@) && final(self)@ == old(self)@,
            },
    {
        let id = match builder {
            RuntimeValue::TextBuilder(id) => *id,
            _ => return Err(RuntimeError::new(String::from_str("expected TextBuilder"))),
        };
        let c = match codepoint {
            RuntimeValue::Int(c) => *c,
            _ => return Err(RuntimeError::new(String::from_str("expected Int"))),
        };
        if c < 0 || c > 0xFFFF_FFFF {
            return Err(RuntimeError::new(String::from_str("text builder codepoint must be non-negative")));
        }
        if c > 0x10FFFF || (0xD800 <= c && c <= 0xDFFF) {
            return Err(RuntimeError::new(String::from_str("text builder codepoint must be a valid Unicode scalar")));
        }
        match self.lookup(builder) {
            Some(i) => {
                let mut encoded: Vec<u8> = Vec::new();
                sarif_text_builder_append_codepoint(&mut encoded, c);
                proof {
                    assert(crate::text_builder::code_point_of(c as int) == c as nat) by {
                        lemma_low_bits_of_small(c);
                    }
                    assert(encoded@ =~= utf8_encode(c as nat));
                }
                self.extend(i, encoded.as_slice());
                Ok(RuntimeValue::TextBuilder(id))
            },
            None => Err(RuntimeError::new(String::from_str("text builder handle is unavailable"))),
        }
    }

    /// `TextBuilderFinish`: closes an open builder and gives its bytes.
    pub fn finish(&mut self, builder: &RuntimeValue) -> (r: Result<Vec<u8>, RuntimeError>)
        ensures
            match *builder {
                RuntimeValue::TextBuilder(_) => match open_builder(old(self)@, *builder) {
                    Some(i) => r matches Ok(v) && v@ == old(self)@[i]->0 && final(self)@ == old(self)@.update(i, None),
                    None => fails_with(r, unavailable_msg()) && final(self)@ == old(self)@,
                },
                _ => fails_with(r, "expected TextBuilder"@) && final(self)@ == old(self)@,
            },
    {
        let id = match builder {
            RuntimeValue::TextBuilder(id) => *id,
            _ => return Err(RuntimeError::new(String::from_str("expected TextBuilder"))),
        };
        match self.lookup(builder) {
            Some(i) => {
                let mut slot: Option<Vec<u8>> = None;
                self.slots.set_and_swap(i, &mut slot);
                assert(self@ =~= old(self)@.update(i as int, None));
                match slot {
                    Some(v) => Ok(v),
                    None => Ok(Vec::new()),
                }
            },
            None => Err(RuntimeError::new(String::from_str("text builder handle is unavailable"))),
        }
    }
}

/// The interpreter's lists. A list's handle is its position.
pub struct Lists {
    items: Vec<Vec<RuntimeValue>>,
}

impl View for Lists {
    type V = Seq<Seq<RuntimeValue>>;

    closed spec fn view(&self) -> Seq<Seq<RuntimeValue>> {
        self.items@.map_values(|v: Vec<RuntimeValue>| v@)
    }
}

/// The list that a value names: its handle, when the value is a list
/// handle that was given out.
pub open spec fn list_handle(l: Seq<Seq<RuntimeValue>>, v: RuntimeValue) -> Option<int> {
    match v {
        RuntimeValue::List(id) => if id < l.len() {
            Some(id as int)
        } else {
            None
        },
        _ => None,
    }
}

/// The message for a list handle that names no list.
pub open spec fn list_unavailable_msg() -> Seq<char> {
    "list handle is unavailable"@
}

/// The length that `ListNew` is asked for, if it is one: a non-negative
/// integer that fits the machine's sizes.
pub fn list_new_length(len: &RuntimeValue) -> (r: Result<usize, RuntimeError>)
    ensures
        match *len {
            RuntimeValue::Int(n) => if n < 0 {
                fails_with(r, "list_new length must be non-negative"@)
            } else if n > usize::MAX {
                fails_with(r, "list_new length exceeds limits"@)
            } else {
                r == Ok::<usize, RuntimeError>(n as usize)
            },
            _ => fails_with(r, "expected Int"@),
        },
{
    let n = match len {
        RuntimeValue::Int(n) => *n,
        _ => return Err(RuntimeError::new(String::from_str("expected Int"))),
    };
    if n < 0 {
        return Err(RuntimeError::new(String::from_str("list_new length must be non-negative")));
    }
    if n as u64 > usize::MAX as u64 {
        return Err(RuntimeError::new(String::from_str("list_new length exceeds limits")));
    }
    Ok(n as usize)
}

impl Lists {
    /// No lists.
    pub fn new() -> (r: Lists)
        ensures
            r@ == Seq::<Seq<RuntimeValue>>::empty(),
    {
        let r = Lists { items: Vec::new() };
        assert(r@ =~= Seq::<Seq<RuntimeValue>>::empty());
        r
    }

    /// The number of handles given out.
    pub fn len(&self) -> (r: usize)
        ensures
            r == self@.len(),
    {
        self.items.len()
    }

    fn handle(&self, v: &RuntimeValue) -> (r: Option<usize>)
        ensures
            r is Some <==> list_handle(self@, *v) is Some,
            r matches Some(j) ==> list_handle(self@, *v) == Some(j as int) && j < self@.len(),
    {
        match v {
            RuntimeValue::List(id) => {
                if *id < self.items.len() as u64 {
                    Some(*id as usize)
                } else {
                    None
                }
            },
            _ => None,
        }
    }

    /// `ListNew`: a new list holding `items`, with the next handle.
    pub fn add(&mut self, items: Vec<RuntimeValue>) -> (r: RuntimeValue)
        requires
            old(self)@.len() < u64::MAX,
        ensures
            final(self)@ == old(self)@.push(items@),
            r == RuntimeValue::List(old(self)@.len() as u64),
    {
        let id = self.items.len() as u64;
        let ghost added = items@;
        self.items.push(items);
        assert(self@ =~= old(self)@.push(added));
        RuntimeValue::List(id)
    }

    /// `ListLen`: the number of items of a list.
    pub fn length(&self, list: &RuntimeValue) -> (r: Result<RuntimeValue, RuntimeError>)
        ensures
            match *list {
                RuntimeValue::List(_) => match list_handle(self@, *list) {
                    Some(i) => if self@[i].len() <= i64::MAX {
                        r == Ok::<RuntimeValue, RuntimeError>(RuntimeValue::Int(self@[i].len() as i64))
                    } else {
                        fails_with(r, "list length exceeds I32 limits"@)
                    },
                    None => fails_with(r, list_unavailable_msg()),
                },
                _ => fails_with(r, "expected List"@),
            },
    {
        if !matches!(list, RuntimeValue::List(_)) {
            return Err(RuntimeError::new(String::from_str("expected List")));
        }
        match self.handle(list) {
            Some(i) => {
                let n = self.items[i].len();
                if n as u64 > i64::MAX as u64 {
                    return Err(RuntimeError::new(String::from_str("list length exceeds I32 limits")));
                }
                Ok(RuntimeValue::Int(n as i64))
            },
            None => Err(RuntimeError::new(String::from_str("list handle is unavailable"))),
        }
    }

    /// `ListGet`: the item at an index of a list.
    pub fn get(&self, list: &RuntimeValue, index: &RuntimeValue) -> (r: Result<&RuntimeValue, RuntimeError>)
        ensures
            match (*list, *index) {
                (RuntimeValue::List(_), RuntimeValue::Int(k)) => if k < 0 {
                    fails_with(r, "bounds assertion failed in `list_get`"@)
                } else {
                    match list_handle(self@, *list) {
                        Some(i) => if k < self@[i].len() {
                            r matches Ok(v) && *v == self@[i][k as int]
                        } else {
                            fails_with(r, "bounds assertion failed in `list_get`"@)
                        },
                        None => fails_with(r, list_unavailable_msg()),
                    }
                },
                (RuntimeValue::List(_), _) => fails_with(r, "expected Int"@),
                _ => fails_with(r, "expected List"@),
            },
    {
        if !matches!(list, RuntimeValue::List(_)) {
            return Err(RuntimeError::new(String::from_str("expected List")));
        }
        let k = match index {
            RuntimeValue::Int(k) => *k,
            _ => return Err(RuntimeError::new(String::from_str("expected Int"))),
        };
        if k < 0 {
            return Err(RuntimeError::new(String::from_str("bounds assertion failed in `list_get`")));
        }
        match self.handle(list) {
            Some(i) => {
                let items = &self.items[i];
                if (k as u64) < (items.len() as u64) {
                    Ok(&items[k as usize])
                } else {
                    Err(RuntimeError::new(String::from_str("bounds assertion failed in `list_get`")))
                }
            },
            None => Err(RuntimeError::new(String::from_str("list handle is unavailable"))),
        }
    }

    /// `ListSet`: replaces the item at an index of a list and gives the list
    /// back.
    pub fn set(&mut self, list: &RuntimeValue, index: &RuntimeValue, value: RuntimeValue) -> (r: Result<
        RuntimeValue,
        RuntimeError,
    >)
        ensures
            match (*list, *index) {
                (RuntimeValue::List(id), RuntimeValue::Int(k)) => if k < 0 {
                    fails_with(r, "bounds assertion failed in `list_set`"@) && final(self)@ == old(self)@
                } else {
                    match list_handle(old(self)@, *list) {
                        Some(i) => if k < old(self)@[i].len() {
                            r == Ok::<RuntimeValue, RuntimeError>(RuntimeValue::List(id)) && final(self)@ == old(self)@.update(
                                i,
                                old(self)@[i].update(k as int, value),
                            )
                        } else {
                            fails_with(r, "bounds assertion failed in `list_set`"@) && final(self)@ == old(self)@
                        },
                        None => fails_with(r, list_unavailable_msg()) && final(self)@ == old(self)@,
                    }
                },
                (RuntimeValue::List(_), _) => fails_with(r, "expected Int"@) && final(self)@ == old(self)@,
                _ => fails_with(r, "expected List"@) && final(self)@ == old(self)@,
            },
    {
        let id = match list {
            RuntimeValue::List(id) => *id,
            _ => return Err(RuntimeError::new(String::from_str("expected List"))),
        };
        let k = match index {
            RuntimeValue::Int(k) => *k,
            _ => return Err(RuntimeError::new(String::from_str("expected Int"))),
        };
        if k < 0 {
            return Err(RuntimeError::new(String::from_str("bounds assertion failed in `list_set`")));
        }
        match self.handle(list) {
            Some(i) => {
                if (k as u64) >= (self.items[i].len() as u64) {
                    return Err(RuntimeError::new(String::from_str("bounds assertion failed in `list_set`")));
                }
                let mut items: Vec<RuntimeValue> = Vec::new();
                self.items.set_and_swap(i, &mut items);
                let ghost taken = items@;
                assert(taken == old(self)@[i as int]);
                items.set(k as usize, value);
                self.items.set(i, items);
                assert(self@ =~= old(self)@.update(i as int, old(self)@[i as int].update(k as int, value)));
                Ok(RuntimeValue::List(id))
            },
            None => Err(RuntimeError::new(String::from_str("list handle is unavailable"))),
        }
    }
}

/// Reading an item of a list after `Lists::set` replaced one gives the new
/// item at the replaced position of the replaced list, and what was there
/// before everywhere else.
pub proof fn lemma_list_read_after_write(
    lists: Seq<Seq<RuntimeValue>>,
    i: int,
    k: int,
    v: RuntimeValue,
    j: int,
    m: int,
)
    requires
        0 <= i < lists.len(),
        0 <= k < lists[i].len(),
        0 <= j < lists.len(),
        0 <= m < lists[j].len(),
    ensures
        lists.update(i, lists[i].update(k, v))[j][m] == if i == j && k == m {
            v
        } else {
            lists[j][m]
        },
        lists.update(i, lists[i].update(k, v))[j].len() == lists[j].len(),
{
}

/// Whether float bits encode a NaN.
pub open spec fn is_nan_bits(b: u64) -> bool {
    (b & 0x7ff0_0000_0000_0000) == 0x7ff0_0000_0000_0000 && (b & 0x000f_ffff_ffff_ffff) != 0
}

/// IEEE-754 equality of two floats given by their bits: no NaN equals
/// anything, the two zeros are equal, and other values are equal when
/// their bits are.
pub open spec fn float_bits_eq(x: u64, y: u64) -> bool {
    &&& !is_nan_bits(x)
    &&& !is_nan_bits(y)
    &&& (x == y || ((x & 0x7fff_ffff_ffff_ffff) == 0 && (y & 0x7fff_ffff_ffff_ffff) == 0))
}

/// Structural equality of interpreter values (`Eq`, `Ne`), with floats
/// compared as IEEE-754 numbers.
pub open spec fn same_value(a: RuntimeValue, b: RuntimeValue) -> bool
    decreases a,
{
    match (a, b) {
        (RuntimeValue::Int(x), RuntimeValue::Int(y)) => x == y,
        (RuntimeValue::F64(x), RuntimeValue::F64(y)) => float_bits_eq(x, y),
        (RuntimeValue::Bool(x), RuntimeValue::Bool(y)) => x == y,
        (RuntimeValue::Text(x), RuntimeValue::Text(y)) => x@ == y@,
        (RuntimeValue::TextBuilder(x), RuntimeValue::TextBuilder(y)) => x == y,
        (RuntimeValue::List(x), RuntimeValue::List(y)) => x == y,
        (RuntimeValue::Enum(x), RuntimeValue::Enum(y)) => x.name@ == y.name@ && x.variant@ == y.variant@ && match (
            x.payload,
            y.payload,
        ) {
            (Some(p), Some(q)) => same_value(*p, *q),
            (None, None) => true,
            _ => false,
        },
        (RuntimeValue::Record(x), RuntimeValue::Record(y)) => x.name@ == y.name@ && x.fields@.len() == y.fields@.len()
            && same_fields(x.fields@, y.fields@, x.fields@.len() as int),
        (RuntimeValue::Unit, RuntimeValue::Unit) => true,
        _ => false,
    }
}

/// The first `n` fields of two records have the same names and the same
/// values.
pub open spec fn same_fields(xs: Seq<(String, RuntimeValue)>, ys: Seq<(String, RuntimeValue)>, n: int) -> bool
    decreases xs, n,
{
    if n <= 0 || n > xs.len() || n > ys.len() {
        n <= 0
    } else {
        same_fields(xs, ys, n - 1) && xs[n - 1].0@ == ys[n - 1].0@ && same_value(xs[n - 1].1, ys[n - 1].1)
    }
}

fn float_eq_bits(x: u64, y: u64) -> (r: bool)
    ensures
        r == float_bits_eq(x, y),
{
    let nx = (x & 0x7ff0_0000_0000_0000) == 0x7ff0_0000_0000_0000 && (x & 0x000f_ffff_ffff_ffff) != 0;
    let ny = (y & 0x7ff0_0000_0000_0000) == 0x7ff0_0000_0000_0000 && (y & 0x000f_ffff_ffff_ffff) != 0;
    !nx && !ny && (x == y || ((x & 0x7fff_ffff_ffff_ffff) == 0 && (y & 0x7fff_ffff_ffff_ffff) == 0))
}

/// Whether two values are the same (see `same_value`).
pub fn same_values(a: &RuntimeValue, b: &RuntimeValue) -> (r: bool)
    ensures
        r == same_value(*a, *b),
    decreases *a,
{
    match (a, b) {
        (RuntimeValue::Int(x), RuntimeValue::Int(y)) => *x == *y,
        (RuntimeValue::F64(x), RuntimeValue::F64(y)) => float_eq_bits(*x, *y),
        (RuntimeValue::Bool(x), RuntimeValue::Bool(y)) => *x == *y,
        (RuntimeValue::Text(x), RuntimeValue::Text(y)) => text_eq(x.as_str(), y.as_str()),
        (RuntimeValue::TextBuilder(x), RuntimeValue::TextBuilder(y)) => *x == *y,
        (RuntimeValue::List(x), RuntimeValue::List(y)) => *x == *y,
        (RuntimeValue::Enum(x), RuntimeValue::Enum(y)) => {
            if !text_eq(x.name.as_str(), y.name.as_str()) || !text_eq(x.variant.as_str(), y.variant.as_str()) {
                return false;
            }
            match (&x.payload, &y.payload) {
                (Some(p), Some(q)) => {
                    assert(decreases_to!(*a => **p));
                    same_values(&**p, &**q)
                },
                (None, None) => true,
                _ => false,
            }
        },
        (RuntimeValue::Record(x), RuntimeValue::Record(y)) => {
            if !text_eq(x.name.as_str(), y.name.as_str()) || x.fields.len() != y.fields.len() {
                return false;
            }
            let mut i: usize = 0;
            while i < x.fields.len()
                invariant
                    *a == RuntimeValue::Record(*x),
                    *b == RuntimeValue::Record(*y),
                    x.fields@.len() == y.fields@.len(),
                    i <= x.fields@.len(),
                    same_fields(x.fields@, y.fields@, i as int),
                decreases x.fields@.len() - i,
            {
                assert(decreases_to!(*a => x.fields@[i as int].1)) by {
                    broadcast use vstd::std_specs::vec::axiom_vec_decreases_to_view;
                    let f = x.fields@[i as int];
                    let xa = (*a)->Record_0;
                    assert(decreases_to!(*a => xa));
                    assert(xa == *x);
                    assert(decreases_to!(xa => xa.fields));
                    assert(decreases_to!(x.fields => x.fields@));
                    assert(decreases_to!(x.fields@ => f));
                    assert(decreases_to!(f => f.1));
                };
                if !text_eq(x.fields[i].0.as_str(), y.fields[i].0.as_str()) || !same_values(&x.fields[i].1, &y.fields[i].1) {
                    proof {
                        if same_fields(x.fields@, y.fields@, x.fields@.len() as int) {
                            lemma_same_fields_prefix(x.fields@, y.fields@, i as int + 1, x.fields@.len() as int);
                        }
                    }
                    return false;
                }
                i = i + 1;
            }
            true
        },
        (RuntimeValue::Unit, RuntimeValue::Unit) => true,
        _ => false,
    }
}

proof fn lemma_same_fields_prefix(xs: Seq<(String, RuntimeValue)>, ys: Seq<(String, RuntimeValue)>, m: int, n: int)
    requires
        0 <= m <= n <= xs.len(),
        n <= ys.len(),
        same_fields(xs, ys, n),
    ensures
        same_fields(xs, ys, m),
    decreases n - m,
{
    if m < n {
        lemma_same_fields_prefix(xs, ys, m, n - 1);
    }
}

/// `Eq` and `Ne`: whether the operands are the same value, or not.
pub fn equality_value(negate: bool, left: &RuntimeValue, right: &RuntimeValue) -> (r: RuntimeValue)
    ensures
        r == RuntimeValue::Bool(same_value(*left, *right) != negate),
{
    let same = same_values(left, right);
    RuntimeValue::Bool(same != negate)
}

/// A value read as a condition or a logic operand: its truth value, or an
/// error that renders the value (its floats by the texts given).
pub fn bool_operand(v: &RuntimeValue, floats: &crate::pretty::FloatTexts) -> (r: Result<bool, RuntimeError>)
    ensures
        match *v {
            RuntimeValue::Bool(b) => r == Ok::<bool, RuntimeError>(b),
            _ => fails_with(r, "expected boolean value, found "@ + crate::values::render_text(*v, floats@)),
        },
{
    match v {
        RuntimeValue::Bool(b) => Ok(*b),
        _ => {
            let mut m = String::from_str("expected boolean value, found ");
            let t = v.render(floats);
            m.append(t.as_str());
            Err(RuntimeError::new(m))
        },
    }
}

/// The word that names an arithmetic instruction in its error message.
pub open spec fn arith_word(op: ArithOp) -> Seq<char> {
    match op {
        ArithOp::Add => "add"@,
        ArithOp::Sub => "sub"@,
        ArithOp::Mul => "mul"@,
        ArithOp::Div => "div"@,
    }
}

/// Integer division rounding toward zero.
pub open spec fn trunc_div(a: int, b: int) -> int {
    let q = (if a < 0 { -a } else { a }) / (if b < 0 { -b } else { b });
    if (a < 0) == (b < 0) {
        q
    } else {
        -q
    }
}

/// The exact integer result of an arithmetic instruction.
pub open spec fn int_arith(op: ArithOp, a: int, b: int) -> int {
    match op {
        ArithOp::Add => a + b,
        ArithOp::Sub => a - b,
        ArithOp::Mul => a * b,
        ArithOp::Div => trunc_div(a, b),
    }
}

/// Whether an integer result fits an `I64` (Rust's arithmetic panics when
/// it does not); division by zero is an interpreter error instead.
pub open spec fn int_arith_fits(op: ArithOp, a: int, b: int) -> bool {
    (op == ArithOp::Div && b == 0) || (i64::MIN <= int_arith(op, a, b) <= i64::MAX)
}

/// Whether float bits encode zero (positive or negative), the only values
/// equal to `0.0`.
pub open spec fn is_float_zero(bits: u64) -> bool {
    bits == 0 || bits == 0x8000_0000_0000_0000
}

fn trunc_div_i64(a: i64, b: i64) -> (r: i64)
    requires
        b != 0,
        i64::MIN <= trunc_div(a as int, b as int) <= i64::MAX,
    ensures
        r == trunc_div(a as int, b as int),
{
    let a2: i128 = a as i128;
    let b2: i128 = b as i128;
    let ma: i128 = if a2 < 0 { -a2 } else { a2 };
    let mb: i128 = if b2 < 0 { -b2 } else { b2 };
    assert(ma / mb <= ma) by (nonlinear_arith)
        requires
            ma >= 0,
            mb >= 1,
    ;
    let q: i128 = ma / mb;
    if (a < 0) == (b < 0) {
        q as i64
    } else {
        (-q) as i64
    }
}

/// `Add`, `Sub`, `Mul`, `Div`: two integers give their integer result
/// (division rounds toward zero; dividing by zero is an error); two floats
/// give the float operation to compute (dividing by a zero is an error);
/// other operands are an error.
pub fn arith_value(op: ArithOp, left: &RuntimeValue, right: &RuntimeValue) -> (r: Result<Evaluated, RuntimeError>)
    requires
        (*left, *right) matches (RuntimeValue::Int(a), RuntimeValue::Int(b)) ==> int_arith_fits(op, a as int, b as int),
    ensures
        match (*left, *right) {
            (RuntimeValue::Int(a), RuntimeValue::Int(b)) => if op == ArithOp::Div && b == 0 {
                fails_with(r, "division by zero"@)
            } else {
                r matches Ok(Evaluated::Value(RuntimeValue::Int(v))) && v == int_arith(op, a as int, b as int)
            },
            (RuntimeValue::F64(a), RuntimeValue::F64(b)) => if op == ArithOp::Div && is_float_zero(b) {
                fails_with(r, "division by zero"@)
            } else {
                r matches Ok(Evaluated::FloatArith(o, x, y)) && o == op && x == a && y == b
            },
            _ => fails_with(r, "expected matching numeric operands for "@ + arith_word(op)),
        },
{
    match (left, right) {
        (RuntimeValue::Int(a), RuntimeValue::Int(b)) => {
            let (a, b) = (*a, *b);
            let v = match op {
                ArithOp::Add => a + b,
                ArithOp::Sub => a - b,
                ArithOp::Mul => a * b,
                ArithOp::Div => {
                    if b == 0 {
                        return Err(RuntimeError::new(String::from_str("division by zero")));
                    }
                    trunc_div_i64(a, b)
                },
            };
            Ok(Evaluated::Value(RuntimeValue::Int(v)))
        },
        (RuntimeValue::F64(a), RuntimeValue::F64(b)) => {
            if op == ArithOp::Div && (*b == 0 || *b == 0x8000_0000_0000_0000) {
                return Err(RuntimeError::new(String::from_str("division by zero")));
            }
            Ok(Evaluated::FloatArith(op, *a, *b))
        },
        _ => {
            let mut m = String::from_str("expected matching numeric operands for ");
            let word = match op {
                ArithOp::Add => "add",
                ArithOp::Sub => "sub",
                ArithOp::Mul => "mul",
                ArithOp::Div => "div",
            };
            m.append(word);
            proof {
                reveal_strlit("add");
                reveal_strlit("sub");
                reveal_strlit("mul");
                reveal_strlit("div");
            }
            Err(RuntimeError::new(m))
        },
    }
}

/// The word that names an ordering comparison in its error message.
pub open spec fn order_word(op: OrderOp) -> Seq<char> {
    match op {
        OrderOp::Lt => "lt"@,
        OrderOp::Le => "le"@,
        OrderOp::Gt => "gt"@,
        OrderOp::Ge => "ge"@,
    }
}

/// The outcome of an ordering comparison of two integers.
pub open spec fn int_order(op: OrderOp, a: int, b: int) -> bool {
    match op {
        OrderOp::Lt => a < b,
        OrderOp::Le => a <= b,
        OrderOp::Gt => a > b,
        OrderOp::Ge => a >= b,
    }
}

/// `Lt`, `Le`, `Gt`, `Ge`: two integers give the comparison's outcome, two
/// floats the float comparison to compute, other operands an error.
pub fn order_value(op: OrderOp, left: &RuntimeValue, right: &RuntimeValue) -> (r: Result<Evaluated, RuntimeError>)
    ensures
        match (*left, *right) {
            (RuntimeValue::Int(a), RuntimeValue::Int(b)) => r matches Ok(Evaluated::Value(RuntimeValue::Bool(v)))
                && v == int_order(op, a as int, b as int),
            (RuntimeValue::F64(a), RuntimeValue::F64(b)) => r matches Ok(Evaluated::FloatOrder(o, x, y)) && o == op && x
                == a && y == b,
            _ => fails_with(r, "expected matching numeric operands for "@ + order_word(op)),
        },
{
    match (left, right) {
        (RuntimeValue::Int(a), RuntimeValue::Int(b)) => {
            let v = match op {
                OrderOp::Lt => *a < *b,
                OrderOp::Le => *a <= *b,
                OrderOp::Gt => *a > *b,
                OrderOp::Ge => *a >= *b,
            };
            Ok(Evaluated::Value(RuntimeValue::Bool(v)))
        },
        (RuntimeValue::F64(a), RuntimeValue::F64(b)) => Ok(Evaluated::FloatOrder(op, *a, *b)),
        _ => {
            let mut m = String::from_str("expected matching numeric operands for ");
            let word = match op {
                OrderOp::Lt => "lt",
                OrderOp::Le => "le",
                OrderOp::Gt => "gt",
                OrderOp::Ge => "ge",
            };
            m.append(word);
            proof {
                reveal_strlit("lt");
                reveal_strlit("le");
                reveal_strlit("gt");
                reveal_strlit("ge");
            }
            Err(RuntimeError::new(m))
        },
    }
}

} // verus!

verus! {

/// Whether a handler arm handles operation `operation` of effect `effect`.
pub open spec fn arm_handles(arm: crate::mir::HandleArm, effect: Seq<char>, operation: Seq<char>) -> bool {
    arm.effect@ == effect && arm.operation@ == operation
}

/// Whether no arm of a handler frame handles the operation.
pub open spec fn frame_silent(arms: Seq<crate::mir::HandleArm>, effect: Seq<char>, operation: Seq<char>) -> bool {
    forall|i: int| 0 <= i < arms.len() ==> !arm_handles(#[trigger] arms[i], effect, operation)
}

/// The arm that a `Perform` reaches, as (frame, arm): the first arm that
/// handles the operation in the innermost frame (the last one) that has
/// such an arm; `None` where no frame handles it, and the effect unwinds.
pub fn find_handler(frames: &[&[crate::mir::HandleArm]], effect: &str, operation: &str) -> (r: Option<(usize, usize)>)
    ensures
        match r {
            None => forall|m: int| 0 <= m < frames@.len() ==> frame_silent(#[trigger] frames@[m]@, effect@, operation@),
            Some((k, i)) => {
                &&& k < frames@.len()
                &&& i < frames@[k as int]@.len()
                &&& arm_handles(frames@[k as int]@[i as int], effect@, operation@)
                &&& forall|j: int| 0 <= j < i ==> !arm_handles(#[trigger] frames@[k as int]@[j], effect@, operation@)
                &&& forall|m: int| k < m < frames@.len() ==> frame_silent(#[trigger] frames@[m]@, effect@, operation@)
            },
        },
{
    let mut k: usize = frames.len();
    while k > 0
        invariant
            k <= frames@.len(),
            forall|m: int| k <= m < frames@.len() ==> frame_silent(#[trigger] frames@[m]@, effect@, operation@),
        decreases k,
    {
        k = k - 1;
        let arms: &[crate::mir::HandleArm] = frames[k];
        let mut i: usize = 0;
        while i < arms.len()
            invariant
                k < frames@.len(),
                arms@ == frames@[k as int]@,
                i <= arms@.len(),
                forall|j: int| 0 <= j < i ==> !arm_handles(#[trigger] arms@[j], effect@, operation@),
                forall|m: int| k < m < frames@.len() ==> frame_silent(#[trigger] frames@[m]@, effect@, operation@),
            decreases arms@.len() - i,
        {
            if text_eq(arms[i].effect.as_str(), effect) && text_eq(arms[i].operation.as_str(), operation) {
                return Some((k, i));
            }
            i = i + 1;
        }
    }
    None
}

/// The message of a `while` whose condition is not a boolean.
pub open spec fn while_not_bool_msg(function: Seq<char>) -> Seq<char> {
    "while condition in `"@ + function + "` did not evaluate to `Bool`"@
}

/// The message of a `while` whose condition instructions left no value.
pub open spec fn while_missing_msg(function: Seq<char>, condition: crate::mir::ValueId) -> Seq<char> {
    "missing while condition result in `"@ + function + "` for "@ + crate::pretty::value_text(condition)
}

/// What a `While` in `function` does with the value its condition
/// instructions left (if any): run the body again (`true`), stop (`false`),
/// or fail.
pub fn while_condition(v: Option<&RuntimeValue>, function: &str, condition: crate::mir::ValueId) -> (r: Result<
    bool,
    RuntimeError,
>)
    ensures
        match v {
            Some(x) => match *x {
                RuntimeValue::Bool(b) => r == Ok::<bool, RuntimeError>(b),
                _ => fails_with(r, while_not_bool_msg(function@)),
            },
            None => fails_with(r, while_missing_msg(function@, condition)),
        },
{
    match v {
        Some(x) => match x {
            RuntimeValue::Bool(b) => Ok(*b),
            _ => {
                let mut m = String::new();
                m.append("while condition in `");
                m.append(function);
                m.append("` did not evaluate to `Bool`");
                Err(RuntimeError::new(m))
            },
        },
        None => {
            let mut m = String::new();
            m.append("missing while condition result in `");
            m.append(function);
            m.append("` for ");
            let t = condition.render();
            m.append(t.as_str());
            Err(RuntimeError::new(m))
        },
    }
}

/// How many times a `Repeat` runs its body for a count operand: the count,
/// or none where it is negative.
pub fn repeat_iterations(count: i64) -> (r: u64)
    ensures
        r == if count < 0 { 0 } else { count as int },
{
    if count < 0 {
        0
    } else {
        count as u64
    }
}

} // verus!

verus! {

/// Where `slice_start` stops: at the end, or at a byte that starts a
/// character.
proof fn lemma_slice_start_stop(bytes: Seq<u8>, i: nat)
    requires
        i <= bytes.len(),
    ensures
        i <= crate::runtime::slice_start(bytes, i) <= bytes.len(),
        crate::runtime::slice_start(bytes, i) < bytes.len() ==> !crate::runtime::is_cont(
            bytes[crate::runtime::slice_start(bytes, i) as int],
        ),
    decreases bytes.len() - i,
{
    if i < bytes.len() && crate::runtime::is_cont(bytes[i as int]) {
        lemma_slice_start_stop(bytes, i + 1);
    }
}

/// Where `slice_end` stops: at the end, at the start, or at a byte that
/// starts a character.
proof fn lemma_slice_end_stop(bytes: Seq<u8>, i: nat)
    requires
        i <= bytes.len(),
    ensures
        crate::runtime::slice_end(bytes, i) <= i,
        crate::runtime::slice_end(bytes, i) < bytes.len() && crate::runtime::slice_end(bytes, i) > 0 ==> !crate::runtime::is_cont(
            bytes[crate::runtime::slice_end(bytes, i) as int],
        ),
    decreases i,
{
    if i < bytes.len() && crate::runtime::is_cont(bytes[i as int]) && i > 0 {
        lemma_slice_end_stop(bytes, (i - 1) as nat);
    }
}

/// A position of UTF-8 bytes that is the end, or holds a byte that starts a
/// character, is a character boundary.
proof fn lemma_boundary(bytes: Seq<u8>, i: int)
    requires
        vstd::utf8::valid_utf8(bytes),
        0 <= i <= bytes.len(),
        i < bytes.len() ==> !crate::runtime::is_cont(bytes[i]),
    ensures
        vstd::utf8::is_char_boundary(bytes, i),
{
    vstd::utf8::is_char_boundary_start_end_of_seq(bytes);
    if i < bytes.len() {
        vstd::utf8::is_char_boundary_iff_not_is_continuation_byte(bytes, i);
    }
}

/// `TextSlice`: the bytes of the text between the start and the end, each
/// clamped to the text and moved to a character boundary (the start
/// forward, the end back); nothing when the end comes before the start.
pub fn text_slice_value(text: &RuntimeValue, start: &RuntimeValue, end: &RuntimeValue) -> (r: Result<RuntimeValue, RuntimeError>)
    ensures
        match (*text, *start, *end) {
            (RuntimeValue::Text(t), RuntimeValue::Int(a), RuntimeValue::Int(b)) => {
                let (lo, hi) = text_range_spec(text_bytes(t), a as int, b as int);
                r matches Ok(RuntimeValue::Text(v)) && text_bytes(v) == text_bytes(t).subrange(lo, hi)
            },
            (RuntimeValue::Text(_), _, _) => fails_with(r, "expected Int"@),
            _ => fails_with(r, "expected Text"@),
        },
{
    let t = match text {
        RuntimeValue::Text(t) => t,
        _ => return Err(RuntimeError::new(String::from_str("expected Text"))),
    };
    let a = match start {
        RuntimeValue::Int(a) => *a,
        _ => return Err(RuntimeError::new(String::from_str("expected Int"))),
    };
    let b = match end {
        RuntimeValue::Int(b) => *b,
        _ => return Err(RuntimeError::new(String::from_str("expected Int"))),
    };
    let bytes = bytes_of(t);
    proof {
        lemma_text_starts_at_char(*t);
        vstd::utf8::encode_utf8_valid_utf8(t@);
    }
    let lo = crate::runtime::clamp_text_slice_start(bytes, a);
    let raw = crate::runtime::clamp_text_slice_end(bytes, b);
    let ghost hi = text_range_spec(bytes@, a as int, b as int).1;
    if raw <= lo {
        let v = String::new();
        proof {
            assert(v@ =~= Seq::<char>::empty());
            assert(text_bytes(v) =~= Seq::<u8>::empty());
            assert(bytes@.subrange(lo as int, hi) =~= Seq::<u8>::empty());
        }
        return Ok(RuntimeValue::Text(v));
    }
    proof {
        let ci = crate::runtime::clamp_index(bytes@.len(), b as int);
        let si = crate::runtime::clamp_index(bytes@.len(), a as int);
        lemma_slice_end_stop(bytes@, ci);
        lemma_slice_start_stop(bytes@, si);
        lemma_boundary(bytes@, raw as int);
    }
    let s: &str = t.as_str();
    assert(vstd::utf8::encode_utf8(s@) == bytes@);
    let (pre, _rest) = s.split_at(raw);
    proof {
        vstd::utf8::encode_utf8_valid_utf8(pre@);
        assert(vstd::utf8::encode_utf8(pre@) =~= bytes@.subrange(0, raw as int));
        assert(vstd::utf8::encode_utf8(pre@)[lo as int] == bytes@[lo as int]);
        lemma_boundary(vstd::utf8::encode_utf8(pre@), lo as int);
    }
    let (_head, sub) = pre.split_at(lo);
    let v = String::from_str(sub);
    proof {
        assert(vstd::utf8::encode_utf8(sub@) =~= bytes@.subrange(lo as int, raw as int));
        assert(text_bytes(v) == vstd::utf8::encode_utf8(sub@));
    }
    Ok(RuntimeValue::Text(v))
}

/// `ParseI32Range`: the integer that the text between the start and the
/// end (taken as `TextSlice` takes them) spells, around white space, or the
/// error of a text that spells none.
pub fn parse_int_range_value(text: &RuntimeValue, start: &RuntimeValue, end: &RuntimeValue) -> (r: Result<RuntimeValue, RuntimeError>)
    ensures
        match (*text, *start, *end) {
            (RuntimeValue::Text(t), RuntimeValue::Int(a), RuntimeValue::Int(b)) => {
                let (lo, hi) = text_range_spec(text_bytes(t), a as int, b as int);
                match spec_parse_i64(trimmed(vstd::utf8::decode_utf8(text_bytes(t).subrange(lo, hi)))) {
                    Some(v) => r matches Ok(RuntimeValue::Int(x)) && x == v,
                    None => fails_with(r, "expected base-10 integer text"@),
                }
            },
            (RuntimeValue::Text(_), _, _) => fails_with(r, "expected Int"@),
            _ => fails_with(r, "expected Text"@),
        },
{
    let sliced = text_slice_value(text, start, end)?;
    proof {
        if sliced is Text {
            vstd::utf8::encode_utf8_decode_utf8(sliced->Text_0@);
        }
    }
    parse_int_value(&sliced)
}

/// The position of the last function named `name` among the first `n`.
pub open spec fn last_function_named(fs: Seq<crate::mir::Function>, name: Seq<char>, n: int) -> Option<int>
    decreases n,
{
    if n <= 0 {
        None
    } else if fs[n - 1].name@ == name {
        Some(n - 1)
    } else {
        last_function_named(fs, name, n - 1)
    }
}

/// The first argument, from the `k`-th on, whose value does not have its
/// parameter's type: that type check's error.
pub open spec fn first_arg_error(
    p: crate::mir::Program,
    params: Seq<crate::mir::Param>,
    args: Seq<RuntimeValue>,
    floats: Seq<(u64, String)>,
    k: int,
) -> Option<Seq<char>>
    decreases params.len() - k,
{
    if k < 0 || k >= params.len() || k >= args.len() {
        None
    } else {
        match crate::values::type_check(p, params[k].ty@, args[k], floats) {
            Err(e) => Some(e),
            Ok(_) => first_arg_error(p, params, args, floats, k + 1),
        }
    }
}

/// What running the function named `name` on `args` checks first: that the
/// program has such a function (the last one of that name counts), that
/// `main` takes no parameters, that the arguments are as many as the
/// parameters, and that each has its parameter's type; the function's
/// position, or the error.
pub open spec fn run_call_check(p: crate::mir::Program, name: Seq<char>, args: Seq<RuntimeValue>, floats: Seq<(u64, String)>) -> Result<
    int,
    Seq<char>,
> {
    match last_function_named(p.functions@, name, p.functions@.len() as int) {
        None => Err("unknown function `"@ + name + "`"@),
        Some(i) => {
            let f = p.functions@[i];
            if name == "main"@ && f.params@.len() > 0 {
                Err("`main` must not take parameters"@)
            } else if f.params@.len() != args.len() {
                Err("function `"@ + name + "` expected "@ + crate::text::nat_text(f.params@.len()) + " arguments but received "@
                    + crate::text::nat_text(args.len()))
            } else {
                match first_arg_error(p, f.params@, args, floats, 0) {
                    Some(e) => Err(e),
                    None => Ok(i),
                }
            }
        },
    }
}

/// The outcome of a check, with the message of its error.
pub open spec fn check_text(r: Result<usize, RuntimeError>) -> Result<int, Seq<char>> {
    match r {
        Ok(i) => Ok(i as int),
        Err(RuntimeError::Message(m)) => Err(m@),
        Err(RuntimeError::EffectUnwind { .. }) => Err(Seq::empty()),
    }
}

/// The checks before running the function named `name` on `args` (see
/// `run_call_check`), the arguments' floats rendered by `floats`: the
/// function's position, or the error.
pub fn check_run_call(program: &crate::mir::Program, name: &str, args: &[RuntimeValue], floats: &crate::pretty::FloatTexts) -> (r: Result<
    usize,
    RuntimeError,
>)
    ensures
        check_text(r) == run_call_check(*program, name@, args@, floats@),
{
    let fs = &program.functions;
    let mut k: usize = fs.len();
    let mut found: Option<usize> = None;
    while k > 0 && found.is_none()
        invariant
            k <= fs@.len(),
            found is None ==> last_function_named(fs@, name@, fs@.len() as int) == last_function_named(fs@, name@, k as int),
            found matches Some(i) ==> last_function_named(fs@, name@, fs@.len() as int) == Some(i as int) && i < fs@.len(),
        decreases k,
    {
        if text_eq(fs[k - 1].name.as_str(), name) {
            found = Some(k - 1);
        }
        k = k - 1;
    }
    let i = match found {
        Some(i) => i,
        None => {
            assert(last_function_named(fs@, name@, 0) is None);
            let mut m = String::from_str("unknown function `");
            m.append(name);
            m.append("`");
            return Err(RuntimeError::new(m));
        },
    };
    let f = &fs[i];
    if text_eq(name, "main") && f.params.len() > 0 {
        return Err(RuntimeError::new(String::from_str("`main` must not take parameters")));
    }
    if f.params.len() != args.len() {
        let mut m = String::from_str("function `");
        m.append(name);
        m.append("` expected ");
        crate::text::push_u64(&mut m, f.params.len() as u64);
        m.append(" arguments but received ");
        crate::text::push_u64(&mut m, args.len() as u64);
        return Err(RuntimeError::new(m));
    }
    let mut j: usize = 0;
    while j < args.len()
        invariant
            j <= args@.len(),
            args@.len() == f.params@.len(),
            !(name@ == "main"@ && f.params@.len() > 0),
            *f == program.functions@[i as int],
            last_function_named(program.functions@, name@, program.functions@.len() as int) == Some(i as int),
            first_arg_error(*program, f.params@, args@, floats@, 0) == first_arg_error(*program, f.params@, args@, floats@, j as int),
        decreases args@.len() - j,
    {
        let checked = crate::values::ensure_type(program, f.params[j].ty.as_str(), &args[j], floats);
        assert(first_arg_error(*program, f.params@, args@, floats@, j as int) == match crate::values::type_check(
            *program,
            f.params@[j as int].ty@,
            args@[j as int],
            floats@,
        ) {
            Err(e) => Some(e),
            Ok(_) => first_arg_error(*program, f.params@, args@, floats@, j + 1),
        });
        match checked {
            Ok(_) => {},
            Err(e) => {
                return Err(e);
            },
        }
        j = j + 1;
    }
    Ok(i)
}

/// `b` is a copy of `a`: the same variant and contents, field by field and
/// through payloads (records are copied into new field lists).
pub open spec fn is_copy(a: RuntimeValue, b: RuntimeValue) -> bool
    decreases a,
{
    match (a, b) {
        (RuntimeValue::Int(x), RuntimeValue::Int(y)) => x == y,
        (RuntimeValue::F64(x), RuntimeValue::F64(y)) => x == y,
        (RuntimeValue::Bool(x), RuntimeValue::Bool(y)) => x == y,
        (RuntimeValue::Text(x), RuntimeValue::Text(y)) => x == y,
        (RuntimeValue::TextBuilder(x), RuntimeValue::TextBuilder(y)) => x == y,
        (RuntimeValue::List(x), RuntimeValue::List(y)) => x == y,
        (RuntimeValue::Enum(x), RuntimeValue::Enum(y)) => x.name == y.name && x.variant == y.variant && match (
            x.payload,
            y.payload,
        ) {
            (Some(p), Some(q)) => is_copy(*p, *q),
            (None, None) => true,
            _ => false,
        },
        (RuntimeValue::Record(x), RuntimeValue::Record(y)) => x.name == y.name && x.fields@.len() == y.fields@.len()
            && copied_fields(x.fields@, y.fields@, x.fields@.len() as int),
        (RuntimeValue::Unit, RuntimeValue::Unit) => true,
        _ => false,
    }
}

/// The first `n` fields of `ys` are copies of those of `xs`: the same names,
/// and copies of the values.
pub open spec fn copied_fields(xs: Seq<(String, RuntimeValue)>, ys: Seq<(String, RuntimeValue)>, n: int) -> bool
    decreases xs, n,
{
    if n <= 0 || n > xs.len() || n > ys.len() {
        n <= 0
    } else {
        copied_fields(xs, ys, n - 1) && xs[n - 1].0 == ys[n - 1].0 && is_copy(xs[n - 1].1, ys[n - 1].1)
    }
}

proof fn lemma_copied_fields_push(xs: Seq<(String, RuntimeValue)>, ys: Seq<(String, RuntimeValue)>, n: int, y: (String, RuntimeValue))
    requires
        0 <= n < xs.len(),
        ys.len() == n,
        copied_fields(xs, ys, n),
        xs[n].0 == y.0,
        is_copy(xs[n].1, y.1),
    ensures
        copied_fields(xs, ys.push(y), n + 1),
    decreases n,
{
    let zs = ys.push(y);
    if n > 0 {
        lemma_copied_fields_same(xs, ys, zs, n);
    }
    assert(zs[n] == y);
    assert(copied_fields(xs, zs, n));
    assert(copied_fields(xs, zs, n + 1) == (copied_fields(xs, zs, n) && xs[n].0 == zs[n].0 && is_copy(xs[n].1, zs[n].1)));
}

proof fn lemma_copied_fields_same(xs: Seq<(String, RuntimeValue)>, ys: Seq<(String, RuntimeValue)>, zs: Seq<(String, RuntimeValue)>, n: int)
    requires
        0 <= n <= ys.len(),
        n <= zs.len(),
        forall|i: int| 0 <= i < n ==> #[trigger] zs[i] == ys[i],
        copied_fields(xs, ys, n),
    ensures
        copied_fields(xs, zs, n),
    decreases n,
{
    if n > 0 {
        lemma_copied_fields_same(xs, ys, zs, n - 1);
    }
}

/// A copy of a value (see `is_copy`).
pub fn copy_value(v: &RuntimeValue) -> (r: RuntimeValue)
    ensures
        is_copy(*v, r),
    decreases *v,
{
    match v {
        RuntimeValue::Int(x) => RuntimeValue::Int(*x),
        RuntimeValue::F64(x) => RuntimeValue::F64(*x),
        RuntimeValue::Bool(x) => RuntimeValue::Bool(*x),
        RuntimeValue::Text(t) => RuntimeValue::Text(t.clone()),
        RuntimeValue::TextBuilder(x) => RuntimeValue::TextBuilder(*x),
        RuntimeValue::List(x) => RuntimeValue::List(*x),
        RuntimeValue::Enum(e) => {
            let payload = match &e.payload {
                Some(p) => {
                    assert(decreases_to!(*v => **p));
                    Some(Box::new(copy_value(&**p)))
                },
                None => None,
            };
            RuntimeValue::Enum(crate::values::RuntimeEnum { name: e.name.clone(), variant: e.variant.clone(), payload })
        },
        RuntimeValue::Record(x) => {
            let mut fields: Vec<(String, RuntimeValue)> = Vec::new();
            let mut i: usize = 0;
            while i < x.fields.len()
                invariant
                    *v == RuntimeValue::Record(*x),
                    i <= x.fields@.len(),
                    fields@.len() == i,
                    copied_fields(x.fields@, fields@, i as int),
                decreases x.fields@.len() - i,
            {
                assert(decreases_to!(*v => x.fields@[i as int].1)) by {
                    broadcast use vstd::std_specs::vec::axiom_vec_decreases_to_view;
                    let f = x.fields@[i as int];
                    let xa = (*v)->Record_0;
                    assert(decreases_to!(*v => xa));
                    assert(xa == *x);
                    assert(decreases_to!(xa => xa.fields));
                    assert(decreases_to!(x.fields => x.fields@));
                    assert(decreases_to!(x.fields@ => f));
                    assert(decreases_to!(f => f.1));
                };
                let item = (x.fields[i].0.clone(), copy_value(&x.fields[i].1));
                proof {
                    lemma_copied_fields_push(x.fields@, fields@, i as int, item);
                }
                fields.push(item);
                i = i + 1;
            }
            RuntimeValue::Record(crate::values::RuntimeRecord { name: x.name.clone(), fields })
        },
        RuntimeValue::Unit => RuntimeValue::Unit,
    }
}

/// The function that a `Call` of `callee` runs: the last one of that name,
/// or the error of an unknown callee.
pub fn find_callee(program: &crate::mir::Program, callee: &str) -> (r: Result<usize, RuntimeError>)
    ensures
        match last_function_named(program.functions@, callee@, program.functions@.len() as int) {
            Some(i) => r == Ok::<usize, RuntimeError>(i as usize),
            None => fails_with(r, "unknown callee `"@ + callee@ + "`"@),
        },
{
    let fs = &program.functions;
    let mut k: usize = fs.len();
    while k > 0
        invariant
            k <= fs@.len(),
            fs@ == program.functions@,
            last_function_named(fs@, callee@, fs@.len() as int) == last_function_named(fs@, callee@, k as int),
        decreases k,
    {
        if text_eq(fs[k - 1].name.as_str(), callee) {
            assert(fs@[k - 1].name@ == callee@);
            assert(last_function_named(fs@, callee@, k as int) == Some((k - 1) as int));
            return Ok(k - 1);
        }
        k = k - 1;
    }
    let mut m = String::from_str("unknown callee `");
    m.append(callee);
    m.append("`");
    Err(RuntimeError::new(m))
}

/// Which kind of value a runtime value is.
pub open spec fn value_kind_number(v: RuntimeValue) -> int {
    match v {
        RuntimeValue::Int(_) => 0,
        RuntimeValue::F64(_) => 1,
        RuntimeValue::Bool(_) => 2,
        RuntimeValue::Text(_) => 3,
        RuntimeValue::TextBuilder(_) => 4,
        RuntimeValue::List(_) => 5,
        RuntimeValue::Enum(_) => 6,
        RuntimeValue::Record(_) => 7,
        RuntimeValue::Unit => 8,
    }
}

/// What `==` of two interpreter values (`equality_value`, through
/// `same_value`) means: values of different kinds are never equal;
/// integers, booleans, texts, builder and list handles are equal exactly
/// when their contents are; a float NaN equals nothing, and a float equals
/// a float with the same bits otherwise; two enum values are equal only
/// when they are of the same enum and the same variant and both have a
/// payload or neither has one, and two payload-free values of the same enum
/// and variant are equal; two records are equal only when they have the same
/// name, as many fields, and the same field names in the same order; the
/// unit equals the unit.
pub proof fn lemma_equality_meaning(a: RuntimeValue, b: RuntimeValue)
    ensures
        value_kind_number(a) != value_kind_number(b) ==> !same_value(a, b),
        (a is Int && b is Int) ==> (same_value(a, b) <==> a->Int_0 == b->Int_0),
        (a is Bool && b is Bool) ==> (same_value(a, b) <==> a->Bool_0 == b->Bool_0),
        (a is Text && b is Text) ==> (same_value(a, b) <==> a->Text_0@ == b->Text_0@),
        (a is TextBuilder && b is TextBuilder) ==> (same_value(a, b) <==> a->TextBuilder_0 == b->TextBuilder_0),
        (a is List && b is List) ==> (same_value(a, b) <==> a->List_0 == b->List_0),
        (a is F64 && is_nan_bits(a->F64_0)) ==> !same_value(a, b) && !same_value(b, a),
        (a is F64 && b is F64 && !is_nan_bits(a->F64_0) && a->F64_0 == b->F64_0) ==> same_value(a, b),
        (a is Enum && b is Enum && same_value(a, b)) ==> a->Enum_0.name@ == b->Enum_0.name@ && a->Enum_0.variant@
            == b->Enum_0.variant@ && (a->Enum_0.payload is Some <==> b->Enum_0.payload is Some),
        (a is Enum && b is Enum && a->Enum_0.payload is None && b->Enum_0.payload is None) ==> (same_value(a, b) <==> (
        a->Enum_0.name@ == b->Enum_0.name@ && a->Enum_0.variant@ == b->Enum_0.variant@)),
        (a is Record && b is Record && same_value(a, b)) ==> a->Record_0.name@ == b->Record_0.name@
            && a->Record_0.fields@.len() == b->Record_0.fields@.len() && forall|i: int|
            0 <= i < a->Record_0.fields@.len() ==> (#[trigger] a->Record_0.fields@[i]).0@ == b->Record_0.fields@[i].0@,
        (a is Unit && b is Unit) ==> same_value(a, b),
{
    if a is Record && b is Record && same_value(a, b) {
        let x = a->Record_0;
        let y = b->Record_0;
        assert forall|i: int| 0 <= i < x.fields@.len() implies (#[trigger] x.fields@[i]).0@ == y.fields@[i].0@ by {
            lemma_same_fields_each(x.fields@, y.fields@, x.fields@.len() as int, i);
        }
    }
}

proof fn lemma_same_fields_each(xs: Seq<(String, RuntimeValue)>, ys: Seq<(String, RuntimeValue)>, n: int, i: int)
    requires
        0 <= i < n <= xs.len(),
        n <= ys.len(),
        same_fields(xs, ys, n),
    ensures
        xs[i].0@ == ys[i].0@,
    decreases n,
{
    if i < n - 1 {
        lemma_same_fields_each(xs, ys, n - 1, i);
    }
}

/// `==` and `!=` of the same operands (`equality_value`) give opposite
/// booleans, and `==` of two enum values of different variants is false.
pub proof fn lemma_equality_of_variants(a: RuntimeValue, b: RuntimeValue)
    ensures
        RuntimeValue::Bool(same_value(a, b) != false) != RuntimeValue::Bool(same_value(a, b) != true),
        (a is Enum && b is Enum && a->Enum_0.variant@ != b->Enum_0.variant@) ==> RuntimeValue::Bool(
            same_value(a, b) != false,
        ) == RuntimeValue::Bool(false),
{
    lemma_equality_meaning(a, b);
}

/// The integer arithmetic of the interpreter (`arith_value` on two `Int`
/// operands): adding then taking away the right operand gives the left one
/// back, taking away a value from itself gives 0, and adding is
/// order-independent; multiplying by 0 gives 0 and by 1 gives the value; a
/// division's quotient times the divisor is within one divisor of the
/// dividend, toward 0, and the quotient has the sign of the operands'
/// product.
pub proof fn lemma_integer_arithmetic(a: int, b: int)
    ensures
        int_arith(ArithOp::Add, a, b) - b == a,
        int_arith(ArithOp::Sub, a, b) + b == a,
        int_arith(ArithOp::Sub, a, a) == 0,
        int_arith(ArithOp::Add, a, b) == int_arith(ArithOp::Add, b, a),
        int_arith(ArithOp::Mul, a, 0) == 0,
        int_arith(ArithOp::Mul, a, 1) == a,
        int_arith(ArithOp::Mul, a, b) == int_arith(ArithOp::Mul, b, a),
        int_arith(ArithOp::Mul, a, b + 1) == int_arith(ArithOp::Mul, a, b) + a,
        b > 0 && a >= 0 ==> 0 <= a - int_arith(ArithOp::Div, a, b) * b < b,
        b > 0 && a < 0 ==> -b < a - int_arith(ArithOp::Div, a, b) * b <= 0,
        b < 0 && a >= 0 ==> 0 <= a - int_arith(ArithOp::Div, a, b) * b < -b,
        b < 0 && a < 0 ==> b < a - int_arith(ArithOp::Div, a, b) * b <= 0,
{
    assert(a * b == b * a) by (nonlinear_arith);
    assert(a * (b + 1) == a * b + a) by (nonlinear_arith);
    if b != 0 {
        let ma = if a < 0 { -a } else { a };
        let mb = if b < 0 { -b } else { b };
        let q = ma / mb;
        assert(0 <= ma - q * mb < mb) by (nonlinear_arith)
            requires
                ma >= 0,
                mb > 0,
                q == ma / mb,
        ;
        if (a < 0) == (b < 0) {
            assert(int_arith(ArithOp::Div, a, b) == q);
            if a < 0 {
                assert(a - q * b == -(ma - q * mb)) by (nonlinear_arith)
                    requires
                        ma == -a,
                        mb == -b,
                ;
            } else {
                assert(a - q * b == ma - q * mb) by (nonlinear_arith)
                    requires
                        ma == a,
                        mb == b,
                ;
            }
        } else {
            assert(int_arith(ArithOp::Div, a, b) == -q);
            if a < 0 {
                assert(a - (-q) * b == -(ma - q * mb)) by (nonlinear_arith)
                    requires
                        ma == -a,
                        mb == b,
                ;
            } else {
                assert(a - (-q) * b == ma - q * mb) by (nonlinear_arith)
                    requires
                        ma == a,
                        mb == -b,
                ;
            }
        }
    }
}

/// The integer ordering of the interpreter (`order_value` on two `Int`
/// operands): `Lt` of `a` and `b` is `Gt` of `b` and `a`, `Le` is the
/// negation of `Gt`, `Ge` the negation of `Lt`; no value is less than
/// itself and every value is at most itself; and `Lt` is `Le` without
/// equality.
pub proof fn lemma_integer_ordering(a: int, b: int)
    ensures
        int_order(OrderOp::Lt, a, b) == int_order(OrderOp::Gt, b, a),
        int_order(OrderOp::Le, a, b) == int_order(OrderOp::Ge, b, a),
        int_order(OrderOp::Le, a, b) == !int_order(OrderOp::Gt, a, b),
        int_order(OrderOp::Ge, a, b) == !int_order(OrderOp::Lt, a, b),
        !int_order(OrderOp::Lt, a, a),
        int_order(OrderOp::Le, a, a),
        int_order(OrderOp::Lt, a, b) == (int_order(OrderOp::Le, a, b) && a != b),
        int_order(OrderOp::Lt, a, b) ==> !int_order(OrderOp::Lt, b, a),
{
}

/// `==` of interpreter values does not depend on the order of its
/// operands: `a == b` and `b == a` (`equality_value`) always agree.
pub proof fn lemma_equality_symmetric(a: RuntimeValue, b: RuntimeValue)
    ensures
        same_value(a, b) == same_value(b, a),
    decreases a,
{
    match (a, b) {
        (RuntimeValue::Enum(x), RuntimeValue::Enum(y)) => {
            match (x.payload, y.payload) {
                (Some(p), Some(q)) => {
                    assert(decreases_to!(a => *p));
                    lemma_equality_symmetric(*p, *q);
                },
                _ => {},
            }
        },
        (RuntimeValue::Record(x), RuntimeValue::Record(y)) => {
            if x.fields@.len() == y.fields@.len() {
                lemma_same_fields_symmetric(a, x.fields@, y.fields@, x.fields@.len() as int);
            }
        },
        _ => {},
    }
}

proof fn lemma_same_fields_symmetric(a: RuntimeValue, xs: Seq<(String, RuntimeValue)>, ys: Seq<(String, RuntimeValue)>, n: int)
    requires
        a is Record,
        xs == a->Record_0.fields@,
        xs.len() == ys.len(),
        0 <= n <= xs.len(),
    ensures
        same_fields(xs, ys, n) == same_fields(ys, xs, n),
    decreases a, n,
{
    if n > 0 {
        lemma_same_fields_symmetric(a, xs, ys, n - 1);
        assert(decreases_to!(a => xs[n - 1].1)) by {
            broadcast use vstd::std_specs::vec::axiom_vec_decreases_to_view;
            let x = a->Record_0;
            let f = xs[n - 1];
            assert(decreases_to!(a => x));
            assert(decreases_to!(x => x.fields));
            assert(decreases_to!(x.fields => x.fields@));
            assert(decreases_to!(x.fields@ => f));
            assert(decreases_to!(f => f.1));
        };
        lemma_equality_symmetric(xs[n - 1].1, ys[n - 1].1);
    }
}

} // verus!
