//! The types that lowering gives to values, and their names.
use vstd::prelude::*;

use crate::native::{is_list_type, list_element};
use crate::text::{chars_of, nat_text, push_u64, text_eq};

verus! {

/// The type of a lowered value.
#[derive(Debug)]
pub enum LowerType {
    I32,
    F64,
    Bool,
    Text,
    TextBuilder,
    List(Box<LowerType>),
    Unit,
    Named(String),
    Array(Box<LowerType>, usize),
    Error,
}

/// A lowered type with its names as character sequences.
pub enum LowerTypeView {
    I32,
    F64,
    Bool,
    Text,
    TextBuilder,
    List(Box<LowerTypeView>),
    Unit,
    Named(Seq<char>),
    Array(Box<LowerTypeView>, usize),
    Error,
}

pub open spec fn lt_view(t: LowerType) -> LowerTypeView
    decreases t,
{
    match t {
        LowerType::I32 => LowerTypeView::I32,
        LowerType::F64 => LowerTypeView::F64,
        LowerType::Bool => LowerTypeView::Bool,
        LowerType::Text => LowerTypeView::Text,
        LowerType::TextBuilder => LowerTypeView::TextBuilder,
        LowerType::List(e) => LowerTypeView::List(Box::new(lt_view(*e))),
        LowerType::Unit => LowerTypeView::Unit,
        LowerType::Named(n) => LowerTypeView::Named(n@),
        LowerType::Array(e, n) => LowerTypeView::Array(Box::new(lt_view(*e)), n),
        LowerType::Error => LowerTypeView::Error,
    }
}

/// Whether two lowered types are the same type.
pub fn lower_type_eq(a: &LowerType, b: &LowerType) -> (r: bool)
    ensures
        r == (lt_view(*a) == lt_view(*b)),
    decreases *a,
{
    match a {
        LowerType::I32 => matches!(b, LowerType::I32),
        LowerType::F64 => matches!(b, LowerType::F64),
        LowerType::Bool => matches!(b, LowerType::Bool),
        LowerType::Text => matches!(b, LowerType::Text),
        LowerType::TextBuilder => matches!(b, LowerType::TextBuilder),
        LowerType::Unit => matches!(b, LowerType::Unit),
        LowerType::Error => matches!(b, LowerType::Error),
        LowerType::List(x) => match b {
            LowerType::List(y) => lower_type_eq(x, y),
            _ => false,
        },
        LowerType::Named(x) => match b {
            LowerType::Named(y) => text_eq(x.as_str(), y.as_str()),
            _ => false,
        },
        LowerType::Array(x, n) => match b {
            LowerType::Array(y, m) => *n == *m && lower_type_eq(x, y),
            _ => false,
        },
    }
}

/// `c` when it is an ASCII letter or digit, `_` otherwise.
pub open spec fn sanitize_char(c: char) -> char {
    if ('a' <= c && c <= 'z') || ('A' <= c && c <= 'Z') || ('0' <= c && c <= '9') {
        c
    } else {
        '_'
    }
}

/// The name of the record type that stands for an array of `len` elements.
pub open spec fn array_struct_text(element_ty: Seq<char>, len: nat) -> Seq<char> {
    "__Array_"@ + element_ty.map_values(|c: char| sanitize_char(c)) + "_"@ + nat_text(len)
}

pub fn array_struct_name(element_ty: &str, len: usize) -> (r: String)
    ensures
        r@ == array_struct_text(element_ty@, len as nat),
{
    let cs = chars_of(element_ty);
    let mut s = String::from_str("__Array_");
    let ghost start = s@;
    let mut i: usize = 0;
    while i < cs.len()
        invariant
            i <= cs.len(),
            cs@ == element_ty@,
            s@ == start + element_ty@.map_values(|c: char| sanitize_char(c)).take(i as int),
        decreases cs.len() - i,
    {
        let c = cs[i];
        let d = if ('a' <= c && c <= 'z') || ('A' <= c && c <= 'Z') || ('0' <= c && c <= '9') {
            c
        } else {
            '_'
        };
        s.push(d);
        assert(element_ty@.map_values(|c: char| sanitize_char(c)).take(i + 1) =~= element_ty@.map_values(
            |c: char| sanitize_char(c),
        ).take(i as int).push(d));
        i = i + 1;
    }
    assert(element_ty@.map_values(|c: char| sanitize_char(c)).take(cs.len() as int)
        =~= element_ty@.map_values(|c: char| sanitize_char(c)));
    s.append("_");
    push_u64(&mut s, len as u64);
    s
}

/// The name of the field that holds array element `index`.
pub open spec fn array_field_text(index: nat) -> Seq<char> {
    "slot"@ + nat_text(index)
}

pub fn array_field_name(index: usize) -> (r: String)
    ensures
        r@ == array_field_text(index as nat),
{
    let mut s = String::from_str("slot");
    push_u64(&mut s, index as u64);
    s
}

/// The source name of a type, if it has one (arrays and errors have none).
pub open spec fn spec_source_name(t: LowerTypeView) -> Option<Seq<char>>
    decreases t, 0nat,
{
    match t {
        LowerTypeView::I32 => Some("I32"@),
        LowerTypeView::F64 => Some("F64"@),
        LowerTypeView::Bool => Some("Bool"@),
        LowerTypeView::Text => Some("Text"@),
        LowerTypeView::TextBuilder => Some("TextBuilder"@),
        LowerTypeView::List(e) => match spec_lower_type_name(*e) {
            Some(n) => Some("List["@ + n + "]"@),
            None => None,
        },
        LowerTypeView::Unit => Some("Unit"@),
        LowerTypeView::Named(n) => Some(n),
        LowerTypeView::Array(_, _) | LowerTypeView::Error => None,
    }
}

/// The name of a type, naming an array by its record type.
pub open spec fn spec_lower_type_name(t: LowerTypeView) -> Option<Seq<char>>
    decreases t, 1nat,
{
    match t {
        LowerTypeView::Array(e, n) => match spec_lower_type_name(*e) {
            Some(en) => Some(array_struct_text(en, n as nat)),
            None => None,
        },
        _ => spec_source_name(t),
    }
}

pub open spec fn opt_string_view(o: Option<String>) -> Option<Seq<char>> {
    match o {
        Some(s) => Some(s@),
        None => None,
    }
}

impl LowerType {
    pub fn source_name(&self) -> (r: Option<String>)
        ensures
            opt_string_view(r) == spec_source_name(lt_view(*self)),
        decreases *self, 0nat,
    {
        match self {
            LowerType::I32 => Some(String::from_str("I32")),
            LowerType::F64 => Some(String::from_str("F64")),
            LowerType::Bool => Some(String::from_str("Bool")),
            LowerType::Text => Some(String::from_str("Text")),
            LowerType::TextBuilder => Some(String::from_str("TextBuilder")),
            LowerType::List(e) => match lower_type_name(e) {
                Some(n) => {
                    let mut s = String::from_str("List[");
                    s.append(n.as_str());
                    s.append("]");
                    Some(s)
                },
                None => None,
            },
            LowerType::Unit => Some(String::from_str("Unit")),
            LowerType::Named(n) => Some(n.clone()),
            LowerType::Array(_, _) | LowerType::Error => None,
        }
    }
}

pub fn lower_type_name(ty: &LowerType) -> (r: Option<String>)
    ensures
        opt_string_view(r) == spec_lower_type_name(lt_view(*ty)),
    decreases *ty, 1nat,
{
    match ty {
        LowerType::Array(e, n) => match lower_type_name(e) {
            Some(en) => Some(array_struct_name(en.as_str(), *n)),
            None => None,
        },
        _ => ty.source_name(),
    }
}

} // verus!

verus! {

/// Whether a character is white space in Unicode's sense (the White_Space
/// property, which `char::is_whitespace` tests): tab through carriage
/// return, space, next line, no-break space, ogham space mark, the spaces
/// from en quad to hair space, line and paragraph separators, narrow
/// no-break space, medium mathematical space and ideographic space.
pub open spec fn spec_is_whitespace(c: char) -> bool {
    let u = c as u32;
    ||| 0x9 <= u <= 0xD
    ||| u == 0x20
    ||| u == 0x85
    ||| u == 0xA0
    ||| u == 0x1680
    ||| 0x2000 <= u <= 0x200A
    ||| u == 0x2028
    ||| u == 0x2029
    ||| u == 0x202F
    ||| u == 0x205F
    ||| u == 0x3000
}

/// Whether a character is white space (see `spec_is_whitespace`).
pub(crate) fn is_whitespace(c: char) -> (r: bool)
    ensures
        r == spec_is_whitespace(c),
{
    let u = c as u32;
    (0x9 <= u && u <= 0xD) || u == 0x20 || u == 0x85 || u == 0xA0 || u == 0x1680 || (0x2000 <= u && u
        <= 0x200A) || u == 0x2028 || u == 0x2029 || u == 0x202F || u == 0x205F || u == 0x3000
}

/// The text without its leading and trailing white space (`str::trim`).
pub open spec fn trim_text(s: Seq<char>) -> Seq<char>
    decreases s.len(),
{
    if s.len() > 0 && spec_is_whitespace(s[0]) {
        trim_text(s.drop_first())
    } else if s.len() > 0 && spec_is_whitespace(s.last()) {
        trim_text(s.drop_last())
    } else {
        s
    }
}

pub proof fn lemma_trim_len(s: Seq<char>)
    ensures
        trim_text(s).len() <= s.len(),
    decreases s.len(),
{
    if s.len() > 0 && spec_is_whitespace(s[0]) {
        lemma_trim_len(s.drop_first());
    } else if s.len() > 0 && spec_is_whitespace(s.last()) {
        lemma_trim_len(s.drop_last());
    }
}

/// The bounds of the trimmed part of `cs[from..to]`.
fn trim_bounds(cs: &Vec<char>, from: usize, to: usize) -> (r: (usize, usize))
    requires
        from <= to <= cs@.len(),
    ensures
        from <= r.0 <= r.1 <= to,
        cs@.subrange(r.0 as int, r.1 as int) == trim_text(cs@.subrange(from as int, to as int)),
{
    let mut a = from;
    while a < to && is_whitespace(cs[a])
        invariant
            from <= a <= to <= cs@.len(),
            trim_text(cs@.subrange(from as int, to as int)) == trim_text(cs@.subrange(a as int, to as int)),
        decreases to - a,
    {
        assert(cs@.subrange(a as int, to as int).drop_first() =~= cs@.subrange(a + 1, to as int));
        a = a + 1;
    }
    let mut b = to;
    while b > a && is_whitespace(cs[b - 1])
        invariant
            from <= a <= b <= to <= cs@.len(),
            a < b ==> !spec_is_whitespace(cs@[a as int]),
            a == b ==> (a == to || !spec_is_whitespace(cs@[a as int])),
            trim_text(cs@.subrange(from as int, to as int)) == trim_text(cs@.subrange(a as int, b as int)),
        decreases b - a,
    {
        let ghost s = cs@.subrange(a as int, b as int);
        assert(s[0] == cs@[a as int]);
        assert(s.last() == cs@[b - 1]);
        assert(s.drop_last() =~= cs@.subrange(a as int, b - 1));
        b = b - 1;
    }
    proof {
        let s = cs@.subrange(a as int, b as int);
        if a < b {
            assert(s[0] == cs@[a as int]);
            assert(s.last() == cs@[b - 1]);
        }
    }
    (a, b)
}

/// The characters `cs[from..to]` as a string.
fn string_of(cs: &Vec<char>, from: usize, to: usize) -> (r: String)
    requires
        from <= to <= cs@.len(),
    ensures
        r@ == cs@.subrange(from as int, to as int),
{
    let mut s = String::new();
    let mut i = from;
    while i < to
        invariant
            from <= i <= to <= cs@.len(),
            s@ == cs@.subrange(from as int, i as int),
        decreases to - i,
    {
        s.push(cs[i]);
        assert(cs@.subrange(from as int, i + 1) =~= cs@.subrange(from as int, i as int).push(cs@[i as int]));
        i = i + 1;
    }
    s
}

pub open spec fn is_digit_char(c: char) -> bool {
    '0' <= c && c <= '9'
}

pub open spec fn digits_val(s: Seq<char>) -> nat
    decreases s.len(),
{
    if s.len() == 0 {
        0
    } else {
        digits_val(s.drop_last()) * 10 + (s.last() as nat - '0' as nat) as nat
    }
}

pub open spec fn all_digit_chars(d: Seq<char>) -> bool {
    forall|i: int| 0 <= i < d.len() ==> is_digit_char(#[trigger] d[i])
}

/// `str::parse::<usize>`: an optional `+`, then at least one ASCII digit,
/// with a value that fits.
pub open spec fn parse_usize_text(s: Seq<char>) -> Option<usize> {
    let d = if s.len() > 0 && s[0] == '+' {
        s.drop_first()
    } else {
        s
    };
    if d.len() > 0 && all_digit_chars(d) && digits_val(d) <= usize::MAX {
        Some(digits_val(d) as usize)
    } else {
        None
    }
}

fn parse_usize_chars(cs: &Vec<char>, from: usize, to: usize) -> (r: Option<usize>)
    requires
        from <= to <= cs@.len(),
    ensures
        r == parse_usize_text(cs@.subrange(from as int, to as int)),
{
    let ghost s = cs@.subrange(from as int, to as int);
    let start = if from < to && cs[from] == '+' {
        from + 1
    } else {
        from
    };
    let ghost d = cs@.subrange(start as int, to as int);
    assert(d =~= (if s.len() > 0 && s[0] == '+' {
        s.drop_first()
    } else {
        s
    }));
    if start == to {
        return None;
    }
    let mut v: usize = 0;
    let mut i = start;
    assert(cs@.subrange(start as int, start as int) =~= Seq::<char>::empty());
    while i < to
        invariant
            from <= start <= i <= to <= cs@.len(),
            start < to,
            s == cs@.subrange(from as int, to as int),
            d == cs@.subrange(start as int, to as int),
            d == (if s.len() > 0 && s[0] == '+' {
                s.drop_first()
            } else {
                s
            }),
            forall|k: int| start <= k < i ==> is_digit_char(#[trigger] cs@[k]),
            v as nat == digits_val(cs@.subrange(start as int, i as int)),
        decreases to - i,
    {
        let c = cs[i];
        if !('0' <= c && c <= '9') {
            assert(!is_digit_char(d[i - start]));
            assert(!all_digit_chars(d));
            return None;
        }
        let digit = (c as u32 - '0' as u32) as usize;
        assert(digit as nat == (c as nat - '0' as nat) as nat);
        let ghost pre = cs@.subrange(start as int, i + 1);
        assert(pre.drop_last() =~= cs@.subrange(start as int, i as int));
        assert(pre.last() == c);
        match v.checked_mul(10) {
            Some(t) => match t.checked_add(digit) {
                Some(u) => {
                    v = u;
                },
                None => {
                    proof {
                        if all_digit_chars(d) {
                            lemma_digits_val_prefix_bound(d, i + 1 - start);
                            assert(d.subrange(0, i + 1 - start) =~= pre);
                        }
                    }
                    return None;
                },
            },
            None => {
                proof {
                    if all_digit_chars(d) {
                        lemma_digits_val_prefix_bound(d, i + 1 - start);
                        assert(d.subrange(0, i + 1 - start) =~= pre);
                    }
                }
                return None;
            },
        }
        i = i + 1;
    }
    assert(cs@.subrange(start as int, to as int) =~= d);
    assert forall|k: int| 0 <= k < d.len() implies is_digit_char(#[trigger] d[k]) by {
        assert(d[k] == cs@[start + k]);
    }
    assert(all_digit_chars(d));
    Some(v)
}

/// A longer run of digits has at least the value of its prefix.
proof fn lemma_digits_val_prefix_bound(d: Seq<char>, n: int)
    requires
        0 <= n <= d.len(),
        forall|i: int| 0 <= i < d.len() ==> is_digit_char(#[trigger] d[i]),
    ensures
        digits_val(d.subrange(0, n)) <= digits_val(d),
    decreases d.len() - n,
{
    if n < d.len() {
        lemma_digits_val_prefix_bound(d, n + 1);
        let p = d.subrange(0, n + 1);
        assert(p.drop_last() =~= d.subrange(0, n));
        assert(is_digit_char(p.last()));
    } else {
        assert(d.subrange(0, n) =~= d);
    }
}

/// Where the element type of `[T; N]` ends: the first `;` outside nested
/// brackets of `inner`, scanning from `i` at bracket depth `depth`.
pub open spec fn split_point(inner: Seq<char>, i: nat, depth: nat) -> Option<nat>
    decreases inner.len() - i,
{
    if i >= inner.len() {
        None
    } else if inner[i as int] == '[' {
        split_point(inner, i + 1, depth + 1)
    } else if inner[i as int] == ']' {
        split_point(inner, i + 1, if depth == 0 { 0 } else { (depth - 1) as nat })
    } else if inner[i as int] == ';' && depth == 0 {
        Some(i)
    } else {
        split_point(inner, i + 1, depth)
    }
}

pub proof fn lemma_split_point_bound(inner: Seq<char>, i: nat, depth: nat)
    ensures
        split_point(inner, i, depth) matches Some(k) ==> i <= k < inner.len(),
    decreases inner.len() - i,
{
    if i < inner.len() {
        if inner[i as int] == '[' {
            lemma_split_point_bound(inner, i + 1, depth + 1);
        } else if inner[i as int] == ']' {
            lemma_split_point_bound(inner, i + 1, if depth == 0 { 0 } else { (depth - 1) as nat });
        } else if !(inner[i as int] == ';' && depth == 0) {
            lemma_split_point_bound(inner, i + 1, depth);
        }
    }
}

/// The value of the first substitution with the given name.
pub open spec fn substitution(subs: Seq<(String, usize)>, name: Seq<char>) -> Option<usize>
    decreases subs.len(),
{
    if subs.len() == 0 {
        None
    } else if subs[0].0@ == name {
        Some(subs[0].1)
    } else {
        substitution(subs.drop_first(), name)
    }
}

fn find_substitution(subs: &[(String, usize)], name: &str) -> (r: Option<usize>)
    ensures
        r == substitution(subs@, name@),
{
    let mut i: usize = 0;
    assert(subs@.skip(0) =~= subs@);
    while i < subs.len()
        invariant
            i <= subs.len(),
            substitution(subs@, name@) == substitution(subs@.skip(i as int), name@),
        decreases subs.len() - i,
    {
        assert(subs@.skip(i as int).drop_first() =~= subs@.skip(i + 1));
        if text_eq(subs[i].0.as_str(), name) {
            return Some(subs[i].1);
        }
        i = i + 1;
    }
    None
}

/// The type that a type name denotes: the built-in names, `List[T]`,
/// `[T; N]` with `N` a number or a substituted name, or a named type.
pub open spec fn type_of_name(name: Seq<char>, subs: Seq<(String, usize)>) -> LowerTypeView
    decreases name.len(), 1nat,
{
    if name == "I32"@ {
        LowerTypeView::I32
    } else if name == "F64"@ {
        LowerTypeView::F64
    } else if name == "Bool"@ {
        LowerTypeView::Bool
    } else if name == "Text"@ {
        LowerTypeView::Text
    } else if name == "TextBuilder"@ {
        LowerTypeView::TextBuilder
    } else if name == "Unit"@ {
        LowerTypeView::Unit
    } else if is_list_type(name) {
        LowerTypeView::List(Box::new(type_of_name(name.subrange(5, name.len() - 1), subs)))
    } else {
        match array_type_of_name(name, subs) {
            Some(t) => t,
            None => LowerTypeView::Named(name),
        }
    }
}

/// `[T; N]`: the element type and the length, if the name has that form.
pub open spec fn array_type_of_name(name: Seq<char>, subs: Seq<(String, usize)>) -> Option<LowerTypeView>
    decreases name.len(), 0nat,
{
    if name.len() >= 2 && name[0] == '[' && name.last() == ']' {
        let inner = name.subrange(1, name.len() - 1);
        match split_point(inner, 0, 0) {
            None => None,
            Some(k) => {
                proof {
                    lemma_split_point_bound(inner, 0, 0);
                    lemma_trim_len(inner.subrange(0, k as int));
                }
                let element = trim_text(inner.subrange(0, k as int));
                let len_text = trim_text(inner.subrange(k as int + 1, inner.len() as int));
                let len = match parse_usize_text(len_text) {
                    Some(l) => Some(l),
                    None => substitution(subs, len_text),
                };
                match len {
                    Some(l) => Some(LowerTypeView::Array(Box::new(type_of_name(element, subs)), l)),
                    None => None,
                }
            },
        }
    } else {
        None
    }
}

} // verus!

verus! {

/// The index in `cs` of the `;` that ends the element type of `[T; N]`.
fn find_split(cs: &Vec<char>) -> (r: Option<usize>)
    requires
        cs@.len() >= 2,
    ensures
        match split_point(cs@.subrange(1, cs@.len() - 1), 0, 0) {
            Some(j) => r == Some((j + 1) as usize),
            None => r is None,
        },
{
    let n = cs.len();
    let ghost inner = cs@.subrange(1, n - 1);
    let mut depth: usize = 0;
    let mut i: usize = 1;
    while i < n - 1
        invariant
            2 <= n == cs@.len(),
            inner == cs@.subrange(1, n - 1),
            1 <= i <= n - 1,
            depth <= i,
            split_point(inner, 0, 0) == split_point(inner, (i - 1) as nat, depth as nat),
        decreases n - 1 - i,
    {
        let c = cs[i];
        assert(inner[i - 1] == c);
        if c == '[' {
            depth = depth + 1;
        } else if c == ']' {
            depth = if depth == 0 {
                0
            } else {
                depth - 1
            };
        } else if c == ';' && depth == 0 {
            return Some(i);
        }
        i = i + 1;
    }
    None
}

/// `[T; N]` as an array type, if the name has that form (see
/// `array_type_of_name`).
pub fn parse_array_lower_type(name: &str, substitutions: &[(String, usize)]) -> (r: Option<LowerType>)
    ensures
        match array_type_of_name(name@, substitutions@) {
            Some(t) => r matches Some(x) && lt_view(x) == t,
            None => r is None,
        },
    decreases name@.len(), 0nat,
{
    let cs = chars_of(name);
    let n = cs.len();
    if n < 2 || cs[0] != '[' || cs[n - 1] != ']' {
        return None;
    }
    let ghost inner = name@.subrange(1, name@.len() - 1);
    assert(cs@.subrange(1, cs@.len() - 1) == inner);
    proof {
        lemma_split_point_bound(inner, 0, 0);
    }
    let k = match find_split(&cs) {
        Some(k) => k,
        None => {
            return None;
        },
    };
    assert(split_point(inner, 0, 0) == Some((k - 1) as nat));
    let (ea, eb) = trim_bounds(&cs, 1, k);
    assert(cs@.subrange(1, k as int) =~= inner.subrange(0, k - 1));
    let (la, lb) = trim_bounds(&cs, k + 1, n - 1);
    assert(cs@.subrange(k + 1, n - 1) =~= inner.subrange(k as int, inner.len() as int));
    let len = match parse_usize_chars(&cs, la, lb) {
        Some(l) => l,
        None => {
            let len_text = string_of(&cs, la, lb);
            match find_substitution(substitutions, len_text.as_str()) {
                Some(l) => l,
                None => {
                    return None;
                },
            }
        },
    };
    let element_text = string_of(&cs, ea, eb);
    proof {
        lemma_trim_len(inner.subrange(0, k - 1));
    }
    let element = LowerType::from_type_name(element_text.as_str(), substitutions);
    Some(LowerType::Array(Box::new(element), len))
}

impl LowerType {
    /// The type that a type name denotes (see `type_of_name`).
    pub fn from_type_name(name: &str, substitutions: &[(String, usize)]) -> (r: LowerType)
        ensures
            lt_view(r) == type_of_name(name@, substitutions@),
        decreases name@.len(), 1nat,
    {
        if text_eq(name, "I32") {
            LowerType::I32
        } else if text_eq(name, "F64") {
            LowerType::F64
        } else if text_eq(name, "Bool") {
            LowerType::Bool
        } else if text_eq(name, "Text") {
            LowerType::Text
        } else if text_eq(name, "TextBuilder") {
            LowerType::TextBuilder
        } else if text_eq(name, "Unit") {
            LowerType::Unit
        } else if let Some(inner) = list_element(name) {
            LowerType::List(Box::new(LowerType::from_type_name(inner, substitutions)))
        } else {
            match parse_array_lower_type(name, substitutions) {
                Some(t) => t,
                None => LowerType::Named(String::from_str(name)),
            }
        }
    }
}

} // verus!
