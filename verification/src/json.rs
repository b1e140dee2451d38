//! The wire format: a JSON reader and writer for the flat response and
//! request shapes the service speaks.
//!
//! Response records are flat objects of scalar fields, wrapped in an object
//! or an array. The reader takes the record fields exactly — strings (with
//! the two-character escapes, `\uXXXX` codes and surrogate pairs), numbers
//! in the JSON grammar, booleans and null — and passes over ignored fields
//! of any shape: a nested object or array in one is skipped by bracket
//! balance, its inside not held to the grammar. The writer emits the
//! two-character escapes, and `\u` forms for the other control characters.

use vstd::prelude::*;

use crate::num::is_digit;

verus! {

/// A scalar JSON value; a number is kept as its raw text.
pub enum Scalar {
    Null,
    Bool(bool),
    Num(Vec<char>),
    Str(Vec<char>),
    /// An object or array stood here; ignored fields may carry one.
    Composite,
}

/// The mathematical shape of a scalar value.
pub enum ScalarV {
    Null,
    Bool(bool),
    Num(Seq<char>),
    Str(Seq<char>),
    Composite,
}

impl Scalar {
    /// The scalar's mathematical shape.
    pub open spec fn model(self) -> ScalarV {
        match self {
            Scalar::Null => ScalarV::Null,
            Scalar::Bool(b) => ScalarV::Bool(b),
            Scalar::Num(v) => ScalarV::Num(v@),
            Scalar::Str(v) => ScalarV::Str(v@),
            Scalar::Composite => ScalarV::Composite,
        }
    }
}

/// True of JSON whitespace.
pub open spec fn is_ws(c: char) -> bool {
    c == ' ' || c == '\n' || c == '\r' || c == '\t'
}

/// First position at or after `i` that does not hold whitespace.
pub open spec fn ws_end(s: Seq<char>, i: int) -> int
    decreases s.len() - i,
{
    if 0 <= i < s.len() && is_ws(s[i]) {
        ws_end(s, i + 1)
    } else {
        i
    }
}

pub proof fn lemma_ws_end_bounds(s: Seq<char>, i: int)
    requires
        0 <= i <= s.len(),
    ensures
        i <= ws_end(s, i) <= s.len(),
        ws_end(s, i) < s.len() ==> !is_ws(s[ws_end(s, i)]),
    decreases s.len() - i,
{
    if i < s.len() && is_ws(s[i]) {
        lemma_ws_end_bounds(s, i + 1);
    }
}

/// What a two-character escape denotes, if anything.
pub open spec fn esc_of(c: char) -> Option<char> {
    if c == '"' {
        Some('"')
    } else if c == '\\' {
        Some('\\')
    } else if c == '/' {
        Some('/')
    } else if c == 'n' {
        Some('\n')
    } else if c == 't' {
        Some('\t')
    } else if c == 'r' {
        Some('\r')
    } else if c == 'b' {
        Some('\u{8}')
    } else if c == 'f' {
        Some('\u{c}')
    } else {
        None
    }
}

/// True of a hexadecimal digit character.
pub open spec fn is_hex(c: char) -> bool {
    ||| is_digit(c)
    ||| ('a' as u32) <= (c as u32) <= ('f' as u32)
    ||| ('A' as u32) <= (c as u32) <= ('F' as u32)
}

/// Numeric value of a hexadecimal digit character.
pub open spec fn hex_val(c: char) -> int {
    if is_digit(c) {
        (c as u32) - ('0' as u32)
    } else if ('a' as u32) <= (c as u32) <= ('f' as u32) {
        (c as u32) - ('a' as u32) + 10
    } else {
        (c as u32) - ('A' as u32) + 10
    }
}

/// True when four hexadecimal digits stand at `i`.
pub open spec fn hex4_at(s: Seq<char>, i: int) -> bool {
    &&& 0 <= i
    &&& i + 4 <= s.len()
    &&& is_hex(s[i])
    &&& is_hex(s[i + 1])
    &&& is_hex(s[i + 2])
    &&& is_hex(s[i + 3])
}

/// The code the four hexadecimal digits at `i` denote.
pub open spec fn hex4_val(s: Seq<char>, i: int) -> int {
    hex_val(s[i]) * 0x1000 + hex_val(s[i + 1]) * 0x100 + hex_val(s[i + 2]) * 16 + hex_val(s[i + 3])
}

/// A Unicode scalar value: a code point that is not a surrogate.
pub open spec fn is_scalar_value(u: u32) -> bool {
    u < 0xD800 || (0xE000 <= u && u <= 0x10FFFF)
}

/// A string body read from position `i` (just after the opening quote):
/// the decoded content and the position after the closing quote.
pub open spec fn sp_string(s: Seq<char>, i: int) -> Option<(Seq<char>, int)>
    decreases s.len() - i,
{
    if i < 0 || i >= s.len() {
        None
    } else if s[i] == '"' {
        Some((Seq::empty(), i + 1))
    } else if s[i] == '\\' {
        if i + 1 < s.len() && esc_of(s[i + 1]) is Some {
            match sp_string(s, i + 2) {
                Option::Some((t, j)) => Some((seq![esc_of(s[i + 1])->0] + t, j)),
                Option::None => None,
            }
        } else if i + 1 < s.len() && s[i + 1] == 'u' && hex4_at(s, i + 2) {
            let u = hex4_val(s, i + 2);
            if u < 0xD800 || u > 0xDFFF {
                match sp_string(s, i + 6) {
                    Option::Some((t, j)) => Some((seq![(u as u32) as char] + t, j)),
                    Option::None => None,
                }
            } else if u <= 0xDBFF && i + 8 <= s.len() && s[i + 6] == '\\' && s[i + 7] == 'u'
                && hex4_at(s, i + 8) && 0xDC00 <= hex4_val(s, i + 8) <= 0xDFFF {
                // a surrogate pair
                let cp = 0x10000 + (u - 0xD800) * 0x400 + (hex4_val(s, i + 8) - 0xDC00);
                match sp_string(s, i + 12) {
                    Option::Some((t, j)) => Some((seq![(cp as u32) as char] + t, j)),
                    Option::None => None,
                }
            } else {
                None
            }
        } else {
            None
        }
    } else {
        match sp_string(s, i + 1) {
            Option::Some((t, j)) => Some((seq![s[i]] + t, j)),
            Option::None => None,
        }
    }
}

pub proof fn lemma_sp_string_bounds(s: Seq<char>, i: int)
    requires
        sp_string(s, i) is Some,
    ensures
        i < (sp_string(s, i)->0).1 <= s.len(),
    decreases s.len() - i,
{
    if i < 0 || i >= s.len() {
    } else if s[i] == '"' {
    } else if s[i] == '\\' {
        if i + 1 < s.len() && esc_of(s[i + 1]) is Some {
            lemma_sp_string_bounds(s, i + 2);
        } else if i + 1 < s.len() && s[i + 1] == 'u' && hex4_at(s, i + 2) {
            if hex4_val(s, i + 2) < 0xD800 || hex4_val(s, i + 2) > 0xDFFF {
                lemma_sp_string_bounds(s, i + 6);
            } else {
                lemma_sp_string_bounds(s, i + 12);
            }
        }
    } else {
        lemma_sp_string_bounds(s, i + 1);
    }
}

/// True of the characters that may continue a JSON number.
pub open spec fn is_numchar(c: char) -> bool {
    is_digit(c) || c == '-' || c == '+' || c == '.' || c == 'e' || c == 'E'
}

/// First position at or after `i` that does not hold a number character.
pub open spec fn num_end(s: Seq<char>, i: int) -> int
    decreases s.len() - i,
{
    if 0 <= i < s.len() && is_numchar(s[i]) {
        num_end(s, i + 1)
    } else {
        i
    }
}

pub proof fn lemma_num_end_bounds(s: Seq<char>, i: int)
    requires
        0 <= i <= s.len(),
    ensures
        i <= num_end(s, i) <= s.len(),
    decreases s.len() - i,
{
    if i < s.len() && is_numchar(s[i]) {
        lemma_num_end_bounds(s, i + 1);
    }
}

/// The JSON number grammar: an optional minus, then an integer part
/// without a leading zero, an optional fraction, an optional exponent.
pub open spec fn json_number(s: Seq<char>) -> bool {
    let b = if s.len() > 0 && s[0] == '-' {
        s.skip(1)
    } else {
        s
    };
    &&& crate::num::float_text_wf(b)
    &&& (crate::num::ipart(b).len() > 1 ==> crate::num::ipart(b)[0] != '0')
}

/// True when the literal stands in `s` at position `i`.
pub open spec fn lit_at(s: Seq<char>, i: int, lit: Seq<char>) -> bool {
    0 <= i && i + lit.len() <= s.len() && s.subrange(i, i + lit.len()) == lit
}

/// A scalar value read from position `i`: the value and the position after
/// it.
pub open spec fn sp_scalar(s: Seq<char>, i: int) -> Option<(ScalarV, int)> {
    if i < 0 || i >= s.len() {
        None
    } else if s[i] == '"' {
        match sp_string(s, i + 1) {
            Option::Some((t, j)) => Some((ScalarV::Str(t), j)),
            Option::None => None,
        }
    } else if s[i] == 't' {
        if lit_at(s, i, "true"@) {
            Some((ScalarV::Bool(true), i + 4))
        } else {
            None
        }
    } else if s[i] == 'f' {
        if lit_at(s, i, "false"@) {
            Some((ScalarV::Bool(false), i + 5))
        } else {
            None
        }
    } else if s[i] == 'n' {
        if lit_at(s, i, "null"@) {
            Some((ScalarV::Null, i + 4))
        } else {
            None
        }
    } else if s[i] == '-' || is_digit(s[i]) {
        if json_number(s.subrange(i, num_end(s, i + 1))) {
            Some((ScalarV::Num(s.subrange(i, num_end(s, i + 1))), num_end(s, i + 1)))
        } else {
            None
        }
    } else {
        None
    }
}

pub proof fn lemma_sp_scalar_bounds(s: Seq<char>, i: int)
    requires
        sp_scalar(s, i) is Some,
    ensures
        i < (sp_scalar(s, i)->0).1 <= s.len(),
{
    if 0 <= i < s.len() {
        if s[i] == '"' {
            lemma_sp_string_bounds(s, i + 1);
        } else if s[i] == '-' || is_digit(s[i]) {
            lemma_num_end_bounds(s, i + 1);
        } else {
            reveal_strlit("true");
            reveal_strlit("false");
            reveal_strlit("null");
        }
    }
}

/// Position after a balanced run of brackets, read inside a composite
/// value whose opening bracket is already consumed: strings pass by the
/// string grammar, brackets raise and lower the count, and the run ends
/// when the count returns to zero.
pub open spec fn bal_end(s: Seq<char>, i: int, depth: nat) -> Option<int>
    decreases s.len() - i,
    via bal_end_dec
{
    if i < 0 || i >= s.len() {
        None
    } else if s[i] == '"' {
        match sp_string(s, i + 1) {
            Option::Some((_t, j)) => bal_end(s, j, depth),
            Option::None => None,
        }
    } else if s[i] == '{' || s[i] == '[' {
        bal_end(s, i + 1, depth + 1)
    } else if s[i] == '}' || s[i] == ']' {
        if depth == 1 {
            Some(i + 1)
        } else {
            bal_end(s, i + 1, (depth - 1) as nat)
        }
    } else {
        bal_end(s, i + 1, depth)
    }
}

#[via_fn]
proof fn bal_end_dec(s: Seq<char>, i: int, depth: nat) {
    if 0 <= i < s.len() && s[i] == '"' && sp_string(s, i + 1) is Some {
        lemma_sp_string_bounds(s, i + 1);
    }
}

pub proof fn lemma_bal_end_bounds(s: Seq<char>, i: int, depth: nat)
    requires
        0 <= i,
        bal_end(s, i, depth) is Some,
    ensures
        i < bal_end(s, i, depth)->0 <= s.len(),
    decreases s.len() - i,
{
    if i >= s.len() {
    } else if s[i] == '"' {
        lemma_sp_string_bounds(s, i + 1);
        lemma_bal_end_bounds(s, (sp_string(s, i + 1)->0).1, depth);
    } else if s[i] == '{' || s[i] == '[' {
        lemma_bal_end_bounds(s, i + 1, depth + 1);
    } else if s[i] == '}' || s[i] == ']' {
        if depth != 1 {
            lemma_bal_end_bounds(s, i + 1, (depth - 1) as nat);
        }
    } else {
        lemma_bal_end_bounds(s, i + 1, depth);
    }
}

/// A field's value read from position `i`: a scalar as itself, an object
/// or array skipped as a composite, each with the position after it.
pub open spec fn sp_field_value(s: Seq<char>, i: int) -> Option<(ScalarV, int)> {
    if 0 <= i < s.len() && (s[i] == '{' || s[i] == '[') {
        match bal_end(s, i + 1, 1) {
            Option::Some(j) => Some((ScalarV::Composite, j)),
            Option::None => None,
        }
    } else {
        sp_scalar(s, i)
    }
}

pub proof fn lemma_sp_field_value_bounds(s: Seq<char>, i: int)
    requires
        sp_field_value(s, i) is Some,
    ensures
        i < (sp_field_value(s, i)->0).1 <= s.len(),
{
    if 0 <= i < s.len() && (s[i] == '{' || s[i] == '[') {
        lemma_bal_end_bounds(s, i + 1, 1);
    } else {
        lemma_sp_scalar_bounds(s, i);
    }
}

/// The fields of a flat object, read from just after its opening brace:
/// one or more `"key": scalar` pairs, and the position after the closing
/// brace.
pub open spec fn sp_fields(s: Seq<char>, i: int) -> Option<(Seq<(Seq<char>, ScalarV)>, int)>
    decreases s.len() - i,
    via sp_fields_dec
{
    if i < 0 {
        None
    } else {
        let i1 = ws_end(s, i);
        if i1 >= s.len() || s[i1] != '"' {
            None
        } else {
            match sp_string(s, i1 + 1) {
                Option::None => None,
                Option::Some((key, j)) => {
                    let j1 = ws_end(s, j);
                    if j1 >= s.len() || s[j1] != ':' {
                        None
                    } else {
                        match sp_field_value(s, ws_end(s, j1 + 1)) {
                            Option::None => None,
                            Option::Some((val, k)) => {
                                let k1 = ws_end(s, k);
                                if k1 < s.len() && s[k1] == '}' {
                                    Some((seq![(key, val)], k1 + 1))
                                } else if k1 < s.len() && s[k1] == ',' {
                                    match sp_fields(s, k1 + 1) {
                                        Option::Some((rest, e)) => Some((seq![(key, val)] + rest, e)),
                                        Option::None => None,
                                    }
                                } else {
                                    None
                                }
                            },
                        }
                    }
                },
            }
        }
    }
}

#[via_fn]
proof fn sp_fields_dec(s: Seq<char>, i: int) {
    if 0 <= i <= s.len() {
        lemma_ws_end_bounds(s, i);
        let i1 = ws_end(s, i);
        if i1 < s.len() && s[i1] == '"' && sp_string(s, i1 + 1) is Some {
            lemma_sp_string_bounds(s, i1 + 1);
            let j = (sp_string(s, i1 + 1)->0).1;
            lemma_ws_end_bounds(s, j);
            let j1 = ws_end(s, j);
            if j1 < s.len() {
                lemma_ws_end_bounds(s, j1 + 1);
                let j2 = ws_end(s, j1 + 1);
                if sp_field_value(s, j2) is Some {
                    lemma_sp_field_value_bounds(s, j2);
                    lemma_ws_end_bounds(s, (sp_field_value(s, j2)->0).1);
                }
            }
        }
    }
}

pub proof fn lemma_sp_fields_bounds(s: Seq<char>, i: int)
    requires
        0 <= i <= s.len(),
        sp_fields(s, i) is Some,
    ensures
        i < (sp_fields(s, i)->0).1 <= s.len(),
    decreases s.len() - i,
{
    lemma_ws_end_bounds(s, i);
    let i1 = ws_end(s, i);
    if i1 < s.len() && s[i1] == '"' && sp_string(s, i1 + 1) is Some {
        lemma_sp_string_bounds(s, i1 + 1);
        let j = (sp_string(s, i1 + 1)->0).1;
        lemma_ws_end_bounds(s, j);
        let j1 = ws_end(s, j);
        if j1 < s.len() {
            lemma_ws_end_bounds(s, j1 + 1);
            let j2 = ws_end(s, j1 + 1);
            if sp_field_value(s, j2) is Some {
                lemma_sp_field_value_bounds(s, j2);
                let k = (sp_field_value(s, j2)->0).1;
                lemma_ws_end_bounds(s, k);
                let k1 = ws_end(s, k);
                if k1 < s.len() && s[k1] == ',' && sp_fields(s, k1 + 1) is Some {
                    lemma_sp_fields_bounds(s, k1 + 1);
                }
            }
        }
    }
}

/// A flat object of scalar fields: its fields, in order, and the position
/// after the closing brace.
pub open spec fn sp_object(s: Seq<char>, i: int) -> Option<(Seq<(Seq<char>, ScalarV)>, int)> {
    if i < 0 {
        None
    } else {
        let i1 = ws_end(s, i);
        if i1 >= s.len() || s[i1] != '{' {
            None
        } else {
            let i2 = ws_end(s, i1 + 1);
            if i2 < s.len() && s[i2] == '}' {
                Some((Seq::empty(), i2 + 1))
            } else {
                sp_fields(s, i1 + 1)
            }
        }
    }
}

pub proof fn lemma_sp_object_bounds(s: Seq<char>, i: int)
    requires
        0 <= i <= s.len(),
        sp_object(s, i) is Some,
    ensures
        i < (sp_object(s, i)->0).1 <= s.len(),
{
    lemma_ws_end_bounds(s, i);
    let i1 = ws_end(s, i);
    if i1 < s.len() && s[i1] == '{' {
        lemma_ws_end_bounds(s, i1 + 1);
        if sp_fields(s, i1 + 1) is Some {
            lemma_sp_fields_bounds(s, i1 + 1);
        }
    }
}

/// The elements of a non-empty array of flat objects, read from just after
/// the opening bracket or a separating comma: the objects' field lists and
/// the position after the closing bracket.
pub open spec fn sp_elems(s: Seq<char>, i: int) -> Option<
    (Seq<Seq<(Seq<char>, ScalarV)>>, int),
>
    decreases s.len() - i,
    via sp_elems_dec
{
    if i < 0 {
        None
    } else {
        match sp_object(s, i) {
            Option::None => None,
            Option::Some((o, j)) => {
                let j1 = ws_end(s, j);
                if j1 < s.len() && s[j1] == ']' {
                    Some((seq![o], j1 + 1))
                } else if j1 < s.len() && s[j1] == ',' {
                    match sp_elems(s, j1 + 1) {
                        Option::Some((rest, e)) => Some((seq![o] + rest, e)),
                        Option::None => None,
                    }
                } else {
                    None
                }
            },
        }
    }
}

#[via_fn]
proof fn sp_elems_dec(s: Seq<char>, i: int) {
    if 0 <= i <= s.len() && sp_object(s, i) is Some {
        lemma_sp_object_bounds(s, i);
        lemma_ws_end_bounds(s, (sp_object(s, i)->0).1);
    }
}

pub proof fn lemma_sp_elems_bounds(s: Seq<char>, i: int)
    requires
        0 <= i <= s.len(),
        sp_elems(s, i) is Some,
    ensures
        i < (sp_elems(s, i)->0).1 <= s.len(),
    decreases s.len() - i,
{
    lemma_sp_object_bounds(s, i);
    let j = (sp_object(s, i)->0).1;
    lemma_ws_end_bounds(s, j);
    let j1 = ws_end(s, j);
    if j1 < s.len() && s[j1] == ',' && sp_elems(s, j1 + 1) is Some {
        lemma_sp_elems_bounds(s, j1 + 1);
    }
}

/// An array of flat objects: the objects' field lists and the position
/// after the closing bracket.
pub open spec fn sp_array(s: Seq<char>, i: int) -> Option<(Seq<Seq<(Seq<char>, ScalarV)>>, int)> {
    if i < 0 {
        None
    } else {
        let i1 = ws_end(s, i);
        if i1 >= s.len() || s[i1] != '[' {
            None
        } else {
            let i2 = ws_end(s, i1 + 1);
            if i2 < s.len() && s[i2] == ']' {
                Some((Seq::empty(), i2 + 1))
            } else {
                sp_elems(s, i1 + 1)
            }
        }
    }
}

pub proof fn lemma_sp_array_bounds(s: Seq<char>, i: int)
    requires
        0 <= i <= s.len(),
        sp_array(s, i) is Some,
    ensures
        i < (sp_array(s, i)->0).1 <= s.len(),
{
    lemma_ws_end_bounds(s, i);
    let i1 = ws_end(s, i);
    if i1 < s.len() && s[i1] == '[' {
        lemma_ws_end_bounds(s, i1 + 1);
        if sp_elems(s, i1 + 1) is Some {
            lemma_sp_elems_bounds(s, i1 + 1);
        }
    }
}

/// The fields of the wrapper object, read from just after its opening
/// brace. The named key may carry an array of flat objects; every other
/// field must carry a scalar. Yields the first such array, if one stands
/// there, and the position after the closing brace.
pub open spec fn sp_top_fields(s: Seq<char>, i: int, key: Seq<char>) -> Option<
    (Option<Seq<Seq<(Seq<char>, ScalarV)>>>, int),
>
    decreases s.len() - i,
    via sp_top_fields_dec
{
    if i < 0 {
        None
    } else {
        let i1 = ws_end(s, i);
        if i1 >= s.len() || s[i1] != '"' {
            None
        } else {
            match sp_string(s, i1 + 1) {
                Option::None => None,
                Option::Some((k, j)) => {
                    let j1 = ws_end(s, j);
                    if j1 >= s.len() || s[j1] != ':' {
                        None
                    } else {
                        let j2 = ws_end(s, j1 + 1);
                        if j2 < s.len() && s[j2] == '[' && k == key {
                            {
                                match sp_array(s, j2) {
                                    Option::None => None,
                                    Option::Some((arr, e)) => {
                                        let e1 = ws_end(s, e);
                                        if e1 < s.len() && s[e1] == '}' {
                                            Some((Some(arr), e1 + 1))
                                        } else if e1 < s.len() && s[e1] == ',' {
                                            match sp_top_fields(s, e1 + 1, key) {
                                                Option::Some((_rest, e2)) => Some((Some(arr), e2)),
                                                Option::None => None,
                                            }
                                        } else {
                                            None
                                        }
                                    },
                                }
                            }
                        } else {
                            match sp_field_value(s, j2) {
                                Option::None => None,
                                Option::Some((_v, kpos)) => {
                                    let k1 = ws_end(s, kpos);
                                    if k1 < s.len() && s[k1] == '}' {
                                        Some((None, k1 + 1))
                                    } else if k1 < s.len() && s[k1] == ',' {
                                        sp_top_fields(s, k1 + 1, key)
                                    } else {
                                        None
                                    }
                                },
                            }
                        }
                    }
                },
            }
        }
    }
}

#[via_fn]
proof fn sp_top_fields_dec(s: Seq<char>, i: int, key: Seq<char>) {
    if 0 <= i <= s.len() {
        lemma_ws_end_bounds(s, i);
        let i1 = ws_end(s, i);
        if i1 < s.len() && s[i1] == '"' && sp_string(s, i1 + 1) is Some {
            lemma_sp_string_bounds(s, i1 + 1);
            let j = (sp_string(s, i1 + 1)->0).1;
            lemma_ws_end_bounds(s, j);
            let j1 = ws_end(s, j);
            if j1 < s.len() {
                lemma_ws_end_bounds(s, j1 + 1);
                let j2 = ws_end(s, j1 + 1);
                if sp_array(s, j2) is Some {
                    lemma_sp_array_bounds(s, j2);
                    lemma_ws_end_bounds(s, (sp_array(s, j2)->0).1);
                }
                if sp_field_value(s, j2) is Some {
                    lemma_sp_field_value_bounds(s, j2);
                    lemma_ws_end_bounds(s, (sp_field_value(s, j2)->0).1);
                }
            }
        }
    }
}

/// Advance past whitespace.
#[verifier::loop_isolation(false)]
pub fn skip_ws(v: &Vec<char>, i: usize) -> (r: usize)
    requires
        i <= v@.len(),
    ensures
        r == ws_end(v@, i as int),
        i <= r <= v@.len(),
{
    let mut j = i;
    while j < v.len() && (v[j] == ' ' || v[j] == '\n' || v[j] == '\r' || v[j] == '\t')
        invariant
            i <= j <= v@.len(),
            ws_end(v@, i as int) == ws_end(v@, j as int),
        decreases v@.len() - j,
    {
        j = j + 1;
    }
    j
}

/// What a two-character escape denotes, if anything.
fn esc_char(c: char) -> (r: Option<char>)
    ensures
        r == esc_of(c),
{
    if c == '"' {
        Some('"')
    } else if c == '\\' {
        Some('\\')
    } else if c == '/' {
        Some('/')
    } else if c == 'n' {
        Some('\n')
    } else if c == 't' {
        Some('\t')
    } else if c == 'r' {
        Some('\r')
    } else if c == 'b' {
        Some('\u{8}')
    } else if c == 'f' {
        Some('\u{c}')
    } else {
        None
    }
}

/// Numeric value of a hexadecimal digit character.
fn hex_val_char(c: char) -> (r: Option<u32>)
    ensures
        r is Some <==> is_hex(c),
        r matches Some(x) ==> x == hex_val(c) && x < 16,
{
    let u = c as u32;
    if u >= '0' as u32 && u <= '9' as u32 {
        Some(u - '0' as u32)
    } else if u >= 'a' as u32 && u <= 'f' as u32 {
        Some(u - 'a' as u32 + 10)
    } else if u >= 'A' as u32 && u <= 'F' as u32 {
        Some(u - 'A' as u32 + 10)
    } else {
        None
    }
}

/// Read the code of four hexadecimal digits at `i`.
fn read_hex4(v: &Vec<char>, i: usize) -> (r: Option<u32>)
    requires
        i <= v@.len(),
    ensures
        r is Some <==> hex4_at(v@, i as int),
        r matches Some(u) ==> u == hex4_val(v@, i as int) && u <= 0xFFFF,
{
    if v.len() - i < 4 {
        return None;
    }
    let h0 = match hex_val_char(v[i]) {
        Option::Some(x) => x,
        Option::None => {
            return None;
        },
    };
    let h1 = match hex_val_char(v[i + 1]) {
        Option::Some(x) => x,
        Option::None => {
            return None;
        },
    };
    let h2 = match hex_val_char(v[i + 2]) {
        Option::Some(x) => x,
        Option::None => {
            return None;
        },
    };
    let h3 = match hex_val_char(v[i + 3]) {
        Option::Some(x) => x,
        Option::None => {
            return None;
        },
    };
    Some(h0 * 0x1000 + h1 * 0x100 + h2 * 16 + h3)
}

/// The character with the given code.
///
/// Relies on `char::from_u32`: the character for a Unicode scalar value,
/// and nothing for a surrogate or an out-of-range code.
#[verifier::external_body]
fn char_from_u32(u: u32) -> (r: Option<char>)
    ensures
        is_scalar_value(u) ==> r == Some(u as char),
        !is_scalar_value(u) ==> r is None,
{
    char::from_u32(u)
}

/// Read a string body from just after its opening quote: the decoded
/// content and the position after the closing quote.
pub fn parse_string(v: &Vec<char>, i: usize) -> (r: Option<(Vec<char>, usize)>)
    requires
        i <= v@.len(),
    ensures
        match r {
            Option::Some((t, j)) => sp_string(v@, i as int) == Some((t@, j as int)) && i < j
                <= v@.len(),
            Option::None => sp_string(v@, i as int) is None,
        },
    decreases v@.len() - i,
{
    if i >= v.len() {
        return None;
    }
    let c = v[i];
    if c == '"' {
        let t: Vec<char> = Vec::new();
        proof {
            assert(t@ =~= Seq::<char>::empty());
        }
        return Some((t, i + 1));
    }
    if c == '\\' {
        if i + 1 >= v.len() {
            return None;
        }
        match esc_char(v[i + 1]) {
            Option::None => {
                if v[i + 1] != 'u' {
                    return None;
                }
                let u = match read_hex4(v, i + 2) {
                    Option::Some(x) => x,
                    Option::None => {
                        return None;
                    },
                };
                if u < 0xD800 || u > 0xDFFF {
                    let d = match char_from_u32(u) {
                        Option::Some(d) => d,
                        Option::None => {
                            return None;
                        },
                    };
                    match parse_string(v, i + 6) {
                        Option::None => None,
                        Option::Some((t, j)) => {
                            let mut out: Vec<char> = Vec::new();
                            out.push(d);
                            crate::text::push_all(&mut out, &t);
                            proof {
                                assert(out@ =~= seq![d] + t@);
                            }
                            Some((out, j))
                        },
                    }
                } else if u <= 0xDBFF && v.len() - i >= 8 && v[i + 6] == '\\' && v[i + 7] == 'u' {
                    let u2 = match read_hex4(v, i + 8) {
                        Option::Some(x) => x,
                        Option::None => {
                            return None;
                        },
                    };
                    if !(0xDC00 <= u2 && u2 <= 0xDFFF) {
                        return None;
                    }
                    let cp: u32 = 0x10000 + (u - 0xD800) * 0x400 + (u2 - 0xDC00);
                    let d = match char_from_u32(cp) {
                        Option::Some(d) => d,
                        Option::None => {
                            return None;
                        },
                    };
                    match parse_string(v, i + 12) {
                        Option::None => None,
                        Option::Some((t, j)) => {
                            let mut out: Vec<char> = Vec::new();
                            out.push(d);
                            crate::text::push_all(&mut out, &t);
                            proof {
                                assert(out@ =~= seq![d] + t@);
                            }
                            Some((out, j))
                        },
                    }
                } else {
                    None
                }
            },
            Option::Some(d) => {
                match parse_string(v, i + 2) {
                    Option::None => None,
                    Option::Some((t, j)) => {
                        let mut out: Vec<char> = Vec::new();
                        out.push(d);
                        crate::text::push_all(&mut out, &t);
                        proof {
                            assert(out@ =~= seq![d] + t@);
                        }
                        Some((out, j))
                    },
                }
            },
        }
    } else {
        match parse_string(v, i + 1) {
            Option::None => None,
            Option::Some((t, j)) => {
                let mut out: Vec<char> = Vec::new();
                out.push(c);
                crate::text::push_all(&mut out, &t);
                proof {
                    assert(out@ =~= seq![c] + t@);
                }
                Some((out, j))
            },
        }
    }
}

/// Advance past number characters.
#[verifier::loop_isolation(false)]
fn scan_num(v: &Vec<char>, i: usize) -> (r: usize)
    requires
        i <= v@.len(),
    ensures
        r == num_end(v@, i as int),
        i <= r <= v@.len(),
{
    let mut j = i;
    while j < v.len() && (v[j] as u32 >= '0' as u32 && v[j] as u32 <= '9' as u32 || v[j] == '-'
        || v[j] == '+' || v[j] == '.' || v[j] == 'e' || v[j] == 'E')
        invariant
            i <= j <= v@.len(),
            num_end(v@, i as int) == num_end(v@, j as int),
        decreases v@.len() - j,
    {
        j = j + 1;
    }
    j
}

/// True when the literal stands in `v` at position `i`.
#[verifier::loop_isolation(false)]
fn match_lit(v: &Vec<char>, i: usize, lit: &str) -> (r: bool)
    requires
        i <= v@.len(),
    ensures
        r == lit_at(v@, i as int, lit@),
{
    let n = lit.unicode_len();
    if n > v.len() - i {
        return false;
    }
    let mut k: usize = 0;
    while k < n
        invariant
            0 <= k <= n,
            forall|x: int| 0 <= x < k ==> v@[i + x] == lit@[x],
        decreases n - k,
    {
        if v[i + k] != lit.get_char(k) {
            proof {
                assert(v@.subrange(i as int, i + n) != lit@) by {
                    assert(v@.subrange(i as int, i + n)[k as int] == v@[i + k]);
                }
            }
            return false;
        }
        k = k + 1;
    }
    proof {
        assert(v@.subrange(i as int, i + n) =~= lit@);
    }
    true
}

/// True when the characters from `from` to `to` are all decimal digits.
#[verifier::loop_isolation(false)]
fn all_digits_range(v: &Vec<char>, from: usize, to: usize) -> (r: bool)
    requires
        from <= to <= v@.len(),
    ensures
        r == crate::num::all_digits(v@.subrange(from as int, to as int)),
{
    let mut k = from;
    while k < to
        invariant
            from <= k <= to,
            forall|x: int|
                0 <= x < k - from ==> crate::num::is_digit(
                    #[trigger] v@.subrange(from as int, to as int)[x],
                ),
        decreases to - k,
    {
        proof {
            assert(v@.subrange(from as int, to as int)[k - from] == v@[k as int]);
        }
        if !(v[k] as u32 >= '0' as u32 && v[k] as u32 <= '9' as u32) {
            return false;
        }
        k = k + 1;
    }
    true
}

/// True when the characters of `v` form a JSON number.
#[verifier::loop_isolation(false)]
fn is_json_number(v: &Vec<char>) -> (r: bool)
    ensures
        r == json_number(v@),
{
    let n = v.len();
    let off: usize = if n > 0 && v[0] == '-' {
        1
    } else {
        0
    };
    let b = crate::text::slice_chars(v, off, n);
    let ghost bs = if v@.len() > 0 && v@[0] == '-' {
        v@.skip(1)
    } else {
        v@
    };
    proof {
        assert(b@ =~= bs);
    }
    let bn = b.len();
    // Locate the exponent marker.
    let mut ei: usize = 0;
    while ei < bn && !(b[ei] == 'e' || b[ei] == 'E')
        invariant
            0 <= ei <= bn,
            forall|k: int| 0 <= k < ei ==> b@[k] != 'e' && b@[k] != 'E',
        decreases bn - ei,
    {
        ei = ei + 1;
    }
    proof {
        crate::num::lemma_scan_to_is(bs, 'e', 'E', ei as int);
    }
    let ghost m = crate::num::mant(bs);
    // Locate the decimal point within the mantissa.
    let mut di: usize = 0;
    while di < ei && b[di] != '.'
        invariant
            0 <= di <= ei,
            forall|k: int| 0 <= k < di ==> b@[k] != '.',
        decreases ei - di,
    {
        di = di + 1;
    }
    proof {
        assert forall|k: int| 0 <= k < di implies m[k] != '.' && m[k] != '.' by {
            assert(m[k] == bs[k]);
        }
        if di < ei {
            assert(m[di as int] == bs[di as int]);
        }
        crate::num::lemma_scan_to_is(m, '.', '.', di as int);
        assert(crate::num::ipart(bs) =~= bs.subrange(0, di as int));
    }
    if di == 0 {
        // No integer digits.
        return false;
    }
    if di > 1 && b[0] == '0' {
        // A leading zero.
        proof {
            assert(crate::num::ipart(bs)[0] == bs[0]);
        }
        return false;
    }
    if !all_digits_range(&b, 0, di) {
        return false;
    }
    if di < ei {
        let flen = ei - di - 1;
        if flen == 0 {
            // A decimal point with no digits after it.
            return false;
        }
        proof {
            assert(crate::num::fpart(bs) =~= bs.subrange(di + 1, ei as int));
        }
        if !all_digits_range(&b, di + 1, ei) {
            return false;
        }
    }
    if ei < bn {
        let mut p: usize = ei + 1;
        proof {
            assert(crate::num::exp_text(bs).len() == bn - p);
        }
        if p == bn {
            // An exponent marker with nothing after it.
            return false;
        }
        proof {
            assert(crate::num::exp_text(bs)[0] == bs[p as int]);
        }
        let c0 = b[p];
        if c0 == '-' || c0 == '+' {
            p = p + 1;
        }
        proof {
            assert(crate::num::int_text_digits(crate::num::exp_text(bs)) =~= bs.subrange(
                p as int,
                bn as int,
            ));
        }
        if p == bn {
            // A sign with no digits after it.
            return false;
        }
        if !all_digits_range(&b, p, bn) {
            return false;
        }
    }
    true
}

/// Read one scalar value: the value and the position after it.
pub fn parse_scalar(v: &Vec<char>, i: usize) -> (r: Option<(Scalar, usize)>)
    requires
        i <= v@.len(),
    ensures
        match r {
            Option::Some((sc, j)) => sp_scalar(v@, i as int) == Some((sc.model(), j as int)) && i
                < j <= v@.len(),
            Option::None => sp_scalar(v@, i as int) is None,
        },
{
    if i >= v.len() {
        return None;
    }
    let c = v[i];
    if c == '"' {
        match parse_string(v, i + 1) {
            Option::None => None,
            Option::Some((t, j)) => Some((Scalar::Str(t), j)),
        }
    } else if c == 't' {
        if match_lit(v, i, "true") {
            proof {
                reveal_strlit("true");
            }
            Some((Scalar::Bool(true), i + 4))
        } else {
            None
        }
    } else if c == 'f' {
        if match_lit(v, i, "false") {
            proof {
                reveal_strlit("false");
            }
            Some((Scalar::Bool(false), i + 5))
        } else {
            None
        }
    } else if c == 'n' {
        if match_lit(v, i, "null") {
            proof {
                reveal_strlit("null");
            }
            Some((Scalar::Null, i + 4))
        } else {
            None
        }
    } else if c == '-' || (c as u32 >= '0' as u32 && c as u32 <= '9' as u32) {
        let j = scan_num(v, i + 1);
        let raw = crate::text::slice_chars(v, i, j);
        if is_json_number(&raw) {
            Some((Scalar::Num(raw), j))
        } else {
            None
        }
    } else {
        None
    }
}

/// The mathematical shape of a field list.
pub open spec fn fields_model(f: Seq<(Vec<char>, Scalar)>) -> Seq<(Seq<char>, ScalarV)> {
    f.map_values(|p: (Vec<char>, Scalar)| (p.0@, p.1.model()))
}

/// The mathematical shape of a list of objects.
pub open spec fn objs_model(o: Seq<Vec<(Vec<char>, Scalar)>>) -> Seq<Seq<(Seq<char>, ScalarV)>> {
    o.map_values(|f: Vec<(Vec<char>, Scalar)>| fields_model(f@))
}

/// Advance past a balanced run of brackets, the opening bracket already
/// consumed.
fn skip_balanced(v: &Vec<char>, i: usize, depth: usize) -> (r: Option<usize>)
    requires
        i <= v@.len(),
        1 <= depth <= i,
    ensures
        match r {
            Option::Some(j) => bal_end(v@, i as int, depth as nat) == Some(j as int) && i < j
                <= v@.len(),
            Option::None => bal_end(v@, i as int, depth as nat) is None,
        },
    decreases v@.len() - i,
{
    if i >= v.len() {
        return None;
    }
    let c = v[i];
    if c == '"' {
        match parse_string(v, i + 1) {
            Option::None => None,
            Option::Some((_t, j)) => skip_balanced(v, j, depth),
        }
    } else if c == '{' || c == '[' {
        skip_balanced(v, i + 1, depth + 1)
    } else if c == '}' || c == ']' {
        if depth == 1 {
            Some(i + 1)
        } else {
            skip_balanced(v, i + 1, depth - 1)
        }
    } else {
        skip_balanced(v, i + 1, depth)
    }
}

/// Read a field's value: a scalar as itself, an object or array skipped as
/// a composite.
pub fn parse_field_value(v: &Vec<char>, i: usize) -> (r: Option<(Scalar, usize)>)
    requires
        i <= v@.len(),
    ensures
        match r {
            Option::Some((sc, j)) => sp_field_value(v@, i as int) == Some(
                (sc.model(), j as int),
            ) && i < j <= v@.len(),
            Option::None => sp_field_value(v@, i as int) is None,
        },
{
    if i < v.len() && (v[i] == '{' || v[i] == '[') {
        match skip_balanced(v, i + 1, 1) {
            Option::None => None,
            Option::Some(j) => Some((Scalar::Composite, j)),
        }
    } else {
        parse_scalar(v, i)
    }
}

/// Read the fields of a flat object from just after its opening brace.
pub fn parse_fields(v: &Vec<char>, i: usize) -> (r: Option<(Vec<(Vec<char>, Scalar)>, usize)>)
    requires
        i <= v@.len(),
    ensures
        match r {
            Option::Some((f, j)) => sp_fields(v@, i as int) == Some((fields_model(f@), j as int))
                && i < j <= v@.len(),
            Option::None => sp_fields(v@, i as int) is None,
        },
    decreases v@.len() - i,
{
    let i1 = skip_ws(v, i);
    if i1 >= v.len() || v[i1] != '"' {
        return None;
    }
    match parse_string(v, i1 + 1) {
        Option::None => None,
        Option::Some((key, j)) => {
            let j1 = skip_ws(v, j);
            if j1 >= v.len() || v[j1] != ':' {
                return None;
            }
            let j2 = skip_ws(v, j1 + 1);
            match parse_field_value(v, j2) {
                Option::None => None,
                Option::Some((val, k)) => {
                    let k1 = skip_ws(v, k);
                    if k1 < v.len() && v[k1] == '}' {
                        let ghost km = (key@, val.model());
                        let mut f: Vec<(Vec<char>, Scalar)> = Vec::new();
                        f.push((key, val));
                        proof {
                            assert(fields_model(f@) =~= seq![km]);
                        }
                        Some((f, k1 + 1))
                    } else if k1 < v.len() && v[k1] == ',' {
                        match parse_fields(v, k1 + 1) {
                            Option::None => None,
                            Option::Some((rest, e)) => {
                                let ghost km = (key@, val.model());
                                let ghost oldr = rest@;
                                let mut f = rest;
                                f.insert(0, (key, val));
                                proof {
                                    assert(f@ =~= seq![(f@[0].0, f@[0].1)].add(oldr));
                                    assert(fields_model(f@) =~= seq![km] + fields_model(oldr));
                                }
                                Some((f, e))
                            },
                        }
                    } else {
                        None
                    }
                },
            }
        },
    }
}

/// Read a flat object of scalar fields.
pub fn parse_object(v: &Vec<char>, i: usize) -> (r: Option<(Vec<(Vec<char>, Scalar)>, usize)>)
    requires
        i <= v@.len(),
    ensures
        match r {
            Option::Some((f, j)) => sp_object(v@, i as int) == Some((fields_model(f@), j as int))
                && i < j <= v@.len(),
            Option::None => sp_object(v@, i as int) is None,
        },
{
    let i1 = skip_ws(v, i);
    if i1 >= v.len() || v[i1] != '{' {
        return None;
    }
    let i2 = skip_ws(v, i1 + 1);
    if i2 < v.len() && v[i2] == '}' {
        let f: Vec<(Vec<char>, Scalar)> = Vec::new();
        proof {
            assert(fields_model(f@) =~= Seq::<(Seq<char>, ScalarV)>::empty());
        }
        return Some((f, i2 + 1));
    }
    parse_fields(v, i1 + 1)
}

/// Read the elements of a non-empty array of flat objects.
pub fn parse_elems(v: &Vec<char>, i: usize) -> (r: Option<
    (Vec<Vec<(Vec<char>, Scalar)>>, usize),
>)
    requires
        i <= v@.len(),
    ensures
        match r {
            Option::Some((o, j)) => sp_elems(v@, i as int) == Some((objs_model(o@), j as int)) && i
                < j <= v@.len(),
            Option::None => sp_elems(v@, i as int) is None,
        },
    decreases v@.len() - i,
{
    match parse_object(v, i) {
        Option::None => None,
        Option::Some((o, j)) => {
            let j1 = skip_ws(v, j);
            if j1 < v.len() && v[j1] == ']' {
                let ghost om = fields_model(o@);
                let mut os: Vec<Vec<(Vec<char>, Scalar)>> = Vec::new();
                os.push(o);
                proof {
                    assert(objs_model(os@) =~= seq![om]);
                }
                Some((os, j1 + 1))
            } else if j1 < v.len() && v[j1] == ',' {
                match parse_elems(v, j1 + 1) {
                    Option::None => None,
                    Option::Some((rest, e)) => {
                        let ghost om = fields_model(o@);
                        let ghost oldr = rest@;
                        let mut os = rest;
                        os.insert(0, o);
                        proof {
                            assert(os@ =~= seq![os@[0]].add(oldr));
                            assert(objs_model(os@) =~= seq![om] + objs_model(oldr));
                        }
                        Some((os, e))
                    },
                }
            } else {
                None
            }
        },
    }
}

/// Read an array of flat objects.
pub fn parse_array(v: &Vec<char>, i: usize) -> (r: Option<(Vec<Vec<(Vec<char>, Scalar)>>, usize)>)
    requires
        i <= v@.len(),
    ensures
        match r {
            Option::Some((o, j)) => sp_array(v@, i as int) == Some((objs_model(o@), j as int)) && i
                < j <= v@.len(),
            Option::None => sp_array(v@, i as int) is None,
        },
{
    let i1 = skip_ws(v, i);
    if i1 >= v.len() || v[i1] != '[' {
        return None;
    }
    let i2 = skip_ws(v, i1 + 1);
    if i2 < v.len() && v[i2] == ']' {
        let o: Vec<Vec<(Vec<char>, Scalar)>> = Vec::new();
        proof {
            assert(objs_model(o@) =~= Seq::<Seq<(Seq<char>, ScalarV)>>::empty());
        }
        return Some((o, i2 + 1));
    }
    parse_elems(v, i1 + 1)
}

/// Read the wrapper object's fields from just after its opening brace,
/// looking for the named array.
pub fn parse_top_fields(v: &Vec<char>, i: usize, key: &str) -> (r: Option<
    (Option<Vec<Vec<(Vec<char>, Scalar)>>>, usize),
>)
    requires
        i <= v@.len(),
    ensures
        match r {
            Option::Some((o, j)) => {
                &&& i < j <= v@.len()
                &&& match o {
                    Option::Some(objs) => sp_top_fields(v@, i as int, key@) == Some(
                        (Some(objs_model(objs@)), j as int),
                    ),
                    Option::None => sp_top_fields(v@, i as int, key@) == Some(
                        (None::<Seq<Seq<(Seq<char>, ScalarV)>>>, j as int),
                    ),
                }
            },
            Option::None => sp_top_fields(v@, i as int, key@) is None,
        },
    decreases v@.len() - i,
{
    let i1 = skip_ws(v, i);
    if i1 >= v.len() || v[i1] != '"' {
        return None;
    }
    match parse_string(v, i1 + 1) {
        Option::None => None,
        Option::Some((k, j)) => {
            let j1 = skip_ws(v, j);
            if j1 >= v.len() || v[j1] != ':' {
                return None;
            }
            let j2 = skip_ws(v, j1 + 1);
            if j2 < v.len() && v[j2] == '[' && crate::text::eq_chars(&k, key) {
                match parse_array(v, j2) {
                    Option::None => None,
                    Option::Some((arr, e)) => {
                        let e1 = skip_ws(v, e);
                        if e1 < v.len() && v[e1] == '}' {
                            Some((Some(arr), e1 + 1))
                        } else if e1 < v.len() && v[e1] == ',' {
                            match parse_top_fields(v, e1 + 1, key) {
                                Option::None => None,
                                Option::Some((_rest, e2)) => Some((Some(arr), e2)),
                            }
                        } else {
                            None
                        }
                    },
                }
            } else {
                match parse_field_value(v, j2) {
                    Option::None => None,
                    Option::Some((_val, kpos)) => {
                        let k1 = skip_ws(v, kpos);
                        if k1 < v.len() && v[k1] == '}' {
                            Some((None, k1 + 1))
                        } else if k1 < v.len() && v[k1] == ',' {
                            parse_top_fields(v, k1 + 1, key)
                        } else {
                            None
                        }
                    },
                }
            }
        },
    }
}

/// The value of the first field with the given name.
pub open spec fn field_of(fs: Seq<(Seq<char>, ScalarV)>, name: Seq<char>) -> Option<ScalarV>
    decreases fs.len(),
{
    if fs.len() == 0 {
        None
    } else if fs[0].0 == name {
        Some(fs[0].1)
    } else {
        field_of(fs.skip(1), name)
    }
}

/// Find the first field with the given name.
#[verifier::loop_isolation(false)]
pub fn find_field<'a>(fields: &'a Vec<(Vec<char>, Scalar)>, name: &str) -> (r: Option<&'a Scalar>)
    ensures
        match r {
            Option::Some(sc) => field_of(fields_model(fields@), name@) == Some(sc.model()),
            Option::None => field_of(fields_model(fields@), name@) is None,
        },
{
    let ghost fm = fields_model(fields@);
    let n = fields.len();
    let mut i: usize = 0;
    proof {
        assert(fm.skip(0) =~= fm);
    }
    while i < n
        invariant
            0 <= i <= n,
            field_of(fm, name@) == field_of(fm.skip(i as int), name@),
        decreases n - i,
    {
        proof {
            assert(fm.skip(i as int)[0] == fm[i as int]);
            assert(fm.skip(i as int).skip(1) =~= fm.skip(i + 1));
        }
        if crate::text::eq_chars(&fields[i].0, name) {
            return Some(&fields[i].1);
        }
        i = i + 1;
    }
    proof {
        assert(fm.skip(n as int) =~= Seq::<(Seq<char>, ScalarV)>::empty());
    }
    None
}

/// A required string field's content; absent on a missing field or one of
/// another type.
pub open spec fn req_str_field(fs: Seq<(Seq<char>, ScalarV)>, name: Seq<char>) -> Option<Seq<char>> {
    match field_of(fs, name) {
        Option::Some(ScalarV::Str(s)) => Some(s),
        _ => None,
    }
}

/// A required boolean field's value.
pub open spec fn req_bool_field(fs: Seq<(Seq<char>, ScalarV)>, name: Seq<char>) -> Option<bool> {
    match field_of(fs, name) {
        Option::Some(ScalarV::Bool(b)) => Some(b),
        _ => None,
    }
}

/// An optional string field: inner absence for a missing or null field,
/// outer absence for a field of another type.
pub open spec fn opt_str_field(fs: Seq<(Seq<char>, ScalarV)>, name: Seq<char>) -> Option<
    Option<Seq<char>>,
> {
    match field_of(fs, name) {
        Option::None => Some(None),
        Option::Some(ScalarV::Null) => Some(None),
        Option::Some(ScalarV::Str(s)) => Some(Some(s)),
        _ => None,
    }
}

/// A string field that defaults to empty when missing.
pub open spec fn def_str_field(fs: Seq<(Seq<char>, ScalarV)>, name: Seq<char>) -> Option<
    Seq<char>,
> {
    match field_of(fs, name) {
        Option::None => Some(Seq::empty()),
        Option::Some(ScalarV::Str(s)) => Some(s),
        _ => None,
    }
}

/// An optional unsigned count field: inner absence for a missing or null
/// field, outer absence for another type or an out-of-range value.
pub open spec fn opt_u32_field(fs: Seq<(Seq<char>, ScalarV)>, name: Seq<char>) -> Option<
    Option<u32>,
> {
    match field_of(fs, name) {
        Option::None => Some(None),
        Option::Some(ScalarV::Null) => Some(None),
        Option::Some(ScalarV::Num(raw)) => if crate::num::u32_text_ok(raw) {
            Some(Some(crate::num::digits_val(raw) as u32))
        } else {
            None
        },
        _ => None,
    }
}

/// A required timestamp field: a number field holding parseable fractional
/// seconds.
pub open spec fn ts_field(fs: Seq<(Seq<char>, ScalarV)>, name: Seq<char>) -> Option<
    crate::time::Timestamp,
> {
    match field_of(fs, name) {
        Option::Some(ScalarV::Num(raw)) => if crate::num::float_text_parseable(raw) {
            Some(
                crate::time::Timestamp {
                    secs: (crate::num::float_text_nanos(raw) / 1_000_000_000) as i64,
                    nanos: (crate::num::float_text_nanos(raw) % 1_000_000_000) as u32,
                },
            )
        } else {
            None
        },
        _ => None,
    }
}

/// Read a required string field.
pub fn get_req_str(fields: &Vec<(Vec<char>, Scalar)>, name: &str) -> (r: Option<String>)
    ensures
        match r {
            Option::Some(s) => req_str_field(fields_model(fields@), name@) == Some(s@),
            Option::None => req_str_field(fields_model(fields@), name@) is None,
        },
{
    match find_field(fields, name) {
        Option::Some(Scalar::Str(v)) => Some(crate::text::chars_to_string(v)),
        _ => None,
    }
}

/// Read a required boolean field.
pub fn get_req_bool(fields: &Vec<(Vec<char>, Scalar)>, name: &str) -> (r: Option<bool>)
    ensures
        r == req_bool_field(fields_model(fields@), name@),
{
    match find_field(fields, name) {
        Option::Some(Scalar::Bool(b)) => Some(*b),
        _ => None,
    }
}

/// Read an optional string field.
pub fn get_opt_str(fields: &Vec<(Vec<char>, Scalar)>, name: &str) -> (r: Option<Option<String>>)
    ensures
        match r {
            Option::Some(o) => opt_str_field(fields_model(fields@), name@) == Some(
                match o {
                    Option::Some(s) => Some(s@),
                    Option::None => None::<Seq<char>>,
                },
            ),
            Option::None => opt_str_field(fields_model(fields@), name@) is None,
        },
{
    match find_field(fields, name) {
        Option::None => Some(None),
        Option::Some(Scalar::Null) => Some(None),
        Option::Some(Scalar::Str(v)) => Some(Some(crate::text::chars_to_string(v))),
        _ => None,
    }
}

/// Read a string field that defaults to empty when missing.
pub fn get_def_str(fields: &Vec<(Vec<char>, Scalar)>, name: &str) -> (r: Option<String>)
    ensures
        match r {
            Option::Some(s) => def_str_field(fields_model(fields@), name@) == Some(s@),
            Option::None => def_str_field(fields_model(fields@), name@) is None,
        },
{
    match find_field(fields, name) {
        Option::None => {
            let s = String::new();
            proof {
                assert(s@ =~= Seq::<char>::empty());
            }
            Some(s)
        },
        Option::Some(Scalar::Str(v)) => Some(crate::text::chars_to_string(v)),
        _ => None,
    }
}

/// Read an optional unsigned count field.
pub fn get_opt_u32(fields: &Vec<(Vec<char>, Scalar)>, name: &str) -> (r: Option<Option<u32>>)
    ensures
        r == opt_u32_field(fields_model(fields@), name@),
{
    match find_field(fields, name) {
        Option::None => Some(None),
        Option::Some(Scalar::Null) => Some(None),
        Option::Some(Scalar::Num(raw)) => {
            match crate::num::parse_u32_digits(raw) {
                Option::Some(x) => Some(Some(x)),
                Option::None => None,
            }
        },
        _ => None,
    }
}

/// Read a required timestamp field.
pub fn get_ts(fields: &Vec<(Vec<char>, Scalar)>, name: &str) -> (r: Option<crate::time::Timestamp>)
    ensures
        r == ts_field(fields_model(fields@), name@),
        r matches Some(t) ==> t.wf(),
{
    match find_field(fields, name) {
        Option::Some(Scalar::Num(raw)) => {
            match crate::num::parse_float_seconds(raw) {
                Option::Some(t) => {
                    proof {
                        vstd::arithmetic::div_mod::lemma_fundamental_div_mod_converse(
                            crate::num::float_text_nanos(raw@),
                            1_000_000_000,
                            t.secs as int,
                            t.nanos as int,
                        );
                    }
                    Some(t)
                },
                Option::None => None,
            }
        },
        _ => None,
    }
}

/// A hexadecimal digit character.
pub open spec fn hex_digit(x: u32) -> char {
    if x < 10 {
        ((48 + x) as u8) as char
    } else {
        ((87 + x) as u8) as char
    }
}

/// How one character is written inside a JSON string.
pub open spec fn esc_seq(c: char) -> Seq<char> {
    if c == '"' {
        seq!['\\', '"']
    } else if c == '\\' {
        seq!['\\', '\\']
    } else if c == '\n' {
        seq!['\\', 'n']
    } else if c == '\r' {
        seq!['\\', 'r']
    } else if c == '\t' {
        seq!['\\', 't']
    } else if c == '\u{8}' {
        seq!['\\', 'b']
    } else if c == '\u{c}' {
        seq!['\\', 'f']
    } else if (c as u32) < 32 {
        seq!['\\', 'u', '0', '0', hex_digit((c as u32) / 16), hex_digit((c as u32) % 16)]
    } else {
        seq![c]
    }
}

/// A hexadecimal digit character.
fn hex_digit_char(x: u32) -> (r: char)
    requires
        x < 16,
    ensures
        r == hex_digit(x),
{
    if x < 10 {
        ((48 + x) as u8) as char
    } else {
        ((87 + x) as u8) as char
    }
}

/// The written form of a string's content, character by character.
pub open spec fn esc_all(s: Seq<char>) -> Seq<char>
    decreases s.len(),
{
    if s.len() == 0 {
        Seq::empty()
    } else {
        esc_all(s.drop_last()) + esc_seq(s.last())
    }
}

/// A string as JSON writes it: quoted, its content escaped.
pub open spec fn quoted(s: Seq<char>) -> Seq<char> {
    seq!['"'] + esc_all(s) + seq!['"']
}

/// Append the quoted, escaped form of `s`.
#[verifier::loop_isolation(false)]
pub fn push_quoted(out: &mut Vec<char>, s: &str)
    ensures
        final(out)@ == old(out)@ + quoted(s@),
{
    let n = s.unicode_len();
    out.push('"');
    let mut i: usize = 0;
    while i < n
        invariant
            0 <= i <= n,
            n == s@.len(),
            out@ =~= old(out)@ + seq!['"'] + esc_all(s@.take(i as int)),
        decreases n - i,
    {
        let c = s.get_char(i);
        if c == '"' || c == '\\' {
            out.push('\\');
            out.push(c);
        } else if c == '\n' {
            out.push('\\');
            out.push('n');
        } else if c == '\r' {
            out.push('\\');
            out.push('r');
        } else if c == '\t' {
            out.push('\\');
            out.push('t');
        } else if c == '\u{8}' {
            out.push('\\');
            out.push('b');
        } else if c == '\u{c}' {
            out.push('\\');
            out.push('f');
        } else if (c as u32) < 32 {
            out.push('\\');
            out.push('u');
            out.push('0');
            out.push('0');
            out.push(hex_digit_char((c as u32) / 16));
            out.push(hex_digit_char((c as u32) % 16));
        } else {
            out.push(c);
        }
        proof {
            assert(s@.take(i + 1).drop_last() =~= s@.take(i as int));
            assert(s@.take(i + 1).last() == s@[i as int]);
            assert(out@ =~= old(out)@ + seq!['"'] + esc_all(s@.take(i + 1)));
        }
        i = i + 1;
    }
    out.push('"');
    proof {
        assert(s@.take(n as int) =~= s@);
        assert(out@ =~= old(out)@ + quoted(s@));
    }
}

/// A whole response body that wraps an array of flat objects under the
/// named key: the objects' field lists.
pub open spec fn sp_wrapped(s: Seq<char>, key: Seq<char>) -> Option<Seq<Seq<(Seq<char>, ScalarV)>>> {
    let i1 = ws_end(s, 0);
    if i1 >= s.len() || s[i1] != '{' {
        None
    } else {
        let i2 = ws_end(s, i1 + 1);
        if i2 < s.len() && s[i2] == '}' {
            None
        } else {
            match sp_top_fields(s, i1 + 1, key) {
                Option::None => None,
                Option::Some((arr_opt, e)) => {
                    if ws_end(s, e) == s.len() {
                        arr_opt
                    } else {
                        None
                    }
                },
            }
        }
    }
}

/// A whole response body that is one flat object: its field list.
pub open spec fn sp_single(s: Seq<char>) -> Option<Seq<(Seq<char>, ScalarV)>> {
    match sp_object(s, 0) {
        Option::None => None,
        Option::Some((f, e)) => if ws_end(s, e) == s.len() {
            Some(f)
        } else {
            None
        },
    }
}

/// Parse a response body wrapping an array of records under the named key.
pub fn parse_wrapped(body: &str, key: &str) -> (r: Option<Vec<Vec<(Vec<char>, Scalar)>>>)
    ensures
        match r {
            Option::Some(objs) => sp_wrapped(body@, key@) == Some(objs_model(objs@)),
            Option::None => sp_wrapped(body@, key@) is None,
        },
{
    let v = crate::text::str_to_chars(body);
    let i1 = skip_ws(&v, 0);
    if i1 >= v.len() || v[i1] != '{' {
        return None;
    }
    let i2 = skip_ws(&v, i1 + 1);
    if i2 < v.len() && v[i2] == '}' {
        return None;
    }
    match parse_top_fields(&v, i1 + 1, key) {
        Option::None => None,
        Option::Some((arr_opt, e)) => {
            let e1 = skip_ws(&v, e);
            if e1 != v.len() {
                return None;
            }
            arr_opt
        },
    }
}

/// Parse a response body that is one flat record.
pub fn parse_single(body: &str) -> (r: Option<Vec<(Vec<char>, Scalar)>>)
    ensures
        match r {
            Option::Some(f) => sp_single(body@) == Some(fields_model(f@)),
            Option::None => sp_single(body@) is None,
        },
{
    let v = crate::text::str_to_chars(body);
    match parse_object(&v, 0) {
        Option::None => None,
        Option::Some((f, e)) => {
            let e1 = skip_ws(&v, e);
            if e1 != v.len() {
                return None;
            }
            Some(f)
        },
    }
}

} // verus!
