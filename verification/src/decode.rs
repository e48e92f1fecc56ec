use vstd::prelude::*;

use crate::b64::{b64_decode, b64_decode_of};
use crate::decimal::{parse_u32, parse_u32_spec};
use crate::error::{DecodeError, DecodeErrorS};
use crate::fpbits::{
    f32_bits_of_i64, f32_bits_of_int, f32_nan_canon, f64_bits_of_i64, f64_bits_of_int,
    f64_nan_canon, nan_canon32, nan_canon64, narrow_f64_bits, narrow_f64_bits_spec, widen_f32_bits,
    widen_f32_bits_spec, F32_INF_BITS, F32_NAN_BITS, F32_NEG_INF_BITS, F64_INF_BITS, F64_NAN_BITS,
    F64_NEG_INF_BITS,
};
use crate::json::{arr_dv, obj_dv, Json, JsonNum, JsonS};
use crate::model::{
    case_names, cases_dv_type, fields_dv_type, fields_dv_val, record_names, strings_dv,
    vec_dv_type, vec_dv_val, Type, TypeS, Val, ValS,
};
use crate::strutil::{index_of_str, lemma_index_of_str, str_eq};
use crate::type_ext::{desc_of, desc_spec};
use crate::views::{
    lemma_dv_json_arr, lemma_dv_json_obj, lemma_dv_type_record, lemma_dv_type_tuple,
    lemma_dv_type_union, lemma_dv_type_variant, lemma_dv_val_flags, lemma_dv_val_list,
    lemma_dv_val_record, lemma_dv_val_tuple, lemma_strings_dv,
};

verus! {

/// The tree decoder: external representation plus descriptor in, value
/// out. `json_to_val_spec` below is the definition; `json_to_val` is the
/// verified implementation. One strict convention, applied uniformly: a
/// record field absent from the object decodes from `null` (so a missing
/// non-option field is a type mismatch while a missing option field is
/// `none`), an object key that names no pending field is an error, and a
/// byte list additionally accepts a standard base64 string.
pub open spec fn mism(t: TypeS) -> DecodeErrorS {
    DecodeErrorS::TypeMismatch(desc_spec(t))
}

/// Integer target ranges: decode is exact, never truncating.
pub open spec fn int_ok(t: TypeS, v: int) -> bool {
    match t {
        TypeS::U8 => 0 <= v <= 0xff,
        TypeS::U16 => 0 <= v <= 0xffff,
        TypeS::U32 => 0 <= v <= 0xffff_ffff,
        TypeS::U64 => 0 <= v <= 0xffff_ffff_ffff_ffff,
        TypeS::S8 => -0x80 <= v <= 0x7f,
        TypeS::S16 => -0x8000 <= v <= 0x7fff,
        TypeS::S32 => -0x8000_0000 <= v <= 0x7fff_ffff,
        TypeS::S64 => -0x8000_0000_0000_0000 <= v <= 0x7fff_ffff_ffff_ffff,
        _ => false,
    }
}

pub open spec fn int_val(t: TypeS, v: int) -> ValS {
    match t {
        TypeS::U8 => ValS::U8(v as u8),
        TypeS::U16 => ValS::U16(v as u16),
        TypeS::U32 => ValS::U32(v as u32),
        TypeS::U64 => ValS::U64(v as u64),
        TypeS::S8 => ValS::S8(v as i8),
        TypeS::S16 => ValS::S16(v as i16),
        TypeS::S32 => ValS::S32(v as i32),
        TypeS::S64 => ValS::S64(v as i64),
        _ => ValS::Bool(false),
    }
}

pub open spec fn dec_int(t: TypeS, n: JsonNum) -> Result<ValS, DecodeErrorS> {
    match crate::json::num_int(n) {
        Some(v) => if int_ok(t, v) {
            Ok(int_val(t, v))
        } else {
            Err(DecodeErrorS::OutOfRange(desc_spec(t)))
        },
        None => Err(mism(t)),
    }
}

/// A float target accepts float numbers (NaN collapses to the canonical
/// pattern), exact narrowing from the other width, and integers of the
/// 16-bit (for `float32`) or 32-bit (for `float64`) signed range, widened
/// exactly; wider integers and inexact narrowings are out of range.
pub open spec fn dec_f32_num(n: JsonNum) -> Result<u32, DecodeErrorS> {
    match n {
        JsonNum::F32(b) => Ok(nan_canon32(b)),
        JsonNum::F64(b) => match narrow_f64_bits_spec(b) {
            Some(nb) => Ok(nan_canon32(nb)),
            None => Err(DecodeErrorS::OutOfRange("float32"@)),
        },
        JsonNum::UInt(v) => if v <= 0x7fff {
            Ok(f32_bits_of_int(v as int))
        } else {
            Err(DecodeErrorS::OutOfRange("float32"@))
        },
        JsonNum::Int(v) => if -0x8000 <= v <= 0x7fff {
            Ok(f32_bits_of_int(v as int))
        } else {
            Err(DecodeErrorS::OutOfRange("float32"@))
        },
    }
}

pub open spec fn dec_f64_num(n: JsonNum) -> Result<u64, DecodeErrorS> {
    match n {
        JsonNum::F64(b) => Ok(nan_canon64(b)),
        JsonNum::F32(b) => Ok(nan_canon64(widen_f32_bits_spec(b))),
        JsonNum::UInt(v) => if v <= 0x7fff_ffff {
            Ok(f64_bits_of_int(v as int))
        } else {
            Err(DecodeErrorS::OutOfRange("float64"@))
        },
        JsonNum::Int(v) => if -0x8000_0000 <= v <= 0x7fff_ffff {
            Ok(f64_bits_of_int(v as int))
        } else {
            Err(DecodeErrorS::OutOfRange("float64"@))
        },
    }
}

/// The three special float spellings; every other string is refused.
pub open spec fn special_of(s: Seq<char>) -> Option<(bool, bool)> {
    if s == "NaN"@ {
        Some((true, false))
    } else if s == "Infinity"@ {
        Some((false, false))
    } else if s == "-Infinity"@ {
        Some((false, true))
    } else {
        None
    }
}

pub open spec fn f32_special_bits(nan: bool, neg: bool) -> u32 {
    if nan {
        F32_NAN_BITS
    } else if neg {
        F32_NEG_INF_BITS
    } else {
        F32_INF_BITS
    }
}

pub open spec fn f64_special_bits(nan: bool, neg: bool) -> u64 {
    if nan {
        F64_NAN_BITS
    } else if neg {
        F64_NEG_INF_BITS
    } else {
        F64_INF_BITS
    }
}

pub open spec fn bytes_vals(bytes: Seq<u8>) -> Seq<ValS> {
    Seq::new(
        bytes.len(),
        |i: int|
            if 0 <= i < bytes.len() {
                ValS::U8(bytes[i])
            } else {
                ValS::Bool(false)
            },
    )
}

/// First entry stored under `key`, from position `i` on.
pub open spec fn lookup_entry(entries: Seq<(Seq<char>, JsonS)>, key: Seq<char>, i: int) -> Option<
    JsonS,
>
    decreases entries.len() - i,
{
    if i < 0 || i >= entries.len() {
        None
    } else if entries[i].0 == key {
        Some(entries[i].1)
    } else {
        lookup_entry(entries, key, i + 1)
    }
}

pub proof fn lemma_lookup_entry(entries: Seq<(Seq<char>, JsonS)>, key: Seq<char>, i: int)
    requires
        0 <= i <= entries.len(),
    ensures
        match lookup_entry(entries, key, i) {
            Some(v) => exists|k: int|
                i <= k < entries.len() && #[trigger] entries[k].0 == key && entries[k].1 == v && (
                forall|j: int| i <= j < k ==> entries[j].0 != key),
            None => forall|j: int| i <= j < entries.len() ==> entries[j].0 != key,
        },
    decreases entries.len() - i,
{
    if i < entries.len() && entries[i].0 != key {
        lemma_lookup_entry(entries, key, i + 1);
    }
}

/// Converse direction for lookups: a first match pins the result.
pub proof fn lemma_lookup_entry_first(entries: Seq<(Seq<char>, JsonS)>, key: Seq<char>, k: int)
    requires
        0 <= k < entries.len(),
        entries[k].0 == key,
        forall|j: int| 0 <= j < k ==> entries[j].0 != key,
    ensures
        lookup_entry(entries, key, 0) == Some(entries[k].1),
    decreases k,
{
    lemma_lookup_entry(entries, key, 0);
    match lookup_entry(entries, key, 0) {
        None => {
            assert(entries[k].0 != key);
        },
        Some(v) => {
            let m = choose|m: int|
                0 <= m < entries.len() && #[trigger] entries[m].0 == key && entries[m].1 == v && (
                forall|j: int| 0 <= j < m ==> entries[j].0 != key);
            if m < k {
                assert(entries[m].0 != key);
            } else if m > k {
                assert(entries[k].0 != key);
            }
        },
    }
}

/// An entry key that repeats an earlier key.
pub open spec fn key_dup(entries: Seq<(Seq<char>, JsonS)>, i: int) -> bool {
    exists|k: int| 0 <= k < i && entries[k].0 == entries[i].0
}

/// The first object key that names no declared member or repeats an
/// earlier key, scanning entries in order.
pub open spec fn first_bad_key(
    names: Seq<Seq<char>>,
    entries: Seq<(Seq<char>, JsonS)>,
    i: int,
) -> Option<Seq<char>>
    decreases entries.len() - i,
{
    if i < 0 || i >= entries.len() {
        None
    } else if index_of_str(names, entries[i].0, 0) is None || key_dup(entries, i) {
        Some(entries[i].0)
    } else {
        first_bad_key(names, entries, i + 1)
    }
}

/// A flag string is present in the input array.
pub open spec fn flag_present(els: Seq<JsonS>, n: Seq<char>) -> bool {
    exists|k: int| 0 <= k < els.len() && els[k] == JsonS::Str(n)
}

/// The declared names present in the input, in declaration order over the
/// first `i` names: duplicates in the input collapse, order is canonical.
pub open spec fn sel_flags(names: Seq<Seq<char>>, els: Seq<JsonS>, i: int) -> Seq<Seq<char>>
    decreases i,
{
    if i <= 0 {
        Seq::empty()
    } else {
        sel_flags(names, els, i - 1) + (if flag_present(els, names[i - 1]) {
            seq![names[i - 1]]
        } else {
            Seq::empty()
        })
    }
}

/// The first flag element that is not a string of a declared name.
pub open spec fn first_flag_err(
    names: Seq<Seq<char>>,
    els: Seq<JsonS>,
    i: int,
) -> Option<DecodeErrorS>
    decreases els.len() - i,
{
    if i < 0 || i >= els.len() {
        None
    } else {
        match els[i] {
            JsonS::Str(s) => if index_of_str(names, s, 0) is Some {
                first_flag_err(names, els, i + 1)
            } else {
                Some(DecodeErrorS::UnknownFlag(s))
            },
            _ => Some(DecodeErrorS::TypeMismatch("flags"@)),
        }
    }
}

/// Elements of a list decoded against the element type, from `i` on.
pub open spec fn dec_seq(et: TypeS, els: Seq<JsonS>, i: int) -> Result<Seq<ValS>, DecodeErrorS>
    decreases et, 1int, els.len() - i,
{
    if i < 0 || i >= els.len() {
        Ok(Seq::empty())
    } else {
        match json_to_val_spec(et, els[i]) {
            Ok(v) => match dec_seq(et, els, i + 1) {
                Ok(rest) => Ok(seq![v] + rest),
                Err(e) => Err(e),
            },
            Err(e) => Err(e),
        }
    }
}

/// Tuple slots decoded pointwise, from `i` on; lengths already agree.
pub open spec fn dec_slots(slots: Seq<TypeS>, els: Seq<JsonS>, i: int) -> Result<
    Seq<ValS>,
    DecodeErrorS,
>
    decreases slots, 1int, slots.len() - i,
{
    if i < 0 || i >= slots.len() || els.len() != slots.len() {
        Ok(Seq::empty())
    } else {
        match json_to_val_spec(slots[i], els[i]) {
            Ok(v) => match dec_slots(slots, els, i + 1) {
                Ok(rest) => Ok(seq![v] + rest),
                Err(e) => Err(e),
            },
            Err(e) => Err(e),
        }
    }
}

/// Record fields decoded in declaration order, from `i` on; a field absent
/// from the object decodes from `null`.
pub open spec fn dec_fields(
    fields: Seq<(Seq<char>, TypeS)>,
    entries: Seq<(Seq<char>, JsonS)>,
    i: int,
) -> Result<Seq<(Seq<char>, ValS)>, DecodeErrorS>
    decreases fields, 1int, fields.len() - i,
{
    if i < 0 || i >= fields.len() {
        Ok(Seq::empty())
    } else {
        let fj = match lookup_entry(entries, fields[i].0, 0) {
            Some(v) => v,
            None => JsonS::Null,
        };
        match json_to_val_spec(fields[i].1, fj) {
            Ok(v) => match dec_fields(fields, entries, i + 1) {
                Ok(rest) => Ok(seq![(fields[i].0, v)] + rest),
                Err(e) => Err(e),
            },
            Err(e) => Err(e),
        }
    }
}

/// What decoding means, node by node. Deterministic, including which error
/// is reported: the decoder returns `Ok` exactly where this function does.
pub open spec fn json_to_val_spec(t: TypeS, j: JsonS) -> Result<ValS, DecodeErrorS>
    decreases t, 0int, 0int,
{
    match t {
        TypeS::Bool => match j {
            JsonS::Bool(b) => Ok(ValS::Bool(b)),
            _ => Err(mism(t)),
        },
        TypeS::U8 | TypeS::U16 | TypeS::U32 | TypeS::U64 | TypeS::S8 | TypeS::S16 | TypeS::S32
            | TypeS::S64 => match j {
            JsonS::Num(n) => dec_int(t, n),
            _ => Err(mism(t)),
        },
        TypeS::Float32 => match j {
            JsonS::Num(n) => match dec_f32_num(n) {
                Ok(b) => Ok(ValS::Float32(b)),
                Err(e) => Err(e),
            },
            JsonS::Str(s) => match special_of(s) {
                Some((nan, neg)) => Ok(ValS::Float32(f32_special_bits(nan, neg))),
                None => Err(mism(t)),
            },
            _ => Err(mism(t)),
        },
        TypeS::Float64 => match j {
            JsonS::Num(n) => match dec_f64_num(n) {
                Ok(b) => Ok(ValS::Float64(b)),
                Err(e) => Err(e),
            },
            JsonS::Str(s) => match special_of(s) {
                Some((nan, neg)) => Ok(ValS::Float64(f64_special_bits(nan, neg))),
                None => Err(mism(t)),
            },
            _ => Err(mism(t)),
        },
        TypeS::Char => match j {
            JsonS::Str(s) => if s.len() == 1 {
                Ok(ValS::Char(s[0]))
            } else {
                Err(mism(t))
            },
            _ => Err(mism(t)),
        },
        TypeS::String => match j {
            JsonS::Str(s) => Ok(ValS::String(s)),
            _ => Err(mism(t)),
        },
        TypeS::List(et) => match j {
            JsonS::Arr(els) => match dec_seq(*et, els, 0) {
                Ok(vs) => Ok(ValS::List(vs)),
                Err(e) => Err(e),
            },
            JsonS::Str(s) => if *et == TypeS::U8 {
                match b64_decode_of(s) {
                    Some(bytes) => Ok(ValS::List(bytes_vals(bytes))),
                    None => Err(mism(t)),
                }
            } else {
                Err(mism(t))
            },
            _ => Err(mism(t)),
        },
        TypeS::Record(fields) => match j {
            JsonS::Obj(entries) => match first_bad_key(record_names(fields), entries, 0) {
                Some(k) => Err(DecodeErrorS::UnknownField(k)),
                None => match dec_fields(fields, entries, 0) {
                    Ok(fv) => Ok(ValS::Record(fv)),
                    Err(e) => Err(e),
                },
            },
            _ => Err(mism(t)),
        },
        TypeS::Tuple(slots) => match j {
            JsonS::Arr(els) => if els.len() == slots.len() {
                match dec_slots(slots, els, 0) {
                    Ok(vs) => Ok(ValS::Tuple(vs)),
                    Err(e) => Err(e),
                }
            } else {
                Err(DecodeErrorS::ArityMismatch(slots.len() as usize, els.len() as usize))
            },
            _ => Err(mism(t)),
        },
        TypeS::Variant(cases) => match j {
            JsonS::Obj(entries) => if entries.len() != 1 {
                Err(DecodeErrorS::ArityMismatch(1, entries.len() as usize))
            } else {
                match index_of_str(case_names(cases), entries[0].0, 0) {
                    None => Err(DecodeErrorS::UnknownCase(entries[0].0)),
                    Some(ci) => if 0 <= ci < cases.len() {
                        match cases[ci].1 {
                            Some(pt) => match json_to_val_spec(pt, entries[0].1) {
                                Ok(v) => Ok(ValS::Variant(entries[0].0, Some(Box::new(v)))),
                                Err(e) => Err(e),
                            },
                            None => Ok(ValS::Variant(entries[0].0, None)),
                        }
                    } else {
                        Err(DecodeErrorS::UnknownCase(entries[0].0))
                    },
                }
            },
            _ => Err(mism(t)),
        },
        TypeS::Enum(names) => match j {
            JsonS::Str(s) => if index_of_str(names, s, 0) is Some {
                Ok(ValS::Enum(s))
            } else {
                Err(DecodeErrorS::UnknownCase(s))
            },
            _ => Err(mism(t)),
        },
        TypeS::Union(cases) => match j {
            JsonS::Obj(entries) => if entries.len() != 1 {
                Err(DecodeErrorS::ArityMismatch(1, entries.len() as usize))
            } else {
                match parse_u32_spec(entries[0].0) {
                    None => Err(DecodeErrorS::MalformedKey(entries[0].0)),
                    Some(idx) => if idx < cases.len() {
                        match json_to_val_spec(cases[idx as int], entries[0].1) {
                            Ok(v) => Ok(ValS::Union(idx, Box::new(v))),
                            Err(e) => Err(e),
                        }
                    } else {
                        Err(DecodeErrorS::MalformedKey(entries[0].0))
                    },
                }
            },
            _ => Err(mism(t)),
        },
        TypeS::Option(inner) => if j == JsonS::Null {
            Ok(ValS::Option(None))
        } else {
            match json_to_val_spec(*inner, j) {
                Ok(v) => Ok(ValS::Option(Some(Box::new(v)))),
                Err(e) => Err(e),
            }
        },
        TypeS::Result(ok, err) => match j {
            JsonS::Obj(entries) => if entries.len() != 1 {
                Err(DecodeErrorS::ArityMismatch(1, entries.len() as usize))
            } else if entries[0].0 == "result"@ {
                match ok {
                    Some(pt) => match json_to_val_spec(*pt, entries[0].1) {
                        Ok(v) => Ok(ValS::Result(Ok(Some(Box::new(v))))),
                        Err(e) => Err(e),
                    },
                    None => Ok(ValS::Result(Ok(None))),
                }
            } else if entries[0].0 == "error"@ {
                match err {
                    Some(pt) => match json_to_val_spec(*pt, entries[0].1) {
                        Ok(v) => Ok(ValS::Result(Err(Some(Box::new(v))))),
                        Err(e) => Err(e),
                    },
                    None => Ok(ValS::Result(Err(None))),
                }
            } else {
                Err(DecodeErrorS::UnknownCase(entries[0].0))
            },
            _ => Err(mism(t)),
        },
        TypeS::Flags(names) => match j {
            JsonS::Arr(els) => match first_flag_err(names, els, 0) {
                Some(e) => Err(e),
                None => Ok(ValS::Flags(sel_flags(names, els, names.len() as int))),
            },
            _ => Err(mism(t)),
        },
    }
}


/// The decoder result matches the specified one, error included.
pub open spec fn res_matches(r: Result<Val, DecodeError>, s: Result<ValS, DecodeErrorS>) -> bool {
    match r {
        Ok(v) => s == Ok::<ValS, DecodeErrorS>(v.deep_view()),
        Err(e) => s == Err::<ValS, DecodeErrorS>(e.deep_view()),
    }
}

pub open spec fn seq_res_matches(
    r: Result<Vec<Val>, DecodeError>,
    s: Result<Seq<ValS>, DecodeErrorS>,
) -> bool {
    match r {
        Ok(vs) => s == Ok::<Seq<ValS>, DecodeErrorS>(vec_dv_val(vs)),
        Err(e) => s == Err::<Seq<ValS>, DecodeErrorS>(e.deep_view()),
    }
}

pub open spec fn fields_res_matches(
    r: Result<Vec<(String, Val)>, DecodeError>,
    s: Result<Seq<(Seq<char>, ValS)>, DecodeErrorS>,
) -> bool {
    match r {
        Ok(vs) => s == Ok::<Seq<(Seq<char>, ValS)>, DecodeErrorS>(fields_dv_val(vs)),
        Err(e) => s == Err::<Seq<(Seq<char>, ValS)>, DecodeErrorS>(e.deep_view()),
    }
}

/// First index of `key` among plain names.
fn find_in_names(names: &Vec<String>, key: &str) -> (r: Option<usize>)
    ensures
        match r {
            Some(k) => index_of_str(strings_dv(names@), key@, 0) == Some(k as int),
            None => index_of_str(strings_dv(names@), key@, 0) is None,
        },
{
    proof {
        lemma_strings_dv(names@);
        lemma_index_of_str(strings_dv(names@), key@, 0);
    }
    let mut i: usize = 0;
    while i < names.len()
        invariant
            0 <= i <= names@.len(),
            forall|j: int| 0 <= j < i ==> strings_dv(names@)[j] != key@,
        decreases names@.len() - i,
    {
        proof {
            lemma_strings_dv(names@);
        }
        if str_eq(names[i].as_str(), key) {
            proof {
                lemma_strings_dv(names@);
                crate::strutil::lemma_index_of_str_first(strings_dv(names@), key@, i as int);
            }
            return Some(i);
        }
        i += 1;
    }
    proof {
        lemma_index_of_str(strings_dv(names@), key@, 0);
    }
    None
}

/// First index of `key` among a record's field names.
fn find_field_idx(fields: &Vec<(String, Type)>, key: &str) -> (r: Option<usize>)
    ensures
        match r {
            Some(k) => index_of_str(record_names(fields_dv_type(*fields)), key@, 0) == Some(
                k as int,
            ),
            None => index_of_str(record_names(fields_dv_type(*fields)), key@, 0) is None,
        },
{
    let ghost names = record_names(fields_dv_type(*fields));
    proof {
        lemma_dv_type_record(*fields);
        assert forall|j: int| 0 <= j < fields@.len() implies names[j] == fields@[j].0@ by {
            assert(fields_dv_type(*fields)[j] == (fields@[j].0@, fields@[j].1.deep_view()));
        }
    }
    let mut i: usize = 0;
    while i < fields.len()
        invariant
            0 <= i <= fields@.len(),
            names == record_names(fields_dv_type(*fields)),
            names.len() == fields@.len(),
            forall|j: int| 0 <= j < fields@.len() ==> names[j] == fields@[j].0@,
            forall|j: int| 0 <= j < i ==> names[j] != key@,
        decreases fields@.len() - i,
    {
        if str_eq(fields[i].0.as_str(), key) {
            proof {
                crate::strutil::lemma_index_of_str_first(names, key@, i as int);
            }
            return Some(i);
        }
        i += 1;
    }
    proof {
        lemma_index_of_str(names, key@, 0);
    }
    None
}

/// First index of `key` among a variant's case names.
fn find_case_idx(cases: &Vec<(String, Option<Type>)>, key: &str) -> (r: Option<usize>)
    ensures
        match r {
            Some(k) => index_of_str(case_names(cases_dv_type(*cases)), key@, 0) == Some(k as int),
            None => index_of_str(case_names(cases_dv_type(*cases)), key@, 0) is None,
        },
{
    let ghost names = case_names(cases_dv_type(*cases));
    proof {
        lemma_dv_type_variant(*cases);
        assert forall|j: int| 0 <= j < cases@.len() implies names[j] == cases@[j].0@ by {}
    }
    let mut i: usize = 0;
    while i < cases.len()
        invariant
            0 <= i <= cases@.len(),
            names == case_names(cases_dv_type(*cases)),
            names.len() == cases@.len(),
            forall|j: int| 0 <= j < cases@.len() ==> names[j] == cases@[j].0@,
            forall|j: int| 0 <= j < i ==> names[j] != key@,
        decreases cases@.len() - i,
    {
        if str_eq(cases[i].0.as_str(), key) {
            proof {
                crate::strutil::lemma_index_of_str_first(names, key@, i as int);
            }
            return Some(i);
        }
        i += 1;
    }
    proof {
        lemma_index_of_str(names, key@, 0);
    }
    None
}

/// First value stored under `key` in an object, if any.
fn lookup_key<'a>(entries: &'a Vec<(String, Json)>, key: &str) -> (r: Option<&'a Json>)
    ensures
        match r {
            Some(v) => lookup_entry(obj_dv(*entries), key@, 0) == Some(v.deep_view()),
            None => lookup_entry(obj_dv(*entries), key@, 0) is None,
        },
{
    let ghost es = obj_dv(*entries);
    proof {
        lemma_dv_json_obj(*entries);
    }
    let mut i: usize = 0;
    while i < entries.len()
        invariant
            0 <= i <= entries@.len(),
            es == obj_dv(*entries),
            es.len() == entries@.len(),
            forall|j: int|
                0 <= j < entries@.len() ==> es[j] == (entries@[j].0@, entries@[j].1.deep_view()),
            forall|j: int| 0 <= j < i ==> es[j].0 != key@,
        decreases entries@.len() - i,
    {
        if str_eq(entries[i].0.as_str(), key) {
            proof {
                lemma_lookup_entry_first(es, key@, i as int);
            }
            return Some(&entries[i].1);
        }
        i += 1;
    }
    proof {
        lemma_lookup_entry(es, key@, 0);
        if lookup_entry(es, key@, 0) is Some {
            assert(false);
        }
    }
    None
}

/// Decodes an integer-typed node with an exact range check.
fn dec_int_x(t: &Type, n: JsonNum) -> (r: Result<Val, DecodeError>)
    requires
        t.deep_view() is U8 || t.deep_view() is U16 || t.deep_view() is U32 || t.deep_view() is U64
            || t.deep_view() is S8 || t.deep_view() is S16 || t.deep_view() is S32
            || t.deep_view() is S64,
    ensures
        res_matches(r, dec_int(t.deep_view(), n)),
{
    let v: Result<i64, u64> = match n {
        JsonNum::UInt(u) => if u <= 0x7fff_ffff_ffff_ffff {
            Ok(u as i64)
        } else {
            Err(u)
        },
        JsonNum::Int(s) => Ok(s),
        JsonNum::F32(_) => {
            return Err(DecodeError::TypeMismatch(desc_of(t).to_owned()));
        },
        JsonNum::F64(_) => {
            return Err(DecodeError::TypeMismatch(desc_of(t).to_owned()));
        },
    };
    match t {
        Type::U8 => match v {
            Ok(x) => if 0 <= x && x <= 0xff {
                Ok(Val::U8(x as u8))
            } else {
                Err(DecodeError::OutOfRange(desc_of(t).to_owned()))
            },
            Err(_) => Err(DecodeError::OutOfRange(desc_of(t).to_owned())),
        },
        Type::U16 => match v {
            Ok(x) => if 0 <= x && x <= 0xffff {
                Ok(Val::U16(x as u16))
            } else {
                Err(DecodeError::OutOfRange(desc_of(t).to_owned()))
            },
            Err(_) => Err(DecodeError::OutOfRange(desc_of(t).to_owned())),
        },
        Type::U32 => match v {
            Ok(x) => if 0 <= x && x <= 0xffff_ffff {
                Ok(Val::U32(x as u32))
            } else {
                Err(DecodeError::OutOfRange(desc_of(t).to_owned()))
            },
            Err(_) => Err(DecodeError::OutOfRange(desc_of(t).to_owned())),
        },
        Type::U64 => match v {
            Ok(x) => if 0 <= x {
                Ok(Val::U64(x as u64))
            } else {
                Err(DecodeError::OutOfRange(desc_of(t).to_owned()))
            },
            Err(u) => Ok(Val::U64(u)),
        },
        Type::S8 => match v {
            Ok(x) => if -0x80 <= x && x <= 0x7f {
                Ok(Val::S8(x as i8))
            } else {
                Err(DecodeError::OutOfRange(desc_of(t).to_owned()))
            },
            Err(_) => Err(DecodeError::OutOfRange(desc_of(t).to_owned())),
        },
        Type::S16 => match v {
            Ok(x) => if -0x8000 <= x && x <= 0x7fff {
                Ok(Val::S16(x as i16))
            } else {
                Err(DecodeError::OutOfRange(desc_of(t).to_owned()))
            },
            Err(_) => Err(DecodeError::OutOfRange(desc_of(t).to_owned())),
        },
        Type::S32 => match v {
            Ok(x) => if -0x8000_0000 <= x && x <= 0x7fff_ffff {
                Ok(Val::S32(x as i32))
            } else {
                Err(DecodeError::OutOfRange(desc_of(t).to_owned()))
            },
            Err(_) => Err(DecodeError::OutOfRange(desc_of(t).to_owned())),
        },
        Type::S64 => match v {
            Ok(x) => Ok(Val::S64(x)),
            Err(_) => Err(DecodeError::OutOfRange(desc_of(t).to_owned())),
        },
        _ => Err(DecodeError::OutOfRange(desc_of(t).to_owned())),
    }
}

/// Decodes elements of a list against the element type, from `i` on.
fn dec_seq_x(et: &Type, els: &Vec<Json>, i: usize) -> (r: Result<Vec<Val>, DecodeError>)
    requires
        i <= els@.len(),
    ensures
        seq_res_matches(r, dec_seq(et.deep_view(), arr_dv(*els), i as int)),
    decreases et, 1int, els@.len() - i,
{
    proof {
        lemma_dv_json_arr(*els);
    }
    if i >= els.len() {
        let out: Vec<Val> = Vec::new();
        proof {
            lemma_dv_val_list(out);
            assert(vec_dv_val(out) =~= Seq::<ValS>::empty());
        }
        Ok(out)
    } else {
        match json_to_val(et, &els[i]) {
            Ok(v) => match dec_seq_x(et, els, i + 1) {
                Ok(mut rest) => {
                    rest.insert(0, v);
                    proof {
                        lemma_dv_val_list(rest);
                        assert(vec_dv_val(rest) =~= seq![rest@[0].deep_view()] + vec_dv_val(
                            rest,
                        ).drop_first());
                        assert(dec_seq(et.deep_view(), arr_dv(*els), i as int) matches Ok(s)
                            ==> vec_dv_val(rest) =~= s);
                    }
                    Ok(rest)
                },
                Err(e) => Err(e),
            },
            Err(e) => Err(e),
        }
    }
}

/// Decodes tuple slots pointwise, from `i` on.
fn dec_slots_x(slots: &Vec<Type>, els: &Vec<Json>, i: usize) -> (r: Result<Vec<Val>, DecodeError>)
    requires
        i <= slots@.len(),
        els@.len() == slots@.len(),
    ensures
        seq_res_matches(r, dec_slots(vec_dv_type(*slots), arr_dv(*els), i as int)),
    decreases *slots, 1int, slots@.len() - i,
{
    proof {
        lemma_dv_json_arr(*els);
        lemma_dv_type_tuple(*slots);
    }
    if i >= slots.len() {
        let out: Vec<Val> = Vec::new();
        proof {
            lemma_dv_val_list(out);
            assert(vec_dv_val(out) =~= Seq::<ValS>::empty());
        }
        Ok(out)
    } else {
        proof {
            assert(decreases_to!(*slots => slots@[i as int]));
        }
        match json_to_val(&slots[i], &els[i]) {
            Ok(v) => match dec_slots_x(slots, els, i + 1) {
                Ok(mut rest) => {
                    rest.insert(0, v);
                    proof {
                        lemma_dv_val_list(rest);
                        assert(dec_slots(vec_dv_type(*slots), arr_dv(*els), i as int) matches Ok(s)
                            ==> vec_dv_val(rest) =~= s);
                    }
                    Ok(rest)
                },
                Err(e) => Err(e),
            },
            Err(e) => Err(e),
        }
    }
}

/// Decodes record fields in declaration order, from `i` on.
fn dec_fields_x(
    fields: &Vec<(String, Type)>,
    entries: &Vec<(String, Json)>,
    i: usize,
) -> (r: Result<Vec<(String, Val)>, DecodeError>)
    requires
        i <= fields@.len(),
    ensures
        fields_res_matches(
            r,
            dec_fields(fields_dv_type(*fields), obj_dv(*entries), i as int),
        ),
    decreases *fields, 1int, fields@.len() - i,
{
    proof {
        lemma_dv_type_record(*fields);
        lemma_dv_json_obj(*entries);
    }
    if i >= fields.len() {
        let out: Vec<(String, Val)> = Vec::new();
        proof {
            lemma_dv_val_record(out);
            assert(fields_dv_val(out) =~= Seq::<(Seq<char>, ValS)>::empty());
        }
        Ok(out)
    } else {
        let null_j = Json::Null;
        let fj: &Json = match lookup_key(entries, fields[i].0.as_str()) {
            Some(v) => v,
            None => &null_j,
        };
        proof {
            assert(decreases_to!(*fields => fields@[i as int]));
        }
        match json_to_val(&fields[i].1, fj) {
            Ok(v) => match dec_fields_x(fields, entries, i + 1) {
                Ok(mut rest) => {
                    let name = fields[i].0.clone();
                    rest.insert(0, (name, v));
                    proof {
                        lemma_dv_val_record(rest);
                        assert(dec_fields(fields_dv_type(*fields), obj_dv(*entries), i as int)
                            matches Ok(s) ==> fields_dv_val(rest) =~= s);
                    }
                    Ok(rest)
                },
                Err(e) => Err(e),
            },
            Err(e) => Err(e),
        }
    }
}

/// Reports the first unknown or duplicate object key, from `i` on.
fn bad_key_x(fields: &Vec<(String, Type)>, entries: &Vec<(String, Json)>, i: usize) -> (r: Option<
    String,
>)
    requires
        i <= entries@.len(),
    ensures
        match r {
            Some(k) => first_bad_key(record_names(fields_dv_type(*fields)), obj_dv(*entries), i as int)
                == Some(k@),
            None => first_bad_key(record_names(fields_dv_type(*fields)), obj_dv(*entries), i as int)
                is None,
        },
    decreases entries@.len() - i,
{
    proof {
        lemma_dv_json_obj(*entries);
    }
    if i >= entries.len() {
        return None;
    }
    let unknown = match find_field_idx(fields, entries[i].0.as_str()) {
        Some(_) => false,
        None => true,
    };
    let mut dup = false;
    let mut k: usize = 0;
    while k < i
        invariant
            0 <= k <= i < entries@.len(),
            obj_dv(*entries).len() == entries@.len(),
            forall|j: int|
                0 <= j < entries@.len() ==> obj_dv(*entries)[j] == (
                    entries@[j].0@,
                    entries@[j].1.deep_view(),
                ),
            dup == exists|j: int|
                0 <= j < k && obj_dv(*entries)[j].0 == obj_dv(*entries)[i as int].0,
        decreases i - k,
    {
        if str_eq(entries[k].0.as_str(), entries[i].0.as_str()) {
            dup = true;
            proof {
                assert(obj_dv(*entries)[k as int].0 == obj_dv(*entries)[i as int].0);
            }
        } else {
            proof {
                assert(obj_dv(*entries)[k as int].0 != obj_dv(*entries)[i as int].0);
            }
        }
        k += 1;
    }
    if unknown || dup {
        Some(entries[i].0.clone())
    } else {
        bad_key_x(fields, entries, i + 1)
    }
}

/// Whether a declared flag name occurs in the input array.
fn flag_present_x(els: &Vec<Json>, name: &str) -> (r: bool)
    ensures
        r == flag_present(arr_dv(*els), name@),
{
    proof {
        lemma_dv_json_arr(*els);
    }
    let mut i: usize = 0;
    while i < els.len()
        invariant
            0 <= i <= els@.len(),
            arr_dv(*els).len() == els@.len(),
            forall|j: int| 0 <= j < els@.len() ==> arr_dv(*els)[j] == els@[j].deep_view(),
            forall|j: int| 0 <= j < i ==> arr_dv(*els)[j] != JsonS::Str(name@),
        decreases els@.len() - i,
    {
        match &els[i] {
            Json::Str(s) => {
                if str_eq(s.as_str(), name) {
                    proof {
                        assert(arr_dv(*els)[i as int] == JsonS::Str(name@));
                    }
                    return true;
                }
            },
            _ => {},
        }
        i += 1;
    }
    false
}

/// Reports the first flag element that is not a declared name, from `i` on.
fn flags_err_x(names: &Vec<String>, els: &Vec<Json>, i: usize) -> (r: Option<DecodeError>)
    requires
        i <= els@.len(),
    ensures
        match r {
            Some(e) => first_flag_err(strings_dv(names@), arr_dv(*els), i as int) == Some(
                e.deep_view(),
            ),
            None => first_flag_err(strings_dv(names@), arr_dv(*els), i as int) is None,
        },
    decreases els@.len() - i,
{
    proof {
        lemma_dv_json_arr(*els);
        reveal_strlit("flags");
    }
    if i >= els.len() {
        return None;
    }
    match &els[i] {
        Json::Str(s) => match find_in_names(names, s.as_str()) {
            Some(_) => flags_err_x(names, els, i + 1),
            None => Some(DecodeError::UnknownFlag(s.clone())),
        },
        _ => Some(DecodeError::TypeMismatch("flags".to_owned())),
    }
}

/// Collects the declared names present in the input, in declaration order.
fn sel_flags_x(names: &Vec<String>, els: &Vec<Json>) -> (r: Vec<String>)
    ensures
        strings_dv(r@) == sel_flags(strings_dv(names@), arr_dv(*els), names@.len() as int),
{
    proof {
        lemma_strings_dv(names@);
    }
    let mut out: Vec<String> = Vec::new();
    let mut i: usize = 0;
    while i < names.len()
        invariant
            0 <= i <= names@.len(),
            strings_dv(names@).len() == names@.len(),
            forall|j: int| 0 <= j < names@.len() ==> strings_dv(names@)[j] == names@[j]@,
            strings_dv(out@) == sel_flags(strings_dv(names@), arr_dv(*els), i as int),
        decreases names@.len() - i,
    {
        let ghost old_out = out@;
        if flag_present_x(els, names[i].as_str()) {
            out.push(names[i].clone());
        }
        proof {
            lemma_strings_dv(out@);
            lemma_strings_dv(old_out);
            assert(strings_dv(out@) =~= sel_flags(
                strings_dv(names@),
                arr_dv(*els),
                i + 1 as int,
            ));
        }
        i += 1;
    }
    out
}

/// Decodes one external node against a descriptor: `Ok` exactly where the
/// specification is `Ok`, with the specified value; the same error the
/// specification names otherwise.
#[verifier::loop_isolation(false)]
pub fn json_to_val(t: &Type, j: &Json) -> (r: Result<Val, DecodeError>)
    ensures
        res_matches(r, json_to_val_spec(t.deep_view(), j.deep_view())),
    decreases t, 0int, 0int,
{
    match t {
        Type::Bool => match j {
            Json::Bool(b) => Ok(Val::Bool(*b)),
            _ => Err(DecodeError::TypeMismatch(desc_of(t).to_owned())),
        },
        Type::U8 | Type::U16 | Type::U32 | Type::U64 | Type::S8 | Type::S16 | Type::S32
            | Type::S64 => match j {
            Json::Num(n) => dec_int_x(t, *n),
            _ => Err(DecodeError::TypeMismatch(desc_of(t).to_owned())),
        },
        Type::Float32 => match j {
            Json::Num(n) => match *n {
                JsonNum::F32(b) => Ok(Val::Float32(f32_nan_canon(b))),
                JsonNum::F64(b) => match narrow_f64_bits(b) {
                    Some(nb) => Ok(Val::Float32(f32_nan_canon(nb))),
                    None => Err(DecodeError::OutOfRange(desc_of(t).to_owned())),
                },
                JsonNum::UInt(v) => if v <= 0x7fff {
                    Ok(Val::Float32(f32_bits_of_i64(v as i64)))
                } else {
                    Err(DecodeError::OutOfRange(desc_of(t).to_owned()))
                },
                JsonNum::Int(v) => if -0x8000 <= v && v <= 0x7fff {
                    Ok(Val::Float32(f32_bits_of_i64(v)))
                } else {
                    Err(DecodeError::OutOfRange(desc_of(t).to_owned()))
                },
            },
            Json::Str(s) => {
                proof {
                    reveal_strlit("NaN");
                    reveal_strlit("Infinity");
                    reveal_strlit("-Infinity");
                }
                if str_eq(s.as_str(), "NaN") {
                    Ok(Val::Float32(F32_NAN_BITS))
                } else if str_eq(s.as_str(), "Infinity") {
                    Ok(Val::Float32(F32_INF_BITS))
                } else if str_eq(s.as_str(), "-Infinity") {
                    Ok(Val::Float32(F32_NEG_INF_BITS))
                } else {
                    Err(DecodeError::TypeMismatch(desc_of(t).to_owned()))
                }
            },
            _ => Err(DecodeError::TypeMismatch(desc_of(t).to_owned())),
        },
        Type::Float64 => match j {
            Json::Num(n) => match *n {
                JsonNum::F64(b) => Ok(Val::Float64(f64_nan_canon(b))),
                JsonNum::F32(b) => Ok(Val::Float64(f64_nan_canon(widen_f32_bits(b)))),
                JsonNum::UInt(v) => if v <= 0x7fff_ffff {
                    Ok(Val::Float64(f64_bits_of_i64(v as i64)))
                } else {
                    Err(DecodeError::OutOfRange(desc_of(t).to_owned()))
                },
                JsonNum::Int(v) => if -0x8000_0000 <= v && v <= 0x7fff_ffff {
                    Ok(Val::Float64(f64_bits_of_i64(v)))
                } else {
                    Err(DecodeError::OutOfRange(desc_of(t).to_owned()))
                },
            },
            Json::Str(s) => {
                proof {
                    reveal_strlit("NaN");
                    reveal_strlit("Infinity");
                    reveal_strlit("-Infinity");
                }
                if str_eq(s.as_str(), "NaN") {
                    Ok(Val::Float64(F64_NAN_BITS))
                } else if str_eq(s.as_str(), "Infinity") {
                    Ok(Val::Float64(F64_INF_BITS))
                } else if str_eq(s.as_str(), "-Infinity") {
                    Ok(Val::Float64(F64_NEG_INF_BITS))
                } else {
                    Err(DecodeError::TypeMismatch(desc_of(t).to_owned()))
                }
            },
            _ => Err(DecodeError::TypeMismatch(desc_of(t).to_owned())),
        },
        Type::Char => match j {
            Json::Str(s) => if s.as_str().unicode_len() == 1 {
                Ok(Val::Char(s.as_str().get_char(0)))
            } else {
                Err(DecodeError::TypeMismatch(desc_of(t).to_owned()))
            },
            _ => Err(DecodeError::TypeMismatch(desc_of(t).to_owned())),
        },
        Type::String => match j {
            Json::Str(s) => Ok(Val::String(s.clone())),
            _ => Err(DecodeError::TypeMismatch(desc_of(t).to_owned())),
        },
        Type::List(et) => match j {
            Json::Arr(els) => match dec_seq_x(&**et, els, 0) {
                Ok(vs) => {
                    proof {
                        lemma_dv_val_list(vs);
                    }
                    Ok(Val::List(vs))
                },
                Err(e) => Err(e),
            },
            Json::Str(s) => {
                let is_u8 = match &**et {
                    Type::U8 => true,
                    _ => false,
                };
                if is_u8 {
                    match b64_decode(s.as_str()) {
                        Some(bytes) => {
                            let mut out: Vec<Val> = Vec::new();
                            let mut i: usize = 0;
                            while i < bytes.len()
                                invariant
                                    0 <= i <= bytes@.len(),
                                    out@.len() == i,
                                    forall|q: int|
                                        0 <= q < i ==> (#[trigger] out@[q]).deep_view()
                                            == ValS::U8(bytes@[q]),
                                decreases bytes@.len() - i,
                            {
                                out.push(Val::U8(bytes[i]));
                                i += 1;
                            }
                            proof {
                                lemma_dv_val_list(out);
                                assert(vec_dv_val(out) =~= bytes_vals(bytes@));
                            }
                            Ok(Val::List(out))
                        },
                        None => Err(DecodeError::TypeMismatch(desc_of(t).to_owned())),
                    }
                } else {
                    Err(DecodeError::TypeMismatch(desc_of(t).to_owned()))
                }
            },
            _ => Err(DecodeError::TypeMismatch(desc_of(t).to_owned())),
        },
        Type::Record(fields) => match j {
            Json::Obj(entries) => {
                proof {
                    lemma_dv_type_record(*fields);
                    lemma_dv_json_obj(*entries);
                }
                match bad_key_x(fields, entries, 0) {
                    Some(k) => Err(DecodeError::UnknownField(k)),
                    None => match dec_fields_x(fields, entries, 0) {
                        Ok(fv) => {
                            proof {
                                lemma_dv_val_record(fv);
                            }
                            Ok(Val::Record(fv))
                        },
                        Err(e) => Err(e),
                    },
                }
            },
            _ => Err(DecodeError::TypeMismatch(desc_of(t).to_owned())),
        },
        Type::Tuple(slots) => match j {
            Json::Arr(els) => {
                proof {
                    lemma_dv_type_tuple(*slots);
                    lemma_dv_json_arr(*els);
                }
                if els.len() == slots.len() {
                    match dec_slots_x(slots, els, 0) {
                        Ok(vs) => {
                            proof {
                                lemma_dv_val_tuple(vs);
                            }
                            Ok(Val::Tuple(vs))
                        },
                        Err(e) => Err(e),
                    }
                } else {
                    Err(DecodeError::ArityMismatch(slots.len(), els.len()))
                }
            },
            _ => Err(DecodeError::TypeMismatch(desc_of(t).to_owned())),
        },
        Type::Variant(cases) => match j {
            Json::Obj(entries) => {
                proof {
                    lemma_dv_type_variant(*cases);
                    lemma_dv_json_obj(*entries);
                }
                if entries.len() != 1 {
                    Err(DecodeError::ArityMismatch(1, entries.len()))
                } else {
                    let key = &entries[0].0;
                    match find_case_idx(cases, key.as_str()) {
                        None => Err(DecodeError::UnknownCase(key.clone())),
                        Some(ci) => {
                            proof {
                                lemma_index_of_str(case_names(cases_dv_type(*cases)), key@, 0);
                                assert(ci < cases@.len());
                            }
                            match &cases[ci].1 {
                                Some(pt) => {
                                    proof {
                                        assert(decreases_to!(*cases => cases@[ci as int]));
                                        assert(decreases_to!(cases@[ci as int].1 => pt));
                                    }
                                    match json_to_val(pt, &entries[0].1) {
                                        Ok(v) => Ok(Val::Variant(key.clone(), Some(Box::new(v)))),
                                        Err(e) => Err(e),
                                    }
                                },
                                None => Ok(Val::Variant(key.clone(), None)),
                            }
                        },
                    }
                }
            },
            _ => Err(DecodeError::TypeMismatch(desc_of(t).to_owned())),
        },
        Type::Enum(names) => match j {
            Json::Str(s) => {
                proof {
                    crate::views::lemma_dv_type_names(*names);
                }
                match find_in_names(names, s.as_str()) {
                    Some(_) => Ok(Val::Enum(s.clone())),
                    None => Err(DecodeError::UnknownCase(s.clone())),
                }
            },
            _ => Err(DecodeError::TypeMismatch(desc_of(t).to_owned())),
        },
        Type::Union(cases) => match j {
            Json::Obj(entries) => {
                proof {
                    lemma_dv_type_union(*cases);
                    lemma_dv_json_obj(*entries);
                }
                if entries.len() != 1 {
                    Err(DecodeError::ArityMismatch(1, entries.len()))
                } else {
                    let key = &entries[0].0;
                    match parse_u32(key.as_str()) {
                        None => Err(DecodeError::MalformedKey(key.clone())),
                        Some(idx) => if (idx as usize) < cases.len() {
                            proof {
                                assert(decreases_to!(*cases => cases@[idx as int]));
                            }
                            match json_to_val(&cases[idx as usize], &entries[0].1) {
                                Ok(v) => Ok(Val::Union(idx, Box::new(v))),
                                Err(e) => Err(e),
                            }
                        } else {
                            Err(DecodeError::MalformedKey(key.clone()))
                        },
                    }
                }
            },
            _ => Err(DecodeError::TypeMismatch(desc_of(t).to_owned())),
        },
        Type::Option(inner) => {
            let is_null = match j {
                Json::Null => true,
                _ => false,
            };
            if is_null {
                Ok(Val::Option(None))
            } else {
                match json_to_val(&**inner, j) {
                    Ok(v) => Ok(Val::Option(Some(Box::new(v)))),
                    Err(e) => Err(e),
                }
            }
        },
        Type::Result(ok, err) => match j {
            Json::Obj(entries) => {
                proof {
                    lemma_dv_json_obj(*entries);
                    reveal_strlit("result");
                    reveal_strlit("error");
                }
                if entries.len() != 1 {
                    Err(DecodeError::ArityMismatch(1, entries.len()))
                } else {
                    let key = &entries[0].0;
                    if str_eq(key.as_str(), "result") {
                        match ok {
                            Some(pt) => match json_to_val(&**pt, &entries[0].1) {
                                Ok(v) => Ok(Val::Result(Ok(Some(Box::new(v))))),
                                Err(e) => Err(e),
                            },
                            None => Ok(Val::Result(Ok(None))),
                        }
                    } else if str_eq(key.as_str(), "error") {
                        match err {
                            Some(pt) => match json_to_val(&**pt, &entries[0].1) {
                                Ok(v) => Ok(Val::Result(Err(Some(Box::new(v))))),
                                Err(e) => Err(e),
                            },
                            None => Ok(Val::Result(Err(None))),
                        }
                    } else {
                        Err(DecodeError::UnknownCase(key.clone()))
                    }
                }
            },
            _ => Err(DecodeError::TypeMismatch(desc_of(t).to_owned())),
        },
        Type::Flags(names) => match j {
            Json::Arr(els) => {
                proof {
                    crate::views::lemma_dv_type_names(*names);
                    lemma_dv_json_arr(*els);
                }
                match flags_err_x(names, els, 0) {
                    Some(e) => Err(e),
                    None => {
                        let sel = sel_flags_x(names, els);
                        proof {
                            lemma_dv_val_flags(sel);
                        }
                        Ok(Val::Flags(sel))
                    },
                }
            },
            _ => Err(DecodeError::TypeMismatch(desc_of(t).to_owned())),
        },
    }
}

} // verus!
