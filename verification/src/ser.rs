use vstd::prelude::*;

use crate::decimal::dec_digits;
use crate::decimal::u32_to_decimal;
use crate::fpbits::{
    f32_is_finite, f32_is_nan, f32_sign, f64_is_finite, f64_is_nan, f64_sign, is_finite32,
    is_finite64, is_nan32, is_nan64, sign32, sign64,
};
use crate::json::{arr_dv, obj_dv, Json, JsonNum, JsonS};
use crate::model::{strings_dv, vec_dv_val, Val, ValS};
use crate::views::{
    lemma_dv_json_arr, lemma_dv_json_obj, lemma_dv_val_flags, lemma_dv_val_list,
    lemma_dv_val_record, lemma_dv_val_tuple, lemma_strings_dv,
};

verus! {

/// The external spelling of a non-finite float, one canonical spelling for
/// both widths: every NaN is "NaN", infinities carry their sign.
pub open spec fn special_str(nan: bool, neg: bool) -> Seq<char> {
    if nan {
        "NaN"@
    } else if neg {
        "-Infinity"@
    } else {
        "Infinity"@
    }
}

/// A signed integer encodes as an unsigned number unless it is negative.
pub open spec fn int_to_num(v: int) -> JsonS {
    if v >= 0 {
        JsonS::Num(JsonNum::UInt(v as u64))
    } else {
        JsonS::Num(JsonNum::Int(v as i64))
    }
}

pub open spec fn opt_enc(payload: Option<Box<ValS>>) -> JsonS
    decreases payload,
{
    match payload {
        Some(b) => val_to_json_spec(*b),
        None => JsonS::Null,
    }
}

pub open spec fn seq_enc(els: Seq<ValS>) -> Seq<JsonS>
    decreases els,
{
    Seq::new(
        els.len(),
        |i: int|
            if 0 <= i < els.len() {
                val_to_json_spec(els[i])
            } else {
                JsonS::Null
            },
    )
}

pub open spec fn fields_enc(fvals: Seq<(Seq<char>, ValS)>) -> Seq<(Seq<char>, JsonS)>
    decreases fvals,
{
    Seq::new(
        fvals.len(),
        |i: int|
            if 0 <= i < fvals.len() {
                (fvals[i].0, val_to_json_spec(fvals[i].1))
            } else {
                (Seq::empty(), JsonS::Null)
            },
    )
}

pub open spec fn flags_enc(names: Seq<Seq<char>>) -> Seq<JsonS> {
    Seq::new(
        names.len(),
        |i: int|
            if 0 <= i < names.len() {
                JsonS::Str(names[i])
            } else {
                JsonS::Null
            },
    )
}

/// What encoding means: a total map from values to the external tree.
/// Records and variants use their member names as object keys, unions use
/// the decimal case index, results use the keys "result" and "error",
/// options erase `some` and map `none` to `null`, flags list the set names
/// in declaration order. `u64`/`s64` encode as plain numbers; consumers
/// that read every number as a binary double will lose precision beyond
/// `pow2(53)`, an accepted limitation of the external format.
pub open spec fn val_to_json_spec(v: ValS) -> JsonS
    decreases v,
{
    match v {
        ValS::Bool(b) => JsonS::Bool(b),
        ValS::U8(x) => JsonS::Num(JsonNum::UInt(x as u64)),
        ValS::U16(x) => JsonS::Num(JsonNum::UInt(x as u64)),
        ValS::U32(x) => JsonS::Num(JsonNum::UInt(x as u64)),
        ValS::U64(x) => JsonS::Num(JsonNum::UInt(x)),
        ValS::S8(x) => int_to_num(x as int),
        ValS::S16(x) => int_to_num(x as int),
        ValS::S32(x) => int_to_num(x as int),
        ValS::S64(x) => int_to_num(x as int),
        ValS::Float32(bits) => if is_finite32(bits) {
            JsonS::Num(JsonNum::F32(bits))
        } else {
            JsonS::Str(special_str(is_nan32(bits), sign32(bits) == 1))
        },
        ValS::Float64(bits) => if is_finite64(bits) {
            JsonS::Num(JsonNum::F64(bits))
        } else {
            JsonS::Str(special_str(is_nan64(bits), sign64(bits) == 1))
        },
        ValS::Char(c) => JsonS::Str(seq![c]),
        ValS::String(s) => JsonS::Str(s),
        ValS::List(els) => JsonS::Arr(seq_enc(els)),
        ValS::Record(fvals) => JsonS::Obj(fields_enc(fvals)),
        ValS::Tuple(els) => JsonS::Arr(seq_enc(els)),
        ValS::Variant(name, payload) => JsonS::Obj(seq![(name, opt_enc(payload))]),
        ValS::Enum(name) => JsonS::Str(name),
        ValS::Union(idx, payload) => JsonS::Obj(
            seq![(dec_digits(idx as nat), val_to_json_spec(*payload))],
        ),
        ValS::Option(o) => match o {
            Some(b) => val_to_json_spec(*b),
            None => JsonS::Null,
        },
        ValS::Result(r) => match r {
            Ok(p) => JsonS::Obj(seq![("result"@, opt_enc(p))]),
            Err(p) => JsonS::Obj(seq![("error"@, opt_enc(p))]),
        },
        ValS::Flags(names) => JsonS::Arr(flags_enc(names)),
    }
}

pub proof fn lemma_seq_enc(els: Seq<ValS>)
    ensures
        seq_enc(els).len() == els.len(),
        forall|i: int| 0 <= i < els.len() ==> seq_enc(els)[i] == val_to_json_spec(els[i]),
{
    let s = seq_enc(els);
    assert forall|i: int| 0 <= i < els.len() implies s[i] == val_to_json_spec(els[i]) by {}
}

pub proof fn lemma_fields_enc(fvals: Seq<(Seq<char>, ValS)>)
    ensures
        fields_enc(fvals).len() == fvals.len(),
        forall|i: int|
            0 <= i < fvals.len() ==> fields_enc(fvals)[i] == (
                fvals[i].0,
                val_to_json_spec(fvals[i].1),
            ),
{
    let s = fields_enc(fvals);
    assert forall|i: int|
        0 <= i < fvals.len() implies s[i] == (fvals[i].0, val_to_json_spec(fvals[i].1)) by {}
}

pub proof fn lemma_flags_enc(names: Seq<Seq<char>>)
    ensures
        flags_enc(names).len() == names.len(),
        forall|i: int| 0 <= i < names.len() ==> flags_enc(names)[i] == JsonS::Str(names[i]),
{
    let s = flags_enc(names);
    assert forall|i: int| 0 <= i < names.len() implies s[i] == JsonS::Str(names[i]) by {}
}

/// Relies on char's `Display` impl: formatting a char yields exactly that
/// one character.
#[verifier::external_body]
fn char_to_string(c: char) -> (r: String)
    ensures
        r@ == seq![c],
{
    c.to_string()
}

/// The canonical spelling of a non-finite double, from its bit pattern.
pub fn special_float_str(bits: u64) -> (r: &'static str)
    requires
        !is_finite64(bits),
    ensures
        r@ == special_str(is_nan64(bits), sign64(bits) == 1),
{
    proof {
        reveal_strlit("NaN");
        reveal_strlit("Infinity");
        reveal_strlit("-Infinity");
    }
    if f64_is_nan(bits) {
        "NaN"
    } else if f64_sign(bits) == 0 {
        "Infinity"
    } else {
        "-Infinity"
    }
}

/// The canonical spelling of a non-finite single, from its bit pattern.
pub fn special_float_str32(bits: u32) -> (r: &'static str)
    requires
        !is_finite32(bits),
    ensures
        r@ == special_str(is_nan32(bits), sign32(bits) == 1),
{
    proof {
        reveal_strlit("NaN");
        reveal_strlit("Infinity");
        reveal_strlit("-Infinity");
    }
    if f32_is_nan(bits) {
        "NaN"
    } else if f32_sign(bits) == 0 {
        "Infinity"
    } else {
        "-Infinity"
    }
}

/// Encodes a value into the external tree. Total: a well-typed value
/// always encodes, and the result is exactly `val_to_json_spec` of it.
#[verifier::loop_isolation(false)]
pub fn val_to_json(val: &Val) -> (r: Json)
    ensures
        r.deep_view() == val_to_json_spec(val.deep_view()),
    decreases val, 1int,
{
    match val {
        Val::Bool(b) => Json::Bool(*b),
        Val::U8(x) => Json::Num(JsonNum::UInt(*x as u64)),
        Val::U16(x) => Json::Num(JsonNum::UInt(*x as u64)),
        Val::U32(x) => Json::Num(JsonNum::UInt(*x as u64)),
        Val::U64(x) => Json::Num(JsonNum::UInt(*x)),
        Val::S8(x) => if *x >= 0 {
            Json::Num(JsonNum::UInt(*x as u64))
        } else {
            Json::Num(JsonNum::Int(*x as i64))
        },
        Val::S16(x) => if *x >= 0 {
            Json::Num(JsonNum::UInt(*x as u64))
        } else {
            Json::Num(JsonNum::Int(*x as i64))
        },
        Val::S32(x) => if *x >= 0 {
            Json::Num(JsonNum::UInt(*x as u64))
        } else {
            Json::Num(JsonNum::Int(*x as i64))
        },
        Val::S64(x) => if *x >= 0 {
            Json::Num(JsonNum::UInt(*x as u64))
        } else {
            Json::Num(JsonNum::Int(*x as i64))
        },
        Val::Float32(bits) => if f32_is_finite(*bits) {
            Json::Num(JsonNum::F32(*bits))
        } else {
            Json::Str(special_float_str32(*bits).to_owned())
        },
        Val::Float64(bits) => if f64_is_finite(*bits) {
            Json::Num(JsonNum::F64(*bits))
        } else {
            Json::Str(special_float_str(*bits).to_owned())
        },
        Val::Char(c) => Json::Str(char_to_string(*c)),
        Val::String(s) => Json::Str(s.clone()),
        Val::List(els) => {
            let out = encode_elements(val, els);
            proof {
                lemma_dv_json_arr(out);
                lemma_dv_val_list(*els);
                lemma_seq_enc(vec_dv_val(*els));
                assert(arr_dv(out) =~= seq_enc(vec_dv_val(*els)));
            }
            Json::Arr(out)
        },
        Val::Tuple(els) => {
            let out = encode_elements(val, els);
            proof {
                lemma_dv_json_arr(out);
                lemma_dv_val_tuple(*els);
                lemma_seq_enc(vec_dv_val(*els));
                assert(arr_dv(out) =~= seq_enc(vec_dv_val(*els)));
            }
            Json::Arr(out)
        },
        Val::Record(fields) => {
            let mut out: Vec<(String, Json)> = Vec::new();
            let mut i: usize = 0;
            while i < fields.len()
                invariant
                    i <= fields.len(),
                    out@.len() == i,
                    *val == Val::Record(*fields),
                    forall|j: int|
                        0 <= j < i ==> (#[trigger] out@[j]).0@ == fields@[j].0@
                            && out@[j].1.deep_view() == val_to_json_spec(fields@[j].1.deep_view()),
                decreases fields.len() - i,
            {
                proof {
                    assert(decreases_to!(*val => *fields));
                    assert(decreases_to!(*fields => fields@[i as int]));
                }
                let e = val_to_json(&fields[i].1);
                let name = fields[i].0.clone();
                out.push((name, e));
                i += 1;
            }
            proof {
                lemma_dv_json_obj(out);
                lemma_dv_val_record(*fields);
                lemma_fields_enc(crate::model::fields_dv_val(*fields));
                assert(obj_dv(out) =~= fields_enc(crate::model::fields_dv_val(*fields)));
            }
            Json::Obj(out)
        },
        Val::Variant(name, payload) => {
            let pj = match payload {
                Some(b) => {
                    proof {
                        assert(decreases_to!(*val => **b));
                    }
                    val_to_json(&**b)
                },
                None => Json::Null,
            };
            let entries = vec![(name.clone(), pj)];
            proof {
                lemma_dv_json_obj(entries);
                assert(obj_dv(entries) =~= seq![
                    (name@, opt_enc(val.deep_view()->Variant_1)),
                ]);
            }
            Json::Obj(entries)
        },
        Val::Enum(name) => Json::Str(name.clone()),
        Val::Union(idx, payload) => {
            let key = u32_to_decimal(*idx);
            proof {
                assert(decreases_to!(*val => **payload));
            }
            let pj = val_to_json(&**payload);
            let entries = vec![(key, pj)];
            proof {
                lemma_dv_json_obj(entries);
                assert(obj_dv(entries) =~= seq![
                    (dec_digits(*idx as nat), val_to_json_spec((**payload).deep_view())),
                ]);
            }
            Json::Obj(entries)
        },
        Val::Option(o) => match o {
            Some(b) => {
                proof {
                    assert(decreases_to!(*val => **b));
                }
                val_to_json(&**b)
            },
            None => Json::Null,
        },
        Val::Result(res) => {
            let (key, pj): (String, Json) = match res {
                Ok(p) => (
                    "result".to_owned(),
                    match p {
                        Some(b) => {
                            proof {
                                assert(decreases_to!(*val => **b));
                            }
                            val_to_json(&**b)
                        },
                        None => Json::Null,
                    },
                ),
                Err(p) => (
                    "error".to_owned(),
                    match p {
                        Some(b) => {
                            proof {
                                assert(decreases_to!(*val => **b));
                            }
                            val_to_json(&**b)
                        },
                        None => Json::Null,
                    },
                ),
            };
            let entries = vec![(key, pj)];
            proof {
                reveal_strlit("result");
                reveal_strlit("error");
                lemma_dv_json_obj(entries);
                match res {
                    Ok(p) => {
                        assert(obj_dv(entries) =~= seq![
                            ("result"@, opt_enc(val.deep_view()->Result_0->Ok_0)),
                        ]);
                    },
                    Err(p) => {
                        assert(obj_dv(entries) =~= seq![
                            ("error"@, opt_enc(val.deep_view()->Result_0->Err_0)),
                        ]);
                    },
                }
            }
            Json::Obj(entries)
        },
        Val::Flags(names) => {
            let mut out: Vec<Json> = Vec::new();
            let mut i: usize = 0;
            while i < names.len()
                invariant
                    i <= names.len(),
                    out@.len() == i,
                    forall|j: int|
                        0 <= j < i ==> (#[trigger] out@[j]).deep_view() == JsonS::Str(names@[j]@),
                decreases names.len() - i,
            {
                let e = Json::Str(names[i].clone());
                out.push(e);
                i += 1;
            }
            proof {
                lemma_dv_json_arr(out);
                lemma_dv_val_flags(*names);
                lemma_strings_dv(names@);
                lemma_flags_enc(strings_dv(names@));
                assert(arr_dv(out) =~= flags_enc(strings_dv(names@)));
            }
            Json::Arr(out)
        },
    }
}

/// Encodes each element of a list or tuple value, in order.
#[verifier::loop_isolation(false)]
fn encode_elements(whole: &Val, els: &Vec<Val>) -> (out: Vec<Json>)
    requires
        *whole == Val::List(*els) || *whole == Val::Tuple(*els),
    ensures
        out@.len() == els@.len(),
        forall|j: int|
            0 <= j < els@.len() ==> (#[trigger] out@[j]).deep_view() == val_to_json_spec(
                els@[j].deep_view(),
            ),
    decreases *whole, 0int,
{
    let mut out: Vec<Json> = Vec::new();
    let mut i: usize = 0;
    while i < els.len()
        invariant
            i <= els.len(),
            out@.len() == i,
            *whole == Val::List(*els) || *whole == Val::Tuple(*els),
            forall|j: int|
                0 <= j < i ==> (#[trigger] out@[j]).deep_view() == val_to_json_spec(
                    els@[j].deep_view(),
                ),
        decreases els.len() - i,
    {
        proof {
            match whole {
                Val::List(l) => assert(decreases_to!(*whole => *l)),
                Val::Tuple(l) => assert(decreases_to!(*whole => *l)),
                _ => assert(false),
            }
            assert(decreases_to!(*whole => *els));
            assert(decreases_to!(*els => els@[i as int]));
        }
        let e = val_to_json(&els[i]);
        out.push(e);
        i += 1;
    }
    out
}

/// Encodes an optional payload: absent becomes `null`.
pub fn option_val_to_json(val: Option<&Val>) -> (r: Json)
    ensures
        r.deep_view() == (match val {
            Some(v) => val_to_json_spec(v.deep_view()),
            None => JsonS::Null,
        }),
{
    match val {
        Some(v) => val_to_json(v),
        None => Json::Null,
    }
}

/// Serialization as a trait over the value model, for callers that hold
/// values behind an abstraction.
pub trait ValSerialize {
    spec fn serialize_spec(&self) -> JsonS;

    fn serialize(&self) -> (r: Json)
        ensures
            r.deep_view() == self.serialize_spec(),
    ;
}

impl ValSerialize for Val {
    open spec fn serialize_spec(&self) -> JsonS {
        val_to_json_spec(self.deep_view())
    }

    fn serialize(&self) -> (r: Json) {
        val_to_json(self)
    }
}

} // verus!
