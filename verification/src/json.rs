use vstd::prelude::*;

verus! {

broadcast use vstd::std_specs::vec::axiom_vec_index_decreases, vstd::seq::axiom_seq_index_decreases;

/// A JSON number. The textual format has a single number kind; this model
/// keeps the machine representation it arrived in. Floating-point payloads
/// are IEEE 754 bit patterns (`F32`/`F64` hold the bits, not the value), so
/// the codec never performs a floating-point operation.
#[derive(Debug, Clone, Copy, PartialEq, Eq)]
pub enum JsonNum {
    UInt(u64),
    Int(i64),
    F32(u32),
    F64(u64),
}

/// The external representation: a JSON-equivalent tree. Objects keep entry
/// order so that encoding is deterministic; lookups ignore the order.
#[derive(Debug, PartialEq, Eq)]
pub enum Json {
    Null,
    Bool(bool),
    Num(JsonNum),
    Str(String),
    Arr(Vec<Json>),
    Obj(Vec<(String, Json)>),
}

/// Mathematical image of `Json`.
#[verifier::ext_equal]
pub enum JsonS {
    Null,
    Bool(bool),
    Num(JsonNum),
    Str(Seq<char>),
    Arr(Seq<JsonS>),
    Obj(Seq<(Seq<char>, JsonS)>),
}


/// Per-collection deep views, named for reuse in facts about them.
pub open spec fn arr_dv(els: Vec<Json>) -> Seq<JsonS>
    decreases els,
{
    Seq::new(
        els@.len(),
        |i: int|
            if 0 <= i < els@.len() {
                dv_json(els@[i])
            } else {
                JsonS::Null
            },
    )
}

pub open spec fn obj_dv(entries: Vec<(String, Json)>) -> Seq<(Seq<char>, JsonS)>
    decreases entries,
{
    Seq::new(
        entries@.len(),
        |i: int|
            if 0 <= i < entries@.len() {
                (entries@[i].0@, dv_json(entries@[i].1))
            } else {
                (Seq::empty(), JsonS::Null)
            },
    )
}

/// The deep view as a free recursive function; `DeepView` delegates here.
pub open spec fn dv_json(j: Json) -> JsonS
    decreases j,
{
    match j {
        Json::Null => JsonS::Null,
        Json::Bool(b) => JsonS::Bool(b),
        Json::Num(n) => JsonS::Num(n),
        Json::Str(s) => JsonS::Str(s@),
        Json::Arr(els) => JsonS::Arr(arr_dv(els)),
        Json::Obj(entries) => JsonS::Obj(obj_dv(entries)),
    }
}

impl DeepView for Json {
    type V = JsonS;

    open spec fn deep_view(&self) -> JsonS {
        dv_json(*self)
    }
}

/// The integer an external number denotes, if it arrived as an integer.
pub open spec fn num_int(n: JsonNum) -> Option<int> {
    match n {
        JsonNum::UInt(v) => Some(v as int),
        JsonNum::Int(v) => Some(v as int),
        _ => None,
    }
}

} // verus!
