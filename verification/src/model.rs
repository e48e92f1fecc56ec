use vstd::prelude::*;

use crate::fpbits::{is_nan32, is_nan64, F32_NAN_BITS, F64_NAN_BITS};

verus! {

broadcast use vstd::std_specs::vec::axiom_vec_index_decreases, vstd::seq::axiom_seq_index_decreases;

/// Schema node: the closed recursive grammar that describes the shape of a
/// runtime value. Descriptors are immutable once built; `Float32`/`Float64`
/// values are carried as IEEE 754 bit patterns throughout the crate.
#[derive(Debug, PartialEq, Eq)]
pub enum Type {
    Bool,
    U8,
    U16,
    U32,
    U64,
    S8,
    S16,
    S32,
    S64,
    Float32,
    Float64,
    Char,
    String,
    List(Box<Type>),
    Record(Vec<(String, Type)>),
    Tuple(Vec<Type>),
    Variant(Vec<(String, Option<Type>)>),
    Enum(Vec<String>),
    Union(Vec<Type>),
    Option(Box<Type>),
    Result(Option<Box<Type>>, Option<Box<Type>>),
    Flags(Vec<String>),
}

/// Runtime value. Each value is shaped by exactly one `Type`; the
/// correspondence is `has_type` below. `Float32`/`Float64` hold bit patterns.
#[derive(Debug, PartialEq, Eq)]
pub enum Val {
    Bool(bool),
    U8(u8),
    U16(u16),
    U32(u32),
    U64(u64),
    S8(i8),
    S16(i16),
    S32(i32),
    S64(i64),
    Float32(u32),
    Float64(u64),
    Char(char),
    String(String),
    List(Vec<Val>),
    Record(Vec<(String, Val)>),
    Tuple(Vec<Val>),
    Variant(String, Option<Box<Val>>),
    Enum(String),
    Union(u32, Box<Val>),
    Option(Option<Box<Val>>),
    Result(Result<Option<Box<Val>>, Option<Box<Val>>>),
    Flags(Vec<String>),
}

/// Mathematical image of `Type`: strings become `Seq<char>`, vectors become `Seq`.
#[verifier::ext_equal]
pub enum TypeS {
    Bool,
    U8,
    U16,
    U32,
    U64,
    S8,
    S16,
    S32,
    S64,
    Float32,
    Float64,
    Char,
    String,
    List(Box<TypeS>),
    Record(Seq<(Seq<char>, TypeS)>),
    Tuple(Seq<TypeS>),
    Variant(Seq<(Seq<char>, Option<TypeS>)>),
    Enum(Seq<Seq<char>>),
    Union(Seq<TypeS>),
    Option(Box<TypeS>),
    Result(Option<Box<TypeS>>, Option<Box<TypeS>>),
    Flags(Seq<Seq<char>>),
}

/// Mathematical image of `Val`.
#[verifier::ext_equal]
pub enum ValS {
    Bool(bool),
    U8(u8),
    U16(u16),
    U32(u32),
    U64(u64),
    S8(i8),
    S16(i16),
    S32(i32),
    S64(i64),
    Float32(u32),
    Float64(u64),
    Char(char),
    String(Seq<char>),
    List(Seq<ValS>),
    Record(Seq<(Seq<char>, ValS)>),
    Tuple(Seq<ValS>),
    Variant(Seq<char>, Option<Box<ValS>>),
    Enum(Seq<char>),
    Union(u32, Box<ValS>),
    Option(Option<Box<ValS>>),
    Result(Result<Option<Box<ValS>>, Option<Box<ValS>>>),
    Flags(Seq<Seq<char>>),
}


/// Per-collection deep views, named so that facts about them can be stated
/// and reused directly.
pub open spec fn strings_dv(names: Seq<String>) -> Seq<Seq<char>> {
    Seq::new(names.len(), |i: int| if 0 <= i < names.len() { names[i]@ } else { Seq::empty() })
}

pub open spec fn vec_dv_val(els: Vec<Val>) -> Seq<ValS>
    decreases els,
{
    Seq::new(
        els@.len(),
        |i: int|
            if 0 <= i < els@.len() {
                dv_val(els@[i])
            } else {
                ValS::Bool(false)
            },
    )
}

pub open spec fn fields_dv_val(fields: Vec<(String, Val)>) -> Seq<(Seq<char>, ValS)>
    decreases fields,
{
    Seq::new(
        fields@.len(),
        |i: int|
            if 0 <= i < fields@.len() {
                (fields@[i].0@, dv_val(fields@[i].1))
            } else {
                (Seq::empty(), ValS::Bool(false))
            },
    )
}

pub open spec fn vec_dv_type(els: Vec<Type>) -> Seq<TypeS>
    decreases els,
{
    Seq::new(
        els@.len(),
        |i: int|
            if 0 <= i < els@.len() {
                dv_type(els@[i])
            } else {
                TypeS::Bool
            },
    )
}

pub open spec fn fields_dv_type(fields: Vec<(String, Type)>) -> Seq<(Seq<char>, TypeS)>
    decreases fields,
{
    Seq::new(
        fields@.len(),
        |i: int|
            if 0 <= i < fields@.len() {
                (fields@[i].0@, dv_type(fields@[i].1))
            } else {
                (Seq::empty(), TypeS::Bool)
            },
    )
}

pub open spec fn cases_dv_type(cases: Vec<(String, Option<Type>)>) -> Seq<
    (Seq<char>, Option<TypeS>),
>
    decreases cases,
{
    Seq::new(
        cases@.len(),
        |i: int|
            if 0 <= i < cases@.len() {
                (
                    cases@[i].0@,
                    match cases@[i].1 {
                        Some(t) => Some(dv_type(t)),
                        None => None,
                    },
                )
            } else {
                (Seq::empty(), None)
            },
    )
}

/// The deep view as a free recursive function; `DeepView` delegates here.
pub open spec fn dv_type(t: Type) -> TypeS
    decreases t,
{
    match t {
            Type::Bool => TypeS::Bool,
            Type::U8 => TypeS::U8,
            Type::U16 => TypeS::U16,
            Type::U32 => TypeS::U32,
            Type::U64 => TypeS::U64,
            Type::S8 => TypeS::S8,
            Type::S16 => TypeS::S16,
            Type::S32 => TypeS::S32,
            Type::S64 => TypeS::S64,
            Type::Float32 => TypeS::Float32,
            Type::Float64 => TypeS::Float64,
            Type::Char => TypeS::Char,
            Type::String => TypeS::String,
            Type::List(t) => TypeS::List(Box::new(dv_type(*t))),
            Type::Record(fields) => TypeS::Record(fields_dv_type(fields)),
            Type::Tuple(slots) => TypeS::Tuple(vec_dv_type(slots)),
            Type::Variant(cases) => TypeS::Variant(cases_dv_type(cases)),
            Type::Enum(names) => TypeS::Enum(strings_dv(names@)),
            Type::Union(cases) => TypeS::Union(vec_dv_type(cases)),
            Type::Option(t) => TypeS::Option(Box::new(dv_type(*t))),
            Type::Result(ok, err) => TypeS::Result(
                match ok {
                    Some(t) => Some(Box::new(dv_type(*t))),
                    None => None,
                },
                match err {
                    Some(t) => Some(Box::new(dv_type(*t))),
                    None => None,
                },
            ),
            Type::Flags(names) => TypeS::Flags(strings_dv(names@)),
        }
    }

impl DeepView for Type {
    type V = TypeS;

    open spec fn deep_view(&self) -> TypeS {
        dv_type(*self)
    }
}

/// The deep view as a free recursive function; `DeepView` delegates here.
pub open spec fn dv_val(v: Val) -> ValS
    decreases v,
{
    match v {
            Val::Bool(b) => ValS::Bool(b),
            Val::U8(v) => ValS::U8(v),
            Val::U16(v) => ValS::U16(v),
            Val::U32(v) => ValS::U32(v),
            Val::U64(v) => ValS::U64(v),
            Val::S8(v) => ValS::S8(v),
            Val::S16(v) => ValS::S16(v),
            Val::S32(v) => ValS::S32(v),
            Val::S64(v) => ValS::S64(v),
            Val::Float32(v) => ValS::Float32(v),
            Val::Float64(v) => ValS::Float64(v),
            Val::Char(c) => ValS::Char(c),
            Val::String(s) => ValS::String(s@),
            Val::List(els) => ValS::List(vec_dv_val(els)),
            Val::Record(fields) => ValS::Record(fields_dv_val(fields)),
            Val::Tuple(els) => ValS::Tuple(vec_dv_val(els)),
            Val::Variant(name, payload) => ValS::Variant(
                name@,
                match payload {
                    Some(b) => Some(Box::new(dv_val(*b))),
                    None => None,
                },
            ),
            Val::Enum(name) => ValS::Enum(name@),
            Val::Union(idx, payload) => ValS::Union(idx, Box::new(dv_val(*payload))),
            Val::Option(o) => ValS::Option(
                match o {
                    Some(b) => Some(Box::new(dv_val(*b))),
                    None => None,
                },
            ),
            Val::Result(r) => ValS::Result(
                match r {
                    Ok(Some(b)) => Ok(Some(Box::new(dv_val(*b)))),
                    Ok(None) => Ok(None),
                    Err(Some(b)) => Err(Some(Box::new(dv_val(*b)))),
                    Err(None) => Err(None),
                },
            ),
            Val::Flags(names) => ValS::Flags(strings_dv(names@)),
        }
    }

impl DeepView for Val {
    type V = ValS;

    open spec fn deep_view(&self) -> ValS {
        dv_val(*self)
    }
}

/// All strings in the sequence are pairwise distinct.
pub open spec fn distinct_strs(names: Seq<Seq<char>>) -> bool {
    forall|i: int, j: int| 0 <= i < j < names.len() ==> names[i] != names[j]
}

/// The names of a record's or variant's members, in declaration order.
pub open spec fn record_names(fields: Seq<(Seq<char>, TypeS)>) -> Seq<Seq<char>> {
    fields.map(|i: int, f: (Seq<char>, TypeS)| f.0)
}

pub open spec fn case_names(cases: Seq<(Seq<char>, Option<TypeS>)>) -> Seq<Seq<char>> {
    cases.map(|i: int, c: (Seq<char>, Option<TypeS>)| c.0)
}

/// A well-formed descriptor: member names are unique at every record,
/// variant, enum and flags node, recursively.
pub open spec fn type_wf(t: TypeS) -> bool
    decreases t,
{
    match t {
        TypeS::List(inner) => type_wf(*inner),
        TypeS::Record(fields) => distinct_strs(record_names(fields)) && (forall|i: int|
            0 <= i < fields.len() ==> type_wf(#[trigger] fields[i].1)),
        TypeS::Tuple(slots) => forall|i: int| 0 <= i < slots.len() ==> type_wf(#[trigger] slots[i]),
        TypeS::Variant(cases) => distinct_strs(case_names(cases)) && (forall|i: int|
            0 <= i < cases.len() ==> match #[trigger] cases[i].1 {
                Some(t) => type_wf(t),
                None => true,
            }),
        TypeS::Enum(names) => distinct_strs(names),
        TypeS::Union(cases) => forall|i: int| 0 <= i < cases.len() ==> type_wf(#[trigger] cases[i]),
        TypeS::Option(inner) => type_wf(*inner),
        TypeS::Result(ok, err) => (match ok {
            Some(t) => type_wf(*t),
            None => true,
        }) && (match err {
            Some(t) => type_wf(*t),
            None => true,
        }),
        TypeS::Flags(names) => distinct_strs(names),
        _ => true,
    }
}

/// `sub` is a subsequence of `full`: the elements of `sub` appear in `full`
/// in the same order. For a `full` with distinct entries this is the
/// canonical form of a subset of the declared flag names.
pub open spec fn is_subsequence(sub: Seq<Seq<char>>, full: Seq<Seq<char>>) -> bool
    decreases full.len(),
{
    if sub.len() == 0 {
        true
    } else if full.len() == 0 {
        false
    } else if sub[0] == full[0] {
        is_subsequence(sub.drop_first(), full.drop_first())
    } else {
        is_subsequence(sub, full.drop_first())
    }
}

/// The typing relation: `v` is exactly the shape `t` describes.
/// Decoders only produce, and the encoder is total over, values in this
/// relation, so no partial or mistyped value can flow through the codec.
pub open spec fn has_type(v: ValS, t: TypeS) -> bool
    decreases t,
{
    match t {
        TypeS::Bool => v is Bool,
        TypeS::U8 => v is U8,
        TypeS::U16 => v is U16,
        TypeS::U32 => v is U32,
        TypeS::U64 => v is U64,
        TypeS::S8 => v is S8,
        TypeS::S16 => v is S16,
        TypeS::S32 => v is S32,
        TypeS::S64 => v is S64,
        TypeS::Float32 => v is Float32,
        TypeS::Float64 => v is Float64,
        TypeS::Char => v is Char,
        TypeS::String => v is String,
        TypeS::List(elem) => match v {
            ValS::List(els) => forall|i: int|
                0 <= i < els.len() ==> has_type(#[trigger] els[i], *elem),
            _ => false,
        },
        TypeS::Record(fields) => match v {
            ValS::Record(fvals) => fvals.len() == fields.len() && (forall|i: int|
                0 <= i < fields.len() ==> (#[trigger] fvals[i]).0 == fields[i].0 && has_type(
                    fvals[i].1,
                    fields[i].1,
                )),
            _ => false,
        },
        TypeS::Tuple(slots) => match v {
            ValS::Tuple(els) => els.len() == slots.len() && (forall|i: int|
                0 <= i < slots.len() ==> has_type(#[trigger] els[i], slots[i])),
            _ => false,
        },
        TypeS::Variant(cases) => match v {
            ValS::Variant(name, payload) => exists|i: int|
                0 <= i < cases.len() && (#[trigger] cases[i]).0 == name && (match (
                    cases[i].1,
                    payload,
                ) {
                    (Some(pt), Some(pv)) => has_type(*pv, pt),
                    (None, None) => true,
                    _ => false,
                }),
            _ => false,
        },
        TypeS::Enum(names) => match v {
            ValS::Enum(name) => exists|i: int| 0 <= i < names.len() && #[trigger] names[i] == name,
            _ => false,
        },
        TypeS::Union(cases) => match v {
            ValS::Union(idx, payload) => idx < cases.len() && has_type(*payload, cases[idx as int]),
            _ => false,
        },
        TypeS::Option(inner) => match v {
            ValS::Option(o) => match o {
                Some(b) => has_type(*b, *inner),
                None => true,
            },
            _ => false,
        },
        TypeS::Result(ok, err) => match v {
            ValS::Result(r) => match r {
                Ok(payload) => match (ok, payload) {
                    (Some(pt), Some(pv)) => has_type(*pv, *pt),
                    (None, None) => true,
                    _ => false,
                },
                Err(payload) => match (err, payload) {
                    (Some(pt), Some(pv)) => has_type(*pv, *pt),
                    (None, None) => true,
                    _ => false,
                },
            },
            _ => false,
        },
        TypeS::Flags(names) => match v {
            ValS::Flags(set) => is_subsequence(set, names),
            _ => false,
        },
    }
}

/// `v` is a chain of `some` wrappers ending in `none`; exactly the values
/// the encoder maps to the external `null`.
pub open spec fn encodes_to_null(v: ValS) -> bool
    decreases v,
{
    match v {
        ValS::Option(None) => true,
        ValS::Option(Some(b)) => encodes_to_null(*b),
        _ => false,
    }
}

/// Canonical values: the subset on which decoding inverts encoding.
/// NaN payloads carry the single canonical bit pattern (the external form
/// spells every NaN "NaN"), and an inner value wrapped in `some` never
/// itself encodes to `null` (the external form of `some(x)` is the form of
/// `x`, so `some(none)` and `none` would collide).
pub open spec fn canonical(v: ValS) -> bool
    decreases v,
{
    match v {
        ValS::Float32(bits) => is_nan32(bits) ==> bits == F32_NAN_BITS,
        ValS::Float64(bits) => is_nan64(bits) ==> bits == F64_NAN_BITS,
        ValS::List(els) => forall|i: int| 0 <= i < els.len() ==> canonical(#[trigger] els[i]),
        ValS::Record(fvals) => forall|i: int|
            0 <= i < fvals.len() ==> canonical((#[trigger] fvals[i]).1),
        ValS::Tuple(els) => forall|i: int| 0 <= i < els.len() ==> canonical(#[trigger] els[i]),
        ValS::Variant(_name, payload) => match payload {
            Some(b) => canonical(*b),
            None => true,
        },
        ValS::Union(_idx, payload) => canonical(*payload),
        ValS::Option(o) => match o {
            Some(b) => canonical(*b) && !encodes_to_null(*b),
            None => true,
        },
        ValS::Result(r) => match r {
            Ok(Some(b)) => canonical(*b),
            Err(Some(b)) => canonical(*b),
            _ => true,
        },
        _ => true,
    }
}


} // verus!
