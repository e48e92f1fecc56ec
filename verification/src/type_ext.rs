use vstd::prelude::*;

use crate::model::{fields_dv_type, strings_dv, vec_dv_type, Type, TypeS, Val, ValS};
use crate::views::{
    lemma_dv_type_names, lemma_dv_type_record, lemma_dv_type_tuple, lemma_dv_type_union,
    lemma_dv_type_variant, lemma_dv_val_list, lemma_dv_val_record, lemma_dv_val_tuple,
    lemma_strings_dv,
};

verus! {

/// The descriptor's human-readable name, used in decode errors.
pub open spec fn desc_spec(t: TypeS) -> Seq<char> {
    match t {
        TypeS::Bool => "bool"@,
        TypeS::U8 => "u8"@,
        TypeS::U16 => "u16"@,
        TypeS::U32 => "u32"@,
        TypeS::U64 => "u64"@,
        TypeS::S8 => "s8"@,
        TypeS::S16 => "s16"@,
        TypeS::S32 => "s32"@,
        TypeS::S64 => "s64"@,
        TypeS::Float32 => "float32"@,
        TypeS::Float64 => "float64"@,
        TypeS::Char => "char"@,
        TypeS::String => "string"@,
        TypeS::List(_) => "list"@,
        TypeS::Record(_) => "record"@,
        TypeS::Tuple(_) => "tuple"@,
        TypeS::Variant(_) => "variant"@,
        TypeS::Enum(_) => "enum"@,
        TypeS::Union(_) => "union"@,
        TypeS::Option(_) => "option"@,
        TypeS::Result(_, _) => "result"@,
        TypeS::Flags(_) => "flags"@,
    }
}

/// Whether a placeholder value can be synthesized: every sum type on the
/// path of first declared cases must have at least one case.
pub open spec fn is_defaultable(t: TypeS) -> bool
    decreases t,
{
    match t {
        TypeS::Record(fields) => forall|i: int|
            0 <= i < fields.len() ==> is_defaultable(#[trigger] fields[i].1),
        TypeS::Tuple(slots) => forall|i: int|
            0 <= i < slots.len() ==> is_defaultable(#[trigger] slots[i]),
        TypeS::Variant(cases) => cases.len() > 0 && (match cases[0].1 {
            Some(pt) => is_defaultable(pt),
            None => true,
        }),
        TypeS::Enum(names) => names.len() > 0,
        TypeS::Union(cases) => cases.len() > 0 && is_defaultable(cases[0]),
        TypeS::Result(ok, _) => match ok {
            Some(pt) => is_defaultable(*pt),
            None => true,
        },
        _ => true,
    }
}

pub open spec fn fields_default(fields: Seq<(Seq<char>, TypeS)>) -> Seq<(Seq<char>, ValS)>
    decreases fields,
{
    Seq::new(
        fields.len(),
        |i: int|
            if 0 <= i < fields.len() {
                (fields[i].0, default_val_spec(fields[i].1))
            } else {
                (Seq::empty(), ValS::Bool(false))
            },
    )
}

pub open spec fn slots_default(slots: Seq<TypeS>) -> Seq<ValS>
    decreases slots,
{
    Seq::new(
        slots.len(),
        |i: int|
            if 0 <= i < slots.len() {
                default_val_spec(slots[i])
            } else {
                ValS::Bool(false)
            },
    )
}

/// The synthesized placeholder: zero for numbers, false, NUL, empty
/// containers, `none` for options, the first declared case for sums, and
/// the `ok` side (defaulted if typed) for results — a fixed bias, since
/// the placeholder is always overwritten before it is observed.
pub open spec fn default_val_spec(t: TypeS) -> ValS
    decreases t,
{
    match t {
        TypeS::Bool => ValS::Bool(false),
        TypeS::U8 => ValS::U8(0),
        TypeS::U16 => ValS::U16(0),
        TypeS::U32 => ValS::U32(0),
        TypeS::U64 => ValS::U64(0),
        TypeS::S8 => ValS::S8(0),
        TypeS::S16 => ValS::S16(0),
        TypeS::S32 => ValS::S32(0),
        TypeS::S64 => ValS::S64(0),
        TypeS::Float32 => ValS::Float32(0),
        TypeS::Float64 => ValS::Float64(0),
        TypeS::Char => ValS::Char('\0'),
        TypeS::String => ValS::String(Seq::empty()),
        TypeS::List(_) => ValS::List(Seq::empty()),
        TypeS::Record(fields) => ValS::Record(fields_default(fields)),
        TypeS::Tuple(slots) => ValS::Tuple(slots_default(slots)),
        TypeS::Variant(cases) => ValS::Variant(
            if cases.len() > 0 {
                cases[0].0
            } else {
                Seq::empty()
            },
            if cases.len() > 0 {
                match cases[0].1 {
                    Some(pt) => Some(Box::new(default_val_spec(pt))),
                    None => None,
                }
            } else {
                None
            },
        ),
        TypeS::Enum(names) => ValS::Enum(
            if names.len() > 0 {
                names[0]
            } else {
                Seq::empty()
            },
        ),
        TypeS::Union(cases) => ValS::Union(
            0,
            Box::new(
                if cases.len() > 0 {
                    default_val_spec(cases[0])
                } else {
                    ValS::Bool(false)
                },
            ),
        ),
        TypeS::Option(_) => ValS::Option(None),
        TypeS::Result(ok, _) => ValS::Result(
            Ok(
                match ok {
                    Some(pt) => Some(Box::new(default_val_spec(*pt))),
                    None => None,
                },
            ),
        ),
        TypeS::Flags(_) => ValS::Flags(Seq::empty()),
    }
}

pub proof fn lemma_fields_default(fields: Seq<(Seq<char>, TypeS)>)
    ensures
        fields_default(fields).len() == fields.len(),
        forall|i: int|
            0 <= i < fields.len() ==> fields_default(fields)[i] == (
                fields[i].0,
                default_val_spec(fields[i].1),
            ),
{
    let s = fields_default(fields);
    assert forall|i: int|
        0 <= i < fields.len() implies s[i] == (fields[i].0, default_val_spec(fields[i].1)) by {}
}

pub proof fn lemma_slots_default(slots: Seq<TypeS>)
    ensures
        slots_default(slots).len() == slots.len(),
        forall|i: int| 0 <= i < slots.len() ==> slots_default(slots)[i] == default_val_spec(slots[i]),
{
    let s = slots_default(slots);
    assert forall|i: int| 0 <= i < slots.len() implies s[i] == default_val_spec(slots[i]) by {}
}

/// Operations every descriptor offers: a placeholder value of its shape
/// and a short descriptive name.
pub trait TypeExt {
    spec fn defaultable(&self) -> bool;

    spec fn default_spec(&self) -> ValS;

    spec fn desc_name(&self) -> Seq<char>;

    fn default_val(&self) -> (r: Val)
        requires
            self.defaultable(),
        ensures
            r.deep_view() == self.default_spec(),
    ;

    fn desc(&self) -> (r: &'static str)
        ensures
            r@ == self.desc_name(),
    ;
}

impl TypeExt for Type {
    open spec fn defaultable(&self) -> bool {
        is_defaultable(self.deep_view())
    }

    open spec fn default_spec(&self) -> ValS {
        default_val_spec(self.deep_view())
    }

    open spec fn desc_name(&self) -> Seq<char> {
        desc_spec(self.deep_view())
    }

    fn default_val(&self) -> (r: Val) {
        default_val_of(self)
    }

    fn desc(&self) -> (r: &'static str) {
        desc_of(self)
    }
}

/// The descriptor's name, for error messages.
pub fn desc_of(t: &Type) -> (r: &'static str)
    ensures
        r@ == desc_spec(t.deep_view()),
{
    proof {
        reveal_strlit("bool");
        reveal_strlit("u8");
        reveal_strlit("u16");
        reveal_strlit("u32");
        reveal_strlit("u64");
        reveal_strlit("s8");
        reveal_strlit("s16");
        reveal_strlit("s32");
        reveal_strlit("s64");
        reveal_strlit("float32");
        reveal_strlit("float64");
        reveal_strlit("char");
        reveal_strlit("string");
        reveal_strlit("list");
        reveal_strlit("record");
        reveal_strlit("tuple");
        reveal_strlit("variant");
        reveal_strlit("enum");
        reveal_strlit("union");
        reveal_strlit("option");
        reveal_strlit("result");
        reveal_strlit("flags");
    }
    match t {
        Type::Bool => "bool",
        Type::U8 => "u8",
        Type::U16 => "u16",
        Type::U32 => "u32",
        Type::U64 => "u64",
        Type::S8 => "s8",
        Type::S16 => "s16",
        Type::S32 => "s32",
        Type::S64 => "s64",
        Type::Float32 => "float32",
        Type::Float64 => "float64",
        Type::Char => "char",
        Type::String => "string",
        Type::List(_) => "list",
        Type::Record(_) => "record",
        Type::Tuple(_) => "tuple",
        Type::Variant(_) => "variant",
        Type::Enum(_) => "enum",
        Type::Union(_) => "union",
        Type::Option(_) => "option",
        Type::Result(_, _) => "result",
        Type::Flags(_) => "flags",
    }
}

/// Synthesizes the placeholder value for a descriptor.
#[verifier::loop_isolation(false)]
pub fn default_val_of(t: &Type) -> (r: Val)
    requires
        is_defaultable(t.deep_view()),
    ensures
        r.deep_view() == default_val_spec(t.deep_view()),
    decreases t, 1int,
{
    match t {
        Type::Bool => Val::Bool(false),
        Type::U8 => Val::U8(0),
        Type::U16 => Val::U16(0),
        Type::U32 => Val::U32(0),
        Type::U64 => Val::U64(0),
        Type::S8 => Val::S8(0),
        Type::S16 => Val::S16(0),
        Type::S32 => Val::S32(0),
        Type::S64 => Val::S64(0),
        Type::Float32 => Val::Float32(0),
        Type::Float64 => Val::Float64(0),
        Type::Char => Val::Char('\0'),
        Type::String => Val::String(String::new()),
        Type::List(_) => {
            let els: Vec<Val> = Vec::new();
            proof {
                lemma_dv_val_list(els);
                assert(crate::model::vec_dv_val(els) =~= Seq::<ValS>::empty());
            }
            Val::List(els)
        },
        Type::Record(fields) => {
            let mut out: Vec<(String, Val)> = Vec::new();
            let mut i: usize = 0;
            while i < fields.len()
                invariant
                    i <= fields.len(),
                    out@.len() == i,
                    forall|j: int|
                        0 <= j < i ==> (#[trigger] out@[j]).0@ == fields@[j].0@
                            && out@[j].1.deep_view() == default_val_spec(fields@[j].1.deep_view()),
                decreases fields.len() - i,
            {
                proof {
                    assert(decreases_to!(*t => *fields));
                    assert(decreases_to!(*fields => fields@[i as int]));
                    lemma_dv_type_record(*fields);
                    assert(fields_dv_type(*fields)[i as int].1 == fields@[i as int].1.deep_view());
                    assert(is_defaultable(fields_dv_type(*fields)[i as int].1));
                }
                let v = default_val_of(&fields[i].1);
                let name = fields[i].0.clone();
                out.push((name, v));
                i += 1;
            }
            proof {
                lemma_dv_val_record(out);
                lemma_dv_type_record(*fields);
                lemma_fields_default(fields_dv_type(*fields));
                assert(crate::model::fields_dv_val(out) =~= fields_default(fields_dv_type(*fields)));
            }
            Val::Record(out)
        },
        Type::Tuple(slots) => {
            let mut out: Vec<Val> = Vec::new();
            let mut i: usize = 0;
            while i < slots.len()
                invariant
                    i <= slots.len(),
                    out@.len() == i,
                    forall|j: int|
                        0 <= j < i ==> (#[trigger] out@[j]).deep_view() == default_val_spec(
                            slots@[j].deep_view(),
                        ),
                decreases slots.len() - i,
            {
                proof {
                    assert(decreases_to!(*t => *slots));
                    assert(decreases_to!(*slots => slots@[i as int]));
                    lemma_dv_type_tuple(*slots);
                    assert(vec_dv_type(*slots)[i as int] == slots@[i as int].deep_view());
                    assert(is_defaultable(vec_dv_type(*slots)[i as int]));
                }
                let v = default_val_of(&slots[i]);
                out.push(v);
                i += 1;
            }
            proof {
                lemma_dv_val_tuple(out);
                lemma_dv_type_tuple(*slots);
                lemma_slots_default(vec_dv_type(*slots));
                assert(crate::model::vec_dv_val(out) =~= slots_default(vec_dv_type(*slots)));
            }
            Val::Tuple(out)
        },
        Type::Variant(cases) => {
            proof {
                lemma_dv_type_variant(*cases);
            }
            let name = cases[0].0.clone();
            let payload = match &cases[0].1 {
                Some(pt) => {
                    proof {
                        assert(decreases_to!(*t => *cases));
                        assert(decreases_to!(*cases => cases@[0].1));
                    }
                    Some(Box::new(default_val_of(pt)))
                },
                None => None,
            };
            Val::Variant(name, payload)
        },
        Type::Enum(names) => {
            proof {
                lemma_dv_type_names(*names);
                lemma_strings_dv(names@);
            }
            Val::Enum(names[0].clone())
        },
        Type::Union(cases) => {
            proof {
                lemma_dv_type_union(*cases);
                assert(decreases_to!(*t => *cases));
                assert(decreases_to!(*cases => cases@[0]));
            }
            let v = default_val_of(&cases[0]);
            Val::Union(0, Box::new(v))
        },
        Type::Option(_) => Val::Option(None),
        Type::Result(ok, _) => {
            let payload = match ok {
                Some(pt) => {
                    proof {
                        assert(decreases_to!(*t => **pt));
                    }
                    Some(Box::new(default_val_of(&**pt)))
                },
                None => None,
            };
            Val::Result(Ok(payload))
        },
        Type::Flags(_) => {
            let names: Vec<String> = Vec::new();
            proof {
                crate::views::lemma_dv_val_flags(names);
                lemma_strings_dv(names@);
                assert(strings_dv(names@) =~= Seq::<Seq<char>>::empty());
            }
            Val::Flags(names)
        },
    }
}

} // verus!
