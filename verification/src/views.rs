use vstd::prelude::*;

use crate::json::{arr_dv, obj_dv, Json, JsonS};
use crate::model::{
    cases_dv_type, fields_dv_type, fields_dv_val, strings_dv, vec_dv_type, vec_dv_val, Type, TypeS,
    Val, ValS,
};

verus! {

/// Bridging facts between each constructor over a vector and its deep
/// view, stated once so that code working arm by arm need not unfold the
/// view functions.
pub proof fn lemma_dv_val_list(els: Vec<Val>)
    ensures
        Val::List(els).deep_view() == ValS::List(vec_dv_val(els)),
        vec_dv_val(els).len() == els@.len(),
        forall|i: int| 0 <= i < els@.len() ==> vec_dv_val(els)[i] == els@[i].deep_view(),
{
    reveal_with_fuel(crate::model::dv_val, 2);
    reveal_with_fuel(vec_dv_val, 2);
    let s = vec_dv_val(els);
    assert(s.len() == els@.len());
    assert forall|i: int| 0 <= i < els@.len() implies s[i] == els@[i].deep_view() by {}
}

pub proof fn lemma_dv_val_tuple(els: Vec<Val>)
    ensures
        Val::Tuple(els).deep_view() == ValS::Tuple(vec_dv_val(els)),
        vec_dv_val(els).len() == els@.len(),
        forall|i: int| 0 <= i < els@.len() ==> vec_dv_val(els)[i] == els@[i].deep_view(),
{
    reveal_with_fuel(crate::model::dv_val, 2);
    reveal_with_fuel(vec_dv_val, 2);
    let s = vec_dv_val(els);
    assert forall|i: int| 0 <= i < els@.len() implies s[i] == els@[i].deep_view() by {}
}

pub proof fn lemma_dv_val_record(fields: Vec<(String, Val)>)
    ensures
        Val::Record(fields).deep_view() == ValS::Record(fields_dv_val(fields)),
        fields_dv_val(fields).len() == fields@.len(),
        forall|i: int|
            0 <= i < fields@.len() ==> fields_dv_val(fields)[i] == (
                fields@[i].0@,
                fields@[i].1.deep_view(),
            ),
{
    reveal_with_fuel(crate::model::dv_val, 2);
    reveal_with_fuel(fields_dv_val, 2);
    let s = fields_dv_val(fields);
    assert forall|i: int|
        0 <= i < fields@.len() implies s[i] == (fields@[i].0@, fields@[i].1.deep_view()) by {}
}

pub proof fn lemma_dv_val_flags(names: Vec<String>)
    ensures
        Val::Flags(names).deep_view() == ValS::Flags(strings_dv(names@)),
        strings_dv(names@).len() == names@.len(),
        forall|i: int| 0 <= i < names@.len() ==> strings_dv(names@)[i] == names@[i]@,
{
    reveal_with_fuel(crate::model::dv_val, 2);
    let s = strings_dv(names@);
    assert forall|i: int| 0 <= i < names@.len() implies s[i] == names@[i]@ by {}
}

pub proof fn lemma_strings_dv(names: Seq<String>)
    ensures
        strings_dv(names).len() == names.len(),
        forall|i: int| 0 <= i < names.len() ==> strings_dv(names)[i] == names[i]@,
{
    let s = strings_dv(names);
    assert forall|i: int| 0 <= i < names.len() implies s[i] == names[i]@ by {}
}

pub proof fn lemma_dv_type_record(fields: Vec<(String, Type)>)
    ensures
        Type::Record(fields).deep_view() == TypeS::Record(fields_dv_type(fields)),
        fields_dv_type(fields).len() == fields@.len(),
        forall|i: int|
            0 <= i < fields@.len() ==> fields_dv_type(fields)[i] == (
                fields@[i].0@,
                fields@[i].1.deep_view(),
            ),
{
    reveal_with_fuel(crate::model::dv_type, 2);
    reveal_with_fuel(fields_dv_type, 2);
    let s = fields_dv_type(fields);
    assert forall|i: int|
        0 <= i < fields@.len() implies s[i] == (fields@[i].0@, fields@[i].1.deep_view()) by {}
}

pub proof fn lemma_dv_type_tuple(slots: Vec<Type>)
    ensures
        Type::Tuple(slots).deep_view() == TypeS::Tuple(vec_dv_type(slots)),
        vec_dv_type(slots).len() == slots@.len(),
        forall|i: int| 0 <= i < slots@.len() ==> vec_dv_type(slots)[i] == slots@[i].deep_view(),
{
    reveal_with_fuel(crate::model::dv_type, 2);
    reveal_with_fuel(vec_dv_type, 2);
    let s = vec_dv_type(slots);
    assert forall|i: int| 0 <= i < slots@.len() implies s[i] == slots@[i].deep_view() by {}
}

pub proof fn lemma_dv_type_union(cases: Vec<Type>)
    ensures
        Type::Union(cases).deep_view() == TypeS::Union(vec_dv_type(cases)),
        vec_dv_type(cases).len() == cases@.len(),
        forall|i: int| 0 <= i < cases@.len() ==> vec_dv_type(cases)[i] == cases@[i].deep_view(),
{
    reveal_with_fuel(crate::model::dv_type, 2);
    reveal_with_fuel(vec_dv_type, 2);
    let s = vec_dv_type(cases);
    assert forall|i: int| 0 <= i < cases@.len() implies s[i] == cases@[i].deep_view() by {}
}

pub proof fn lemma_dv_type_variant(cases: Vec<(String, Option<Type>)>)
    ensures
        Type::Variant(cases).deep_view() == TypeS::Variant(cases_dv_type(cases)),
        cases_dv_type(cases).len() == cases@.len(),
        forall|i: int|
            0 <= i < cases@.len() ==> cases_dv_type(cases)[i] == (
                cases@[i].0@,
                match cases@[i].1 {
                    Some(t) => Some(t.deep_view()),
                    None => None,
                },
            ),
{
    reveal_with_fuel(crate::model::dv_type, 2);
    reveal_with_fuel(cases_dv_type, 2);
    let s = cases_dv_type(cases);
    assert forall|i: int|
        0 <= i < cases@.len() implies s[i] == (
            cases@[i].0@,
            match cases@[i].1 {
                Some(t) => Some(t.deep_view()),
                None => None,
            },
        ) by {}
}

pub proof fn lemma_dv_type_names(names: Vec<String>)
    ensures
        Type::Enum(names).deep_view() == TypeS::Enum(strings_dv(names@)),
        Type::Flags(names).deep_view() == TypeS::Flags(strings_dv(names@)),
{
    reveal_with_fuel(crate::model::dv_type, 2);
}

pub proof fn lemma_dv_json_arr(els: Vec<Json>)
    ensures
        Json::Arr(els).deep_view() == JsonS::Arr(arr_dv(els)),
        arr_dv(els).len() == els@.len(),
        forall|i: int| 0 <= i < els@.len() ==> arr_dv(els)[i] == els@[i].deep_view(),
{
    reveal_with_fuel(crate::json::dv_json, 2);
    reveal_with_fuel(arr_dv, 2);
    let s = arr_dv(els);
    assert forall|i: int| 0 <= i < els@.len() implies s[i] == els@[i].deep_view() by {}
}

pub proof fn lemma_dv_json_obj(entries: Vec<(String, Json)>)
    ensures
        Json::Obj(entries).deep_view() == JsonS::Obj(obj_dv(entries)),
        obj_dv(entries).len() == entries@.len(),
        forall|i: int|
            0 <= i < entries@.len() ==> obj_dv(entries)[i] == (
                entries@[i].0@,
                entries@[i].1.deep_view(),
            ),
{
    reveal_with_fuel(crate::json::dv_json, 2);
    reveal_with_fuel(obj_dv, 2);
    let s = obj_dv(entries);
    assert forall|i: int|
        0 <= i < entries@.len() implies s[i] == (entries@[i].0@, entries@[i].1.deep_view()) by {}
}

} // verus!
