use vstd::prelude::*;

use crate::decimal::{dec_digits, u32_to_decimal};
use crate::json::{obj_dv, Json, JsonNum, JsonS};
use crate::model::{fields_dv_type, vec_dv_type, Type, TypeS};
use crate::views::{lemma_dv_json_arr, lemma_dv_json_obj};

use vstd::string::StringExecFns;

verus! {

/// The call surface as the schema provider hands it over: named
/// operations with ordered parameters and zero, one, or several results.
#[derive(Debug)]
pub struct OperationSig {
    pub name: String,
    pub params: Vec<(String, Type)>,
    pub results: Vec<Type>,
}

#[verifier::ext_equal]
pub struct OperationSigS {
    pub name: Seq<char>,
    pub params: Seq<(Seq<char>, TypeS)>,
    pub results: Seq<TypeS>,
}

impl DeepView for OperationSig {
    type V = OperationSigS;

    open spec fn deep_view(&self) -> OperationSigS {
        OperationSigS {
            name: self.name@,
            params: fields_dv_type(self.params),
            results: vec_dv_type(self.results),
        }
    }
}

/// A document to describe: the operations and the number of schema
/// type definitions to list as placeholders.
#[derive(Debug)]
pub struct SchemaDoc {
    pub ops: Vec<OperationSig>,
    pub n_typedefs: u32,
}

pub open spec fn ops_dv(ops: Seq<OperationSig>) -> Seq<OperationSigS> {
    Seq::new(ops.len(), |i: int| if 0 <= i < ops.len() { ops[i].deep_view() } else { OperationSigS { name: Seq::empty(), params: Seq::empty(), results: Seq::empty() } })
}

pub proof fn lemma_ops_dv(ops: Seq<OperationSig>)
    ensures
        ops_dv(ops).len() == ops.len(),
        forall|i: int| 0 <= i < ops.len() ==> ops_dv(ops)[i] == ops[i].deep_view(),
{
    let s = ops_dv(ops);
    assert forall|i: int| 0 <= i < ops.len() implies s[i] == ops[i].deep_view() by {}
}

/// Every per-type schema is left as the empty placeholder object.
pub open spec fn type_schema_spec() -> JsonS {
    JsonS::Obj(Seq::empty())
}

/// A tuple of parameters is described as a fixed-arity array schema.
pub open spec fn tuple_schema_spec(n: nat) -> JsonS {
    JsonS::Obj(
        seq![
            ("type"@, JsonS::Str("array"@)),
            ("minItems"@, JsonS::Num(JsonNum::UInt(n as u64))),
            ("maxItems"@, JsonS::Num(JsonNum::UInt(n as u64))),
            ("prefixItems"@, JsonS::Arr(Seq::new(n, |i: int| type_schema_spec()))),
        ],
    )
}

/// The response's property placeholder, by result count: the wire
/// convention's "result" key for one result, "results" for several.
pub open spec fn response_properties_spec(n: nat) -> JsonS {
    if n == 0 {
        JsonS::Obj(Seq::empty())
    } else if n == 1 {
        JsonS::Obj(seq![("result"@, JsonS::Num(JsonNum::UInt(1)))])
    } else {
        JsonS::Obj(seq![("results"@, JsonS::Num(JsonNum::UInt(2)))])
    }
}

pub open spec fn path_item_spec(op: OperationSigS) -> JsonS {
    JsonS::Obj(
        seq![
            (
                "post"@,
                JsonS::Obj(
                    seq![
                        (
                            "requestBody"@,
                            JsonS::Obj(
                                seq![
                                    (
                                        "content"@,
                                        JsonS::Obj(
                                            seq![
                                                (
                                                    "application/json"@,
                                                    JsonS::Obj(
                                                        seq![
                                                            (
                                                                "schema"@,
                                                                JsonS::Obj(
                                                                    seq![
                                                                        ("type"@, JsonS::Str("object"@)),
                                                                        (
                                                                            "properties"@,
                                                                            JsonS::Obj(
                                                                                seq![
                                                                                    (
                                                                                        "params"@,
                                                                                        tuple_schema_spec(op.params.len()),
                                                                                    ),
                                                                                ],
                                                                            ),
                                                                        ),
                                                                    ],
                                                                ),
                                                            ),
                                                        ],
                                                    ),
                                                ),
                                            ],
                                        ),
                                    ),
                                ],
                            ),
                        ),
                        (
                            "responses"@,
                            JsonS::Obj(
                                seq![
                                    (
                                        "default"@,
                                        JsonS::Obj(
                                            seq![
                                                (
                                                    "content"@,
                                                    JsonS::Obj(
                                                        seq![
                                                            (
                                                                "application/json"@,
                                                                JsonS::Obj(
                                                                    seq![
                                                                        (
                                                                            "schema"@,
                                                                            JsonS::Obj(
                                                                                seq![
                                                                                    ("type"@, JsonS::Str("object"@)),
                                                                                    (
                                                                                        "properties"@,
                                                                                        response_properties_spec(op.results.len()),
                                                                                    ),
                                                                                ],
                                                                            ),
                                                                        ),
                                                                    ],
                                                                ),
                                                            ),
                                                        ],
                                                    ),
                                                ),
                                            ],
                                        ),
                                    ),
                                ],
                            ),
                        ),
                    ],
                ),
            ),
        ],
    )
}

pub open spec fn paths_spec(ops: Seq<OperationSigS>) -> Seq<(Seq<char>, JsonS)> {
    Seq::new(
        ops.len(),
        |i: int|
            if 0 <= i < ops.len() {
                ("/call/"@ + ops[i].name, path_item_spec(ops[i]))
            } else {
                (Seq::empty(), JsonS::Null)
            },
    )
}

pub open spec fn typedefs_spec(n: nat) -> Seq<(Seq<char>, JsonS)> {
    Seq::new(
        n,
        |i: int|
            if 0 <= i < n {
                ("typedef-"@ + dec_digits(i as nat), type_schema_spec())
            } else {
                (Seq::empty(), JsonS::Null)
            },
    )
}

/// The machine-readable description of the call surface, derived from the
/// descriptors, with the wire convention as its source of truth.
pub open spec fn openapi_doc_spec(doc_ops: Seq<OperationSigS>, n_typedefs: nat) -> JsonS {
    JsonS::Obj(
        seq![
            ("openapi"@, JsonS::Str("3.1.0"@)),
            (
                "info"@,
                JsonS::Obj(
                    seq![
                        ("title"@, JsonS::Str("Component RPC Server"@)),
                        ("version"@, JsonS::Str("0.0.0-dynamic"@)),
                    ],
                ),
            ),
            ("paths"@, JsonS::Obj(paths_spec(doc_ops))),
            ("components"@, JsonS::Obj(seq![("schemas"@, JsonS::Obj(typedefs_spec(n_typedefs)))])),
        ],
    )
}

/// One object entry.
fn obj1(key: &str, val: Json) -> (r: Json)
    ensures
        r.deep_view() == JsonS::Obj(seq![(key@, val.deep_view())]),
{
    let entries = vec![(key.to_owned(), val)];
    proof {
        lemma_dv_json_obj(entries);
        assert(obj_dv(entries) =~= seq![(key@, entries@[0].1.deep_view())]);
    }
    Json::Obj(entries)
}

/// Two object entries.
fn obj2(key1: &str, val1: Json, key2: &str, val2: Json) -> (r: Json)
    ensures
        r.deep_view() == JsonS::Obj(seq![(key1@, val1.deep_view()), (key2@, val2.deep_view())]),
{
    let entries = vec![(key1.to_owned(), val1), (key2.to_owned(), val2)];
    proof {
        lemma_dv_json_obj(entries);
        assert(obj_dv(entries) =~= seq![
            (key1@, entries@[0].1.deep_view()),
            (key2@, entries@[1].1.deep_view()),
        ]);
    }
    Json::Obj(entries)
}

fn empty_obj() -> (r: Json)
    ensures
        r.deep_view() == JsonS::Obj(Seq::<(Seq<char>, JsonS)>::empty()),
{
    let entries: Vec<(String, Json)> = Vec::new();
    proof {
        lemma_dv_json_obj(entries);
        assert(obj_dv(entries) =~= Seq::<(Seq<char>, JsonS)>::empty());
    }
    Json::Obj(entries)
}

fn build_type_schema(_t: &Type) -> (r: Json)
    ensures
        r.deep_view() == type_schema_spec(),
{
    empty_obj()
}

fn build_tuple_schema(types: &Vec<(String, Type)>) -> (r: Json)
    ensures
        r.deep_view() == tuple_schema_spec(types@.len() as nat),
{
    let n = types.len();
    let mut items: Vec<Json> = Vec::new();
    let mut i: usize = 0;
    while i < n
        invariant
            i <= n <= types@.len(),
            n == types@.len(),
            items@.len() == i,
            forall|q: int| 0 <= q < i ==> (#[trigger] items@[q]).deep_view() == type_schema_spec(),
        decreases n - i,
    {
        let s = build_type_schema(&types[i].1);
        items.push(s);
        i += 1;
    }
    proof {
        lemma_dv_json_arr(items);
        assert(crate::json::arr_dv(items) =~= Seq::new(
            types@.len() as nat,
            |i: int| type_schema_spec(),
        ));
    }
    let arr = Json::Arr(items);
    let entries = vec![
        ("type".to_owned(), Json::Str("array".to_owned())),
        ("minItems".to_owned(), Json::Num(JsonNum::UInt(n as u64))),
        ("maxItems".to_owned(), Json::Num(JsonNum::UInt(n as u64))),
        ("prefixItems".to_owned(), arr),
    ];
    proof {
        lemma_dv_json_obj(entries);
        assert(obj_dv(entries) =~= tuple_schema_spec(types@.len() as nat)->Obj_0);
    }
    Json::Obj(entries)
}

fn build_openapi_path(op: &OperationSig) -> (r: (String, Json))
    ensures
        r.0@ == "/call/"@ + op.name@,
        r.1.deep_view() == path_item_spec(op.deep_view()),
{
    proof {
        crate::views::lemma_dv_type_record(op.params);
    }
    let response_properties = if op.results.len() == 0 {
        empty_obj()
    } else if op.results.len() == 1 {
        obj1("result", Json::Num(JsonNum::UInt(1)))
    } else {
        obj1("results", Json::Num(JsonNum::UInt(2)))
    };
    proof {
        crate::views::lemma_dv_type_tuple(op.results);
        assert(response_properties.deep_view() == response_properties_spec(
            op.deep_view().results.len(),
        ));
    }
    let params_schema = build_tuple_schema(&op.params);
    proof {
        assert(params_schema.deep_view() == tuple_schema_spec(op.deep_view().params.len()));
    }
    let request_schema = obj2(
        "type",
        Json::Str("object".to_owned()),
        "properties",
        obj1("params", params_schema),
    );
    let request_body = obj1("content", obj1("application/json", obj1("schema", request_schema)));
    let response_schema = obj2(
        "type",
        Json::Str("object".to_owned()),
        "properties",
        response_properties,
    );
    let responses = obj1(
        "default",
        obj1("content", obj1("application/json", obj1("schema", response_schema))),
    );
    let item = obj1("post", obj2("requestBody", request_body, "responses", responses));
    let path = "/call/".to_owned().concat(op.name.as_str());
    proof {
        assert(item.deep_view() =~~= path_item_spec(op.deep_view()));
    }
    (path, item)
}

/// Builds the whole description document.
pub fn build_openapi_doc(doc: &SchemaDoc) -> (r: Json)
    ensures
        r.deep_view() == openapi_doc_spec(
            ops_dv(doc.ops@),
            doc.n_typedefs as nat,
        ),
{
    let mut paths: Vec<(String, Json)> = Vec::new();
    let mut i: usize = 0;
    while i < doc.ops.len()
        invariant
            i <= doc.ops@.len(),
            paths@.len() == i,
            forall|q: int|
                0 <= q < i ==> (#[trigger] paths@[q]).0@ == "/call/"@ + doc.ops@[q].deep_view().name
                    && paths@[q].1.deep_view() == path_item_spec(doc.ops@[q].deep_view()),
        decreases doc.ops@.len() - i,
    {
        let p = build_openapi_path(&doc.ops[i]);
        paths.push(p);
        i += 1;
    }
    proof {
        lemma_dv_json_obj(paths);
        lemma_ops_dv(doc.ops@);
        assert(obj_dv(paths) =~= paths_spec(ops_dv(doc.ops@)));
    }
    let paths_json = Json::Obj(paths);
    let mut typedefs: Vec<(String, Json)> = Vec::new();
    let mut k: u32 = 0;
    while k < doc.n_typedefs
        invariant
            k <= doc.n_typedefs,
            typedefs@.len() == k,
            forall|q: int|
                0 <= q < k ==> (#[trigger] typedefs@[q]).0@ == "typedef-"@ + dec_digits(q as nat)
                    && typedefs@[q].1.deep_view() == type_schema_spec(),
        decreases doc.n_typedefs - k,
    {
        let key = "typedef-".to_owned().concat(u32_to_decimal(k).as_str());
        let v = empty_obj();
        typedefs.push((key, v));
        k += 1;
    }
    proof {
        lemma_dv_json_obj(typedefs);
        assert(obj_dv(typedefs) =~= typedefs_spec(doc.n_typedefs as nat));
    }
    let components = obj1("schemas", Json::Obj(typedefs));
    let info = obj2(
        "title",
        Json::Str("Component RPC Server".to_owned()),
        "version",
        Json::Str("0.0.0-dynamic".to_owned()),
    );
    let top = vec![
        ("openapi".to_owned(), Json::Str("3.1.0".to_owned())),
        ("info".to_owned(), info),
        ("paths".to_owned(), paths_json),
        ("components".to_owned(), components),
    ];
    proof {
        lemma_dv_json_obj(top);
        assert(obj_dv(top) =~= openapi_doc_spec(
            ops_dv(doc.ops@),
            doc.n_typedefs as nat,
        )->Obj_0);
    }
    Json::Obj(top)
}

} // verus!
