use component_rpc::{
    build_openapi_doc, deserialize_val, expect_exactly_one, json_to_val, results_to_json,
    DecodeError, Json, JsonNum, OperationSig, SchemaDoc, Token, Type, TypeExt, Val,
};

fn s(x: &str) -> String {
    x.to_string()
}

fn unum(n: u64) -> Json {
    Json::Num(JsonNum::UInt(n))
}

#[test]
fn default_values() {
    assert_eq!(Type::U32.default_val(), Val::U32(0));
    assert_eq!(Type::Bool.default_val(), Val::Bool(false));
    assert_eq!(Type::Char.default_val(), Val::Char('\0'));
    assert_eq!(Type::String.default_val(), Val::String(s("")));
    assert_eq!(Type::Option(Box::new(Type::U8)).default_val(), Val::Option(None));
    assert_eq!(Type::Flags(vec![s("a")]).default_val(), Val::Flags(vec![]));
    let rec = Type::Record(vec![(s("x"), Type::S16), (s("y"), Type::Float64)]);
    assert_eq!(
        rec.default_val(),
        Val::Record(vec![(s("x"), Val::S16(0)), (s("y"), Val::Float64(0))])
    );
    let var = Type::Variant(vec![(s("first"), Some(Type::U8)), (s("second"), None)]);
    assert_eq!(
        var.default_val(),
        Val::Variant(s("first"), Some(Box::new(Val::U8(0))))
    );
    let uni = Type::Union(vec![Type::S64, Type::Bool]);
    assert_eq!(uni.default_val(), Val::Union(0, Box::new(Val::S64(0))));
    let res = Type::Result(Some(Box::new(Type::U8)), Some(Box::new(Type::String)));
    assert_eq!(res.default_val(), Val::Result(Ok(Some(Box::new(Val::U8(0))))));
    let en = Type::Enum(vec![s("lo"), s("hi")]);
    assert_eq!(en.default_val(), Val::Enum(s("lo")));
}

#[test]
fn descriptor_names() {
    assert_eq!(Type::Bool.desc(), "bool");
    assert_eq!(Type::Float32.desc(), "float32");
    assert_eq!(Type::List(Box::new(Type::U8)).desc(), "list");
    assert_eq!(Type::Flags(vec![]).desc(), "flags");
    assert_eq!(Type::Result(None, None).desc(), "result");
}

#[test]
fn wire_convention() {
    assert_eq!(results_to_json(&vec![]), Json::Obj(vec![]));
    assert_eq!(
        results_to_json(&vec![Val::U32(7)]),
        Json::Obj(vec![(s("result"), unum(7))])
    );
    // a single result of result type is flattened, not re-wrapped
    let rv = Val::Result(Err(Some(Box::new(Val::String(s("bad"))))));
    assert_eq!(
        results_to_json(&vec![rv]),
        Json::Obj(vec![(s("error"), Json::Str(s("bad")))])
    );
    assert_eq!(
        results_to_json(&vec![Val::U32(1), Val::Bool(true)]),
        Json::Obj(vec![(
            s("results"),
            Json::Arr(vec![unum(1), Json::Bool(true)])
        )])
    );
}

#[test]
fn streaming_scalars_and_lists() {
    let v = deserialize_val(&Type::U16, &vec![Token::UInt(500)]).unwrap();
    assert_eq!(v, Val::U16(500));
    let toks = vec![
        Token::ArrStart,
        Token::UInt(1),
        Token::UInt(2),
        Token::ArrEnd,
    ];
    let v = deserialize_val(&Type::List(Box::new(Type::U8)), &toks).unwrap();
    assert_eq!(v, Val::List(vec![Val::U8(1), Val::U8(2)]));
    // byte runs feed byte lists directly
    let v = deserialize_val(
        &Type::List(Box::new(Type::U8)),
        &vec![Token::Bytes(vec![9, 8])],
    )
    .unwrap();
    assert_eq!(v, Val::List(vec![Val::U8(9), Val::U8(8)]));
    // base64 strings are accepted for byte lists
    let v = deserialize_val(&Type::List(Box::new(Type::U8)), &vec![Token::Str(s("AQI="))])
        .unwrap();
    assert_eq!(v, Val::List(vec![Val::U8(1), Val::U8(2)]));
}

#[test]
fn streaming_records_are_strict() {
    let t = Type::Record(vec![(s("x"), Type::U32), (s("y"), Type::Option(Box::new(Type::U32)))]);
    let toks = vec![
        Token::ObjStart,
        Token::Str(s("x")),
        Token::UInt(1),
        Token::ObjEnd,
    ];
    // the missing option field fills from null
    let v = deserialize_val(&t, &toks).unwrap();
    assert_eq!(
        v,
        Val::Record(vec![(s("x"), Val::U32(1)), (s("y"), Val::Option(None))])
    );
    let unknown = vec![
        Token::ObjStart,
        Token::Str(s("z")),
        Token::UInt(1),
        Token::ObjEnd,
    ];
    assert_eq!(
        deserialize_val(&t, &unknown),
        Err(DecodeError::UnknownField(s("z")))
    );
    let trailing = vec![Token::ObjStart, Token::Str(s("x")), Token::UInt(1)];
    assert!(matches!(
        deserialize_val(&t, &trailing),
        Err(DecodeError::TypeMismatch(_))
    ));
}

#[test]
fn streaming_floats_narrow_integer_rule() {
    let v = deserialize_val(&Type::Float64, &vec![Token::SInt(-3)]).unwrap();
    assert_eq!(v, Val::Float64((-3.0f64).to_bits()));
    let v = deserialize_val(&Type::Float32, &vec![Token::UInt(100)]).unwrap();
    assert_eq!(v, Val::Float32(100.0f32.to_bits()));
    // beyond the 16-bit range the widening to float32 is refused
    let r = deserialize_val(&Type::Float32, &vec![Token::UInt(40_000)]);
    assert_eq!(r, Err(DecodeError::OutOfRange(s("float32"))));
    // a NaN float token is normalized to the canonical NaN
    let weird_nan = f64::from_bits(0x7ff8_0000_0000_0001).to_bits();
    let v = deserialize_val(&Type::Float64, &vec![Token::F64(weird_nan)]).unwrap();
    assert_eq!(v, Val::Float64(f64::NAN.to_bits()));
}

fn too_few() -> DecodeError {
    DecodeError::TypeMismatch(s("too few"))
}

fn too_many() -> DecodeError {
    DecodeError::TypeMismatch(s("too many"))
}

#[test]
fn expect_exactly_one_cases() {
    assert_eq!(
        expect_exactly_one(Some(5u32), None, too_few(), too_many()),
        Ok(5)
    );
    assert_eq!(
        expect_exactly_one(None::<u32>, None, too_few(), too_many()),
        Err(too_few())
    );
    assert_eq!(
        expect_exactly_one(Some(1u32), Some(2), too_few(), too_many()),
        Err(too_many())
    );
}

#[test]
fn openapi_document_shape() {
    let doc = SchemaDoc {
        ops: vec![OperationSig {
            name: s("hello"),
            params: vec![(s("who"), Type::String)],
            results: vec![Type::String],
        }],
        n_typedefs: 2,
    };
    let r = build_openapi_doc(&doc);
    let Json::Obj(top) = r else {
        panic!("expected an object")
    };
    assert_eq!(top[0].0, s("openapi"));
    assert_eq!(top[0].1, Json::Str(s("3.1.0")));
    assert_eq!(top[1].0, s("info"));
    let Json::Obj(paths) = &top[2].1 else {
        panic!("expected paths object")
    };
    assert_eq!(paths.len(), 1);
    assert_eq!(paths[0].0, s("/call/hello"));
    let Json::Obj(components) = &top[3].1 else {
        panic!("expected components object")
    };
    let Json::Obj(schemas) = &components[0].1 else {
        panic!("expected schemas object")
    };
    assert_eq!(schemas.len(), 2);
    assert_eq!(schemas[0].0, s("typedef-0"));
    assert_eq!(schemas[1].0, s("typedef-1"));
}

#[test]
fn union_decimal_keys_round_trip() {
    let mut cases = vec![];
    for _ in 0..12 {
        cases.push(Type::U8);
    }
    let t = Type::Union(cases);
    let v = Val::Union(10, Box::new(Val::U8(3)));
    let encoded = component_rpc::val_to_json(&v);
    assert_eq!(encoded, Json::Obj(vec![(s("10"), unum(3))]));
    assert_eq!(json_to_val(&t, &encoded).unwrap(), v);
}
