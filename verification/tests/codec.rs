use component_rpc::{json_to_val, val_to_json, DecodeError, Json, JsonNum, Type, Val, ValSerialize};

fn s(x: &str) -> String {
    x.to_string()
}

fn unum(n: u64) -> Json {
    Json::Num(JsonNum::UInt(n))
}

fn inum(n: i64) -> Json {
    Json::Num(JsonNum::Int(n))
}

#[test]
fn simple_types_to_json() {
    for (val, want) in [
        (Val::Bool(true), Json::Bool(true)),
        (Val::U8(200), unum(200)),
        (Val::U16(0xffff), unum(65535)),
        (Val::U32(12345678), unum(12345678)),
        (Val::U64(0xffffffff), unum(4294967295u64)),
        (Val::S8(-100), inum(-100)),
        (Val::S16(-0x7ffe), inum(-32766)),
        (Val::S32(12345678), unum(12345678)),
        (Val::S64(-0x7ffffffe), inum(-2147483646)),
        (Val::Char('☃'), Json::Str(s("☃"))),
        (Val::String(s("abracadabra")), Json::Str(s("abracadabra"))),
    ] {
        let got = val.serialize();
        assert_eq!(got, want, "val: {val:?}");
    }
}

#[test]
fn float64_specials_round_trip() {
    let nan = Val::Float64(f64::NAN.to_bits());
    let encoded = val_to_json(&nan);
    assert_eq!(encoded, Json::Str(s("NaN")));
    let back = json_to_val(&Type::Float64, &encoded).unwrap();
    match back {
        Val::Float64(bits) => assert!(f64::from_bits(bits).is_nan()),
        other => panic!("expected a float64, got {other:?}"),
    }
    let inf = json_to_val(&Type::Float64, &Json::Str(s("Infinity"))).unwrap();
    assert_eq!(inf, Val::Float64(f64::INFINITY.to_bits()));
    let ninf = json_to_val(&Type::Float64, &Json::Str(s("-Infinity"))).unwrap();
    assert_eq!(ninf, Val::Float64(f64::NEG_INFINITY.to_bits()));
}

#[test]
fn float32_exact_values() {
    let v = Val::Float32(2.5f32.to_bits());
    let encoded = val_to_json(&v);
    assert_eq!(encoded, Json::Num(JsonNum::F32(2.5f32.to_bits())));
    let back = json_to_val(&Type::Float32, &encoded).unwrap();
    assert_eq!(back, v);
    // an exactly representable double narrows, an inexact one is refused
    let narrowed = json_to_val(&Type::Float32, &Json::Num(JsonNum::F64(2.5f64.to_bits())));
    assert_eq!(narrowed.unwrap(), v);
    let inexact = json_to_val(&Type::Float32, &Json::Num(JsonNum::F64(0.1f64.to_bits())));
    assert!(matches!(inexact, Err(DecodeError::OutOfRange(_))));
    // small integers widen exactly
    let from_int = json_to_val(&Type::Float64, &inum(-7)).unwrap();
    assert_eq!(from_int, Val::Float64((-7.0f64).to_bits()));
    let from_int32 = json_to_val(&Type::Float32, &unum(300)).unwrap();
    assert_eq!(from_int32, Val::Float32(300.0f32.to_bits()));
}

fn xy_record() -> Type {
    Type::Record(vec![(s("x"), Type::U32), (s("y"), Type::U32)])
}

#[test]
fn record_field_handling() {
    let t = xy_record();
    let input = Json::Obj(vec![(s("x"), unum(1)), (s("y"), unum(2))]);
    let v = json_to_val(&t, &input).unwrap();
    assert_eq!(
        v,
        Val::Record(vec![(s("x"), Val::U32(1)), (s("y"), Val::U32(2))])
    );
    assert_eq!(val_to_json(&v), input);

    let missing = Json::Obj(vec![(s("x"), unum(1))]);
    let r = json_to_val(&t, &missing);
    assert_eq!(r, Err(DecodeError::TypeMismatch(s("u32"))));
}

#[test]
fn record_field_order_irrelevant_unknown_rejected() {
    let t = xy_record();
    let swapped = Json::Obj(vec![(s("y"), unum(2)), (s("x"), unum(1))]);
    let v = json_to_val(&t, &swapped).unwrap();
    assert_eq!(
        v,
        Val::Record(vec![(s("x"), Val::U32(1)), (s("y"), Val::U32(2))])
    );
    let unknown = Json::Obj(vec![(s("x"), unum(1)), (s("z"), unum(3)), (s("y"), unum(2))]);
    assert_eq!(
        json_to_val(&t, &unknown),
        Err(DecodeError::UnknownField(s("z")))
    );
    let dup = Json::Obj(vec![(s("x"), unum(1)), (s("x"), unum(5)), (s("y"), unum(2))]);
    assert_eq!(json_to_val(&t, &dup), Err(DecodeError::UnknownField(s("x"))));
}

fn ok_fail_variant() -> Type {
    Type::Variant(vec![(s("ok"), Some(Type::U32)), (s("fail"), Some(Type::String))])
}

#[test]
fn variant_convention() {
    let t = ok_fail_variant();
    let v = json_to_val(&t, &Json::Obj(vec![(s("ok"), unum(5))])).unwrap();
    assert_eq!(v, Val::Variant(s("ok"), Some(Box::new(Val::U32(5)))));
    assert_eq!(
        val_to_json(&v),
        Json::Obj(vec![(s("ok"), unum(5))])
    );

    let bogus = json_to_val(&t, &Json::Obj(vec![(s("bogus"), unum(5))]));
    assert_eq!(bogus, Err(DecodeError::UnknownCase(s("bogus"))));

    let empty = json_to_val(&t, &Json::Obj(vec![]));
    assert_eq!(empty, Err(DecodeError::ArityMismatch(1, 0)));

    let two = json_to_val(
        &t,
        &Json::Obj(vec![(s("ok"), unum(5)), (s("fail"), Json::Str(s("x")))]),
    );
    assert_eq!(two, Err(DecodeError::ArityMismatch(1, 2)));
}

#[test]
fn result_convention() {
    let t = Type::Result(Some(Box::new(Type::U32)), Some(Box::new(Type::String)));
    let input = Json::Obj(vec![(s("error"), Json::Str(s("bad")))]);
    let v = json_to_val(&t, &input).unwrap();
    assert_eq!(
        v,
        Val::Result(Err(Some(Box::new(Val::String(s("bad"))))))
    );
    assert_eq!(val_to_json(&v), input);

    let ok = json_to_val(&t, &Json::Obj(vec![(s("result"), unum(3))])).unwrap();
    assert_eq!(ok, Val::Result(Ok(Some(Box::new(Val::U32(3))))));

    let other = json_to_val(&t, &Json::Obj(vec![(s("oops"), unum(3))]));
    assert_eq!(other, Err(DecodeError::UnknownCase(s("oops"))));
}

#[test]
fn option_convention() {
    let t = Type::Option(Box::new(Type::String));
    let none = json_to_val(&t, &Json::Null).unwrap();
    assert_eq!(none, Val::Option(None));
    assert_eq!(val_to_json(&none), Json::Null);

    let some = json_to_val(&t, &Json::Str(s("hi"))).unwrap();
    assert_eq!(some, Val::Option(Some(Box::new(Val::String(s("hi"))))));
    assert_eq!(val_to_json(&some), Json::Str(s("hi")));
}

#[test]
fn tuple_arity() {
    let t = Type::Tuple(vec![Type::U32, Type::U32]);
    let r = json_to_val(&t, &Json::Arr(vec![unum(1), unum(2), unum(3)]));
    assert_eq!(r, Err(DecodeError::ArityMismatch(2, 3)));
    let v = json_to_val(&t, &Json::Arr(vec![unum(1), unum(2)])).unwrap();
    assert_eq!(v, Val::Tuple(vec![Val::U32(1), Val::U32(2)]));
}

#[test]
fn flags_membership() {
    let t = Type::Flags(vec![s("a"), s("b")]);
    let r = json_to_val(&t, &Json::Arr(vec![Json::Str(s("a")), Json::Str(s("c"))]));
    assert_eq!(r, Err(DecodeError::UnknownFlag(s("c"))));

    // order is irrelevant and duplicates collapse; the result is canonical
    let v = json_to_val(
        &t,
        &Json::Arr(vec![Json::Str(s("b")), Json::Str(s("a")), Json::Str(s("b"))]),
    )
    .unwrap();
    assert_eq!(v, Val::Flags(vec![s("a"), s("b")]));
    assert_eq!(
        val_to_json(&v),
        Json::Arr(vec![Json::Str(s("a")), Json::Str(s("b"))])
    );
}

#[test]
fn union_convention() {
    let t = Type::Union(vec![Type::U32, Type::String]);
    let v = json_to_val(&t, &Json::Obj(vec![(s("1"), Json::Str(s("w")))])).unwrap();
    assert_eq!(v, Val::Union(1, Box::new(Val::String(s("w")))));
    assert_eq!(val_to_json(&v), Json::Obj(vec![(s("1"), Json::Str(s("w")))]));

    let bad_key = json_to_val(&t, &Json::Obj(vec![(s("x"), unum(0))]));
    assert_eq!(bad_key, Err(DecodeError::MalformedKey(s("x"))));
    let out_of_bounds = json_to_val(&t, &Json::Obj(vec![(s("7"), unum(0))]));
    assert_eq!(out_of_bounds, Err(DecodeError::MalformedKey(s("7"))));
}

#[test]
fn enum_convention() {
    let t = Type::Enum(vec![s("red"), s("green")]);
    let v = json_to_val(&t, &Json::Str(s("green"))).unwrap();
    assert_eq!(v, Val::Enum(s("green")));
    assert_eq!(val_to_json(&v), Json::Str(s("green")));
    let unknown = json_to_val(&t, &Json::Str(s("blue")));
    assert_eq!(unknown, Err(DecodeError::UnknownCase(s("blue"))));
    let not_str = json_to_val(&t, &unum(0));
    assert_eq!(not_str, Err(DecodeError::TypeMismatch(s("enum"))));
}

#[test]
fn numeric_range_checks() {
    assert_eq!(json_to_val(&Type::U8, &unum(255)).unwrap(), Val::U8(255));
    assert_eq!(
        json_to_val(&Type::U8, &unum(256)),
        Err(DecodeError::OutOfRange(s("u8")))
    );
    assert_eq!(
        json_to_val(&Type::U16, &inum(-1)),
        Err(DecodeError::OutOfRange(s("u16")))
    );
    assert_eq!(json_to_val(&Type::S8, &inum(-128)).unwrap(), Val::S8(-128));
    assert_eq!(
        json_to_val(&Type::S8, &inum(-129)),
        Err(DecodeError::OutOfRange(s("s8")))
    );
    assert_eq!(
        json_to_val(&Type::U32, &Json::Num(JsonNum::F64(1.5f64.to_bits()))),
        Err(DecodeError::TypeMismatch(s("u32")))
    );
    assert_eq!(
        json_to_val(&Type::Bool, &unum(1)),
        Err(DecodeError::TypeMismatch(s("bool")))
    );
}

#[test]
fn byte_list_accepts_base64() {
    let t = Type::List(Box::new(Type::U8));
    let v = json_to_val(&t, &Json::Str(s("AQI="))).unwrap();
    assert_eq!(v, Val::List(vec![Val::U8(1), Val::U8(2)]));
    let bad = json_to_val(&t, &Json::Str(s("!!!not base64!!!")));
    assert_eq!(bad, Err(DecodeError::TypeMismatch(s("list"))));
    // a list of any other element type does not take strings
    let t2 = Type::List(Box::new(Type::U16));
    let r = json_to_val(&t2, &Json::Str(s("AQI=")));
    assert_eq!(r, Err(DecodeError::TypeMismatch(s("list"))));
}

#[test]
fn nested_round_trip() {
    let t = Type::Record(vec![
        (s("who"), Type::String),
        (s("tags"), Type::Flags(vec![s("a"), s("b"), s("c")])),
        (s("pick"), Type::Variant(vec![(s("none"), None), (s("some"), Some(Type::U64))])),
        (s("pair"), Type::Tuple(vec![Type::Char, Type::S32])),
        (s("maybe"), Type::Option(Box::new(Type::Bool))),
    ]);
    let v = Val::Record(vec![
        (s("who"), Val::String(s("moon"))),
        (s("tags"), Val::Flags(vec![s("a"), s("c")])),
        (s("pick"), Val::Variant(s("some"), Some(Box::new(Val::U64(9_007_199_254_740_993))))),
        (s("pair"), Val::Tuple(vec![Val::Char('é'), Val::S32(-5)])),
        (s("maybe"), Val::Option(Some(Box::new(Val::Bool(false))))),
    ]);
    let encoded = val_to_json(&v);
    let back = json_to_val(&t, &encoded).unwrap();
    assert_eq!(back, v);
}

#[test]
fn char_decoding() {
    assert_eq!(
        json_to_val(&Type::Char, &Json::Str(s("é"))).unwrap(),
        Val::Char('é')
    );
    assert_eq!(
        json_to_val(&Type::Char, &Json::Str(s(""))),
        Err(DecodeError::TypeMismatch(s("char")))
    );
    assert_eq!(
        json_to_val(&Type::Char, &Json::Str(s("ab"))),
        Err(DecodeError::TypeMismatch(s("char")))
    );
}
