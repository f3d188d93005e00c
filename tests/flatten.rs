use path_flatten::{key_string, to_hashmap, Error, Number, Value};

fn num(n: &Number) -> f64 {
    match n {
        Number::Signed(v) => *v as f64,
        Number::Unsigned(v) => *v as f64,
        Number::Float(bits) => f64::from_bits(*bits),
        Number::Nan => f64::NAN,
    }
}

fn f32_value(x: f32) -> Value {
    Value::Float(f64::from(x).to_bits())
}

fn s(x: &str) -> String {
    x.to_string()
}

fn record() -> Value {
    Value::Struct(vec![
        (s("int"), Value::Unsigned(1)),
        (s("seq"), Value::Sequence(vec![f32_value(2.), f32_value(3.)])),
    ])
}

fn unit_variant() -> Value {
    Value::UnitVariant(0)
}

fn newtype_variant() -> Value {
    Value::NewtypeVariant(1, Box::new(Value::Unsigned(1)))
}

fn tuple_variant() -> Value {
    Value::TupleVariant(2, vec![Value::Unsigned(1), Value::Unsigned(2)])
}

fn struct_variant() -> Value {
    Value::StructVariant(3, vec![(s("a"), Value::Unsigned(1))])
}

fn outer(b: Value) -> Value {
    Value::Struct(vec![(s("a"), record()), (s("b"), b)])
}

#[test]
fn lib_it_works() {
    let result = 2 + 2;
    assert_eq!(result, 4);
}

#[test]
fn test_struct() {
    let test = record();
    let dict = to_hashmap(&test).unwrap();

    assert_eq!(dict.get("$.int").map(num), Some(1.));
    assert_eq!(dict.get("$.seq[0]").map(num), Some(2.));
    assert_eq!(dict.get("$.seq[1]").map(num), Some(3.));
    assert_eq!(dict.len(), 3);
}

#[test]
fn test_enum() {
    let u = unit_variant();
    let dict = to_hashmap(&u).unwrap();
    assert_eq!(dict.len(), 1);
    assert_eq!(dict.get("$").map(num), Some(0.));

    let n = newtype_variant();
    let dict = to_hashmap(&n).unwrap();
    assert_eq!(dict.len(), 2);
    assert_eq!(dict.get("$").map(num), Some(1.));
    assert_eq!(dict.get("$[0]").map(num), Some(1.));

    let t = tuple_variant();
    let dict = to_hashmap(&t).unwrap();
    assert_eq!(dict.len(), 3);
    assert_eq!(dict.get("$").map(num), Some(2.));
    assert_eq!(dict.get("$[0]").map(num), Some(1.));
    assert_eq!(dict.get("$[1]").map(num), Some(2.));

    let st = struct_variant();
    let dict = to_hashmap(&st).unwrap();
    assert_eq!(dict.len(), 2);
    assert_eq!(dict.get("$").map(num), Some(3.));
    assert_eq!(dict.get("$.a").map(num), Some(1.));
}

#[test]
fn test_nested() {
    let u = outer(unit_variant());
    let dict = to_hashmap(&u).unwrap();
    assert_eq!(dict.len(), 4);
    assert_eq!(dict.get("$.a.int").map(num), Some(1.));
    assert_eq!(dict.get("$.a.seq[0]").map(num), Some(2.));
    assert_eq!(dict.get("$.a.seq[1]").map(num), Some(3.));
    assert_eq!(dict.get("$.b").map(num), Some(0.));

    let n = outer(newtype_variant());
    let dict = to_hashmap(&n).unwrap();
    assert_eq!(dict.len(), 5);
    assert_eq!(dict.get("$.a.int").map(num), Some(1.));
    assert_eq!(dict.get("$.a.seq[0]").map(num), Some(2.));
    assert_eq!(dict.get("$.a.seq[1]").map(num), Some(3.));
    assert_eq!(dict.get("$.b").map(num), Some(1.));
    assert_eq!(dict.get("$.b[0]").map(num), Some(1.));

    let t = outer(tuple_variant());
    let dict = to_hashmap(&t).unwrap();
    assert_eq!(dict.len(), 6);
    assert_eq!(dict.get("$.a.int").map(num), Some(1.));
    assert_eq!(dict.get("$.a.seq[0]").map(num), Some(2.));
    assert_eq!(dict.get("$.a.seq[1]").map(num), Some(3.));
    assert_eq!(dict.get("$.b").map(num), Some(2.));
    assert_eq!(dict.get("$.b[0]").map(num), Some(1.));
    assert_eq!(dict.get("$.b[1]").map(num), Some(2.));

    let st = outer(struct_variant());
    let dict = to_hashmap(&st).unwrap();
    assert_eq!(dict.len(), 5);
    assert_eq!(dict.get("$.a.int").map(num), Some(1.));
    assert_eq!(dict.get("$.a.seq[0]").map(num), Some(2.));
    assert_eq!(dict.get("$.a.seq[1]").map(num), Some(3.));
    assert_eq!(dict.get("$.b").map(num), Some(3.));
    assert_eq!(dict.get("$.b.a").map(num), Some(1.));
}

#[test]
fn numeric_values_never_fail() {
    let v = Value::Tuple(vec![
        Value::Bool(true),
        Value::Bool(false),
        Value::Signed(-7),
        Value::Unsigned(u64::MAX),
        Value::Absent,
        Value::Present(Box::new(Value::Signed(4))),
        Value::Unit,
        Value::UnitStruct,
        Value::NewtypeStruct(Box::new(Value::Unsigned(9))),
    ]);
    let dict = to_hashmap(&v).unwrap();
    assert_eq!(dict.len(), 9);
    assert_eq!(dict.get("$[0]").map(num), Some(1.));
    assert_eq!(dict.get("$[1]").map(num), Some(0.));
    assert_eq!(dict.get("$[2]").map(num), Some(-7.));
    assert_eq!(dict.get("$[3]").map(num), Some(u64::MAX as f64));
    assert!(num(dict.get("$[4]").unwrap()).is_nan());
    assert_eq!(dict.get("$[5]").map(num), Some(4.));
    assert!(num(dict.get("$[6]").unwrap()).is_nan());
    assert!(num(dict.get("$[7]").unwrap()).is_nan());
    assert_eq!(dict.get("$[8]").map(num), Some(9.));
}

#[test]
fn text_leaves_are_unsupported() {
    let in_record = Value::Struct(vec![
        (s("x"), Value::Unsigned(1)),
        (s("name"), Value::Str(s("hello"))),
    ]);
    assert_eq!(to_hashmap(&in_record).unwrap_err(), Error::Unsupported);
    let ch = Value::Sequence(vec![Value::Present(Box::new(Value::Char('c')))]);
    assert_eq!(to_hashmap(&ch).unwrap_err(), Error::Unsupported);
    let bytes = Value::NewtypeVariant(0, Box::new(Value::Bytes(vec![1, 2])));
    assert_eq!(to_hashmap(&bytes).unwrap_err(), Error::Unsupported);
}

#[test]
fn two_calls_agree() {
    let v = outer(tuple_variant());
    let first = to_hashmap(&v).unwrap().into_entries();
    let second = to_hashmap(&v).unwrap().into_entries();
    assert_eq!(first, second);
    assert_eq!(first.len(), 6);
}

#[test]
fn integer_key_is_refused() {
    let v = Value::Mapping(vec![(Value::Signed(1), Value::Unsigned(2))]);
    assert_eq!(to_hashmap(&v).unwrap_err(), Error::KeyNotString);
    assert_eq!(key_string(&Value::Bool(true)).unwrap_err(), Error::KeyNotString);
    assert_eq!(key_string(&Value::Absent).unwrap_err(), Error::KeyNotString);
}

#[test]
fn text_key_is_taken_verbatim() {
    let v = Value::Mapping(vec![
        (Value::Str(s("x.y[0]")), Value::Unsigned(5)),
        (Value::NewtypeStruct(Box::new(Value::Str(s("k")))), Value::Signed(-1)),
    ]);
    let dict = to_hashmap(&v).unwrap();
    assert_eq!(dict.len(), 2);
    assert_eq!(dict.get("$.x.y[0]").map(num), Some(5.));
    assert_eq!(dict.get("$.k").map(num), Some(-1.));
    assert_eq!(key_string(&Value::Str(s("a.b"))).unwrap(), "a.b");
}

#[test]
fn repeated_key_overwrites() {
    let v = Value::Mapping(vec![
        (Value::Str(s("k")), Value::Unsigned(1)),
        (Value::Str(s("k")), Value::Unsigned(2)),
    ]);
    let dict = to_hashmap(&v).unwrap();
    assert_eq!(dict.len(), 1);
    assert_eq!(dict.get("$.k").map(num), Some(2.));
}

#[test]
fn floats_pass_through() {
    let v = Value::Sequence(vec![
        Value::Float(f64::INFINITY.to_bits()),
        Value::Float(f64::NAN.to_bits()),
        Value::Float((-0.5f64).to_bits()),
    ]);
    let dict = to_hashmap(&v).unwrap();
    assert_eq!(dict.get("$[0]").map(num), Some(f64::INFINITY));
    assert!(num(dict.get("$[1]").unwrap()).is_nan());
    assert_eq!(dict.get("$[2]").map(num), Some(-0.5));
}

#[test]
fn long_sequence_indices() {
    let items: Vec<Value> = (0..12u64).map(Value::Unsigned).collect();
    let dict = to_hashmap(&Value::Sequence(items)).unwrap();
    assert_eq!(dict.len(), 12);
    assert_eq!(dict.get("$[10]").map(num), Some(10.));
    assert_eq!(dict.get("$[11]").map(num), Some(11.));
    assert_eq!(dict.get("$[12]"), None);
}

#[test]
fn nested_sequences_keep_their_indices() {
    let v = Value::Sequence(vec![
        Value::Sequence(vec![Value::Unsigned(1), Value::Unsigned(2)]),
        Value::Unsigned(3),
    ]);
    let dict = to_hashmap(&v).unwrap();
    assert_eq!(dict.len(), 3);
    assert_eq!(dict.get("$[0][0]").map(num), Some(1.));
    assert_eq!(dict.get("$[0][1]").map(num), Some(2.));
    assert_eq!(dict.get("$[1]").map(num), Some(3.));
}

#[test]
fn reported_failure_is_a_message() {
    let v = Value::Struct(vec![
        (s("ok"), Value::Unsigned(1)),
        (s("bad"), Value::Failed(s("boom"))),
        (s("text"), Value::Str(s("later"))),
    ]);
    assert_eq!(to_hashmap(&v).unwrap_err(), Error::Message(s("boom")));
}

#[test]
fn first_error_wins() {
    let v = Value::Sequence(vec![
        Value::Str(s("first")),
        Value::Mapping(vec![(Value::Unsigned(0), Value::Unit)]),
    ]);
    assert_eq!(to_hashmap(&v).unwrap_err(), Error::Unsupported);
}

#[test]
fn empty_compounds_write_nothing() {
    let dict = to_hashmap(&Value::Struct(Vec::new())).unwrap();
    assert_eq!(dict.len(), 0);
    let dict = to_hashmap(&Value::Mapping(Vec::new())).unwrap();
    assert_eq!(dict.len(), 0);
}
