use tag_registry::capability::{SamplerConfig, TransformConfig};
use tag_registry::dispatch::{conclude, deserialize, select};
use tag_registry::error::{DispatchError, Error};
use tag_registry::registry::Registry;
use tag_registry::value::{Kind, Value};

type Built = Result<Box<dyn TransformConfig>, String>;

type Constructor = fn(Value) -> Built;

fn text(s: &str) -> Value {
    Value::Str(String::from(s))
}

fn mapping(entries: Vec<(&str, Value)>) -> Value {
    Value::Mapping(entries.into_iter().map(|(key, value)| (text(key), value)).collect())
}

fn field<'a>(payload: &'a Value, name: &str) -> Option<&'a Value> {
    match payload {
        Value::Mapping(entries) => {
            entries.iter().find(|(key, _)| *key == text(name)).map(|(_, value)| value)
        }
        _ => None,
    }
}

fn sampler(payload: Value) -> Built {
    match field(&payload, "num") {
        Some(Value::Int(num)) if *num >= 0 => Ok(Box::new(SamplerConfig { num: *num as usize })),
        Some(_) => Err(String::from("invalid type for `num`")),
        None => Err(String::from("missing field `num`")),
    }
}

fn doubler(payload: Value) -> Built {
    match field(&payload, "num") {
        Some(Value::Int(num)) => Ok(Box::new(SamplerConfig { num: 2 * (*num as usize) })),
        _ => Err(String::from("missing field `num`")),
    }
}

fn strict(payload: Value) -> Built {
    match payload {
        Value::Mapping(entries) if entries.is_empty() => Ok(Box::new(SamplerConfig { num: 0 })),
        _ => Err(String::from("unknown field")),
    }
}

fn registry() -> Registry<Constructor> {
    Registry::build(vec![<dyn TransformConfig>::register("sampler", sampler as Constructor)])
}

fn parse(doc: Value, registry: &Registry<Constructor>) -> Result<usize, Error<String>> {
    deserialize(doc, "TransformConfig", "type", registry).map(|config| config.build())
}

fn dispatch_error(doc: Value, registry: &Registry<Constructor>) -> DispatchError {
    match parse(doc, registry) {
        Err(Error::Dispatch(error)) => error,
        other => panic!("no dispatch error: {:?}", other),
    }
}

#[test]
fn internally_tagged_happy_path() {
    let doc = mapping(vec![("type", text("sampler")), ("num", Value::Int(7))]);
    assert_eq!(parse(doc, &registry()), Ok(7));
}

#[test]
fn externally_tagged_happy_path() {
    let doc = mapping(vec![("sampler", mapping(vec![("num", Value::Int(3))]))]);
    assert_eq!(parse(doc, &registry()), Ok(3));
}

#[test]
fn unknown_tag() {
    let doc = mapping(vec![("type", text("nope"))]);
    let error = dispatch_error(doc, &registry());
    assert_eq!(
        error,
        DispatchError::UnknownTag { tag: String::from("nope"), expected: vec!["sampler"] }
    );
    assert!(error.message().contains("sampler"));
    assert_eq!(error.message(), "unknown variant `nope`, expected one of `sampler`");
}

#[test]
fn missing_discriminator() {
    let doc = mapping(vec![("num", Value::Int(1))]);
    let error = dispatch_error(doc, &registry());
    assert_eq!(error, DispatchError::MissingDiscriminator { discriminator: String::from("type") });
    assert!(error.message().contains("type"));
    assert_eq!(error.message(), "missing field `type`");
}

#[test]
fn duplicate_registration() {
    let registry = Registry::build(vec![
        <dyn TransformConfig>::register("sampler", sampler as Constructor),
        <dyn TransformConfig>::register("sampler", doubler as Constructor),
    ]);
    let doc = mapping(vec![("type", text("sampler")), ("num", Value::Int(1))]);
    let error = dispatch_error(doc, &registry);
    assert_eq!(
        error,
        DispatchError::DuplicateTag {
            tag: String::from("sampler"),
            capability: String::from("TransformConfig"),
        }
    );
    assert!(error.message().contains("sampler"));
    assert_eq!(error.message(), "`sampler` is registered multiple times as TransformConfig");
}

#[test]
fn discriminator_after_payload() {
    let doc = mapping(vec![("num", Value::Int(9)), ("type", text("sampler"))]);
    assert_eq!(parse(doc, &registry()), Ok(9));
}

#[test]
fn the_capability_reads_the_tag_from_the_field_type() {
    let doc = mapping(vec![("type", text("sampler")), ("num", Value::Int(7))]);
    let built: Result<Box<dyn TransformConfig>, Error<String>> =
        <dyn TransformConfig>::deserialize(doc, &registry());
    assert_eq!(built.map(|config| config.build()), Ok(7));
    let doc = mapping(vec![("kind", text("sampler")), ("num", Value::Int(7))]);
    let built: Result<Box<dyn TransformConfig>, Error<String>> =
        <dyn TransformConfig>::deserialize(doc, &registry());
    assert_eq!(
        built.map(|config| config.build()),
        Err(Error::Dispatch(DispatchError::MissingDiscriminator {
            discriminator: String::from("type"),
        }))
    );
}

#[test]
fn the_discriminator_can_be_given_another_name() {
    let doc = mapping(vec![("num", Value::Int(4)), ("kind", text("sampler"))]);
    let built: Result<Box<dyn TransformConfig>, Error<String>> =
        deserialize(doc, "TransformConfig", "kind", &registry());
    assert_eq!(built.map(|config| config.build()), Ok(4));
}

#[test]
fn a_document_that_is_no_mapping_is_refused() {
    let registry = registry();
    let cases = vec![
        (Value::Null, Kind::Null, "expected TransformConfig as map, got null"),
        (Value::Bool(true), Kind::Bool, "expected TransformConfig as map, got boolean"),
        (Value::Int(5), Kind::Int, "expected TransformConfig as map, got integer"),
        (Value::Float(2.5f64.to_bits()), Kind::Float, "expected TransformConfig as map, got float"),
        (text("sampler"), Kind::Str, "expected TransformConfig as map, got string"),
        (
            Value::Sequence(vec![text("sampler")]),
            Kind::Sequence,
            "expected TransformConfig as map, got sequence",
        ),
    ];
    for (doc, found, message) in cases {
        let error = dispatch_error(doc, &registry);
        assert_eq!(
            error,
            DispatchError::Shape { capability: String::from("TransformConfig"), found }
        );
        assert_eq!(error.message(), message);
    }
}

#[test]
fn an_empty_mapping_misses_the_discriminator() {
    let error = dispatch_error(Value::Mapping(vec![]), &registry());
    assert_eq!(error, DispatchError::MissingDiscriminator { discriminator: String::from("type") });
}

#[test]
fn several_fields_without_a_discriminator_miss_it() {
    let doc = mapping(vec![
        ("sampler", mapping(vec![("num", Value::Int(3))])),
        ("num", Value::Int(1)),
    ]);
    let error = dispatch_error(doc, &registry());
    assert_eq!(error, DispatchError::MissingDiscriminator { discriminator: String::from("type") });
}

#[test]
fn a_discriminator_that_is_no_string_is_refused() {
    let registry = registry();
    let cases = vec![
        (Value::Int(1), Kind::Int, "invalid type: expected string, found integer"),
        (Value::Null, Kind::Null, "invalid type: expected string, found null"),
        (Value::Bool(false), Kind::Bool, "invalid type: expected string, found boolean"),
        (Value::Mapping(vec![]), Kind::Mapping, "invalid type: expected string, found map"),
        (Value::Sequence(vec![]), Kind::Sequence, "invalid type: expected string, found sequence"),
    ];
    for (tag, found, message) in cases {
        let doc = mapping(vec![("type", tag), ("num", Value::Int(1))]);
        let error = dispatch_error(doc, &registry);
        assert_eq!(error, DispatchError::BadDiscriminatorType { found });
        assert_eq!(error.message(), message);
    }
}

#[test]
fn a_key_that_is_no_string_cannot_name_the_tag() {
    let doc = Value::Mapping(vec![(Value::Int(1), mapping(vec![("num", Value::Int(3))]))]);
    let error = dispatch_error(doc, &registry());
    assert_eq!(error, DispatchError::BadDiscriminatorType { found: Kind::Int });
    assert_eq!(error.message(), "invalid type: expected string, found integer");
}

#[test]
fn a_key_that_is_no_string_is_a_field_like_any_other() {
    let doc = Value::Mapping(vec![
        (Value::Int(1), Value::Int(2)),
        (text("type"), text("sampler")),
        (text("num"), Value::Int(5)),
    ]);
    let registry = registry();
    let chosen = select(doc, "TransformConfig", "type", &registry).unwrap();
    assert_eq!(
        chosen.payload,
        Value::Mapping(vec![(Value::Int(1), Value::Int(2)), (text("num"), Value::Int(5))])
    );
}

#[test]
fn an_unknown_tag_is_refused_in_an_externally_tagged_document_too() {
    let doc = mapping(vec![("nope", mapping(vec![("num", Value::Int(3))]))]);
    let error = dispatch_error(doc, &registry());
    assert_eq!(
        error,
        DispatchError::UnknownTag { tag: String::from("nope"), expected: vec!["sampler"] }
    );
}

#[test]
fn the_unknown_tag_message_lists_every_name_in_order() {
    let registry = Registry::build(vec![
        <dyn TransformConfig>::register("sampler", sampler as Constructor),
        <dyn TransformConfig>::register("doubler", doubler as Constructor),
        <dyn TransformConfig>::register("strict", strict as Constructor),
        <dyn TransformConfig>::register("doubler", sampler as Constructor),
    ]);
    let doc = mapping(vec![("type", text("nope"))]);
    let error = dispatch_error(doc, &registry);
    assert_eq!(
        error,
        DispatchError::UnknownTag {
            tag: String::from("nope"),
            expected: vec!["doubler", "sampler", "strict"],
        }
    );
    assert_eq!(
        error.message(),
        "unknown variant `nope`, expected one of `doubler`, `sampler`, `strict`"
    );
}

#[test]
fn the_unknown_tag_message_of_an_empty_registry_lists_nothing() {
    let registry: Registry<Constructor> = Registry::build(Vec::new());
    let doc = mapping(vec![("type", text("sampler"))]);
    let error = dispatch_error(doc, &registry);
    assert_eq!(
        error,
        DispatchError::UnknownTag { tag: String::from("sampler"), expected: vec![] }
    );
    assert_eq!(error.message(), "unknown variant `sampler`, expected one of ");
}

#[test]
fn the_first_discriminator_wins() {
    let doc = mapping(vec![
        ("type", text("sampler")),
        ("num", Value::Int(2)),
        ("type", text("nope")),
    ]);
    let registry = registry();
    let chosen = select(doc, "TransformConfig", "type", &registry).unwrap();
    assert_eq!(
        chosen.payload,
        mapping(vec![("num", Value::Int(2)), ("type", text("nope"))])
    );
    let doc = mapping(vec![
        ("type", text("nope")),
        ("num", Value::Int(2)),
        ("type", text("sampler")),
    ]);
    let error = dispatch_error(doc, &registry);
    assert_eq!(
        error,
        DispatchError::UnknownTag { tag: String::from("nope"), expected: vec!["sampler"] }
    );
}

#[test]
fn the_second_discriminator_reaches_the_constructor() {
    let registry =
        Registry::build(vec![<dyn TransformConfig>::register("strict", strict as Constructor)]);
    let doc = mapping(vec![("type", text("strict"))]);
    assert_eq!(parse(doc, &registry), Ok(0));
    let doc = mapping(vec![("type", text("strict")), ("type", text("strict"))]);
    assert_eq!(parse(doc, &registry), Err(Error::Payload(String::from("unknown field"))));
}

#[test]
fn the_payload_keeps_the_order_of_the_fields() {
    let doc = mapping(vec![
        ("c", Value::Int(1)),
        ("a", Value::Int(2)),
        ("type", text("sampler")),
        ("b", Value::Int(3)),
        ("num", Value::Int(4)),
    ]);
    let registry = registry();
    let chosen = select(doc, "TransformConfig", "type", &registry).unwrap();
    assert_eq!(
        chosen.payload,
        mapping(vec![
            ("c", Value::Int(1)),
            ("a", Value::Int(2)),
            ("b", Value::Int(3)),
            ("num", Value::Int(4)),
        ])
    );
    assert_eq!((chosen.constructor)(chosen.payload).map(|config| config.build()), Ok(4));
}

#[test]
fn the_payload_of_an_externally_tagged_document_is_the_mapping_held() {
    let inner = vec![("num", Value::Int(3)), ("type", text("ignored")), ("x", Value::Null)];
    let doc = mapping(vec![("sampler", mapping(inner.clone()))]);
    let registry = registry();
    let chosen = select(doc, "TransformConfig", "type", &registry).unwrap();
    assert_eq!(chosen.payload, mapping(inner));
}

#[test]
fn a_single_entry_under_the_discriminator_has_an_empty_payload() {
    let doc = mapping(vec![("type", text("sampler"))]);
    let registry = registry();
    let chosen = select(doc, "TransformConfig", "type", &registry).unwrap();
    assert_eq!(chosen.payload, Value::Mapping(vec![]));
    let doc = mapping(vec![("type", text("sampler"))]);
    assert_eq!(parse(doc, &registry), Err(Error::Payload(String::from("missing field `num`"))));
}

#[test]
fn a_discriminator_that_holds_a_mapping_is_no_external_tag() {
    let doc = mapping(vec![("type", mapping(vec![("num", Value::Int(3))]))]);
    let error = dispatch_error(doc, &registry());
    assert_eq!(error, DispatchError::BadDiscriminatorType { found: Kind::Mapping });
}

#[test]
fn the_error_of_the_constructor_is_handed_on_unchanged() {
    let doc = mapping(vec![("type", text("sampler")), ("num", text("seven"))]);
    assert_eq!(
        parse(doc, &registry()),
        Err(Error::Payload(String::from("invalid type for `num`")))
    );
    assert_eq!(
        conclude::<u8, String>(Err(String::from("e"))),
        Err(Error::Payload(String::from("e")))
    );
    assert_eq!(conclude::<u8, String>(Ok(3)), Ok(3));
}

#[test]
fn parsing_is_calling_the_constructor_on_the_payload() {
    let payloads = vec![
        vec![("num", Value::Int(0))],
        vec![("num", Value::Int(7)), ("extra", Value::Bool(true))],
        vec![("extra", Value::Null), ("num", Value::Int(41))],
        vec![("num", text("seven"))],
        vec![],
    ];
    let registry = registry();
    for payload in payloads {
        let direct = sampler(mapping(payload.clone())).map(|config| config.build());
        let mut fields = vec![("type", text("sampler"))];
        fields.extend(payload);
        let parsed = parse(mapping(fields), &registry);
        match direct {
            Ok(built) => assert_eq!(parsed, Ok(built)),
            Err(error) => assert_eq!(parsed, Err(Error::Payload(error))),
        }
    }
}

#[test]
fn the_order_of_the_fields_does_not_change_the_value() {
    let registry = registry();
    let orders = vec![
        vec!["type", "num", "a", "b"],
        vec!["num", "type", "a", "b"],
        vec!["b", "a", "num", "type"],
        vec!["a", "type", "b", "num"],
        vec!["b", "num", "a", "type"],
    ];
    for order in orders {
        let fields = order
            .into_iter()
            .map(|key| match key {
                "type" => (key, text("sampler")),
                "num" => (key, Value::Int(12)),
                "a" => (key, Value::Bool(true)),
                _ => (key, Value::Null),
            })
            .collect();
        assert_eq!(parse(mapping(fields), &registry), Ok(12));
    }
}

#[test]
fn a_failed_parse_leaves_the_registry_as_it_was() {
    let registry = registry();
    assert!(parse(mapping(vec![("type", text("nope"))]), &registry).is_err());
    assert!(parse(Value::Null, &registry).is_err());
    assert_eq!(registry.names(), &vec!["sampler"]);
    let doc = mapping(vec![("type", text("sampler")), ("num", Value::Int(7))]);
    assert_eq!(parse(doc, &registry), Ok(7));
}

#[test]
fn a_tag_is_looked_up_as_it_is_written() {
    let registry = registry();
    for tag in ["Sampler", "sampler ", "sample", "samplers", ""] {
        let doc = mapping(vec![("type", text(tag)), ("num", Value::Int(1))]);
        let error = dispatch_error(doc, &registry);
        assert_eq!(
            error,
            DispatchError::UnknownTag { tag: String::from(tag), expected: vec!["sampler"] }
        );
    }
}
