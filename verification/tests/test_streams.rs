use json_serializer::json::{
    deserialize_json, eval, is_well_formed, selects, serialize_json,
};
use json_serializer::types::{Accessor, Json, Receiver, Sender, JC};
use json_serializer::utils::{clone_json_stream, consume_json_stream};

fn num(x: f64) -> Json {
    Json::Number(x.to_bits())
}

fn text(s: &str) -> Json {
    Json::String(s.to_string())
}

fn object(members: Vec<(&str, Json)>) -> Json {
    Json::Object(members.into_iter().map(|(k, v)| (k.to_string(), v)).collect())
}

fn stream_of(value: &Json) -> Receiver {
    let mut sender = Sender::new();
    serialize_json(value, &mut sender);
    sender.into_receiver()
}

fn roundtrip(value: &Json) -> Json {
    deserialize_json(stream_of(value))
}

fn member(key: &str, value: &Json) -> JC {
    let mut sender = Sender::new();
    sender.send(JC::String(key.to_string()));
    serialize_json(value, &mut sender);
    JC::Element(sender.into_receiver())
}

fn query(value: &Json, accessor: &Accessor) -> Json {
    let mut out = Sender::new();
    eval(accessor, stream_of(value), &mut out);
    deserialize_json(out.into_receiver())
}

fn field(name: &str, next: Accessor) -> Accessor {
    Accessor::Field(name.to_string(), Box::new(next))
}

fn sample() -> Json {
    object(vec![
        ("name", text("Jason Ray")),
        ("age", num(31.0)),
        ("languages", Json::Array(vec![text("Java"), text("Node.js")])),
        (
            "socialProfiles",
            Json::Array(vec![
                object(vec![("name", text("Twitter")), ("link", text("https://twitter.com"))]),
                object(vec![("name", text("Facebook")), ("link", text("https://www.facebook.com"))]),
            ]),
        ),
        ("address", object(vec![("city", text("New York")), ("postalCode", num(64780.0))])),
    ])
}

#[test]
fn roundtrip_scalars() {
    for value in [
        Json::Null,
        Json::Bool(false),
        Json::Bool(true),
        num(0.0),
        num(-0.0),
        num(1.5e300),
        text(""),
        text("héllo \u{1F600}"),
    ] {
        assert_eq!(roundtrip(&value), value);
    }
}

#[test]
fn roundtrip_numbers_keep_their_bits() {
    for x in [-0.0f64, f64::NAN, f64::INFINITY] {
        match roundtrip(&num(x)) {
            Json::Number(bits) => assert_eq!(bits, x.to_bits()),
            _ => panic!("expected a number"),
        }
    }
}

#[test]
fn numbers_compare_as_doubles() {
    assert_eq!(num(-0.0), num(0.0));
    assert_ne!(num(f64::NAN), num(f64::NAN));
    assert_ne!(roundtrip(&num(f64::NAN)), num(f64::NAN));
    assert_ne!(num(1.0), num(2.0));
    assert_eq!(num(2.5), num(2.5));
}

#[test]
fn objects_compare_as_maps() {
    let a = object(vec![("x", num(1.0)), ("y", text("v"))]);
    let b = object(vec![("y", text("v")), ("x", num(1.0))]);
    assert_eq!(a, b);
    assert_ne!(a, object(vec![("x", num(1.0))]));
    assert_ne!(a, object(vec![("x", num(1.0)), ("z", text("v"))]));
    assert_ne!(a, object(vec![("x", num(2.0)), ("y", text("v"))]));
    assert_ne!(Json::Array(vec![a.clone()]), Json::Array(vec![]));
    assert_eq!(Json::Array(vec![a.clone()]), Json::Array(vec![b]));
    assert_ne!(Json::Null, Json::Bool(false));
}

#[test]
fn roundtrip_empty_and_nested_containers() {
    let value = Json::Array(vec![
        Json::Array(vec![]),
        object(vec![]),
        object(vec![("a", Json::Array(vec![object(vec![("b", Json::Null)])]))]),
    ]);
    assert_eq!(roundtrip(&value), value);
    assert_eq!(roundtrip(&sample()), sample());
}

#[test]
fn serialized_array_has_one_element_stream_per_item() {
    let mut receiver = stream_of(&Json::Array(vec![Json::Null, Json::Bool(true)]));
    assert!(matches!(receiver.recv(), Some(JC::BeginArray)));
    match receiver.recv() {
        Some(JC::Element(mut element)) => {
            assert!(matches!(element.recv(), Some(JC::Null)));
            assert!(element.recv().is_none());
        }
        _ => panic!("expected an element"),
    }
    match receiver.recv() {
        Some(JC::Element(mut element)) => {
            assert!(matches!(element.recv(), Some(JC::Bool(true))));
            assert!(element.recv().is_none());
        }
        _ => panic!("expected an element"),
    }
    assert!(matches!(receiver.recv(), Some(JC::EndArray)));
    assert!(receiver.recv().is_none());
}

#[test]
fn serialized_member_stream_holds_key_then_value() {
    let mut receiver = stream_of(&object(vec![("k", num(2.0))]));
    assert!(matches!(receiver.recv(), Some(JC::BeginObject)));
    match receiver.recv() {
        Some(JC::Element(mut element)) => {
            match element.recv() {
                Some(JC::String(key)) => assert_eq!(key, "k"),
                _ => panic!("expected the key"),
            }
            match element.recv() {
                Some(JC::Number(bits)) => assert_eq!(bits, 2.0f64.to_bits()),
                _ => panic!("expected the value"),
            }
            assert!(element.recv().is_none());
        }
        _ => panic!("expected an element"),
    }
    assert!(matches!(receiver.recv(), Some(JC::EndObject)));
    assert!(receiver.recv().is_none());
}

#[test]
fn empty_stream_receives_nothing() {
    let mut receiver = Sender::new().into_receiver();
    assert!(receiver.recv().is_none());
}

#[test]
fn repeated_key_replaces_value_in_place() {
    let mut sender = Sender::new();
    sender.send(JC::BeginObject);
    sender.send(member("a", &num(1.0)));
    sender.send(member("b", &Json::Null));
    sender.send(member("a", &num(2.0)));
    sender.send(JC::EndObject);
    let value = deserialize_json(sender.into_receiver());
    assert_eq!(value, object(vec![("a", num(2.0)), ("b", Json::Null)]));
    assert!(is_well_formed(&value));
}

#[test]
fn consume_leaves_the_next_value() {
    let mut sender = Sender::new();
    serialize_json(&sample(), &mut sender);
    serialize_json(&text("after"), &mut sender);
    let mut receiver = sender.into_receiver();
    consume_json_stream(&mut receiver);
    assert_eq!(deserialize_json(receiver), text("after"));
}

#[test]
fn clone_copies_exactly_one_value() {
    let mut sender = Sender::new();
    serialize_json(&sample(), &mut sender);
    serialize_json(&Json::Bool(false), &mut sender);
    let mut receiver = sender.into_receiver();
    let mut copy = Sender::new();
    clone_json_stream(&mut receiver, &mut copy);
    assert_eq!(deserialize_json(copy.into_receiver()), sample());
    assert_eq!(deserialize_json(receiver), Json::Bool(false));
}

#[test]
fn clone_keeps_repeated_keys_that_reading_merges() {
    let mut sender = Sender::new();
    sender.send(JC::BeginObject);
    sender.send(member("a", &num(1.0)));
    sender.send(member("a", &num(2.0)));
    sender.send(JC::EndObject);
    let mut copy = Sender::new();
    let mut receiver = sender.into_receiver();
    clone_json_stream(&mut receiver, &mut copy);
    let mut copied = copy.into_receiver();
    assert!(matches!(copied.recv(), Some(JC::BeginObject)));
    assert!(matches!(copied.recv(), Some(JC::Element(_))));
    assert!(matches!(copied.recv(), Some(JC::Element(_))));
    assert!(matches!(copied.recv(), Some(JC::EndObject)));
}

#[test]
fn eval_end_copies_the_value() {
    assert_eq!(query(&sample(), &Accessor::End), sample());
}

#[test]
fn eval_nested_path() {
    let accessor = field(
        "socialProfiles",
        Accessor::Index(1, Box::new(field("link", Accessor::End))),
    );
    assert_eq!(query(&sample(), &accessor), text("https://www.facebook.com"));
    let accessor = field("address", field("postalCode", Accessor::End));
    assert_eq!(query(&sample(), &accessor), num(64780.0));
}

#[test]
fn eval_each_over_paths() {
    let accessor = field("socialProfiles", Accessor::Each(Box::new(field("name", Accessor::End))));
    assert_eq!(query(&sample(), &accessor), Json::Array(vec![text("Twitter"), text("Facebook")]));
    let nested = Json::Array(vec![
        Json::Array(vec![num(1.0), num(2.0)]),
        Json::Array(vec![num(3.0), num(4.0)]),
    ]);
    let accessor = Accessor::Each(Box::new(Accessor::Index(0, Box::new(Accessor::End))));
    assert_eq!(query(&nested, &accessor), Json::Array(vec![num(1.0), num(3.0)]));
    assert_eq!(
        query(&Json::Array(vec![]), &Accessor::Each(Box::new(Accessor::End))),
        Json::Array(vec![])
    );
}

#[test]
fn eval_field_sends_every_member_of_that_name() {
    let mut sender = Sender::new();
    sender.send(JC::BeginObject);
    sender.send(member("a", &num(1.0)));
    sender.send(member("b", &num(5.0)));
    sender.send(member("a", &num(2.0)));
    sender.send(JC::EndObject);
    let mut out = Sender::new();
    eval(&field("a", Accessor::End), sender.into_receiver(), &mut out);
    let mut results = out.into_receiver();
    let mut first = Sender::new();
    clone_json_stream(&mut results, &mut first);
    assert_eq!(deserialize_json(first.into_receiver()), num(1.0));
    assert_eq!(deserialize_json(results), num(2.0));
}

#[test]
fn well_formedness_checks_every_object() {
    assert!(is_well_formed(&sample()));
    assert!(is_well_formed(&Json::Null));
    assert!(!is_well_formed(&object(vec![("a", Json::Null), ("a", Json::Null)])));
    assert!(!is_well_formed(&Json::Array(vec![
        Json::Null,
        object(vec![("x", object(vec![("k", num(1.0)), ("j", num(1.0)), ("k", num(2.0))]))]),
    ])));
}

#[test]
fn selects_matches_what_eval_can_read() {
    let doc = sample();
    assert!(selects(&Accessor::End, &doc));
    assert!(selects(&field("age", Accessor::End), &doc));
    assert!(!selects(&field("missing", Accessor::End), &doc));
    assert!(!selects(&Accessor::Index(0, Box::new(Accessor::End)), &doc));
    assert!(selects(&field("languages", Accessor::Index(1, Box::new(Accessor::End))), &doc));
    assert!(!selects(&field("languages", Accessor::Index(2, Box::new(Accessor::End))), &doc));
    assert!(!selects(&field("languages", Accessor::Each(Box::new(field("x", Accessor::End)))), &doc));
    assert!(selects(&field("socialProfiles", Accessor::Each(Box::new(field("link", Accessor::End)))), &doc));
    assert!(!selects(&field("age", field("x", Accessor::End)), &doc));
}

#[test]
fn clones_are_equal() {
    let doc = sample();
    assert_eq!(doc.clone(), doc);
    let accessor = field("socialProfiles", Accessor::Each(Box::new(field("name", Accessor::End))));
    assert_eq!(accessor.clone(), accessor);
}

#[test]
fn reading_again_what_was_read_changes_nothing() {
    let mut sender = Sender::new();
    sender.send(JC::BeginObject);
    sender.send(member("x", &Json::Array(vec![num(1.0)])));
    sender.send(member("y", &text("v")));
    sender.send(member("x", &object(vec![("z", Json::Null)])));
    sender.send(JC::EndObject);
    let first = deserialize_json(sender.into_receiver());
    assert_eq!(first, object(vec![("x", object(vec![("z", Json::Null)])), ("y", text("v"))]));
    let second = roundtrip(&first);
    assert_eq!(second, first);
}

#[test]
fn query_on_well_formed_value_gives_what_is_selected() {
    let doc = sample();
    let accessor = field("languages", Accessor::Each(Box::new(Accessor::End)));
    assert!(is_well_formed(&doc) && selects(&accessor, &doc));
    assert_eq!(query(&doc, &accessor), Json::Array(vec![text("Java"), text("Node.js")]));
}

#[test]
fn first_value_parses_tells_readable_streams() {
    let receiver = stream_of(&sample());
    assert!(receiver.first_value_parses());
    assert_eq!(deserialize_json(receiver), sample());

    assert!(!Sender::new().into_receiver().first_value_parses());

    let mut s = Sender::new();
    s.send(JC::EndArray);
    assert!(!s.into_receiver().first_value_parses());

    let mut s = Sender::new();
    s.send(JC::BeginArray);
    s.send(JC::Element(stream_of(&Json::Null)));
    assert!(!s.into_receiver().first_value_parses());

    let mut s = Sender::new();
    s.send(JC::BeginObject);
    s.send(JC::Element(stream_of(&Json::Null)));
    s.send(JC::EndObject);
    assert!(!s.into_receiver().first_value_parses());

    let mut s = Sender::new();
    s.send(JC::BeginArray);
    s.send(JC::Element(Sender::new().into_receiver()));
    s.send(JC::EndArray);
    assert!(!s.into_receiver().first_value_parses());

    let mut s = Sender::new();
    s.send(JC::BeginObject);
    s.send(member("k", &Json::Null));
    s.send(JC::EndObject);
    s.send(JC::EndObject);
    assert!(s.into_receiver().first_value_parses());
}

#[test]
fn tokens_after_the_first_value_are_never_read() {
    let mut s = Sender::new();
    serialize_json(&sample(), &mut s);
    s.send(JC::EndArray);
    s.send(JC::EndObject);
    let receiver = s.into_receiver();
    assert!(receiver.first_value_parses());
    assert_eq!(deserialize_json(receiver), sample());

    let mut element = Sender::new();
    serialize_json(&num(7.0), &mut element);
    element.send(JC::EndObject);
    let mut s = Sender::new();
    s.send(JC::BeginArray);
    s.send(JC::Element(element.into_receiver()));
    s.send(JC::EndArray);
    assert_eq!(deserialize_json(s.into_receiver()), Json::Array(vec![num(7.0)]));
}
