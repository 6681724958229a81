use json_serializer::json::{deserialise_json, eval, serialise_json};
use json_serializer::types::{Accessor, Json, Sender};

fn num(x: f64) -> Json {
    Json::Number(x.to_bits())
}

fn text(s: &str) -> Json {
    Json::String(s.to_string())
}

fn object(members: Vec<(&str, Json)>) -> Json {
    Json::Object(members.into_iter().map(|(k, v)| (k.to_string(), v)).collect())
}

#[test]
fn test_accessor_field() {
    let input_json = object(vec![
        ("name", text("Michael Scott")),
        ("age", num(31.0)),
    ]);

    let accessor = Accessor::Field("age".to_string(), Box::new(Accessor::End));
    let output = process_json(&input_json, &accessor);
    assert_eq!(output, num(31.0));
}

#[test]
fn test_accessor_index() {
    let input_json = Json::Array(vec![num(1.0), num(2.0), num(3.0)]);

    let accessor = Accessor::Index(1, Box::new(Accessor::End));
    let output = process_json(&input_json, &accessor);
    assert_eq!(output, num(2.0));
}

#[test]
fn test_accessor_map() {
    let input_json = Json::Array(vec![num(1.0), num(2.0), num(3.0)]);

    let accessor = Accessor::Each(Box::new(Accessor::End));
    let output = process_json(&input_json, &accessor);
    assert_eq!(output, input_json);
}

#[test]
fn test_accessor_map_with_field() {
    let input_json = Json::Array(vec![
        object(vec![
            ("name", text("Twitter")),
            ("link", text("https://twitter.com")),
        ]),
        object(vec![
            ("name", text("Facebook")),
            ("link", text("https://facebook.com")),
        ]),
    ]);

    let accessor = Accessor::Each(Box::new(Accessor::Field(
        "name".to_string(),
        Box::new(Accessor::End),
    )));

    let output = process_json(&input_json, &accessor);
    let expected = Json::Array(vec![text("Twitter"), text("Facebook")]);
    assert_eq!(output, expected);
}

fn process_json(input_json: &Json, accessor: &Accessor) -> Json {
    // stream for serialization
    let mut tx1 = Sender::new();

    // serialize
    serialise_json(input_json, &mut tx1);

    // stream for the evaluation
    let mut tx2 = Sender::new();

    // evaluate
    eval(accessor, tx1.into_receiver(), &mut tx2);

    // deserialize
    deserialise_json(tx2.into_receiver())
}
