use json_serializer::json::{deserialize_json, serialize_json};
use json_serializer::types::{Json, Sender};

fn num(x: f64) -> Json {
    Json::Number(x.to_bits())
}

#[test]
fn test_serialization() {
    let obj = vec![
        ("x".to_string(), num(123.0)),
        ("y".to_string(), Json::Bool(true)),
    ];

    let json = Json::Object({
        let mut map = Vec::new();

        map.push(("message".to_string(), Json::String("Hello World".to_string())));
        map.push(("nested".to_string(), Json::Object(obj)));
        map.push((
            "array".to_string(),
            Json::Array(vec![num(1.0), num(2.0), num(3.0)]),
        ));
        map.push((
            "more arrays".to_string(),
            Json::Array(vec![
                Json::Array(vec![num(1.0), num(2.0), num(3.0)]),
                Json::Array(vec![num(4.0), num(5.0), num(6.0)]),
            ]),
        ));
        map
    });

    let mut sender = Sender::new();
    serialize_json(&json, &mut sender);
    let deserialized = deserialize_json(sender.into_receiver());
    assert_eq!(json, deserialized);
}
