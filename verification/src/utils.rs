//! Copying one value from one stream to another, and skipping one value.

use vstd::prelude::*;
use crate::model::{encode, encode_items, encode_fields, parse_value, parse_items, parse_fields, parse_member};
use crate::types::{JsonValue, Receiver, Sender, Token, JC};

verus! {

/// Copies one value from `src` to `dest`.
///
/// The value is read token by token and re-sent in the shape [`encode`]
/// gives it: each element gets a fresh nested stream holding one value (and,
/// in an object, the key before it). `src` is left just past the value.
pub fn clone_json_stream(src: &mut Receiver, dest: &mut Sender)
    requires
        parse_value(old(src)@) is Some,
    ensures
        parse_value(old(src)@) matches Some((v, n)) ==> {
            &&& final(src)@ == old(src)@.skip(n)
            &&& final(dest)@ == old(dest)@ + encode(v)
        },
    decreases old(src)@,
{
    let ghost s = src@;
    let ghost d0 = dest@;
    let ghost v = parse_value(s)->Some_0.0;
    let ghost n = parse_value(s)->Some_0.1;
    match src.recv() {
        Some(JC::Null) => {
            dest.send(JC::Null);
        },
        Some(JC::Bool(b)) => {
            dest.send(JC::Bool(b));
        },
        Some(JC::Number(x)) => {
            dest.send(JC::Number(x));
        },
        Some(JC::String(text)) => {
            dest.send(JC::String(text));
        },
        Some(JC::BeginArray) => {
            let ghost items = v->Array_0;
            dest.send(JC::BeginArray);
            let ghost mut pos: int = 1;
            let ghost mut acc: Seq<JsonValue> = Seq::empty();
            loop
                invariant
                    s == old(src)@,
                    d0 == old(dest)@,
                    v == JsonValue::Array(items),
                    parse_value(s) == Some((JsonValue::Array(items), n)),
                    1 <= pos <= s.len(),
                    src@ == s.skip(pos),
                    parse_items(s, pos) matches Some((rest, m)) && m == n && acc + rest == items,
                    dest@ == d0 + seq![Token::BeginArray] + encode_items(acc),
                decreases src@.len(),
            {
                match src.recv() {
                    Some(JC::EndArray) => {
                        dest.send(JC::EndArray);
                        return;
                    },
                    Some(JC::Element(mut element)) => {
                        let ghost sub = element@;
                        let ghost item = parse_value(sub)->Some_0.0;
                        let mut copy = Sender::new();
                        clone_json_stream(&mut element, &mut copy);
                        dest.send(JC::Element(copy.into_receiver()));
                        proof {
                            assert(encode_items(acc.push(item)) =~= encode_items(acc).push(
                                Token::Element(encode(item)),
                            ));
                            acc = acc.push(item);
                            pos = pos + 1;
                        }
                    },
                    _ => {
                        assert(false);
                    },
                }
            }
        },
        Some(JC::BeginObject) => {
            let ghost fields = v->Object_0;
            dest.send(JC::BeginObject);
            let ghost mut pos: int = 1;
            let ghost mut acc: Seq<(Seq<char>, JsonValue)> = Seq::empty();
            loop
                invariant
                    s == old(src)@,
                    d0 == old(dest)@,
                    v == JsonValue::Object(fields),
                    parse_value(s) == Some((JsonValue::Object(fields), n)),
                    1 <= pos <= s.len(),
                    src@ == s.skip(pos),
                    parse_fields(s, pos) matches Some((rest, m)) && m == n && acc + rest == fields,
                    dest@ == d0 + seq![Token::BeginObject] + encode_fields(acc),
                decreases src@.len(),
            {
                match src.recv() {
                    Some(JC::EndObject) => {
                        dest.send(JC::EndObject);
                        return;
                    },
                    Some(JC::Element(mut member)) => {
                        let ghost sub = member@;
                        let ghost key = parse_member(sub)->Some_0.0;
                        let ghost value = parse_member(sub)->Some_0.1;
                        match member.recv() {
                            Some(JC::String(name)) => {
                                let mut copy = Sender::new();
                                copy.send(JC::String(name));
                                clone_json_stream(&mut member, &mut copy);
                                dest.send(JC::Element(copy.into_receiver()));
                                proof {
                                    assert(encode_fields(acc.push((key, value))) =~= encode_fields(
                                        acc,
                                    ).push(Token::Element(seq![Token::Str(key)] + encode(value))));
                                    acc = acc.push((key, value));
                                    pos = pos + 1;
                                }
                            },
                            _ => {
                                assert(false);
                            },
                        }
                    },
                    _ => {
                        assert(false);
                    },
                }
            }
        },
        _ => {
            assert(false);
        },
    }
}

} // verus!

verus! {

/// Receives one value from `receiver` and discards it, leaving the stream
/// just past it.
pub fn consume_json_stream(receiver: &mut Receiver)
    requires
        parse_value(old(receiver)@) is Some,
    ensures
        parse_value(old(receiver)@) matches Some((_, n)) ==> final(receiver)@ == old(receiver)@.skip(n),
    decreases old(receiver)@,
{
    let ghost s = receiver@;
    let ghost n = parse_value(s)->Some_0.1;
    match receiver.recv() {
        Some(JC::Null) | Some(JC::Bool(_)) | Some(JC::Number(_)) | Some(JC::String(_)) => {
        },
        Some(JC::BeginArray) => {
            let ghost mut pos: int = 1;
            loop
                invariant
                    s == old(receiver)@,
                    parse_value(s) matches Some((_, m)) && m == n,
                    1 <= pos <= s.len(),
                    receiver@ == s.skip(pos),
                    parse_items(s, pos) matches Some((_, m)) && m == n,
                decreases receiver@.len(),
            {
                match receiver.recv() {
                    Some(JC::EndArray) => {
                        return;
                    },
                    Some(JC::Element(mut element)) => {
                        consume_json_stream(&mut element);
                        proof {
                            pos = pos + 1;
                        }
                    },
                    _ => {
                        assert(false);
                    },
                }
            }
        },
        Some(JC::BeginObject) => {
            let ghost mut pos: int = 1;
            loop
                invariant
                    s == old(receiver)@,
                    parse_value(s) matches Some((_, m)) && m == n,
                    1 <= pos <= s.len(),
                    receiver@ == s.skip(pos),
                    parse_fields(s, pos) matches Some((_, m)) && m == n,
                decreases receiver@.len(),
            {
                match receiver.recv() {
                    Some(JC::EndObject) => {
                        return;
                    },
                    Some(JC::Element(mut member)) => {
                        let ghost sub = member@;
                        assert(parse_member(sub) is Some);
                        match member.recv() {
                            Some(JC::String(_)) => {
                                consume_json_stream(&mut member);
                                proof {
                                    pos = pos + 1;
                                }
                            },
                            _ => {
                                assert(false);
                            },
                        }
                    },
                    _ => {
                        assert(false);
                    },
                }
            }
        },
        _ => {
            assert(false);
        },
    }
}

} // verus!
