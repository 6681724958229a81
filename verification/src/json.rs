//! Sending a value as a stream, reading it back, and evaluating an accessor
//! path on a stream.

use vstd::prelude::*;
use crate::model::{select, well_formed, encode, encode_items, encode_fields, normalize, normalize_fields, insert_field, is_first_key, key_position, eval_tokens, field_outputs, mapped_elements, parse_fields, parse_items, parse_member, parse_value};
use crate::types::{Accessor, Json, JsonValue, Receiver, Sender, Token, JC};
use crate::utils::{clone_json_stream, consume_json_stream};
pub use crate::serialization::{deserialise_json, serialise_json};

verus! {

/// The members of an object, keys by their characters.
pub open spec fn members_view(members: Seq<(String, Json)>) -> Seq<(Seq<char>, JsonValue)> {
    Seq::new(members.len(), |i: int| (members[i].0@, members[i].1@))
}

/// The items of an array, each by its value.
pub open spec fn value_views(items: Seq<Json>) -> Seq<JsonValue> {
    Seq::new(items.len(), |i: int| items[i]@)
}

/// Sends `value` to `sender`, as the tokens [`encode`] gives: arrays and
/// objects element by element, each element in a nested stream of its own,
/// object members in the order in which the object holds them.
pub fn serialize_json(value: &Json, sender: &mut Sender)
    ensures
        final(sender)@ == old(sender)@ + encode(value@),
    decreases value,
{
    let ghost s0 = sender@;
    match value {
        Json::Null => sender.send(JC::Null),
        Json::Bool(b) => sender.send(JC::Bool(*b)),
        Json::Number(x) => sender.send(JC::Number(*x)),
        Json::String(text) => sender.send(JC::String(text.clone())),
        Json::Array(arr) => {
            let ghost items = value@->Array_0;
            sender.send(JC::BeginArray);
            let mut i: usize = 0;
            while i < arr.len()
                invariant
                    i <= arr.len(),
                    value@ == JsonValue::Array(items),
                    *value == Json::Array(*arr),
                    items.len() == arr.len(),
                    forall|k: int| 0 <= k < arr.len() ==> items[k] == (#[trigger] arr[k])@,
                    sender@ == s0 + seq![Token::BeginArray] + encode_items(items.take(i as int)),
                    s0 == old(sender)@,
                decreases arr.len() - i,
            {
                let mut element = Sender::new();
                serialize_json(&arr[i], &mut element);
                sender.send(JC::Element(element.into_receiver()));
                assert(encode_items(items.take(i + 1)) =~= encode_items(items.take(i as int)).push(
                    Token::Element(encode(items[i as int])),
                ));
                i = i + 1;
            }
            sender.send(JC::EndArray);
        },
        Json::Object(obj) => {
            let ghost fields = value@->Object_0;
            sender.send(JC::BeginObject);
            let mut i: usize = 0;
            while i < obj.len()
                invariant
                    i <= obj.len(),
                    value@ == JsonValue::Object(fields),
                    *value == Json::Object(*obj),
                    fields.len() == obj.len(),
                    forall|k: int|
                        0 <= k < obj.len() ==> fields[k] == ((#[trigger] obj[k]).0@, obj[k].1@),
                    sender@ == s0 + seq![Token::BeginObject] + encode_fields(fields.take(i as int)),
                    s0 == old(sender)@,
                decreases obj.len() - i,
            {
                let mut member = Sender::new();
                member.send(JC::String(obj[i].0.clone()));
                serialize_json(&obj[i].1, &mut member);
                sender.send(JC::Element(member.into_receiver()));
                assert(encode_fields(fields.take(i + 1)) =~= encode_fields(fields.take(i as int)).push(
                    Token::Element(seq![Token::Str(fields[i as int].0)] + encode(fields[i as int].1)),
                ));
                i = i + 1;
            }
            sender.send(JC::EndObject);
        },
    }
}

/// Receives one value from `receiver` and builds it. Each object member is
/// inserted as it arrives, so a later member replaces an earlier one of the
/// same key and the object keeps the place where the key first came.
pub fn deserialize_json(receiver: Receiver) -> (value: Json)
    requires
        parse_value(receiver@) is Some,
    ensures
        parse_value(receiver@) matches Some((v, _)) ==> value@ == normalize(v),
{
    let mut receiver = receiver;
    read_json(&mut receiver)
}

/// Sets member `key` of `object` to `value`: in place where the key is
/// present, else as a new last member.
fn insert_member(object: &mut Vec<(String, Json)>, key: String, value: Json)
    ensures
        members_view(final(object)@) == insert_field(members_view(old(object)@), key@, value@),
{
    let ghost before = members_view(object@);
    let mut j: usize = 0;
    while j < object.len()
        invariant
            j <= object.len(),
            object@ == old(object)@,
            before == members_view(object@),
            forall|l: int| 0 <= l < j ==> before[l].0 != key@,
        decreases object.len() - j,
    {
        if object[j].0 == key {
            proof {
                assert(is_first_key(before, key@, j as int));
                assert(key_position(before, key@) == j);
            }
            object[j] = (key, value);
            return;
        }
        j = j + 1;
    }
    object.push((key, value));
}

/// [`deserialize_json`] on a stream that stays with the caller, which is
/// left just past the value that was read.
fn read_json(receiver: &mut Receiver) -> (value: Json)
    requires
        parse_value(old(receiver)@) is Some,
    ensures
        parse_value(old(receiver)@) matches Some((v, n)) ==> {
            &&& value@ == normalize(v)
            &&& final(receiver)@ == old(receiver)@.skip(n)
        },
    decreases old(receiver)@,
{
    let ghost s = receiver@;
    let ghost v = parse_value(s)->Some_0.0;
    let ghost n = parse_value(s)->Some_0.1;
    match receiver.recv() {
        Some(JC::Null) => {
            Json::Null
        },
        Some(JC::Bool(b)) => {
            Json::Bool(b)
        },
        Some(JC::Number(x)) => {
            Json::Number(x)
        },
        Some(JC::String(text)) => {
            Json::String(text)
        },
        Some(JC::BeginArray) => {
            let ghost items = v->Array_0;
            let mut array: Vec<Json> = Vec::new();
            let ghost mut pos: int = 1;
            let ghost mut acc: Seq<JsonValue> = Seq::empty();
            loop
                invariant
                    s == old(receiver)@,
                    v == JsonValue::Array(items),
                    parse_value(s) == Some((v, n)),
                    1 <= pos <= s.len(),
                    receiver@ == s.skip(pos),
                    parse_items(s, pos) matches Some((rest, m)) && m == n && acc + rest == items,
                    array@.len() == acc.len(),
                    forall|k: int| 0 <= k < acc.len() ==> (#[trigger] array@[k])@ == normalize(acc[k]),
                decreases receiver@.len(),
            {
                match receiver.recv() {
                    Some(JC::EndArray) => {
                        let ghost models = value_views(array@);
                        let value = Json::Array(array);
                        assert(value@->Array_0 =~= models);
                        assert(normalize(v)->Array_0 =~= models);
                        return value;
                    },
                    Some(JC::Element(mut element)) => {
                        let ghost sub = element@;
                        let ghost item = parse_value(sub)->Some_0.0;
                        let x = read_json(&mut element);
                        array.push(x);
                        proof {
                            acc = acc.push(item);
                            pos = pos + 1;
                        }
                    },
                    _ => {
                        assert(false);
                    },
                }
            }
        },
        Some(JC::BeginObject) => {
            let ghost fields = v->Object_0;
            let mut object: Vec<(String, Json)> = Vec::new();
            let ghost mut pos: int = 1;
            let ghost mut acc: Seq<(Seq<char>, JsonValue)> = Seq::empty();
            loop
                invariant
                    s == old(receiver)@,
                    v == JsonValue::Object(fields),
                    parse_value(s) == Some((v, n)),
                    1 <= pos <= s.len(),
                    receiver@ == s.skip(pos),
                    parse_fields(s, pos) matches Some((rest, m)) && m == n && acc + rest == fields,
                    members_view(object@) == normalize_fields(acc),
                decreases receiver@.len(),
            {
                match receiver.recv() {
                    Some(JC::EndObject) => {
                        let value = Json::Object(object);
                        assert(value@->Object_0 =~= members_view(object@));
                        return value;
                    },
                    Some(JC::Element(mut member)) => {
                        let ghost sub = member@;
                        let ghost key = parse_member(sub)->Some_0.0;
                        let ghost item = parse_member(sub)->Some_0.1;
                        match member.recv() {
                            Some(JC::String(name)) => {
                                let x = read_json(&mut member);
                                insert_member(&mut object, name, x);
                                proof {
                                    assert(acc.push((key, item)).drop_last() =~= acc);
                                    acc = acc.push((key, item));
                                    pos = pos + 1;
                                }
                            },
                            _ => {
                                assert(false);
                            },
                        }
                    },
                    _ => {
                        assert(false);
                    },
                }
            }
        },
        _ => {
            assert(false);
            Json::Null
        },
    }
}

/// Whether no object inside `value` names a key twice.
pub fn is_well_formed(value: &Json) -> (b: bool)
    ensures
        b == well_formed(value@),
    decreases value,
{
    match value {
        Json::Array(items) => {
            let ghost views = value@->Array_0;
            let mut i: usize = 0;
            while i < items.len()
                invariant
                    i <= items.len(),
                    *value == Json::Array(*items),
                    views == value@->Array_0,
                    views.len() == items.len(),
                    forall|k: int| 0 <= k < items.len() ==> views[k] == (#[trigger] items[k])@,
                    forall|k: int| 0 <= k < i ==> well_formed(#[trigger] views[k]),
                decreases items.len() - i,
            {
                if !is_well_formed(&items[i]) {
                    return false;
                }
                i = i + 1;
            }
            true
        },
        Json::Object(fields) => {
            let ghost views = value@->Object_0;
            let mut i: usize = 0;
            while i < fields.len()
                invariant
                    i <= fields.len(),
                    *value == Json::Object(*fields),
                    views == value@->Object_0,
                    views.len() == fields.len(),
                    forall|k: int|
                        0 <= k < fields.len() ==> views[k] == ((#[trigger] fields[k]).0@, fields[k].1@),
                    forall|k: int| 0 <= k < i ==> well_formed(#[trigger] views[k].1),
                    forall|k: int, l: int| 0 <= k < l < i ==> views[k].0 != views[l].0,
                decreases fields.len() - i,
            {
                if !is_well_formed(&fields[i].1) {
                    assert(!well_formed(views[i as int].1));
                    return false;
                }
                let mut k: usize = 0;
                while k < i
                    invariant
                        k <= i < fields.len(),
                        *value == Json::Object(*fields),
                        views == value@->Object_0,
                        views.len() == fields.len(),
                        forall|m: int|
                            0 <= m < fields.len() ==> views[m] == ((#[trigger] fields[m]).0@, fields[m].1@),
                        forall|m: int| 0 <= m < k ==> views[m].0 != views[i as int].0,
                    decreases i - k,
                {
                    if fields[k].0 == fields[i].0 {
                        return false;
                    }
                    k = k + 1;
                }
                i = i + 1;
            }
            true
        },
        _ => true,
    }
}

/// Whether `accessor` selects something from `value`: whether evaluating it
/// on the stream of a well-formed `value` runs to its end.
pub fn selects(accessor: &Accessor, value: &Json) -> (b: bool)
    ensures
        b == (select(*accessor, value@) is Some),
    decreases accessor,
{
    match accessor {
        Accessor::End => true,
        Accessor::Field(name, next) => match value {
            Json::Object(fields) => {
                let ghost views = value@->Object_0;
                let mut j: usize = 0;
                while j < fields.len()
                    invariant
                        j <= fields.len(),
                        *accessor == Accessor::Field(*name, *next),
                        *value == Json::Object(*fields),
                        views == value@->Object_0,
                        views.len() == fields.len(),
                        forall|m: int|
                            0 <= m < fields.len() ==> views[m] == ((#[trigger] fields[m]).0@, fields[m].1@),
                        forall|m: int| 0 <= m < j ==> views[m].0 != name@,
                    decreases fields.len() - j,
                {
                    if fields[j].0 == *name {
                        proof {
                            assert(is_first_key(views, name@, j as int));
                            assert(key_position(views, name@) == j);
                        }
                        return selects(next, &fields[j].1);
                    }
                    j = j + 1;
                }
                false
            },
            _ => false,
        },
        Accessor::Index(index, next) => match value {
            Json::Array(items) => {
                if *index < items.len() {
                    selects(next, &items[*index])
                } else {
                    false
                }
            },
            _ => false,
        },
        Accessor::Each(next) => match value {
            Json::Array(items) => {
                let ghost views = value@->Array_0;
                let mut i: usize = 0;
                while i < items.len()
                    invariant
                        i <= items.len(),
                        *accessor == Accessor::Each(*next),
                        views == value@->Array_0,
                        views.len() == items.len(),
                        forall|k: int| 0 <= k < items.len() ==> views[k] == (#[trigger] items[k])@,
                        forall|k: int| 0 <= k < i ==> select(**next, #[trigger] views[k]) is Some,
                    decreases items.len() - i,
                {
                    if !selects(next, &items[i]) {
                        return false;
                    }
                    i = i + 1;
                }
                true
            },
            _ => false,
        },
    }
}

/// Evaluates `accessor` on the value at the front of `receiver` and sends
/// what it selects to `sender`.
///
/// `End` copies the value; `Field` sends what the rest of the path gives on
/// the value of every member of that name, skipping the others; `Index`
/// does so for the item at that position; `Each` sends an array with one
/// element per item, holding what the rest gives on that item.
pub fn eval(accessor: &Accessor, receiver: Receiver, sender: &mut Sender)
    requires
        parse_value(receiver@) matches Some((v, _)) && eval_tokens(*accessor, v) is Some,
    ensures
        parse_value(receiver@) matches Some((v, _)) ==> final(sender)@ == old(sender)@
            + eval_tokens(*accessor, v)->Some_0,
{
    let mut receiver = receiver;
    eval_stream(accessor, &mut receiver, sender);
}

/// [`eval`] on a stream that stays with the caller, which is left just past
/// the value that was read.
fn eval_stream(accessor: &Accessor, receiver: &mut Receiver, sender: &mut Sender)
    requires
        parse_value(old(receiver)@) matches Some((v, _)) && eval_tokens(*accessor, v) is Some,
    ensures
        parse_value(old(receiver)@) matches Some((v, n)) ==> {
            &&& final(receiver)@ == old(receiver)@.skip(n)
            &&& final(sender)@ == old(sender)@ + eval_tokens(*accessor, v)->Some_0
        },
    decreases *accessor,
{
    let ghost s = receiver@;
    let ghost s0 = sender@;
    let ghost v = parse_value(s)->Some_0.0;
    let ghost n = parse_value(s)->Some_0.1;
    proof {
        receiver.lemma_len_bound();
    }
    match accessor {
        Accessor::End => {
            clone_json_stream(receiver, sender);
        },
        Accessor::Field(field, next) => {
            match receiver.recv() {
                Some(JC::BeginObject) => {
                    let ghost fields = v->Object_0;
                    let ghost mut pos: int = 1;
                    let ghost mut acc: Seq<(Seq<char>, JsonValue)> = Seq::empty();
                    loop
                        invariant
                            v == JsonValue::Object(fields),
                            parse_value(s) == Some((v, n)),
                            eval_tokens(*accessor, v) is Some,
                            *accessor == Accessor::Field(*field, *next),
                            1 <= pos <= s.len(),
                            receiver@ == s.skip(pos),
                            parse_fields(s, pos) matches Some((rest, m)) && m == n && acc + rest
                                == fields,
                            sender@ == s0 + field_outputs(**next, field@, acc),
                            s0 == old(sender)@,
                            s == old(receiver)@,
                        decreases receiver@.len(),
                    {
                        let ghost rest = parse_fields(s, pos)->Some_0.0;
                        match receiver.recv() {
                            Some(JC::EndObject) => {
                                return;
                            },
                            Some(JC::Element(mut member)) => {
                                let ghost sub = member@;
                                let ghost key = parse_member(sub)->Some_0.0;
                                let ghost value = parse_member(sub)->Some_0.1;
                                match member.recv() {
                                    Some(JC::String(name)) => {
                                        if name == *field {
                                            assert(eval_tokens(**next, fields[acc.len() as int].1)
                                                is Some);
                                            eval_stream(next, &mut member, sender);
                                        } else {
                                            consume_json_stream(&mut member);
                                        }
                                        proof {
                                            assert(acc.push((key, value)).drop_last() =~= acc);
                                            assert(acc.push((key, value)) + rest.drop_first() =~= acc
                                                + rest);
                                            acc = acc.push((key, value));
                                            pos = pos + 1;
                                        }
                                    },
                                    _ => {
                                        assert(false);
                                    },
                                }
                            },
                            _ => {
                                assert(false);
                            },
                        }
                    }
                },
                _ => {
                    assert(false);
                },
            }
        },
        Accessor::Index(index, next) => {
            match receiver.recv() {
                Some(JC::BeginArray) => {
                    let ghost items = v->Array_0;
                    let ghost mut pos: int = 1;
                    let ghost mut acc: Seq<JsonValue> = Seq::empty();
                    let mut i: usize = 0;
                    loop
                        invariant
                            v == JsonValue::Array(items),
                            parse_value(s) == Some((v, n)),
                            eval_tokens(*accessor, v) is Some,
                            *accessor == Accessor::Index(*index, *next),
                            1 <= pos <= s.len(),
                            s.len() <= usize::MAX,
                            i == acc.len(),
                            pos == acc.len() + 1,
                            receiver@ == s.skip(pos),
                            parse_items(s, pos) matches Some((rest, m)) && m == n && acc + rest
                                == items,
                            sender@ == if acc.len() > *index {
                                s0 + eval_tokens(**next, items[*index as int])->Some_0
                            } else {
                                s0
                            },
                            s0 == old(sender)@,
                            s == old(receiver)@,
                        decreases receiver@.len(),
                    {
                        match receiver.recv() {
                            Some(JC::EndArray) => {
                                return;
                            },
                            Some(JC::Element(mut element)) => {
                                let ghost sub = element@;
                                let ghost item = parse_value(sub)->Some_0.0;
                                if i == *index {
                                    eval_stream(next, &mut element, sender);
                                } else {
                                    consume_json_stream(&mut element);
                                }
                                i = i + 1;
                                proof {
                                    acc = acc.push(item);
                                    pos = pos + 1;
                                }
                            },
                            _ => {
                                assert(false);
                            },
                        }
                    }
                },
                _ => {
                    assert(false);
                },
            }
        },
        Accessor::Each(next) => {
            match receiver.recv() {
                Some(JC::BeginArray) => {
                    let ghost items = v->Array_0;
                    sender.send(JC::BeginArray);
                    let ghost mut pos: int = 1;
                    let ghost mut acc: Seq<JsonValue> = Seq::empty();
                    loop
                        invariant
                            v == JsonValue::Array(items),
                            parse_value(s) == Some((v, n)),
                            eval_tokens(*accessor, v) is Some,
                            *accessor == Accessor::Each(*next),
                            1 <= pos <= s.len(),
                            receiver@ == s.skip(pos),
                            parse_items(s, pos) matches Some((rest, m)) && m == n && acc + rest
                                == items,
                            sender@ == s0 + seq![Token::BeginArray] + mapped_elements(**next, acc),
                            s0 == old(sender)@,
                            s == old(receiver)@,
                        decreases receiver@.len(),
                    {
                        let ghost rest = parse_items(s, pos)->Some_0.0;
                        match receiver.recv() {
                            Some(JC::EndArray) => {
                                sender.send(JC::EndArray);
                                assert(sender@ =~= s0 + (seq![Token::BeginArray] + mapped_elements(
                                    **next,
                                    items,
                                ) + seq![Token::EndArray]));
                                return;
                            },
                            Some(JC::Element(mut element)) => {
                                let ghost sub = element@;
                                let ghost item = parse_value(sub)->Some_0.0;
                                assert(items[acc.len() as int] == rest[0]);
                                let mut mapped = Sender::new();
                                eval_stream(next, &mut element, &mut mapped);
                                sender.send(JC::Element(mapped.into_receiver()));
                                proof {
                                    assert(mapped_elements(**next, acc.push(item)) =~= mapped_elements(
                                        **next,
                                        acc,
                                    ).push(Token::Element(eval_tokens(**next, item)->Some_0)));
                                    acc = acc.push(item);
                                    pos = pos + 1;
                                }
                            },
                            _ => {
                                assert(false);
                            },
                        }
                    }
                },
                _ => {
                    assert(false);
                },
            }
        },
    }
}

} // verus!
