//! The meaning of token streams and accessor paths, as spec functions over
//! the mathematical values [`JsonValue`] and [`Token`].

use vstd::prelude::*;
use crate::types::{Accessor, JsonValue, Token};

verus! {

// ---------------------------------------------------------------------------
// Encoding a value as a stream
// ---------------------------------------------------------------------------

/// The tokens by which a value is sent: a scalar is one token; an array is
/// `BeginArray`, one `Element` per item whose nested stream encodes the item,
/// and `EndArray`; an object is `BeginObject`, one `Element` per member whose
/// nested stream is the key followed by the encoded value, and `EndObject`.
pub open spec fn encode(v: JsonValue) -> Seq<Token>
    decreases v,
{
    match v {
        JsonValue::Null => seq![Token::Null],
        JsonValue::Bool(b) => seq![Token::Bool(b)],
        JsonValue::Number(n) => seq![Token::Number(n)],
        JsonValue::Str(s) => seq![Token::Str(s)],
        JsonValue::Array(items) => seq![Token::BeginArray] + encode_items(items) + seq![
            Token::EndArray,
        ],
        JsonValue::Object(fields) => seq![Token::BeginObject] + encode_fields(fields) + seq![
            Token::EndObject,
        ],
    }
}

/// The `Element` tokens of an encoded array, one per item.
pub open spec fn encode_items(items: Seq<JsonValue>) -> Seq<Token>
    decreases items,
{
    Seq::new(
        items.len(),
        |i: int|
            if 0 <= i < items.len() {
                Token::Element(encode(items[i]))
            } else {
                Token::Null
            },
    )
}

/// The `Element` tokens of an encoded object, one per member.
pub open spec fn encode_fields(fields: Seq<(Seq<char>, JsonValue)>) -> Seq<Token>
    decreases fields,
{
    Seq::new(
        fields.len(),
        |i: int|
            if 0 <= i < fields.len() {
                Token::Element(seq![Token::Str(fields[i].0)] + encode(fields[i].1))
            } else {
                Token::Null
            },
    )
}

// ---------------------------------------------------------------------------
// Reading one value from a stream
// ---------------------------------------------------------------------------

/// Reads one value from the front of `s`, as the stream functions do, and
/// gives it with the number of tokens it took; `None` where a reader stops
/// on a token out of place or on the end of a stream. Object members are
/// kept as they come, a repeated key included; the nested stream of an
/// element is read for one value and the rest of it is left unread.
pub open spec fn parse_value(s: Seq<Token>) -> Option<(JsonValue, int)>
    decreases s, s.len() + 1,
{
    if s.len() == 0 {
        None
    } else {
        match s[0] {
            Token::Null => Some((JsonValue::Null, 1)),
            Token::Bool(b) => Some((JsonValue::Bool(b), 1)),
            Token::Number(n) => Some((JsonValue::Number(n), 1)),
            Token::Str(k) => Some((JsonValue::Str(k), 1)),
            Token::BeginArray => match parse_items(s, 1) {
                Some((items, n)) => Some((JsonValue::Array(items), n)),
                None => None,
            },
            Token::BeginObject => match parse_fields(s, 1) {
                Some((fields, n)) => Some((JsonValue::Object(fields), n)),
                None => None,
            },
            _ => None,
        }
    }
}

/// Reads array elements from position `i` of `s` up to and including the
/// `EndArray`; gives the items and the position after the `EndArray`.
pub open spec fn parse_items(s: Seq<Token>, i: int) -> Option<(Seq<JsonValue>, int)>
    decreases s, s.len() - i,
{
    if i < 0 || i >= s.len() {
        None
    } else {
        match s[i] {
            Token::EndArray => Some((Seq::empty(), i + 1)),
            Token::Element(sub) => match parse_value(sub) {
                Some((v, _)) => match parse_items(s, i + 1) {
                    Some((rest, n)) => Some((seq![v] + rest, n)),
                    None => None,
                },
                None => None,
            },
            _ => None,
        }
    }
}

/// Reads one object member from its nested stream: a key, then a value.
pub open spec fn parse_member(sub: Seq<Token>) -> Option<(Seq<char>, JsonValue)>
    decreases sub, sub.len() + 1,
{
    if sub.len() == 0 {
        None
    } else {
        match sub[0] {
            Token::Str(k) => match parse_value(sub.drop_first()) {
                Some((v, _)) => Some((k, v)),
                None => None,
            },
            _ => None,
        }
    }
}

/// Reads object members from position `i` of `s` up to and including the
/// `EndObject`; gives the members and the position after the `EndObject`.
pub open spec fn parse_fields(s: Seq<Token>, i: int) -> Option<
    (Seq<(Seq<char>, JsonValue)>, int),
>
    decreases s, s.len() - i,
{
    if i < 0 || i >= s.len() {
        None
    } else {
        match s[i] {
            Token::EndObject => Some((Seq::empty(), i + 1)),
            Token::Element(sub) => match parse_member(sub) {
                Some(m) => match parse_fields(s, i + 1) {
                    Some((rest, n)) => Some((seq![m] + rest, n)),
                    None => None,
                },
                None => None,
            },
            _ => None,
        }
    }
}

// ---------------------------------------------------------------------------
// Objects as maps
// ---------------------------------------------------------------------------

/// `fields` names no key twice.
pub open spec fn distinct_keys(fields: Seq<(Seq<char>, JsonValue)>) -> bool {
    forall|i: int, j: int| 0 <= i < j < fields.len() ==> fields[i].0 != fields[j].0
}

/// `j` is the first position of `key` in `fields`.
pub open spec fn is_first_key(fields: Seq<(Seq<char>, JsonValue)>, key: Seq<char>, j: int) -> bool {
    &&& 0 <= j < fields.len()
    &&& fields[j].0 == key
    &&& forall|l: int| 0 <= l < j ==> fields[l].0 != key
}

/// `fields` holds `key`.
pub open spec fn has_key(fields: Seq<(Seq<char>, JsonValue)>, key: Seq<char>) -> bool {
    exists|j: int| 0 <= j < fields.len() && fields[j].0 == key
}

/// The position of the first member named `key` (meaningful where `has_key`).
pub open spec fn key_position(fields: Seq<(Seq<char>, JsonValue)>, key: Seq<char>) -> int {
    choose|j: int| is_first_key(fields, key, j)
}

/// Sets member `key` to `value`: in place where the key is present, else as
/// a new last member.
pub open spec fn insert_field(
    fields: Seq<(Seq<char>, JsonValue)>,
    key: Seq<char>,
    value: JsonValue,
) -> Seq<(Seq<char>, JsonValue)> {
    if has_key(fields, key) {
        fields.update(key_position(fields, key), (key, value))
    } else {
        fields.push((key, value))
    }
}

/// The value a stream reader builds from what it read: each object's members
/// inserted in turn, so that a later member replaces an earlier one of the
/// same key.
pub open spec fn normalize(v: JsonValue) -> JsonValue
    decreases v,
{
    match v {
        JsonValue::Array(items) => JsonValue::Array(
            Seq::new(
                items.len(),
                |i: int|
                    if 0 <= i < items.len() {
                        normalize(items[i])
                    } else {
                        JsonValue::Null
                    },
            ),
        ),
        JsonValue::Object(fields) => JsonValue::Object(normalize_fields(fields)),
        _ => v,
    }
}

/// The members of an object as a reader inserts them, one after the other.
pub open spec fn normalize_fields(fields: Seq<(Seq<char>, JsonValue)>) -> Seq<
    (Seq<char>, JsonValue),
>
    decreases fields,
{
    if fields.len() == 0 {
        Seq::empty()
    } else {
        insert_field(
            normalize_fields(fields.drop_last()),
            fields.last().0,
            normalize(fields.last().1),
        )
    }
}

/// No object inside `v` names a key twice: what a JSON object is.
pub open spec fn well_formed(v: JsonValue) -> bool
    decreases v,
{
    match v {
        JsonValue::Array(items) => forall|i: int|
            0 <= i < items.len() ==> well_formed(#[trigger] items[i]),
        JsonValue::Object(fields) => {
            &&& distinct_keys(fields)
            &&& forall|i: int| 0 <= i < fields.len() ==> well_formed(#[trigger] fields[i].1)
        },
        _ => true,
    }
}

// ---------------------------------------------------------------------------
// Accessor paths
// ---------------------------------------------------------------------------

/// What an accessor selects from a value: `End` the value itself; `Field`
/// the value of the named member of an object; `Index` the item at a
/// position of an array; `Each` the array of what the rest selects from each
/// item. `None` where the value is not of the kind asked for, the member is
/// absent or the position is past the end.
pub open spec fn select(a: Accessor, v: JsonValue) -> Option<JsonValue>
    decreases a,
{
    match a {
        Accessor::End => Some(v),
        Accessor::Field(f, next) => match v {
            JsonValue::Object(fields) => if has_key(fields, f@) {
                select(*next, fields[key_position(fields, f@)].1)
            } else {
                None
            },
            _ => None,
        },
        Accessor::Index(n, next) => match v {
            JsonValue::Array(items) => if n < items.len() {
                select(*next, items[n as int])
            } else {
                None
            },
            _ => None,
        },
        Accessor::Each(next) => match v {
            JsonValue::Array(items) => if forall|i: int|
                0 <= i < items.len() ==> select(*next, #[trigger] items[i]) is Some {
                Some(
                    JsonValue::Array(
                        Seq::new(items.len(), |i: int| select(*next, items[i])->Some_0),
                    ),
                )
            } else {
                None
            },
            _ => None,
        },
    }
}

/// The tokens that evaluating `a` on a stream whose front value reads as `v`
/// sends: `End` copies the value; `Field` sends, for every member of that
/// name in turn, what the rest sends on its value, and needs one such
/// member at least; `Index` sends what the rest sends on that item; `Each`
/// sends an array whose elements carry what the rest sends on each item.
/// `None` where evaluation stops on a value of the wrong kind, an absent
/// member or a position past the end.
pub open spec fn eval_tokens(a: Accessor, v: JsonValue) -> Option<Seq<Token>>
    decreases a, 0nat,
{
    match a {
        Accessor::End => Some(encode(v)),
        Accessor::Field(f, next) => match v {
            JsonValue::Object(fields) => if has_key(fields, f@) && (forall|i: int|
                0 <= i < fields.len() && fields[i].0 == f@ ==> eval_tokens(
                    *next,
                    #[trigger] fields[i].1,
                ) is Some) {
                Some(field_outputs(*next, f@, fields))
            } else {
                None
            },
            _ => None,
        },
        Accessor::Index(n, next) => match v {
            JsonValue::Array(items) => if n < items.len() {
                eval_tokens(*next, items[n as int])
            } else {
                None
            },
            _ => None,
        },
        Accessor::Each(next) => match v {
            JsonValue::Array(items) => if forall|i: int|
                0 <= i < items.len() ==> eval_tokens(*next, #[trigger] items[i]) is Some {
                Some(seq![Token::BeginArray] + mapped_elements(*next, items) + seq![Token::EndArray])
            } else {
                None
            },
            _ => None,
        },
    }
}

/// What `Field` sends for the members of `fields` named `key`, in order.
pub open spec fn field_outputs(
    next: Accessor,
    key: Seq<char>,
    fields: Seq<(Seq<char>, JsonValue)>,
) -> Seq<Token>
    decreases next, fields.len(),
{
    if fields.len() == 0 {
        Seq::empty()
    } else {
        field_outputs(next, key, fields.drop_last()) + if fields.last().0 == key {
            eval_tokens(next, fields.last().1)->Some_0
        } else {
            Seq::empty()
        }
    }
}

/// The `Element` tokens that `Each` sends, one per item, each carrying what
/// the rest sends on that item.
pub open spec fn mapped_elements(next: Accessor, items: Seq<JsonValue>) -> Seq<Token>
    decreases next, items.len(),
{
    Seq::new(
        items.len(),
        |i: int|
            if 0 <= i < items.len() {
                Token::Element(eval_tokens(next, items[i])->Some_0)
            } else {
                Token::Null
            },
    )
}

// ---------------------------------------------------------------------------
// Facts used by the stream functions
// ---------------------------------------------------------------------------

/// Where a key is present, [`key_position`] is its first position.
pub proof fn lemma_key_position(fields: Seq<(Seq<char>, JsonValue)>, key: Seq<char>)
    requires
        has_key(fields, key),
    ensures
        is_first_key(fields, key, key_position(fields, key)),
    decreases fields.len(),
{
    let prefix = fields.drop_last();
    let last = fields.len() - 1;
    if has_key(prefix, key) {
        lemma_key_position(prefix, key);
        let j = key_position(prefix, key);
        assert(forall|l: int| 0 <= l < j ==> prefix[l] == fields[l]);
        assert(is_first_key(fields, key, j));
    } else {
        assert forall|l: int| 0 <= l < last implies fields[l].0 != key by {
            assert(prefix[l] == fields[l]);
        }
        assert(is_first_key(fields, key, last));
    }
}

} // verus!
