//! What holds of the stream functions together: reading back what was sent,
//! reading a copy, and evaluating an accessor on a sent value.

use vstd::prelude::*;
use crate::model::{
    distinct_keys, encode, encode_fields, encode_items, eval_tokens, field_outputs, has_key,
    insert_field, key_position, lemma_key_position, mapped_elements, normalize, normalize_fields, parse_fields,
    parse_items, parse_member, parse_value, select, well_formed,
};
use crate::types::{Accessor, JsonValue, Token};
use crate::equality::{law_eq_reflexive, no_nan, value_eq};

verus! {

// ---------------------------------------------------------------------------
// Reading what was sent
// ---------------------------------------------------------------------------

/// Reading the encoding of `v`, whatever follows it in the stream, gives
/// back `v` and takes exactly the encoding.
pub proof fn law_read_encoded(v: JsonValue, rest: Seq<Token>)
    ensures
        parse_value(encode(v) + rest) == Some((v, encode(v).len() as int)),
    decreases v, 0nat,
{
    match v {
        JsonValue::Array(items) => {
            lemma_read_encoded_items(items, rest, 0);
            assert(items.skip(0) =~= items);
        },
        JsonValue::Object(fields) => {
            lemma_read_encoded_fields(fields, rest, 0);
            assert(fields.skip(0) =~= fields);
        },
        _ => {},
    }
}

/// Reading the first value of a stream reads nothing after it: whatever
/// follows the tokens it takes, it reads the same value from the same tokens.
pub proof fn law_read_ignores_what_follows(t: Seq<Token>, u: Seq<Token>)
    ensures
        parse_value(t) is Some ==> parse_value(t + u) == parse_value(t),
{
    if parse_value(t) is Some {
        assert((t + u)[0] == t[0]);
        match t[0] {
            Token::BeginArray => lemma_items_ignore_what_follows(t, u, 1),
            Token::BeginObject => lemma_fields_ignore_what_follows(t, u, 1),
            _ => {},
        }
    }
}

/// Array elements read from position `i` on are read alike whatever follows.
proof fn lemma_items_ignore_what_follows(t: Seq<Token>, u: Seq<Token>, i: int)
    ensures
        parse_items(t, i) is Some ==> parse_items(t + u, i) == parse_items(t, i),
    decreases t.len() - i,
{
    if parse_items(t, i) is Some {
        assert((t + u)[i] == t[i]);
        lemma_items_ignore_what_follows(t, u, i + 1);
    }
}

/// Object members read from position `i` on are read alike whatever follows.
proof fn lemma_fields_ignore_what_follows(t: Seq<Token>, u: Seq<Token>, i: int)
    ensures
        parse_fields(t, i) is Some ==> parse_fields(t + u, i) == parse_fields(t, i),
    decreases t.len() - i,
{
    if parse_fields(t, i) is Some {
        assert((t + u)[i] == t[i]);
        lemma_fields_ignore_what_follows(t, u, i + 1);
    }
}

/// The array elements of an encoded array, from the `j`-th on, read back as
/// the items from the `j`-th on.
proof fn lemma_read_encoded_items(items: Seq<JsonValue>, rest: Seq<Token>, j: int)
    requires
        0 <= j <= items.len(),
    ensures
        parse_items(encode(JsonValue::Array(items)) + rest, 1 + j) == Some(
            (items.skip(j), items.len() + 2int),
        ),
    decreases items, items.len() - j,
{
    if j < items.len() {
        law_read_encoded(items[j], Seq::empty());
        lemma_read_encoded_items(items, rest, j + 1);
    }
}

/// The members of an encoded object, from the `j`-th on, read back as the
/// members from the `j`-th on.
proof fn lemma_read_encoded_fields(fields: Seq<(Seq<char>, JsonValue)>, rest: Seq<Token>, j: int)
    requires
        0 <= j <= fields.len(),
    ensures
        parse_fields(encode(JsonValue::Object(fields)) + rest, 1 + j) == Some(
            (fields.skip(j), fields.len() + 2int),
        ),
    decreases fields, fields.len() - j,
{
    let e = encode_fields(fields);
    assert(encode(JsonValue::Object(fields)) == seq![Token::BeginObject] + e + seq![
        Token::EndObject,
    ]);
    if j < fields.len() {
        let (k, x) = fields[j];
        let sub = seq![Token::Str(k)] + encode(x);
        law_read_encoded(x, Seq::empty());
        assert(sub.drop_first() =~= encode(x) + Seq::<Token>::empty());
        assert(parse_member(sub) == Some((k, x)));
        lemma_read_encoded_fields(fields, rest, j + 1);
    }
}

/// Reading builds every object member by member, so a well-formed value
/// (one whose objects name each key once) is built exactly as it was.
pub proof fn law_read_keeps_well_formed(v: JsonValue)
    requires
        well_formed(v),
    ensures
        normalize(v) == v,
    decreases v,
{
    match v {
        JsonValue::Array(items) => {
            assert forall|i: int| 0 <= i < items.len() implies normalize(items[i]) == items[i] by {
                law_read_keeps_well_formed(items[i]);
            }
            assert(normalize(v)->Array_0 =~= items);
        },
        JsonValue::Object(fields) => {
            lemma_normalize_distinct_fields(fields);
        },
        _ => {},
    }
}

/// Members with distinct keys and well-formed values are inserted as they
/// are.
proof fn lemma_normalize_distinct_fields(fields: Seq<(Seq<char>, JsonValue)>)
    requires
        distinct_keys(fields),
        forall|i: int| 0 <= i < fields.len() ==> well_formed(#[trigger] fields[i].1),
    ensures
        normalize_fields(fields) == fields,
    decreases fields,
{
    if fields.len() > 0 {
        let prefix = fields.drop_last();
        let (k, x) = fields.last();
        assert forall|i: int| 0 <= i < prefix.len() implies well_formed(#[trigger] prefix[i].1) by {
        }
        lemma_normalize_distinct_fields(prefix);
        law_read_keeps_well_formed(x);
    }
}

/// What a reader builds names every key of an object once.
pub proof fn law_read_is_well_formed(v: JsonValue)
    ensures
        well_formed(normalize(v)),
    decreases v,
{
    match v {
        JsonValue::Array(items) => {
            let out = normalize(v)->Array_0;
            assert forall|i: int| 0 <= i < out.len() implies well_formed(#[trigger] out[i]) by {
                law_read_is_well_formed(items[i]);
            }
        },
        JsonValue::Object(fields) => {
            lemma_normalize_fields_well_formed(fields);
        },
        _ => {},
    }
}

/// Inserting members one by one keeps keys distinct and values well-formed.
proof fn lemma_normalize_fields_well_formed(fields: Seq<(Seq<char>, JsonValue)>)
    ensures
        distinct_keys(normalize_fields(fields)),
        forall|i: int|
            0 <= i < normalize_fields(fields).len() ==> well_formed(
                #[trigger] normalize_fields(fields)[i].1,
            ),
    decreases fields,
{
    if fields.len() > 0 {
        let prefix = fields.drop_last();
        let before = normalize_fields(prefix);
        let (k, x) = fields.last();
        lemma_normalize_fields_well_formed(prefix);
        law_read_is_well_formed(x);
        let after = insert_field(before, k, normalize(x));
        if has_key(before, k) {
            lemma_key_position(before, k);
        }
        assert(distinct_keys(after));
    }
}

/// A reader sets a member in place of the first member of the same key, the
/// others unchanged, and appends a member whose key is new.
pub proof fn law_insert_member(
    fields: Seq<(Seq<char>, JsonValue)>,
    key: Seq<char>,
    value: JsonValue,
    j: int,
)
    ensures
        0 <= j < fields.len() && fields[j].0 == key && (forall|l: int|
            0 <= l < j ==> fields[l].0 != key) ==> insert_field(fields, key, value) == fields.update(
            j,
            (key, value),
        ),
        (forall|l: int| 0 <= l < fields.len() ==> fields[l].0 != key) ==> insert_field(
            fields,
            key,
            value,
        ) == fields.push((key, value)),
{
    if 0 <= j < fields.len() && fields[j].0 == key && (forall|l: int|
        0 <= l < j ==> fields[l].0 != key) {
        assert(has_key(fields, key));
        lemma_key_position(fields, key);
        let c = key_position(fields, key);
        assert(c == j) by {
            if c > j {
                assert(fields[j].0 != key);
            }
        }
    }
}

/// A reader builds an array item by item, and an object by inserting its
/// members in the order they come, each value read as a reader builds it.
pub proof fn law_read_builds(items: Seq<JsonValue>, fields: Seq<(Seq<char>, JsonValue)>, key: Seq<char>, x: JsonValue)
    ensures
        normalize(JsonValue::Array(items)) is Array,
        normalize(JsonValue::Array(items))->Array_0.len() == items.len(),
        forall|i: int|
            0 <= i < items.len() ==> #[trigger] normalize(JsonValue::Array(items))->Array_0[i]
                == normalize(items[i]),
        normalize(JsonValue::Object(Seq::empty())) == JsonValue::Object(Seq::empty()),
        normalize(JsonValue::Object(fields.push((key, x)))) == JsonValue::Object(
            insert_field(normalize(JsonValue::Object(fields))->Object_0, key, normalize(x)),
        ),
{
    let pushed = fields.push((key, x));
    assert(pushed.drop_last() =~= fields);
    assert(pushed.last() == (key, x));
    assert(normalize_fields(pushed) == insert_field(normalize_fields(fields), key, normalize(x)));
    assert(normalize_fields(Seq::<(Seq<char>, JsonValue)>::empty()) =~= Seq::empty());
}

/// A value is well-formed exactly when no object inside it names a key twice:
/// an array when each item is, an object when its keys are distinct and each
/// value is, any other value always.
pub proof fn law_well_formed_shape(v: JsonValue)
    ensures
        v matches JsonValue::Array(items) ==> (well_formed(v) <==> forall|i: int|
            0 <= i < items.len() ==> well_formed(#[trigger] items[i])),
        v matches JsonValue::Object(f) ==> (well_formed(v) <==> (forall|i: int, l: int|
            0 <= i < l < f.len() ==> f[i].0 != f[l].0) && forall|i: int|
            0 <= i < f.len() ==> well_formed(#[trigger] f[i].1)),
        !(v is Array) && !(v is Object) ==> well_formed(v),
{
}

/// A well-formed value, sent and read back, is the value that was sent.
pub proof fn law_roundtrip(v: JsonValue)
    requires
        well_formed(v),
    ensures
        parse_value(encode(v)) matches Some((w, n)) && n == encode(v).len() && normalize(w) == v,
{
    law_read_encoded(v, Seq::empty());
    law_read_keeps_well_formed(v);
}

/// A well-formed value without a NaN, sent and read back, is `==` to the
/// value that was sent.
pub proof fn law_roundtrip_equal(v: JsonValue)
    requires
        well_formed(v),
        no_nan(v),
    ensures
        parse_value(encode(v)) matches Some((w, _)) && value_eq(normalize(w), v),
{
    law_roundtrip(v);
    law_eq_reflexive(v);
}

/// A copy made by `clone_json_stream` reads as the value it was copied from,
/// so reading the copy builds what reading the source stream would have built.
pub proof fn law_copy_reads_same(s: Seq<Token>)
    requires
        parse_value(s) is Some,
    ensures
        parse_value(s) matches Some((v, _)) && parse_value(encode(v)) matches Some((w, m)) && w
            == v && m == encode(v).len() && normalize(w) == normalize(v),
{
    let v = parse_value(s)->Some_0.0;
    law_read_encoded(v, Seq::empty());
}

/// Reading a value that was read, sent again, builds the same value.
pub proof fn law_reread(v: JsonValue)
    ensures
        well_formed(normalize(v)),
        normalize(normalize(v)) == normalize(v),
{
    law_read_is_well_formed(v);
    law_read_keeps_well_formed(normalize(v));
}

// ---------------------------------------------------------------------------
// Accessors
// ---------------------------------------------------------------------------

/// The empty path sends a copy of the value, as `clone_json_stream` does.
pub proof fn law_end_copies(v: JsonValue)
    ensures
        eval_tokens(Accessor::End, v) == Some(encode(v)),
        select(Accessor::End, v) == Some(v),
{
}

/// `Each` followed by the empty path selects an array as it is.
pub proof fn law_each_end_is_identity(items: Seq<JsonValue>)
    ensures
        select(Accessor::Each(Box::new(Accessor::End)), JsonValue::Array(items)) == Some(
            JsonValue::Array(items),
        ),
{
    let a = Accessor::Each(Box::new(Accessor::End));
    assert forall|i: int| 0 <= i < items.len() implies select(Accessor::End, #[trigger] items[i])
        == Some(items[i]) by {}
    let r = select(a, JsonValue::Array(items))->Some_0;
    assert(r->Array_0 =~= items);
}

/// `Index(n, ..)` goes on with the item at position `n` of an array, both
/// in what it selects and in what evaluation sends, and selects nothing past
/// the end of the array or from a value that is not an array.
pub proof fn law_index_selects_item(n: usize, next: Accessor, items: Seq<JsonValue>, v: JsonValue)
    ensures
        n < items.len() ==> select(Accessor::Index(n, Box::new(next)), JsonValue::Array(items))
            == select(next, items[n as int]),
        n < items.len() ==> eval_tokens(Accessor::Index(n, Box::new(next)), JsonValue::Array(items))
            == eval_tokens(next, items[n as int]),
        n < items.len() ==> select(
            Accessor::Index(n, Box::new(Accessor::End)),
            JsonValue::Array(items),
        ) == Some(items[n as int]),
        n >= items.len() ==> select(Accessor::Index(n, Box::new(next)), JsonValue::Array(items))
            is None,
        n >= items.len() ==> eval_tokens(Accessor::Index(n, Box::new(next)), JsonValue::Array(items))
            is None,
        !(v is Array) ==> select(Accessor::Index(n, Box::new(next)), v) is None && eval_tokens(
            Accessor::Index(n, Box::new(next)),
            v,
        ) is None,
{
    if n < items.len() {
        assert(select(Accessor::End, items[n as int]) == Some(items[n as int]));
    }
}

/// `Each` selects something from an array exactly when the rest selects
/// something from every item, and then an array of as many items, each what
/// the rest selects from the item at the same position; evaluation sends an
/// array with one element per item, carrying what the rest sends on it. In
/// particular the empty array gives the empty array, whatever the rest.
pub proof fn law_each_maps_items(next: Accessor, items: Seq<JsonValue>)
    ensures
        (select(Accessor::Each(Box::new(next)), JsonValue::Array(items)) is Some) <==> (forall|
            i: int,
        | 0 <= i < items.len() ==> select(next, #[trigger] items[i]) is Some),
        select(Accessor::Each(Box::new(next)), JsonValue::Array(items)) matches Some(r) ==> {
            &&& r is Array
            &&& r->Array_0.len() == items.len()
            &&& forall|i: int|
                0 <= i < items.len() ==> Some(#[trigger] r->Array_0[i]) == select(next, items[i])
        },
        (eval_tokens(Accessor::Each(Box::new(next)), JsonValue::Array(items)) is Some) <==> (forall|
            i: int,
        | 0 <= i < items.len() ==> eval_tokens(next, #[trigger] items[i]) is Some),
        eval_tokens(Accessor::Each(Box::new(next)), JsonValue::Array(items)) matches Some(t) ==> {
            &&& t.len() == items.len() + 2
            &&& t[0] == Token::BeginArray
            &&& t[items.len() + 1int] == Token::EndArray
            &&& forall|i: int|
                0 <= i < items.len() ==> #[trigger] t[i + 1] == Token::Element(
                    eval_tokens(next, items[i])->Some_0,
                )
        },
        select(Accessor::Each(Box::new(next)), JsonValue::Array(Seq::empty())) == Some(
            JsonValue::Array(Seq::empty()),
        ),
        eval_tokens(Accessor::Each(Box::new(next)), JsonValue::Array(Seq::empty())) == Some(
            seq![Token::BeginArray, Token::EndArray],
        ),
{
    let e = Accessor::Each(Box::new(next));
    if let Some(r) = select(e, JsonValue::Array(items)) {
        assert forall|i: int| 0 <= i < items.len() implies Some(#[trigger] r->Array_0[i])
            == select(next, items[i]) by {
            assert(select(next, items[i]) is Some);
        }
    }
    if let Some(t) = eval_tokens(e, JsonValue::Array(items)) {
        let m = mapped_elements(next, items);
        assert(t == seq![Token::BeginArray] + m + seq![Token::EndArray]);
        assert(m.len() == items.len());
        assert(t[0] == Token::BeginArray);
        assert(t[items.len() + 1int] == Token::EndArray);
        assert forall|i: int| 0 <= i < items.len() implies #[trigger] t[i + 1] == Token::Element(
            eval_tokens(next, items[i])->Some_0,
        ) by {
            assert(t[i + 1] == mapped_elements(next, items)[i]);
        }
    }
    let empty = Seq::<JsonValue>::empty();
    assert(select(e, JsonValue::Array(empty))->Some_0->Array_0 =~= empty);
    assert(mapped_elements(next, empty) =~= Seq::<Token>::empty());
    assert(eval_tokens(e, JsonValue::Array(empty))->Some_0 =~= seq![
        Token::BeginArray,
        Token::EndArray,
    ]);
}

/// `Field(name, ..)` goes on with the value of the first member named
/// `name`; where only that member has the name, evaluation sends what the
/// rest sends on its value. Where no member has the name, or the value is
/// not an object, it selects nothing and evaluation stops.
pub proof fn law_field_selects_member(
    name: String,
    next: Accessor,
    fields: Seq<(Seq<char>, JsonValue)>,
    j: int,
    v: JsonValue,
)
    ensures
        0 <= j < fields.len() && fields[j].0 == name@ && (forall|l: int|
            0 <= l < j ==> fields[l].0 != name@) ==> select(
            Accessor::Field(name, Box::new(next)),
            JsonValue::Object(fields),
        ) == select(next, fields[j].1),
        0 <= j < fields.len() && fields[j].0 == name@ && (forall|l: int|
            0 <= l < fields.len() && l != j ==> fields[l].0 != name@) ==> eval_tokens(
            Accessor::Field(name, Box::new(next)),
            JsonValue::Object(fields),
        ) == eval_tokens(next, fields[j].1),
        (forall|l: int| 0 <= l < fields.len() ==> fields[l].0 != name@) ==> select(
            Accessor::Field(name, Box::new(next)),
            JsonValue::Object(fields),
        ) is None && eval_tokens(Accessor::Field(name, Box::new(next)), JsonValue::Object(fields))
            is None,
        !(v is Object) ==> select(Accessor::Field(name, Box::new(next)), v) is None && eval_tokens(
            Accessor::Field(name, Box::new(next)),
            v,
        ) is None,
{
    let a = Accessor::Field(name, Box::new(next));
    if 0 <= j < fields.len() && fields[j].0 == name@ && (forall|l: int|
        0 <= l < j ==> fields[l].0 != name@) {
        assert(has_key(fields, name@));
        lemma_key_position(fields, name@);
        let c = key_position(fields, name@);
        assert(c == j) by {
            if c > j {
                assert(fields[j].0 != name@);
            }
        }
    }
    if 0 <= j < fields.len() && fields[j].0 == name@ && (forall|l: int|
        0 <= l < fields.len() && l != j ==> fields[l].0 != name@) {
        assert(has_key(fields, name@));
        assert forall|i: int| 0 <= i < fields.len() && i != j implies (#[trigger] fields[i]).0 != name@ by {}
        lemma_field_outputs_unique(next, name@, fields, j);
        if eval_tokens(next, fields[j].1) is Some {
            assert forall|i: int|
                0 <= i < fields.len() && fields[i].0 == name@ implies eval_tokens(
                next,
                #[trigger] fields[i].1,
            ) is Some by {
                assert(i == j);
            }
        } else {
            assert(fields[j].0 == name@);
        }
    }
    if forall|l: int| 0 <= l < fields.len() ==> fields[l].0 != name@ {
        assert(!has_key(fields, name@));
    }
}

/// A scalar is sent as one token carrying the same scalar, and that token
/// alone reads back as the scalar.
pub proof fn law_scalar_tokens(b: bool, n: u64, text: Seq<char>)
    ensures
        encode(JsonValue::Null) == seq![Token::Null],
        encode(JsonValue::Bool(b)) == seq![Token::Bool(b)],
        encode(JsonValue::Number(n)) == seq![Token::Number(n)],
        encode(JsonValue::Str(text)) == seq![Token::Str(text)],
        parse_value(seq![Token::Null]) == Some((JsonValue::Null, 1int)),
        parse_value(seq![Token::Bool(b)]) == Some((JsonValue::Bool(b), 1int)),
        parse_value(seq![Token::Number(n)]) == Some((JsonValue::Number(n), 1int)),
        parse_value(seq![Token::Str(text)]) == Some((JsonValue::Str(text), 1int)),
{
}

/// An array is sent as `BeginArray`, then for each item in order an element
/// whose nested stream is the item sent, then `EndArray`; an object likewise
/// between `BeginObject` and `EndObject`, each member's nested stream its key
/// and then its value.
pub proof fn law_container_tokens(items: Seq<JsonValue>, fields: Seq<(Seq<char>, JsonValue)>)
    ensures
        encode(JsonValue::Array(items)).len() == items.len() + 2,
        encode(JsonValue::Array(items))[0] == Token::BeginArray,
        encode(JsonValue::Array(items))[items.len() + 1int] == Token::EndArray,
        forall|i: int|
            0 <= i < items.len() ==> #[trigger] encode(JsonValue::Array(items))[i + 1]
                == Token::Element(encode(items[i])),
        encode(JsonValue::Object(fields)).len() == fields.len() + 2,
        encode(JsonValue::Object(fields))[0] == Token::BeginObject,
        encode(JsonValue::Object(fields))[fields.len() + 1int] == Token::EndObject,
        forall|i: int|
            0 <= i < fields.len() ==> #[trigger] encode(JsonValue::Object(fields))[i + 1]
                == Token::Element(seq![Token::Str(fields[i].0)] + encode(fields[i].1)),
{
}

/// `Field` sends nothing for members none of which has the key.
proof fn lemma_field_outputs_absent(next: Accessor, key: Seq<char>, fields: Seq<(Seq<char>, JsonValue)>)
    requires
        forall|i: int| 0 <= i < fields.len() ==> (#[trigger] fields[i]).0 != key,
    ensures
        field_outputs(next, key, fields) == Seq::<Token>::empty(),
    decreases fields.len(),
{
    if fields.len() > 0 {
        let prefix = fields.drop_last();
        lemma_field_outputs_absent(next, key, prefix);
    }
}

/// `Field` sends, for members of which only the `j`-th has the key, what
/// the rest sends on that member's value.
proof fn lemma_field_outputs_unique(
    next: Accessor,
    key: Seq<char>,
    fields: Seq<(Seq<char>, JsonValue)>,
    j: int,
)
    requires
        0 <= j < fields.len(),
        fields[j].0 == key,
        forall|i: int| 0 <= i < fields.len() && i != j ==> (#[trigger] fields[i]).0 != key,
    ensures
        field_outputs(next, key, fields) == eval_tokens(next, fields[j].1)->Some_0,
    decreases fields.len(),
{
    let prefix = fields.drop_last();
    let last = fields.len() - 1;
    if j == last {
        lemma_field_outputs_absent(next, key, prefix);
    } else {
        lemma_field_outputs_unique(next, key, prefix, j);
    }
}

/// On a well-formed value, evaluating an accessor on the stream succeeds
/// exactly where the accessor selects something, sends the encoding of
/// what it selects, and what it selects is well-formed.
pub proof fn law_eval_selects(a: Accessor, v: JsonValue)
    requires
        well_formed(v),
    ensures
        match select(a, v) {
            Some(r) => eval_tokens(a, v) == Some(encode(r)) && well_formed(r),
            None => eval_tokens(a, v) is None,
        },
    decreases a,
{
    match a {
        Accessor::End => {},
        Accessor::Field(f, next) => {
            if let JsonValue::Object(fields) = v {
                if has_key(fields, f@) {
                    lemma_key_position(fields, f@);
                    let j = key_position(fields, f@);
                    let w = fields[j].1;
                    law_eval_selects(*next, w);
                    if select(*next, w) is Some {
                        assert forall|i: int|
                            0 <= i < fields.len() && fields[i].0 == f@ implies eval_tokens(
                            *next,
                            #[trigger] fields[i].1,
                        ) is Some by {}
                        lemma_field_outputs_unique(*next, f@, fields, j);
                    }
                }
            }
        },
        Accessor::Index(n, next) => {
            if let JsonValue::Array(items) = v {
                if n < items.len() {
                    law_eval_selects(*next, items[n as int]);
                }
            }
        },
        Accessor::Each(next) => {
            if let JsonValue::Array(items) = v {
                assert forall|i: int| 0 <= i < items.len() implies (match select(
                    *next,
                    #[trigger] items[i],
                ) {
                    Some(r) => eval_tokens(*next, items[i]) == Some(encode(r)) && well_formed(r),
                    None => eval_tokens(*next, items[i]) is None,
                }) by {
                    law_eval_selects(*next, items[i]);
                }
                if forall|i: int| 0 <= i < items.len() ==> select(*next, #[trigger] items[i]) is Some {
                    assert(encode_items(select(a, v)->Some_0->Array_0) =~= mapped_elements(*next, items));
                }
            }
        },
    }
}

/// Sending a well-formed value, evaluating an accessor on the stream, and
/// reading the result back builds exactly what the accessor selects from the
/// value; evaluation succeeds exactly where the accessor selects something.
pub proof fn law_query(a: Accessor, v: JsonValue)
    requires
        well_formed(v),
    ensures
        parse_value(encode(v)) matches Some((w, _)) && w == v,
        eval_tokens(a, v) is Some <==> select(a, v) is Some,
        select(a, v) matches Some(r) ==> eval_tokens(a, v) == Some(encode(r)),
        select(a, v) matches Some(r) ==> (parse_value(encode(r)) matches Some((w, _)) && normalize(w)
            == r),
{
    law_read_encoded(v, Seq::empty());
    law_eval_selects(a, v);
    if let Some(r) = select(a, v) {
        law_roundtrip(r);
    }
}

} // verus!
