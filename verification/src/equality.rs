//! Equality of JSON values: numbers compare as doubles, objects as maps.

use vstd::prelude::*;
use vstd::std_specs::cmp::PartialEqSpecImpl;
use crate::model::{has_key, is_first_key, key_position, lemma_key_position, well_formed};
use crate::types::{Json, JsonValue};

verus! {

/// The bit pattern `x` is a NaN: all exponent bits set, a fraction not zero.
pub open spec fn is_nan(x: u64) -> bool {
    &&& x & 0x7ff0_0000_0000_0000u64 == 0x7ff0_0000_0000_0000u64
    &&& x & 0x000f_ffff_ffff_ffffu64 != 0
}

/// The bit pattern `x` is a zero of either sign.
pub open spec fn is_zero(x: u64) -> bool {
    x & 0x7fff_ffff_ffff_ffffu64 == 0
}

/// The doubles with bit patterns `a` and `b` are equal: no NaN equals
/// anything, the two zeros equal each other, and otherwise the bit patterns
/// are the same.
pub open spec fn number_eq(a: u64, b: u64) -> bool {
    !is_nan(a) && !is_nan(b) && (a == b || (is_zero(a) && is_zero(b)))
}

/// `a` and `b` are equal JSON values: of the same kind, with equal numbers,
/// strings and booleans, arrays equal item by item, and objects with as many
/// members in which every member of `a` has its key in `b`, with an equal
/// value there.
pub open spec fn value_eq(a: JsonValue, b: JsonValue) -> bool
    decreases a,
{
    match (a, b) {
        (JsonValue::Null, JsonValue::Null) => true,
        (JsonValue::Bool(x), JsonValue::Bool(y)) => x == y,
        (JsonValue::Number(x), JsonValue::Number(y)) => number_eq(x, y),
        (JsonValue::Str(x), JsonValue::Str(y)) => x == y,
        (JsonValue::Array(xs), JsonValue::Array(ys)) => {
            &&& xs.len() == ys.len()
            &&& forall|i: int| 0 <= i < xs.len() ==> value_eq(#[trigger] xs[i], ys[i])
        },
        (JsonValue::Object(f), JsonValue::Object(g)) => {
            &&& f.len() == g.len()
            &&& forall|i: int|
                0 <= i < f.len() ==> has_key(g, (#[trigger] f[i]).0) && value_eq(
                    f[i].1,
                    g[key_position(g, f[i].0)].1,
                )
        },
        _ => false,
    }
}

/// No number inside `v` is a NaN.
pub open spec fn no_nan(v: JsonValue) -> bool
    decreases v,
{
    match v {
        JsonValue::Number(x) => !is_nan(x),
        JsonValue::Array(items) => forall|i: int| 0 <= i < items.len() ==> no_nan(#[trigger] items[i]),
        JsonValue::Object(fields) => forall|i: int|
            0 <= i < fields.len() ==> no_nan(#[trigger] fields[i].1),
        _ => true,
    }
}

/// A well-formed value without a NaN equals itself. (A NaN equals nothing,
/// and an object that names a key twice is compared by the first member of
/// that name.)
pub proof fn law_eq_reflexive(v: JsonValue)
    requires
        well_formed(v),
        no_nan(v),
    ensures
        value_eq(v, v),
    decreases v,
{
    match v {
        JsonValue::Array(items) => {
            assert forall|i: int| 0 <= i < items.len() implies value_eq(#[trigger] items[i], items[i]) by {
                law_eq_reflexive(items[i]);
            }
        },
        JsonValue::Object(fields) => {
            assert forall|i: int| 0 <= i < fields.len() implies has_key(fields, (#[trigger] fields[i]).0)
                && value_eq(fields[i].1, fields[key_position(fields, fields[i].0)].1) by {
                assert(has_key(fields, fields[i].0));
                lemma_key_position(fields, fields[i].0);
                assert(key_position(fields, fields[i].0) == i);
                law_eq_reflexive(fields[i].1);
            }
        },
        _ => {},
    }
}

/// Numbers compare as doubles do: a NaN (all exponent bits set, a fraction
/// not zero) equals nothing; the two zeros (every bit but the sign clear)
/// equal each other; any other two numbers are equal exactly when their bit
/// patterns are the same, so a number never equals its negation.
pub proof fn law_number_equality(a: u64, b: u64)
    ensures
        value_eq(JsonValue::Number(a), JsonValue::Number(b)) ==> !(a & 0x7ff0_0000_0000_0000u64
            == 0x7ff0_0000_0000_0000u64 && a & 0x000f_ffff_ffff_ffffu64 != 0),
        value_eq(JsonValue::Number(a), JsonValue::Number(b)) ==> !(b & 0x7ff0_0000_0000_0000u64
            == 0x7ff0_0000_0000_0000u64 && b & 0x000f_ffff_ffff_ffffu64 != 0),
        value_eq(JsonValue::Number(a), JsonValue::Number(b)) ==> (a == b || (a
            & 0x7fff_ffff_ffff_ffffu64 == 0 && b & 0x7fff_ffff_ffff_ffffu64 == 0)),
        !(a & 0x7ff0_0000_0000_0000u64 == 0x7ff0_0000_0000_0000u64 && a & 0x000f_ffff_ffff_ffffu64
            != 0) ==> value_eq(JsonValue::Number(a), JsonValue::Number(a)),
        a & 0x7fff_ffff_ffff_ffffu64 == 0 && b & 0x7fff_ffff_ffff_ffffu64 == 0 ==> value_eq(
            JsonValue::Number(a),
            JsonValue::Number(b),
        ),
        a != b && a & 0x7fff_ffff_ffff_ffffu64 != 0 ==> !value_eq(
            JsonValue::Number(a),
            JsonValue::Number(b),
        ),
{
    assert(a & 0x7fff_ffff_ffff_ffffu64 == 0 ==> a & 0x7ff0_0000_0000_0000u64
        != 0x7ff0_0000_0000_0000u64) by (bit_vector);
    assert(b & 0x7fff_ffff_ffff_ffffu64 == 0 ==> b & 0x7ff0_0000_0000_0000u64
        != 0x7ff0_0000_0000_0000u64) by (bit_vector);
}

/// Values of different kinds are never equal; booleans and strings are
/// equal exactly when they are the same, and `null` equals `null`.
pub proof fn law_scalar_equality(a: JsonValue, b: JsonValue)
    ensures
        value_eq(JsonValue::Null, JsonValue::Null),
        a is Bool && b is Bool ==> (value_eq(a, b) <==> a->Bool_0 == b->Bool_0),
        a is Str && b is Str ==> (value_eq(a, b) <==> a->Str_0 == b->Str_0),
        value_eq(a, b) ==> (a is Null <==> b is Null) && (a is Bool <==> b is Bool) && (a is Number
            <==> b is Number) && (a is Str <==> b is Str) && (a is Array <==> b is Array) && (
        a is Object <==> b is Object),
{
}

/// Two arrays are equal exactly when they have as many items and every item
/// equals the item at the same position of the other.
pub proof fn law_array_equality(xs: Seq<JsonValue>, ys: Seq<JsonValue>)
    ensures
        value_eq(JsonValue::Array(xs), JsonValue::Array(ys)) <==> (xs.len() == ys.len() && forall|
            i: int,
        | 0 <= i < xs.len() ==> value_eq(#[trigger] xs[i], ys[i])),
{
}

/// Appending an item to each of two arrays keeps them equal exactly when the
/// arrays were equal and the two new items are equal.
pub proof fn law_array_equality_push(xs: Seq<JsonValue>, ys: Seq<JsonValue>, x: JsonValue, y: JsonValue)
    ensures
        value_eq(JsonValue::Array(xs.push(x)), JsonValue::Array(ys.push(y))) <==> (value_eq(
            JsonValue::Array(xs),
            JsonValue::Array(ys),
        ) && value_eq(x, y)),
{
    law_array_equality(xs, ys);
    law_array_equality(xs.push(x), ys.push(y));
    if value_eq(JsonValue::Array(xs.push(x)), JsonValue::Array(ys.push(y))) {
        assert forall|i: int| 0 <= i < xs.len() implies value_eq(#[trigger] xs[i], ys[i]) by {
            assert(xs.push(x)[i] == xs[i]);
            assert(ys.push(y)[i] == ys[i]);
        }
        assert(xs.push(x)[xs.len() as int] == x);
    }
    if value_eq(JsonValue::Array(xs), JsonValue::Array(ys)) && value_eq(x, y) {
        assert forall|i: int| 0 <= i < xs.push(x).len() implies value_eq(
            #[trigger] xs.push(x)[i],
            ys.push(y)[i],
        ) by {
            if i < xs.len() {
                assert(xs.push(x)[i] == xs[i]);
                assert(ys.push(y)[i] == ys[i]);
            }
        }
    }
}

/// Two objects are equal exactly when they have as many members and every
/// member of the first has its key in the second, where the first member of
/// that key has an equal value.
pub proof fn law_object_equality(f: Seq<(Seq<char>, JsonValue)>, g: Seq<(Seq<char>, JsonValue)>)
    ensures
        value_eq(JsonValue::Object(f), JsonValue::Object(g)) <==> (f.len() == g.len() && forall|
            i: int,
        | 0 <= i < f.len() ==> #[trigger] first_member_equal(g, f[i].0, f[i].1)),
{
    if value_eq(JsonValue::Object(f), JsonValue::Object(g)) {
        assert forall|i: int| 0 <= i < f.len() implies #[trigger] first_member_equal(
            g,
            f[i].0,
            f[i].1,
        ) by {
            assert(has_key(g, f[i].0) && value_eq(f[i].1, g[key_position(g, f[i].0)].1));
            lemma_key_position(g, f[i].0);
            let j = key_position(g, f[i].0);
            assert(is_first_key(g, f[i].0, j));
        }
    }
    if f.len() == g.len() && forall|i: int|
        0 <= i < f.len() ==> #[trigger] first_member_equal(g, f[i].0, f[i].1) {
        assert forall|i: int|
            0 <= i < f.len() implies has_key(g, (#[trigger] f[i]).0) && value_eq(
                f[i].1,
                g[key_position(g, f[i].0)].1,
            ) by {
            assert(first_member_equal(g, f[i].0, f[i].1));
            let j = choose|j: int|
                0 <= j < g.len() && g[j].0 == f[i].0 && (forall|l: int|
                    0 <= l < j ==> g[l].0 != f[i].0) && value_eq(f[i].1, g[j].1);
            assert(is_first_key(g, f[i].0, j));
            lemma_key_position(g, f[i].0);
            let c = key_position(g, f[i].0);
            assert(c == j) by {
                if c < j {
                    assert(g[c].0 != f[i].0);
                }
                if c > j {
                    assert(g[j].0 != f[i].0);
                }
            }
        }
    }
}

/// The first member of `g` named `key` exists and has a value equal to `x`.
pub open spec fn first_member_equal(g: Seq<(Seq<char>, JsonValue)>, key: Seq<char>, x: JsonValue) -> bool {
    exists|j: int|
        0 <= j < g.len() && g[j].0 == key && (forall|l: int| 0 <= l < j ==> g[l].0 != key)
            && value_eq(x, #[trigger] g[j].1)
}

/// Whether the doubles with bit patterns `a` and `b` are equal.
pub fn number_equal(a: u64, b: u64) -> (r: bool)
    ensures
        r == number_eq(a, b),
{
    let a_nan = a & 0x7ff0_0000_0000_0000u64 == 0x7ff0_0000_0000_0000u64 && a
        & 0x000f_ffff_ffff_ffffu64 != 0;
    let b_nan = b & 0x7ff0_0000_0000_0000u64 == 0x7ff0_0000_0000_0000u64 && b
        & 0x000f_ffff_ffff_ffffu64 != 0;
    let zeros = a & 0x7fff_ffff_ffff_ffffu64 == 0 && b & 0x7fff_ffff_ffff_ffffu64 == 0;
    !a_nan && !b_nan && (a == b || zeros)
}

/// Whether `a` and `b` are equal JSON values.
pub fn json_equal(a: &Json, b: &Json) -> (r: bool)
    ensures
        r == value_eq(a@, b@),
    decreases a,
{
    match a {
        Json::Null => match b {
            Json::Null => true,
            _ => false,
        },
        Json::Bool(x) => match b {
            Json::Bool(y) => *x == *y,
            _ => false,
        },
        Json::Number(x) => match b {
            Json::Number(y) => number_equal(*x, *y),
            _ => false,
        },
        Json::String(x) => match b {
            Json::String(y) => *x == *y,
            _ => false,
        },
        Json::Array(xs) => match b {
            Json::Array(ys) => {
                if xs.len() != ys.len() {
                    return false;
                }
                let ghost xv = a@->Array_0;
                let ghost yv = b@->Array_0;
                let mut i: usize = 0;
                while i < xs.len()
                    invariant
                        i <= xs.len(),
                        xs.len() == ys.len(),
                        *a == Json::Array(*xs),
                        *b == Json::Array(*ys),
                        xv == a@->Array_0,
                        yv == b@->Array_0,
                        forall|k: int| 0 <= k < i ==> value_eq(#[trigger] xv[k], yv[k]),
                    decreases xs.len() - i,
                {
                    assert(*xs == (*a)->Array_0);
                    if !json_equal(&xs[i], &ys[i]) {
                        assert(!value_eq(xv[i as int], yv[i as int]));
                        return false;
                    }
                    i = i + 1;
                }
                true
            },
            _ => false,
        },
        Json::Object(f) => match b {
            Json::Object(g) => {
                if f.len() != g.len() {
                    return false;
                }
                let ghost fv = a@->Object_0;
                let ghost gv = b@->Object_0;
                let mut i: usize = 0;
                while i < f.len()
                    invariant
                        i <= f.len(),
                        f.len() == g.len(),
                        *a == Json::Object(*f),
                        *b == Json::Object(*g),
                        fv == a@->Object_0,
                        gv == b@->Object_0,
                        forall|k: int|
                            0 <= k < i ==> has_key(gv, (#[trigger] fv[k]).0) && value_eq(
                                fv[k].1,
                                gv[key_position(gv, fv[k].0)].1,
                            ),
                    decreases f.len() - i,
                {
                    assert(*f == (*a)->Object_0);
                    let mut j: usize = 0;
                    while j < g.len()
                        invariant
                            j <= g.len(),
                            i < f.len(),
                            f.len() == g.len(),
                            *a == Json::Object(*f),
                            *b == Json::Object(*g),
                            fv == a@->Object_0,
                            gv == b@->Object_0,
                            forall|m: int| 0 <= m < j ==> gv[m].0 != fv[i as int].0,
                        ensures
                            j <= g.len(),
                            j < g.len() ==> gv[j as int].0 == fv[i as int].0,
                            forall|m: int| 0 <= m < j ==> gv[m].0 != fv[i as int].0,
                        decreases g.len() - j,
                    {
                        if g[j].0 == f[i].0 {
                            break;
                        }
                        j = j + 1;
                    }
                    if j == g.len() {
                        assert(!has_key(gv, fv[i as int].0));
                        return false;
                    }
                    proof {
                        assert(is_first_key(gv, fv[i as int].0, j as int));
                        assert(key_position(gv, fv[i as int].0) == j);
                    }
                    if !json_equal(&f[i].1, &g[j].1) {
                        return false;
                    }
                    i = i + 1;
                }
                true
            },
            _ => false,
        },
    }
}

impl PartialEq for Json {
    fn eq(&self, other: &Self) -> (r: bool) {
        json_equal(self, other)
    }
}

impl PartialEqSpecImpl for Json {
    open spec fn obeys_eq_spec() -> bool {
        true
    }

    open spec fn eq_spec(&self, other: &Self) -> bool {
        value_eq(self@, other@)
    }
}

} // verus!
