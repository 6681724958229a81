use vstd::prelude::*;
use crate::model::{parse_fields, parse_items, parse_member, parse_value};

verus! {

/// A JSON value.
///
/// `Number` carries the IEEE-754 bit pattern of a double (`f64::to_bits`),
/// so that numbers travel through the library unchanged. `Object` keeps its
/// members in insertion order; a well-formed object names every key once.
/// Two values are `==` as JSON documents are: numbers as doubles compare,
/// objects as maps from keys to values, whatever the order of their members.
#[derive(Debug)]
pub enum Json {
    Null,
    Bool(bool),
    Number(u64),
    String(String),
    Array(Vec<Json>),
    Object(Vec<(String, Json)>),
}

/// The mathematical value of a [`Json`]: strings as character sequences.
#[verifier::ext_equal]
pub enum JsonValue {
    Null,
    Bool(bool),
    Number(u64),
    Str(Seq<char>),
    Array(Seq<JsonValue>),
    Object(Seq<(Seq<char>, JsonValue)>),
}

impl View for Json {
    type V = JsonValue;

    open spec fn view(&self) -> JsonValue {
        json_view(*self)
    }
}

/// The mathematical value of `j`.
pub open spec fn json_view(j: Json) -> JsonValue
    decreases j,
{
    match j {
        Json::Null => JsonValue::Null,
        Json::Bool(b) => JsonValue::Bool(b),
        Json::Number(n) => JsonValue::Number(n),
        Json::String(s) => JsonValue::Str(s@),
        Json::Array(items) => JsonValue::Array(
            Seq::new(
                items.len() as nat,
                |i: int|
                    if 0 <= i < items.len() {
                        json_view(items[i])
                    } else {
                        JsonValue::Null
                    },
            ),
        ),
        Json::Object(fields) => JsonValue::Object(
            Seq::new(
                fields.len() as nat,
                |i: int|
                    if 0 <= i < fields.len() {
                        (fields[i].0@, json_view(fields[i].1))
                    } else {
                        (Seq::empty(), JsonValue::Null)
                    },
            ),
        ),
    }
}

/// A token of a JSON stream. The value of an array element, or the key and
/// value of an object member, is sent in a nested stream of its own, which
/// an `Element` token hands over.
#[derive(Debug)]
pub enum JC {
    Null,
    Bool(bool),
    Number(u64),
    String(String),
    BeginArray,
    EndArray,
    BeginObject,
    EndObject,
    Element(Receiver),
}

/// The mathematical value of a [`JC`] token.
#[verifier::ext_equal]
pub enum Token {
    Null,
    Bool(bool),
    Number(u64),
    Str(Seq<char>),
    BeginArray,
    EndArray,
    BeginObject,
    EndObject,
    Element(Seq<Token>),
}

/// The receiving end of a token stream: the tokens that were sent and not
/// received yet, in the order in which they were sent.
#[derive(Debug)]
pub struct Receiver {
    /// The pending tokens, the next one to be received last.
    pending: Vec<JC>,
}

/// A path into a JSON value.
#[derive(Debug, PartialEq)]
pub enum Accessor {
    /// Selects the member of this name of an object, then follows the rest.
    Field(String, Box<Accessor>),
    /// Selects the item at this position of an array, then follows the rest.
    Index(usize, Box<Accessor>),
    /// Follows the rest on every item of an array.
    Each(Box<Accessor>),
    /// Selects the value itself.
    End,
}

/// The sending end of a token stream: the tokens sent so far.
#[derive(Debug)]
pub struct Sender {
    sent: Vec<JC>,
}

impl View for JC {
    type V = Token;

    open spec fn view(&self) -> Token
        decreases self,
    {
        match self {
            JC::Null => Token::Null,
            JC::Bool(b) => Token::Bool(*b),
            JC::Number(n) => Token::Number(*n),
            JC::String(s) => Token::Str(s@),
            JC::BeginArray => Token::BeginArray,
            JC::EndArray => Token::EndArray,
            JC::BeginObject => Token::BeginObject,
            JC::EndObject => Token::EndObject,
            JC::Element(r) => Token::Element(r.view()),
        }
    }
}

impl View for Receiver {
    type V = Seq<Token>;

    closed spec fn view(&self) -> Seq<Token>
        decreases self,
    {
        Seq::new(
            self.pending.len() as nat,
            |i: int|
                if 0 <= i < self.pending.len() {
                    self.pending[self.pending.len() - 1 - i].view()
                } else {
                    Token::Null
                },
        )
    }
}

/// The number of tokens that the first value of `r@.skip(start)` takes,
/// where it can be read.
fn value_length(r: &Receiver, start: usize) -> (res: Option<usize>)
    requires
        start <= r@.len(),
    ensures
        (res is Some) == (parse_value(r@.skip(start as int)) is Some),
        res matches Some(n) ==> parse_value(r@.skip(start as int))->Some_0.1 == n,
    decreases r,
{
    let len = r.pending.len();
    let ghost t = r@.skip(start as int);
    if start >= len {
        return None;
    }
    assert(t[0] == r.pending[len - 1 - start]@);
    match &r.pending[len - 1 - start] {
        JC::BeginArray => {
            let mut pos: usize = 1;
            while start + pos < len
                invariant
                    1 <= pos,
                    start + pos <= len,
                    len == r.pending.len(),
                    t == r@.skip(start as int),
                    t.len() == len - start,
                    t[0] == Token::BeginArray,
                    (parse_items(t, 1) is Some) == (parse_items(t, pos as int) is Some),
                    parse_items(t, 1) is Some ==> parse_items(t, 1)->Some_0.1 == parse_items(
                        t,
                        pos as int,
                    )->Some_0.1,
                decreases len - start - pos,
            {
                assert(t[pos as int] == r.pending[len - 1 - start - pos]@);
                match &r.pending[len - 1 - start - pos] {
                    JC::EndArray => {
                        return Some(pos + 1);
                    },
                    JC::Element(sub) => {
                        assert(decreases_to!(r => r.pending));
                        assert(sub@.skip(0) =~= sub@);
                        if value_length(sub, 0).is_none() {
                            return None;
                        }
                    },
                    _ => {
                        return None;
                    },
                }
                pos = pos + 1;
            }
            None
        },
        JC::BeginObject => {
            let mut pos: usize = 1;
            while start + pos < len
                invariant
                    1 <= pos,
                    start + pos <= len,
                    len == r.pending.len(),
                    t == r@.skip(start as int),
                    t.len() == len - start,
                    t[0] == Token::BeginObject,
                    (parse_fields(t, 1) is Some) == (parse_fields(t, pos as int) is Some),
                    parse_fields(t, 1) is Some ==> parse_fields(t, 1)->Some_0.1 == parse_fields(
                        t,
                        pos as int,
                    )->Some_0.1,
                decreases len - start - pos,
            {
                assert(t[pos as int] == r.pending[len - 1 - start - pos]@);
                match &r.pending[len - 1 - start - pos] {
                    JC::EndObject => {
                        return Some(pos + 1);
                    },
                    JC::Element(sub) => {
                        assert(decreases_to!(r => r.pending));
                        let sub_len = sub.pending.len();
                        if sub_len == 0 {
                            assert(parse_member(sub@) is None);
                            return None;
                        }
                        assert(sub@[0] == sub.pending[sub_len - 1]@);
                        match &sub.pending[sub_len - 1] {
                            JC::String(_) => {
                                assert(sub@.skip(1) =~= sub@.drop_first());
                                if value_length(sub, 1).is_none() {
                                    return None;
                                }
                            },
                            _ => {
                                return None;
                            },
                        }
                    },
                    _ => {
                        return None;
                    },
                }
                pos = pos + 1;
            }
            None
        },
        JC::EndArray | JC::EndObject | JC::Element(_) => None,
        _ => Some(1),
    }
}

/// The tokens of `pending`, stored next-to-be-received last, in stream order.
spec fn pending_tokens(pending: Seq<JC>) -> Seq<Token> {
    Seq::new(pending.len(), |i: int| pending[pending.len() - 1 - i]@)
}

/// The tokens of `sent`, in stream order.
spec fn sent_tokens(sent: Seq<JC>) -> Seq<Token> {
    Seq::new(sent.len(), |i: int| sent[i]@)
}

impl View for Sender {
    type V = Seq<Token>;

    closed spec fn view(&self) -> Seq<Token> {
        sent_tokens(self.sent@)
    }
}

impl Receiver {
    /// Whether the first value of the stream can be read: where it can,
    /// `deserialize_json`, `clone_json_stream` and `consume_json_stream` read
    /// it, and `eval` does for a path that applies to it.
    pub fn first_value_parses(&self) -> (b: bool)
        ensures
            b == (parse_value(self@) is Some),
    {
        assert(self@.skip(0) =~= self@);
        value_length(self, 0).is_some()
    }

    /// A stream holds no more tokens than memory can index.
    pub proof fn lemma_len_bound(&self)
        ensures
            self@.len() <= usize::MAX,
    {
    }

    /// Receives the next token; `None` once every token sent was received.
    pub fn recv(&mut self) -> (t: Option<JC>)
        ensures
            old(self)@.len() == 0 ==> t is None && final(self)@ == old(self)@,
            old(self)@.len() > 0 ==> (t matches Some(x) && x@ == old(self)@[0] && final(self)@
                == old(self)@.drop_first()),
    {
        let t = self.pending.pop();
        t
    }
}

impl Sender {
    /// A stream with nothing sent yet.
    pub fn new() -> (s: Sender)
        ensures
            s@ == Seq::<Token>::empty(),
    {
        let s = Sender { sent: Vec::new() };
        s
    }

    /// Sends one token.
    pub fn send(&mut self, t: JC)
        ensures
            final(self)@ == old(self)@.push(t@),
    {
        self.sent.push(t);
    }

    /// Closes the stream and hands over its receiving end, which receives
    /// every token sent, in the order sent.
    pub fn into_receiver(self) -> (r: Receiver)
        ensures
            r@ == self@,
    {
        let ghost all = self@;
        let mut sent = self.sent;
        let mut pending: Vec<JC> = Vec::new();
        while sent.len() > 0
            invariant
                sent_tokens(sent@) + pending_tokens(pending@) =~= all,
            decreases sent.len(),
        {
            match sent.pop() {
                Some(t) => {
                    pending.push(t);
                },
                None => {},
            }
        }
        let r = Receiver { pending };
        r
    }
}

impl Clone for Accessor {
    /// An equal path.
    fn clone(&self) -> (copy: Self)
        ensures
            copy == *self,
    {
        copy_accessor(self)
    }
}

/// An equal path, built anew.
fn copy_accessor(accessor: &Accessor) -> (copy: Accessor)
    ensures
        copy == *accessor,
    decreases accessor,
{
    match accessor {
        Accessor::Field(name, next) => Accessor::Field(name.clone(), Box::new(copy_accessor(next))),
        Accessor::Index(index, next) => Accessor::Index(*index, Box::new(copy_accessor(next))),
        Accessor::Each(next) => Accessor::Each(Box::new(copy_accessor(next))),
        Accessor::End => Accessor::End,
    }
}

impl Clone for Json {
    /// A value with the same view.
    fn clone(&self) -> (copy: Self)
        ensures
            copy@ == self@,
    {
        copy_json(self)
    }
}

/// A value with the same view, built anew.
fn copy_json(value: &Json) -> (copy: Json)
    ensures
        copy@ == value@,
    decreases value,
{
    match value {
        Json::Null => Json::Null,
        Json::Bool(b) => Json::Bool(*b),
        Json::Number(n) => Json::Number(*n),
        Json::String(s) => Json::String(s.clone()),
        Json::Array(items) => {
            let mut copies: Vec<Json> = Vec::new();
            let mut i: usize = 0;
            while i < items.len()
                invariant
                    i <= items.len(),
                    *value == Json::Array(*items),
                    copies@.len() == i,
                    forall|k: int| 0 <= k < i ==> (#[trigger] copies@[k])@ == items@[k]@,
                decreases items.len() - i,
            {
                assert(*items == (*value)->Array_0);
                copies.push(copy_json(&items[i]));
                i = i + 1;
            }
            let copy = Json::Array(copies);
            assert(copy@->Array_0 =~= value@->Array_0);
            copy
        },
        Json::Object(fields) => {
            let mut copies: Vec<(String, Json)> = Vec::new();
            let mut i: usize = 0;
            while i < fields.len()
                invariant
                    i <= fields.len(),
                    *value == Json::Object(*fields),
                    copies@.len() == i,
                    forall|k: int|
                        0 <= k < i ==> (#[trigger] copies@[k]).0@ == fields@[k].0@ && copies@[k].1@
                            == fields@[k].1@,
                decreases fields.len() - i,
            {
                assert(*fields == (*value)->Object_0);
                let member = (fields[i].0.clone(), copy_json(&fields[i].1));
                copies.push(member);
                i = i + 1;
            }
            let copy = Json::Object(copies);
            assert(copy@->Object_0 =~= value@->Object_0);
            copy
        },
    }
}

} // verus!
