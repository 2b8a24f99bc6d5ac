//! JSON values and their compact text.

use crate::decimal::{push_signed_decimal, signed_decimal};
use crate::str_map::StrMap;
use vstd::prelude::*;
use vstd::std_specs::convert::FromSpecImpl;
use vstd::string::*;
use vstd::utf8::encode_utf8;

verus! {

broadcast use vstd::std_specs::vec::group_vec_axioms;

/// What can be turned into a JSON value.
pub trait ToJson {
    fn to_json(&self) -> Json;
}

/// A JSON value.
#[derive(Debug)]
pub enum Json {
    /// An object: its fields in order, each a name and a value.
    Obj(Vec<(String, Json)>),
    Arr(Vec<Json>),
    Str(String),
    Num(i64),
}

/// The text of a JSON value: compact, without escapes in strings.
pub open spec fn json_text(j: Json) -> Seq<char>
    decreases j, 0nat,
{
    match j {
        Json::Obj(fields) => seq!['{'] + fields_text(fields@, fields@.len()) + seq!['}'],
        Json::Arr(items) => seq!['['] + items_text(items@, items@.len()) + seq![']'],
        Json::Str(s) => seq!['"'] + s@ + seq!['"'],
        Json::Num(n) => signed_decimal(n as int),
    }
}

/// The text of the first `n` fields of an object, with commas between them.
pub open spec fn fields_text(fields: Seq<(String, Json)>, n: nat) -> Seq<char>
    decreases fields, n,
{
    if n == 0 || n > fields.len() {
        Seq::empty()
    } else {
        let before = if n == 1 {
            Seq::empty()
        } else {
            fields_text(fields, (n - 1) as nat) + seq![',']
        };
        before + field_text(fields[n - 1].0@, json_text(fields[n - 1].1))
    }
}

/// The text of the first `n` items of an array, with commas between them.
pub open spec fn items_text(items: Seq<Json>, n: nat) -> Seq<char>
    decreases items, n,
{
    if n == 0 || n > items.len() {
        Seq::empty()
    } else {
        let before = if n == 1 {
            Seq::empty()
        } else {
            items_text(items, (n - 1) as nat) + seq![',']
        };
        before + json_text(items[n - 1])
    }
}

/// The text of one field: the name in quotes, a colon, the text of the value.
pub open spec fn field_text(name: Seq<char>, value: Seq<char>) -> Seq<char> {
    seq!['"'] + name + seq!['"', ':'] + value
}

/// The text of the first `n` entries of an object, with commas between them.
pub open spec fn entries_text(entries: Seq<(Seq<char>, Json)>, n: nat) -> Seq<char>
    decreases n,
{
    if n == 0 || n > entries.len() {
        Seq::empty()
    } else {
        let before = if n == 1 {
            Seq::empty()
        } else {
            entries_text(entries, (n - 1) as nat) + seq![',']
        };
        before + field_text(entries[n - 1].0, json_text(entries[n - 1].1))
    }
}

/// The text of an object with the given entries.
pub open spec fn object_text(entries: Seq<(Seq<char>, Json)>) -> Seq<char> {
    seq!['{'] + entries_text(entries, entries.len()) + seq!['}']
}

/// Fields and entries with the same names and values have the same text.
pub proof fn lemma_fields_are_entries(
    fields: Seq<(String, Json)>,
    entries: Seq<(Seq<char>, Json)>,
    n: nat,
)
    requires
        fields.len() == entries.len(),
        forall|i: int|
            0 <= i < fields.len() ==> (#[trigger] fields[i]).0@ == entries[i].0 && fields[i].1
                == entries[i].1,
    ensures
        fields_text(fields, n) == entries_text(entries, n),
    decreases n,
{
    if n > 0 && n <= fields.len() {
        if n > 1 {
            lemma_fields_are_entries(fields, entries, (n - 1) as nat);
        }
        assert(fields[n - 1].0@ == entries[n - 1].0);
    }
}

/// Appends the text of one field to `out`.
fn push_field(out: &mut String, name: &str, value: &Json)
    ensures
        final(out)@ == old(out)@ + field_text(name@, json_text(*value)),
    decreases value, 2nat,
{
    out.push('"');
    out.append(name);
    out.push('"');
    out.push(':');
    push_json(out, value);
    assert(final(out)@ =~= old(out)@ + field_text(name@, json_text(*value)));
}

/// Appends the text of `j` to `out`.
pub fn push_json(out: &mut String, j: &Json)
    ensures
        final(out)@ == old(out)@ + json_text(*j),
    decreases j, 1nat,
{
    let ghost start = out@;
    match j {
        Json::Obj(fields) => {
            out.push('{');
            let mut i: usize = 0;
            while i < fields.len()
                invariant
                    i <= fields.len(),
                    *j == Json::Obj(*fields),
                    out@ == start + seq!['{'] + fields_text(fields@, i as nat),
                decreases fields.len() - i,
            {
                if i > 0 {
                    out.push(',');
                }
                proof {
                    vstd::std_specs::vec::axiom_vec_index_decreases(*fields, i as int);
                    assert(j->Obj_0 == *fields);
                }
                push_field(out, fields[i].0.as_str(), &fields[i].1);
                i += 1;
                assert(out@ =~= start + seq!['{'] + fields_text(fields@, i as nat));
            }
            out.push('}');
            assert(out@ =~= start + json_text(*j));
        },
        Json::Arr(items) => {
            out.push('[');
            let mut i: usize = 0;
            while i < items.len()
                invariant
                    i <= items.len(),
                    *j == Json::Arr(*items),
                    out@ == start + seq!['['] + items_text(items@, i as nat),
                decreases items.len() - i,
            {
                if i > 0 {
                    out.push(',');
                }
                proof {
                    vstd::std_specs::vec::axiom_vec_index_decreases(*items, i as int);
                    assert(j->Arr_0 == *items);
                }
                push_json(out, &items[i]);
                i += 1;
                assert(out@ =~= start + seq!['['] + items_text(items@, i as nat));
            }
            out.push(']');
            assert(out@ =~= start + json_text(*j));
        },
        Json::Str(s) => {
            out.push('"');
            out.append(s.as_str());
            out.push('"');
            assert(out@ =~= start + json_text(*j));
        },
        Json::Num(n) => {
            push_signed_decimal(out, *n);
        },
    }
}

/// Two values are the same down to the text of their strings.
pub open spec fn same_json(a: Json, b: Json) -> bool
    decreases a,
{
    match (a, b) {
        (Json::Obj(f), Json::Obj(g)) => f@.len() == g@.len() && forall|i: int|
            0 <= i < f@.len() ==> (#[trigger] f@[i]).0@ == g@[i].0@ && same_json(f@[i].1, g@[i].1),
        (Json::Arr(f), Json::Arr(g)) => f@.len() == g@.len() && forall|i: int|
            0 <= i < f@.len() ==> same_json(#[trigger] f@[i], g@[i]),
        (Json::Str(s), Json::Str(t)) => s@ == t@,
        (Json::Num(n), Json::Num(m)) => n == m,
        _ => false,
    }
}

impl Clone for Json {
    fn clone(&self) -> (r: Json)
        ensures
            same_json(*self, r),
        decreases self,
    {
        match self {
            Json::Obj(fields) => {
                let mut copy: Vec<(String, Json)> = Vec::new();
                let mut i: usize = 0;
                while i < fields.len()
                    invariant
                        i <= fields.len(),
                        *self == Json::Obj(*fields),
                        copy@.len() == i,
                        forall|k: int|
                            0 <= k < i ==> (#[trigger] fields@[k]).0@ == copy@[k].0@ && same_json(
                                fields@[k].1,
                                copy@[k].1,
                            ),
                    decreases fields.len() - i,
                {
                    proof {
                        vstd::std_specs::vec::axiom_vec_index_decreases(*fields, i as int);
                        assert(self->Obj_0 == *fields);
                    }
                    copy.push((fields[i].0.clone(), fields[i].1.clone()));
                    i += 1;
                }
                Json::Obj(copy)
            },
            Json::Arr(items) => {
                let mut copy: Vec<Json> = Vec::new();
                let mut i: usize = 0;
                while i < items.len()
                    invariant
                        i <= items.len(),
                        *self == Json::Arr(*items),
                        copy@.len() == i,
                        forall|k: int| 0 <= k < i ==> same_json(#[trigger] items@[k], copy@[k]),
                    decreases items.len() - i,
                {
                    proof {
                        vstd::std_specs::vec::axiom_vec_index_decreases(*items, i as int);
                        assert(self->Arr_0 == *items);
                    }
                    copy.push(items[i].clone());
                    i += 1;
                }
                Json::Arr(copy)
            },
            Json::Str(s) => Json::Str(s.clone()),
            Json::Num(n) => Json::Num(*n),
        }
    }
}

impl Json {
    /// The value as compact JSON text. Strings are written as they are, without escapes.
    pub fn to_string(&self) -> (s: String)
        ensures
            s@ == json_text(*self),
    {
        let mut s = String::new();
        push_json(&mut s, self);
        assert(s@ =~= json_text(*self));
        s
    }

    /// The bytes of the value's text.
    pub fn to_bytes(&self) -> (b: Vec<u8>)
        ensures
            b@ == encode_utf8(json_text(*self)),
    {
        self.to_string().as_str().as_bytes_vec()
    }
}

/// A JSON object under construction: fields with distinct names, in the
/// order in which the names were first pushed.
#[derive(Clone, Debug)]
pub struct JsonObj {
    fields: StrMap<Json>,
}

impl JsonObj {
    /// The fields of the object, in order.
    pub closed spec fn entries(&self) -> Seq<(Seq<char>, Json)> {
        self.fields.entries()
    }

    /// An object without fields.
    pub fn new() -> (o: JsonObj)
        ensures
            o.entries() == Seq::<(Seq<char>, Json)>::empty(),
    {
        JsonObj { fields: StrMap::new() }
    }

    /// Sets the field `key` to `value`: in its place if the object has the
    /// field, else behind the last field.
    pub fn push(&mut self, key: &str, value: Json)
        ensures
            final(self).entries() == crate::str_map::put(old(self).entries(), key@, value),
    {
        self.fields.insert(key.to_owned(), value);
    }

    /// The object as compact JSON text.
    pub fn to_string(&self) -> (s: String)
        ensures
            s@ == object_text(self.entries()),
    {
        let mut s = String::new();
        s.push('{');
        let n = self.fields.len();
        let mut i: usize = 0;
        while i < n
            invariant
                i <= n,
                n == self.entries().len(),
                s@ == seq!['{'] + entries_text(self.entries(), i as nat),
            decreases n - i,
        {
            if i > 0 {
                s.push(',');
            }
            push_field(&mut s, self.fields.key_at(i).as_str(), self.fields.value_at(i));
            i += 1;
            assert(s@ =~= seq!['{'] + entries_text(self.entries(), i as nat));
        }
        s.push('}');
        s
    }

    /// The bytes of the object's text.
    pub fn to_bytes(&self) -> (b: Vec<u8>)
        ensures
            b@ == encode_utf8(object_text(self.entries())),
    {
        self.to_string().as_str().as_bytes_vec()
    }

    /// The object as a JSON value.
    pub closed spec fn as_json(&self) -> Json {
        Json::Obj(self.fields.items())
    }

    /// An object has the same text as a JSON value as it has by itself.
    pub proof fn lemma_as_json(&self)
        ensures
            json_text(self.as_json()) == object_text(self.entries()),
    {
        self.fields.lemma_items();
        lemma_fields_are_entries(self.fields.items()@, self.entries(), self.entries().len());
    }

    /// The object as a JSON value, with the same text.
    pub fn into_json(self) -> (j: Json)
        ensures
            j == self.as_json(),
            json_text(j) == object_text(self.entries()),
    {
        proof {
            self.lemma_as_json();
        }
        Json::Obj(self.fields.into_items())
    }
}

impl From<JsonObj> for Json {
    fn from(value: JsonObj) -> (j: Json) {
        value.into_json()
    }
}

impl FromSpecImpl<JsonObj> for Json {
    open spec fn obeys_from_spec() -> bool {
        true
    }

    open spec fn from_spec(value: JsonObj) -> Json {
        value.as_json()
    }
}

impl From<Vec<Json>> for Json {
    fn from(value: Vec<Json>) -> (j: Json) {
        Json::Arr(value)
    }
}

impl FromSpecImpl<Vec<Json>> for Json {
    open spec fn obeys_from_spec() -> bool {
        true
    }

    open spec fn from_spec(value: Vec<Json>) -> Json {
        Json::Arr(value)
    }
}

/// The text of the first `n` objects of an array, with commas between them.
pub open spec fn objects_text(items: Seq<JsonObj>, n: nat) -> Seq<char>
    decreases n,
{
    if n == 0 || n > items.len() {
        Seq::empty()
    } else {
        let before = if n == 1 {
            Seq::empty()
        } else {
            objects_text(items, (n - 1) as nat) + seq![',']
        };
        before + object_text(items[n - 1].entries())
    }
}

/// A JSON array of objects.
#[derive(Clone, Debug)]
pub struct JsonArr {
    pub items: Vec<JsonObj>,
}

impl JsonArr {
    /// The text of the array.
    pub open spec fn text(&self) -> Seq<char> {
        seq!['['] + objects_text(self.items@, self.items@.len()) + seq![']']
    }

    /// An array without items.
    pub fn new() -> (a: JsonArr)
        ensures
            a.items@ == Seq::<JsonObj>::empty(),
    {
        JsonArr { items: Vec::new() }
    }

    /// The array as compact JSON text.
    pub fn to_string(&self) -> (s: String)
        ensures
            s@ == self.text(),
    {
        let mut s = String::new();
        s.push('[');
        let mut i: usize = 0;
        while i < self.items.len()
            invariant
                i <= self.items.len(),
                s@ == seq!['['] + objects_text(self.items@, i as nat),
            decreases self.items.len() - i,
        {
            if i > 0 {
                s.push(',');
            }
            let text = self.items[i].to_string();
            s.append(text.as_str());
            i += 1;
            assert(s@ =~= seq!['['] + objects_text(self.items@, i as nat));
        }
        s.push(']');
        s
    }

    /// The bytes of the array's text.
    pub fn to_bytes(&self) -> (b: Vec<u8>)
        ensures
            b@ == encode_utf8(self.text()),
    {
        self.to_string().as_str().as_bytes_vec()
    }
}

impl From<Vec<JsonObj>> for JsonArr {
    fn from(value: Vec<JsonObj>) -> (a: JsonArr) {
        JsonArr { items: value }
    }
}

impl FromSpecImpl<Vec<JsonObj>> for JsonArr {
    open spec fn obeys_from_spec() -> bool {
        true
    }

    open spec fn from_spec(value: Vec<JsonObj>) -> JsonArr {
        JsonArr { items: value }
    }
}

} // verus!
