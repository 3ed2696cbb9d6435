//! Document values, their mathematical form and their compact text.
//!
//! A mapping keeps its entries in the order in which their keys first came
//! in, each key once. Two mappings are equal where they hold equal values
//! under the same keys, in whatever order.

use vstd::prelude::*;
use vstd::string::StringExecFns;
use crate::number::{is_number_literal, Number};

verus! {

/// The mathematical form of a document value. A mapping is the sequence of
/// its entries in the order in which they are written out.
pub enum JsonModel {
    Null,
    Bool(bool),
    Number(Seq<char>),
    Text(Seq<char>),
    List(Seq<JsonModel>),
    Mapping(Seq<(Seq<char>, JsonModel)>),
}

/// Whether some entry of `entries` has the key `key`.
pub open spec fn has_key<V>(entries: Seq<(Seq<char>, V)>, key: Seq<char>) -> bool {
    exists|i: int| 0 <= i < entries.len() && (#[trigger] entries[i]).0 == key
}

/// The index of an entry with the key `key`, where there is one.
pub open spec fn key_index<V>(entries: Seq<(Seq<char>, V)>, key: Seq<char>) -> int {
    choose|i: int| 0 <= i < entries.len() && (#[trigger] entries[i]).0 == key
}

/// The value that stands under `key`, where the key is present.
pub open spec fn value_of<V>(entries: Seq<(Seq<char>, V)>, key: Seq<char>) -> V {
    entries[key_index(entries, key)].1
}

/// Whether no key occurs in two entries.
pub open spec fn unique_keys<V>(entries: Seq<(Seq<char>, V)>) -> bool {
    forall|i: int, j: int|
        0 <= i < j < entries.len() ==> (#[trigger] entries[i]).0 != (#[trigger] entries[j]).0
}

/// The entries after `value` is written under `key`: a present key keeps
/// its place and takes the new value, a new key goes to the end.
pub open spec fn put<V>(entries: Seq<(Seq<char>, V)>, key: Seq<char>, value: V) -> Seq<
    (Seq<char>, V),
> {
    if has_key(entries, key) {
        entries.update(key_index(entries, key), (key, value))
    } else {
        entries.push((key, value))
    }
}

/// The entries as a map from key to value, their order forgotten.
pub open spec fn pairs<V>(entries: Seq<(Seq<char>, V)>) -> Map<Seq<char>, V> {
    Map::new(|k: Seq<char>| has_key(entries, k), |k: Seq<char>| value_of(entries, k))
}

impl JsonModel {
    /// Whether every number in the value is a number literal and no
    /// mapping in it holds a key twice.
    pub open spec fn wf(self) -> bool
        decreases self,
    {
        match self {
            JsonModel::Number(t) => is_number_literal(t),
            JsonModel::List(items) => forall|i: int|
                0 <= i < items.len() ==> (#[trigger] items[i]).wf(),
            JsonModel::Mapping(entries) => {
                &&& unique_keys(entries)
                &&& forall|i: int| 0 <= i < entries.len() ==> (#[trigger] entries[i]).1.wf()
            },
            _ => true,
        }
    }
}

/// Whether two values are alike: two lists are alike where they hold alike
/// items in the same order, two mappings where they have as many entries
/// and hold alike values under the same keys, in whatever order; any other
/// two values where they are equal.
pub open spec fn alike(a: JsonModel, b: JsonModel) -> bool
    decreases a,
{
    match a {
        JsonModel::List(items) => {
            &&& b is List
            &&& b->List_0.len() == items.len()
            &&& forall|i: int|
                0 <= i < items.len() ==> alike(#[trigger] items[i], b->List_0[i])
        },
        JsonModel::Mapping(entries) => {
            &&& b is Mapping
            &&& b->Mapping_0.len() == entries.len()
            &&& forall|i: int|
                0 <= i < entries.len() ==> has_key(b->Mapping_0, (#[trigger] entries[i]).0)
                    && alike(entries[i].1, value_of(b->Mapping_0, entries[i].0))
        },
        _ => a == b,
    }
}

/// How one scalar value of a text is written between quotes: a backslash
/// goes before a backslash and a double quote; line feed, carriage return
/// and tab become a backslash and the letter `n`, `r` or `t`.
pub open spec fn escape_char(c: char) -> Seq<char> {
    if c == '\\' {
        seq!['\\', '\\']
    } else if c == '"' {
        seq!['\\', '"']
    } else if c == '\n' {
        seq!['\\', 'n']
    } else if c == '\r' {
        seq!['\\', 'r']
    } else if c == '\t' {
        seq!['\\', 't']
    } else {
        seq![c]
    }
}

/// A text with each of its scalar values escaped.
pub open spec fn escape(s: Seq<char>) -> Seq<char>
    decreases s.len(),
{
    if s.len() == 0 {
        Seq::empty()
    } else {
        escape(s.drop_last()) + escape_char(s.last())
    }
}

/// A text escaped and set between double quotes.
pub open spec fn quote(s: Seq<char>) -> Seq<char> {
    seq!['"'] + escape(s) + seq!['"']
}

/// The parts set one behind the other, a comma between neighbours.
pub open spec fn join(parts: Seq<Seq<char>>) -> Seq<char>
    decreases parts.len(),
{
    if parts.len() == 0 {
        Seq::empty()
    } else if parts.len() == 1 {
        parts[0]
    } else {
        join(parts.drop_last()) + seq![','] + parts.last()
    }
}

/// The compact text of a value.
pub open spec fn render(m: JsonModel) -> Seq<char>
    decreases m,
{
    match m {
        JsonModel::Null => seq!['n', 'u', 'l', 'l'],
        JsonModel::Bool(b) => if b {
            seq!['t', 'r', 'u', 'e']
        } else {
            seq!['f', 'a', 'l', 's', 'e']
        },
        JsonModel::Number(t) => t,
        JsonModel::Text(s) => quote(s),
        JsonModel::List(items) => seq!['['] + join(render_items(items)) + seq![']'],
        JsonModel::Mapping(entries) => seq!['{'] + join(render_entries(entries)) + seq!['}'],
    }
}

/// The texts of the items of a list, one for each item.
pub open spec fn render_items(items: Seq<JsonModel>) -> Seq<Seq<char>>
    decreases items,
{
    Seq::new(
        items.len(),
        |i: int|
            if 0 <= i < items.len() {
                render(items[i])
            } else {
                Seq::empty()
            },
    )
}

/// The texts of the entries of a mapping, one for each entry.
pub open spec fn render_entries(entries: Seq<(Seq<char>, JsonModel)>) -> Seq<Seq<char>>
    decreases entries,
{
    Seq::new(
        entries.len(),
        |i: int|
            if 0 <= i < entries.len() {
                render_entry(entries[i].0, render(entries[i].1))
            } else {
                Seq::empty()
            },
    )
}

/// One entry of a mapping: the quoted key, a colon, the value's text.
pub open spec fn render_entry(key: Seq<char>, value_text: Seq<char>) -> Seq<char> {
    quote(key) + seq![':'] + value_text
}

/// Escaping goes scalar by scalar, so it distributes over concatenation.
pub proof fn lemma_escape_concat(a: Seq<char>, b: Seq<char>)
    ensures
        escape(a + b) == escape(a) + escape(b),
    decreases b.len(),
{
    if b.len() == 0 {
        assert(a + b =~= a);
        assert(escape(a) + escape(b) =~= escape(a));
    } else {
        lemma_escape_concat(a, b.drop_last());
        assert((a + b).drop_last() =~= a + b.drop_last());
        assert((a + b).last() == b.last());
        assert(escape(a + b) =~= escape(a) + escape(b));
    }
}

/// What joining gives when one more part is added at the end.
pub proof fn lemma_join_push(parts: Seq<Seq<char>>, part: Seq<char>)
    ensures
        join(parts.push(part)) == if parts.len() == 0 {
            part
        } else {
            join(parts) + seq![','] + part
        },
{
    assert(parts.push(part).drop_last() =~= parts);
}

/// Writing under a key that is not yet there adds an entry at the end.
pub proof fn lemma_put_new<V>(so_far: Seq<(Seq<char>, V)>, key: Seq<char>, value: V)
    requires
        forall|i: int| 0 <= i < so_far.len() ==> (#[trigger] so_far[i]).0 != key,
    ensures
        put(so_far, key, value) == so_far.push((key, value)),
        !has_key(so_far, key),
{
}

/// Writing a well-formed value into the entries of a well-formed mapping
/// gives the entries of a well-formed mapping.
pub proof fn lemma_put_wf(so_far: Seq<(Seq<char>, JsonModel)>, key: Seq<char>, value: JsonModel)
    requires
        JsonModel::Mapping(so_far).wf(),
        value.wf(),
    ensures
        JsonModel::Mapping(put(so_far, key, value)).wf(),
{
    let after = put(so_far, key, value);
    if has_key(so_far, key) {
        let k = key_index(so_far, key);
        assert forall|i: int, j: int| 0 <= i < j < after.len() implies (#[trigger] after[i]).0
            != (#[trigger] after[j]).0 by {
            assert(after[i].0 == so_far[i].0);
            assert(after[j].0 == so_far[j].0);
        }
        assert forall|i: int| 0 <= i < after.len() implies (#[trigger] after[i]).1.wf() by {
            if i != k {
                assert(after[i] == so_far[i]);
            }
        }
    } else {
        assert forall|i: int, j: int| 0 <= i < j < after.len() implies (#[trigger] after[i]).0
            != (#[trigger] after[j]).0 by {
            assert(after[i] == so_far[i]);
            if j < so_far.len() {
                assert(after[j] == so_far[j]);
            }
        }
        assert forall|i: int| 0 <= i < after.len() implies (#[trigger] after[i]).1.wf() by {
            if i < so_far.len() {
                assert(after[i] == so_far[i]);
            }
        }
    }
}

/// Every well-formed value is alike to itself.
pub proof fn lemma_alike_reflexive(m: JsonModel)
    requires
        m.wf(),
    ensures
        alike(m, m),
    decreases m,
{
    match m {
        JsonModel::List(items) => {
            assert forall|i: int| 0 <= i < items.len() implies alike(
                #[trigger] items[i],
                items[i],
            ) by {
                lemma_alike_reflexive(items[i]);
            }
        },
        JsonModel::Mapping(entries) => {
            assert forall|i: int| 0 <= i < entries.len() implies has_key(
                entries,
                (#[trigger] entries[i]).0,
            ) && alike(entries[i].1, value_of(entries, entries[i].0)) by {
                lemma_lookup(entries, i);
                lemma_alike_reflexive(entries[i].1);
            }
        },
        _ => {},
    }
}

/// Where no key occurs twice, the value under the key of the entry at
/// place `i` is the value of that entry.
pub proof fn lemma_lookup<V>(entries: Seq<(Seq<char>, V)>, i: int)
    requires
        unique_keys(entries),
        0 <= i < entries.len(),
    ensures
        has_key(entries, entries[i].0),
        key_index(entries, entries[i].0) == i,
        value_of(entries, entries[i].0) == entries[i].1,
{
    let key = entries[i].0;
    let j = key_index(entries, key);
    assert(0 <= j < entries.len() && entries[j].0 == key);
    if j < i {
        assert(entries[j].0 != entries[i].0);
    } else if i < j {
        assert(entries[i].0 != entries[j].0);
    }
}

/// A document value.
#[derive(Debug)]
pub enum JsonValue {
    Null,
    Bool(bool),
    Number(Number),
    String(String),
    Array(Vec<JsonValue>),
    Object(JsonObject),
}

/// The entries of a mapping, each key once, in the order in which the keys
/// first came in.
#[derive(Debug)]
pub struct JsonObject {
    entries: Vec<(String, JsonValue)>,
}

impl View for JsonValue {
    type V = JsonModel;

    open spec fn view(&self) -> JsonModel
        decreases self,
    {
        match self {
            JsonValue::Null => JsonModel::Null,
            JsonValue::Bool(b) => JsonModel::Bool(*b),
            JsonValue::Number(n) => JsonModel::Number(n@),
            JsonValue::String(s) => JsonModel::Text(s@),
            JsonValue::Array(items) => JsonModel::List(models(items@)),
            JsonValue::Object(o) => JsonModel::Mapping(o.view()),
        }
    }
}

/// The mathematical forms of the values of a sequence, one for each.
pub open spec fn models(items: Seq<JsonValue>) -> Seq<JsonModel>
    decreases items,
{
    Seq::new(
        items.len(),
        |i: int|
            if 0 <= i < items.len() {
                items[i].view()
            } else {
                JsonModel::Null
            },
    )
}

impl View for JsonObject {
    type V = Seq<(Seq<char>, JsonModel)>;

    closed spec fn view(&self) -> Seq<(Seq<char>, JsonModel)>
        decreases self,
    {
        Seq::new(
            self.entries@.len(),
            |i: int|
                if 0 <= i < self.entries@.len() {
                    (self.entries@[i].0@, self.entries@[i].1.view())
                } else {
                    (Seq::empty(), JsonModel::Null)
                },
        )
    }
}


/// Appends the escaped form of `s` to `out`.
fn escape_into(s: &str, out: &mut String)
    ensures
        final(out)@ == old(out)@ + escape(s@),
{
    broadcast use vstd::string::axiom_spec_iter;

    let ghost before = out@;
    let ghost done: Seq<char> = Seq::empty();
    assert(out@ =~= before + escape(done));
    for c in it: s.chars()
        invariant
            done == it.history(),
            out@ == before + escape(done),
    {
        proof {
            assert(done.push(c).drop_last() =~= done);
            done = done.push(c);
        }
        let ghost so_far = out@;
        if c == '\\' {
            out.push('\\');
            out.push('\\');
        } else if c == '"' {
            out.push('\\');
            out.push('"');
        } else if c == '\n' {
            out.push('\\');
            out.push('n');
        } else if c == '\r' {
            out.push('\\');
            out.push('r');
        } else if c == '\t' {
            out.push('\\');
            out.push('t');
        } else {
            out.push(c);
        }
        assert(out@ =~= so_far + escape_char(c));
        assert(out@ =~= before + escape(done));
    }
    assert(done =~= s@);
}

/// The text `s` with a backslash before each backslash and double quote,
/// and with line feed, carriage return and tab written as `\n`, `\r`, `\t`.
pub fn escape_string(s: &str) -> (escaped: String)
    ensures
        escaped@ == escape(s@),
{
    let mut escaped = String::new();
    escape_into(s, &mut escaped);
    assert(Seq::<char>::empty() + escape(s@) =~= escape(s@));
    escaped
}

impl JsonObject {
    #[verifier::type_invariant]
    spec fn well_formed(&self) -> bool {
        unique_keys(self@)
    }

    /// A mapping without entries.
    pub fn new() -> (o: JsonObject)
        ensures
            o@ == Seq::<(Seq<char>, JsonModel)>::empty(),
    {
        let o = JsonObject { entries: Vec::new() };
        assert(o@ =~= Seq::<(Seq<char>, JsonModel)>::empty());
        o
    }

    /// The number of entries.
    pub fn len(&self) -> (n: usize)
        ensures
            n == self@.len(),
            unique_keys(self@),
    {
        proof {
            use_type_invariant(self);
        }
        self.entries.len()
    }

    /// The key of the entry at place `i`.
    pub fn key(&self, i: usize) -> (k: &str)
        requires
            i < self@.len(),
        ensures
            k@ == self@[i as int].0,
    {
        self.entries[i].0.as_str()
    }

    /// The value of the entry at place `i`.
    pub fn value(&self, i: usize) -> (v: &JsonValue)
        requires
            i < self@.len(),
        ensures
            v@ == self@[i as int].1,
    {
        &self.entries[i].1
    }

    /// The value under `key`, if the key is present.
    pub fn get(&self, key: &str) -> (r: Option<&JsonValue>)
        ensures
            r is Some <==> has_key(self@, key@),
            r matches Some(v) ==> v@ == value_of(self@, key@),
    {
        proof {
            use_type_invariant(self);
        }
        let name = String::from_str(key);
        let i = position(&self.entries, &name);
        if i < self.entries.len() {
            assert(self@[i as int].0 == key@);
            Some(&self.entries[i].1)
        } else {
            None
        }
    }

    /// Writes `value` under `key`. Where the key is present its value is
    /// replaced; a new key is added behind the others.
    pub fn insert(&mut self, key: String, value: JsonValue)
        ensures
            final(self)@ == put(old(self)@, key@, value@),
    {
        proof {
            use_type_invariant(&*self);
        }
        let mut entries: Vec<(String, JsonValue)> = Vec::new();
        assert(JsonObject { entries }@ =~= Seq::<(Seq<char>, JsonModel)>::empty());
        core::mem::swap(&mut self.entries, &mut entries);
        let ghost before = JsonObject { entries }@;
        assert(before == old(self)@);
        let i = position(&entries, &key);
        if i < entries.len() {
            assert(before[i as int].0 == key@);
            entries[i] = (key, value);
        } else {
            entries.push((key, value));
        }
        assert((JsonObject { entries })@ =~= put(before, key@, value@));
        core::mem::swap(&mut self.entries, &mut entries);
    }
}

/// The place of the first entry with the key `key`, or the number of
/// entries where there is none.
fn position(entries: &Vec<(String, JsonValue)>, key: &String) -> (i: usize)
    ensures
        i <= entries.len(),
        i < entries.len() ==> entries[i as int].0@ == key@,
        forall|k: int| 0 <= k < i ==> (#[trigger] entries[k]).0@ != key@,
{
    let mut i: usize = 0;
    while i < entries.len()
        invariant
            i <= entries.len(),
            forall|k: int| 0 <= k < i ==> (#[trigger] entries[k]).0@ != key@,
        decreases entries.len() - i,
    {
        if entries[i].0 == *key {
            return i;
        }
        i += 1;
    }
    i
}

impl JsonValue {
    /// The text, where the value is a text.
    pub fn as_str(&self) -> (r: Option<&str>)
        ensures
            match r {
                Some(s) => self@ == JsonModel::Text(s@),
                None => !(self@ is Text),
            },
    {
        match self {
            JsonValue::String(s) => Some(s.as_str()),
            _ => None,
        }
    }

    /// The number, where the value is a number.
    pub fn as_f64(&self) -> (r: Option<&Number>)
        ensures
            match r {
                Some(n) => self@ == JsonModel::Number(n@),
                None => !(self@ is Number),
            },
    {
        match self {
            JsonValue::Number(n) => Some(n),
            _ => None,
        }
    }

    /// The truth value, where the value is one.
    pub fn as_bool(&self) -> (r: Option<bool>)
        ensures
            match r {
                Some(b) => self@ == JsonModel::Bool(b),
                None => !(self@ is Bool),
            },
    {
        match self {
            JsonValue::Bool(b) => Some(*b),
            _ => None,
        }
    }

    /// The items, where the value is a list.
    pub fn as_array(&self) -> (r: Option<&Vec<JsonValue>>)
        ensures
            match r {
                Some(items) => *self == JsonValue::Array(*items),
                None => !(self@ is List),
            },
    {
        match self {
            JsonValue::Array(items) => Some(items),
            _ => None,
        }
    }

    /// The entries, where the value is a mapping.
    pub fn as_object(&self) -> (r: Option<&JsonObject>)
        ensures
            match r {
                Some(o) => *self == JsonValue::Object(*o),
                None => !(self@ is Mapping),
            },
    {
        match self {
            JsonValue::Object(o) => Some(o),
            _ => None,
        }
    }

    /// The compact text of the value.
    pub fn to_string(&self) -> (text: String)
        ensures
            text@ == render(self@),
            self@.wf(),
    {
        let mut text = String::new();
        self.write_to(&mut text);
        assert(Seq::<char>::empty() + render(self@) =~= render(self@));
        text
    }

    /// Appends the compact text of the value to `out`.
    pub fn write_to(&self, out: &mut String)
        ensures
            final(out)@ == old(out)@ + render(self@),
            self@.wf(),
        decreases self,
    {
        let ghost before = out@;
        match self {
            JsonValue::Null => {
                proof {
                    reveal_strlit("null");
                }
                out.append("null");
                assert(out@ =~= before + render(self@));
            },
            JsonValue::Bool(b) => {
                proof {
                    reveal_strlit("true");
                    reveal_strlit("false");
                }
                if *b {
                    out.append("true");
                } else {
                    out.append("false");
                }
                assert(out@ =~= before + render(self@));
            },
            JsonValue::Number(n) => {
                out.append(n.as_str());
            },
            JsonValue::String(s) => {
                out.push('"');
                escape_into(s.as_str(), out);
                out.push('"');
                assert(out@ =~= before + render(self@));
            },
            JsonValue::Array(items) => {
                let ghost models = self@->List_0;
                let ghost parts = render_items(models);
                out.push('[');
                let mut i: usize = 0;
                assert(parts.subrange(0, 0) =~= Seq::<Seq<char>>::empty());
                while i < items.len()
                    invariant
                        i <= items.len(),
                        *self == JsonValue::Array(*items),
                        models == self@->List_0,
                        models.len() == items.len(),
                        parts.len() == items.len(),
                        forall|k: int| 0 <= k < parts.len() ==> parts[k] == render(#[trigger] models[k]),
                        forall|k: int| 0 <= k < i ==> (#[trigger] models[k]).wf(),
                        out@ == before + seq!['['] + join(parts.subrange(0, i as int)),
                    decreases items.len() - i,
                {
                    if i > 0 {
                        out.push(',');
                    }
                    items[i].write_to(out);
                    proof {
                        assert(items[i as int]@ == models[i as int]);
                        lemma_join_push(parts.subrange(0, i as int), parts[i as int]);
                        assert(parts.subrange(0, i + 1) =~= parts.subrange(0, i as int).push(
                            parts[i as int],
                        ));
                        assert(out@ =~= before + seq!['['] + join(parts.subrange(0, i + 1)));
                    }
                    i += 1;
                }
                out.push(']');
                assert(parts.subrange(0, i as int) =~= parts);
                assert(out@ =~= before + render(self@));
            },
            JsonValue::Object(o) => {
                o.write_to(out);
            },
        }
    }
}

impl JsonObject {
    /// Appends the compact text of the mapping to `out`.
    pub fn write_to(&self, out: &mut String)
        ensures
            final(out)@ == old(out)@ + render(JsonModel::Mapping(self@)),
            JsonModel::Mapping(self@).wf(),
        decreases self,
    {
        proof {
            use_type_invariant(self);
        }
        let ghost before = out@;
        let ghost entries = self@;
        let ghost parts = render_entries(entries);
        out.push('{');
        let mut i: usize = 0;
        assert(parts.subrange(0, 0) =~= Seq::<Seq<char>>::empty());
        while i < self.entries.len()
            invariant
                i <= self.entries.len(),
                entries == self@,
                entries.len() == self.entries.len(),
                parts.len() == entries.len(),
                forall|k: int|
                    0 <= k < parts.len() ==> parts[k] == render_entry(
                        (#[trigger] entries[k]).0,
                        render(entries[k].1),
                    ),
                forall|k: int| 0 <= k < i ==> (#[trigger] entries[k]).1.wf(),
                out@ == before + seq!['{'] + join(parts.subrange(0, i as int)),
            decreases self.entries.len() - i,
        {
            if i > 0 {
                out.push(',');
            }
            out.push('"');
            escape_into(self.entries[i].0.as_str(), out);
            out.push('"');
            out.push(':');
            self.entries[i].1.write_to(out);
            proof {
                assert(self.entries[i as int].0@ == entries[i as int].0);
                assert(self.entries[i as int].1@ == entries[i as int].1);
                lemma_join_push(parts.subrange(0, i as int), parts[i as int]);
                assert(parts.subrange(0, i + 1) =~= parts.subrange(0, i as int).push(
                    parts[i as int],
                ));
                assert(out@ =~= before + seq!['{'] + join(parts.subrange(0, i + 1)));
            }
            i += 1;
        }
        out.push('}');
        assert(parts.subrange(0, i as int) =~= parts);
        assert(out@ =~= before + render(JsonModel::Mapping(self@)));
    }
}

impl Clone for JsonValue {
    fn clone(&self) -> (copy: JsonValue)
        ensures
            copy@ == self@,
        decreases self,
    {
        match self {
            JsonValue::Null => JsonValue::Null,
            JsonValue::Bool(b) => JsonValue::Bool(*b),
            JsonValue::Number(n) => JsonValue::Number(n.clone()),
            JsonValue::String(s) => JsonValue::String(s.clone()),
            JsonValue::Array(items) => {
                let mut copies: Vec<JsonValue> = Vec::new();
                let mut i: usize = 0;
                assert(models(copies@) =~= models(items@).take(0));
                while i < items.len()
                    invariant
                        i <= items.len(),
                        self is Array,
                        self->Array_0 == *items,
                        models(copies@) == models(items@).take(i as int),
                    decreases items.len() - i,
                {
                    let ghost before = copies@;
                    let item = items[i].clone();
                    copies.push(item);
                    assert(models(copies@) =~= models(before).push(items[i as int]@));
                    i += 1;
                    assert(models(copies@) =~= models(items@).take(i as int));
                }
                assert(models(items@).take(i as int) =~= models(items@));
                JsonValue::Array(copies)
            },
            JsonValue::Object(o) => JsonValue::Object(o.clone()),
        }
    }
}

impl Clone for JsonObject {
    fn clone(&self) -> (copy: JsonObject)
        ensures
            copy@ == self@,
        decreases self,
    {
        proof {
            use_type_invariant(self);
        }
        let mut entries: Vec<(String, JsonValue)> = Vec::new();
        let mut i: usize = 0;
        assert((JsonObject { entries })@ =~= self@.take(0));
        while i < self.entries.len()
            invariant
                i <= self.entries.len(),
                self@.len() == self.entries.len(),
                (JsonObject { entries })@ == self@.take(i as int),
            decreases self.entries.len() - i,
        {
            let ghost before = (JsonObject { entries })@;
            let key = self.entries[i].0.clone();
            let value = self.entries[i].1.clone();
            entries.push((key, value));
            assert((JsonObject { entries })@ =~= before.push(self@[i as int]));
            i += 1;
            assert((JsonObject { entries })@ =~= self@.take(i as int));
        }
        assert(self@.take(i as int) =~= self@);
        JsonObject { entries }
    }
}

/// Decides whether two values are alike.
fn values_alike(a: &JsonValue, b: &JsonValue) -> (r: bool)
    ensures
        r == alike(a@, b@),
    decreases a,
{
    match a {
        JsonValue::Null => match b {
            JsonValue::Null => true,
            _ => false,
        },
        JsonValue::Bool(x) => match b {
            JsonValue::Bool(y) => *x == *y,
            _ => false,
        },
        JsonValue::Number(x) => match b {
            JsonValue::Number(y) => x.same_as(y),
            _ => false,
        },
        JsonValue::String(x) => match b {
            JsonValue::String(y) => *x == *y,
            _ => false,
        },
        JsonValue::Array(xs) => match b {
            JsonValue::Array(ys) => {
                if xs.len() != ys.len() {
                    return false;
                }
                let mut i: usize = 0;
                while i < xs.len()
                    invariant
                        i <= xs.len() == ys.len(),
                        a is Array,
                        a->Array_0 == *xs,
                        b is Array,
                        b->Array_0 == *ys,
                        forall|k: int| 0 <= k < i ==> alike(#[trigger] models(xs@)[k], models(ys@)[k]),
                    decreases xs.len() - i,
                {
                    if !values_alike(&xs[i], &ys[i]) {
                        assert(!alike(models(xs@)[i as int], models(ys@)[i as int]));
                        return false;
                    }
                    i += 1;
                }
                assert(a@ == JsonModel::List(models(xs@)));
                assert(b@ == JsonModel::List(models(ys@)));
                assert(models(xs@).len() == models(ys@).len());
                true
            },
            _ => false,
        },
        JsonValue::Object(x) => match b {
            JsonValue::Object(y) => entries_alike(x, y),
            _ => false,
        },
    }
}

/// Decides whether two mappings are alike.
fn entries_alike(a: &JsonObject, b: &JsonObject) -> (r: bool)
    ensures
        r == alike(JsonModel::Mapping(a@), JsonModel::Mapping(b@)),
    decreases a,
{
    if a.entries.len() != b.entries.len() {
        return false;
    }
    let mut i: usize = 0;
    while i < a.entries.len()
        invariant
            i <= a.entries.len() == b.entries.len(),
            a@.len() == a.entries.len(),
            b@.len() == b.entries.len(),
            forall|k: int|
                0 <= k < i ==> has_key(b@, (#[trigger] a@[k]).0) && alike(
                    a@[k].1,
                    value_of(b@, a@[k].0),
                ),
        decreases a.entries.len() - i,
    {
        assert(a@[i as int].0 == a.entries[i as int].0@);
        assert(a@[i as int].1 == a.entries[i as int].1@);
        match b.get(a.entries[i].0.as_str()) {
            Some(other) => {
                if !values_alike(&a.entries[i].1, other) {
                    return false;
                }
            },
            None => {
                return false;
            },
        }
        i += 1;
    }
    true
}

impl PartialEq for JsonValue {
    fn eq(&self, other: &JsonValue) -> (r: bool) {
        values_alike(self, other)
    }
}

impl vstd::std_specs::cmp::PartialEqSpecImpl for JsonValue {
    open spec fn obeys_eq_spec() -> bool {
        true
    }

    open spec fn eq_spec(&self, other: &JsonValue) -> bool {
        alike(self@, other@)
    }
}

impl PartialEq for JsonObject {
    fn eq(&self, other: &JsonObject) -> (r: bool) {
        entries_alike(self, other)
    }
}

impl vstd::std_specs::cmp::PartialEqSpecImpl for JsonObject {
    open spec fn obeys_eq_spec() -> bool {
        true
    }

    open spec fn eq_spec(&self, other: &JsonObject) -> bool {
        alike(JsonModel::Mapping(self@), JsonModel::Mapping(other@))
    }
}

} // verus!
