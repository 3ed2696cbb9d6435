//! The grammar of documents, as functions on sequences of scalar values,
//! and a recursive-descent parser that is proved to follow it.

use vstd::prelude::*;
use crate::number::{is_number_literal, Number};
use crate::text::chars_of;
use crate::unicode::{numeric, whitespace};
use crate::value::{lemma_put_wf, models, put, JsonModel, JsonObject, JsonValue};

verus! {

/// Why a text is not a document.
#[derive(Debug, Clone, Copy, PartialEq, Eq)]
pub enum JsonError {
    UnexpectedEnd,
    InvalidValue,
    InvalidKey,
    InvalidObject,
    InvalidArray,
    InvalidNumber,
    ExpectedColon,
}

/// What reading one construct at a position of a text gives: the
/// construct or the reason why there is none, and the number of scalar
/// values that the reader passed.
pub struct Reading<T> {
    pub result: Result<T, JsonError>,
    pub taken: nat,
}

impl<T> Reading<T> {
    /// The same outcome, reached after `n` more scalar values in front.
    pub open spec fn after(self, n: nat) -> Reading<T> {
        Reading { result: self.result, taken: n + self.taken }
    }
}

/// A failed reading.
pub open spec fn fail<T>(error: JsonError, taken: nat) -> Reading<T> {
    Reading { result: Err(error), taken }
}

/// A successful reading.
pub open spec fn done<T>(value: T, taken: nat) -> Reading<T> {
    Reading { result: Ok(value), taken }
}

/// The reading of a text's tail, with the scalar `c` set in front of the
/// text and `n` scalar values passed to get there.
pub open spec fn with_front(rest: Reading<Seq<char>>, c: char, n: nat) -> Reading<Seq<char>> {
    Reading {
        result: match rest.result {
            Ok(t) => Ok(seq![c] + t),
            Err(e) => Err(e),
        },
        taken: n + rest.taken,
    }
}

/// A text reading as the reading of a text value.
pub open spec fn as_text_value(r: Reading<Seq<char>>) -> Reading<JsonModel> {
    Reading {
        result: match r.result {
            Ok(t) => Ok(JsonModel::Text(t)),
            Err(e) => Err(e),
        },
        taken: r.taken,
    }
}

/// How many whitespace scalars stand in `s` from `pos` on, without a gap.
pub open spec fn space_run(s: Seq<char>, pos: int) -> nat
    decreases s.len() - pos,
{
    if 0 <= pos < s.len() && whitespace(s[pos]) {
        1 + space_run(s, pos + 1)
    } else {
        0
    }
}

/// Whether `c` may stand in the span of a number: a numeric scalar, a
/// point, a sign, or the letter `e` in either case.
pub open spec fn number_char(c: char) -> bool {
    numeric(c) || c == '.' || c == '-' || c == 'e' || c == 'E' || c == '+'
}

/// How many scalars that may stand in a number follow in `s` from `pos`
/// on, without a gap.
pub open spec fn number_run(s: Seq<char>, pos: int) -> nat
    decreases s.len() - pos,
{
    if 0 <= pos < s.len() && number_char(s[pos]) {
        1 + number_run(s, pos + 1)
    } else {
        0
    }
}

/// Whether `word` stands in `s` at `pos`.
pub open spec fn stands_at(s: Seq<char>, pos: int, word: Seq<char>) -> bool {
    &&& 0 <= pos
    &&& pos + word.len() <= s.len()
    &&& s.subrange(pos, pos + word.len()) == word
}

/// Reads the inside of a string from `pos`, the place behind the opening
/// quote. A double quote ends the text. A backslash is dropped and the
/// scalar behind it is taken as it stands, whatever it is. A text that the
/// end of `s` cuts short is an error.
pub open spec fn read_text(s: Seq<char>, pos: int) -> Reading<Seq<char>>
    decreases s.len() - pos,
{
    if !(0 <= pos < s.len()) {
        fail(JsonError::UnexpectedEnd, 0)
    } else if s[pos] == '"' {
        done(Seq::empty(), 1)
    } else if s[pos] == '\\' {
        if pos + 1 >= s.len() {
            fail(JsonError::UnexpectedEnd, 1)
        } else {
            with_front(read_text(s, pos + 2), s[pos + 1], 2)
        }
    } else {
        with_front(read_text(s, pos + 1), s[pos], 1)
    }
}

/// Reads the key of an entry at `pos`: a string, which a double quote
/// must open.
pub open spec fn read_key(s: Seq<char>, pos: int) -> Reading<Seq<char>> {
    if !(0 <= pos < s.len()) {
        fail(JsonError::UnexpectedEnd, 0)
    } else if s[pos] != '"' {
        fail(JsonError::InvalidKey, 0)
    } else {
        read_text(s, pos + 1).after(1)
    }
}

/// Reads `true` or `false` at `pos`.
pub open spec fn read_bool(s: Seq<char>, pos: int) -> Reading<JsonModel> {
    if stands_at(s, pos, seq!['t', 'r', 'u', 'e']) {
        done(JsonModel::Bool(true), 4)
    } else if stands_at(s, pos, seq!['f', 'a', 'l', 's', 'e']) {
        done(JsonModel::Bool(false), 5)
    } else {
        fail(JsonError::InvalidValue, 0)
    }
}

/// Reads `null` at `pos`.
pub open spec fn read_null(s: Seq<char>, pos: int) -> Reading<JsonModel> {
    if stands_at(s, pos, seq!['n', 'u', 'l', 'l']) {
        done(JsonModel::Null, 4)
    } else {
        fail(JsonError::InvalidValue, 0)
    }
}

/// Reads a number at `pos`: the longest span of scalars that may stand in
/// a number, which must then be a number literal.
pub open spec fn read_number(s: Seq<char>, pos: int) -> Reading<JsonModel> {
    let n = number_run(s, pos);
    let span = s.subrange(pos, pos + n);
    if is_number_literal(span) {
        done(JsonModel::Number(span), n)
    } else {
        fail(JsonError::InvalidNumber, n)
    }
}

/// Reads a value from `pos`: whitespace is passed, then the first scalar
/// decides what is read.
pub open spec fn read_value(s: Seq<char>, pos: int) -> Reading<JsonModel>
    decreases s.len() - pos, 2nat,
{
    let gap = space_run(s, pos);
    let p = pos + gap;
    if !(0 <= p < s.len()) {
        fail(JsonError::UnexpectedEnd, gap)
    } else if s[p] == '{' {
        read_object(s, p + 1).after(gap + 1)
    } else if s[p] == '[' {
        read_array(s, p + 1).after(gap + 1)
    } else if s[p] == '"' {
        as_text_value(read_text(s, p + 1)).after(gap + 1)
    } else if s[p] == 't' || s[p] == 'f' {
        read_bool(s, p).after(gap)
    } else if s[p] == 'n' {
        read_null(s, p).after(gap)
    } else if numeric(s[p]) || s[p] == '-' {
        read_number(s, p).after(gap)
    } else {
        fail(JsonError::InvalidValue, gap)
    }
}

/// Reads a mapping from `pos`, the place behind its opening brace.
pub open spec fn read_object(s: Seq<char>, pos: int) -> Reading<JsonModel>
    decreases s.len() - pos, 1nat,
{
    let gap = space_run(s, pos);
    if 0 <= pos + gap < s.len() && s[pos + gap] == '}' {
        done(JsonModel::Mapping(Seq::empty()), gap + 1)
    } else {
        read_members(s, pos, Seq::empty())
    }
}

/// Reads the entries of a mapping from `pos` on, up to its closing brace,
/// and writes them to the entries `so_far` read before: a key, a colon, a
/// value, then a comma and more entries, or the closing brace. A key read
/// twice keeps its last value.
pub open spec fn read_members(
    s: Seq<char>,
    pos: int,
    so_far: Seq<(Seq<char>, JsonModel)>,
) -> Reading<JsonModel>
    decreases s.len() - pos, 0nat,
{
    let gap = space_run(s, pos);
    let key = read_key(s, pos + gap);
    let after_key = gap + key.taken;
    match key.result {
        Err(e) => fail(e, after_key),
        Ok(name) => {
            let colon = after_key + space_run(s, pos + after_key);
            if !(0 <= pos + colon < s.len() && s[pos + colon] == ':') {
                fail(JsonError::ExpectedColon, colon)
            } else {
                let value = read_value(s, pos + colon + 1);
                let after_value = colon + 1 + value.taken;
                match value.result {
                    Err(e) => fail(e, after_value),
                    Ok(v) => {
                        let entries = put(so_far, name, v);
                        let mark = after_value + space_run(s, pos + after_value);
                        if 0 <= pos + mark < s.len() && s[pos + mark] == ',' {
                            read_members(s, pos + mark + 1, entries).after(mark + 1)
                        } else if 0 <= pos + mark < s.len() && s[pos + mark] == '}' {
                            done(JsonModel::Mapping(entries), mark + 1)
                        } else {
                            fail(JsonError::InvalidObject, mark)
                        }
                    },
                }
            }
        },
    }
}

/// Reads a list from `pos`, the place behind its opening bracket.
pub open spec fn read_array(s: Seq<char>, pos: int) -> Reading<JsonModel>
    decreases s.len() - pos, 4nat,
{
    let gap = space_run(s, pos);
    if 0 <= pos + gap < s.len() && s[pos + gap] == ']' {
        done(JsonModel::List(Seq::empty()), gap + 1)
    } else {
        read_elements(s, pos, Seq::empty())
    }
}

/// Reads the items of a list from `pos` on, up to its closing bracket, and
/// sets them behind the items `so_far` read before: a value, then a comma
/// and more items, or the closing bracket.
pub open spec fn read_elements(s: Seq<char>, pos: int, so_far: Seq<JsonModel>) -> Reading<
    JsonModel,
>
    decreases s.len() - pos, 3nat,
{
    let value = read_value(s, pos);
    match value.result {
        Err(e) => fail(e, value.taken),
        Ok(v) => {
            let items = so_far.push(v);
            let mark = value.taken + space_run(s, pos + value.taken);
            if 0 <= pos + mark < s.len() && s[pos + mark] == ',' {
                read_elements(s, pos + mark + 1, items).after(mark + 1)
            } else if 0 <= pos + mark < s.len() && s[pos + mark] == ']' {
                done(JsonModel::List(items), mark + 1)
            } else {
                fail(JsonError::InvalidArray, mark)
            }
        },
    }
}

/// What parsing the whole text `s` gives: the first value in it. What
/// follows that value is not looked at.
pub open spec fn parse_document(s: Seq<char>) -> Result<JsonModel, JsonError> {
    read_value(s, 0).result
}


/// A whitespace run ends inside the text, before a scalar that is no
/// whitespace.
pub proof fn lemma_space_run(s: Seq<char>, pos: int)
    requires
        0 <= pos <= s.len(),
    ensures
        pos + space_run(s, pos) <= s.len(),
        pos + space_run(s, pos) < s.len() ==> !whitespace(s[pos + space_run(s, pos)]),
        space_run(s, pos + space_run(s, pos)) == 0,
    decreases s.len() - pos,
{
    if pos < s.len() && whitespace(s[pos]) {
        lemma_space_run(s, pos + 1);
    }
}

/// Reading a value gives the same whether it starts before the whitespace
/// in front of the value or behind it.
pub proof fn lemma_value_skip(s: Seq<char>, pos: int)
    requires
        0 <= pos <= s.len(),
    ensures
        read_value(s, pos) == read_value(s, pos + space_run(s, pos)).after(space_run(s, pos)),
{
    lemma_space_run(s, pos);
}

/// Reading the entries of a mapping gives the same whether it starts
/// before the whitespace in front of the first key or behind it.
pub proof fn lemma_members_skip(s: Seq<char>, pos: int, so_far: Seq<(Seq<char>, JsonModel)>)
    requires
        0 <= pos <= s.len(),
    ensures
        read_members(s, pos, so_far) == read_members(s, pos + space_run(s, pos), so_far).after(
            space_run(s, pos),
        ),
{
    lemma_space_run(s, pos);
}

/// Reading the items of a list gives the same whether it starts before
/// the whitespace in front of the first item or behind it.
pub proof fn lemma_elements_skip(s: Seq<char>, pos: int, so_far: Seq<JsonModel>)
    requires
        0 <= pos <= s.len(),
    ensures
        read_elements(s, pos, so_far) == read_elements(s, pos + space_run(s, pos), so_far).after(
            space_run(s, pos),
        ),
{
    lemma_space_run(s, pos);
    lemma_value_skip(s, pos);
}

/// Every value that is read is well-formed: its numbers are number
/// literals, and no mapping in it holds a key twice.
pub proof fn lemma_read_value_wf(s: Seq<char>, pos: int)
    ensures
        read_value(s, pos).result matches Ok(m) ==> m.wf(),
    decreases s.len() - pos, 2nat,
{
    let p = pos + space_run(s, pos);
    if 0 <= p < s.len() {
        if s[p] == '{' {
            lemma_read_object_wf(s, p + 1);
        } else if s[p] == '[' {
            lemma_read_array_wf(s, p + 1);
        }
    }
}

/// Every mapping that is read is well-formed.
pub proof fn lemma_read_object_wf(s: Seq<char>, pos: int)
    ensures
        read_object(s, pos).result matches Ok(m) ==> m.wf(),
    decreases s.len() - pos, 1nat,
{
    let gap = space_run(s, pos);
    if !(0 <= pos + gap < s.len() && s[pos + gap] == '}') {
        lemma_read_members_wf(s, pos, Seq::empty());
    }
}

/// Reading more entries into a well-formed mapping gives a well-formed
/// mapping.
pub proof fn lemma_read_members_wf(s: Seq<char>, pos: int, so_far: Seq<(Seq<char>, JsonModel)>)
    requires
        JsonModel::Mapping(so_far).wf(),
    ensures
        read_members(s, pos, so_far).result matches Ok(m) ==> m.wf(),
    decreases s.len() - pos, 0nat,
{
    let gap = space_run(s, pos);
    let key = read_key(s, pos + gap);
    let after_key = gap + key.taken;
    if let Ok(name) = key.result {
        let colon = after_key + space_run(s, pos + after_key);
        if 0 <= pos + colon < s.len() && s[pos + colon] == ':' {
            let value = read_value(s, pos + colon + 1);
            lemma_read_value_wf(s, pos + colon + 1);
            if let Ok(v) = value.result {
                let after_value = colon + 1 + value.taken;
                let mark = after_value + space_run(s, pos + after_value);
                lemma_put_wf(so_far, name, v);
                if 0 <= pos + mark < s.len() && s[pos + mark] == ',' {
                    lemma_read_members_wf(s, pos + mark + 1, put(so_far, name, v));
                }
            }
        }
    }
}

/// Every list that is read is well-formed.
pub proof fn lemma_read_array_wf(s: Seq<char>, pos: int)
    ensures
        read_array(s, pos).result matches Ok(m) ==> m.wf(),
    decreases s.len() - pos, 4nat,
{
    let gap = space_run(s, pos);
    if !(0 <= pos + gap < s.len() && s[pos + gap] == ']') {
        lemma_read_elements_wf(s, pos, Seq::empty());
    }
}

/// Reading more items behind well-formed items gives a well-formed list.
pub proof fn lemma_read_elements_wf(s: Seq<char>, pos: int, so_far: Seq<JsonModel>)
    requires
        JsonModel::List(so_far).wf(),
    ensures
        read_elements(s, pos, so_far).result matches Ok(m) ==> m.wf(),
    decreases s.len() - pos, 3nat,
{
    let value = read_value(s, pos);
    lemma_read_value_wf(s, pos);
    if let Ok(v) = value.result {
        let items = so_far.push(v);
        let before = JsonModel::List(so_far);
        assert(before.wf());
        assert(before->List_0 == so_far);
        assert(forall|i: int| 0 <= i < so_far.len() ==> (#[trigger] so_far[i]).wf());
        assert forall|i: int| 0 <= i < items.len() implies (#[trigger] items[i]).wf() by {
            if i < so_far.len() {
                assert(items[i] == so_far[i]);
                assert(so_far[i].wf());
            } else {
                assert(items[i] == v);
            }
        }
        let mark = value.taken + space_run(s, pos + value.taken);
        if 0 <= pos + mark < s.len() && s[pos + mark] == ',' {
            lemma_read_elements_wf(s, pos + mark + 1, items);
        }
    }
}

/// A string that the end of the text cuts short is rejected: where no
/// double quote and no backslash stands from `pos` on, reading the inside
/// of a string from `pos` fails with `UnexpectedEnd`, at the end of the
/// text.
pub proof fn truncated_string_is_rejected(s: Seq<char>, pos: int)
    requires
        0 <= pos <= s.len(),
        forall|i: int| pos <= i < s.len() ==> (#[trigger] s[i]) != '"' && s[i] != '\\',
    ensures
        read_text(s, pos) == fail::<Seq<char>>(JsonError::UnexpectedEnd, (s.len() - pos) as nat),
    decreases s.len() - pos,
{
    if pos < s.len() {
        truncated_string_is_rejected(s, pos + 1);
    }
}

/// A text of nothing but whitespace is rejected with `UnexpectedEnd`.
pub proof fn blank_text_is_rejected(s: Seq<char>)
    requires
        forall|i: int| 0 <= i < s.len() ==> whitespace(#[trigger] s[i]),
    ensures
        parse_document(s) == Err::<JsonModel, JsonError>(JsonError::UnexpectedEnd),
{
    lemma_space_run(s, 0);
}

/// Every document that parsing gives is well-formed.
pub proof fn parsed_is_well_formed(s: Seq<char>)
    ensures
        parse_document(s) matches Ok(m) ==> m.wf(),
{
    lemma_read_value_wf(s, 0);
}

/// Whether the outcome `r` of a parser is the outcome `m` that the grammar
/// gives: the same error, or a value whose mathematical form is `m`'s.
pub open spec fn agrees(r: Result<JsonValue, JsonError>, m: Result<JsonModel, JsonError>) -> bool {
    match r {
        Ok(v) => m == Ok::<JsonModel, JsonError>(v@),
        Err(e) => m == Err::<JsonModel, JsonError>(e),
    }
}

/// The outcome of a parser in mathematical form.
pub open spec fn outcome_model(r: Result<JsonValue, JsonError>) -> Result<JsonModel, JsonError> {
    match r {
        Ok(v) => Ok(v@),
        Err(e) => Err(e),
    }
}

/// Whether the text outcome `r` of a parser is the outcome `m` that the
/// grammar gives.
pub open spec fn agrees_text(r: Result<String, JsonError>, m: Result<Seq<char>, JsonError>) -> bool {
    match r {
        Ok(t) => m == Ok::<Seq<char>, JsonError>(t@),
        Err(e) => m == Err::<Seq<char>, JsonError>(e),
    }
}

/// The outcome `r` of reading a text's tail, with `front` set before the
/// text.
pub open spec fn prefixed(front: Seq<char>, r: Result<Seq<char>, JsonError>) -> Result<
    Seq<char>,
    JsonError,
> {
    match r {
        Ok(t) => Ok(front + t),
        Err(e) => Err(e),
    }
}

/// A reader of one text, with the place it has reached.
pub struct JsonParser {
    input: Vec<char>,
    pos: usize,
}

fn is_number_char(c: char) -> (r: bool)
    ensures
        r == number_char(c),
{
    c.is_numeric() || c == '.' || c == '-' || c == 'e' || c == 'E' || c == '+'
}

impl JsonParser {
    /// The text that the parser reads.
    pub closed spec fn source(&self) -> Seq<char> {
        self.input@
    }

    /// The place in the text that the parser has reached.
    pub closed spec fn cursor(&self) -> int {
        self.pos as int
    }

    #[verifier::type_invariant]
    spec fn well_formed(&self) -> bool {
        self.pos <= self.input.len()
    }

    /// A parser at the start of `input`.
    pub fn new(input: &str) -> (parser: JsonParser)
        ensures
            parser.source() == input@,
            parser.cursor() == 0,
    {
        JsonParser { input: chars_of(input), pos: 0 }
    }

    /// Reads the next value, from the place the parser has reached, and
    /// stops behind it, or where reading failed.
    pub fn parse(&mut self) -> (r: Result<JsonValue, JsonError>)
        ensures
            final(self).source() == old(self).source(),
            0 <= old(self).cursor() <= final(self).cursor() <= final(self).source().len(),
            final(self).cursor() == old(self).cursor() + read_value(
                old(self).source(),
                old(self).cursor(),
            ).taken,
            agrees(r, read_value(old(self).source(), old(self).cursor()).result),
    {
        self.parse_value()
    }

    /// Whether the parser has reached the end of the text.
    pub fn at_end(&self) -> (r: bool)
        ensures
            r == (self.cursor() >= self.source().len()),
            0 <= self.cursor() <= self.source().len(),
    {
        proof {
            use_type_invariant(self);
        }
        self.pos >= self.input.len()
    }

    /// The scalar at the place the parser has reached.
    pub fn current_char(&self) -> (c: char)
        requires
            0 <= self.cursor() < self.source().len(),
        ensures
            c == self.source()[self.cursor()],
    {
        self.input[self.pos]
    }

    /// Passes the whitespace at the place the parser has reached.
    pub fn skip_whitespace(&mut self)
        ensures
            final(self).source() == old(self).source(),
            0 <= old(self).cursor() <= final(self).cursor() <= final(self).source().len(),
            final(self).cursor() == old(self).cursor() + space_run(
                old(self).source(),
                old(self).cursor(),
            ),
    {
        proof {
            use_type_invariant(&*self);
        }
        while self.pos < self.input.len() && self.input[self.pos].is_whitespace()
            invariant
                self.input == old(self).input,
                old(self).pos <= self.pos <= self.input.len(),
                self.pos + space_run(self.input@, self.pos as int) == old(self).pos + space_run(
                    self.input@,
                    old(self).pos as int,
                ),
            decreases self.input.len() - self.pos,
        {
            self.pos += 1;
        }
    }

    /// Whether `s` stands in the text at the place the parser has reached.
    pub fn matches_str(&self, s: &str) -> (r: bool)
        ensures
            r == stands_at(self.source(), self.cursor(), s@),
    {
        proof {
            use_type_invariant(self);
        }
        let word = chars_of(s);
        if word.len() > self.input.len() - self.pos {
            return false;
        }
        let mut i: usize = 0;
        while i < word.len()
            invariant
                word@ == s@,
                self.pos + word.len() <= self.input.len(),
                i <= word.len(),
                forall|k: int| 0 <= k < i ==> self.input@[self.pos + k] == word@[k],
            decreases word.len() - i,
        {
            if self.input[self.pos + i] != word[i] {
                assert(self.input@.subrange(self.pos as int, self.pos + word.len())[i as int]
                    != word@[i as int]);
                return false;
            }
            i += 1;
        }
        assert(self.input@.subrange(self.pos as int, self.pos + word.len()) =~= word@);
        true
    }

    /// Reads the inside of a string, from behind its opening quote.
    fn parse_text(&mut self) -> (r: Result<String, JsonError>)
        ensures
            final(self).source() == old(self).source(),
            final(self).cursor() == old(self).cursor() + read_text(
                old(self).source(),
                old(self).cursor(),
            ).taken,
            agrees_text(r, read_text(old(self).source(), old(self).cursor()).result),
    {
        proof {
            use_type_invariant(&*self);
        }
        let ghost s = self.input@;
        let ghost start = self.pos as int;
        let mut text = String::new();
        assert(prefixed(text@, read_text(s, start).result) == read_text(s, start).result) by {
            match read_text(s, start).result {
                Ok(t) => {
                    assert(text@ + t =~= t);
                },
                Err(_) => {},
            }
        }
        loop
            invariant
                self.input@ == s,
                s == old(self).input@,
                start == old(self).pos,
                start <= self.pos <= s.len(),
                read_text(s, start).taken == (self.pos - start) + read_text(
                    s,
                    self.pos as int,
                ).taken,
                read_text(s, start).result == prefixed(
                    text@,
                    read_text(s, self.pos as int).result,
                ),
            decreases s.len() - self.pos,
        {
            if self.pos >= self.input.len() {
                return Err(JsonError::UnexpectedEnd);
            }
            let c = self.input[self.pos];
            if c == '"' {
                self.pos += 1;
                assert(text@ + Seq::<char>::empty() =~= text@);
                return Ok(text);
            }
            let ghost front = text@;
            if c == '\\' {
                self.pos += 1;
                if self.pos >= self.input.len() {
                    return Err(JsonError::UnexpectedEnd);
                }
                text.push(self.input[self.pos]);
                self.pos += 1;
            } else {
                text.push(c);
                self.pos += 1;
            }
            proof {
                let rest = read_text(s, self.pos as int);
                match rest.result {
                    Ok(t) => {
                        let taken_char = text@.last();
                        assert(front + (seq![taken_char] + t) =~= text@ + t);
                    },
                    Err(_) => {},
                }
            }
        }
    }

    /// Reads a string, from its opening quote.
    fn parse_string(&mut self) -> (r: Result<JsonValue, JsonError>)
        requires
            old(self).cursor() < old(self).source().len(),
        ensures
            final(self).source() == old(self).source(),
            final(self).cursor() == old(self).cursor() + 1 + read_text(
                old(self).source(),
                old(self).cursor() + 1,
            ).taken,
            agrees(r, as_text_value(read_text(old(self).source(), old(self).cursor() + 1)).result),
    {
        proof {
            use_type_invariant(&*self);
        }
        self.pos += 1;
        match self.parse_text() {
            Ok(text) => Ok(JsonValue::String(text)),
            Err(e) => Err(e),
        }
    }

    /// Reads a number, from its first scalar.
    fn parse_number(&mut self) -> (r: Result<JsonValue, JsonError>)
        ensures
            final(self).source() == old(self).source(),
            final(self).cursor() == old(self).cursor() + read_number(
                old(self).source(),
                old(self).cursor(),
            ).taken,
            agrees(r, read_number(old(self).source(), old(self).cursor()).result),
    {
        proof {
            use_type_invariant(&*self);
        }
        let ghost s = self.input@;
        let start = self.pos;
        let mut span: Vec<char> = Vec::new();
        assert(span@ =~= s.subrange(start as int, start as int));
        while self.pos < self.input.len() && is_number_char(self.input[self.pos])
            invariant
                self.input@ == s,
                start <= self.pos <= s.len(),
                span@ == s.subrange(start as int, self.pos as int),
                self.pos + number_run(s, self.pos as int) == start + number_run(s, start as int),
            decreases s.len() - self.pos,
        {
            span.push(self.input[self.pos]);
            self.pos += 1;
            assert(span@ =~= s.subrange(start as int, self.pos as int));
        }
        match Number::from_chars(&span) {
            Some(n) => Ok(JsonValue::Number(n)),
            None => Err(JsonError::InvalidNumber),
        }
    }

    /// Reads `true` or `false`.
    fn parse_bool(&mut self) -> (r: Result<JsonValue, JsonError>)
        ensures
            final(self).source() == old(self).source(),
            final(self).cursor() == old(self).cursor() + read_bool(
                old(self).source(),
                old(self).cursor(),
            ).taken,
            agrees(r, read_bool(old(self).source(), old(self).cursor()).result),
    {
        proof {
            use_type_invariant(&*self);
            reveal_strlit("true");
            reveal_strlit("false");
            assert("true"@ =~= seq!['t', 'r', 'u', 'e']);
            assert("false"@ =~= seq!['f', 'a', 'l', 's', 'e']);
        }
        if self.matches_str("true") {
            self.pos += 4;
            Ok(JsonValue::Bool(true))
        } else if self.matches_str("false") {
            self.pos += 5;
            Ok(JsonValue::Bool(false))
        } else {
            Err(JsonError::InvalidValue)
        }
    }

    /// Reads `null`.
    fn parse_null(&mut self) -> (r: Result<JsonValue, JsonError>)
        ensures
            final(self).source() == old(self).source(),
            final(self).cursor() == old(self).cursor() + read_null(
                old(self).source(),
                old(self).cursor(),
            ).taken,
            agrees(r, read_null(old(self).source(), old(self).cursor()).result),
    {
        proof {
            use_type_invariant(&*self);
            reveal_strlit("null");
            assert("null"@ =~= seq!['n', 'u', 'l', 'l']);
        }
        if self.matches_str("null") {
            self.pos += 4;
            Ok(JsonValue::Null)
        } else {
            Err(JsonError::InvalidValue)
        }
    }

    /// Reads a value: passes whitespace, then looks at the first scalar.
    fn parse_value(&mut self) -> (r: Result<JsonValue, JsonError>)
        ensures
            final(self).source() == old(self).source(),
            0 <= old(self).cursor() <= final(self).cursor() <= final(self).source().len(),
            final(self).cursor() == old(self).cursor() + read_value(
                old(self).source(),
                old(self).cursor(),
            ).taken,
            agrees(r, read_value(old(self).source(), old(self).cursor()).result),
        decreases old(self).source().len() - old(self).cursor(), 2nat,
    {
        proof {
            use_type_invariant(&*self);
        }
        self.skip_whitespace();
        proof {
            use_type_invariant(&*self);
        }
        if self.pos >= self.input.len() {
            return Err(JsonError::UnexpectedEnd);
        }
        let c = self.current_char();
        let r = if c == '{' {
            self.parse_object()
        } else if c == '[' {
            self.parse_array()
        } else if c == '"' {
            self.parse_string()
        } else if c == 't' || c == 'f' {
            self.parse_bool()
        } else if c == 'n' {
            self.parse_null()
        } else if c.is_numeric() || c == '-' {
            self.parse_number()
        } else {
            Err(JsonError::InvalidValue)
        };
        proof {
            use_type_invariant(&*self);
        }
        r
    }

    /// Reads a mapping, from its opening brace.
    #[verifier::rlimit(40)]
    fn parse_object(&mut self) -> (r: Result<JsonValue, JsonError>)
        requires
            0 <= old(self).cursor() < old(self).source().len(),
        ensures
            final(self).source() == old(self).source(),
            final(self).cursor() == old(self).cursor() + 1 + read_object(
                old(self).source(),
                old(self).cursor() + 1,
            ).taken,
            agrees(r, read_object(old(self).source(), old(self).cursor() + 1).result),
        decreases old(self).source().len() - old(self).cursor(), 1nat,
    {
        proof {
            use_type_invariant(&*self);
        }
        let ghost s = self.input@;
        self.pos += 1;
        let ghost begin = self.pos as int;
        let ghost goal = read_object(s, begin);
        self.skip_whitespace();
        proof {
            use_type_invariant(&*self);
            lemma_space_run(s, begin);
            lemma_members_skip(s, begin, Seq::empty());
        }
        if self.pos < self.input.len() && self.current_char() == '}' {
            self.pos += 1;
            return Ok(JsonValue::Object(JsonObject::new()));
        }
        let mut obj = JsonObject::new();
        loop
            invariant
                self.input@ == s,
                s == old(self).input@,
                begin == old(self).pos + 1,
                begin <= self.pos <= s.len(),
                goal == read_object(s, begin),
                goal == read_members(s, self.pos as int, obj@).after((self.pos - begin) as nat),
            decreases s.len() - self.pos,
        {
            let ghost here = self.pos as int;
            self.skip_whitespace();
            proof {
                use_type_invariant(&*self);
                lemma_space_run(s, here);
            }
            if self.pos >= self.input.len() {
                return Err(JsonError::UnexpectedEnd);
            }
            if self.current_char() != '"' {
                return Err(JsonError::InvalidKey);
            }
            self.pos += 1;
            let key = match self.parse_text() {
                Ok(k) => k,
                Err(e) => {
                    return Err(e);
                },
            };
            let ghost after_key = self.pos as int;
            self.skip_whitespace();
            proof {
                use_type_invariant(&*self);
                lemma_space_run(s, after_key);
            }
            if !(self.pos < self.input.len() && self.current_char() == ':') {
                return Err(JsonError::ExpectedColon);
            }
            self.pos += 1;
            let value = match self.parse_value() {
                Ok(v) => v,
                Err(e) => {
                    return Err(e);
                },
            };
            obj.insert(key, value);
            let ghost after_value = self.pos as int;
            self.skip_whitespace();
            proof {
                use_type_invariant(&*self);
                lemma_space_run(s, after_value);
            }
            if self.pos < self.input.len() && self.current_char() == ',' {
                self.pos += 1;
            } else if self.pos < self.input.len() && self.current_char() == '}' {
                self.pos += 1;
                return Ok(JsonValue::Object(obj));
            } else {
                return Err(JsonError::InvalidObject);
            }
        }
    }

    /// Reads a list, from its opening bracket.
    fn parse_array(&mut self) -> (r: Result<JsonValue, JsonError>)
        requires
            0 <= old(self).cursor() < old(self).source().len(),
        ensures
            final(self).source() == old(self).source(),
            final(self).cursor() == old(self).cursor() + 1 + read_array(
                old(self).source(),
                old(self).cursor() + 1,
            ).taken,
            agrees(r, read_array(old(self).source(), old(self).cursor() + 1).result),
        decreases old(self).source().len() - old(self).cursor(), 1nat,
    {
        proof {
            use_type_invariant(&*self);
        }
        let ghost s = self.input@;
        self.pos += 1;
        let ghost begin = self.pos as int;
        let ghost goal = read_array(s, begin);
        self.skip_whitespace();
        proof {
            use_type_invariant(&*self);
            lemma_space_run(s, begin);
            lemma_elements_skip(s, begin, Seq::empty());
        }
        if self.pos < self.input.len() && self.current_char() == ']' {
            self.pos += 1;
            assert(models(Seq::<JsonValue>::empty()) =~= Seq::<JsonModel>::empty());
            return Ok(JsonValue::Array(Vec::new()));
        }
        let mut arr: Vec<JsonValue> = Vec::new();
        assert(models(arr@) =~= Seq::<JsonModel>::empty());
        loop
            invariant
                self.input@ == s,
                s == old(self).input@,
                begin == old(self).pos + 1,
                begin <= self.pos <= s.len(),
                goal == read_array(s, begin),
                goal == read_elements(s, self.pos as int, models(arr@)).after(
                    (self.pos - begin) as nat,
                ),
            decreases s.len() - self.pos,
        {
            let ghost so_far = arr@;
            let value = match self.parse_value() {
                Ok(v) => v,
                Err(e) => {
                    return Err(e);
                },
            };
            arr.push(value);
            assert(models(arr@) =~= models(so_far).push(value@));
            let ghost after_value = self.pos as int;
            self.skip_whitespace();
            proof {
                use_type_invariant(&*self);
                lemma_space_run(s, after_value);
            }
            if self.pos < self.input.len() && self.current_char() == ',' {
                self.pos += 1;
            } else if self.pos < self.input.len() && self.current_char() == ']' {
                self.pos += 1;
                return Ok(JsonValue::Array(arr));
            } else {
                return Err(JsonError::InvalidArray);
            }
        }
    }
}

/// Parses `input`: the first value in it. What follows that value is not
/// looked at.
pub fn parse(input: &str) -> (r: Result<JsonValue, JsonError>)
    ensures
        agrees(r, parse_document(input@)),
        r matches Ok(v) ==> v@.wf(),
{
    proof {
        parsed_is_well_formed(input@);
    }
    let mut parser = JsonParser::new(input);
    parser.parse()
}

} // verus!
