//! Parsing inverts rendering.

use vstd::prelude::*;
use crate::number::{digit_run, exponent_at, is_number_literal, is_sign, lemma_digit_run};
use crate::parser::{
    as_text_value, done, number_char, number_run, parse_document, read_array, read_bool,
    read_elements, read_key, read_members, read_null, read_number, read_object, read_text,
    read_value, space_run, with_front,
};
use crate::unicode::{is_digit, whitespace};
use crate::value::{
    alike, escape, escape_char, join, lemma_alike_reflexive, lemma_escape_concat, lemma_put_new,
    pairs, put, quote, render, render_entries,
    render_entry, render_items, JsonModel,
};

verus! {

/// Whether a text reads back as it was written: it holds no line feed, no
/// carriage return and no tab. Each of the three is written as a backslash
/// and a letter, and read back as that letter.
pub open spec fn plain_text(t: Seq<char>) -> bool {
    forall|i: int| 0 <= i < t.len() ==> plain_char(#[trigger] t[i])
}

/// Whether `c` is none of line feed, carriage return and tab.
pub open spec fn plain_char(c: char) -> bool {
    c != '\n' && c != '\r' && c != '\t'
}

/// Whether every text and every key in the value reads back as it was
/// written.
pub open spec fn plain(m: JsonModel) -> bool
    decreases m,
{
    match m {
        JsonModel::Text(t) => plain_text(t),
        JsonModel::List(items) => forall|i: int|
            0 <= i < items.len() ==> plain(#[trigger] items[i]),
        JsonModel::Mapping(entries) => forall|i: int|
            0 <= i < entries.len() ==> plain_text((#[trigger] entries[i]).0) && plain(
                entries[i].1,
            ),
        _ => true,
    }
}

/// Whether a value's text can start with `c`.
pub open spec fn value_start(c: char) -> bool {
    c == '{' || c == '[' || c == '"' || c == 't' || c == 'f' || c == 'n' || c == '-' || is_digit(
        c,
    )
}

/// What follows from `s` holding `a` at `pos` and then `r` up to its end.
pub proof fn lemma_starts_with(s: Seq<char>, pos: int, a: Seq<char>, r: Seq<char>)
    requires
        0 <= pos <= s.len(),
        s.skip(pos) == a + r,
    ensures
        pos + a.len() + r.len() == s.len(),
        forall|i: int| 0 <= i < a.len() ==> s[pos + i] == a[i],
        forall|i: int| 0 <= i < r.len() ==> s[pos + a.len() + i] == r[i],
        s.skip(pos + a.len()) == r,
        s.subrange(pos, pos + a.len()) == a,
{
    assert(s.skip(pos).len() == s.len() - pos);
    assert forall|i: int| 0 <= i < a.len() implies s[pos + i] == a[i] by {
        assert(s.skip(pos)[i] == s[pos + i]);
        assert((a + r)[i] == a[i]);
    }
    assert forall|i: int| 0 <= i < r.len() implies s[pos + a.len() + i] == r[i] by {
        assert(s.skip(pos)[a.len() + i] == s[pos + a.len() + i]);
        assert((a + r)[a.len() + i] == r[i]);
    }
    assert(s.skip(pos + a.len()) =~= r);
    assert(s.subrange(pos, pos + a.len()) =~= a);
}

/// No whitespace is passed where the scalar at `pos` is none.
pub proof fn lemma_no_space(s: Seq<char>, pos: int)
    requires
        0 <= pos < s.len(),
        !whitespace(s[pos]),
    ensures
        space_run(s, pos) == 0,
{
}

/// Joining from the front: the first part, then a comma and the rest.
pub proof fn lemma_join_front(parts: Seq<Seq<char>>)
    requires
        parts.len() >= 1,
    ensures
        join(parts) == if parts.len() == 1 {
            parts[0]
        } else {
            parts[0] + seq![','] + join(parts.drop_first())
        },
    decreases parts.len(),
{
    if parts.len() >= 2 {
        let init = parts.drop_last();
        let tail = parts.drop_first();
        lemma_join_front(init);
        if parts.len() == 2 {
            assert(init.len() == 1 && tail.len() == 1);
            assert(join(tail) == tail[0]);
            assert(tail[0] == parts.last());
            assert(join(parts) =~= parts[0] + seq![','] + join(tail));
        } else {
            assert(tail.drop_last() =~= init.drop_first());
            assert(tail.last() == parts.last());
            assert(join(parts) =~= parts[0] + seq![','] + join(tail));
        }
    }
}

/// Every scalar of a number literal may stand in the span of a number.
pub proof fn lemma_literal_chars(t: Seq<char>)
    requires
        is_number_literal(t),
    ensures
        forall|i: int| 0 <= i < t.len() ==> number_char(#[trigger] t[i]),
{
    let sign: int = if 0 < t.len() && is_sign(t[0]) { 1 } else { 0 };
    let whole = digit_run(t, sign);
    let point = sign + whole;
    lemma_digit_run(t, sign);
    let has_point = point < t.len() && t[point] == '.';
    let fraction = if has_point { digit_run(t, point + 1) } else { 0 };
    if has_point {
        lemma_digit_run(t, point + 1);
    }
    let mark = if has_point { point + 1 + fraction } else { point };
    if mark < t.len() {
        assert(exponent_at(t, mark));
        let esign: int = if mark + 1 < t.len() && is_sign(t[mark + 1]) { 1 } else { 0 };
        lemma_digit_run(t, mark + 1 + esign);
    }
    assert forall|i: int| 0 <= i < t.len() implies number_char(#[trigger] t[i]) by {
        if i < sign {
        } else if i < point {
            assert(is_digit(t[i]));
        } else if i < mark {
            if i > point {
                assert(is_digit(t[i]));
            }
        } else {
            let esign: int = if mark + 1 < t.len() && is_sign(t[mark + 1]) { 1 } else { 0 };
            if i > mark + esign {
                assert(is_digit(t[i]));
            }
        }
    }
}

/// The span of a number is as long as the run of scalars that may stand
/// in one.
pub proof fn lemma_number_run_exact(s: Seq<char>, pos: int, n: int)
    requires
        0 <= pos,
        0 <= n,
        pos + n <= s.len(),
        forall|i: int| pos <= i < pos + n ==> number_char(#[trigger] s[i]),
        pos + n == s.len() || !number_char(s[pos + n]),
    ensures
        number_run(s, pos) == n,
    decreases n,
{
    if n > 0 {
        assert(number_char(s[pos]));
        lemma_number_run_exact(s, pos + 1, n - 1);
    }
}

/// Reading a text that was escaped and closed by a double quote gives the
/// text back.
pub proof fn lemma_read_escaped(s: Seq<char>, pos: int, t: Seq<char>, rest: Seq<char>)
    requires
        0 <= pos <= s.len(),
        s.skip(pos) == escape(t) + seq!['"'] + rest,
        plain_text(t),
    ensures
        read_text(s, pos) == done(t, escape(t).len() + 1),
    decreases t.len(),
{
    if t.len() == 0 {
        assert(escape(t) + seq!['"'] + rest =~= seq!['"'] + rest);
        lemma_starts_with(s, pos, seq!['"'], rest);
        assert(s[pos + 0] == seq!['"'][0]);
        assert(t =~= Seq::<char>::empty());
    } else {
        let c = t[0];
        let tail = t.drop_first();
        assert(t =~= seq![c] + tail);
        lemma_escape_concat(seq![c], tail);
        assert(escape(seq![c]) =~= escape_char(c)) by {
            assert(seq![c].drop_last() =~= Seq::<char>::empty());
            assert(escape(Seq::<char>::empty()) =~= Seq::<char>::empty());
            assert(seq![c].last() == c);
        }
        let head = escape_char(c);
        let after = escape(tail) + seq!['"'] + rest;
        assert(escape(t) + seq!['"'] + rest =~= head + after);
        lemma_starts_with(s, pos, head, after);
        assert(plain_char(t[0]));
        assert forall|i: int| 0 <= i < tail.len() implies plain_char(#[trigger] tail[i]) by {
            assert(tail[i] == t[i + 1]);
        }
        lemma_read_escaped(s, pos + head.len(), tail, rest);
        let inner = read_text(s, pos + head.len());
        assert(seq![c] + tail =~= t);
        if c == '\\' || c == '"' {
            assert(s[pos + 0] == head[0]);
            assert(s[pos + 1] == head[1]);
            assert(read_text(s, pos) == with_front(inner, c, 2));
        } else {
            assert(s[pos + 0] == head[0]);
            assert(read_text(s, pos) == with_front(inner, c, 1));
        }
    }
}

/// The text of a well-formed value starts with a scalar that opens a value.
pub proof fn lemma_render_start(m: JsonModel)
    requires
        m.wf(),
    ensures
        render(m).len() > 0,
        value_start(render(m)[0]),
        m is Number ==> is_digit(render(m)[0]) || render(m)[0] == '-',
        m is Null ==> render(m)[0] == 'n',
        m is Bool ==> render(m)[0] == 't' || render(m)[0] == 'f',
        m is Text ==> render(m)[0] == '"',
        m is List ==> render(m)[0] == '[',
        m is Mapping ==> render(m)[0] == '{',
{
}

/// What reading a value gives where no whitespace stands in front of it.
pub proof fn lemma_value_at(s: Seq<char>, pos: int)
    requires
        0 <= pos < s.len(),
        !whitespace(s[pos]),
    ensures
        s[pos] == '{' ==> read_value(s, pos) == read_object(s, pos + 1).after(1),
        s[pos] == '[' ==> read_value(s, pos) == read_array(s, pos + 1).after(1),
        s[pos] == '"' ==> read_value(s, pos) == as_text_value(read_text(s, pos + 1)).after(1),
        s[pos] == 't' || s[pos] == 'f' ==> read_value(s, pos) == read_bool(s, pos).after(0),
        s[pos] == 'n' ==> read_value(s, pos) == read_null(s, pos).after(0),
        is_digit(s[pos]) || s[pos] == '-' ==> read_value(s, pos) == read_number(s, pos).after(0),
{
}

/// What reading the entries of a mapping gives where one entry is read
/// well and a comma or the closing brace follows it.
pub proof fn lemma_members_step(
    s: Seq<char>,
    pos: int,
    so_far: Seq<(Seq<char>, JsonModel)>,
    name: Seq<char>,
    key_len: nat,
    v: JsonModel,
    value_len: nat,
)
    requires
        0 <= pos,
        space_run(s, pos) == 0,
        read_key(s, pos) == done(name, key_len),
        space_run(s, pos + key_len) == 0,
        pos + key_len < s.len(),
        s[pos + key_len] == ':',
        read_value(s, pos + key_len + 1) == done(v, value_len),
        space_run(s, pos + key_len + 1 + value_len) == 0,
        pos + key_len + 1 + value_len < s.len(),
    ensures
        s[pos + key_len + 1 + value_len] == ',' ==> read_members(s, pos, so_far) == read_members(
            s,
            pos + key_len + 1 + value_len + 1,
            put(so_far, name, v),
        ).after(key_len + 1 + value_len + 1),
        s[pos + key_len + 1 + value_len] == '}' ==> read_members(s, pos, so_far) == done(
            JsonModel::Mapping(put(so_far, name, v)),
            key_len + 1 + value_len + 1,
        ),
{
}

/// What reading the items of a list gives where one item is read well and
/// a comma or the closing bracket follows it.
pub proof fn lemma_elements_step(
    s: Seq<char>,
    pos: int,
    so_far: Seq<JsonModel>,
    v: JsonModel,
    value_len: nat,
)
    requires
        0 <= pos,
        read_value(s, pos) == done(v, value_len),
        space_run(s, pos + value_len) == 0,
        pos + value_len < s.len(),
    ensures
        s[pos + value_len] == ',' ==> read_elements(s, pos, so_far) == read_elements(
            s,
            pos + value_len + 1,
            so_far.push(v),
        ).after(value_len + 1),
        s[pos + value_len] == ']' ==> read_elements(s, pos, so_far) == done(
            JsonModel::List(so_far.push(v)),
            value_len + 1,
        ),
{
}

/// Reading a quoted key gives the key back.
pub proof fn lemma_read_rendered_key(s: Seq<char>, pos: int, key: Seq<char>, rest: Seq<char>)
    requires
        0 <= pos <= s.len(),
        s.skip(pos) == quote(key) + rest,
        plain_text(key),
    ensures
        read_key(s, pos) == done(key, quote(key).len()),
        read_text(s, pos + 1) == done(key, escape(key).len() + 1),
{
    let inner = escape(key) + seq!['"'] + rest;
    assert(quote(key) + rest =~= seq!['"'] + inner);
    lemma_starts_with(s, pos, seq!['"'], inner);
    assert(s[pos + 0] == seq!['"'][0]);
    lemma_read_escaped(s, pos + 1, key, rest);
}

/// Reading a rendered number gives the number back, where the end or a
/// scalar that cannot stand in a number follows.
pub proof fn lemma_read_rendered_number(s: Seq<char>, pos: int, t: Seq<char>, rest: Seq<char>)
    requires
        0 <= pos <= s.len(),
        s.skip(pos) == t + rest,
        is_number_literal(t),
        rest.len() == 0 || !number_char(rest[0]),
    ensures
        read_number(s, pos) == done(JsonModel::Number(t), t.len()),
{
    lemma_starts_with(s, pos, t, rest);
    lemma_literal_chars(t);
    assert forall|i: int| pos <= i < pos + t.len() implies number_char(#[trigger] s[i]) by {
        assert(s[pos + (i - pos)] == t[i - pos]);
    }
    if rest.len() > 0 {
        assert(s[pos + t.len() + 0] == rest[0]);
    }
    lemma_number_run_exact(s, pos, t.len() as int);
}

/// Reading the text of a well-formed value whose texts read back as
/// written gives the value, whatever follows the text; behind a number
/// there must be the end or a scalar that cannot stand in a number.
pub proof fn lemma_read_rendered(s: Seq<char>, pos: int, m: JsonModel, rest: Seq<char>)
    requires
        0 <= pos <= s.len(),
        s.skip(pos) == render(m) + rest,
        m.wf(),
        plain(m),
        m is Number ==> rest.len() == 0 || !number_char(rest[0]),
    ensures
        read_value(s, pos) == done(m, render(m).len()),
    decreases m, 1nat, 0nat,
{
    let text = render(m);
    lemma_render_start(m);
    lemma_starts_with(s, pos, text, rest);
    assert(s[pos + 0] == text[0]);
    lemma_value_at(s, pos);
    match m {
        JsonModel::Null => {},
        JsonModel::Bool(b) => {},
        JsonModel::Number(t) => {
            lemma_read_rendered_number(s, pos, t, rest);
        },
        JsonModel::Text(t) => {
            lemma_read_rendered_key(s, pos, t, rest);
        },
        JsonModel::List(items) => {
            lemma_read_rendered_list(s, pos, m, rest);
        },
        JsonModel::Mapping(entries) => {
            lemma_read_rendered_mapping(s, pos, m, rest);
        },
    }
}

/// Reading a rendered list from behind its opening bracket gives the list.
pub proof fn lemma_read_rendered_list(s: Seq<char>, pos: int, m: JsonModel, rest: Seq<char>)
    requires
        0 <= pos <= s.len(),
        m is List,
        s.skip(pos) == render(m) + rest,
        m.wf(),
        plain(m),
    ensures
        read_array(s, pos + 1) == done(m, (render(m).len() - 1) as nat),
    decreases m, 0nat, m->List_0.len() + 1,
{
    let items = m->List_0;
    let parts = render_items(items);
    let inner = join(parts) + seq![']'] + rest;
    assert(render(m) + rest =~= seq!['['] + inner);
    lemma_starts_with(s, pos, seq!['['], inner);
    if items.len() == 0 {
        assert(join(parts) =~= Seq::<char>::empty());
        assert(inner =~= seq![']'] + rest);
        lemma_starts_with(s, pos + 1, seq![']'], rest);
        assert(s[pos + 1 + 0] == seq![']'][0]);
        lemma_no_space(s, pos + 1);
        assert(items =~= Seq::<JsonModel>::empty());
    } else {
        assert(parts.skip(0) =~= parts);
        lemma_read_rendered_items(s, pos + 1, m, 0, rest);
        assert(items.take(0) =~= Seq::<JsonModel>::empty());
        lemma_join_front(parts);
        assert(items[0].wf());
        lemma_render_start(items[0]);
        assert(parts[0] == render(items[0]));
        assert(inner[0] == parts[0][0]);
        assert(s[pos + 1 + 0] == inner[0]);
        lemma_no_space(s, pos + 1);
    }
}

/// Reading the items of a rendered list from the item at place `k` on,
/// with the items before it read already, gives the whole list.
pub proof fn lemma_read_rendered_items(
    s: Seq<char>,
    pos: int,
    m: JsonModel,
    k: int,
    rest: Seq<char>,
)
    requires
        m is List,
        0 <= k < m->List_0.len(),
        0 <= pos <= s.len(),
        s.skip(pos) == join(render_items(m->List_0).skip(k)) + seq![']'] + rest,
        m.wf(),
        plain(m),
    ensures
        read_elements(s, pos, m->List_0.take(k)) == done(
            m,
            join(render_items(m->List_0).skip(k)).len() + 1,
        ),
    decreases m, 0nat, m->List_0.len() - k,
{
    let items = m->List_0;
    let parts = render_items(items);
    let tail = parts.skip(k);
    let last = k + 1 == items.len();
    let then = join(parts.skip(k + 1)) + seq![']'] + rest;
    let after = if last {
        seq![']'] + rest
    } else {
        seq![','] + then
    };
    assert(join(tail) + seq![']'] + rest =~= parts[k] + after) by {
        lemma_join_front(tail);
        assert(tail[0] == parts[k]);
        assert(tail.drop_first() =~= parts.skip(k + 1));
    }
    assert(parts[k] == render(items[k]));
    assert(items[k].wf());
    assert(plain(items[k]));
    assert(!number_char(after[0]));
    lemma_read_rendered(s, pos, items[k], after);
    lemma_starts_with(s, pos, parts[k], after);
    let p = pos + parts[k].len();
    assert(s[p + 0] == after[0]);
    lemma_no_space(s, p);
    lemma_elements_step(s, pos, items.take(k), items[k], parts[k].len());
    assert(items.take(k).push(items[k]) =~= items.take(k + 1));
    if last {
        assert(items.take(k + 1) =~= items);
    } else {
        lemma_starts_with(s, p, seq![','], then);
        lemma_read_rendered_items(s, p + 1, m, k + 1, rest);
    }
}

/// Reading a rendered mapping from behind its opening brace gives the
/// mapping.
pub proof fn lemma_read_rendered_mapping(s: Seq<char>, pos: int, m: JsonModel, rest: Seq<char>)
    requires
        0 <= pos <= s.len(),
        m is Mapping,
        s.skip(pos) == render(m) + rest,
        m.wf(),
        plain(m),
    ensures
        read_object(s, pos + 1) == done(m, (render(m).len() - 1) as nat),
    decreases m, 0nat, m->Mapping_0.len() + 1,
{
    let entries = m->Mapping_0;
    let parts = render_entries(entries);
    let inner = join(parts) + seq!['}'] + rest;
    assert(render(m) + rest =~= seq!['{'] + inner);
    lemma_starts_with(s, pos, seq!['{'], inner);
    if entries.len() == 0 {
        assert(join(parts) =~= Seq::<char>::empty());
        assert(inner =~= seq!['}'] + rest);
        lemma_starts_with(s, pos + 1, seq!['}'], rest);
        assert(s[pos + 1 + 0] == seq!['}'][0]);
        lemma_no_space(s, pos + 1);
        assert(entries =~= Seq::<(Seq<char>, JsonModel)>::empty());
    } else {
        assert(parts.skip(0) =~= parts);
        lemma_read_rendered_entries(s, pos + 1, m, 0, rest);
        assert(entries.take(0) =~= Seq::<(Seq<char>, JsonModel)>::empty());
        lemma_join_front(parts);
        assert(parts[0] == render_entry(entries[0].0, render(entries[0].1)));
        assert(parts[0][0] == '"');
        assert(inner[0] == parts[0][0]);
        assert(s[pos + 1 + 0] == inner[0]);
        lemma_no_space(s, pos + 1);
    }
}

/// Reading the entries of a rendered mapping from the entry at place `k`
/// on, with the entries before it read already, gives the whole mapping.
pub proof fn lemma_read_rendered_entries(
    s: Seq<char>,
    pos: int,
    m: JsonModel,
    k: int,
    rest: Seq<char>,
)
    requires
        m is Mapping,
        0 <= k < m->Mapping_0.len(),
        0 <= pos <= s.len(),
        s.skip(pos) == join(render_entries(m->Mapping_0).skip(k)) + seq!['}'] + rest,
        m.wf(),
        plain(m),
    ensures
        read_members(s, pos, m->Mapping_0.take(k)) == done(
            m,
            join(render_entries(m->Mapping_0).skip(k)).len() + 1,
        ),
    decreases m, 0nat, m->Mapping_0.len() - k,
{
    let entries = m->Mapping_0;
    let parts = render_entries(entries);
    let tail = parts.skip(k);
    let last = k + 1 == entries.len();
    let key = entries[k].0;
    let value = entries[k].1;
    let then = join(parts.skip(k + 1)) + seq!['}'] + rest;
    let after = if last {
        seq!['}'] + rest
    } else {
        seq![','] + then
    };
    assert(join(tail) + seq!['}'] + rest =~= parts[k] + after) by {
        lemma_join_front(tail);
        assert(tail[0] == parts[k]);
        assert(tail.drop_first() =~= parts.skip(k + 1));
    }
    assert(parts[k] == render_entry(key, render(value)));
    let behind_key = seq![':'] + (render(value) + after);
    assert(parts[k] + after =~= quote(key) + behind_key);
    // the key
    assert(plain_text(entries[k].0));
    lemma_read_rendered_key(s, pos, key, behind_key);
    lemma_starts_with(s, pos, quote(key), behind_key);
    assert(s[pos + 0] == quote(key)[0]);
    lemma_no_space(s, pos);
    // the colon
    let c = pos + quote(key).len();
    assert(s[c + 0] == behind_key[0]);
    lemma_no_space(s, c);
    lemma_starts_with(s, c, seq![':'], render(value) + after);
    // the value
    assert(value.wf());
    assert(plain(value));
    assert(!number_char(after[0]));
    lemma_read_rendered(s, c + 1, value, after);
    lemma_starts_with(s, c + 1, render(value), after);
    let p = c + 1 + render(value).len();
    assert(s[p + 0] == after[0]);
    lemma_no_space(s, p);
    lemma_members_step(s, pos, entries.take(k), key, quote(key).len(), value, render(value).len());
    assert(p == pos + parts[k].len());
    // the entries read so far
    assert forall|i: int| 0 <= i < entries.take(k).len() implies (#[trigger] entries.take(
        k,
    )[i]).0 != key by {
        assert(entries.take(k)[i] == entries[i]);
    }
    lemma_put_new(entries.take(k), key, value);
    assert(entries.take(k).push((key, value)) =~= entries.take(k + 1));
    if last {
        assert(entries.take(k + 1) =~= entries);
    } else {
        lemma_starts_with(s, p, seq![','], then);
        lemma_read_rendered_entries(s, p + 1, m, k + 1, rest);
    }
}

/// Parsing the text of a value gives the value back: this holds of every
/// well-formed value, with or without mappings in it, whose texts and keys
/// hold no line feed, carriage return or tab.
pub proof fn parse_inverts_render(m: JsonModel)
    requires
        m.wf(),
        plain(m),
    ensures
        parse_document(render(m)) == Ok::<JsonModel, crate::parser::JsonError>(m),
{
    let s = render(m);
    assert(s.skip(0) =~= s + Seq::<char>::empty());
    lemma_read_rendered(s, 0, m, Seq::empty());
}

/// Parsing the text of a mapping gives a mapping with the same pairs of
/// key and value, whatever the order of its entries.
pub proof fn parse_keeps_pairs(entries: Seq<(Seq<char>, JsonModel)>)
    requires
        JsonModel::Mapping(entries).wf(),
        plain(JsonModel::Mapping(entries)),
    ensures
        parse_document(render(JsonModel::Mapping(entries))) matches Ok(JsonModel::Mapping(read))
            && pairs(read) == pairs(entries) && alike(
            JsonModel::Mapping(read),
            JsonModel::Mapping(entries),
        ),
{
    parse_inverts_render(JsonModel::Mapping(entries));
    lemma_alike_reflexive(JsonModel::Mapping(entries));
}

} // verus!
