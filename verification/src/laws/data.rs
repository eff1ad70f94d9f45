//! Texts, lists and JSON values.

use crate::json::{
    elements_of, field, field2, fields_of, found, lookup, text_of, text_or_empty, Json,
};
use crate::lists::{cap, distinct, joined, lemma_distinct, text_map, texts};
use crate::text::{
    byte_offset, cursor_index, decimal, find_char, lemma_byte_len_add,
    lemma_byte_offset_increases, lemma_cursor_index, lemma_find_char, lemma_find_char_unique,
    shown_line, trim_cr,
};
use vstd::prelude::*;
use vstd::string::*;
use vstd::utf8::*;

verus! {

/// Carriage returns, and nothing else.
pub open spec fn only_carriage_returns(t: Seq<char>) -> bool {
    forall|i: int| 0 <= i < t.len() ==> #[trigger] t[i] == '\r'
}

proof fn lemma_trim_carriage_returns(t: Seq<char>, crs: Seq<char>)
    requires
        t.len() == 0 || t.last() != '\r',
        only_carriage_returns(crs),
    ensures
        trim_cr(t + crs) == t,
    decreases crs.len(),
{
    if crs.len() == 0 {
        assert(t + crs =~= t);
    } else {
        assert((t + crs).last() == crs[crs.len() - 1]);
        assert((t + crs).drop_last() =~= t + crs.drop_last());
        lemma_trim_carriage_returns(t, crs.drop_last());
    }
}

/// A document is cut into lines at its line feeds, and a line is shown without
/// the carriage returns at its end. A last line without a line feed is one
/// only if there is something in it.
pub proof fn law_lines_end_at_line_feeds(
    line: Seq<char>,
    crs: Seq<char>,
    rest: Seq<char>,
    n: nat,
)
    requires
        !line.contains('\n'),
        line.len() == 0 || line.last() != '\r',
        only_carriage_returns(crs),
    ensures
        shown_line(line + crs + seq!['\n'] + rest, 0) == Some(line),
        shown_line(line + crs + seq!['\n'] + rest, n + 1) == shown_line(rest, n),
        (line + crs).len() > 0 ==> shown_line(line + crs, 0) == Some(line),
        shown_line(line + crs, n + 1) is None,
        shown_line(Seq::empty(), n) is None,
{
    let whole = line + crs;
    let t = whole + seq!['\n'] + rest;
    let end = whole.len() as int;
    assert forall|i: int| 0 <= i < end implies #[trigger] whole[i] != '\n' by {
        if i < line.len() {
            assert(whole[i] == line[i]);
        } else {
            assert(whole[i] == crs[i - line.len()]);
        }
    }
    assert forall|i: int| 0 <= i < end implies t[i] != '\n' by {
        assert(t[i] == whole[i]);
    }
    assert(t[end] == '\n');
    lemma_find_char_unique(t, '\n', 0, end);
    lemma_find_char_unique(whole, '\n', 0, end);
    assert(t.take(end) =~= whole);
    assert(whole.take(end) =~= whole);
    assert(t.skip(end + 1) =~= rest);
    lemma_trim_carriage_returns(line, crs);
}

/// The number of bytes of a character in UTF-8.
pub open spec fn width(c: char) -> int {
    let v = c as u32;
    if v < 0x80 {
        1
    } else if v < 0x800 {
        2
    } else if v < 0x10000 {
        3
    } else {
        4
    }
}

/// Byte offsets grow by the width of each character.
pub proof fn law_offsets_count_bytes(t: Seq<char>, k: int)
    requires
        0 <= k < t.len(),
    ensures
        byte_offset(t, 0) == 0,
        byte_offset(t, k + 1) == byte_offset(t, k) + width(t[k]),
{
    let one = seq![t[k]];
    assert(t.take(k + 1) =~= t.take(k) + one);
    lemma_byte_len_add(t.take(k), one);
    assert(t.take(0) =~= Seq::<char>::empty());
    reveal_with_fuel(encode_utf8, 2);
    char_is_scalar(t[k]);
    assert(one.drop_first() =~= Seq::<char>::empty());
    assert(encode_utf8(one) =~= encode_scalar(t[k] as u32));
}

/// The number that a sequence of digits stands for.
pub open spec fn number(t: Seq<char>) -> int
    decreases t.len(),
{
    if t.len() == 0 {
        0
    } else {
        10 * number(t.drop_last()) + (t.last() as int - '0' as int)
    }
}

/// A number in decimal notation reads back as itself. It is made of digits and
/// has no zero in front.
pub proof fn law_decimals_read_back(n: nat)
    ensures
        number(decimal(n)) == n,
        decimal(n).len() > 0,
        decimal(n).len() > 1 ==> decimal(n)[0] != '0',
        decimal(n)[0] == '0' ==> n == 0,
        forall|i: int| 0 <= i < decimal(n).len() ==> '0' <= #[trigger] decimal(n)[i] <= '9',
    decreases n,
{
    reveal_with_fuel(number, 2);
    if n < 10 {
        assert(decimal(n).drop_last() =~= Seq::<char>::empty());
    } else {
        let front = decimal(n / 10);
        law_decimals_read_back(n / 10);
        assert(decimal(n).drop_last() =~= front);
        assert(decimal(n)[0] == front[0]);
        assert forall|i: int| 0 <= i < decimal(n).len() implies '0' <= #[trigger] decimal(n)[i]
            <= '9' by {
            if i < front.len() {
                assert(decimal(n)[i] == front[i]);
            }
        }
    }
}

/// A capped list is the front of the list: all of it, or as much as the limit
/// allows.
pub proof fn law_a_cap_keeps_the_front<T>(s: Seq<T>, n: int)
    requires
        0 <= n,
    ensures
        cap(s, n).is_prefix_of(s),
        cap(s, n).len() <= n,
        s.len() <= n ==> cap(s, n) == s,
        n <= s.len() ==> cap(s, n).len() == n,
{
    assert(s.take(s.len() as int) =~= s);
}

/// Without repetitions a list holds the same texts, each once, and what
/// follows does not change what stands in front.
pub proof fn law_distinct_keeps_first_occurrences(a: Seq<Seq<char>>, b: Seq<Seq<char>>)
    ensures
        distinct(a).no_duplicates(),
        forall|x: Seq<char>| #[trigger] distinct(a).contains(x) <==> a.contains(x),
        distinct(a).is_prefix_of(distinct(a + b)),
    decreases b.len(),
{
    lemma_distinct(a);
    if b.len() == 0 {
        assert(a + b =~= a);
        assert(distinct(a).take(distinct(a).len() as int) =~= distinct(a));
    } else {
        law_distinct_keeps_first_occurrences(a, b.drop_last());
        assert((a + b).drop_last() =~= a + b.drop_last());
        let front = distinct(a + b.drop_last());
        let all = distinct(a + b);
        let n = distinct(a).len() as int;
        assert(front.subrange(0, n) =~= all.subrange(0, n));
    }
}

/// Joining nothing gives nothing, joining one text gives that text, and a list
/// in two parts is joined with the separator between them.
pub proof fn law_joined_puts_the_separator_between(
    x: Seq<char>,
    a: Seq<Seq<char>>,
    b: Seq<Seq<char>>,
    sep: Seq<char>,
)
    ensures
        joined(Seq::empty(), sep) == Seq::<char>::empty(),
        joined(seq![x], sep) == x,
        a.len() > 0 && b.len() > 0 ==> joined(a + b, sep) == joined(a, sep) + sep + joined(b, sep),
    decreases b.len(),
{
    if a.len() > 0 && b.len() > 0 {
        assert((a + b).drop_last() =~= a + b.drop_last());
        if b.len() == 1 {
            assert(a + b.drop_last() =~= a);
        } else {
            law_joined_puts_the_separator_between(x, a, b.drop_last(), sep);
            assert(joined(a + b, sep) =~= joined(a, sep) + sep + joined(b, sep));
        }
    }
}

/// The texts of a list are those of its strings, one for one. So are those of
/// a map.
pub proof fn law_texts_are_those_of_the_strings(v: Seq<String>, m: Map<Seq<char>, String>)
    ensures
        texts(v).len() == v.len(),
        forall|i: int| 0 <= i < v.len() ==> #[trigger] texts(v)[i] == v[i]@,
        forall|k: Seq<char>| #[trigger] text_map(m).contains_key(k) <==> m.contains_key(k),
        forall|k: Seq<char>| m.contains_key(k) ==> #[trigger] text_map(m)[k] == m[k]@,
{
}

/// The value of a field is that of the first field with its name, and there is
/// none where no field has it. Only objects have fields.
pub proof fn law_a_field_is_the_first_of_its_name(
    fields: Vec<(String, Json)>,
    key: Seq<char>,
    other: Json,
)
    ensures
        forall|i: int|
            0 <= i < fields@.len() && (#[trigger] fields@[i]).0@ == key && (forall|j: int|
                0 <= j < i ==> (#[trigger] fields@[j]).0@ != key) ==> field(
                Json::Object(fields),
                key,
            ) == Some(fields@[i].1),
        field(Json::Object(fields), key) is None <==> forall|i: int|
            0 <= i < fields@.len() ==> (#[trigger] fields@[i]).0@ != key,
        !(other is Object) ==> field(other, key) is None,
{
    lemma_lookup(fields@, key);
}

proof fn lemma_lookup(fields: Seq<(String, Json)>, key: Seq<char>)
    ensures
        forall|i: int|
            0 <= i < fields.len() && (#[trigger] fields[i]).0@ == key && (forall|j: int|
                0 <= j < i ==> (#[trigger] fields[j]).0@ != key) ==> lookup(fields, key) == Some(
                fields[i].1,
            ),
        lookup(fields, key) is None <==> forall|i: int|
            0 <= i < fields.len() ==> (#[trigger] fields[i]).0@ != key,
    decreases fields.len(),
{
    if fields.len() > 0 {
        let rest = fields.drop_first();
        lemma_lookup(rest, key);
        assert forall|i: int|
            0 <= i < fields.len() && (#[trigger] fields[i]).0@ == key && (forall|j: int|
                0 <= j < i ==> (#[trigger] fields[j]).0@ != key) implies lookup(fields, key)
            == Some(fields[i].1) by {
            if i > 0 {
                assert(fields[0].0@ != key);
                assert(rest[i - 1] == fields[i]);
                assert forall|j: int| 0 <= j < i - 1 implies (#[trigger] rest[j]).0@ != key by {
                    assert(rest[j] == fields[j + 1]);
                }
            }
        }
        if lookup(fields, key) is None {
            assert forall|i: int| 0 <= i < fields.len() implies (#[trigger] fields[i]).0@ != key by {
                if i > 0 {
                    assert(rest[i - 1] == fields[i]);
                }
            }
        }
        if forall|i: int| 0 <= i < fields.len() ==> (#[trigger] fields[i]).0@ != key {
            assert(fields[0].0@ != key);
            assert forall|j: int| 0 <= j < rest.len() implies (#[trigger] rest[j]).0@ != key by {
                assert(rest[j] == fields[j + 1]);
            }
        }
    }
}

/// A value is read as what it is and as nothing else: a string as its text, an
/// array as its elements, an object as its fields.
pub proof fn law_values_are_read_as_what_they_are(
    j: Json,
    s: String,
    v: Vec<Json>,
    fields: Vec<(String, Json)>,
    outer: Seq<char>,
    inner: Seq<char>,
)
    ensures
        text_of(Some(Json::Text(s))) == Some(s@),
        elements_of(Some(Json::Array(v))) == Some(v@),
        fields_of(Some(Json::Object(fields))) == Some(fields@),
        !(j is Text) ==> text_of(Some(j)) is None,
        !(j is Array) ==> elements_of(Some(j)) is None,
        !(j is Object) ==> fields_of(Some(j)) is None,
        text_of(None) is None,
        elements_of(None) is None,
        fields_of(None) is None,
        text_or_empty(Some(Json::Text(s))) == s@,
        !(j is Text) ==> text_or_empty(Some(j)) == Seq::<char>::empty(),
        text_or_empty(None) == Seq::<char>::empty(),
        field(j, outer) is None ==> field2(j, outer, inner) is None,
        field(j, outer) is Some ==> field2(j, outer, inner) == field(
            field(j, outer).unwrap(),
            inner,
        ),
        found(Some(&j)) == Some(j),
        found(None) is None,
{
}

/// A cursor stands in front of the first character that ends behind its column,
/// and at the end of the line where none does.
pub proof fn law_a_column_stands_for_one_place(t: Seq<char>, column: int, k: int)
    requires
        0 <= column,
    ensures
        cursor_index(t, column) == k <==> 0 <= k <= t.len() && byte_offset(t, k) <= column && (k
            == t.len() || column < byte_offset(t, k + 1)),
{
    let c = cursor_index(t, column);
    lemma_cursor_index(t, column);
    if 0 <= k <= t.len() && byte_offset(t, k) <= column && (k == t.len() || column < byte_offset(
        t,
        k + 1,
    )) {
        if k < c {
            if k + 1 < c {
                lemma_byte_offset_increases(t, k + 1, c);
            }
        }
    }
    if c < t.len() {
        assert(column < byte_offset(t, c + 1));
    }
}

/// A character is found where it stands first, from a position on. Where it does
/// not occur, the end of the text is given.
pub proof fn law_a_character_is_found_where_it_stands_first(
    t: Seq<char>,
    c: char,
    from: int,
    at: int,
)
    requires
        0 <= from <= t.len(),
    ensures
        find_char(t, c, from) == at <==> from <= at <= t.len() && (at == t.len() || t[at] == c) && (
        forall|i: int| from <= i < at ==> #[trigger] t[i] != c),
{
    lemma_find_char(t, c, from);
    if from <= at <= t.len() && (at == t.len() || t[at] == c) && (forall|i: int|
        from <= i < at ==> #[trigger] t[i] != c) {
        lemma_find_char_unique(t, c, from, at);
    }
}

} // verus!
