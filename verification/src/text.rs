//! Plain text as a sequence of characters: searching it, cutting it into
//! lines and finding the place in a line that a cursor column stands for.

use vstd::prelude::*;
use vstd::string::*;
use vstd::utf8::*;

verus! {

/// The first position at or after `from` that holds `c`, or the length of the
/// text where there is none.
pub open spec fn find_char(t: Seq<char>, c: char, from: int) -> int
    decreases t.len() - from,
{
    if from < 0 || from >= t.len() {
        t.len() as int
    } else if t[from] == c {
        from
    } else {
        find_char(t, c, from + 1)
    }
}

/// The line with index `n` of a document, without its line feed. A line feed
/// ends a line, and the text behind the last one is a line only if there is
/// any.
pub open spec fn nth_line(t: Seq<char>, n: nat) -> Option<Seq<char>>
    decreases t.len(),
{
    let end = find_char(t, '\n', 0);
    if t.len() == 0 {
        None
    } else if n == 0 {
        Some(t.take(end))
    } else if end < 0 || end >= t.len() {
        None
    } else {
        nth_line(t.skip(end + 1), (n - 1) as nat)
    }
}

/// The text without the carriage returns at its end.
pub open spec fn trim_cr(t: Seq<char>) -> Seq<char>
    decreases t.len(),
{
    if t.len() > 0 && t.last() == '\r' {
        trim_cr(t.drop_last())
    } else {
        t
    }
}

/// The line with index `n` as an editor shows it, without its line ending.
pub open spec fn shown_line(t: Seq<char>, n: nat) -> Option<Seq<char>> {
    match nth_line(t, n) {
        Some(line) => Some(trim_cr(line)),
        None => None,
    }
}

/// The number of bytes that the first `k` characters take in UTF-8.
pub open spec fn byte_offset(t: Seq<char>, k: int) -> int {
    encode_utf8(t.take(k)).len() as int
}

/// The number of characters in front of a cursor that stands `column` bytes
/// into the line. A column behind the end of the line means its end, and a
/// column inside a character means the start of that character.
pub open spec fn cursor_index(t: Seq<char>, column: int) -> int
    decreases t.len(),
{
    if t.len() == 0 || byte_offset(t, t.len() as int) <= column {
        t.len() as int
    } else {
        cursor_index(t.drop_last(), column)
    }
}

/// `find_char` gives the first occurrence.
pub proof fn lemma_find_char(t: Seq<char>, c: char, from: int)
    requires
        0 <= from <= t.len(),
    ensures
        from <= find_char(t, c, from) <= t.len(),
        find_char(t, c, from) < t.len() ==> t[find_char(t, c, from)] == c,
        forall|i: int| from <= i < find_char(t, c, from) ==> t[i] != c,
    decreases t.len() - from,
{
    if from < t.len() && t[from] != c {
        lemma_find_char(t, c, from + 1);
    }
}

/// A position that holds `c`, with no `c` between `from` and it, is the one
/// that `find_char` gives.
pub proof fn lemma_find_char_unique(t: Seq<char>, c: char, from: int, at: int)
    requires
        0 <= from <= at <= t.len(),
        at < t.len() ==> t[at] == c,
        forall|i: int| from <= i < at ==> t[i] != c,
    ensures
        find_char(t, c, from) == at,
{
    lemma_find_char(t, c, from);
}

/// Encoding a concatenation encodes both parts.
proof fn lemma_encode_add(a: Seq<char>, b: Seq<char>)
    ensures
        encode_utf8(a + b) == encode_utf8(a) + encode_utf8(b),
    decreases a.len(),
{
    if a.len() == 0 {
        assert(a + b =~= b);
        assert(encode_utf8(a) =~= Seq::<u8>::empty());
        assert(encode_utf8(a + b) =~= encode_utf8(a) + encode_utf8(b));
    } else {
        assert((a + b).drop_first() =~= a.drop_first() + b);
        lemma_encode_add(a.drop_first(), b);
        assert(encode_utf8(a + b) =~= encode_utf8(a) + encode_utf8(b));
    }
}

/// The byte lengths of two texts add up.
pub proof fn lemma_byte_len_add(a: Seq<char>, b: Seq<char>)
    ensures
        encode_utf8(a + b).len() == encode_utf8(a).len() + encode_utf8(b).len(),
{
    lemma_encode_add(a, b);
}

/// Every character takes at least one byte.
pub proof fn lemma_byte_offset_increases(t: Seq<char>, i: int, j: int)
    requires
        0 <= i < j <= t.len(),
    ensures
        byte_offset(t, i) < byte_offset(t, j),
{
    assert(t.take(j) =~= t.take(i) + t.subrange(i, j));
    lemma_encode_add(t.take(i), t.subrange(i, j));
    encode_utf8_first_scalar(t.subrange(i, j));
}

/// `cursor_index` gives the last position that does not lie behind the column.
pub proof fn lemma_cursor_index(t: Seq<char>, column: int)
    requires
        0 <= column,
    ensures
        0 <= cursor_index(t, column) <= t.len(),
        byte_offset(t, cursor_index(t, column)) <= column,
        forall|k: int| cursor_index(t, column) < k <= t.len() ==> column < #[trigger] byte_offset(t, k),
    decreases t.len(),
{
    let k = cursor_index(t, column);
    assert(t.take(0) =~= Seq::<char>::empty());
    if !(t.len() == 0 || byte_offset(t, t.len() as int) <= column) {
        let rest = t.drop_last();
        lemma_cursor_index(rest, column);
        assert(rest.take(k) =~= t.take(k));
        assert forall|i: int| k < i <= t.len() implies column < #[trigger] byte_offset(t, i) by {
            if i < t.len() {
                assert(rest.take(i) =~= t.take(i));
                assert(column < byte_offset(rest, i));
            }
        }
    }
}

/// The position behind the first `k` characters is a character boundary.
proof fn lemma_offset_is_boundary(t: Seq<char>, k: int)
    requires
        0 <= k <= t.len(),
    ensures
        is_char_boundary(encode_utf8(t), byte_offset(t, k)),
        byte_offset(t, k) <= encode_utf8(t).len(),
    decreases k,
{
    encode_utf8_valid_utf8(t);
    assert(t =~= t.take(k) + t.skip(k));
    lemma_encode_add(t.take(k), t.skip(k));
    if k == 0 {
        assert(t.take(0) =~= Seq::<char>::empty());
    } else {
        let rest = t.drop_first();
        encode_utf8_first_scalar(t);
        encode_utf8_first_scalar(t.take(k));
        assert(pop_first_scalar(encode_utf8(t)) =~= encode_utf8(rest));
        assert(t.take(k).drop_first() =~= rest.take(k - 1));
        assert(pop_first_scalar(encode_utf8(t.take(k))) =~= encode_utf8(rest.take(k - 1)));
        lemma_offset_is_boundary(rest, k - 1);
    }
}

/// Every character boundary lies behind some number of characters.
proof fn lemma_boundary_is_offset(t: Seq<char>, at: int) -> (k: int)
    requires
        0 <= at <= encode_utf8(t).len(),
        is_char_boundary(encode_utf8(t), at),
    ensures
        0 <= k <= t.len(),
        byte_offset(t, k) == at,
{
    let bytes = encode_utf8(t);
    encode_utf8_valid_utf8(t);
    encode_utf8_decode_utf8(t);
    valid_utf8_split(bytes, at);
    decode_utf8_split(bytes, at);
    let front = decode_utf8(bytes.subrange(0, at));
    decode_utf8_encode_utf8(bytes.subrange(0, at));
    assert(t.take(front.len() as int) =~= front);
    front.len() as int
}

/// A line lies somewhere in its document, up to a line feed or the end.
proof fn lemma_nth_line_place(t: Seq<char>, n: nat) -> (a: int)
    requires
        nth_line(t, n) is Some,
    ensures
        0 <= a <= a + nth_line(t, n).unwrap().len() <= t.len(),
        nth_line(t, n).unwrap() == t.subrange(a, a + nth_line(t, n).unwrap().len()),
        a + nth_line(t, n).unwrap().len() < t.len() ==> t[a + nth_line(t, n).unwrap().len()]
            == '\n',
    decreases t.len(),
{
    let end = find_char(t, '\n', 0);
    lemma_find_char(t, '\n', 0);
    if n == 0 {
        assert(t.take(end) =~= t.subrange(0, end));
        0
    } else {
        let rest = t.skip(end + 1);
        let b = lemma_nth_line_place(rest, (n - 1) as nat);
        let line = nth_line(t, n).unwrap();
        assert(line =~= t.subrange(end + 1 + b, end + 1 + b + line.len()));
        end + 1 + b
    }
}

/// Trimming keeps the front of a text and drops carriage returns.
proof fn lemma_trim_cr(t: Seq<char>)
    ensures
        trim_cr(t).len() <= t.len(),
        trim_cr(t) == t.take(trim_cr(t).len() as int),
        trim_cr(t).len() < t.len() ==> t[trim_cr(t).len() as int] == '\r',
    decreases t.len(),
{
    if t.len() > 0 && t.last() == '\r' {
        let front = t.drop_last();
        lemma_trim_cr(front);
        let k = trim_cr(front).len() as int;
        assert(front.take(k) =~= t.take(k));
    } else {
        assert(t.take(t.len() as int) =~= t);
    }
}

/// A line as it is shown lies somewhere in its document, up to a carriage
/// return, a line feed or the end.
pub proof fn lemma_shown_line_place(t: Seq<char>, n: nat) -> (a: int)
    requires
        shown_line(t, n) is Some,
    ensures
        0 <= a <= a + shown_line(t, n).unwrap().len() <= t.len(),
        shown_line(t, n).unwrap() == t.subrange(a, a + shown_line(t, n).unwrap().len()),
        a + shown_line(t, n).unwrap().len() < t.len() ==> {
            let c = t[a + shown_line(t, n).unwrap().len()];
            c == '\r' || c == '\n'
        },
{
    let a = lemma_nth_line_place(t, n);
    let line = nth_line(t, n).unwrap();
    lemma_trim_cr(line);
    let shown = trim_cr(line);
    assert(shown =~= t.subrange(a, a + shown.len()));
    if shown.len() < line.len() {
        assert(line[shown.len() as int] == t[a + shown.len()]);
    }
    a
}

/// The characters of a string.
pub fn chars_of(s: &str) -> (r: Vec<char>)
    ensures
        r@ == s@,
{
    let mut r: Vec<char> = Vec::new();
    for c in it: s.chars()
        invariant
            r@ == s@.take(it.index() as int),
            it.seq() == s@,
    {
        r.push(c);
    }
    r
}

/// Whether two strings hold the same characters.
pub fn same_text(a: &str, b: &str) -> (r: bool)
    ensures
        r == (a@ == b@),
{
    let x: &[u8] = a.as_bytes();
    let y: &[u8] = b.as_bytes();
    proof {
        encode_utf8_decode_utf8(a@);
        encode_utf8_decode_utf8(b@);
    }
    if x.len() != y.len() {
        return false;
    }
    let mut i: usize = 0;
    while i < x.len()
        invariant
            i <= x.len(),
            x.len() == y.len(),
            x@ == encode_utf8(a@),
            y@ == encode_utf8(b@),
            forall|j: int| 0 <= j < i ==> x@[j] == y@[j],
        decreases x.len() - i,
    {
        if x[i] != y[i] {
            return false;
        }
        i += 1;
    }
    assert(x@ =~= y@);
    true
}

/// The first position at or after `from` that holds `c`, or the length of the
/// text.
pub fn find(t: &Vec<char>, c: char, from: usize) -> (r: usize)
    requires
        from <= t.len(),
    ensures
        r == find_char(t@, c, from as int),
        from <= r <= t.len(),
{
    let mut i: usize = from;
    while i < t.len() && t[i] != c
        invariant
            from <= i <= t.len(),
            forall|j: int| from <= j < i ==> t@[j] != c,
        decreases t.len() - i,
    {
        i += 1;
    }
    proof {
        lemma_find_char_unique(t@, c, from as int, i as int);
    }
    i
}

/// Whether `needle` stands at position `at` of `t`.
fn stands_at(t: &Vec<char>, needle: &Vec<char>, at: usize) -> (r: bool)
    requires
        at + needle.len() <= t.len(),
    ensures
        r == (t@.subrange(at as int, at + needle.len()) == needle@),
{
    let mut i: usize = 0;
    while i < needle.len()
        invariant
            i <= needle.len(),
            at + needle.len() <= t.len(),
            forall|j: int| 0 <= j < i ==> t@[at + j] == needle@[j],
        decreases needle.len() - i,
    {
        if t[at + i] != needle[i] {
            assert(t@.subrange(at as int, at + needle.len())[i as int] != needle@[i as int]);
            return false;
        }
        i += 1;
    }
    assert(t@.subrange(at as int, at + needle.len()) =~= needle@);
    true
}

/// Whether the text begins with `prefix`.
pub fn starts_with(text: &str, prefix: &str) -> (r: bool)
    ensures
        r == prefix@.is_prefix_of(text@),
{
    let t: Vec<char> = chars_of(text);
    let n: Vec<char> = chars_of(prefix);
    n.len() <= t.len() && stands_at(&t, &n, 0)
}

/// Whether the text ends with `suffix`.
pub fn ends_with(text: &str, suffix: &str) -> (r: bool)
    ensures
        r == suffix@.is_suffix_of(text@),
{
    let t: Vec<char> = chars_of(text);
    let n: Vec<char> = chars_of(suffix);
    n.len() <= t.len() && stands_at(&t, &n, t.len() - n.len())
}

/// The line with index `n` of a document as an editor shows it, or `None`
/// where the document has no such line.
pub fn line_at(content: &str, n: usize) -> (r: Option<&str>)
    ensures
        match r {
            Some(line) => shown_line(content@, n as nat) == Some(line@),
            None => shown_line(content@, n as nat) is None,
        },
{
    let t: Vec<char> = chars_of(content);
    let mut start: usize = 0;
    let mut left: usize = n;
    assert(t@.skip(0) =~= t@);
    while start < t.len()
        invariant
            start <= t.len(),
            t@ == content@,
            left <= n,
            nth_line(t@, n as nat) == nth_line(t@.skip(start as int), left as nat),
        decreases t.len() - start,
    {
        let end: usize = find(&t, '\n', start);
        proof {
            let rest = t@.skip(start as int);
            lemma_find_char(t@, '\n', start as int);
            lemma_find_char_unique(rest, '\n', 0, end - start);
        }
        if left == 0 {
            let mut stop: usize = end;
            assert(t@.skip(start as int).take(end - start) =~= t@.subrange(start as int, end as int));
            while stop > start && t[stop - 1] == '\r'
                invariant
                    start <= stop <= end <= t.len(),
                    trim_cr(t@.subrange(start as int, end as int)) == trim_cr(
                        t@.subrange(start as int, stop as int),
                    ),
                decreases stop,
            {
                assert(t@.subrange(start as int, stop as int).drop_last() =~= t@.subrange(
                    start as int,
                    stop - 1,
                ));
                stop -= 1;
            }
            return Some(content.substring_char(start, stop));
        }
        if end == t.len() {
            return None;
        }
        assert(t@.skip(start as int).skip(end - start + 1) =~= t@.skip(end + 1));
        start = end + 1;
        left -= 1;
    }
    None
}

/// The byte offset in the line that a cursor column stands for: the last
/// character boundary that does not lie behind it.
pub fn clamp_column(line: &str, column: usize) -> (r: usize)
    ensures
        r == byte_offset(line@, cursor_index(line@, column as int)),
{
    let len: usize = line.as_bytes().len();
    let ghost bytes = encode_utf8(line@);
    let mut at: usize = if column < len {
        column
    } else {
        len
    };
    proof {
        encode_utf8_valid_utf8(line@);
        lemma_cursor_index(line@, column as int);
        lemma_offset_is_boundary(line@, cursor_index(line@, column as int));
        lemma_offset_is_boundary(line@, 0);
        assert(line@.take(0) =~= Seq::<char>::empty());
    }
    while !line.is_char_boundary(at)
        invariant
            0 <= at <= column,
            at <= len,
            len == bytes.len(),
            bytes == encode_utf8(line@),
            byte_offset(line@, cursor_index(line@, column as int)) <= at,
            is_char_boundary(bytes, byte_offset(line@, cursor_index(line@, column as int))),
            is_char_boundary(bytes, 0),
        decreases at,
    {
        at -= 1;
    }
    proof {
        let k = lemma_boundary_is_offset(line@, at as int);
        let c = cursor_index(line@, column as int);
        if c < k {
            assert(column < byte_offset(line@, k));
        } else if k < c {
            lemma_byte_offset_increases(line@, k, c);
        }
    }
    at
}

/// The part of the line in front of a cursor column.
pub fn text_before(line: &str, column: usize) -> (r: &str)
    ensures
        r@ == line@.take(cursor_index(line@, column as int)),
{
    let at: usize = clamp_column(line, column);
    proof {
        lemma_cursor_index(line@, column as int);
        lemma_offset_is_boundary(line@, cursor_index(line@, column as int));
    }
    let parts: (&str, &str) = line.split_at(at);
    proof {
        let k = cursor_index(line@, column as int);
        assert(line@ =~= line@.take(k) + line@.skip(k));
        lemma_encode_add(line@.take(k), line@.skip(k));
        assert(encode_utf8(line@).subrange(0, at as int) =~= encode_utf8(line@.take(k)));
        encode_utf8_decode_utf8(line@.take(k));
        encode_utf8_decode_utf8(parts.0@);
    }
    parts.0
}

/// Two texts, one after the other.
pub fn cat(a: &str, b: &str) -> (r: String)
    ensures
        r@ == a@ + b@,
{
    let mut r: String = a.to_owned();
    r.append(b);
    r
}

/// Three texts, one after the other.
pub fn cat3(a: &str, b: &str, c: &str) -> (r: String)
    ensures
        r@ == a@ + b@ + c@,
{
    let mut r: String = cat(a, b);
    r.append(c);
    r
}

/// The decimal notation of a number.
pub open spec fn decimal(n: nat) -> Seq<char>
    decreases n,
{
    if n < 10 {
        digit(n)
    } else {
        decimal(n / 10) + digit(n % 10)
    }
}

/// The notation of a number below ten.
pub open spec fn digit(n: nat) -> Seq<char> {
    seq![(48 + n) as char]
}

/// The decimal notation of a number.
pub fn decimal_text(n: usize) -> (r: String)
    ensures
        r@ == decimal(n as nat),
    decreases n,
{
    if n < 10 {
        digit_text(n)
    } else {
        let mut s: String = decimal_text(n / 10);
        let last: String = digit_text(n % 10);
        s.append(last.as_str());
        s
    }
}

/// The notation of a number below ten.
fn digit_text(n: usize) -> (r: String)
    requires
        n < 10,
    ensures
        r@ == digit(n as nat),
{
    proof {
        reveal_strlit("0123456789");
    }
    let digits: &str = "0123456789";
    let one: &str = digits.substring_char(n, n + 1);
    assert(one@ =~= digit(n as nat));
    one.to_owned()
}

} // verus!
