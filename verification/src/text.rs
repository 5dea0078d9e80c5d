//! Character-level helpers shared by the other modules.

use vstd::prelude::*;
use vstd::utf8::{decode_utf8, encode_utf8, valid_utf8};

verus! {

/// Whether `c` carries the Unicode `White_Space` property.
pub open spec fn is_space_char(c: char) -> bool {
    let n = c as u32;
    ||| 0x09 <= n <= 0x0D
    ||| n == 0x20
    ||| n == 0x85
    ||| n == 0xA0
    ||| n == 0x1680
    ||| 0x2000 <= n <= 0x200A
    ||| n == 0x2028
    ||| n == 0x2029
    ||| n == 0x202F
    ||| n == 0x205F
    ||| n == 0x3000
}

/// A line is blank when it holds nothing but white space.
pub open spec fn is_blank_text(s: Seq<char>) -> bool {
    forall|i: int| 0 <= i < s.len() ==> is_space_char(#[trigger] s[i])
}

pub fn is_space(c: char) -> (b: bool)
    ensures
        b == is_space_char(c),
{
    let n: u32 = c as u32;
    (0x09 <= n && n <= 0x0D) || n == 0x20 || n == 0x85 || n == 0xA0 || n == 0x1680 || (0x2000 <= n
        && n <= 0x200A) || n == 0x2028 || n == 0x2029 || n == 0x202F || n == 0x205F || n == 0x3000
}

pub fn is_blank(s: &str) -> (b: bool)
    ensures
        b == is_blank_text(s@),
{
    let n: usize = s.unicode_len();
    let mut i: usize = 0;
    while i < n
        invariant
            n == s@.len(),
            i <= n,
            forall|j: int| 0 <= j < i ==> is_space_char(#[trigger] s@[j]),
        decreases n - i,
    {
        if !is_space(s.get_char(i)) {
            return false;
        }
        i += 1;
    }
    true
}

/// The character that writes the decimal digit `d`.
pub open spec fn digit_char(d: nat) -> char {
    if d == 0 {
        '0'
    } else if d == 1 {
        '1'
    } else if d == 2 {
        '2'
    } else if d == 3 {
        '3'
    } else if d == 4 {
        '4'
    } else if d == 5 {
        '5'
    } else if d == 6 {
        '6'
    } else if d == 7 {
        '7'
    } else if d == 8 {
        '8'
    } else {
        '9'
    }
}

/// Decimal notation of `n`, without leading zeros.
pub open spec fn decimal_text(n: nat) -> Seq<char>
    decreases n,
{
    if n < 10 {
        seq![digit_char(n)]
    } else {
        decimal_text(n / 10).push(digit_char(n % 10))
    }
}

/// Decimal notation of `n`, with a leading zero below ten.
pub open spec fn padded_text(n: nat) -> Seq<char> {
    if n < 10 {
        seq!['0', digit_char(n)]
    } else {
        decimal_text(n)
    }
}

pub fn digit_str(d: u8) -> (s: &'static str)
    requires
        d < 10,
    ensures
        s@ == seq![digit_char(d as nat)],
{
    proof {
        reveal_strlit("0");
        reveal_strlit("1");
        reveal_strlit("2");
        reveal_strlit("3");
        reveal_strlit("4");
        reveal_strlit("5");
        reveal_strlit("6");
        reveal_strlit("7");
        reveal_strlit("8");
        reveal_strlit("9");
    }
    let s: &'static str = match d {
        0 => "0",
        1 => "1",
        2 => "2",
        3 => "3",
        4 => "4",
        5 => "5",
        6 => "6",
        7 => "7",
        8 => "8",
        _ => "9",
    };
    assert(s@ =~= seq![digit_char(d as nat)]);
    s
}

pub fn decimal_string(n: u64) -> (s: String)
    ensures
        s@ == decimal_text(n as nat),
    decreases n,
{
    if n < 10 {
        String::from_str(digit_str(n as u8))
    } else {
        let mut s = decimal_string(n / 10);
        s.append(digit_str((n % 10) as u8));
        assert(s@ =~= decimal_text(n as nat));
        s
    }
}

pub fn padded_string(n: u64) -> (s: String)
    ensures
        s@ == padded_text(n as nat),
{
    if n < 10 {
        let mut s = String::from_str(digit_str(0));
        s.append(digit_str(n as u8));
        assert(s@ =~= padded_text(n as nat));
        s
    } else {
        decimal_string(n)
    }
}

/// `line` without a carriage return at its end.
pub open spec fn strip_cr(line: Seq<char>) -> Seq<char> {
    if line.len() > 0 && line.last() == '\r' {
        line.drop_last()
    } else {
        line
    }
}

/// The lines of `s` from position `start` on, where `pos >= start` is
/// how far the current line has been read.
pub open spec fn lines_from(s: Seq<char>, start: nat, pos: nat) -> Seq<Seq<char>>
    decreases s.len() - pos,
{
    if pos >= s.len() {
        if start >= s.len() {
            Seq::empty()
        } else {
            seq![s.subrange(start as int, s.len() as int)]
        }
    } else if s[pos as int] == '\n' {
        seq![strip_cr(s.subrange(start as int, pos as int))] + lines_from(s, pos + 1, pos + 1)
    } else {
        lines_from(s, start, pos + 1)
    }
}

/// The lines of a text. A line ends at a line feed, or at a carriage
/// return followed by a line feed; neither belongs to the line. The last
/// line need not be ended, and a text that ends with a line ending has no
/// empty line after it.
pub open spec fn split_lines(s: Seq<char>) -> Seq<Seq<char>> {
    lines_from(s, 0, 0)
}

/// The texts held by a list of strings.
pub open spec fn texts(strings: Seq<String>) -> Seq<Seq<char>> {
    Seq::new(strings.len(), |i: int| strings[i]@)
}

/// The encoding of a text is the encoding of its front followed by the
/// encoding of its back.
pub proof fn lemma_encode_concat(a: Seq<char>, b: Seq<char>)
    ensures
        encode_utf8(a + b) == encode_utf8(a) + encode_utf8(b),
    decreases a.len(),
{
    if a.len() == 0 {
        assert(a + b =~= b);
        assert(encode_utf8(a) + encode_utf8(b) =~= encode_utf8(b));
    } else {
        lemma_encode_concat(a.drop_first(), b);
        assert((a + b).drop_first() =~= a.drop_first() + b);
        assert((a + b)[0] == a[0]);
        assert(encode_utf8(a + b) =~= encode_utf8(a) + encode_utf8(b));
    }
}

/// Every character takes at least one byte.
pub proof fn lemma_encode_len(a: Seq<char>)
    ensures
        encode_utf8(a).len() >= a.len(),
    decreases a.len(),
{
    if a.len() > 0 {
        lemma_encode_len(a.drop_first());
    }
}

/// Two fronts of one text that take equally many bytes are equally long.
proof fn lemma_front_by_bytes(s: Seq<char>, m: int, q: int)
    requires
        0 <= m <= s.len(),
        0 <= q <= s.len(),
        encode_utf8(s.take(m)).len() == encode_utf8(s.take(q)).len(),
    ensures
        m == q,
{
    if m < q {
        let extra = s.subrange(m, q);
        assert(s.take(q) =~= s.take(m) + extra);
        lemma_encode_concat(s.take(m), extra);
        lemma_encode_len(extra);
    } else if q < m {
        let extra = s.subrange(q, m);
        assert(s.take(m) =~= s.take(q) + extra);
        lemma_encode_concat(s.take(q), extra);
        lemma_encode_len(extra);
    }
}

/// A text without a line feed is a single line, or none when it is empty.
proof fn lemma_lines_without_feed(s: Seq<char>, pos: nat)
    requires
        pos <= s.len(),
        forall|j: int| pos <= j < s.len() ==> s[j] != '\n',
    ensures
        lines_from(s, 0, pos) == if s.len() == 0 {
            Seq::<Seq<char>>::empty()
        } else {
            seq![s]
        },
    decreases s.len() - pos,
{
    if pos < s.len() {
        lemma_lines_without_feed(s, pos + 1);
    } else {
        assert(s.subrange(0, s.len() as int) =~= s);
    }
}

/// Reading on within a line does not change the lines.
proof fn lemma_lines_skip_to_feed(s: Seq<char>, start: nat, pos: nat, feed: nat)
    requires
        pos <= feed <= s.len(),
        forall|j: int| pos <= j < feed ==> s[j] != '\n',
    ensures
        lines_from(s, start, pos) == lines_from(s, start, feed),
    decreases feed - pos,
{
    if pos < feed {
        lemma_lines_skip_to_feed(s, start, pos + 1, feed);
    }
}

/// The lines from a position on are the lines of what follows it.
proof fn lemma_lines_shift(s: Seq<char>, k: nat, start: nat, pos: nat)
    requires
        start <= pos,
        k + pos <= s.len(),
    ensures
        lines_from(s, k + start, k + pos) == lines_from(s.skip(k as int), start, pos),
    decreases s.len() - (k + pos),
{
    let t = s.skip(k as int);
    if k + pos >= s.len() {
        assert(t.subrange(start as int, t.len() as int) =~= s.subrange(
            (k + start) as int,
            s.len() as int,
        ));
    } else if s[(k + pos) as int] == '\n' {
        assert(t[pos as int] == '\n');
        assert(t.subrange(start as int, pos as int) =~= s.subrange(
            (k + start) as int,
            (k + pos) as int,
        ));
        lemma_lines_shift(s, k, pos + 1, pos + 1);
    } else {
        assert(t[pos as int] != '\n');
        lemma_lines_shift(s, k, start, pos + 1);
    }
}

/// The first line of a text ends at its first line feed, and the other
/// lines are the lines of what follows that line feed.
pub proof fn lemma_lines_at_first_feed(s: Seq<char>, feed: nat)
    requires
        feed < s.len(),
        s[feed as int] == '\n',
        forall|j: int| 0 <= j < feed ==> s[j] != '\n',
    ensures
        split_lines(s) == seq![strip_cr(s.take(feed as int))] + split_lines(
            s.skip(feed as int + 1),
        ),
{
    lemma_lines_skip_to_feed(s, 0, 0, feed);
    lemma_lines_shift(s, feed + 1, 0, 0);
    assert(s.subrange(0, feed as int) =~= s.take(feed as int));
}

/// Position of the first line feed of a text, if it has one.
pub fn find_line_feed(s: &str) -> (r: Option<usize>)
    ensures
        match r {
            Some(p) => p < s@.len() && s@[p as int] == '\n' && forall|j: int|
                0 <= j < p ==> s@[j] != '\n',
            None => forall|j: int| 0 <= j < s@.len() ==> s@[j] != '\n',
        },
{
    broadcast use vstd::string::group_string_axioms;

    let bound: usize = s.as_bytes().len();
    proof {
        lemma_encode_len(s@);
    }
    let mut i: usize = 0;
    for c in it: s.chars()
        invariant
            it.seq() == s@,
            i == it.index(),
            s@.len() <= bound,
            forall|j: int| 0 <= j < it.index() ==> s@[j] != '\n',
    {
        if c == '\n' {
            return Some(i);
        }
        i += 1;
    }
    None
}

/// What follows the first `count` characters of a text.
pub fn after_chars<'a>(s: &'a str, count: usize) -> (t: &'a str)
    requires
        count <= s@.len(),
    ensures
        t@ == s@.skip(count as int),
{
    broadcast use vstd::utf8::group_utf8_lib;

    let front: &str = s.substring_char(0, count);
    let at: usize = front.as_bytes().len();
    assert(front@ =~= s@.take(count as int));
    proof {
        assert(s@ =~= s@.take(count as int) + s@.skip(count as int));
        lemma_encode_concat(s@.take(count as int), s@.skip(count as int));
    }
    if s.is_char_boundary(at) {
        let (a, b) = s.split_at(at);
        proof {
            let bytes = encode_utf8(s@);
            assert(valid_utf8(bytes));
            vstd::utf8::decode_utf8_split(bytes, at as int);
            assert(decode_utf8(bytes) == s@);
            assert(decode_utf8(encode_utf8(a@)) == a@);
            assert(decode_utf8(encode_utf8(b@)) == b@);
            assert(s@ =~= a@ + b@);
            assert(a@ =~= s@.take(a@.len() as int));
            lemma_front_by_bytes(s@, a@.len() as int, count as int);
            assert(b@ =~= s@.skip(count as int));
        }
        b
    } else {
        let n: usize = s.unicode_len();
        let t: &str = s.substring_char(count, n);
        assert(t@ =~= s@.skip(count as int));
        t
    }
}

/// Splits a text into its lines.
pub fn lines_of(content: &str) -> (lines: Vec<String>)
    ensures
        texts(lines@) == split_lines(content@),
{
    let mut lines: Vec<String> = Vec::new();
    let mut rest: &str = content;
    let mut more: bool = true;
    assert(texts(lines@) + split_lines(rest@) =~= split_lines(content@));
    while more
        invariant
            more ==> texts(lines@) + split_lines(rest@) == split_lines(content@),
            !more ==> texts(lines@) == split_lines(content@),
        decreases
                (if more {
                    rest@.len() + 1
                } else {
                    0
                }),
    {
        let ghost before = texts(lines@);
        match find_line_feed(rest) {
            None => {
                proof {
                    lemma_lines_without_feed(rest@, 0);
                }
                if !rest.is_empty() {
                    lines.push(String::from_str(rest));
                    assert(texts(lines@) =~= before + seq![rest@]);
                } else {
                    assert(before + Seq::<Seq<char>>::empty() =~= before);
                }
                more = false;
            },
            Some(p) => {
                proof {
                    lemma_lines_at_first_feed(rest@, p as nat);
                }
                let end: usize = if p > 0 && rest.get_char(p - 1) == '\r' {
                    (p - 1) as usize
                } else {
                    p
                };
                let ghost line = rest@.take(p as int);
                let ghost tail = split_lines(rest@.skip(p + 1));
                assert(rest@.subrange(0, end as int) =~= strip_cr(line)) by {
                    if p > 0 && rest@[p - 1] == '\r' {
                        assert(line.last() == '\r');
                        assert(line.drop_last() =~= rest@.subrange(0, p - 1));
                    }
                }
                lines.push(String::from_str(rest.substring_char(0, end)));
                assert(texts(lines@) =~= before.push(strip_cr(line)));
                assert(before.push(strip_cr(line)) + tail =~= before + (seq![strip_cr(line)]
                    + tail));
                let bytes: usize = rest.as_bytes().len();
                proof {
                    lemma_encode_len(rest@);
                }
                assert(p < bytes);
                rest = after_chars(rest, p + 1);
            },
        }
    }
    lines
}

/// Flattening a single list gives that list.
pub proof fn lemma_flatten_single<A>(a: Seq<A>)
    ensures
        seq![a].flatten() == a,
{
    let one = seq![a];
    assert(one.drop_first() =~= Seq::<Seq<A>>::empty());
    assert(one.drop_first().flatten() =~= Seq::<A>::empty());
    assert(one.flatten() =~= one.first() + one.drop_first().flatten());
    assert(one.flatten() =~= a);
}

/// `s` without the white space at its start.
pub open spec fn trim_start(s: Seq<char>) -> Seq<char>
    decreases s.len(),
{
    if s.len() > 0 && is_space_char(s[0]) {
        trim_start(s.drop_first())
    } else {
        s
    }
}

/// `s` without the white space at its end.
pub open spec fn trim_end(s: Seq<char>) -> Seq<char>
    decreases s.len(),
{
    if s.len() > 0 && is_space_char(s.last()) {
        trim_end(s.drop_last())
    } else {
        s
    }
}

/// `s` without the white space at its start and at its end.
pub open spec fn trimmed(s: Seq<char>) -> Seq<char> {
    trim_end(trim_start(s))
}

/// Removes the white space at the start and at the end of a text.
pub fn trim(s: &str) -> (t: String)
    ensures
        t@ == trimmed(s@),
{
    let n: usize = s.unicode_len();
    let mut i: usize = 0;
    assert(s@.skip(0) =~= s@);
    while i < n && is_space(s.get_char(i))
        invariant
            i <= n,
            n == s@.len(),
            trim_start(s@) == trim_start(s@.skip(i as int)),
        decreases n - i,
    {
        assert(s@.skip(i as int).drop_first() =~= s@.skip(i + 1));
        i += 1;
    }
    let ghost rest = s@.skip(i as int);
    assert(trim_start(s@) == rest);
    let mut j: usize = n;
    assert(rest =~= s@.subrange(i as int, j as int));
    while j > i && is_space(s.get_char(j - 1))
        invariant
            i <= j <= n,
            n == s@.len(),
            trim_end(rest) == trim_end(s@.subrange(i as int, j as int)),
        decreases j,
    {
        assert(s@.subrange(i as int, j as int).drop_last() =~= s@.subrange(i as int, j - 1));
        j -= 1;
    }
    assert(trim_end(rest) == s@.subrange(i as int, j as int));
    String::from_str(s.substring_char(i, j))
}

/// Whether `s` begins with `prefix`.
pub fn starts_with(s: &str, prefix: &str) -> (b: bool)
    ensures
        b == prefix@.is_prefix_of(s@),
{
    let n: usize = s.unicode_len();
    let p: usize = prefix.unicode_len();
    if p > n {
        return false;
    }
    let mut i: usize = 0;
    while i < p
        invariant
            i <= p <= n,
            n == s@.len(),
            p == prefix@.len(),
            forall|j: int| 0 <= j < i ==> s@[j] == prefix@[j],
        decreases p - i,
    {
        if s.get_char(i) != prefix.get_char(i) {
            assert(s@.subrange(0, p as int)[i as int] != prefix@[i as int]);
            return false;
        }
        i += 1;
    }
    assert(s@.subrange(0, p as int) =~= prefix@);
    true
}

} // verus!
