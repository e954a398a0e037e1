//! The lines of a log: when they were written, by which module, and what they say.
use vstd::prelude::*;

use crate::initialization::texts;
use crate::text::{chars_of, copy_of, part_at, stands_at, text_of};

verus! {

/// The position of the first of these characters; the length where there is none.
pub open spec fn first_stop(s: Seq<char>, a: char, b: char, c: char) -> int
    decreases s.len(),
{
    if s.len() == 0 {
        0
    } else if s[0] == a || s[0] == b || s[0] == c {
        0
    } else {
        1 + first_stop(s.skip(1), a, b, c)
    }
}

fn find_stop(v: &Vec<char>, from: usize, a: char, b: char, c: char) -> (r: usize)
    requires
        from <= v@.len(),
    ensures
        from <= r <= v@.len(),
        r == from + first_stop(v@.skip(from as int), a, b, c),
        r < v@.len() ==> v@[r as int] == a || v@[r as int] == b || v@[r as int] == c,
{
    let mut i: usize = from;
    while i < v.len()
        invariant
            from <= i <= v@.len(),
            from + first_stop(v@.skip(from as int), a, b, c) == i + first_stop(
                v@.skip(i as int),
                a,
                b,
                c,
            ),
        decreases v@.len() - i,
    {
        assert(v@.skip(i as int)[0] == v@[i as int]);
        if v[i] == a || v[i] == b || v[i] == c {
            return i;
        }
        assert(v@.skip(i as int).skip(1) =~= v@.skip(i as int + 1));
        i += 1;
    }
    i
}

/// The characters from `from` up to `to`.
fn text_between(v: &Vec<char>, from: usize, to: usize) -> (r: String)
    requires
        from <= to <= v@.len(),
    ensures
        r@ == v@.subrange(from as int, to as int),
{
    let mut part: Vec<char> = Vec::new();
    let mut i: usize = from;
    while i < to
        invariant
            from <= i <= to <= v@.len(),
            part@ == v@.subrange(from as int, i as int),
        decreases to - i,
    {
        part.push(v[i]);
        assert(v@.subrange(from as int, i as int + 1) =~= v@.subrange(from as int, i as int).push(
            v@[i as int],
        ));
        i += 1;
    }
    text_of(&part)
}

/// A line without the carriage return at its end.
pub open spec fn without_return(s: Seq<char>) -> Seq<char> {
    if s.len() > 0 && s.last() == '\r' {
        s.drop_last()
    } else {
        s
    }
}

/// The lines of a text. Each ends with a newline, or a carriage return and one; the
/// last need not.
pub open spec fn lines_of(s: Seq<char>) -> Seq<Seq<char>>
    decreases s.len(),
{
    if s.len() == 0 {
        Seq::empty()
    } else {
        let i = first_stop(s, '\n', '\n', '\n');
        if i < 0 || i >= s.len() {
            seq![s]
        } else {
            seq![without_return(s.take(i))] + lines_of(s.skip(i + 1))
        }
    }
}

/// The lines of a text.
pub fn split_lines(content: &str) -> (r: Vec<String>)
    ensures
        texts(r@) == lines_of(content@),
{
    let v = chars_of(content);
    let mut lines: Vec<String> = Vec::new();
    let mut start: usize = 0;
    assert(v@.skip(0) =~= v@);
    assert(texts(lines@) + lines_of(v@) =~= lines_of(v@));
    while start < v.len()
        invariant
            start <= v@.len(),
            texts(lines@) + lines_of(v@.skip(start as int)) == lines_of(v@),
            v@ == content@,
        decreases v@.len() - start,
    {
        let ghost rest = v@.skip(start as int);
        let ghost before = texts(lines@);
        let end: usize = find_stop(&v, start, '\n', '\n', '\n');
        if end == v.len() {
            let line = text_between(&v, start, end);
            assert(line@ =~= rest);
            lines.push(line);
            assert(texts(lines@) =~= before.push(rest));
            assert(texts(lines@) =~= before + seq![rest]);
            return lines;
        }
        let to: usize = if end > start && v[end - 1] == '\r' {
            end - 1
        } else {
            end
        };
        let line = text_between(&v, start, to);
        proof {
            let head = rest.take(end - start);
            assert(head.len() > 0 ==> head.last() == v@[end - 1]);
            assert(line@ =~= without_return(head));
        }
        lines.push(line);
        proof {
            assert(rest.skip(end - start + 1) =~= v@.skip(end as int + 1));
            assert(texts(lines@) =~= before.push(line@));
            assert(before.push(line@) + lines_of(v@.skip(end as int + 1)) =~= before + (
            seq![line@] + lines_of(v@.skip(end as int + 1))));
        }
        start = end + 1;
    }
    assert(v@.skip(start as int) =~= Seq::<char>::empty());
    assert(texts(lines@) + Seq::<Seq<char>>::empty() =~= texts(lines@));
    lines
}

/// A text without the colons at its end.
pub open spec fn without_colons(s: Seq<char>) -> Seq<char>
    decreases s.len(),
{
    if s.len() > 0 && s.last() == ':' {
        without_colons(s.drop_last())
    } else {
        s
    }
}

/// A text without the blanks at its start.
pub open spec fn unpadded(s: Seq<char>) -> Seq<char>
    decreases s.len(),
{
    if s.len() > 0 && s[0] == ' ' {
        unpadded(s.skip(1))
    } else {
        s
    }
}

/// The module and the message of a line: it holds a time, a level, the module and the
/// message, with blanks between them. A short level is padded: more than one blank may
/// stand before it. A line with fewer parts is a message of no known module.
pub open spec fn parsed_line(s: Seq<char>) -> (Seq<char>, Seq<char>) {
    let i = first_stop(s, ' ', ' ', ' ');
    let after_time = unpadded(s.skip(i + 1));
    let j = first_stop(after_time, ' ', ' ', ' ');
    let after_level = after_time.skip(j + 1);
    let k = first_stop(after_level, ' ', ' ', ' ');
    if i < s.len() && j < after_time.len() && k < after_level.len() {
        (without_colons(after_level.take(k)), after_level.skip(k + 1))
    } else {
        ("UNKNOWN"@, s)
    }
}

/// The module and the message of a line.
pub fn parse_log_line(line: &str) -> (r: (String, String))
    ensures
        (r.0@, r.1@) == parsed_line(line@),
{
    let v = chars_of(line);
    let n: usize = v.len();
    assert(v@.skip(0) =~= v@);
    let i: usize = find_stop(&v, 0, ' ', ' ', ' ');
    if i == n {
        return (copy_of("UNKNOWN"), copy_of(line));
    }
    let mut level: usize = i + 1;
    while level < n && v[level] == ' '
        invariant
            i < level <= n == v@.len(),
            unpadded(v@.skip(level as int)) == unpadded(v@.skip(i as int + 1)),
        decreases n - level,
    {
        assert(v@.skip(level as int).skip(1) =~= v@.skip(level as int + 1));
        level += 1;
    }
    let j: usize = find_stop(&v, level, ' ', ' ', ' ');
    let ghost after_time = v@.skip(level as int);
    assert(unpadded(after_time) == after_time);
    if j == n {
        return (copy_of("UNKNOWN"), copy_of(line));
    }
    assert(after_time.skip(j - level + 1) =~= v@.skip(j as int + 1));
    let k: usize = find_stop(&v, j + 1, ' ', ' ', ' ');
    if k == n {
        return (copy_of("UNKNOWN"), copy_of(line));
    }
    let ghost after_level = v@.skip(j as int + 1);
    let mut to: usize = k;
    assert(v@.subrange(j as int + 1, k as int) =~= after_level.take(k - j - 1));
    while to > j + 1 && v[to - 1] == ':'
        invariant
            j + 1 <= to <= k < v@.len(),
            without_colons(v@.subrange(j as int + 1, to as int)) == without_colons(
                v@.subrange(j as int + 1, k as int),
            ),
        decreases to,
    {
        let ghost part = v@.subrange(j as int + 1, to as int);
        assert(part.last() == v@[to - 1]);
        assert(part.drop_last() =~= v@.subrange(j as int + 1, to - 1));
        to -= 1;
    }
    proof {
        let part = v@.subrange(j as int + 1, to as int);
        if part.len() > 0 {
            assert(part.last() == v@[to - 1]);
        }
    }
    assert(v@.subrange(k as int + 1, n as int) =~= after_level.skip(k - j - 1 + 1));
    (text_between(&v, j + 1, to), text_between(&v, k + 1, n))
}

/// How long the key is that stands at `i` before a symbol, `symbol=` or `symbol: `;
/// 0 where neither stands there.
pub open spec fn symbol_key(line: Seq<char>, i: int) -> int {
    if stands_at(line, "symbol="@, i) {
        7
    } else if stands_at(line, "symbol: "@, i) {
        8
    } else {
        0
    }
}

/// The first key of a line stands at `i`.
pub open spec fn first_symbol_key(line: Seq<char>, i: int) -> bool {
    symbol_key(line, i) > 0 && forall|k: int| 0 <= k < i ==> #[trigger] symbol_key(line, k) == 0
}

/// The symbol that a line names behind its first `symbol=` or `symbol: `, up to a gap.
pub open spec fn symbol_in(line: Seq<char>) -> Option<Seq<char>> {
    if exists|i: int| #[trigger] symbol_key(line, i) > 0 {
        let i = choose|i: int| first_symbol_key(line, i);
        let after = line.skip(i + symbol_key(line, i));
        Some(after.take(first_stop(after, ' ', '\t', '\n')))
    } else {
        None
    }
}

/// How long the key is that stands at `i`.
fn symbol_key_at(v: &Vec<char>, i: usize) -> (r: usize)
    requires
        i <= v@.len(),
    ensures
        r == symbol_key(v@, i as int),
        i + r <= v@.len(),
{
    let equals = chars_of("symbol=");
    let colon = chars_of("symbol: ");
    proof {
        reveal_strlit("symbol=");
        reveal_strlit("symbol: ");
    }
    if v.len() - i >= 7 && part_at(v, &equals, i) {
        7
    } else if v.len() - i >= 8 && part_at(v, &colon, i) {
        8
    } else {
        0
    }
}

/// The symbol that a line names.
pub fn extract_symbol_from_log(line: &str) -> (r: Option<String>)
    ensures
        match r {
            Some(s) => symbol_in(line@) == Some(s@),
            None => symbol_in(line@) is None,
        },
{
    let v = chars_of(line);
    let mut i: usize = 0;
    while i < v.len()
        invariant
            v@ == line@,
            i <= v@.len(),
            forall|k: int| 0 <= k < i ==> #[trigger] symbol_key(line@, k) == 0,
        decreases v@.len() - i,
    {
        let key: usize = symbol_key_at(&v, i);
        if key > 0 {
            let end: usize = find_stop(&v, i + key, ' ', '\t', '\n');
            proof {
                assert(first_symbol_key(line@, i as int));
                let c = choose|c: int| first_symbol_key(line@, c);
                assert(first_symbol_key(line@, c));
                if c < i {
                    assert(symbol_key(line@, c) == 0);
                } else if i < c {
                    assert(symbol_key(line@, i as int) == 0);
                }
                let after = line@.skip(i + key);
                assert(v@.subrange(i + key, end as int) =~= after.take(end - i - key));
            }
            return Some(text_between(&v, i + key, end));
        }
        i += 1;
    }
    proof {
        reveal_strlit("symbol=");
        reveal_strlit("symbol: ");
    }
    assert forall|k: int| #[trigger] symbol_key(line@, k) == 0 by {
        if 0 <= k < i {
            assert(symbol_key(line@, k) == 0);
        }
    }
    None
}

/// The first stop is a stop, and none stands before it; without one it is the end.
pub proof fn law_first_stop(s: Seq<char>, a: char, b: char, c: char)
    ensures
        ({
            let i = first_stop(s, a, b, c);
            &&& 0 <= i <= s.len()
            &&& i < s.len() ==> s[i] == a || s[i] == b || s[i] == c
            &&& forall|j: int| 0 <= j < i ==> #[trigger] s[j] != a && s[j] != b && s[j] != c
        }),
    decreases s.len(),
{
    if s.len() > 0 && s[0] != a && s[0] != b && s[0] != c {
        let rest = s.skip(1);
        law_first_stop(rest, a, b, c);
        let i = first_stop(s, a, b, c);
        if i < s.len() {
            assert(rest[i - 1] == s[i]);
        }
        assert forall|j: int| 0 <= j < i implies #[trigger] s[j] != a && s[j] != b && s[j]
            != c by {
            if j > 0 {
                assert(rest[j - 1] == s[j]);
            }
        }
    }
}

/// No line of a text holds the end of a line.
pub proof fn law_lines(s: Seq<char>, i: int, j: int)
    requires
        0 <= i < lines_of(s).len(),
        0 <= j < lines_of(s)[i].len(),
    ensures
        lines_of(s)[i][j] != '\n',
    decreases s.len(),
{
    law_first_stop(s, '\n', '\n', '\n');
    let k = first_stop(s, '\n', '\n', '\n');
    if k < s.len() {
        let rest = s.skip(k + 1);
        if i == 0 {
            assert(lines_of(s)[0] == without_return(s.take(k)));
            assert(s.take(k)[j] == s[j]);
        } else {
            assert(lines_of(s)[i] == lines_of(rest)[i - 1]);
            law_lines(rest, i - 1, j);
        }
    } else {
        assert(lines_of(s)[i] == s);
    }
}

} // verus!
