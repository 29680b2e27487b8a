//! Line buffers and plain text: splitting text into lines the way
//! `str::lines` does, joining a buffer back into file text, and the
//! character-level helpers the editor needs.

use vstd::prelude::*;
use vstd::std_specs::iter::IteratorSpec;

verus! {

/// Drops one trailing carriage return.
pub open spec fn strip_cr(l: Seq<char>) -> Seq<char> {
    if l.len() > 0 && l.last() == '\r' {
        l.drop_last()
    } else {
        l
    }
}

/// Index of the first newline at or after `i`, or the length when there is none.
pub open spec fn line_end(s: Seq<char>, i: int) -> int
    decreases s.len() - i,
{
    if i >= s.len() || s[i] == '\n' {
        i
    } else {
        line_end(s, i + 1)
    }
}

/// The lines of `s` from position `i` on: split at `\n`, a `\r` before the
/// `\n` is dropped, and a final `\n` does not start another line.
pub open spec fn lines_from(s: Seq<char>, i: int) -> Seq<Seq<char>>
    decreases s.len() - i, 1int,
{
    if i < 0 || i >= s.len() {
        seq![]
    } else {
        let e = line_end(s, i);
        if e >= s.len() {
            seq![s.subrange(i, s.len() as int)]
        } else {
            proof {
                lemma_line_end_bounds(s, i);
            }
            seq![strip_cr(s.subrange(i, e))] + lines_from(s, e + 1)
        }
    }
}

/// The lines of a text, as `str::lines` yields them.
pub open spec fn spec_lines(s: Seq<char>) -> Seq<Seq<char>> {
    lines_from(s, 0)
}

pub proof fn lemma_line_end_bounds(s: Seq<char>, i: int)
    requires
        0 <= i <= s.len(),
    ensures
        i <= line_end(s, i) <= s.len(),
        line_end(s, i) < s.len() ==> s[line_end(s, i)] == '\n',
        forall|k: int| i <= k < line_end(s, i) ==> s[k] != '\n',
    decreases s.len() - i,
{
    if i < s.len() && s[i] != '\n' {
        lemma_line_end_bounds(s, i + 1);
    }
}

/// The characters of a string, in order.
pub(crate) fn chars_of(s: &str) -> (r: Vec<char>)
    ensures
        r@ == s@,
{
    broadcast use vstd::string::group_string_axioms;
    let mut out: Vec<char> = Vec::new();
    let mut it = s.chars();
    loop
        invariant
            out@ + it.remaining() == s@,
            it.decrease() is Some,
        ensures
            out@ == s@,
        decreases it.decrease()->0,
    {
        match it.next() {
            Some(c) => {
                proof {
                    assert(out@.push(c) + it.remaining() =~= out@ + (seq![c] + it.remaining()));
                }
                out.push(c);
            },
            None => {
                proof {
                    assert(out@ + it.remaining() =~= out@);
                }
                break;
            },
        }
    }
    out
}

/// `String::push`: the string with a character added at its end.
#[verifier::external_body]
fn push_char(s: &mut String, c: char)
    ensures
        final(s)@ == old(s)@.push(c),
{
    s.push(c);
}

/// A string made of the given characters.
pub(crate) fn string_of(cs: &[char]) -> (r: String)
    ensures
        r@ == cs@,
{
    let mut out = String::new();
    let mut k: usize = 0;
    while k < cs.len()
        invariant
            k <= cs@.len(),
            out@ == cs@.take(k as int),
        decreases cs@.len() - k,
    {
        push_char(&mut out, cs[k]);
        k = k + 1;
        proof {
            assert(out@ =~= cs@.take(k as int));
        }
    }
    proof {
        assert(cs@.take(cs@.len() as int) =~= cs@);
    }
    out
}

pub proof fn lemma_line_end_at(s: Seq<char>, start: int, e: int)
    requires
        0 <= start <= e <= s.len(),
        e < s.len() ==> s[e] == '\n',
        forall|k: int| start <= k < e ==> s[k] != '\n',
    ensures
        line_end(s, start) == e,
    decreases e - start,
{
    if start < e {
        lemma_line_end_at(s, start + 1, e);
    }
}

/// Splits a text into lines the way `str::lines` does.
pub fn text_lines(text: &str) -> (r: Vec<String>)
    ensures
        r.deep_view() == spec_lines(text@),
{
    let cs = chars_of(text);
    let n = cs.len();
    let mut out: Vec<String> = Vec::new();
    let mut i: usize = 0;
    let mut start: usize = 0;
    let mut cur: Vec<char> = Vec::new();
    while i < n
        invariant
            n == cs@.len(),
            0 <= start <= i <= n,
            cur@ == cs@.subrange(start as int, i as int),
            forall|k: int| start <= k < i ==> cs@[k] != '\n',
            out.deep_view() + lines_from(cs@, start as int) == spec_lines(cs@),
        decreases n - i,
    {
        let c = cs[i];
        if c == '\n' {
            proof {
                lemma_line_end_at(cs@, start as int, i as int);
            }
            let ghost old_out = out.deep_view();
            let mut line = cur;
            if line.len() > 0 && line[line.len() - 1] == '\r' {
                line.pop();
            }
            assert(line@ == strip_cr(cs@.subrange(start as int, i as int)));
            let s = string_of(line.as_slice());
            out.push(s);
            assert(out.deep_view() =~= old_out.push(s@));
            assert(lines_from(cs@, start as int) == seq![strip_cr(
                cs@.subrange(start as int, i as int),
            )] + lines_from(cs@, i + 1));
            assert(out.deep_view() + lines_from(cs@, i + 1) =~= old_out + lines_from(
                cs@,
                start as int,
            ));
            cur = Vec::new();
            start = i + 1;
        } else {
            cur.push(c);
        }
        i = i + 1;
    }
    if start < n {
        proof {
            lemma_line_end_at(cs@, start as int, n as int);
        }
        let ghost old_out = out.deep_view();
        let s = string_of(cur.as_slice());
        out.push(s);
        assert(out.deep_view() =~= old_out.push(s@));
        assert(lines_from(cs@, start as int) == seq![cs@.subrange(start as int, n as int)]);
        assert(out.deep_view() =~= old_out + lines_from(cs@, start as int));
    } else {
        assert(out.deep_view() =~= out.deep_view() + lines_from(cs@, start as int));
    }
    out
}

/// Every line followed by a newline.
pub open spec fn join_terminated(buf: Seq<Seq<char>>) -> Seq<char>
    decreases buf.len(),
{
    if buf.len() == 0 {
        seq![]
    } else {
        join_terminated(buf.drop_last()) + buf.last() + seq!['\n']
    }
}

/// The file text of a line buffer: empty for an empty buffer or a single
/// empty line, otherwise every line followed by a newline.
pub open spec fn spec_buf_to_text(buf: Seq<Seq<char>>) -> Seq<char> {
    if buf.len() == 0 || (buf.len() == 1 && buf[0].len() == 0) {
        seq![]
    } else {
        join_terminated(buf)
    }
}

/// The line buffer of a file text: a single empty line for an empty text,
/// otherwise its lines.
pub open spec fn spec_str_to_lines(text: Seq<char>) -> Seq<Seq<char>> {
    if text.len() == 0 || spec_lines(text).len() == 0 {
        seq![seq![]]
    } else {
        spec_lines(text)
    }
}

/// Where a line ends depends only on the text from some point before it.
proof fn lemma_line_end_skip(s: Seq<char>, i: int, j: int)
    requires
        0 <= j <= i <= s.len(),
    ensures
        line_end(s, i) == line_end(s.skip(j), i - j) + j,
    decreases s.len() - i,
{
    if i < s.len() && s[i] != '\n' {
        assert(s.skip(j)[i - j] == s[i]);
        lemma_line_end_skip(s, i + 1, j);
    }
}

/// The lines from a point depend only on the text from some point before
/// it.
proof fn lemma_lines_from_skip(s: Seq<char>, i: int, j: int)
    requires
        0 <= j <= i <= s.len(),
    ensures
        lines_from(s, i) == lines_from(s.skip(j), i - j),
    decreases s.len() - i,
{
    if i < s.len() {
        lemma_line_end_skip(s, i, j);
        lemma_line_end_bounds(s, i);
        let e = line_end(s, i);
        assert(s.subrange(i, e) =~= s.skip(j).subrange(i - j, e - j));
        assert(s.subrange(i, s.len() as int) =~= s.skip(j).subrange(i - j, s.skip(j).len() as int));
        if e < s.len() {
            lemma_lines_from_skip(s, e + 1, j);
        }
    }
}

/// Joining a buffer puts its first line first.
proof fn lemma_join_first(buf: Seq<Seq<char>>)
    requires
        buf.len() > 0,
    ensures
        join_terminated(buf) == buf[0] + seq!['\n'] + join_terminated(buf.drop_first()),
    decreases buf.len(),
{
    if buf.len() == 1 {
        assert(buf.drop_last() =~= Seq::<Seq<char>>::empty());
        assert(buf.drop_first() =~= Seq::<Seq<char>>::empty());
        assert(join_terminated(buf.drop_first()) =~= Seq::<char>::empty());
        assert(join_terminated(buf) =~= buf[0] + seq!['\n'] + join_terminated(buf.drop_first()));
    } else {
        lemma_join_first(buf.drop_last());
        assert(buf.drop_last().drop_first() =~= buf.drop_first().drop_last());
        assert(buf.drop_first().last() == buf.last());
        assert(join_terminated(buf) =~= buf[0] + seq!['\n'] + join_terminated(buf.drop_first()));
    }
}

/// A line holds no newline and does not end with a carriage return.
pub open spec fn plain_line(l: Seq<char>) -> bool {
    &&& forall|k: int| 0 <= k < l.len() ==> l[k] != '\n'
    &&& !(l.len() > 0 && l.last() == '\r')
}

/// Joined plain lines split back into the same lines.
proof fn lemma_split_join(buf: Seq<Seq<char>>)
    requires
        forall|k: int| 0 <= k < buf.len() ==> plain_line(#[trigger] buf[k]),
    ensures
        lines_from(join_terminated(buf), 0) == buf,
    decreases buf.len(),
{
    if buf.len() == 0 {
        assert(lines_from(join_terminated(buf), 0) =~= buf);
    } else {
        let l = buf[0];
        let rest = buf.drop_first();
        assert forall|k: int| 0 <= k < rest.len() implies plain_line(#[trigger] rest[k]) by {
            assert(rest[k] == buf[k + 1]);
        }
        lemma_split_join(rest);
        lemma_join_first(buf);
        let s = join_terminated(buf);
        let jr = join_terminated(rest);
        assert(plain_line(buf[0]));
        assert(s == l + seq!['\n'] + jr);
        assert forall|k: int| 0 <= k < l.len() implies s[k] == l[k] && s[k] != '\n' by {}
        assert(s[l.len() as int] == '\n');
        lemma_line_end_from(s, 0, l.len() as int);
        assert(s.subrange(0, l.len() as int) =~= l);
        assert(strip_cr(l) == l);
        let n: int = l.len() as int + 1;
        lemma_lines_from_skip(s, n, n);
        assert(s.skip(n) =~= jr);
        assert(lines_from(s, 0) =~= seq![l] + rest);
        assert(seq![l] + rest =~= buf);
    }
}

/// The first newline from `i` is at `e` when the text has none before it.
proof fn lemma_line_end_from(s: Seq<char>, i: int, e: int)
    requires
        0 <= i <= e < s.len(),
        s[e] == '\n',
        forall|k: int| i <= k < e ==> s[k] != '\n',
    ensures
        line_end(s, i) == e,
    decreases e - i,
{
    if i < e {
        lemma_line_end_from(s, i + 1, e);
    }
}

/// A text without carriage returns that ends with a newline is its lines
/// joined.
proof fn lemma_join_split(s: Seq<char>)
    requires
        s.len() > 0 ==> s.last() == '\n',
        forall|k: int| 0 <= k < s.len() ==> s[k] != '\r',
    ensures
        join_terminated(lines_from(s, 0)) == s,
    decreases s.len(),
{
    if s.len() == 0 {
        assert(lines_from(s, 0) =~= Seq::<Seq<char>>::empty());
    } else {
        lemma_line_end_bounds(s, 0);
        let e = line_end(s, 0);
        assert(e < s.len()) by {
            if e >= s.len() {
                assert(s[s.len() - 1] != '\n');
            }
        }
        let t = s.skip(e + 1);
        assert(t.len() > 0 ==> t.last() == '\n') by {
            if t.len() > 0 {
                assert(t.last() == s.last());
            }
        }
        assert forall|k: int| 0 <= k < t.len() implies t[k] != '\r' by {
            assert(t[k] == s[e + 1 + k]);
        }
        lemma_join_split(t);
        lemma_lines_from_skip(s, e + 1, e + 1);
        let l = s.subrange(0, e);
        assert(strip_cr(l) == l) by {
            if l.len() > 0 {
                assert(l.last() == s[e - 1]);
            }
        }
        let lines = lines_from(s, 0);
        assert(lines == seq![l] + lines_from(t, 0));
        lemma_join_first(lines);
        assert(lines.drop_first() =~= lines_from(t, 0));
        assert(s =~= l + seq!['\n'] + t);
    }
}

/// Lines taken from a text and joined back give the text, for a text
/// without carriage returns that is empty or ends with a newline, other
/// than a lone newline (which reads as one empty line, saved as nothing).
pub(crate) proof fn lemma_text_round_trip(s: Seq<char>)
    requires
        s.len() == 0 || (s.last() == '\n' && s != seq!['\n']),
        forall|k: int| 0 <= k < s.len() ==> s[k] != '\r',
    ensures
        spec_buf_to_text(spec_str_to_lines(s)) == s,
{
    if s.len() > 0 {
        lemma_join_split(s);
        let lines = spec_lines(s);
        assert(lines.len() > 0) by {
            if lines.len() == 0 {
                assert(join_terminated(lines) =~= Seq::<char>::empty());
            }
        }
        assert(!(lines.len() == 1 && lines[0].len() == 0)) by {
            if lines.len() == 1 && lines[0].len() == 0 {
                assert(lines.drop_last() =~= Seq::<Seq<char>>::empty());
                assert(join_terminated(lines.drop_last()) =~= Seq::<char>::empty());
                assert(lines.last() =~= Seq::<char>::empty());
                assert(join_terminated(lines) =~= seq!['\n']);
            }
        }
    } else {
        assert(spec_str_to_lines(s) =~= seq![Seq::<char>::empty()]);
    }
}

/// A buffer joined into text and read back gives the buffer, when it has
/// a line and each line is plain (no newline, no trailing carriage
/// return).
pub(crate) proof fn lemma_lines_round_trip(buf: Seq<Seq<char>>)
    requires
        buf.len() >= 1,
        forall|k: int| 0 <= k < buf.len() ==> plain_line(#[trigger] buf[k]),
    ensures
        spec_str_to_lines(spec_buf_to_text(buf)) == buf,
{
    if buf.len() == 1 && buf[0].len() == 0 {
        assert(buf[0] =~= Seq::<char>::empty());
        assert(spec_str_to_lines(Seq::<char>::empty()) =~= buf);
    } else {
        lemma_split_join(buf);
        let s = join_terminated(buf);
        lemma_join_first(buf);
        assert(s.len() > 0);
    }
}

/// Convert a string (e.g. from file I/O) to a per-pane line buffer.
pub fn str_to_lines(text: &str) -> (r: Vec<String>)
    ensures
        r.deep_view() == spec_str_to_lines(text@),
        r@.len() >= 1,
{
    let lines = text_lines(text);
    if lines.len() == 0 {
        let mut v: Vec<String> = Vec::new();
        v.push(String::new());
        assert(v.deep_view() =~= seq![Seq::<char>::empty()]);
        v
    } else {
        assert(text@.len() != 0) by {
            if text@.len() == 0 {
                assert(spec_lines(text@) =~= Seq::<Seq<char>>::empty());
            }
        }
        lines
    }
}

/// Reconstruct a file-I/O string from a line buffer.
pub fn buf_to_text(buf: &[String]) -> (r: String)
    ensures
        r@ == spec_buf_to_text(buf@.map_values(|l: String| l@)),
{
    let ghost b = buf@.map_values(|l: String| l@);
    if buf.len() == 0 || (buf.len() == 1 && buf[0].unicode_len() == 0) {
        return String::new();
    }
    let mut acc: Vec<char> = Vec::new();
    let mut i: usize = 0;
    while i < buf.len()
        invariant
            i <= buf@.len(),
            b == buf@.map_values(|l: String| l@),
            acc@ == join_terminated(b.take(i as int)),
        decreases buf@.len() - i,
    {
        let cs = chars_of(buf[i].as_str());
        let ghost before = acc@;
        let mut j: usize = 0;
        while j < cs.len()
            invariant
                j <= cs@.len(),
                acc@ == before + cs@.take(j as int),
            decreases cs@.len() - j,
        {
            acc.push(cs[j]);
            assert(acc@ =~= before + cs@.take(j + 1));
            j = j + 1;
        }
        acc.push('\n');
        assert(b.take(i + 1).drop_last() =~= b.take(i as int));
        assert(cs@.take(cs@.len() as int) =~= cs@);
        assert(acc@ =~= join_terminated(b.take(i + 1)));
        i = i + 1;
    }
    assert(b.take(buf@.len() as int) =~= b);
    string_of(acc.as_slice())
}

/// `char::is_whitespace`: the characters with the Unicode `White_Space`
/// property.
pub open spec fn spec_is_whitespace(c: char) -> bool {
    let u = c as u32;
    (9 <= u <= 13) || u == 32 || u == 0x85 || u == 0xA0 || u == 0x1680 || (0x2000 <= u <= 0x200A)
        || u == 0x2028 || u == 0x2029 || u == 0x202F || u == 0x205F || u == 0x3000
}

/// Whether a character is whitespace in the sense of `char::is_whitespace`.
pub fn is_whitespace(c: char) -> (b: bool)
    ensures
        b == spec_is_whitespace(c),
{
    let u = c as u32;
    (9 <= u && u <= 13) || u == 32 || u == 0x85 || u == 0xA0 || u == 0x1680 || (0x2000 <= u && u
        <= 0x200A) || u == 0x2028 || u == 0x2029 || u == 0x202F || u == 0x205F || u == 0x3000
}

/// A line that `trim` would leave empty: only whitespace.
pub open spec fn is_blank(l: Seq<char>) -> bool {
    forall|k: int| 0 <= k < l.len() ==> spec_is_whitespace(#[trigger] l[k])
}

/// The words of `s` joined by single spaces, as
/// `split_whitespace().collect::<Vec<_>>().join(" ")` gives them: every run
/// of whitespace between two words becomes one space, and whitespace at
/// either end is dropped.
pub open spec fn collapse_whitespace(s: Seq<char>) -> Seq<char>
    decreases s.len(),
{
    if s.len() == 0 {
        seq![]
    } else {
        let init = collapse_whitespace(s.drop_last());
        let c = s.last();
        if spec_is_whitespace(c) {
            init
        } else if s.len() > 1 && spec_is_whitespace(s[s.len() - 2]) && init.len() > 0 {
            init + seq![' ', c]
        } else {
            init.push(c)
        }
    }
}

/// Whether every character of the string is whitespace.
pub fn str_is_blank(s: &str) -> (b: bool)
    ensures
        b == is_blank(s@),
{
    let cs = chars_of(s);
    let mut i: usize = 0;
    while i < cs.len()
        invariant
            i <= cs@.len(),
            cs@ == s@,
            forall|k: int| 0 <= k < i ==> spec_is_whitespace(#[trigger] cs@[k]),
        decreases cs@.len() - i,
    {
        if !is_whitespace(cs[i]) {
            return false;
        }
        i = i + 1;
    }
    true
}

/// Collapses the whitespace of a string (see `collapse_whitespace`).
pub fn collapse_ws(s: &str) -> (r: String)
    ensures
        r@ == collapse_whitespace(s@),
{
    let cs = chars_of(s);
    let mut out: Vec<char> = Vec::new();
    let mut i: usize = 0;
    proof {
        assert(cs@.take(0) =~= Seq::<char>::empty());
    }
    while i < cs.len()
        invariant
            i <= cs@.len(),
            cs@ == s@,
            out@ == collapse_whitespace(cs@.take(i as int)),
        decreases cs@.len() - i,
    {
        let c = cs[i];
        proof {
            assert(cs@.take(i + 1).drop_last() =~= cs@.take(i as int));
            assert(cs@.take(i + 1).last() == c);
        }
        if is_whitespace(c) {
        } else if i > 0 && is_whitespace(cs[i - 1]) && out.len() > 0 {
            proof {
                assert(cs@.take(i + 1)[i - 1] == cs@[i - 1]);
            }
            out.push(' ');
            out.push(c);
        } else {
            proof {
                if i > 0 {
                    assert(cs@.take(i + 1)[i - 1] == cs@[i - 1]);
                }
            }
            out.push(c);
        }
        i = i + 1;
    }
    proof {
        assert(cs@.take(cs@.len() as int) =~= cs@);
    }
    string_of(out.as_slice())
}

/// The lower-case mapping of `str::to_lowercase`.
pub uninterp spec fn spec_lowercase(s: Seq<char>) -> Seq<char>;

/// `str::to_lowercase`. Its result is a function of the text alone (the
/// Unicode case tables of the standard library), named `spec_lowercase`.
#[verifier::external_body]
pub(crate) fn lowercase(s: &str) -> (r: String)
    ensures
        r@ == spec_lowercase(s@),
{
    s.to_lowercase()
}

/// The texts of a list of lines.
pub open spec fn lines_of(v: Seq<String>) -> Seq<Seq<char>> {
    v.map_values(|l: String| l@)
}

/// A copy of a line buffer.
pub fn copy_lines(v: &Vec<String>) -> (r: Vec<String>)
    ensures
        r@ == v@,
{
    let r = v.clone();
    proof {
        assert forall|i: int| 0 <= i < v@.len() implies r@[i] == v@[i] by {
            assert(cloned::<String>(v[i], r[i]));
        }
        assert(r@ =~= v@);
    }
    r
}

/// The column a cursor at `col` stands at in a line of `len` characters:
/// past the end it stands at the end.
pub open spec fn clamp_col(len: int, col: int) -> int {
    if col < len {
        col
    } else {
        len
    }
}

/// `line` with `ch` inserted at column `col`.
pub open spec fn insert_char(line: Seq<char>, col: int, ch: char) -> Seq<char> {
    let c = clamp_col(line.len() as int, col);
    line.take(c) + seq![ch] + line.skip(c)
}

/// The characters `cs[from..to]` appended to `out`.
pub(crate) fn push_range(out: &mut Vec<char>, cs: &Vec<char>, from: usize, to: usize)
    requires
        from <= to <= cs@.len(),
    ensures
        final(out)@ == old(out)@ + cs@.subrange(from as int, to as int),
{
    let ghost start = out@;
    let mut k: usize = from;
    while k < to
        invariant
            from <= k <= to <= cs@.len(),
            out@ == start + cs@.subrange(from as int, k as int),
        decreases to - k,
    {
        out.push(cs[k]);
        k = k + 1;
        proof {
            assert(out@ =~= start + cs@.subrange(from as int, k as int));
        }
    }
}

/// Inserts a character into a line at a column.
pub fn line_insert_char(line: &String, col: usize, ch: char) -> (r: String)
    ensures
        r@ == insert_char(line@, col as int, ch),
{
    let cs = chars_of(line.as_str());
    let c = if col < cs.len() { col } else { cs.len() };
    let mut out: Vec<char> = Vec::new();
    push_range(&mut out, &cs, 0, c);
    out.push(ch);
    push_range(&mut out, &cs, c, cs.len());
    proof {
        assert(out@ =~= insert_char(line@, col as int, ch));
    }
    string_of(out.as_slice())
}

/// Removes the character at a column of a line.
pub fn line_remove_char(line: &String, col: usize) -> (r: String)
    requires
        col < line@.len(),
    ensures
        r@ == line@.remove(col as int),
{
    let cs = chars_of(line.as_str());
    let mut out: Vec<char> = Vec::new();
    push_range(&mut out, &cs, 0, col);
    assert(col < cs.len());
    push_range(&mut out, &cs, col + 1, cs.len());
    proof {
        assert(out@ =~= line@.remove(col as int));
    }
    string_of(out.as_slice())
}

/// Splits a line at a column: the part before it and the part from it on.
pub fn line_split(line: &String, col: usize) -> (r: (String, String))
    ensures
        r.0@ == line@.take(clamp_col(line@.len() as int, col as int)),
        r.1@ == line@.skip(clamp_col(line@.len() as int, col as int)),
{
    let cs = chars_of(line.as_str());
    let c = if col < cs.len() { col } else { cs.len() };
    let mut a: Vec<char> = Vec::new();
    let mut b: Vec<char> = Vec::new();
    push_range(&mut a, &cs, 0, c);
    push_range(&mut b, &cs, c, cs.len());
    proof {
        assert(a@ =~= line@.take(c as int));
        assert(b@ =~= line@.skip(c as int));
    }
    (string_of(a.as_slice()), string_of(b.as_slice()))
}

/// The concatenation of two strings.
pub(crate) fn concat_str(a: &str, b: &str) -> (r: String)
    ensures
        r@ == a@ + b@,
{
    String::from_str(a).concat(b)
}

} // verus!
