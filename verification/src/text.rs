//! Text helpers: character access, line splitting and message chunking.
use vstd::prelude::*;
use vstd::string::StringExecFns;
use vstd::utf8::encode_utf8;

verus! {

/// Number of bytes of the UTF-8 encoding of `s`.
pub open spec fn utf8_len(s: Seq<char>) -> nat {
    encode_utf8(s).len()
}

/// Index of the last `'\n'` in `s`, or `-1` when there is none.
pub open spec fn last_newline(s: Seq<char>) -> int
    decreases s.len(),
{
    if s.len() == 0 {
        -1
    } else if s.last() == '\n' {
        s.len() - 1
    } else {
        last_newline(s.drop_last())
    }
}

/// `s` without one trailing `'\r'`, if it has one.
pub open spec fn strip_cr(s: Seq<char>) -> Seq<char> {
    if s.len() > 0 && s.last() == '\r' {
        s.drop_last()
    } else {
        s
    }
}

/// The lines of `s`, as `str::lines` yields them: `s` is cut after each
/// `'\n'`; a piece that ends in `'\n'` loses it and then one `'\r'` before
/// it; a last piece without `'\n'` is kept as it is; no empty piece follows
/// a final `'\n'`.
pub open spec fn lines(s: Seq<char>) -> Seq<Seq<char>>
    decreases s.len(),
{
    if s.len() == 0 {
        seq![]
    } else if s.last() == '\n' {
        let body = s.drop_last();
        let start = last_newline(body) + 1;
        proof {
            lemma_last_newline_bounds(body);
        }
        lines(body.take(start)).push(strip_cr(body.skip(start)))
    } else {
        let start = last_newline(s) + 1;
        proof {
            lemma_last_newline_bounds(s);
        }
        lines(s.take(start)).push(s.skip(start))
    }
}

/// No line holds a `'\n'`.
pub proof fn lemma_lines_have_no_newline(s: Seq<char>)
    ensures
        forall|i: int, j: int|
            0 <= i < lines(s).len() && 0 <= j < lines(s)[i].len() ==> #[trigger] lines(s)[i][j]
                != '\n',
    decreases s.len(),
{
    if s.len() > 0 {
        let body = if s.last() == '\n' {
            s.drop_last()
        } else {
            s
        };
        let start = last_newline(body) + 1;
        lemma_last_newline_bounds(body);
        lemma_lines_have_no_newline(body.take(start));
        let rest = lines(body.take(start));
        let piece = body.skip(start);
        assert forall|j: int| 0 <= j < piece.len() implies piece[j] != '\n' by {
            assert(piece[j] == body[start + j]);
        }
        assert forall|i: int, j: int|
            0 <= i < lines(s).len() && 0 <= j < lines(s)[i].len() implies #[trigger] lines(s)[i][j]
                != '\n' by {
            if i < rest.len() {
                assert(lines(s)[i] == rest[i]);
            } else if s.last() == '\n' {
                assert(lines(s)[i] == strip_cr(piece));
                assert(strip_cr(piece)[j] == piece[j]);
            } else {
                assert(lines(s)[i] == piece);
            }
        }
    }
}

/// `last_newline` is `-1` or the index of a `'\n'`, with no `'\n'` after it;
/// it is below the last index when `s` does not end in `'\n'`.
pub proof fn lemma_last_newline_bounds(s: Seq<char>)
    ensures
        -1 <= last_newline(s) < s.len(),
        last_newline(s) >= 0 ==> s[last_newline(s)] == '\n',
        forall|k: int| last_newline(s) < k < s.len() ==> s[k] != '\n',
        s.len() > 0 && s.last() != '\n' ==> last_newline(s) < s.len() - 1,
    decreases s.len(),
{
    if s.len() > 0 && s.last() != '\n' {
        lemma_last_newline_bounds(s.drop_last());
        assert forall|k: int| last_newline(s) < k < s.len() implies s[k] != '\n' by {
            if k < s.len() - 1 {
                assert(s.drop_last()[k] == s[k]);
            }
        }
    }
}

/// One step of chunking: `line` and a `'\n'` go to the current chunk, unless
/// that would make it longer than `max_len` bytes, in which case the current
/// chunk is closed first.
pub open spec fn pack_step(
    state: (Seq<Seq<char>>, Seq<char>),
    line: Seq<char>,
    max_len: nat,
) -> (Seq<Seq<char>>, Seq<char>) {
    let (chunks, current) = state;
    if utf8_len(current) + utf8_len(line) + 1 > max_len {
        (chunks.push(current), line.push('\n'))
    } else {
        (chunks, current + line.push('\n'))
    }
}

/// The closed chunks and the open chunk after packing `lines` in order.
pub open spec fn pack(lines: Seq<Seq<char>>, max_len: nat) -> (Seq<Seq<char>>, Seq<char>)
    decreases lines.len(),
{
    if lines.len() == 0 {
        (seq![], seq![])
    } else {
        pack_step(pack(lines.drop_last(), max_len), lines.last(), max_len)
    }
}

/// The chunks that `chunk_message` returns for `text`.
pub open spec fn chunks_of(text: Seq<char>, max_len: nat) -> Seq<Seq<char>> {
    let (chunks, current) = pack(lines(text), max_len);
    if current.len() > 0 {
        chunks.push(current)
    } else {
        chunks
    }
}

/// Copies the characters of `s` into a vector.
pub fn chars_of(s: &str) -> (chars: Vec<char>)
    ensures
        chars@ == s@,
{
    broadcast use vstd::string::group_string_axioms;

    let mut chars: Vec<char> = Vec::new();
    for c in it: s.chars()
        invariant
            chars@ == it.seq().take(it.index()),
    {
        chars.push(c);
    }
    chars
}

/// Appends one character to a string (`String::push`).
#[verifier::external_body]
fn push_char(s: &mut String, c: char)
    ensures
        final(s)@ == old(s)@.push(c),
{
    s.push(c);
}

/// The byte length of the UTF-8 encoding of a concatenation is the sum.
pub proof fn lemma_utf8_len_concat(a: Seq<char>, b: Seq<char>)
    ensures
        utf8_len(a + b) == utf8_len(a) + utf8_len(b),
    decreases a.len(),
{
    if a.len() == 0 {
        assert(a + b =~= b);
    } else {
        assert((a + b).drop_first() =~= a.drop_first() + b);
        assert((a + b)[0] == a[0]);
        lemma_utf8_len_concat(a.drop_first(), b);
    }
}

/// A line feed and a carriage return are one byte each.
pub proof fn lemma_utf8_len_control(c: char)
    requires
        c == '\n' || c == '\r',
    ensures
        utf8_len(seq![c]) == 1,
{
    reveal_with_fuel(encode_utf8, 2);
    assert(seq![c].drop_first() =~= Seq::<char>::empty());
}

/// Adds one line to the chunks, as `pack_step` says.
fn pack_line(chunks: Vec<String>, current: String, line: &str, max_len: usize) -> (res: (
    Vec<String>,
    String,
))
    requires
        utf8_len(current@) + utf8_len(line@) + 1 <= usize::MAX,
    ensures
        (res.0.deep_view(), res.1@) == pack_step(
            (chunks.deep_view(), current@),
            line@,
            max_len as nat,
        ),
{
    let mut chunks = chunks;
    let mut current = current;
    let current_len = current.as_str().len();
    let line_len = line.len();
    if current_len + line_len + 1 > max_len {
        let ghost before = chunks.deep_view();
        let ghost closed = current@;
        chunks.push(current);
        assert(chunks.deep_view() =~= before.push(closed));
        current = String::new();
    }
    current.append(line);
    proof {
        reveal_strlit("\n");
    }
    current.append("\n");
    (chunks, current)
}

/// How the line split of a prefix grows by one character.
proof fn lemma_lines_step(s: Seq<char>, i: int, start: int)
    requires
        0 <= start <= i < s.len(),
        start == last_newline(s.take(i)) + 1,
    ensures
        s[i] == '\n' ==> last_newline(s.take(i + 1)) + 1 == i + 1,
        s[i] == '\n' ==> lines(s.take(i + 1)) == lines(s.take(start)).push(
            strip_cr(s.subrange(start, i)),
        ),
        s[i] != '\n' ==> last_newline(s.take(i + 1)) + 1 == start,
{
    let t = s.take(i + 1);
    assert(t.drop_last() =~= s.take(i));
    assert(t.last() == s[i]);
    if s[i] == '\n' {
        assert(s.take(i).take(start) =~= s.take(start));
        assert(s.take(i).skip(start) =~= s.subrange(start, i));
    }
}

/// The line split of the whole text, from the split of the part before its
/// last line.
proof fn lemma_lines_last(s: Seq<char>, start: int)
    requires
        s.len() > 0,
        s.last() != '\n',
        start == last_newline(s) + 1,
    ensures
        lines(s) == lines(s.take(start)).push(s.skip(start)),
{
}

/// Packing one more line is one more packing step.
proof fn lemma_pack_push(ls: Seq<Seq<char>>, line: Seq<char>, max_len: nat)
    ensures
        pack(ls.push(line), max_len) == pack_step(pack(ls, max_len), line, max_len),
{
    assert(ls.push(line).drop_last() =~= ls);
}

/// Byte bound of the open chunk after one more step.
proof fn lemma_pack_step_len(state: (Seq<Seq<char>>, Seq<char>), line: Seq<char>, max_len: nat)
    ensures
        utf8_len(pack_step(state, line, max_len).1) <= utf8_len(state.1) + utf8_len(line) + 1,
{
    lemma_utf8_len_concat(line, seq!['\n']);
    lemma_utf8_len_control('\n');
    assert(line.push('\n') =~= line + seq!['\n']);
    lemma_utf8_len_concat(state.1, line.push('\n'));
}

/// Splits `input` into chunks of whole lines for sending: each line of
/// `input` (as `str::lines` gives them) is followed by `'\n'`, and a chunk is
/// closed whenever the next line would take it past `max_len` bytes.
pub fn chunk_message(input: &str, max_len: usize) -> (chunks: Vec<String>)
    requires
        utf8_len(input@) < usize::MAX,
    ensures
        chunks.deep_view() == chunks_of(input@, max_len as nat),
{
    let chars = chars_of(input);
    let n = chars.len();
    let mut chunks: Vec<String> = Vec::new();
    let mut current = String::new();
    let mut line = String::new();
    let mut pending_cr = false;
    let ghost mut start: int = 0;
    let mut i: usize = 0;
    assert(chunks.deep_view() =~= Seq::<Seq<char>>::empty());
    assert(input@.take(0) =~= Seq::<char>::empty());
    while i < n
        invariant
            n == chars@.len(),
            chars@ == input@,
            utf8_len(input@) < usize::MAX,
            0 <= start <= i <= n,
            start == last_newline(input@.take(i as int)) + 1,
            pending_cr ==> line@.push('\r') == input@.subrange(start, i as int),
            !pending_cr ==> line@ == input@.subrange(start, i as int),
            !pending_cr ==> line@.len() == 0 || line@.last() != '\r',
            (chunks.deep_view(), current@) == pack(lines(input@.take(start)), max_len as nat),
            utf8_len(current@) <= utf8_len(input@.take(start)),
        decreases n - i,
    {
        let c = chars[i];
        proof {
            lemma_lines_step(input@, i as int, start);
        }
        if c == '\n' {
            proof {
                assert(strip_cr(input@.subrange(start, i as int)) == line@);
                let whole = input@.take(i as int + 1);
                assert(whole =~= input@.take(start) + input@.subrange(start, i as int) + seq!['\n']);
                lemma_utf8_len_concat(input@.take(start), input@.subrange(start, i as int));
                lemma_utf8_len_concat(input@.take(start) + input@.subrange(start, i as int), seq!['\n']);
                lemma_utf8_len_control('\n');
                if pending_cr {
                    lemma_utf8_len_concat(line@, seq!['\r']);
                    lemma_utf8_len_control('\r');
                    assert(line@.push('\r') =~= line@ + seq!['\r']);
                }
                assert(input@ =~= whole + input@.skip(i as int + 1));
                lemma_utf8_len_concat(whole, input@.skip(i as int + 1));
                lemma_pack_push(lines(input@.take(start)), line@, max_len as nat);
                lemma_pack_step_len((chunks.deep_view(), current@), line@, max_len as nat);
            }
            let (next_chunks, next_current) = pack_line(chunks, current, line.as_str(), max_len);
            chunks = next_chunks;
            current = next_current;
            line = String::new();
            pending_cr = false;
            proof {
                start = i as int + 1;
                assert(input@.subrange(start, start) =~= Seq::<char>::empty());
            }
        } else {
            if pending_cr {
                push_char(&mut line, '\r');
            }
            if c == '\r' {
                pending_cr = true;
            } else {
                push_char(&mut line, c);
                pending_cr = false;
            }
            assert(input@.subrange(start, i as int + 1) =~= input@.subrange(start, i as int).push(c));
        }
        i = i + 1;
    }
    if pending_cr {
        push_char(&mut line, '\r');
    }
    assert(input@.take(n as int) =~= input@);
    if !line.as_str().is_empty() {
        proof {
            assert(input@.last() != '\n') by {
                if input@.last() == '\n' {
                    lemma_last_newline_bounds(input@);
                }
            }
            lemma_lines_last(input@, start);
            assert(input@.skip(start) =~= input@.subrange(start, n as int));
            assert(input@ =~= input@.take(start) + input@.skip(start));
            lemma_utf8_len_concat(input@.take(start), input@.skip(start));
            lemma_pack_push(lines(input@.take(start)), line@, max_len as nat);
        }
        let (next_chunks, next_current) = pack_line(chunks, current, line.as_str(), max_len);
        chunks = next_chunks;
        current = next_current;
    } else {
        proof {
            if n > 0 {
                lemma_last_newline_bounds(input@);
                if input@.last() != '\n' {
                    assert(input@.subrange(start, n as int).len() > 0);
                }
            }
        }
    }
    if !current.as_str().is_empty() {
        let ghost before = chunks.deep_view();
        let ghost last = current@;
        chunks.push(current);
        assert(chunks.deep_view() =~= before.push(last));
    }
    chunks
}

/// Each line followed by its `'\n'`.
pub open spec fn terminated(ls: Seq<Seq<char>>) -> Seq<Seq<char>> {
    ls.map_values(|l: Seq<char>| l.push('\n'))
}

/// `chunk` is at most `max_len` bytes long, or it is one of `ls` with its
/// `'\n'`.
pub open spec fn fits_or_single_line(chunk: Seq<char>, ls: Seq<Seq<char>>, max_len: nat) -> bool {
    ||| utf8_len(chunk) <= max_len
    ||| exists|j: int| 0 <= j < ls.len() && chunk == #[trigger] ls[j].push('\n')
}

proof fn lemma_terminated_push(ls: Seq<Seq<char>>, l: Seq<char>)
    ensures
        terminated(ls.push(l)) == terminated(ls).push(l.push('\n')),
{
    assert(terminated(ls.push(l)) =~= terminated(ls).push(l.push('\n')));
}

proof fn lemma_pack_keeps_text(ls: Seq<Seq<char>>, max_len: nat)
    ensures
        pack(ls, max_len).0.flatten() + pack(ls, max_len).1 == terminated(ls).flatten(),
    decreases ls.len(),
{
    broadcast use Seq::lemma_flatten_push;

    if ls.len() == 0 {
        assert(terminated(ls) =~= Seq::<Seq<char>>::empty());
        assert(pack(ls, max_len).0.flatten() + pack(ls, max_len).1 =~= Seq::<char>::empty());
    } else {
        let rest = ls.drop_last();
        let l = ls.last();
        lemma_pack_keeps_text(rest, max_len);
        assert(rest.push(l) =~= ls);
        lemma_terminated_push(rest, l);
        let (chunks, current) = pack(rest, max_len);
        if utf8_len(current) + utf8_len(l) + 1 > max_len {
            assert(chunks.push(current).flatten() + l.push('\n') =~= (chunks.flatten() + current)
                + l.push('\n'));
        } else {
            assert(chunks.flatten() + (current + l.push('\n')) =~= (chunks.flatten() + current)
                + l.push('\n'));
        }
    }
}

proof fn lemma_pack_fits(ls: Seq<Seq<char>>, max_len: nat)
    ensures
        forall|i: int|
            0 <= i < pack(ls, max_len).0.len() ==> fits_or_single_line(
                #[trigger] pack(ls, max_len).0[i],
                ls,
                max_len,
            ),
        fits_or_single_line(pack(ls, max_len).1, ls, max_len),
    decreases ls.len(),
{
    if ls.len() > 0 {
        let rest = ls.drop_last();
        let l = ls.last();
        lemma_pack_fits(rest, max_len);
        let (chunks, current) = pack(rest, max_len);
        assert forall|c: Seq<char>| fits_or_single_line(c, rest, max_len) implies fits_or_single_line(
            c,
            ls,
            max_len,
        ) by {
            if utf8_len(c) > max_len {
                let j = choose|j: int| 0 <= j < rest.len() && c == #[trigger] rest[j].push('\n');
                assert(ls[j] == rest[j]);
            }
        }
        assert(ls[ls.len() - 1] == l);
        if utf8_len(current) + utf8_len(l) + 1 > max_len {
            assert(fits_or_single_line(current, ls, max_len));
            assert(fits_or_single_line(l.push('\n'), ls, max_len));
            assert forall|i: int| 0 <= i < chunks.push(current).len() implies fits_or_single_line(
                #[trigger] chunks.push(current)[i],
                ls,
                max_len,
            ) by {
                if i < chunks.len() {
                    assert(chunks.push(current)[i] == chunks[i]);
                    assert(fits_or_single_line(chunks[i], rest, max_len));
                }
            }
        } else {
            lemma_pack_step_len((chunks, current), l, max_len);
            assert forall|i: int| 0 <= i < chunks.len() implies fits_or_single_line(
                #[trigger] chunks[i],
                ls,
                max_len,
            ) by {
                assert(fits_or_single_line(chunks[i], rest, max_len));
            }
        }
    }
}

proof fn lemma_pack_shape(ls: Seq<Seq<char>>, max_len: nat)
    ensures
        ls.len() == 0 ==> pack(ls, max_len).0.len() == 0 && pack(ls, max_len).1.len() == 0,
        ls.len() > 0 ==> pack(ls, max_len).1.len() > 0,
        pack(ls, max_len).1.len() > 0 ==> pack(ls, max_len).1.last() == '\n',
        forall|i: int|
            0 < i < pack(ls, max_len).0.len() ==> (#[trigger] pack(ls, max_len).0[i]).len() > 0,
        forall|i: int|
            0 <= i < pack(ls, max_len).0.len() && (#[trigger] pack(ls, max_len).0[i]).len() > 0
                ==> pack(ls, max_len).0[i].last() == '\n',
    decreases ls.len(),
{
    if ls.len() > 0 {
        let rest = ls.drop_last();
        let l = ls.last();
        lemma_pack_shape(rest, max_len);
        let (chunks, current) = pack(rest, max_len);
        if utf8_len(current) + utf8_len(l) + 1 > max_len {
            assert forall|i: int| 0 <= i < chunks.push(current).len() implies {
                &&& i > 0 ==> (#[trigger] chunks.push(current)[i]).len() > 0
                &&& chunks.push(current)[i].len() > 0 ==> chunks.push(current)[i].last() == '\n'
            } by {
                if i < chunks.len() {
                    assert(chunks.push(current)[i] == chunks[i]);
                }
            }
        } else {
            assert((current + l.push('\n')).last() == '\n');
        }
    }
}

/// Chunking loses nothing and reorders nothing: the chunks, put together,
/// are the lines of the text, each followed by `'\n'`.
pub proof fn lemma_chunks_keep_text(text: Seq<char>, max_len: nat)
    ensures
        chunks_of(text, max_len).flatten() == terminated(lines(text)).flatten(),
{
    broadcast use Seq::lemma_flatten_push;

    let ls = lines(text);
    lemma_pack_keeps_text(ls, max_len);
    let (chunks, current) = pack(ls, max_len);
    if current.len() == 0 {
        assert(chunks.flatten() + current =~= chunks.flatten());
    }
}

/// Every chunk is at most `max_len` bytes long, unless it holds a single
/// line that is too long by itself.
pub proof fn lemma_chunks_fit(text: Seq<char>, max_len: nat)
    ensures
        forall|i: int|
            0 <= i < chunks_of(text, max_len).len() ==> fits_or_single_line(
                #[trigger] chunks_of(text, max_len)[i],
                lines(text),
                max_len,
            ),
{
    let ls = lines(text);
    lemma_pack_fits(ls, max_len);
    let (chunks, current) = pack(ls, max_len);
    assert forall|i: int| 0 <= i < chunks_of(text, max_len).len() implies fits_or_single_line(
        #[trigger] chunks_of(text, max_len)[i],
        ls,
        max_len,
    ) by {
        if i < chunks.len() {
            assert(chunks_of(text, max_len)[i] == chunks[i]);
        }
    }
}

/// Every chunk ends in `'\n'`, and only the first can be empty (when the
/// first line alone is too long).
pub proof fn lemma_chunks_shape(text: Seq<char>, max_len: nat)
    ensures
        forall|i: int|
            0 < i < chunks_of(text, max_len).len() ==> (#[trigger] chunks_of(
                text,
                max_len,
            )[i]).len() > 0,
        forall|i: int|
            0 <= i < chunks_of(text, max_len).len() && (#[trigger] chunks_of(text, max_len)[i]).len()
                > 0 ==> chunks_of(text, max_len)[i].last() == '\n',
{
    let ls = lines(text);
    lemma_pack_shape(ls, max_len);
    let (chunks, current) = pack(ls, max_len);
    assert forall|i: int| 0 <= i < chunks_of(text, max_len).len() implies {
        &&& i > 0 ==> (#[trigger] chunks_of(text, max_len)[i]).len() > 0
        &&& chunks_of(text, max_len)[i].len() > 0 ==> chunks_of(text, max_len)[i].last() == '\n'
    } by {
        if i < chunks.len() {
            assert(chunks_of(text, max_len)[i] == chunks[i]);
        }
    }
}

/// The decimal digit for `d < 10`.
pub open spec fn digit_char(d: nat) -> char {
    ((48 + d) as u32) as char
}

/// The decimal form of `n`, without leading zeros (`"0"` for zero), as
/// `u64::to_string` writes it.
pub open spec fn decimal(n: nat) -> Seq<char>
    decreases n,
{
    if n < 10 {
        seq![digit_char(n)]
    } else {
        decimal(n / 10).push(digit_char(n % 10))
    }
}

/// Appends the decimal form of `n` to `s`.
pub fn push_decimal(s: &mut String, n: u64)
    ensures
        final(s)@ == old(s)@ + decimal(n as nat),
    decreases n,
{
    if n >= 10 {
        push_decimal(s, n / 10);
    }
    let d = (n % 10) as u8;
    let c = (48u8 + d) as char;
    assert(c == digit_char((n % 10) as nat));
    push_char(s, c);
    proof {
        if n >= 10 {
            assert(old(s)@ + decimal(n as nat) =~= old(s)@ + decimal((n / 10) as nat) + seq![c]);
        } else {
            assert(old(s)@ + decimal(n as nat) =~= old(s)@.push(c));
        }
    }
}

/// The decimal form of `n`.
pub fn to_decimal(n: u64) -> (text: String)
    ensures
        text@ == decimal(n as nat),
{
    let mut text = String::new();
    push_decimal(&mut text, n);
    assert(Seq::<char>::empty() + decimal(n as nat) =~= decimal(n as nat));
    text
}

/// `parts` joined with `'\n'` between them (`join("\n")`).
pub open spec fn join_lines_spec(parts: Seq<Seq<char>>) -> Seq<char>
    decreases parts.len(),
{
    if parts.len() == 0 {
        seq![]
    } else if parts.len() == 1 {
        parts[0]
    } else {
        join_lines_spec(parts.drop_last()).push('\n') + parts.last()
    }
}

/// Joins `parts` with `'\n'` between them.
pub fn join_lines(parts: &Vec<String>) -> (text: String)
    ensures
        text@ == join_lines_spec(parts.deep_view()),
{
    let mut text = String::new();
    let n = parts.len();
    let mut i: usize = 0;
    while i < n
        invariant
            n == parts@.len(),
            i <= n,
            text@ == join_lines_spec(parts.deep_view().take(i as int)),
        decreases n - i,
    {
        let ghost before = parts.deep_view().take(i as int);
        if i > 0 {
            push_char(&mut text, '\n');
        }
        text.append(parts[i].as_str());
        proof {
            let after = parts.deep_view().take(i as int + 1);
            assert(after.drop_last() =~= before);
            assert(after.last() == parts[i as int]@);
            if i == 0 {
                assert(Seq::<char>::empty() + parts[i as int]@ =~= parts[i as int]@);
            }
        }
        i = i + 1;
    }
    assert(parts.deep_view().take(n as int) =~= parts.deep_view());
    text
}

} // verus!
