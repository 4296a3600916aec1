//! Text primitives: line splitting and whitespace trimming over character
//! sequences.

use vstd::prelude::*;
use vstd::std_specs::iter::IteratorSpec;

verus! {

/// Whether a character has the Unicode `White_Space` property.
pub uninterp spec fn white_space(c: char) -> bool;

/// Calls `char::is_whitespace`. The contract only gives the answer a name:
/// which characters count as whitespace is left to the standard library.
#[verifier::external_body]
pub(crate) fn is_white_space(c: char) -> (b: bool)
    ensures
        b == white_space(c),
{
    c.is_whitespace()
}

/// Number of newline characters in `s`.
pub open spec fn count_newlines(s: Seq<char>) -> nat
    decreases s.len(),
{
    if s.len() == 0 {
        0
    } else {
        count_newlines(s.drop_last()) + if s.last() == '\n' { 1nat } else { 0nat }
    }
}

/// The pieces of `s` between newline characters. A sequence without a
/// newline is one piece; `n` newlines give `n + 1` pieces, empty ones
/// included.
pub open spec fn split_lines(s: Seq<char>) -> Seq<Seq<char>>
    decreases s.len(),
{
    if s.len() == 0 {
        seq![Seq::<char>::empty()]
    } else {
        let before = split_lines(s.drop_last());
        if s.last() == '\n' {
            before.push(Seq::<char>::empty())
        } else {
            before.drop_last().push(before.last().push(s.last()))
        }
    }
}

/// Splitting yields one piece more than there are newlines.
pub proof fn lemma_split_lines_len(s: Seq<char>)
    ensures
        split_lines(s).len() == count_newlines(s) + 1,
    decreases s.len(),
{
    if s.len() > 0 {
        lemma_split_lines_len(s.drop_last());
    }
}

/// `s` without its leading whitespace.
pub open spec fn trim_start(s: Seq<char>) -> Seq<char>
    decreases s.len(),
{
    if s.len() > 0 && white_space(s.first()) {
        trim_start(s.drop_first())
    } else {
        s
    }
}

/// `s` without its trailing whitespace.
pub open spec fn trim_end(s: Seq<char>) -> Seq<char>
    decreases s.len(),
{
    if s.len() > 0 && white_space(s.last()) {
        trim_end(s.drop_last())
    } else {
        s
    }
}

/// `s` without the whitespace that surrounds it.
pub open spec fn trim(s: Seq<char>) -> Seq<char> {
    trim_end(trim_start(s))
}

/// The trimmed pieces of `s` between newline characters.
pub open spec fn trimmed_lines(s: Seq<char>) -> Seq<Seq<char>> {
    split_lines(s).map_values(|piece: Seq<char>| trim(piece))
}

/// The character sequences that the strings of `v` hold.
pub open spec fn texts(v: Seq<String>) -> Seq<Seq<char>> {
    v.map_values(|s: String| s@)
}

/// The pieces of `lines` with one newline character between neighbours.
pub open spec fn join_lines(lines: Seq<Seq<char>>) -> Seq<char>
    decreases lines.len(),
{
    if lines.len() == 0 {
        Seq::<char>::empty()
    } else if lines.len() == 1 {
        lines[0]
    } else {
        join_lines(lines.drop_last()) + seq!['\n'] + lines.last()
    }
}

/// Text without a newline, put behind `s`, lengthens the last piece of `s`.
pub proof fn lemma_split_lines_append(s: Seq<char>, t: Seq<char>)
    requires
        forall|i: int| 0 <= i < t.len() ==> t[i] != '\n',
    ensures
        split_lines(s + t) == split_lines(s).drop_last().push(split_lines(s).last() + t),
    decreases t.len(),
{
    lemma_split_lines_len(s);
    let pieces = split_lines(s);
    if t.len() == 0 {
        assert(s + t =~= s);
        assert(pieces.last() + t =~= pieces.last());
        assert(pieces.drop_last().push(pieces.last()) =~= pieces);
    } else {
        let shorter = t.drop_last();
        lemma_split_lines_append(s, shorter);
        assert((s + t).drop_last() =~= s + shorter);
        assert((s + t).last() == t.last());
        let before = pieces.drop_last().push(pieces.last() + shorter);
        assert(before.drop_last() =~= pieces.drop_last());
        assert((pieces.last() + shorter).push(t.last()) =~= pieces.last() + t);
    }
}

/// Joining and splitting are inverse: pieces that hold no newline, joined
/// by newlines, split into the same pieces again.
pub proof fn lemma_split_join(lines: Seq<Seq<char>>)
    requires
        lines.len() > 0,
        forall|i: int, j: int|
            0 <= i < lines.len() && 0 <= j < lines[i].len() ==> #[trigger] lines[i][j] != '\n',
    ensures
        split_lines(join_lines(lines)) == lines,
    decreases lines.len(),
{
    let nothing = Seq::<char>::empty();
    let last = lines.last();
    assert forall|j: int| 0 <= j < last.len() implies last[j] != '\n' by {
        assert(lines[lines.len() - 1][j] != '\n');
    }
    if lines.len() == 1 {
        lemma_split_lines_append(nothing, last);
        assert(nothing + last =~= last);
        assert(split_lines(nothing) =~= seq![nothing]);
        assert(seq![nothing].drop_last().push(nothing + last) =~= lines);
    } else {
        let earlier = lines.drop_last();
        assert forall|i: int, j: int|
            0 <= i < earlier.len() && 0 <= j < earlier[i].len() implies #[trigger] earlier[i][j]
            != '\n' by {
            assert(lines[i][j] != '\n');
        }
        lemma_split_join(earlier);
        let head = join_lines(earlier) + seq!['\n'];
        assert(head.drop_last() =~= join_lines(earlier));
        assert(split_lines(head) == earlier.push(nothing));
        lemma_split_lines_append(head, last);
        assert(earlier.push(nothing).drop_last().push(nothing + last) =~= lines);
    }
}

/// Splitting loses nothing: no piece holds a newline, and the pieces joined
/// by newlines are the text that was split.
pub proof fn lemma_join_split(s: Seq<char>)
    ensures
        join_lines(split_lines(s)) == s,
        forall|i: int, j: int|
            0 <= i < split_lines(s).len() && 0 <= j < split_lines(s)[i].len()
                ==> #[trigger] split_lines(s)[i][j] != '\n',
    decreases s.len(),
{
    let pieces = split_lines(s);
    if s.len() == 0 {
        assert(join_lines(pieces) =~= s);
    } else {
        let before = split_lines(s.drop_last());
        lemma_join_split(s.drop_last());
        lemma_split_lines_len(s.drop_last());
        if s.last() == '\n' {
            assert(pieces.drop_last() =~= before);
            assert(join_lines(pieces) =~= s.drop_last().push(s.last()));
        } else {
            assert(pieces.drop_last() =~= before.drop_last());
            if before.len() > 1 {
                assert(join_lines(pieces) =~= join_lines(before).push(s.last()));
            }
            assert(join_lines(pieces) =~= s.drop_last().push(s.last()));
            assert forall|i: int, j: int|
                0 <= i < pieces.len() && 0 <= j < pieces[i].len() implies #[trigger] pieces[i][j]
                != '\n' by {
                if i < pieces.len() - 1 || j < pieces[i].len() - 1 {
                    assert(before[i][j] != '\n');
                }
            }
        }
        assert(s.drop_last().push(s.last()) =~= s);
    }
}

/// What trimming takes away: `trim(s)` is a stretch of `s`, everything
/// before and behind it is whitespace, and it neither begins nor ends with
/// whitespace.
pub proof fn lemma_trim_shape(s: Seq<char>)
    ensures
        ({
            let from = s.len() - trim_start(s).len();
            let to = from + trim(s).len();
            &&& 0 <= from <= to <= s.len()
            &&& trim(s) == s.subrange(from, to)
            &&& forall|i: int| 0 <= i < from || to <= i < s.len() ==> white_space(#[trigger] s[i])
            &&& trim(s).len() > 0 ==> !white_space(trim(s).first()) && !white_space(
                trim(s).last(),
            )
        }),
{
    let rest = trim_start(s);
    lemma_trim_start_shape(s);
    lemma_trim_end_shape(rest);
    let from = s.len() - rest.len();
    let to = from + trim(s).len();
    assert(rest.take(trim(s).len() as int) =~= s.subrange(from, to));
    assert forall|i: int| 0 <= i < from || to <= i < s.len() implies white_space(
        #[trigger] s[i],
    ) by {
        if i >= to {
            assert(s[i] == rest[i - from]);
        }
    }
}

/// Trimming what is trimmed changes nothing.
pub proof fn lemma_trim_idempotent(s: Seq<char>)
    ensures
        trim(trim(s)) == trim(s),
{
    lemma_trim_shape(s);
}

proof fn lemma_trim_start_shape(s: Seq<char>)
    ensures
        trim_start(s).len() <= s.len(),
        trim_start(s) == s.skip(s.len() - trim_start(s).len()),
        forall|i: int| 0 <= i < s.len() - trim_start(s).len() ==> white_space(#[trigger] s[i]),
        trim_start(s).len() > 0 ==> !white_space(trim_start(s).first()),
    decreases s.len(),
{
    if s.len() > 0 && white_space(s.first()) {
        let rest = s.drop_first();
        lemma_trim_start_shape(rest);
        let cut = rest.len() - trim_start(rest).len();
        assert(rest.skip(cut) =~= s.skip(cut + 1));
        assert forall|i: int| 0 <= i < cut + 1 implies white_space(#[trigger] s[i]) by {
            if i > 0 {
                assert(s[i] == rest[i - 1]);
            }
        }
    } else {
        assert(s.skip(0) =~= s);
    }
}

proof fn lemma_trim_end_shape(s: Seq<char>)
    ensures
        trim_end(s).len() <= s.len(),
        trim_end(s) == s.take(trim_end(s).len() as int),
        forall|i: int| trim_end(s).len() <= i < s.len() ==> white_space(#[trigger] s[i]),
        trim_end(s).len() > 0 ==> !white_space(trim_end(s).last()),
    decreases s.len(),
{
    if s.len() > 0 && white_space(s.last()) {
        let rest = s.drop_last();
        lemma_trim_end_shape(rest);
        let kept = trim_end(rest).len() as int;
        assert(rest.take(kept) =~= s.take(kept));
        assert forall|i: int| kept <= i < s.len() implies white_space(#[trigger] s[i]) by {
            if i < rest.len() {
                assert(s[i] == rest[i]);
            }
        }
    } else {
        assert(s.take(s.len() as int) =~= s);
    }
}

/// What lossy UTF-8 decoding makes of `bytes`: the text they encode, with
/// U+FFFD in place of each ill-formed part.
pub uninterp spec fn utf8_lossy(bytes: Seq<u8>) -> Seq<char>;

/// Calls `String::from_utf8_lossy`. Well-formed UTF-8 is kept byte for
/// byte; for other input the contract only names the result.
#[verifier::external_body]
pub(crate) fn decode_lossy(bytes: &[u8]) -> (out: String)
    ensures
        out@ == utf8_lossy(bytes@),
        vstd::utf8::valid_utf8(bytes@) ==> vstd::utf8::encode_utf8(out@) == bytes@,
{
    String::from_utf8_lossy(bytes).into_owned()
}

/// Skipping a run of leading whitespace that ends at a non-whitespace
/// character, or at the end, is `trim_start`.
proof fn lemma_trim_start_skip(s: Seq<char>, k: int)
    requires
        0 <= k <= s.len(),
        forall|i: int| 0 <= i < k ==> white_space(#[trigger] s[i]),
        k < s.len() ==> !white_space(s[k]),
    ensures
        trim_start(s) == s.skip(k),
    decreases k,
{
    if k == 0 {
        assert(s.skip(0) =~= s);
    } else {
        let rest = s.drop_first();
        assert forall|i: int| 0 <= i < k - 1 implies white_space(#[trigger] rest[i]) by {
            assert(rest[i] == s[i + 1]);
        }
        lemma_trim_start_skip(rest, k - 1);
        assert(rest.skip(k - 1) =~= s.skip(k));
    }
}

/// Cutting a run of trailing whitespace that begins after a non-whitespace
/// character, or at the start, is `trim_end`.
proof fn lemma_trim_end_take(s: Seq<char>, k: int)
    requires
        0 <= k <= s.len(),
        forall|i: int| k <= i < s.len() ==> white_space(#[trigger] s[i]),
        0 < k ==> !white_space(s[k - 1]),
    ensures
        trim_end(s) == s.take(k),
    decreases s.len() - k,
{
    if k == s.len() {
        assert(s.take(k) =~= s);
    } else {
        let rest = s.drop_last();
        lemma_trim_end_take(rest, k);
        assert(rest.take(k) =~= s.take(k));
    }
}

/// Calls `String::push`, which appends one character to the string.
#[verifier::external_body]
pub(crate) fn push_char(s: &mut String, c: char)
    ensures
        final(s)@ == old(s)@.push(c),
{
    s.push(c)
}

/// The characters of `s`, in order.
pub fn chars_of(s: &str) -> (out: Vec<char>)
    ensures
        out@ == s@,
{
    broadcast use vstd::string::group_string_axioms;

    let mut out: Vec<char> = Vec::new();
    let mut rest = s.chars();
    loop
        invariant
            out@.len() <= s@.len(),
            rest.remaining() == s@.skip(out@.len() as int),
            out@ == s@.take(out@.len() as int),
        ensures
            out@.len() == s@.len(),
        decreases s@.len() - out@.len(),
    {
        let next = rest.next();
        match next {
            Some(c) => {
                out.push(c);
            },
            None => {
                break ;
            },
        }
    }
    assert(s@.take(s@.len() as int) =~= s@);
    out
}

/// The characters of `line` between its surrounding whitespace, as a string.
pub fn trim_chars(line: &Vec<char>) -> (out: String)
    ensures
        out@ == trim(line@),
{
    let n: usize = line.len();
    let mut from: usize = 0;
    while from < n && is_white_space(line[from])
        invariant
            n == line@.len(),
            from <= n,
            forall|i: int| 0 <= i < from ==> white_space(#[trigger] line@[i]),
        decreases n - from,
    {
        from += 1;
    }
    let mut to: usize = n;
    while to > from && is_white_space(line[to - 1])
        invariant
            n == line@.len(),
            from <= to <= n,
            forall|i: int| to <= i < n ==> white_space(#[trigger] line@[i]),
        decreases to,
    {
        to -= 1;
    }
    proof {
        let ghost_rest = line@.skip(from as int);
        lemma_trim_start_skip(line@, from as int);
        assert forall|i: int| to - from <= i < ghost_rest.len() implies white_space(
            #[trigger] ghost_rest[i],
        ) by {
            assert(ghost_rest[i] == line@[i + from]);
        }
        lemma_trim_end_take(ghost_rest, to - from);
        assert(ghost_rest.take(to - from) =~= line@.subrange(from as int, to as int));
    }
    let mut out = String::new();
    let mut at: usize = from;
    while at < to
        invariant
            from <= at <= to <= line@.len(),
            out@ == line@.subrange(from as int, at as int),
        decreases to - at,
    {
        push_char(&mut out, line[at]);
        at += 1;
        assert(out@ =~= line@.subrange(from as int, at as int));
    }
    out
}

/// Splits `body` at its newline characters and trims each piece.
pub fn split_trimmed(body: &str) -> (out: Vec<String>)
    ensures
        out@.len() == count_newlines(body@) + 1,
        texts(out@) == trimmed_lines(body@),
{
    let chars = chars_of(body);
    let mut out: Vec<String> = Vec::new();
    let mut line: Vec<char> = Vec::new();
    let ghost mut done: Seq<Seq<char>> = Seq::empty();
    let mut at: usize = 0;
    assert(chars@.take(0) =~= Seq::<char>::empty());
    assert(split_lines(chars@.take(0)) =~= done.push(line@));
    while at < chars.len()
        invariant
            at <= chars@.len(),
            split_lines(chars@.take(at as int)) == done.push(line@),
            out@.len() == done.len(),
            forall|i: int| 0 <= i < done.len() ==> (#[trigger] out@[i])@ == trim(done[i]),
        decreases chars@.len() - at,
    {
        let c: char = chars[at];
        proof {
            let upto = chars@.take(at + 1);
            assert(upto.drop_last() =~= chars@.take(at as int));
            assert(upto.last() == c);
            assert(done.push(line@).drop_last() =~= done);
        }
        if c == '\n' {
            let piece = trim_chars(&line);
            out.push(piece);
            proof {
                done = done.push(line@);
            }
            line = Vec::new();
        } else {
            line.push(c);
        }
        at += 1;
    }
    let piece = trim_chars(&line);
    out.push(piece);
    proof {
        assert(chars@.take(at as int) =~= body@);
        lemma_split_lines_len(body@);
        let lines = done.push(line@);
        assert(texts(out@) =~= lines.map_values(|piece: Seq<char>| trim(piece)));
    }
    out
}

} // verus!
