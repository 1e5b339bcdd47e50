use vstd::prelude::*;
use vstd::string::StrSliceExecFns;
use vstd::string::StringSliceAdditionalSpecFns;

use crate::number::chars_of;
use vstd::utf8::*;

verus! {

broadcast use vstd::utf8::group_utf8_lib;

/// The largest character boundary of `bytes` that is at most `i` (0 when `i` is not positive).
pub open spec fn boundary_at_or_below(bytes: Seq<u8>, i: int) -> int
    decreases i,
{
    if i <= 0 {
        0
    } else if is_char_boundary(bytes, i) {
        i
    } else {
        boundary_at_or_below(bytes, i - 1)
    }
}

/// The index of the last `'\n'` byte strictly before `end`, or -1 when there is none.
pub open spec fn last_newline_before(bytes: Seq<u8>, end: int) -> int
    decreases end,
{
    if end <= 0 {
        -1
    } else if bytes[end - 1] == 10u8 {
        end - 1
    } else {
        last_newline_before(bytes, end - 1)
    }
}

/// Where a text longer than `max` bytes is cut: at the last newline before the largest
/// character boundary that is at most `max`, or at that boundary when there is no newline.
pub open spec fn line_split_point(bytes: Seq<u8>, max: nat) -> int {
    let b = boundary_at_or_below(bytes, max as int);
    let nl = last_newline_before(bytes, b);
    if nl >= 0 {
        nl
    } else {
        b
    }
}

pub proof fn lemma_boundary_at_or_below_bounds(bytes: Seq<u8>, i: int)
    ensures
        0 <= boundary_at_or_below(bytes, i),
        i >= 0 ==> boundary_at_or_below(bytes, i) <= i,
    decreases i,
{
    if i > 0 && !is_char_boundary(bytes, i) {
        lemma_boundary_at_or_below_bounds(bytes, i - 1);
    }
}

pub proof fn lemma_last_newline_before_bounds(bytes: Seq<u8>, end: int)
    ensures
        -1 <= last_newline_before(bytes, end) < end || (end <= 0 && last_newline_before(bytes, end) == -1),
        last_newline_before(bytes, end) >= 0 ==> bytes[last_newline_before(bytes, end)] == 10u8,
    decreases end,
{
    if end > 0 && bytes[end - 1] != 10u8 {
        lemma_last_newline_before_bounds(bytes, end - 1);
    }
}

pub proof fn lemma_line_split_point_bounds(bytes: Seq<u8>, max: nat)
    ensures
        0 <= line_split_point(bytes, max) <= max,
{
    lemma_boundary_at_or_below_bounds(bytes, max as int);
    lemma_last_newline_before_bounds(bytes, boundary_at_or_below(bytes, max as int));
}

/// Whether cutting `bytes` into lines of at most `max` bytes makes progress at every step,
/// that is, no cut is ever made at position 0.
pub open spec fn split_terminates(bytes: Seq<u8>, max: nat) -> bool
    decreases bytes.len(),
{
    if bytes.len() > max {
        let p = line_split_point(bytes, max);
        proof {
            lemma_line_split_point_bounds(bytes, max);
        }
        0 < p && split_terminates(bytes.subrange(p, bytes.len() as int), max)
    } else {
        true
    }
}

/// The pieces that `split_at_line` cuts `bytes` into, each given by its bytes.
pub open spec fn line_chunks(bytes: Seq<u8>, max: nat) -> Seq<Seq<u8>>
    decreases bytes.len(),
{
    if bytes.len() > max {
        let p = line_split_point(bytes, max);
        proof {
            lemma_line_split_point_bounds(bytes, max);
        }
        if 0 < p {
            seq![bytes.subrange(0, p)] + line_chunks(bytes.subrange(p, bytes.len() as int), max)
        } else {
            Seq::empty()
        }
    } else if bytes.len() == 0 {
        Seq::empty()
    } else {
        seq![bytes]
    }
}

proof fn lemma_encode_utf8_empty(chars: Seq<char>)
    ensures
        encode_utf8(chars).len() == 0 <==> chars.len() == 0,
{
    if chars.len() > 0 {
        assert(encode_scalar(chars[0] as u32).len() > 0);
    }
}

/// The length of `s` in bytes.
fn byte_len(s: &str) -> (n: usize)
    ensures
        n == s.spec_bytes().len(),
{
    s.as_bytes().len()
}

/// Where `split_at_line` cuts `remaining`, which is longer than `max_bytes` bytes.
fn line_split_at(remaining: &str, max_bytes: usize) -> (split_at: usize)
    requires
        remaining.spec_bytes().len() > max_bytes,
    ensures
        split_at as int == line_split_point(remaining.spec_bytes(), max_bytes as nat),
        split_at <= max_bytes,
        is_char_boundary(remaining.spec_bytes(), split_at as int),
{
    let ghost rb = remaining.spec_bytes();
    let ghost max = max_bytes as nat;
    let mut split_at: usize = max_bytes;
    while !remaining.is_char_boundary(split_at)
        invariant
            rb == remaining.spec_bytes(),
            valid_utf8(rb),
            split_at <= max_bytes,
            max == max_bytes as nat,
            boundary_at_or_below(rb, max as int) == boundary_at_or_below(rb, split_at as int),
        decreases split_at,
    {
        assert(split_at > 0) by {
            assert(is_char_boundary(rb, 0));
        }
        split_at = split_at - 1;
    }
    assert(boundary_at_or_below(rb, split_at as int) == split_at as int);
    let (head, _tail) = remaining.split_at(split_at);
    let hb: &[u8] = head.as_bytes();
    assert(hb@ =~= rb.subrange(0, split_at as int));
    let mut j: usize = hb.len();
    let mut found = false;
    while j > 0
        invariant_except_break
            j <= hb@.len(),
            hb@ == rb.subrange(0, split_at as int),
            split_at <= rb.len(),
            last_newline_before(rb, split_at as int) == last_newline_before(rb, j as int),
            !found,
        ensures
            found ==> (j > 0 && last_newline_before(rb, split_at as int) == j - 1),
            !found ==> last_newline_before(rb, split_at as int) == -1,
        decreases j,
    {
        if hb[j - 1] == 10u8 {
            found = true;
            break;
        }
        j = j - 1;
    }
    proof {
        lemma_boundary_at_or_below_bounds(rb, max as int);
    }
    if found {
        proof {
            lemma_last_newline_before_bounds(rb, split_at as int);
        }
        split_at = j - 1;
        assert(rb[split_at as int] == 10u8);
        assert(!is_continuation_byte(rb[split_at as int]));
        assert(valid_utf8(rb));
        assert(is_char_boundary(rb, split_at as int));
    }
    assert(split_at as int == line_split_point(rb, max));
    split_at
}

/// Whether `split_at_line` takes `input` and `max_bytes`: the limit is not 0 and no cut is ever
/// made at position 0, so that the cutting ends.
pub fn split_at_line_terminates(input: &str, max_bytes: usize) -> (b: bool)
    ensures
        b == (max_bytes > 0 && split_terminates(input.spec_bytes(), max_bytes as nat)),
{
    if max_bytes == 0 {
        return false;
    }
    let ghost max = max_bytes as nat;
    let mut remaining: &str = input;
    while byte_len(remaining) > max_bytes
        invariant
            max == max_bytes as nat,
            split_terminates(input.spec_bytes(), max) == split_terminates(
                remaining.spec_bytes(),
                max,
            ),
        decreases remaining.spec_bytes().len(),
    {
        let ghost rb = remaining.spec_bytes();
        let split_at = line_split_at(remaining, max_bytes);
        if split_at == 0 {
            return false;
        }
        let (_chunk, rest) = remaining.split_at(split_at);
        assert(rest.spec_bytes() =~= rb.subrange(split_at as int, rb.len() as int));
        remaining = rest;
    }
    true
}

/// Cuts `input` into pieces of at most `max_bytes` bytes, cutting before the last newline that
/// fits where there is one.
pub fn split_at_line(input: &str, max_bytes: usize) -> (chunks: Vec<&str>)
    requires
        max_bytes > 0,
        split_terminates(input.spec_bytes(), max_bytes as nat),
    ensures
        chunks@.map_values(|c: &str| c.spec_bytes()) == line_chunks(
            input.spec_bytes(),
            max_bytes as nat,
        ),
{
    let ghost max = max_bytes as nat;
    let mut chunks: Vec<&str> = Vec::new();
    let mut remaining: &str = input;
    while byte_len(remaining) > max_bytes
        invariant
            max == max_bytes as nat,
            split_terminates(remaining.spec_bytes(), max),
            line_chunks(input.spec_bytes(), max) == chunks@.map_values(|c: &str| c.spec_bytes())
                + line_chunks(remaining.spec_bytes(), max),
        decreases remaining.spec_bytes().len(),
    {
        let ghost rb = remaining.spec_bytes();
        let split_at = line_split_at(remaining, max_bytes);
        let (chunk, rest) = remaining.split_at(split_at);
        assert(chunk.spec_bytes() =~= rb.subrange(0, split_at as int));
        assert(rest.spec_bytes() =~= rb.subrange(split_at as int, rb.len() as int));
        let ghost before = chunks@.map_values(|c: &str| c.spec_bytes());
        chunks.push(chunk);
        assert(chunks@.map_values(|c: &str| c.spec_bytes()) =~= before.push(chunk.spec_bytes()));
        remaining = rest;
        assert(line_chunks(rb, max) == seq![chunk.spec_bytes()] + line_chunks(
            rest.spec_bytes(),
            max,
        ));
        assert(before + (seq![chunk.spec_bytes()] + line_chunks(rest.spec_bytes(), max))
            =~= before.push(chunk.spec_bytes()) + line_chunks(rest.spec_bytes(), max));
    }
    proof {
        lemma_encode_utf8_empty(remaining@);
    }
    if !remaining.is_empty() {
        let ghost before = chunks@.map_values(|c: &str| c.spec_bytes());
        chunks.push(remaining);
        assert(chunks@.map_values(|c: &str| c.spec_bytes()) =~= before.push(
            remaining.spec_bytes(),
        ));
        assert(line_chunks(remaining.spec_bytes(), max) == seq![remaining.spec_bytes()]);
    } else {
        assert(line_chunks(remaining.spec_bytes(), max) =~= Seq::<Seq<u8>>::empty());
    }
    assert(chunks@.map_values(|c: &str| c.spec_bytes()) =~= line_chunks(input.spec_bytes(), max));
    chunks
}

} // verus!

verus! {

/// Cutting a text into lines loses nothing and keeps the order: put back together, the pieces
/// give the text again. Every piece is non-empty and at most `max` bytes long.
pub proof fn lemma_line_chunks_rejoin(bytes: Seq<u8>, max: nat)
    requires
        split_terminates(bytes, max),
    ensures
        line_chunks(bytes, max).flatten() == bytes,
        forall|i: int|
            0 <= i < line_chunks(bytes, max).len() ==> 0 < #[trigger] line_chunks(
                bytes,
                max,
            )[i].len() <= max,
    decreases bytes.len(),
{
    if bytes.len() > max {
        let p = line_split_point(bytes, max);
        lemma_line_split_point_bounds(bytes, max);
        let rest = bytes.subrange(p, bytes.len() as int);
        lemma_line_chunks_rejoin(rest, max);
        let chunks = line_chunks(bytes, max);
        assert(chunks == seq![bytes.subrange(0, p)] + line_chunks(rest, max));
        assert(chunks.drop_first() =~= line_chunks(rest, max));
        assert(chunks.first() == bytes.subrange(0, p));
        assert(bytes =~= bytes.subrange(0, p) + rest);
        assert forall|i: int| 0 <= i < chunks.len() implies 0 < #[trigger] chunks[i].len() <= max by {
            if i > 0 {
                assert(chunks[i] == line_chunks(rest, max)[i - 1]);
            }
        }
    } else if bytes.len() == 0 {
        assert(line_chunks(bytes, max).flatten() =~= bytes);
    } else {
        let chunks = line_chunks(bytes, max);
        assert(chunks == seq![bytes]);
        assert(chunks.drop_first() =~= Seq::<Seq<u8>>::empty());
        assert(chunks.drop_first().flatten() =~= Seq::<u8>::empty());
        assert(chunks.flatten() =~= bytes);
    }
}

/// What `String::from_utf8_lossy` makes of `bytes`: the text they encode, with each invalid
/// sequence replaced by U+FFFD.
pub uninterp spec fn utf8_lossy(bytes: Seq<u8>) -> Seq<char>;

/// Decodes `bytes` as UTF-8 with `String::from_utf8_lossy`. Its result is named
/// `utf8_lossy`; on valid UTF-8 it is the text that the bytes encode.
#[verifier::external_body]
fn decode_lossy(bytes: &[u8]) -> (s: String)
    ensures
        s@ == utf8_lossy(bytes@),
        valid_utf8(bytes@) ==> s@ == decode_utf8(bytes@),
{
    String::from_utf8_lossy(bytes).into_owned()
}

/// The index of the first `'\n'` of `s` at or after `k`, or the length of `s` when there is
/// none.
pub open spec fn newline_at_or_after(s: Seq<char>, k: int) -> int
    decreases s.len() - k,
{
    if k >= s.len() {
        s.len() as int
    } else if s[k] == '\n' {
        k
    } else {
        newline_at_or_after(s, k + 1)
    }
}

pub proof fn lemma_newline_at_or_after_bounds(s: Seq<char>, k: int)
    requires
        k <= s.len(),
    ensures
        k <= newline_at_or_after(s, k) <= s.len(),
    decreases s.len() - k,
{
    if k < s.len() && s[k] != '\n' {
        lemma_newline_at_or_after_bounds(s, k + 1);
    }
}

/// A line without the `'\r'` that ends it, if one does.
pub open spec fn strip_cr(line: Seq<char>) -> Seq<char> {
    if line.len() > 0 && line.last() == '\r' {
        line.drop_last()
    } else {
        line
    }
}

/// The lines of `s` from index `k` on, as `str::lines` gives them: each ends at a `'\n'`,
/// which is dropped together with a `'\r'` just before it; the last line needs no `'\n'`,
/// and keeps a final `'\r'` when it has none.
pub open spec fn lines_from(s: Seq<char>, k: int) -> Seq<Seq<char>>
    decreases s.len() - k,
{
    if k >= s.len() {
        Seq::empty()
    } else {
        let e = newline_at_or_after(s, k);
        if e >= s.len() {
            seq![s.subrange(k, s.len() as int)]
        } else {
            proof {
                lemma_newline_at_or_after_bounds(s, k);
            }
            seq![strip_cr(s.subrange(k, e))] + lines_from(s, e + 1)
        }
    }
}

/// The lines of `s`, as `str::lines` gives them.
pub open spec fn text_lines(s: Seq<char>) -> Seq<Seq<char>> {
    lines_from(s, 0)
}

/// The lines of a program's output, decoded as UTF-8 with each invalid sequence replaced.
pub fn lines_of(output: &[u8]) -> (files: Vec<String>)
    ensures
        files@.map_values(|f: String| f@) == text_lines(utf8_lossy(output@)),
{
    let text = decode_lossy(output);
    let s = text.as_str();
    let cs = chars_of(s);
    let ghost t = s@;
    let n = cs.len();
    let mut files: Vec<String> = Vec::new();
    let mut k: usize = 0;
    while k < n
        invariant
            cs@ == t,
            n == t.len(),
            s@ == t,
            k <= n,
            files@.map_values(|f: String| f@) + lines_from(t, k as int) == text_lines(t),
        decreases n - k,
    {
        let mut e = k;
        while e < n && cs[e] != '\n'
            invariant
                cs@ == t,
                n == t.len(),
                k <= e <= n,
                newline_at_or_after(t, e as int) == newline_at_or_after(t, k as int),
            decreases n - e,
        {
            e = e + 1;
        }
        let ghost before = files@.map_values(|f: String| f@);
        if e == n {
            let line = s.substring_char(k, n).to_owned();
            files.push(line);
            assert(files@.map_values(|f: String| f@) =~= before.push(t.subrange(k as int, n as int)));
            assert(lines_from(t, n as int) =~= Seq::<Seq<char>>::empty());
            k = n;
        } else {
            let mut end = e;
            if e > k && cs[e - 1] == '\r' {
                end = e - 1;
            }
            assert(t.subrange(k as int, end as int) == strip_cr(t.subrange(k as int, e as int)));
            let line = s.substring_char(k, end).to_owned();
            files.push(line);
            assert(files@.map_values(|f: String| f@) =~= before.push(strip_cr(t.subrange(k as int, e as int))));
            assert(before + lines_from(t, k as int) =~= before.push(strip_cr(t.subrange(k as int, e as int))) + lines_from(t, e + 1));
            k = e + 1;
        }
    }
    assert(lines_from(t, k as int) =~= Seq::<Seq<char>>::empty());
    assert(files@.map_values(|f: String| f@) =~= files@.map_values(|f: String| f@) + lines_from(t, k as int));
    files
}

} // verus!
