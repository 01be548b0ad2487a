//! Plain-text parsing helpers for the kernel's tabular files: line and
//! whitespace splitting and integer fields.

use vstd::prelude::*;

verus! {

use vstd::slice::{slice_subrange, slice_to_vec};
use vstd::string::StringSliceAdditionalSpecFns;

/// ASCII whitespace, the separators the kernel's tabular files use.
pub open spec fn spec_is_ws(b: u8) -> bool {
    b == 0x20 || b == 0x09 || b == 0x0A || b == 0x0B || b == 0x0C || b == 0x0D
}

fn is_ws(b: u8) -> (r: bool)
    ensures
        r == spec_is_ws(b),
{
    b == 0x20 || b == 0x09 || b == 0x0A || b == 0x0B || b == 0x0C || b == 0x0D
}

/// Length of the leading run of non-whitespace bytes.
pub open spec fn spec_tok_len(b: Seq<u8>) -> int
    decreases b.len(),
{
    if b.len() == 0 || spec_is_ws(b[0]) {
        0
    } else {
        1 + spec_tok_len(b.drop_first())
    }
}

pub proof fn lemma_tok_len_bounds(b: Seq<u8>)
    ensures
        0 <= spec_tok_len(b) <= b.len(),
    decreases b.len(),
{
    if b.len() > 0 && !spec_is_ws(b[0]) {
        lemma_tok_len_bounds(b.drop_first());
    }
}

proof fn lemma_tok_len_at(b: Seq<u8>, m: int)
    requires
        0 <= m <= b.len(),
        forall|k: int| 0 <= k < m ==> !spec_is_ws(b[k]),
        m == b.len() || spec_is_ws(b[m]),
    ensures
        spec_tok_len(b) == m,
    decreases b.len(),
{
    if b.len() == 0 || spec_is_ws(b[0]) {
    } else {
        lemma_tok_len_at(b.drop_first(), m - 1);
    }
}

/// The whitespace-separated tokens of a byte string, in order.
pub open spec fn spec_split_ws(b: Seq<u8>) -> Seq<Seq<u8>>
    decreases b.len(),
    via spec_split_ws_dec
{
    if b.len() == 0 {
        seq![]
    } else if spec_is_ws(b[0]) {
        spec_split_ws(b.drop_first())
    } else {
        seq![b.take(spec_tok_len(b))] + spec_split_ws(b.skip(spec_tok_len(b)))
    }
}

#[via_fn]
proof fn spec_split_ws_dec(b: Seq<u8>) {
    if b.len() > 0 && !spec_is_ws(b[0]) {
        lemma_tok_len_bounds(b.drop_first());
        assert(spec_tok_len(b) == 1 + spec_tok_len(b.drop_first()));
    }
}

/// The views of a list of byte buffers.
pub open spec fn spec_chunk_views(ps: Seq<Vec<u8>>) -> Seq<Seq<u8>> {
    ps.map_values(|p: Vec<u8>| p@)
}

/// Splits a byte string at whitespace runs.
pub fn split_ws(data: &[u8]) -> (r: Vec<Vec<u8>>)
    ensures
        spec_chunk_views(r@) == spec_split_ws(data@),
{
    let n = data.len();
    let mut r: Vec<Vec<u8>> = Vec::new();
    let mut off: usize = 0;
    assert(data@.skip(0) =~= data@);
    assert(spec_chunk_views(r@) + spec_split_ws(data@) =~= spec_split_ws(data@));
    loop
        invariant
            n == data@.len(),
            off <= n,
            spec_chunk_views(r@) + spec_split_ws(data@.skip(off as int)) == spec_split_ws(data@),
        ensures
            spec_chunk_views(r@) == spec_split_ws(data@),
        decreases n - off,
    {
        let ghost rest = data@.skip(off as int);
        if off == n {
            proof {
                assert(spec_chunk_views(r@) + spec_split_ws(rest) =~= spec_chunk_views(r@));
            }
            break;
        }
        if is_ws(data[off]) {
            assert(rest.drop_first() =~= data@.skip(off as int + 1));
            off = off + 1;
            continue;
        }
        let mut j = off + 1;
        while j < n
            invariant
                off < j <= n,
                n == data@.len(),
                forall|k: int| off <= k < j ==> !spec_is_ws(data@[k]),
            ensures
                off < j <= n,
                forall|k: int| off <= k < j ==> !spec_is_ws(data@[k]),
                j == n || spec_is_ws(data@[j as int]),
            decreases n - j,
        {
            if is_ws(data[j]) {
                break;
            }
            j = j + 1;
        }
        proof {
            lemma_tok_len_at(rest, j - off);
        }
        let token = slice_to_vec(slice_subrange(data, off, j));
        assert(token@ =~= rest.take(j - off));
        r.push(token);
        assert(rest.skip(j - off) =~= data@.skip(j as int));
        assert(spec_chunk_views(r@) =~= spec_chunk_views(r@.drop_last()) + seq![
            rest.take(j - off),
        ]);
        proof {
            assert((spec_chunk_views(r@.drop_last()) + seq![rest.take(j - off)]) + spec_split_ws(
                data@.skip(j as int),
            ) =~= spec_chunk_views(r@.drop_last()) + (seq![rest.take(j - off)] + spec_split_ws(
                data@.skip(j as int),
            )));
        }
        off = j;
    }
    r
}

/// Length of the leading run of bytes before a newline.
pub open spec fn spec_line_len(b: Seq<u8>) -> int
    decreases b.len(),
{
    if b.len() == 0 || b[0] == 0x0A {
        0
    } else {
        1 + spec_line_len(b.drop_first())
    }
}

pub proof fn lemma_line_len_bounds(b: Seq<u8>)
    ensures
        0 <= spec_line_len(b) <= b.len(),
    decreases b.len(),
{
    if b.len() > 0 && b[0] != 0x0A {
        lemma_line_len_bounds(b.drop_first());
    }
}

proof fn lemma_line_len_at(b: Seq<u8>, m: int)
    requires
        0 <= m <= b.len(),
        forall|k: int| 0 <= k < m ==> b[k] != 0x0A,
        m == b.len() || b[m] == 0x0A,
    ensures
        spec_line_len(b) == m,
    decreases b.len(),
{
    if b.len() == 0 || b[0] == 0x0A {
    } else {
        lemma_line_len_at(b.drop_first(), m - 1);
    }
}

/// The lines of a byte string: segments between newlines, the final segment
/// kept when nonempty, as `str::lines` reads them.
pub open spec fn spec_split_lines(b: Seq<u8>) -> Seq<Seq<u8>>
    decreases b.len(),
    via spec_split_lines_dec
{
    if b.len() == 0 {
        seq![]
    } else {
        let l = spec_line_len(b);
        if l == b.len() {
            seq![b]
        } else {
            seq![b.take(l)] + spec_split_lines(b.skip(l + 1))
        }
    }
}

#[via_fn]
proof fn spec_split_lines_dec(b: Seq<u8>) {
    if b.len() > 0 {
        lemma_line_len_bounds(b);
    }
}

/// Splits a byte string into lines at newline bytes.
pub fn split_lines(data: &[u8]) -> (r: Vec<Vec<u8>>)
    ensures
        spec_chunk_views(r@) == spec_split_lines(data@),
{
    let n = data.len();
    let mut r: Vec<Vec<u8>> = Vec::new();
    let mut off: usize = 0;
    assert(data@.skip(0) =~= data@);
    assert(spec_chunk_views(r@) + spec_split_lines(data@) =~= spec_split_lines(data@));
    loop
        invariant
            n == data@.len(),
            off <= n,
            spec_chunk_views(r@) + spec_split_lines(data@.skip(off as int)) == spec_split_lines(
                data@,
            ),
        ensures
            spec_chunk_views(r@) == spec_split_lines(data@),
        decreases n - off,
    {
        let ghost rest = data@.skip(off as int);
        if off == n {
            proof {
                assert(spec_chunk_views(r@) + spec_split_lines(rest) =~= spec_chunk_views(r@));
            }
            break;
        }
        let mut j = off;
        while j < n
            invariant
                off <= j <= n,
                n == data@.len(),
                forall|k: int| off <= k < j ==> data@[k] != 0x0A,
            ensures
                off <= j <= n,
                forall|k: int| off <= k < j ==> data@[k] != 0x0A,
                j == n || data@[j as int] == 0x0A,
            decreases n - j,
        {
            if data[j] == 0x0A {
                break;
            }
            j = j + 1;
        }
        proof {
            lemma_line_len_at(rest, j - off);
        }
        let line = slice_to_vec(slice_subrange(data, off, j));
        assert(line@ =~= rest.take(j - off));
        r.push(line);
        if j == n {
            proof {
                assert(rest.take(j - off) =~= rest);
                assert(spec_chunk_views(r@) =~= spec_chunk_views(r@.drop_last()) + seq![rest]);
                assert(spec_chunk_views(r@.drop_last()) + seq![rest] =~= spec_chunk_views(
                    r@.drop_last(),
                ) + spec_split_lines(rest));
            }
            off = n;
            break;
        }
        assert(rest.skip(j - off + 1) =~= data@.skip(j as int + 1));
        assert(spec_chunk_views(r@) =~= spec_chunk_views(r@.drop_last()) + seq![
            rest.take(j - off),
        ]);
        proof {
            assert((spec_chunk_views(r@.drop_last()) + seq![rest.take(j - off)])
                + spec_split_lines(data@.skip(j as int + 1)) =~= spec_chunk_views(r@.drop_last())
                + (seq![rest.take(j - off)] + spec_split_lines(data@.skip(j as int + 1))));
        }
        off = j + 1;
    }
    r
}

/// Whether every byte is an ASCII decimal digit, and there is at least one.
pub open spec fn spec_all_digits(b: Seq<u8>) -> bool {
    b.len() > 0 && forall|k: int| 0 <= k < b.len() ==> 0x30 <= #[trigger] b[k] <= 0x39
}

/// The number an all-digit byte string denotes.
pub open spec fn spec_digits_value(b: Seq<u8>) -> nat
    decreases b.len(),
{
    if b.len() == 0 {
        0
    } else {
        spec_digits_value(b.drop_last()) * 10 + (b.last() - 0x30) as nat
    }
}

proof fn lemma_digits_value_monotone(b: Seq<u8>, i: int)
    requires
        0 <= i <= b.len(),
        spec_all_digits(b) || b.len() == 0,
    ensures
        spec_digits_value(b.take(i)) <= spec_digits_value(b),
    decreases b.len() - i,
{
    if i < b.len() {
        lemma_digits_value_monotone(b, i + 1);
        assert(b.take(i + 1).drop_last() =~= b.take(i));
        assert(spec_digits_value(b.take(i)) <= spec_digits_value(b.take(i + 1)));
    } else {
        assert(b.take(i) =~= b);
    }
}

/// The number an unsigned decimal field denotes: an optional leading plus
/// sign, then digits only, the value within u64 range.
pub open spec fn spec_parse_u64(tok: Seq<u8>) -> Option<u64> {
    let digits = if tok.len() > 0 && tok[0] == 0x2B {
        tok.drop_first()
    } else {
        tok
    };
    if spec_all_digits(digits) && spec_digits_value(digits) <= u64::MAX {
        Some(spec_digits_value(digits) as u64)
    } else {
        None
    }
}

fn parse_digits(digits: &[u8]) -> (r: Option<u64>)
    ensures
        r is Some <==> spec_all_digits(digits@) && spec_digits_value(digits@) <= u64::MAX,
        r matches Some(v) ==> v == spec_digits_value(digits@),
{
    let n = digits.len();
    if n == 0 {
        return None;
    }
    let mut value: u64 = 0;
    let mut i: usize = 0;
    assert(digits@.take(0) =~= Seq::<u8>::empty());
    while i < n
        invariant
            i <= n,
            n == digits@.len(),
            n > 0,
            forall|k: int| 0 <= k < i ==> 0x30 <= #[trigger] digits@[k] <= 0x39,
            value == spec_digits_value(digits@.take(i as int)),
        ensures
            i <= n,
            forall|k: int| 0 <= k < i ==> 0x30 <= #[trigger] digits@[k] <= 0x39,
            value == spec_digits_value(digits@.take(i as int)),
            i == n || !(0x30 <= digits@[i as int] <= 0x39) || (spec_all_digits(digits@)
                && spec_digits_value(digits@) > u64::MAX),
        decreases n - i,
    {
        let b = digits[i];
        if b < 0x30 || b > 0x39 {
            break;
        }
        let d = (b - 0x30) as u64;
        if value > (u64::MAX - d) / 10 {
            proof {
                assert(digits@.take(i + 1).drop_last() =~= digits@.take(i as int));
                assert(value * 10 + d > u64::MAX) by (nonlinear_arith)
                    requires
                        value > (u64::MAX - d) / 10,
                        d <= 9,
                ;
                if spec_all_digits(digits@) {
                    lemma_digits_value_monotone(digits@, i + 1);
                }
            }
            return None;
        }
        proof {
            assert(digits@.take(i + 1).drop_last() =~= digits@.take(i as int));
        }
        value = value * 10 + d;
        i = i + 1;
    }
    if i == n {
        proof {
            assert(digits@.take(n as int) =~= digits@);
        }
        Some(value)
    } else {
        proof {
            if !(0x30 <= digits@[i as int] <= 0x39) {
                assert(!spec_all_digits(digits@));
            }
        }
        None
    }
}

/// Parses an unsigned decimal field as `str::parse::<u64>` reads it.
pub fn parse_u64_bytes(tok: &[u8]) -> (r: Option<u64>)
    ensures
        r == spec_parse_u64(tok@),
{
    let n = tok.len();
    if n > 0 && tok[0] == 0x2B {
        let digits = slice_subrange(tok, 1, n);
        assert(digits@ =~= tok@.drop_first());
        parse_digits(digits)
    } else {
        parse_digits(tok)
    }
}

/// The number a signed decimal field denotes: an optional sign, then digits
/// only, the value within i64 range.
pub open spec fn spec_parse_i64(tok: Seq<u8>) -> Option<i64> {
    if tok.len() > 0 && tok[0] == 0x2D {
        let digits = tok.drop_first();
        if spec_all_digits(digits) && spec_digits_value(digits) <= 0x8000_0000_0000_0000 {
            Some((-(spec_digits_value(digits) as int)) as i64)
        } else {
            None
        }
    } else {
        let digits = if tok.len() > 0 && tok[0] == 0x2B {
            tok.drop_first()
        } else {
            tok
        };
        if spec_all_digits(digits) && spec_digits_value(digits) <= i64::MAX {
            Some(spec_digits_value(digits) as i64)
        } else {
            None
        }
    }
}

/// Parses a signed decimal field as `str::parse::<i64>` reads it.
pub fn parse_i64_bytes(tok: &[u8]) -> (r: Option<i64>)
    ensures
        r == spec_parse_i64(tok@),
{
    let n = tok.len();
    if n > 0 && tok[0] == 0x2D {
        let digits = slice_subrange(tok, 1, n);
        assert(digits@ =~= tok@.drop_first());
        match parse_digits(digits) {
            Some(mag) => {
                if mag <= 0x7FFF_FFFF_FFFF_FFFF {
                    Some(-(mag as i64))
                } else if mag == 0x8000_0000_0000_0000 {
                    Some(i64::MIN)
                } else {
                    None
                }
            },
            None => None,
        }
    } else {
        match parse_u64_bytes(tok) {
            Some(mag) => {
                if mag <= 0x7FFF_FFFF_FFFF_FFFF {
                    Some(mag as i64)
                } else {
                    None
                }
            },
            None => None,
        }
    }
}

/// A byte string with its trailing colons removed.
pub open spec fn spec_strip_colons(b: Seq<u8>) -> Seq<u8>
    decreases b.len(),
{
    if b.len() > 0 && b.last() == 0x3A {
        spec_strip_colons(b.drop_last())
    } else {
        b
    }
}

/// Removes trailing colons, as a field name carries one in `meminfo`.
pub fn strip_colons(tok: &[u8]) -> (r: Vec<u8>)
    ensures
        r@ == spec_strip_colons(tok@),
{
    let mut end = tok.len();
    assert(tok@.take(tok@.len() as int) =~= tok@);
    while end > 0
        invariant
            end <= tok@.len(),
            spec_strip_colons(tok@) == spec_strip_colons(tok@.take(end as int)),
        ensures
            end <= tok@.len(),
            spec_strip_colons(tok@) == spec_strip_colons(tok@.take(end as int)),
            end == 0 || tok@[end - 1] != 0x3A,
        decreases end,
    {
        if tok[end - 1] != 0x3A {
            break;
        }
        assert(tok@.take(end as int).drop_last() =~= tok@.take(end - 1));
        end = end - 1;
    }
    let r = slice_to_vec(slice_subrange(tok, 0, end));
    assert(r@ =~= tok@.take(end as int));
    proof {
        if end > 0 {
            assert(tok@.take(end as int).last() == tok@[end - 1]);
        }
    }
    r
}

/// The number a whitespace-padded unsigned decimal field denotes, as
/// trimming and then `str::parse::<u64>` read it: exactly one token, all of
/// it the number.
pub open spec fn spec_parse_trimmed_u64(b: Seq<u8>) -> Option<u64> {
    let toks = spec_split_ws(b);
    if toks.len() == 1 {
        spec_parse_u64(toks[0])
    } else {
        None
    }
}

/// Parses a whitespace-padded unsigned decimal field.
pub fn parse_trimmed_u64(content: &str) -> (r: Option<u64>)
    ensures
        r == spec_parse_trimmed_u64(content.spec_bytes()),
{
    let toks = split_ws(content.as_bytes());
    if toks.len() == 1 {
        assert(spec_chunk_views(toks@)[0] == toks@[0]@);
        parse_u64_bytes(toks[0].as_slice())
    } else {
        None
    }
}

/// The number a whitespace-padded signed decimal field denotes.
pub open spec fn spec_parse_trimmed_i64(b: Seq<u8>) -> Option<i64> {
    let toks = spec_split_ws(b);
    if toks.len() == 1 {
        spec_parse_i64(toks[0])
    } else {
        None
    }
}

/// Parses a whitespace-padded signed decimal field.
pub fn parse_trimmed_i64(content: &str) -> (r: Option<i64>)
    ensures
        r == spec_parse_trimmed_i64(content.spec_bytes()),
{
    let toks = split_ws(content.as_bytes());
    if toks.len() == 1 {
        assert(spec_chunk_views(toks@)[0] == toks@[0]@);
        parse_i64_bytes(toks[0].as_slice())
    } else {
        None
    }
}

} // verus!
