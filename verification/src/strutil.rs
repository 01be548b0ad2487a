//! Small string helpers: NUL-terminated wire strings, string equality, and
//! decimal rendering for fallback stat names.

use vstd::prelude::*;

verus! {

use vstd::slice::{slice_subrange, slice_to_vec};
use vstd::string::{StringSliceAdditionalSpecFns, StringExecFns};
use vstd::string::StrSliceExecFns;
use vstd::utf8::{valid_utf8, decode_utf8, encode_utf8_decode_utf8};

/// Index of the first NUL byte, or the length when there is none.
pub open spec fn spec_nul_pos(b: Seq<u8>) -> int
    decreases b.len(),
{
    if b.len() == 0 {
        0
    } else if b[0] == 0 {
        0
    } else {
        1 + spec_nul_pos(b.drop_first())
    }
}

pub proof fn lemma_nul_pos(b: Seq<u8>, n: int)
    requires
        0 <= n <= b.len(),
        forall|k: int| 0 <= k < n ==> b[k] != 0,
        n == b.len() || b[n] == 0,
    ensures
        spec_nul_pos(b) == n,
    decreases b.len(),
{
    if b.len() == 0 {
    } else if b[0] == 0 {
    } else {
        lemma_nul_pos(b.drop_first(), n - 1);
    }
}

/// The characters a NUL-terminated byte field decodes to: everything before
/// the first NUL (or the whole field when there is none), decoded as UTF-8,
/// or nothing when those bytes are not valid UTF-8.
pub open spec fn spec_parse_string(b: Seq<u8>) -> Option<Seq<char>> {
    let prefix = b.take(spec_nul_pos(b));
    if valid_utf8(prefix) {
        Some(decode_utf8(prefix))
    } else {
        None
    }
}

/// Relies on `String::from_utf8`: it succeeds exactly on valid UTF-8 input,
/// and the resulting string is the decoding of those bytes.
#[verifier::external_body]
pub fn bytes_to_string(bytes: Vec<u8>) -> (r: Option<String>)
    ensures
        r is Some <==> valid_utf8(bytes@),
        r matches Some(s) ==> s@ == decode_utf8(bytes@),
{
    match String::from_utf8(bytes) {
        Ok(s) => Some(s),
        Err(_) => None,
    }
}

/// Decodes a NUL-terminated wire string: the bytes before the first NUL,
/// as UTF-8.
pub fn parse_string(data: &[u8]) -> (r: Option<String>)
    ensures
        r is Some <==> spec_parse_string(data@) is Some,
        r matches Some(s) ==> spec_parse_string(data@) == Some(s@),
{
    let n = data.len();
    let mut i: usize = 0;
    while i < n
        invariant
            i <= n,
            n == data@.len(),
            forall|k: int| 0 <= k < i ==> data@[k] != 0,
        ensures
            i <= n,
            forall|k: int| 0 <= k < i ==> data@[k] != 0,
            i == n || data@[i as int] == 0,
        decreases n - i,
    {
        if data[i] == 0 {
            break;
        }
        i = i + 1;
    }
    proof {
        lemma_nul_pos(data@, i as int);
    }
    let prefix = slice_to_vec(slice_subrange(data, 0, i));
    assert(prefix@ =~= data@.take(i as int));
    bytes_to_string(prefix)
}

/// Byte-slice equality.
pub fn bytes_eq(a: &[u8], b: &[u8]) -> (r: bool)
    ensures
        r == (a@ == b@),
{
    let n = a.len();
    if n != b.len() {
        proof {
            assert(a@.len() != b@.len());
        }
        return false;
    }
    let mut i: usize = 0;
    while i < n
        invariant
            i <= n,
            n == a@.len() && n == b@.len(),
            forall|k: int| 0 <= k < i ==> a@[k] == b@[k],
        ensures
            i <= n,
            n == a@.len() && n == b@.len(),
            forall|k: int| 0 <= k < i ==> a@[k] == b@[k],
            i == n || a@[i as int] != b@[i as int],
        decreases n - i,
    {
        if a[i] != b[i] {
            break;
        }
        i = i + 1;
    }
    if i == n {
        proof {
            assert(a@ =~= b@);
        }
        true
    } else {
        proof {
            assert(a@[i as int] != b@[i as int]);
        }
        false
    }
}

/// String equality, stated over the character views.
pub fn str_eq(a: &str, b: &str) -> (r: bool)
    ensures
        r == (a@ == b@),
{
    let r = bytes_eq(a.as_bytes(), b.as_bytes());
    proof {
        if a.spec_bytes() == b.spec_bytes() {
            encode_utf8_decode_utf8(a@);
            encode_utf8_decode_utf8(b@);
        }
    }
    r
}

/// The decimal digit character for `d`.
pub open spec fn spec_digit_char(d: int) -> char {
    if d == 0 {
        '0'
    } else if d == 1 {
        '1'
    } else if d == 2 {
        '2'
    } else if d == 3 {
        '3'
    } else if d == 4 {
        '4'
    } else if d == 5 {
        '5'
    } else if d == 6 {
        '6'
    } else if d == 7 {
        '7'
    } else if d == 8 {
        '8'
    } else {
        '9'
    }
}

/// The decimal rendering of `n`, most significant digit first, no sign and
/// no leading zeros (a single zero for zero).
pub open spec fn spec_decimal_chars(n: nat) -> Seq<char>
    decreases n,
{
    if n < 10 {
        seq![spec_digit_char(n as int)]
    } else {
        spec_decimal_chars(n / 10).push(spec_digit_char((n % 10) as int))
    }
}

fn digit_str(d: u32) -> (r: &'static str)
    requires
        d < 10,
    ensures
        r@ == seq![spec_digit_char(d as int)],
{
    proof {
        reveal_strlit("0");
        reveal_strlit("1");
        reveal_strlit("2");
        reveal_strlit("3");
        reveal_strlit("4");
        reveal_strlit("5");
        reveal_strlit("6");
        reveal_strlit("7");
        reveal_strlit("8");
        reveal_strlit("9");
    }
    let r: &'static str = if d == 0 {
        "0"
    } else if d == 1 {
        "1"
    } else if d == 2 {
        "2"
    } else if d == 3 {
        "3"
    } else if d == 4 {
        "4"
    } else if d == 5 {
        "5"
    } else if d == 6 {
        "6"
    } else if d == 7 {
        "7"
    } else if d == 8 {
        "8"
    } else {
        "9"
    };
    assert(r@ =~= seq![spec_digit_char(d as int)]);
    r
}

/// Renders `n` in decimal.
pub fn u32_decimal(n: u32) -> (r: String)
    ensures
        r@ == spec_decimal_chars(n as nat),
    decreases n,
{
    if n < 10 {
        let mut s = String::new();
        s.append(digit_str(n));
        assert(s@ =~= spec_decimal_chars(n as nat));
        s
    } else {
        let mut s = u32_decimal(n / 10);
        s.append(digit_str(n % 10));
        assert(s@ =~= spec_decimal_chars(n as nat));
        s
    }
}

/// ASCII whitespace at the character level.
pub open spec fn spec_ws_char(c: char) -> bool {
    c == ' ' || c == '\t' || c == '\n' || c == '\u{0B}' || c == '\u{0C}' || c == '\r'
}

fn is_ws_char(c: char) -> (r: bool)
    ensures
        r == spec_ws_char(c),
{
    c == ' ' || c == '\t' || c == '\n' || c == '\u{0B}' || c == '\u{0C}' || c == '\r'
}

/// How many whitespace characters lead the sequence.
pub open spec fn spec_leading_ws(s: Seq<char>) -> int
    decreases s.len(),
{
    if s.len() == 0 || !spec_ws_char(s[0]) {
        0
    } else {
        1 + spec_leading_ws(s.drop_first())
    }
}

proof fn lemma_leading_ws_at(s: Seq<char>, m: int)
    requires
        0 <= m <= s.len(),
        forall|k: int| 0 <= k < m ==> spec_ws_char(s[k]),
        m == s.len() || !spec_ws_char(s[m]),
    ensures
        spec_leading_ws(s) == m,
    decreases s.len(),
{
    if s.len() == 0 || !spec_ws_char(s[0]) {
    } else {
        lemma_leading_ws_at(s.drop_first(), m - 1);
    }
}

/// How many whitespace characters trail the sequence.
pub open spec fn spec_trailing_ws(s: Seq<char>) -> int
    decreases s.len(),
{
    if s.len() == 0 || !spec_ws_char(s.last()) {
        0
    } else {
        1 + spec_trailing_ws(s.drop_last())
    }
}

proof fn lemma_trailing_ws_at(s: Seq<char>, m: int)
    requires
        0 <= m <= s.len(),
        forall|k: int| s.len() - m <= k < s.len() ==> spec_ws_char(s[k]),
        m == s.len() || !spec_ws_char(s[s.len() - m - 1]),
    ensures
        spec_trailing_ws(s) == m,
    decreases s.len(),
{
    if s.len() == 0 || !spec_ws_char(s.last()) {
    } else {
        lemma_trailing_ws_at(s.drop_last(), m - 1);
    }
}

/// The sequence with leading and trailing whitespace removed.
pub open spec fn spec_trim_chars(s: Seq<char>) -> Seq<char> {
    let a = spec_leading_ws(s);
    if a == s.len() {
        Seq::empty()
    } else {
        s.subrange(a, s.len() - spec_trailing_ws(s))
    }
}

/// Trims whitespace from both ends of a string.
pub fn trim_ws(s: &str) -> (r: String)
    ensures
        r@ == spec_trim_chars(s@),
{
    let len = s.unicode_len();
    let mut a: usize = 0;
    while a < len
        invariant
            a <= len,
            len == s@.len(),
            forall|k: int| 0 <= k < a ==> spec_ws_char(s@[k]),
        ensures
            a <= len,
            len == s@.len(),
            forall|k: int| 0 <= k < a ==> spec_ws_char(s@[k]),
            a == len || !spec_ws_char(s@[a as int]),
        decreases len - a,
    {
        if !is_ws_char(s.get_char(a)) {
            break;
        }
        a = a + 1;
    }
    if a == len {
        proof {
            lemma_leading_ws_at(s@, a as int);
        }
        return String::new();
    }
    proof {
        lemma_leading_ws_at(s@, a as int);
    }
    let mut b: usize = len;
    while b > a
        invariant
            a <= b <= len,
            len == s@.len(),
            a < len && !spec_ws_char(s@[a as int]),
            forall|k: int| b <= k < len ==> spec_ws_char(s@[k]),
        ensures
            a <= b <= len,
            len == s@.len(),
            forall|k: int| b <= k < len ==> spec_ws_char(s@[k]),
            b == a || !spec_ws_char(s@[b - 1]),
        decreases b,
    {
        if !is_ws_char(s.get_char(b - 1)) {
            break;
        }
        b = b - 1;
    }
    proof {
        lemma_trailing_ws_at(s@, (s@.len() - b) as int);
    }
    let sub = s.substring_char(a, b);
    String::from_str(sub)
}

} // verus!
