//! Small verified helpers on text: what the rest of the library needs from
//! strings, stated over their views as sequences of characters.

use vstd::prelude::*;
use vstd::utf8::decode_utf8;
use vstd::utf8::encode_utf8;
use vstd::utf8::encode_utf8_decode_utf8;
use vstd::utf8::valid_utf8;

verus! {

/// The characters of `s`, in order, in a vector that can be indexed.
pub fn to_chars(s: &str) -> (chars: Vec<char>)
    ensures
        chars@ == s@,
{
    let mut chars: Vec<char> = Vec::new();
    for c in it: s.chars()
        invariant
            chars@ == it.seq().take(it.index() as int),
            it.seq() == s@,
    {
        chars.push(c);
    }
    chars
}

/// Whether two strings hold the same characters.
pub fn text_eq(a: &str, b: &str) -> (same: bool)
    ensures
        same == (a@ == b@),
{
    let x = a.as_bytes();
    let y = b.as_bytes();
    proof {
        encode_utf8_decode_utf8(a@);
        encode_utf8_decode_utf8(b@);
    }
    if x.len() != y.len() {
        return false;
    }
    let mut i: usize = 0;
    while i < x.len()
        invariant
            i <= x.len(),
            x.len() == y.len(),
            x@ == encode_utf8(a@),
            y@ == encode_utf8(b@),
            forall|k: int| 0 <= k < i ==> x@[k] == y@[k],
        decreases x.len() - i,
    {
        if x[i] != y[i] {
            assert(x@[i as int] != y@[i as int]);
            return false;
        }
        i = i + 1;
    }
    assert(x@ =~= y@);
    true
}

/// `s` without its leading run of the character `c`.
pub open spec fn trim_leading(s: Seq<char>, c: char) -> Seq<char>
    decreases s.len(),
{
    if s.len() > 0 && s[0] == c {
        trim_leading(s.drop_first(), c)
    } else {
        s
    }
}

/// `s` without its trailing run of the character `c`.
pub open spec fn trim_trailing(s: Seq<char>, c: char) -> Seq<char>
    decreases s.len(),
{
    if s.len() > 0 && s.last() == c {
        trim_trailing(s.drop_last(), c)
    } else {
        s
    }
}

/// The index of the last occurrence of `c` in `s`, or `-1` where there is none.
pub open spec fn last_index_of(s: Seq<char>, c: char) -> int
    decreases s.len(),
{
    if s.len() == 0 {
        -1
    } else if s.last() == c {
        s.len() - 1
    } else {
        last_index_of(s.drop_last(), c)
    }
}

/// How many characters the leading run of `c` in `chars` has.
pub(crate) fn leading_run(chars: &Vec<char>, c: char) -> (n: usize)
    ensures
        n <= chars@.len(),
        trim_leading(chars@, c) == chars@.skip(n as int),
{
    let mut n: usize = 0;
    assert(chars@.skip(0) =~= chars@);
    while n < chars.len() && chars[n] == c
        invariant
            n <= chars@.len(),
            trim_leading(chars@, c) == trim_leading(chars@.skip(n as int), c),
        decreases chars@.len() - n,
    {
        assert(chars@.skip(n as int).drop_first() =~= chars@.skip(n + 1));
        n = n + 1;
    }
    n
}

/// The length of `chars` without its trailing run of `c`.
pub(crate) fn trimmed_len(chars: &Vec<char>, c: char) -> (n: usize)
    ensures
        n <= chars@.len(),
        trim_trailing(chars@, c) == chars@.take(n as int),
{
    let mut n: usize = chars.len();
    assert(chars@.take(n as int) =~= chars@);
    while n > 0 && chars[n - 1] == c
        invariant
            n <= chars@.len(),
            trim_trailing(chars@, c) == trim_trailing(chars@.take(n as int), c),
        decreases n,
    {
        assert(chars@.take(n as int).drop_last() =~= chars@.take(n - 1));
        n = n - 1;
    }
    n
}

/// `s` without its leading run of `c`.
pub fn trim_start(s: &str, c: char) -> (trimmed: &str)
    ensures
        trimmed@ == trim_leading(s@, c),
{
    let chars = to_chars(s);
    let start = leading_run(&chars, c);
    assert(chars@.skip(start as int) =~= chars@.subrange(start as int, chars@.len() as int));
    s.substring_char(start, chars.len())
}

/// `s` without its trailing run of `c`.
pub fn trim_end(s: &str, c: char) -> (trimmed: &str)
    ensures
        trimmed@ == trim_trailing(s@, c),
{
    let chars = to_chars(s);
    let end = trimmed_len(&chars, c);
    s.substring_char(0, end)
}

/// The place of the last `c` among the first `end` characters of `chars`.
pub(crate) fn last_index_before(chars: &Vec<char>, end: usize, c: char) -> (found: Option<usize>)
    requires
        end <= chars@.len(),
    ensures
        match found {
            Some(i) => i < end && chars@[i as int] == c && i == last_index_of(
                chars@.take(end as int),
                c,
            ),
            None => last_index_of(chars@.take(end as int), c) == -1,
        },
{
    let mut n: usize = end;
    while n > 0
        invariant
            n <= end <= chars@.len(),
            last_index_of(chars@.take(end as int), c) == last_index_of(chars@.take(n as int), c),
        decreases n,
    {
        if chars[n - 1] == c {
            return Some(n - 1);
        }
        assert(chars@.take(n as int).drop_last() =~= chars@.take(n - 1));
        n = n - 1;
    }
    None
}

/// The decimal digit that stands for `d`, for `d` below ten.
pub open spec fn digit_char(d: nat) -> char {
    if d == 0 {
        '0'
    } else if d == 1 {
        '1'
    } else if d == 2 {
        '2'
    } else if d == 3 {
        '3'
    } else if d == 4 {
        '4'
    } else if d == 5 {
        '5'
    } else if d == 6 {
        '6'
    } else if d == 7 {
        '7'
    } else if d == 8 {
        '8'
    } else {
        '9'
    }
}

/// `n` written in decimal, without sign or leading zeros.
pub open spec fn decimal(n: nat) -> Seq<char>
    decreases n,
{
    if n < 10 {
        seq![digit_char(n)]
    } else {
        decimal(n / 10).push(digit_char(n % 10))
    }
}

fn digit_text(d: usize) -> (text: &'static str)
    requires
        d < 10,
    ensures
        text@ == seq![digit_char(d as nat)],
{
    proof {
        reveal_strlit("0");
        reveal_strlit("1");
        reveal_strlit("2");
        reveal_strlit("3");
        reveal_strlit("4");
        reveal_strlit("5");
        reveal_strlit("6");
        reveal_strlit("7");
        reveal_strlit("8");
        reveal_strlit("9");
    }
    let text = if d == 0 {
        "0"
    } else if d == 1 {
        "1"
    } else if d == 2 {
        "2"
    } else if d == 3 {
        "3"
    } else if d == 4 {
        "4"
    } else if d == 5 {
        "5"
    } else if d == 6 {
        "6"
    } else if d == 7 {
        "7"
    } else if d == 8 {
        "8"
    } else {
        "9"
    };
    assert(text@ =~= seq![digit_char(d as nat)]);
    text
}

/// Writes `n` in decimal.
pub fn decimal_string(n: usize) -> (text: String)
    ensures
        text@ == decimal(n as nat),
    decreases n,
{
    if n < 10 {
        String::from_str(digit_text(n))
    } else {
        let mut text = decimal_string(n / 10);
        text.append(digit_text(n % 10));
        assert(text@ =~= decimal(n as nat));
        text
    }
}

/// The UTF-8 of two texts, one after the other, is the UTF-8 of the first
/// followed by that of the second.
pub proof fn lemma_encode_utf8_concat(a: Seq<char>, b: Seq<char>)
    ensures
        encode_utf8(a + b) == encode_utf8(a) + encode_utf8(b),
    decreases a.len(),
{
    if a.len() == 0 {
        assert(a + b =~= b);
        assert(encode_utf8(a) + encode_utf8(b) =~= encode_utf8(b));
    } else {
        assert((a + b).drop_first() =~= a.drop_first() + b);
        lemma_encode_utf8_concat(a.drop_first(), b);
        assert(encode_utf8(a + b) =~= encode_utf8(a) + encode_utf8(b));
    }
}

/// What `String::from_utf8_lossy` makes of bytes that are not valid UTF-8.
pub uninterp spec fn utf8_repaired(bytes: Seq<u8>) -> Seq<char>;

/// The text that permissive decoding reads from `bytes`: the decoded
/// characters where the bytes are valid UTF-8, and otherwise the repaired
/// text, in which replacement characters stand for what could not be decoded.
pub open spec fn lossy_text(bytes: Seq<u8>) -> Seq<char> {
    if valid_utf8(bytes) {
        decode_utf8(bytes)
    } else {
        utf8_repaired(bytes)
    }
}

/// Decodes `bytes` permissively.
///
/// Trusted: the body calls `String::from_utf8_lossy`.  Its documentation says
/// that valid UTF-8 comes back unchanged as text; for any other input the
/// contract only gives the result a name, claiming no more than that it
/// depends on the bytes alone.
#[verifier::external_body]
pub(crate) fn decode_lossy(bytes: &[u8]) -> (text: String)
    ensures
        valid_utf8(bytes@) ==> text@ == decode_utf8(bytes@),
        !valid_utf8(bytes@) ==> text@ == utf8_repaired(bytes@),
{
    String::from_utf8_lossy(bytes).into_owned()
}

} // verus!
