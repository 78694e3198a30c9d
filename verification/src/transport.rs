//! The decoder that splits the byte stream from the client into messages.
use vstd::prelude::*;

use crate::lsp::ErrorResponse;
use crate::protocol::ResponseError;
use crate::text::{decimal_digits, digit_char};

verus! {

/// Where the decoder stands in the byte stream.
#[derive(Clone, Copy, Debug, PartialEq, Eq, Structural)]
pub enum ParseState {
    /// Looking for the start of the next message header.
    Syncing,
}

/// A part of the stream that the decoder has recognized: a byte span.
#[derive(Clone, Copy, Debug, PartialEq, Eq, Structural)]
pub struct Token {
    pub start: usize,
    pub end: usize,
}

/// The decoder's state: the bytes not yet consumed and the parts recognized
/// so far.
#[derive(Debug)]
pub struct Decoder {
    pub state: ParseState,
    pub rest: Vec<u8>,
    pub tokens: Vec<Token>,
}

/// The most bytes that the decoder holds at a time.
pub const DECODER_CAPACITY: usize = 4096;

impl Decoder {
    pub fn build() -> (d: Self)
        ensures
            d.state == ParseState::Syncing,
            d.rest@.len() == 0,
            d.tokens@.len() == 0,
    {
        Decoder { state: ParseState::Syncing, rest: Vec::with_capacity(DECODER_CAPACITY), tokens: Vec::new() }
    }

    /// How many bytes may be read next: what still fits into the decoder,
    /// and no more than the buffer holds.
    pub fn room(&self, buf_len: usize) -> (n: usize)
        requires
            self.rest@.len() <= DECODER_CAPACITY,
        ensures
            n == if DECODER_CAPACITY - self.rest@.len() < buf_len {
                DECODER_CAPACITY - self.rest@.len()
            } else {
                buf_len as int
            },
    {
        let free = DECODER_CAPACITY - self.rest.len();
        if free < buf_len {
            free
        } else {
            buf_len
        }
    }
}

/// An error response for input that could not be read.
pub fn error_read(err: &str) -> (e: ErrorResponse)
    ensures
        e.id is None,
        e.error.code == -32700,
        e.error.message@ == err@,
        e.error.data is None,
{
    ErrorResponse {
        id: None,
        error: ResponseError {
            code: crate::protocol::ErrorCodes::ParseError.code(),
            message: String::from_str(err),
            data: None,
        },
    }
}

/// CR LF CR LF, the blank line that ends a header, starts at `i`.
pub open spec fn blank_at(s: Seq<u8>, i: int) -> bool {
    &&& 0 <= i
    &&& i + 4 <= s.len()
    &&& s[i] == 13u8
    &&& s[i + 1] == 10u8
    &&& s[i + 2] == 13u8
    &&& s[i + 3] == 10u8
}

/// `i` is the first blank line in `s`.
pub open spec fn first_blank(s: Seq<u8>, i: int) -> bool {
    blank_at(s, i) && forall|j: int| 0 <= j < i ==> !blank_at(s, j)
}

/// Where the first header in `s` ends: the start of the first blank line,
/// or -1 where the header is not complete.
pub open spec fn header_end(s: Seq<u8>) -> int {
    if exists|i: int| first_blank(s, i) {
        choose|i: int| first_blank(s, i)
    } else {
        -1
    }
}

/// The field name that the header starts with, and the space after it.
pub open spec fn length_prefix() -> Seq<u8> {
    seq![67u8, 111u8, 110u8, 116u8, 101u8, 110u8, 116u8, 45u8, 76u8, 101u8, 110u8, 103u8, 116u8, 104u8, 58u8, 32u8]
}

pub open spec fn is_digit(b: u8) -> bool {
    48 <= b <= 57
}

/// The number of decimal digits in `s` from `i` on.
pub open spec fn digit_run(s: Seq<u8>, i: int) -> nat
    decreases s.len() - i,
{
    if 0 <= i < s.len() && is_digit(s[i]) {
        1 + digit_run(s, i + 1)
    } else {
        0
    }
}

/// The number that the decimal digits `d` write.
pub open spec fn digits_value(d: Seq<u8>) -> nat
    decreases d.len(),
{
    if d.len() == 0 {
        0
    } else {
        10 * digits_value(d.drop_last()) + (d.last() - 48) as nat
    }
}

/// The content length that the header `h` gives: it starts with the line
/// `Content-Length: ` and digits; further lines may follow.
pub open spec fn content_length(h: Seq<u8>) -> Option<nat> {
    let k: int = digit_run(h, 16) as int;
    if h.len() >= 16 && h.take(16) == length_prefix() && k > 0 && (16 + k == h.len() || (16 + k + 2 <= h.len()
        && h[16 + k] == 13u8 && h[16 + k + 1] == 10u8)) {
        Some(digits_value(h.subrange(16, 16 + k)))
    } else {
        None
    }
}

/// The text of the error for a header that cannot be read.
pub open spec fn malformed_text() -> Seq<char> {
    "Malformed message header."@
}

/// The bytes of the header field name.
fn length_prefix_bytes() -> (v: Vec<u8>)
    ensures
        v@ == length_prefix(),
{
    let v: Vec<u8> = vec![67u8, 111u8, 110u8, 116u8, 101u8, 110u8, 116u8, 45u8, 76u8, 101u8, 110u8, 103u8, 116u8, 104u8, 58u8, 32u8];
    proof {
        assert(v@ =~= length_prefix());
    }
    v
}

/// The bytes of `s` from `a` to `b`.
fn copy_range(s: &Vec<u8>, a: usize, b: usize) -> (r: Vec<u8>)
    requires
        a <= b <= s@.len(),
    ensures
        r@ == s@.subrange(a as int, b as int),
{
    let mut r: Vec<u8> = Vec::new();
    let mut i: usize = a;
    while i < b
        invariant
            a <= i <= b <= s@.len(),
            r@ == s@.subrange(a as int, i as int),
        decreases b - i,
    {
        r.push(s[i]);
        proof {
            assert(r@ =~= s@.subrange(a as int, i + 1));
        }
        i = i + 1;
    }
    r
}

/// Finds the first blank line in `s`.
fn find_blank(s: &Vec<u8>) -> (r: Option<usize>)
    ensures
        match r {
            Some(i) => first_blank(s@, i as int) && header_end(s@) == i,
            None => header_end(s@) == -1 && forall|i: int| !blank_at(s@, i),
        },
{
    let mut i: usize = 0;
    while s.len() >= 4 && i <= s.len() - 4
        invariant
            forall|j: int| 0 <= j < i ==> !blank_at(s@, j),
        decreases s@.len() - i,
    {
        if s[i] == 13u8 && s[i + 1] == 10u8 && s[i + 2] == 13u8 && s[i + 3] == 10u8 {
            proof {
                assert(first_blank(s@, i as int));
                let c = choose|k: int| first_blank(s@, k);
                if c < i {
                    assert(!blank_at(s@, c));
                } else if c > i {
                    assert(!blank_at(s@, i as int));
                }
            }
            return Some(i);
        }
        i = i + 1;
    }
    proof {
        assert forall|j: int| !blank_at(s@, j) by {
            if 0 <= j && j >= i {
                assert(j + 4 > s@.len());
            }
        }
    }
    None
}

/// Reads the content length from the header `s[..h]`: `None` where the
/// header is malformed, `Some(None)` where the length exceeds `s`'s length,
/// and `Some(Some(n))` otherwise.
fn read_length(s: &Vec<u8>, h: usize) -> (r: Option<Option<usize>>)
    requires
        h <= s@.len(),
    ensures
        match content_length(s@.take(h as int)) {
            None => r is None,
            Some(n) => if n > s@.len() { r == Some(None::<usize>) } else { r == Some(Some(n as usize)) },
        },
{
    let ghost hd = s@.take(h as int);
    if h < 16 {
        return None;
    }
    let prefix = length_prefix_bytes();
    let mut i: usize = 0;
    while i < 16
        invariant
            16 <= h <= s@.len(),
            hd == s@.take(h as int),
            prefix@ == length_prefix(),
            i <= 16,
            forall|j: int| 0 <= j < i ==> s@[j] == prefix@[j],
        decreases 16 - i,
    {
        if s[i] != prefix[i] {
            proof {
                assert(hd.take(16)[i as int] != length_prefix()[i as int]);
            }
            return None;
        }
        i = i + 1;
    }
    proof {
        assert(hd.take(16) =~= length_prefix());
    }
    let slen = s.len();
    let mut j: usize = 16;
    let mut value: u128 = 0;
    let mut big = false;
    while j < h && 48u8 <= s[j] && s[j] <= 57u8
        invariant
            16 <= j <= h <= s@.len(),
            slen == s@.len(),
            hd == s@.take(h as int),
            digit_run(hd, 16) == (j - 16) + digit_run(hd, j as int),
            forall|k: int| 16 <= k < j ==> is_digit(#[trigger] hd[k]),
            !big ==> value == digits_value(hd.subrange(16, j as int)) && value <= s@.len(),
            big ==> digits_value(hd.subrange(16, j as int)) > s@.len(),
        decreases h - j,
    {
        let d = s[j];
        proof {
            assert(hd[j as int] == d);
            assert(digit_run(hd, j as int) == 1 + digit_run(hd, j + 1));
            assert(hd.subrange(16, j + 1).drop_last() =~= hd.subrange(16, j as int));
            assert(hd.subrange(16, j + 1).last() == d);
        }
        if !big {
            let next: u128 = value * 10 + (d - 48u8) as u128;
            if next > slen as u128 {
                big = true;
            } else {
                value = next;
            }
        }
        j = j + 1;
    }
    proof {
        assert(digit_run(hd, j as int) == 0);
    }
    if j == 16 {
        return None;
    }
    if j != h && !(h - j >= 2 && s[j] == 13u8 && s[j + 1] == 10u8) {
        return None;
    }
    if big {
        Some(None)
    } else {
        Some(Some(value as usize))
    }
}

/// What decoding found at the start of the unconsumed bytes.
#[derive(Debug, PartialEq)]
pub enum Decoded {
    /// No complete message yet: more bytes are needed.
    Incomplete,
    /// The content of the next message.
    Content(Vec<u8>),
    /// A header that cannot be read; it has been dropped.
    Malformed(ErrorResponse),
}

/// Takes the next message off the unconsumed bytes.
///
/// A message is a header, a blank line (CR LF CR LF) and the content; the
/// header starts with the line `Content-Length: ` and the content's length in
/// decimal digits, and may go on with further lines. Where the header is not
/// complete, or the content is not all there yet, nothing is consumed. Where
/// the header cannot be read, it is dropped together with its blank line and
/// an error is given. Otherwise the content is handed out and the message is
/// consumed.
pub fn decode(dec: &mut Decoder) -> (r: Decoded)
    ensures
        final(dec).state == old(dec).state,
        final(dec).tokens@ == old(dec).tokens@,
        ({
            let s = old(dec).rest@;
            let h = header_end(s);
            if h < 0 {
                r == Decoded::Incomplete && final(dec).rest@ == s
            } else {
                match content_length(s.take(h)) {
                    None => {
                        &&& r matches Decoded::Malformed(e) && e.id is None && e.error.code == -32700
                            && e.error.message@ == malformed_text() && e.error.data is None
                        &&& final(dec).rest@ == s.skip(h + 4)
                    },
                    Some(n) => if h + 4 + n > s.len() {
                        r == Decoded::Incomplete && final(dec).rest@ == s
                    } else {
                        &&& r matches Decoded::Content(c) && c@ == s.subrange(h + 4, h + 4 + n)
                        &&& final(dec).rest@ == s.skip(h + 4 + n)
                    },
                }
            }
        }),
{
    let h = match find_blank(&dec.rest) {
        Some(h) => h,
        None => {
            return Decoded::Incomplete;
        },
    };
    let len = dec.rest.len();
    match read_length(&dec.rest, h) {
        None => {
            let rest = copy_range(&dec.rest, h + 4, len);
            proof {
                assert(rest@ =~= old(dec).rest@.skip(h + 4));
            }
            dec.rest = rest;
            Decoded::Malformed(error_read("Malformed message header."))
        },
        Some(None) => Decoded::Incomplete,
        Some(Some(n)) => {
            if n > len - (h + 4) {
                return Decoded::Incomplete;
            }
            let content = copy_range(&dec.rest, h + 4, h + 4 + n);
            let rest = copy_range(&dec.rest, h + 4 + n, len);
            proof {
                assert(rest@ =~= old(dec).rest@.skip(h + 4 + n));
            }
            dec.rest = rest;
            Decoded::Content(content)
        },
    }
}


/// The decimal notation of `n` as bytes.
pub open spec fn decimal_bytes(n: nat) -> Seq<u8> {
    decimal_digits(n).map_values(|c: char| c as u8)
}

proof fn lemma_digit_byte(d: nat)
    requires
        d < 10,
    ensures
        digit_char(d) as u8 == 48 + d,
{
}

proof fn lemma_decimal_bytes(n: nat)
    ensures
        decimal_bytes(n).len() > 0,
        forall|i: int| 0 <= i < decimal_bytes(n).len() ==> is_digit(#[trigger] decimal_bytes(n)[i]),
        digits_value(decimal_bytes(n)) == n,
    decreases n,
{
    if n < 10 {
        lemma_digit_byte(n);
        assert(decimal_bytes(n) =~= seq![(48 + n) as u8]);
        assert(decimal_bytes(n).drop_last() =~= Seq::<u8>::empty());
        assert(digits_value(Seq::<u8>::empty()) == 0);
        assert(decimal_bytes(n).last() == (48 + n) as u8);
        assert(digits_value(decimal_bytes(n)) == 10 * digits_value(decimal_bytes(n).drop_last()) + (decimal_bytes(n).last() - 48) as nat);
    } else {
        lemma_decimal_bytes(n / 10);
        lemma_digit_byte(n % 10);
        let d = decimal_bytes(n / 10);
        assert(decimal_bytes(n) =~= d.push((48 + n % 10) as u8));
        assert(decimal_bytes(n).drop_last() =~= d);
        assert(decimal_bytes(n).last() == (48 + n % 10) as u8);
        assert(digits_value(decimal_bytes(n)) == 10 * digits_value(decimal_bytes(n).drop_last()) + (decimal_bytes(n).last() - 48) as nat);
        assert(n == 10 * (n / 10) + n % 10);
    }
}

/// A run of digits that ends at the end of `h` or before a non-digit is
/// counted whole.
proof fn lemma_digit_run_exact(h: Seq<u8>, i: int, end: int)
    requires
        0 <= i <= end <= h.len(),
        forall|k: int| i <= k < end ==> is_digit(#[trigger] h[k]),
        end == h.len() || !is_digit(h[end]),
    ensures
        digit_run(h, i) == end - i,
    decreases end - i,
{
    if i < end {
        lemma_digit_run_exact(h, i + 1, end);
    }
}

/// The content length is read in decimal: a header that starts with the
/// length field and the decimal digits of `n`, and then ends or goes on with
/// a further line, gives `n`.
pub proof fn law_content_length_decimal(n: nat, rest: Seq<u8>)
    requires
        rest.len() == 0 || (rest.len() >= 2 && rest[0] == 13u8 && rest[1] == 10u8),
    ensures
        content_length(length_prefix() + decimal_bytes(n) + rest) == Some(n),
{
    lemma_decimal_bytes(n);
    let d = decimal_bytes(n);
    let h = length_prefix() + d + rest;
    let end: int = 16 + d.len() as int;
    assert forall|k: int| 16 <= k < end implies is_digit(#[trigger] h[k]) by {
        assert(h[k] == d[k - 16]);
    }
    if end < h.len() {
        assert(h[end] == rest[0]);
    }
    lemma_digit_run_exact(h, 16, end);
    assert(h.take(16) =~= length_prefix());
    assert(h.subrange(16, end) =~= d);
}


} // verus!
