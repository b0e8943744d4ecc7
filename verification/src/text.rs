//! Text as sequences of characters: equality, byte order, decimal numbers and
//! the trimming rules that identify a relay.

use vstd::prelude::*;
use vstd::string::*;
use vstd::utf8::encode_utf8;
use vstd::utf8::encode_utf8_decode_utf8;
use vstd::utf8::is_ascii_chars;
use vstd::utf8::is_ascii_chars_encode_utf8;

verus! {

/// Two texts with the same UTF-8 bytes are the same text.
pub proof fn lemma_same_bytes_same_text(a: Seq<char>, b: Seq<char>)
    requires
        encode_utf8(a) == encode_utf8(b),
    ensures
        a == b,
{
    encode_utf8_decode_utf8(a);
    encode_utf8_decode_utf8(b);
}

/// Whether two texts hold the same characters.
pub fn same_text(a: &str, b: &str) -> (same: bool)
    ensures
        same == (a@ == b@),
{
    let left = a.as_bytes();
    let right = b.as_bytes();
    if left.len() != right.len() {
        return false;
    }
    let mut i: usize = 0;
    while i < left.len()
        invariant
            left@ == encode_utf8(a@),
            right@ == encode_utf8(b@),
            left@.len() == right@.len(),
            i <= left@.len(),
            forall|j: int| 0 <= j < i ==> left@[j] == right@[j],
        decreases left@.len() - i,
    {
        if left[i] != right[i] {
            return false;
        }
        i = i + 1;
    }
    proof {
        assert(left@ =~= right@);
        lemma_same_bytes_same_text(a@, b@);
    }
    true
}

/// The strict byte-wise lexicographic order, a proper prefix coming first.
pub open spec fn bytes_less(a: Seq<u8>, b: Seq<u8>) -> bool
    decreases a.len(),
{
    if a.len() == 0 || b.len() == 0 {
        a.len() < b.len()
    } else if a[0] == b[0] {
        bytes_less(a.drop_first(), b.drop_first())
    } else {
        a[0] < b[0]
    }
}

/// The strict order of texts: that of their UTF-8 bytes.
pub open spec fn text_less(a: Seq<char>, b: Seq<char>) -> bool {
    bytes_less(encode_utf8(a), encode_utf8(b))
}

/// The byte-wise order is a strict total order.
pub proof fn lemma_byte_order_is_strict(a: Seq<u8>, b: Seq<u8>, c: Seq<u8>)
    ensures
        !bytes_less(a, a),
        bytes_less(a, b) && bytes_less(b, c) ==> bytes_less(a, c),
        bytes_less(a, b) || bytes_less(b, a) || a == b,
    decreases a.len() + b.len() + c.len(),
{
    if a.len() > 0 {
        lemma_byte_order_is_strict(
            a.drop_first(),
            if b.len() > 0 {
                b.drop_first()
            } else {
                b
            },
            if c.len() > 0 {
                c.drop_first()
            } else {
                c
            },
        );
        if b.len() > 0 && a[0] == b[0] && a.drop_first() == b.drop_first() {
            assert(a =~= seq![a[0]] + a.drop_first());
            assert(b =~= seq![b[0]] + b.drop_first());
        }
    } else if b.len() == 0 {
        assert(a =~= b);
    }
}

/// The order of texts is a strict total order.
pub proof fn lemma_text_order_is_strict(a: Seq<char>, b: Seq<char>, c: Seq<char>)
    ensures
        !text_less(a, a),
        text_less(a, b) && text_less(b, c) ==> text_less(a, c),
        text_less(a, b) || text_less(b, a) || a == b,
{
    lemma_byte_order_is_strict(encode_utf8(a), encode_utf8(b), encode_utf8(c));
    if encode_utf8(a) == encode_utf8(b) {
        lemma_same_bytes_same_text(a, b);
    }
}

/// Whether `a` sorts strictly before `b` by their UTF-8 bytes.
pub fn is_text_less(a: &str, b: &str) -> (less: bool)
    ensures
        less == text_less(a@, b@),
{
    let left = a.as_bytes();
    let right = b.as_bytes();
    let mut i: usize = 0;
    assert(left@.skip(0) =~= left@);
    assert(right@.skip(0) =~= right@);
    while i < left.len() && i < right.len()
        invariant
            left@ == encode_utf8(a@),
            right@ == encode_utf8(b@),
            i <= left@.len(),
            i <= right@.len(),
            bytes_less(left@, right@) == bytes_less(left@.skip(i as int), right@.skip(i as int)),
        decreases left@.len() - i,
    {
        if left[i] != right[i] {
            return left[i] < right[i];
        }
        assert(left@.skip(i as int).drop_first() =~= left@.skip(i + 1));
        assert(right@.skip(i as int).drop_first() =~= right@.skip(i + 1));
        i = i + 1;
    }
    left.len() < right.len()
}

/// The decimal digit that stands for `n`.
pub open spec fn digit(n: nat) -> char {
    if n == 0 {
        '0'
    } else if n == 1 {
        '1'
    } else if n == 2 {
        '2'
    } else if n == 3 {
        '3'
    } else if n == 4 {
        '4'
    } else if n == 5 {
        '5'
    } else if n == 6 {
        '6'
    } else if n == 7 {
        '7'
    } else if n == 8 {
        '8'
    } else {
        '9'
    }
}

/// The decimal digits of `n`, the most significant first, without leading zeros.
pub open spec fn decimal(n: nat) -> Seq<char>
    decreases n,
{
    if n < 10 {
        seq![digit(n)]
    } else {
        decimal(n / 10).push(digit(n % 10))
    }
}

fn digit_text(n: u64) -> (text: &'static str)
    requires
        n < 10,
    ensures
        text@ == seq![digit(n as nat)],
{
    proof {
        reveal_strlit("0");
        reveal_strlit("1");
        reveal_strlit("2");
        reveal_strlit("3");
        reveal_strlit("4");
        reveal_strlit("5");
        reveal_strlit("6");
        reveal_strlit("7");
        reveal_strlit("8");
        reveal_strlit("9");
    }
    let text = if n == 0 {
        "0"
    } else if n == 1 {
        "1"
    } else if n == 2 {
        "2"
    } else if n == 3 {
        "3"
    } else if n == 4 {
        "4"
    } else if n == 5 {
        "5"
    } else if n == 6 {
        "6"
    } else if n == 7 {
        "7"
    } else if n == 8 {
        "8"
    } else {
        "9"
    };
    assert(text@ =~= seq![digit(n as nat)]);
    text
}

/// The decimal text of `n`.
pub fn decimal_text(n: u64) -> (text: String)
    ensures
        text@ == decimal(n as nat),
    decreases n,
{
    if n < 10 {
        String::from_str(digit_text(n))
    } else {
        let mut text = decimal_text(n / 10);
        let last = digit_text(n % 10);
        text.append(last);
        assert(text@ =~= decimal(n as nat / 10).push(digit(n as nat % 10)));
        text
    }
}

/// Whether a character has the Unicode property `White_Space`.
pub open spec fn is_white_space(c: char) -> bool {
    ||| '\u{9}' <= c <= '\u{d}'
    ||| c == '\u{20}'
    ||| c == '\u{85}'
    ||| c == '\u{a0}'
    ||| c == '\u{1680}'
    ||| '\u{2000}' <= c <= '\u{200a}'
    ||| c == '\u{2028}'
    ||| c == '\u{2029}'
    ||| c == '\u{202f}'
    ||| c == '\u{205f}'
    ||| c == '\u{3000}'
}

/// A text without the white space in front.
pub open spec fn trim_front(text: Seq<char>) -> Seq<char>
    decreases text.len(),
{
    if text.len() > 0 && is_white_space(text[0]) {
        trim_front(text.drop_first())
    } else {
        text
    }
}

/// A text without the white space at its end.
pub open spec fn trim_back(text: Seq<char>) -> Seq<char>
    decreases text.len(),
{
    if text.len() > 0 && is_white_space(text.last()) {
        trim_back(text.drop_last())
    } else {
        text
    }
}

/// A text without the white space around it.
pub open spec fn trimmed(text: Seq<char>) -> Seq<char> {
    trim_back(trim_front(text))
}

/// A text without the run of `c` at its end.
pub open spec fn without_trailing(text: Seq<char>, c: char) -> Seq<char>
    decreases text.len(),
{
    if text.len() > 0 && text.last() == c {
        without_trailing(text.drop_last(), c)
    } else {
        text
    }
}

/// The ASCII lower case of a character; any but `A` to `Z` is its own.
pub open spec fn ascii_lower(c: char) -> char {
    if 'A' <= c <= 'Z' {
        (c as u32 + 32) as char
    } else {
        c
    }
}

/// The ASCII lower case of a text.
pub open spec fn ascii_lowered(text: Seq<char>) -> Seq<char> {
    Seq::new(text.len(), |i: int| ascii_lower(text[i]))
}

/// Trims a text with `str::trim`.
///
/// Trusted: what remains is the text without the characters of the property
/// `White_Space` in front and at the end.
pub assume_specification[ str::trim ](text: &str) -> (rest: &str)
    ensures
        rest@ == trimmed(text@),
;

/// Lowers a text with `str::to_ascii_lowercase`.
///
/// Trusted: `A` to `Z` become `a` to `z`, every other character stays.
pub assume_specification[ str::to_ascii_lowercase ](text: &str) -> (lower: String)
    ensures
        lower@ == ascii_lowered(text@),
;

/// Strips the run of `c` at the end of a text with `str::trim_end_matches`.
///
/// Trusted: the run is removed, and no more than the run.
#[verifier::external_body]
pub(crate) fn strip_trailing(text: &str, c: char) -> (rest: &str)
    ensures
        rest@ == without_trailing(text@, c),
{
    text.trim_end_matches(c)
}

/// The lower-case hex digit of a value below sixteen.
pub open spec fn hex_digit(n: int) -> char {
    if n < 10 {
        digit(n as nat)
    } else if n == 10 {
        'a'
    } else if n == 11 {
        'b'
    } else if n == 12 {
        'c'
    } else if n == 13 {
        'd'
    } else if n == 14 {
        'e'
    } else {
        'f'
    }
}

/// The lower-case hex text of some bytes: two digits for each, the upper half first.
pub open spec fn hex_text(bytes: Seq<u8>) -> Seq<char> {
    Seq::new(
        2 * bytes.len(),
        |i: int|
            if i % 2 == 0 {
                hex_digit(bytes[i / 2] as int / 16)
            } else {
                hex_digit(bytes[i / 2] as int % 16)
            },
    )
}

/// Whether a text is the lower-case hex of `len` bytes.
pub open spec fn is_hex_of(text: Seq<char>, len: nat) -> bool {
    exists|bytes: Seq<u8>| bytes.len() == len && text == #[trigger] hex_text(bytes)
}

/// The bytes that a hex text stands for.
pub open spec fn hex_bytes(text: Seq<char>) -> Seq<u8> {
    choose|bytes: Seq<u8>| text == #[trigger] hex_text(bytes)
}

/// A hex text stands for as many bytes as it was made of.
pub proof fn lemma_hex_bytes_of(text: Seq<char>, len: nat)
    requires
        is_hex_of(text, len),
    ensures
        hex_text(hex_bytes(text)) == text,
        hex_bytes(text).len() == len,
        text.len() == 2 * len,
{
    let bytes = choose|bytes: Seq<u8>| bytes.len() == len && text == #[trigger] hex_text(bytes);
    assert(text == hex_text(bytes));
}

/// Different bytes have different hex texts.
pub proof fn law_hex_is_injective(a: Seq<u8>, b: Seq<u8>)
    requires
        hex_text(a) == hex_text(b),
    ensures
        a == b,
{
    assert(hex_text(a).len() == hex_text(b).len());
    law_hex_keeps_the_byte_order(a, b);
    law_hex_keeps_the_byte_order(b, a);
    lemma_text_order_is_strict(hex_text(a), hex_text(a), hex_text(a));
    lemma_byte_order_is_strict(a, b, a);
}

proof fn lemma_hex_digit_order(m: int, n: int)
    requires
        0 <= m < 16,
        0 <= n < 16,
    ensures
        '\0' <= hex_digit(m) <= '\u{7f}',
        (hex_digit(m) as u8) < (hex_digit(n) as u8) <==> m < n,
        hex_digit(m) as u8 == hex_digit(n) as u8 <==> m == n,
{
}

proof fn lemma_hex_is_ascii(bytes: Seq<u8>)
    ensures
        is_ascii_chars(hex_text(bytes)),
{
    let text = hex_text(bytes);
    assert forall|i: int| 0 <= i < text.len() implies '\0' <= #[trigger] text[i] <= '\u{7f}' by {
        let byte = bytes[i / 2] as int;
        lemma_hex_digit_order(byte / 16, byte / 16);
        lemma_hex_digit_order(byte % 16, byte % 16);
    }
}

/// The UTF-8 bytes of hex text: two for the first byte, and those of the rest.
proof fn lemma_hex_bytes(bytes: Seq<u8>)
    requires
        bytes.len() > 0,
    ensures
        ({
            let encoded = encode_utf8(hex_text(bytes));
            &&& encoded.len() == 2 * bytes.len()
            &&& encoded[0] == hex_digit(bytes[0] as int / 16) as u8
            &&& encoded[1] == hex_digit(bytes[0] as int % 16) as u8
            &&& encoded.drop_first().drop_first() == encode_utf8(hex_text(bytes.drop_first()))
        }),
{
    let text = hex_text(bytes);
    let rest = hex_text(bytes.drop_first());
    let encoded = encode_utf8(text);
    lemma_hex_is_ascii(bytes);
    lemma_hex_is_ascii(bytes.drop_first());
    is_ascii_chars_encode_utf8(text);
    is_ascii_chars_encode_utf8(rest);
    assert(text[0] as u8 == encoded[0]);
    assert(text[1] as u8 == encoded[1]);
    assert forall|i: int| 0 <= i < rest.len() implies encoded[i + 2] == #[trigger] encode_utf8(
        rest,
    )[i] by {
        assert((i + 2) / 2 == i / 2 + 1);
        assert(text[i + 2] == rest[i]);
    }
    assert(encoded.drop_first().drop_first() =~= encode_utf8(rest));
}

/// Hex text keeps the order of byte strings of equal length.
pub proof fn law_hex_keeps_the_byte_order(a: Seq<u8>, b: Seq<u8>)
    requires
        a.len() == b.len(),
    ensures
        text_less(hex_text(a), hex_text(b)) == bytes_less(a, b),
    decreases a.len(),
{
    if a.len() == 0 {
        assert(hex_text(a) =~= hex_text(b));
        lemma_text_order_is_strict(hex_text(a), hex_text(a), hex_text(a));
    } else {
        let left = encode_utf8(hex_text(a));
        let right = encode_utf8(hex_text(b));
        lemma_hex_bytes(a);
        lemma_hex_bytes(b);
        lemma_hex_digit_order(a[0] as int / 16, b[0] as int / 16);
        lemma_hex_digit_order(a[0] as int % 16, b[0] as int % 16);
        law_hex_keeps_the_byte_order(a.drop_first(), b.drop_first());
        assert(left.drop_first()[0] == left[1]);
        assert(right.drop_first()[0] == right[1]);
        assert(bytes_less(left.drop_first(), right.drop_first()) == if left[1] == right[1] {
            bytes_less(left.drop_first().drop_first(), right.drop_first().drop_first())
        } else {
            left[1] < right[1]
        });
    }
}

/// Writes bytes in hex with `hex::encode`.
///
/// Trusted: two lower-case digits for each byte, in order.
#[verifier::external_body]
pub(crate) fn hex_encode(bytes: &[u8]) -> (text: String)
    ensures
        text@ == hex_text(bytes@),
{
    hex::encode(bytes)
}

/// Each byte is two hex digits, the upper half first: `0` to `9` for the values below ten
/// and `a` to `f` for the others.
pub proof fn law_hex_digits_tell_the_bytes(bytes: Seq<u8>, i: int)
    requires
        0 <= i < bytes.len(),
    ensures
        hex_text(bytes).len() == 2 * bytes.len(),
        hex_text(bytes)[2 * i] as u32 == bytes[i] / 16 + (if bytes[i] / 16 < 10 {
            '0' as int
        } else {
            'a' as int - 10
        }),
        hex_text(bytes)[2 * i + 1] as u32 == bytes[i] % 16 + (if bytes[i] % 16 < 10 {
            '0' as int
        } else {
            'a' as int - 10
        }),
{
    assert((2 * i) / 2 == i && (2 * i) % 2 == 0);
    assert((2 * i + 1) / 2 == i && (2 * i + 1) % 2 == 1);
}

/// The first byte in which two byte strings differ decides their order; where one is the
/// beginning of the other, the shorter comes first.
pub proof fn law_first_difference_decides(a: Seq<u8>, b: Seq<u8>, k: int)
    requires
        0 <= k <= a.len(),
        k <= b.len(),
        forall|l: int| 0 <= l < k ==> a[l] == b[l],
    ensures
        k < a.len() && k < b.len() && a[k] != b[k] ==> bytes_less(a, b) == (a[k] < b[k]),
        k == a.len() || k == b.len() ==> bytes_less(a, b) == (a.len() < b.len()),
    decreases k,
{
    if k > 0 {
        assert(a[0] == b[0]);
        assert forall|l: int| 0 <= l < k - 1 implies a.drop_first()[l] == b.drop_first()[l] by {
            assert(a[l + 1] == b[l + 1]);
        }
        law_first_difference_decides(a.drop_first(), b.drop_first(), k - 1);
    }
}

/// Texts are ordered by the first difference of their UTF-8 bytes.
pub proof fn law_text_order_is_that_of_the_bytes(a: Seq<char>, b: Seq<char>, k: int)
    requires
        0 <= k <= encode_utf8(a).len(),
        k <= encode_utf8(b).len(),
        forall|l: int| 0 <= l < k ==> encode_utf8(a)[l] == encode_utf8(b)[l],
    ensures
        k < encode_utf8(a).len() && k < encode_utf8(b).len() && encode_utf8(a)[k] != encode_utf8(
            b,
        )[k] ==> text_less(a, b) == (encode_utf8(a)[k] < encode_utf8(b)[k]),
        k == encode_utf8(a).len() || k == encode_utf8(b).len() ==> text_less(a, b) == (encode_utf8(
            a,
        ).len() < encode_utf8(b).len()),
{
    law_first_difference_decides(encode_utf8(a), encode_utf8(b), k);
}

/// A decimal is positional: a digit is the character that stands as far behind `0` as its
/// value says, and a digit put behind a number is added to ten times the number.
pub proof fn law_decimals_are_positional(n: nat, d: nat)
    requires
        d < 10,
    ensures
        decimal(d).len() == 1,
        decimal(d)[0] as u32 == '0' as u32 + d,
        n > 0 ==> decimal(10 * n + d) == decimal(n) + decimal(d),
{
    if n > 0 {
        let m = 10 * n + d;
        assert(m / 10 == n);
        assert(m % 10 == d);
        assert(decimal(m) =~= decimal(n) + decimal(d));
    }
}

/// Trimming takes white space from both ends and nothing else: what remains stands
/// between the returned places, and neither begins nor ends with white space.
pub proof fn law_trimming_takes_white_space_only(text: Seq<char>) -> (ends: (int, int))
    ensures
        ({
            let (i, j) = ends;
            &&& 0 <= i <= j <= text.len()
            &&& trimmed(text) == text.subrange(i, j)
            &&& forall|k: int| 0 <= k < i ==> is_white_space(#[trigger] text[k])
            &&& forall|k: int| j <= k < text.len() ==> is_white_space(#[trigger] text[k])
            &&& i < j ==> !is_white_space(text[i]) && !is_white_space(text[j - 1])
        }),
{
    let i = lemma_trim_front_at(text);
    let rest = trim_front(text);
    let j = lemma_trim_back_at(rest);
    assert(rest.take(j) =~= text.subrange(i, i + j));
    assert forall|k: int| i + j <= k < text.len() implies is_white_space(#[trigger] text[k]) by {
        assert(rest[k - i] == text[k]);
    }
    if j > 0 {
        assert(rest[j - 1] == text[i + j - 1]);
        assert(rest[0] == text[i]);
    }
    (i, i + j)
}

proof fn lemma_trim_front_at(text: Seq<char>) -> (i: int)
    ensures
        0 <= i <= text.len(),
        trim_front(text) == text.skip(i),
        forall|k: int| 0 <= k < i ==> is_white_space(#[trigger] text[k]),
        i < text.len() ==> !is_white_space(text[i]),
    decreases text.len(),
{
    if text.len() > 0 && is_white_space(text[0]) {
        let rest = text.drop_first();
        let i = lemma_trim_front_at(rest);
        assert(rest.skip(i) =~= text.skip(i + 1));
        assert forall|k: int| 0 <= k < i + 1 implies is_white_space(#[trigger] text[k]) by {
            if k > 0 {
                assert(rest[k - 1] == text[k]);
            }
        }
        if i < rest.len() {
            assert(rest[i] == text[i + 1]);
        }
        i + 1
    } else {
        assert(text.skip(0) =~= text);
        0
    }
}

proof fn lemma_trim_back_at(text: Seq<char>) -> (j: int)
    ensures
        0 <= j <= text.len(),
        trim_back(text) == text.take(j),
        forall|k: int| j <= k < text.len() ==> is_white_space(#[trigger] text[k]),
        j > 0 ==> !is_white_space(text[j - 1]),
    decreases text.len(),
{
    if text.len() > 0 && is_white_space(text.last()) {
        let rest = text.drop_last();
        let j = lemma_trim_back_at(rest);
        assert(rest.take(j) =~= text.take(j));
        assert forall|k: int| j <= k < text.len() implies is_white_space(#[trigger] text[k]) by {
            if k < rest.len() {
                assert(rest[k] == text[k]);
            }
        }
        j
    } else {
        assert(text.take(text.len() as int) =~= text);
        text.len() as int
    }
}

/// Stripping takes the run of a character from the end and nothing else: what remains is
/// all before the returned place, and does not end with the character.
pub proof fn law_stripping_takes_the_run_only(text: Seq<char>, c: char) -> (j: int)
    ensures
        0 <= j <= text.len(),
        without_trailing(text, c) == text.take(j),
        forall|k: int| j <= k < text.len() ==> (#[trigger] text[k]) == c,
        j > 0 ==> text[j - 1] != c,
    decreases text.len(),
{
    if text.len() > 0 && text.last() == c {
        let rest = text.drop_last();
        let j = law_stripping_takes_the_run_only(rest, c);
        assert(rest.take(j) =~= text.take(j));
        assert forall|k: int| j <= k < text.len() implies (#[trigger] text[k]) == c by {
            if k < rest.len() {
                assert(rest[k] == text[k]);
            }
        }
        j
    } else {
        assert(text.take(text.len() as int) =~= text);
        text.len() as int
    }
}

} // verus!
