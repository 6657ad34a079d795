//! Names held in fixed-width, NUL-padded byte fields.
//!
//! A record stores its name in a byte array: the UTF-8 bytes of the name,
//! then NUL bytes up to the width of the field. Reading a field yields the
//! bytes that precede its first NUL, its *text*.
use vstd::prelude::*;
use vstd::utf8::*;

verus! {

/// The number of bytes of `bytes` that precede its first NUL: its whole
/// length where it holds none.
pub open spec fn text_len(bytes: Seq<u8>) -> int
    decreases bytes.len(),
{
    if bytes.len() == 0 || bytes[0] == 0 {
        0
    } else {
        1 + text_len(bytes.drop_first())
    }
}

/// The bytes of `bytes` that precede its first NUL.
pub open spec fn text(bytes: Seq<u8>) -> Seq<u8> {
    bytes.take(text_len(bytes))
}

/// `name` followed by NUL bytes, `width` bytes in all.
pub open spec fn padded(name: Seq<u8>, width: nat) -> Seq<u8>
    recommends
        name.len() <= width,
{
    Seq::new(
        width,
        |i: int|
            if i < name.len() {
                name[i]
            } else {
                0u8
            },
    )
}

/// No byte of `bytes` is NUL.
pub open spec fn nul_free(bytes: Seq<u8>) -> bool {
    forall|i: int| 0 <= i < bytes.len() ==> bytes[i] != 0
}

/// No character of `chars` is NUL.
pub open spec fn nul_free_chars(chars: Seq<char>) -> bool {
    forall|i: int| 0 <= i < chars.len() ==> chars[i] != '\0'
}

/// `text_len` is the position of the first NUL.
pub proof fn lemma_text_len(bytes: Seq<u8>)
    ensures
        0 <= text_len(bytes) <= bytes.len(),
        forall|i: int| 0 <= i < text_len(bytes) ==> bytes[i] != 0,
        text_len(bytes) < bytes.len() ==> bytes[text_len(bytes)] == 0,
    decreases bytes.len(),
{
    if bytes.len() == 0 || bytes[0] == 0 {
    } else {
        let rest = bytes.drop_first();
        lemma_text_len(rest);
        assert forall|i: int| 0 <= i < text_len(bytes) implies bytes[i] != 0 by {
            if i > 0 {
                assert(bytes[i] == rest[i - 1]);
            }
        }
        if text_len(bytes) < bytes.len() {
            assert(bytes[text_len(bytes)] == rest[text_len(rest)]);
        }
    }
}

/// A position with no NUL before it, and a NUL or the end at it, is `text_len`.
pub proof fn lemma_text_len_is(bytes: Seq<u8>, n: int)
    requires
        0 <= n <= bytes.len(),
        forall|i: int| 0 <= i < n ==> bytes[i] != 0,
        n < bytes.len() ==> bytes[n] == 0,
    ensures
        text_len(bytes) == n,
{
    lemma_text_len(bytes);
    let m = text_len(bytes);
    if m < n {
        assert(bytes[m] == 0);
    } else if n < m {
        assert(bytes[n] != 0);
    }
}

/// The text of a field holds no NUL, and is the field itself where that holds none.
pub proof fn lemma_text(bytes: Seq<u8>)
    ensures
        text(bytes).len() == text_len(bytes),
        nul_free(text(bytes)),
        text(text(bytes)) == text(bytes),
        nul_free(bytes) ==> text(bytes) == bytes,
{
    lemma_text_len(bytes);
    let t = text(bytes);
    lemma_text_len_is(t, t.len() as int);
    assert(t.take(t.len() as int) =~= t);
    if nul_free(bytes) {
        lemma_text_len_is(bytes, bytes.len() as int);
        assert(bytes.take(bytes.len() as int) =~= bytes);
    }
}

/// Padding a name does not change its text.
pub proof fn lemma_text_padded(name: Seq<u8>, width: nat)
    requires
        name.len() <= width,
    ensures
        padded(name, width).len() == width,
        text(padded(name, width)) == text(name),
{
    lemma_text_len(name);
    let field = padded(name, width);
    let n = text_len(name);
    lemma_text_len_is(field, n);
    assert(field.take(n) =~= name.take(n));
}

/// Cutting valid UTF-8 at its first NUL leaves valid UTF-8.
pub proof fn lemma_text_valid_utf8(bytes: Seq<u8>)
    requires
        valid_utf8(bytes),
    ensures
        valid_utf8(text(bytes)),
{
    lemma_text_len(bytes);
    let n = text_len(bytes);
    if n < bytes.len() {
        assert(!is_continuation_byte(bytes[n]));
        is_char_boundary_iff_not_is_continuation_byte(bytes, n);
        valid_utf8_split(bytes, n);
        assert(bytes.take(n) == bytes.subrange(0, n));
    } else {
        assert(bytes.take(n) =~= bytes);
    }
}

/// The encoding of a character other than NUL holds no NUL byte.
proof fn lemma_encode_scalar_nul_free(scalar: u32)
    requires
        is_scalar(scalar),
        scalar != 0,
    ensures
        nul_free(encode_scalar(scalar)),
{
    assert(1 <= scalar <= 0x7F ==> (scalar & 0x7F) as u8 != 0) by (bit_vector);
    assert(forall|low: u8| 0x80u8 | low != 0) by (bit_vector);
    assert(forall|low: u8| 0xC0u8 | low != 0) by (bit_vector);
    assert(forall|low: u8| 0xE0u8 | low != 0) by (bit_vector);
    assert(forall|low: u8| 0xF0u8 | low != 0) by (bit_vector);
}

/// The UTF-8 encoding of a string without NUL characters holds no NUL byte.
pub proof fn lemma_encode_nul_free(chars: Seq<char>)
    requires
        nul_free_chars(chars),
    ensures
        nul_free(encode_utf8(chars)),
    decreases chars.len(),
{
    if chars.len() > 0 {
        let first = chars[0] as u32;
        let rest = chars.drop_first();
        char_is_scalar(chars[0]);
        if first == 0 {
            char_u32_cast(chars[0], first);
            char_u32_cast('\0', 0u32);
        }
        lemma_encode_scalar_nul_free(first);
        assert forall|i: int| 0 <= i < rest.len() implies rest[i] != '\0' by {
            assert(rest[i] == chars[i + 1]);
        }
        lemma_encode_nul_free(rest);
    }
}

/// A string without NUL characters that is padded into a field is read back
/// from it unchanged.
pub proof fn lemma_padded_round_trip(chars: Seq<char>, width: nat)
    requires
        nul_free_chars(chars),
        encode_utf8(chars).len() <= width,
    ensures
        text(padded(encode_utf8(chars), width)) == encode_utf8(chars),
        decode_utf8(text(padded(encode_utf8(chars), width))) == chars,
{
    let bytes = encode_utf8(chars);
    lemma_encode_nul_free(chars);
    lemma_text_padded(bytes, width);
    lemma_text(bytes);
    encode_utf8_decode_utf8(chars);
}

/// The text of a padded string is valid UTF-8.
pub proof fn lemma_padded_valid_utf8(chars: Seq<char>, width: nat)
    requires
        encode_utf8(chars).len() <= width,
    ensures
        valid_utf8(text(padded(encode_utf8(chars), width))),
{
    let bytes = encode_utf8(chars);
    encode_utf8_valid_utf8(chars);
    lemma_text_valid_utf8(bytes);
    lemma_text_padded(bytes, width);
}

/// A run of NUL bytes has no text.
pub proof fn lemma_text_of_zeros(bytes: Seq<u8>)
    requires
        forall|i: int| 0 <= i < bytes.len() ==> bytes[i] == 0,
    ensures
        text(bytes) == Seq::<u8>::empty(),
        valid_utf8(text(bytes)),
{
    lemma_text_len_is(bytes, 0);
    assert(bytes.take(0) =~= Seq::<u8>::empty());
}

/// Declares `std::string::FromUtf8Error`, the error of `String::from_utf8`. It
/// is only ever dropped.
#[verifier::external_type_specification]
#[verifier::external_body]
pub struct ExFromUtf8Error(std::string::FromUtf8Error);

/// `String::from_utf8`: succeeds exactly on valid UTF-8, and the string it
/// gives is made of the bytes it was given.
#[verifier::external_body]
fn string_from_utf8(bytes: Vec<u8>) -> (decoded: Result<String, std::string::FromUtf8Error>)
    ensures
        decoded is Ok <==> valid_utf8(bytes@),
        decoded matches Ok(s) ==> encode_utf8(s@) == bytes@,
{
    String::from_utf8(bytes)
}

/// Finds the first NUL of a field.
pub(crate) fn text_length(field: &[u8]) -> (n: usize)
    ensures
        n == text_len(field@),
{
    let mut i: usize = 0;
    while i < field.len() && field[i] != 0
        invariant
            i <= field@.len(),
            forall|j: int| 0 <= j < i ==> field@[j] != 0,
        decreases field@.len() - i,
    {
        i += 1;
    }
    proof {
        lemma_text_len_is(field@, i as int);
    }
    i
}

/// Tells whether the text of a field is exactly `name`.
pub(crate) fn text_equals(field: &[u8], name: &[u8]) -> (same: bool)
    ensures
        same == (text(field@) == name@),
{
    let n = text_length(field);
    proof {
        lemma_text_len(field@);
    }
    if n != name.len() {
        return false;
    }
    let mut i: usize = 0;
    while i < n
        invariant
            i <= n,
            n == text_len(field@),
            n == name@.len(),
            n <= field@.len(),
            forall|j: int| 0 <= j < i ==> field@[j] == name@[j],
        decreases n - i,
    {
        if field[i] != name[i] {
            assert(text(field@)[i as int] != name@[i as int]);
            return false;
        }
        i += 1;
    }
    assert(text(field@) =~= name@);
    true
}

/// The part of `bytes` that is its text.
pub(crate) fn text_slice(bytes: &[u8]) -> (prefix: &[u8])
    ensures
        prefix@ == text(bytes@),
{
    let n = text_length(bytes);
    proof {
        lemma_text_len(bytes@);
    }
    vstd::slice::slice_subrange(bytes, 0, n)
}

/// Copies the text of a field out.
pub(crate) fn text_bytes(field: &[u8]) -> (bytes: Vec<u8>)
    ensures
        bytes@ == text(field@),
{
    let n = text_length(field);
    let mut bytes: Vec<u8> = Vec::new();
    let mut i: usize = 0;
    proof {
        lemma_text_len(field@);
    }
    while i < n
        invariant
            i <= n,
            n == text_len(field@),
            n <= field@.len(),
            bytes@ == field@.take(i as int),
        decreases n - i,
    {
        bytes.push(field[i]);
        assert(bytes@ =~= field@.take(i + 1));
        i += 1;
    }
    bytes
}

/// Tells whether the text of a field is valid UTF-8.
pub(crate) fn text_is_utf8(field: &[u8]) -> (valid: bool)
    ensures
        valid == valid_utf8(text(field@)),
{
    match string_from_utf8(text_bytes(field)) {
        Ok(_) => true,
        Err(_) => false,
    }
}

/// Decodes the text of a field.
pub(crate) fn text_string(field: &[u8]) -> (name: String)
    requires
        valid_utf8(text(field@)),
    ensures
        name@ == decode_utf8(text(field@)),
{
    match string_from_utf8(text_bytes(field)) {
        Ok(name) => {
            proof {
                encode_utf8_decode_utf8(name@);
            }
            name
        },
        Err(_) => String::new(),
    }
}

/// Lays a name out in a field of `N` bytes.
pub(crate) fn padded_field<const N: usize>(name: &[u8]) -> (field: [u8; N])
    requires
        name@.len() <= N,
    ensures
        field@ == padded(name@, N as nat),
{
    let mut field: [u8; N] = [0u8; N];
    let mut i: usize = 0;
    while i < name.len()
        invariant
            i <= name@.len() <= N,
            forall|j: int| 0 <= j < i ==> field@[j] == name@[j],
            forall|j: int| i <= j < N ==> field@[j] == 0,
        decreases name@.len() - i,
    {
        field[i] = name[i];
        i += 1;
    }
    assert(field@ =~= padded(name@, N as nat));
    field
}

} // verus!
