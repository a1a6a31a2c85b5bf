//! Strings as C wants them: without a NUL byte inside, and with one at the end.

use crate::error::{NulError, RadosError};
use vstd::prelude::*;
use vstd::slice::slice_to_vec;

verus! {

/// No byte of `bytes` is NUL.
pub open spec fn nul_free(bytes: Seq<u8>) -> bool {
    forall|i: int| 0 <= i < bytes.len() ==> bytes[i] != 0
}

/// The index of the first NUL byte, or the length where there is none.
pub open spec fn first_nul(bytes: Seq<u8>) -> int
    decreases bytes.len(),
{
    if bytes.len() == 0 || bytes[0] == 0 {
        0
    } else {
        1 + first_nul(bytes.skip(1))
    }
}

/// The bytes of a string argument.
pub open spec fn utf8(s: &str) -> Seq<u8> {
    vstd::utf8::encode_utf8(s@)
}

/// The bytes of an optional string argument.
pub open spec fn optional_utf8(s: Option<&str>) -> Option<Seq<u8>> {
    match s {
        Some(s) => Some(utf8(s)),
        None => None,
    }
}

/// `p` is the first NUL of `bytes`, or its length, where nothing before it is NUL and it is itself
/// one, unless it is the end.
pub proof fn first_nul_is(bytes: Seq<u8>, p: int)
    requires
        0 <= p <= bytes.len(),
        forall|i: int| 0 <= i < p ==> bytes[i] != 0,
        p < bytes.len() ==> bytes[p] == 0,
    ensures
        first_nul(bytes) == p,
    decreases bytes.len(),
{
    if p > 0 {
        let rest = bytes.skip(1);
        assert forall|i: int| 0 <= i < p - 1 implies rest[i] != 0 by {
            assert(rest[i] == bytes[i + 1]);
        }
        first_nul_is(rest, p - 1);
    }
}

/// The first NUL lies within the bytes or at their end, and nothing before it is NUL.
pub proof fn first_nul_holds(bytes: Seq<u8>)
    ensures
        0 <= first_nul(bytes) <= bytes.len(),
        forall|i: int| 0 <= i < first_nul(bytes) ==> bytes[i] != 0,
        first_nul(bytes) < bytes.len() ==> bytes[first_nul(bytes)] == 0,
        nul_free(bytes) <==> first_nul(bytes) == bytes.len(),
    decreases bytes.len(),
{
    if bytes.len() > 0 && bytes[0] != 0 {
        let rest = bytes.skip(1);
        first_nul_holds(rest);
        assert forall|i: int| 0 <= i < first_nul(bytes) implies bytes[i] != 0 by {
            if i > 0 {
                assert(rest[i - 1] == bytes[i]);
            }
        }
    }
}

/// Bytes that can be handed over as a C string, with the terminating NUL in place.
#[derive(Debug, PartialEq, Eq)]
pub struct CString {
    terminated: Vec<u8>,
}

impl View for CString {
    type V = Seq<u8>;

    /// The bytes without the terminating NUL.
    closed spec fn view(&self) -> Seq<u8> {
        self.terminated@.drop_last()
    }
}

impl CString {
    #[verifier::type_invariant]
    spec fn is_terminated(&self) -> bool {
        &&& self.terminated@.len() > 0
        &&& self.terminated@.last() == 0
        &&& nul_free(self.terminated@.drop_last())
    }

    /// Terminates `bytes`, unless a NUL inside would cut them short.
    pub fn new(bytes: &[u8]) -> (res: Result<CString, NulError>)
        ensures
            match res {
                Ok(c) => nul_free(bytes@) && c@ == bytes@,
                Err(e) => !nul_free(bytes@) && e.reports(bytes@),
            },
    {
        let mut i: usize = 0;
        while i < bytes.len()
            invariant
                i <= bytes@.len(),
                forall|j: int| 0 <= j < i ==> bytes@[j] != 0,
            decreases bytes@.len() - i,
        {
            if bytes[i] == 0 {
                proof {
                    first_nul_is(bytes@, i as int);
                }
                return Err(NulError { position: i, bytes: slice_to_vec(bytes) });
            }
            i += 1;
        }
        let mut terminated = slice_to_vec(bytes);
        terminated.push(0);
        assert(terminated@.drop_last() =~= bytes@);
        Ok(CString { terminated })
    }

    /// The bytes and the NUL that ends them.
    pub fn as_bytes_with_nul(&self) -> (bytes: &[u8])
        ensures
            bytes@ == self@.push(0),
            nul_free(self@),
    {
        proof {
            use_type_invariant(self);
            assert(self@.push(0) =~= self.terminated@);
        }
        self.terminated.as_slice()
    }
}

/// The C string of a string argument.
pub(crate) fn c_string(s: &str) -> (res: Result<CString, RadosError>)
    ensures
        nul_free(vstd::utf8::encode_utf8(s@)) ==> (res matches Ok(c) && c@
            == vstd::utf8::encode_utf8(s@)),
        !nul_free(vstd::utf8::encode_utf8(s@)) ==> crate::error::refuses(
            res,
            vstd::utf8::encode_utf8(s@),
        ),
{
    c_string_of_bytes(s.as_bytes())
}

/// The C string of an argument given as bytes.
pub(crate) fn c_string_of_bytes(bytes: &[u8]) -> (res: Result<CString, RadosError>)
    ensures
        nul_free(bytes@) ==> (res matches Ok(c) && c@ == bytes@),
        !nul_free(bytes@) ==> crate::error::refuses(res, bytes@),
{
    match CString::new(bytes) {
        Ok(c) => Ok(c),
        Err(e) => Err(RadosError::Nul(e)),
    }
}

/// What C reads back of a C string, up to the first NUL, is the string that was handed over.
pub proof fn c_reads_what_was_written(bytes: Seq<u8>)
    requires
        nul_free(bytes),
    ensures
        first_nul(bytes.push(0)) == bytes.len(),
        bytes.push(0).take(first_nul(bytes.push(0))) == bytes,
{
    first_nul_is(bytes.push(0), bytes.len() as int);
    assert(bytes.push(0).take(bytes.len() as int) =~= bytes);
}

/// A byte of the encoding of a character is NUL only where the character is.
proof fn lemma_scalar_without_nul(scalar: u32)
    requires
        vstd::utf8::is_scalar(scalar),
    ensures
        nul_free(vstd::utf8::encode_scalar(scalar)) <==> scalar != 0,
        vstd::utf8::encode_scalar(scalar).len() > 0,
{
    assert(scalar <= 0x7F ==> ((scalar & 0x7F) as u8 == 0 <==> scalar == 0)) by (bit_vector);
    assert(0xC0 | ((scalar >> 6) & 0x1F) as u8 != 0) by (bit_vector);
    assert(0xE0 | ((scalar >> 12) & 0x0F) as u8 != 0) by (bit_vector);
    assert(0xF0 | ((scalar >> 18) & 0x7) as u8 != 0) by (bit_vector);
    assert(0x80 | (scalar & 0x3F) as u8 != 0) by (bit_vector);
    assert(0x80 | ((scalar >> 6) & 0x3F) as u8 != 0) by (bit_vector);
    assert(0x80 | ((scalar >> 12) & 0x3F) as u8 != 0) by (bit_vector);
    let bytes = vstd::utf8::encode_scalar(scalar);
    if scalar == 0 {
        assert(bytes[0] == 0);
    }
}

/// Of the strings there are, exactly those with the character NUL in them are refused.
pub proof fn only_the_nul_character_is_refused(s: Seq<char>)
    ensures
        nul_free(vstd::utf8::encode_utf8(s)) <==> !s.contains('\0'),
    decreases s.len(),
{
    let bytes = vstd::utf8::encode_utf8(s);
    if s.len() > 0 {
        let first = vstd::utf8::encode_scalar(s[0] as u32);
        let rest = s.drop_first();
        let tail = vstd::utf8::encode_utf8(rest);
        only_the_nul_character_is_refused(rest);
        let c: char = s[0];
        vstd::utf8::char_is_scalar(c);
        lemma_scalar_without_nul(c as u32);
        assert(c as u32 == 0 <==> c == '\0') by {
            vstd::utf8::char_u32_cast(c, c as u32);
            vstd::utf8::char_u32_cast('\0', '\0' as u32);
        }
        assert(bytes =~= first + tail);
        assert(nul_free(bytes) <==> nul_free(first) && nul_free(tail)) by {
            assert(forall|i: int| 0 <= i < first.len() ==> bytes[i] == first[i]);
            assert(forall|i: int| 0 <= i < tail.len() ==> bytes[first.len() + i] == tail[i]);
            assert forall|i: int| 0 <= i < bytes.len() && nul_free(first) && nul_free(tail) implies
                bytes[i] != 0 by {
                if i >= first.len() {
                    assert(bytes[i] == tail[i - first.len()]);
                }
            }
        }
        assert(s.contains('\0') <==> s[0] == '\0' || rest.contains('\0')) by {
            if s.contains('\0') && s[0] != '\0' {
                let i = choose|i: int| 0 <= i < s.len() && s[i] == '\0';
                assert(rest[i - 1] == '\0');
            }
            if rest.contains('\0') {
                let i = choose|i: int| 0 <= i < rest.len() && rest[i] == '\0';
                assert(s[i + 1] == '\0');
            }
        }
    }
}

/// A string argument is handed over whole, however long it is, so that two different names are
/// never the same C string.
pub proof fn different_names_are_different_c_strings(a: &str, b: &str)
    ensures
        utf8(a) == vstd::utf8::encode_utf8(a@),
        vstd::utf8::decode_utf8(utf8(a)) == a@,
        utf8(a) == utf8(b) <==> a@ == b@,
{
    vstd::utf8::encode_utf8_decode_utf8(a@);
    vstd::utf8::encode_utf8_decode_utf8(b@);
}

/// An optional string argument is left out, or handed over whole.
pub proof fn an_optional_name_is_kept(s: Option<&str>)
    ensures
        optional_utf8(s) is Some <==> s is Some,
        s matches Some(text) ==> optional_utf8(s) == Some(vstd::utf8::encode_utf8(text@)),
{
}

/// What can be a C string is what does not contain the byte 0.
pub proof fn c_strings_do_not_contain_nul(bytes: Seq<u8>)
    ensures
        nul_free(bytes) <==> !bytes.contains(0u8),
{
    if !nul_free(bytes) {
        let i = choose|i: int| 0 <= i < bytes.len() && bytes[i] == 0;
        assert(bytes.contains(bytes[i]));
    }
}

} // verus!
