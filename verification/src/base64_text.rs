//! Base64 with the standard alphabet and padding.

use base64::Engine;
use vstd::prelude::*;
use vstd::string::*;

verus! {

/// The character that stands for a number below 64.
pub open spec fn base64_char(n: nat) -> char {
    if n < 26 {
        ('A' as u32 + n) as char
    } else if n < 52 {
        ('a' as u32 + n - 26) as char
    } else if n < 62 {
        ('0' as u32 + n - 52) as char
    } else if n == 62 {
        '+'
    } else {
        '/'
    }
}

/// The byte at a position, or 0 behind the end.
pub open spec fn byte_at(bytes: Seq<u8>, i: int) -> nat {
    if i < bytes.len() {
        bytes[i] as nat
    } else {
        0
    }
}

/// The six bits that the character at position `i` of the encoding stands for.
pub open spec fn sextet(bytes: Seq<u8>, i: int) -> nat {
    let at = i / 4 * 3;
    if i % 4 == 0 {
        byte_at(bytes, at) / 4
    } else if i % 4 == 1 {
        byte_at(bytes, at) % 4 * 16 + byte_at(bytes, at + 1) / 16
    } else if i % 4 == 2 {
        byte_at(bytes, at + 1) % 16 * 4 + byte_at(bytes, at + 2) / 64
    } else {
        byte_at(bytes, at + 2) % 64
    }
}

/// The encoding: four characters for every three bytes begun; a character that no
/// byte reaches is padding.
pub open spec fn base64_text(bytes: Seq<u8>) -> Seq<char> {
    Seq::new(
        ((bytes.len() + 2) / 3 * 4) as nat,
        |i: int|
            if i / 4 * 3 + i % 4 > bytes.len() {
                '='
            } else {
                base64_char(sextet(bytes, i))
            },
    )
}

/// What `base64` says of a text that is no encoding.
pub uninterp spec fn base64_error_text(encoded: Seq<char>) -> Seq<char>;

/// Calls `base64::Engine::encode` with `STANDARD`: the encoding. The text must not
/// be longer than memory can be.
#[verifier::external_body]
pub(crate) fn encode_base64(bytes: &[u8]) -> (r: String)
    requires
        bytes@.len() <= usize::MAX / 4,
    ensures
        r@ == base64_text(bytes@),
{
    base64::engine::general_purpose::STANDARD.encode(bytes)
}

/// Calls `base64::Engine::decode` with `STANDARD`, which takes the one encoding that
/// bytes have and nothing else: no missing padding and no stray bits.
#[verifier::external_body]
pub(crate) fn decode_base64(encoded: &str) -> (r: Result<Vec<u8>, String>)
    ensures
        match r {
            Ok(bytes) => encoded@ == base64_text(bytes@),
            Err(e) => e@ == base64_error_text(encoded@) && forall|bytes: Seq<u8>|
                encoded@ != #[trigger] base64_text(bytes),
        },
{
    base64::engine::general_purpose::STANDARD.decode(encoded).map_err(|e| e.to_string())
}

/// The bytes that a text encodes; none where it is no encoding.
pub open spec fn base64_bytes(encoded: Seq<char>) -> Option<Seq<u8>> {
    if exists|bytes: Seq<u8>| encoded == #[trigger] base64_text(bytes) {
        Some(choose|bytes: Seq<u8>| encoded == #[trigger] base64_text(bytes))
    } else {
        None
    }
}

proof fn lemma_base64_char(a: nat, b: nat)
    requires
        a < 64,
        b < 64,
    ensures
        base64_char(a) != '=',
        base64_char(a) == base64_char(b) ==> a == b,
{
}

proof fn lemma_sextet_bound(bytes: Seq<u8>, i: int)
    requires
        i >= 0,
    ensures
        sextet(bytes, i) < 64,
{
}

/// No two byte sequences have the same encoding.
pub proof fn law_base64_injective(a: Seq<u8>, b: Seq<u8>)
    requires
        base64_text(a) == base64_text(b),
    ensures
        a == b,
{
    let t = base64_text(a);
    let u = base64_text(b);
    assert(t.len() == u.len());
    assert forall|i: int| 0 <= i < t.len() implies (i / 4 * 3 + i % 4 > a.len() <==> i / 4 * 3 + i % 4 > b.len()) && (i
        / 4 * 3 + i % 4 <= a.len() ==> sextet(a, i) == sextet(b, i)) by {
        lemma_sextet_bound(a, i);
        lemma_sextet_bound(b, i);
        lemma_base64_char(sextet(a, i), sextet(b, i));
        lemma_base64_char(sextet(b, i), sextet(a, i));
        assert(t[i] == u[i]);
    }
    if a.len() != b.len() {
        let small = if a.len() < b.len() {
            a.len() as int
        } else {
            b.len() as int
        };
        let groups = (a.len() + 2) / 3;
        assert(groups == (b.len() + 2) / 3);
        let g = groups - 1;
        assert(3 * g < small + 3);
        // The first position whose byte only the longer one reaches.
        let k = small + 1 - 3 * g;
        let i = 4 * g + k;
        assert(0 <= k < 4);
        assert(i / 4 == g && i % 4 == k);
        assert(i / 4 * 3 + i % 4 == small + 1);
        assert(0 <= i < t.len());
        assert(sextet(a, i) >= 0);
    }
    assert forall|j: int| 0 <= j < a.len() implies a[j] == b[j] by {
        let g = j / 3;
        let i0 = 4 * g;
        assert(i0 / 4 == g && i0 % 4 == 0);
        let i1 = 4 * g + 1;
        assert(i1 / 4 == g && i1 % 4 == 1);
        let i2 = 4 * g + 2;
        assert(i2 / 4 == g && i2 % 4 == 2);
        let i3 = 4 * g + 3;
        assert(i3 / 4 == g && i3 % 4 == 3);
        assert(0 <= i0 && i3 < t.len());
        assert(sextet(a, i0) == sextet(b, i0));
        assert(sextet(a, i1) == sextet(b, i1));
        if j % 3 == 0 {
            assert(j == 3 * g);
            assert(byte_at(a, 3 * g) / 4 == byte_at(b, 3 * g) / 4);
        } else {
            assert(sextet(a, i2) == sextet(b, i2));
            if j % 3 == 2 {
                assert(sextet(a, i3) == sextet(b, i3));
            }
        }
    }
    assert(a =~= b);
}

/// Decoding an encoding gives the bytes back, and what decodes is the encoding of its
/// bytes.
pub proof fn law_base64_roundtrip(bytes: Seq<u8>, encoded: Seq<char>)
    ensures
        base64_bytes(base64_text(bytes)) == Some(bytes),
        base64_bytes(encoded) is Some ==> base64_text(base64_bytes(encoded)->Some_0) == encoded,
{
    let back = choose|b: Seq<u8>| base64_text(bytes) == #[trigger] base64_text(b);
    law_base64_injective(bytes, back);
}

} // verus!
