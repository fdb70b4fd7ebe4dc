//! What numerals, digits and lists promise.

use vstd::prelude::*;
use vstd::string::*;
use vstd::utf8::*;

use crate::security::error::SecurityErrorView;
use crate::text;

verus! {

proof fn lemma_decimal(n: nat)
    ensures
        text::decimal(n).len() > 0,
        forall|i: int| 0 <= i < text::decimal(n).len() ==> '0' <= #[trigger] text::decimal(n)[i] <= '9',
        is_ascii_chars(text::decimal(n)),
        text::decimal_number(encode_utf8(text::decimal(n))) == Some(n),
        encode_utf8(text::decimal(n)).len() == text::decimal(n).len(),
        encode_utf8(text::decimal(n))[0] != 43,
        n > 0 ==> text::decimal(n)[0] != '0',
    decreases n,
{
    let t = text::decimal(n);
    if n >= 10 {
        lemma_decimal(n / 10);
        let front = text::decimal(n / 10);
        assert forall|i: int| 0 <= i < t.len() implies '0' <= #[trigger] t[i] <= '9' by {
            if i < front.len() {
                assert(t[i] == front[i]);
            }
        }
        assert(t[0] == front[0]);
    }
    assert forall|i: int| 0 <= i < t.len() implies (#[trigger] t[i]) as nat <= 127 by {
        assert('0' <= t[i] <= '9');
    }
    assert(is_ascii_chars(t));
    is_ascii_chars_encode_utf8(t);
    let d = encode_utf8(t);
    assert(d[0] == t[0] as u8);
    if n < 10 {
        assert(d.len() == 1);
        assert(d.drop_last() =~= Seq::empty());
        assert(text::decimal_number(Seq::empty()) == Some(0nat));
        assert(d.last() == t[0] as u8);
        assert(text::decimal_number(d) == Some(n));
    } else {
        let front = text::decimal(n / 10);
        is_ascii_chars_encode_utf8(front);
        let f = encode_utf8(front);
        assert(t.drop_last() =~= front);
        assert forall|i: int| 0 <= i < f.len() implies d[i] == f[i] by {
            assert(d[i] == t[i] as u8);
            assert(f[i] == front[i] as u8);
        }
        assert(d.drop_last() =~= f);
        assert(d.last() == t.last() as u8);
        assert(d.last() - 48 == n % 10);
    }
}

/// The decimal numeral of a number is made of decimal digits, begins with no needless zero,
/// and reads back as the number; one that is too large for 16 bits is no such number.
pub proof fn law_decimal_roundtrip(n: nat)
    ensures
        forall|i: int| 0 <= i < text::decimal(n).len() ==> '0' <= #[trigger] text::decimal(n)[i] <= '9',
        n > 0 ==> text::decimal(n)[0] != '0',
        text::decimal_number(encode_utf8(text::decimal(n))) == Some(n),
        text::decimal_u16(encode_utf8(text::decimal(n))) == (if n < 65536 {
            Some(n as u16)
        } else {
            None
        }),
{
    lemma_decimal(n);
}

/// Bytes are written with two digits each, small or capital as the name says, and the
/// capital ones read back as the bytes too.
pub proof fn law_hex_digits(bytes: Seq<u8>, i: int)
    requires
        0 <= i < 2 * bytes.len(),
    ensures
        text::hex_text(bytes).len() == 2 * bytes.len(),
        '0' <= text::hex_text(bytes)[i] <= '9' || 'a' <= text::hex_text(bytes)[i] <= 'f',
        text::upper_hex_text(bytes).len() == 2 * bytes.len(),
        '0' <= text::upper_hex_text(bytes)[i] <= '9' || 'A' <= text::upper_hex_text(bytes)[i] <= 'F',
        text::is_hex(encode_utf8(text::upper_hex_text(bytes))),
        text::hex_bytes(encode_utf8(text::upper_hex_text(bytes))) == bytes,
{
    let t = text::upper_hex_text(bytes);
    assert forall|k: int| 0 <= k < t.len() implies (#[trigger] t[k]) as nat <= 127 by {}
    assert(is_ascii_chars(t));
    is_ascii_chars_encode_utf8(t);
    let d = encode_utf8(t);
    assert forall|k: int| 0 <= k < d.len() implies text::hex_value(#[trigger] d[k]) is Some by {
        assert(d[k] == t[k] as u8);
    }
    assert forall|k: int| 0 <= k < bytes.len() implies text::hex_bytes(d)[k] == bytes[k] by {
        assert(d[2 * k] == t[2 * k] as u8);
        assert(d[2 * k + 1] == t[2 * k + 1] as u8);
        assert((2 * k) / 2 == k);
        assert((2 * k + 1) / 2 == k);
        assert(text::hex_value(d[2 * k]) == Some(bytes[k] as nat / 16));
        assert(text::hex_value(d[2 * k + 1]) == Some(bytes[k] as nat % 16));
    }
    assert(text::hex_bytes(d) =~= bytes);
}

proof fn lemma_pieces(a: Seq<char>, b: Seq<char>)
    ensures
        text::comma_pieces(b).len() > 0,
        text::comma_pieces(a + seq![','] + b) == text::comma_pieces(a) + text::comma_pieces(b),
    decreases b.len(),
{
    let all = a + seq![','] + b;
    if b.len() == 0 {
        assert(all.drop_last() =~= a);
        assert(all.last() == ',');
        assert(text::comma_pieces(all) =~= text::comma_pieces(a) + text::comma_pieces(b));
    } else {
        let front = b.drop_last();
        lemma_pieces(a, front);
        assert(all.drop_last() =~= a + seq![','] + front);
        assert(all.last() == b.last());
        let x = text::comma_pieces(a);
        let y = text::comma_pieces(front);
        if b.last() == ',' {
            assert((x + y).push(Seq::empty()) =~= x + y.push(Seq::empty()));
        } else {
            assert((x + y).last() == y.last());
            assert((x + y).drop_last().push(y.last().push(b.last())) =~= x + y.drop_last().push(
                y.last().push(b.last()),
            ));
        }
    }
}

proof fn lemma_trimmed_pieces(x: Seq<Seq<char>>, y: Seq<Seq<char>>)
    ensures
        text::trimmed_pieces(x + y) == text::trimmed_pieces(x) + text::trimmed_pieces(y),
    decreases y.len(),
{
    if y.len() == 0 {
        assert(x + y =~= x);
        assert(text::trimmed_pieces(x) + text::trimmed_pieces(y) =~= text::trimmed_pieces(x));
    } else {
        lemma_trimmed_pieces(x, y.drop_last());
        assert((x + y).drop_last() =~= x + y.drop_last());
        assert((x + y).last() == y.last());
        let piece = text::trim_text(y.last());
        if piece.len() > 0 {
            assert((text::trimmed_pieces(x) + text::trimmed_pieces(y.drop_last())).push(piece) =~= text::trimmed_pieces(
                x,
            ) + text::trimmed_pieces(y.drop_last()).push(piece));
        }
    }
}

proof fn lemma_one_piece(s: Seq<char>)
    requires
        !s.contains(','),
    ensures
        text::comma_pieces(s) == seq![s],
    decreases s.len(),
{
    if s.len() > 0 {
        let front = s.drop_last();
        assert(!front.contains(',')) by {
            if front.contains(',') {
                let i = choose|i: int| 0 <= i < front.len() && front[i] == ',';
                assert(s[i] == ',');
            }
        }
        lemma_one_piece(front);
        assert(s[s.len() - 1] == s.last());
        assert(front.push(s.last()) =~= s);
        assert(seq![front].drop_last().push(s) =~= seq![s]);
    } else {
        assert(s =~= Seq::empty());
    }
}

/// A list is what stands between its commas: the items of two lists with a comma between
/// them are the items of the one and then those of the other, and a text without a comma is
/// one item, without the white space at its ends, or none where nothing else is left.
pub proof fn law_lists(a: Seq<char>, b: Seq<char>)
    ensures
        text::list_items(a + seq![','] + b) == text::list_items(a) + text::list_items(b),
        !a.contains(',') ==> text::list_items(a) == (if text::trim_text(a).len() > 0 {
            seq![text::trim_text(a)]
        } else {
            Seq::empty()
        }),
{
    lemma_pieces(a, b);
    lemma_trimmed_pieces(text::comma_pieces(a), text::comma_pieces(b));
    if !a.contains(',') {
        lemma_one_piece(a);
        reveal_with_fuel(text::trimmed_pieces, 2);
        assert(seq![a].drop_last() =~= Seq::empty());
        assert(text::trimmed_pieces(seq![a]) =~= if text::trim_text(a).len() > 0 {
            seq![text::trim_text(a)]
        } else {
            Seq::empty()
        });
    }
}

/// An error reads as what kind it is and then what it says: errors that read the same are
/// the same.
pub proof fn law_error_texts(a: SecurityErrorView, b: SecurityErrorView)
    ensures
        a.text() == b.text() ==> a == b,
{
    reveal_strlit("invalid public key: ");
    reveal_strlit("invalid signature: ");
    reveal_strlit("keypair error: ");
    reveal_strlit("serialization error: ");
    reveal_strlit("certificate error: ");
    reveal_strlit("internal error: ");
    assert("invalid public key: "@.len() == 20 && "invalid signature: "@.len() == 19 && "keypair error: "@.len() == 15
        && "serialization error: "@.len() == 21 && "certificate error: "@.len() == 19 && "internal error: "@.len() == 16);
    assert("invalid public key: "@[0] == 'i' && "invalid public key: "@[2] == 'v' && "invalid public key: "@[8] == 'p');
    assert("invalid signature: "@[0] == 'i' && "invalid signature: "@[2] == 'v' && "invalid signature: "@[8] == 's');
    assert("internal error: "@[0] == 'i' && "internal error: "@[2] == 't');
    assert("keypair error: "@[0] == 'k' && "serialization error: "@[0] == 's' && "certificate error: "@[0] == 'c');
    if a.text() == b.text() {
        assert(a.text()[0] == b.text()[0] && a.text()[2] == b.text()[2] && a.text()[8] == b.text()[8]);
        let n = match a {
            SecurityErrorView::InvalidPublicKey(s) => 20int,
            SecurityErrorView::InvalidSignature(s) => 19,
            SecurityErrorView::KeypairError(s) => 15,
            SecurityErrorView::SerializationError(s) => 21,
            SecurityErrorView::CertificateError(s) => 19,
            SecurityErrorView::Internal(s) => 16,
        };
        let x = match a {
            SecurityErrorView::InvalidPublicKey(s) => s,
            SecurityErrorView::InvalidSignature(s) => s,
            SecurityErrorView::KeypairError(s) => s,
            SecurityErrorView::SerializationError(s) => s,
            SecurityErrorView::CertificateError(s) => s,
            SecurityErrorView::Internal(s) => s,
        };
        let y = match b {
            SecurityErrorView::InvalidPublicKey(s) => s,
            SecurityErrorView::InvalidSignature(s) => s,
            SecurityErrorView::KeypairError(s) => s,
            SecurityErrorView::SerializationError(s) => s,
            SecurityErrorView::CertificateError(s) => s,
            SecurityErrorView::Internal(s) => s,
        };
        assert(a.text().skip(n) =~= x);
        assert(b.text().skip(n) =~= y);
    }
}

/// A sign in front of a numeral changes nothing, no digits are no number, and neither is a
/// sign alone; a hexadecimal numeral that is too large for 32 bits is no such number.
pub proof fn law_numerals(d: Seq<u8>)
    ensures
        text::decimal_u16(Seq::empty()) is None,
        text::hex_u32(Seq::empty()) is None,
        text::decimal_u16(seq![43u8]) is None,
        text::hex_u32(seq![43u8]) is None,
        d.len() > 0 && d[0] != 43 ==> text::decimal_u16(seq![43u8] + d) == text::decimal_u16(d),
        d.len() > 0 && d[0] != 43 ==> text::hex_u32(seq![43u8] + d) == text::hex_u32(d),
        d.len() > 0 && d[0] != 43 ==> (text::hex_u32(d) is Some <==> text::hex_number(d) is Some && text::hex_number(
            d,
        )->Some_0 <= u32::MAX),
        d.len() > 0 && d[0] != 43 && text::hex_u32(d) is Some ==> text::hex_u32(d)->Some_0 == text::hex_number(d)->Some_0,
{
    assert((seq![43u8] + d).skip(1) =~= d);
    assert(seq![43u8].drop_last() =~= Seq::empty());
    assert(seq![43u8].last() == 43);
}

} // verus!
