//! Texts and numbers.

use vstd::prelude::*;
use vstd::utf8::{decode_utf8_encode_utf8, encode_utf8, valid_utf8};

use crate::text::{
    ascii_lower, contains_ignore_ascii_case, decimal, decimal_value, eq_ignore_ascii_case, folded,
    holds_folded, lenient_text, stands_at,
};

verus! {

/// Whether two byte strings differ in nothing but the case of ASCII letters: at each index the
/// bytes are the same, or one is a capital and the other stands 32 places behind it.
pub open spec fn same_but_case(a: Seq<u8>, b: Seq<u8>) -> bool {
    &&& a.len() == b.len()
    &&& forall|i: int|
        0 <= i < a.len() ==> {
            ||| #[trigger] a[i] == b[i]
            ||| 65 <= a[i] <= 90 && b[i] == a[i] + 32
            ||| 65 <= b[i] <= 90 && a[i] == b[i] + 32
        }
}

pub(crate) proof fn lemma_folded_alike(a: Seq<u8>, b: Seq<u8>)
    ensures
        folded(a) == folded(b) <==> same_but_case(a, b),
{
    if folded(a) == folded(b) {
        assert(folded(a).len() == a.len() && folded(b).len() == b.len());
        assert forall|i: int| 0 <= i < a.len() implies {
            ||| #[trigger] a[i] == b[i]
            ||| 65 <= a[i] <= 90 && b[i] == a[i] + 32
            ||| 65 <= b[i] <= 90 && a[i] == b[i] + 32
        } by {
            assert(folded(a)[i] == ascii_lower(a[i]));
            assert(folded(b)[i] == ascii_lower(b[i]));
        }
    }
    if same_but_case(a, b) {
        assert forall|i: int| 0 <= i < a.len() implies folded(a)[i] == folded(b)[i] by {
            assert(a[i] == a[i]);
        }
        assert(folded(a) =~= folded(b));
    }
}

/// Two byte strings are found equal exactly where they differ in nothing but the case of ASCII
/// letters.
pub proof fn law_comparing_ignores_case_alone(a: &[u8], b: &[u8], r: bool)
    requires
        call_ensures(eq_ignore_ascii_case, (a, b), r),
    ensures
        r == same_but_case(a@, b@),
        a@ == b@ ==> r,
        a@.len() != b@.len() ==> !r,
{
    lemma_folded_alike(a@, b@);
}

/// A needle is found wherever it stands, whatever is in front of it and behind it.
pub proof fn law_a_needle_is_found_anywhere(
    hay: &[u8],
    needle: &[u8],
    front: Seq<u8>,
    found: Seq<u8>,
    back: Seq<u8>,
    r: bool,
)
    requires
        call_ensures(contains_ignore_ascii_case, (hay, needle), r),
        hay@ == front + found + back,
        same_but_case(found, needle@),
    ensures
        r,
{
    lemma_folded_alike(found, needle@);
    let at = front.len() as int;
    assert(hay@.subrange(at, at + needle@.len()) =~= found);
    assert(stands_at(hay@, needle@, at));
}

/// A needle that is found does stand somewhere.
pub proof fn law_a_needle_found_is_there(hay: &[u8], needle: &[u8], r: bool)
    requires
        call_ensures(contains_ignore_ascii_case, (hay, needle), r),
        r,
    ensures
        exists|at: int|
            0 <= at <= hay@.len() - needle@.len() && same_but_case(
                #[trigger] hay@.skip(at).take(needle@.len() as int),
                needle@,
            ),
{
    assert(holds_folded(hay@, needle@));
    let at = choose|at: int| stands_at(hay@, needle@, at);
    lemma_folded_alike(hay@.subrange(at, at + needle@.len()), needle@);
    assert(hay@.skip(at).take(needle@.len() as int) =~= hay@.subrange(at, at + needle@.len()));
}

/// Bytes that are UTF-8 are read as the text that they encode, however long, and other bytes
/// as no text.
pub proof fn law_utf8_is_read_as_its_text(bytes: &[u8], text: String)
    requires
        call_ensures(lenient_text, (bytes,), text),
    ensures
        valid_utf8(bytes@) ==> encode_utf8(text@) == bytes@,
        !valid_utf8(bytes@) ==> text@ == Seq::<char>::empty(),
{
    if valid_utf8(bytes@) {
        decode_utf8_encode_utf8(bytes@);
    }
}

/// A number of one digit is that digit; any other is the digits of its tenth part and then its
/// last digit.
pub proof fn law_decimal_digits(tens: nat, ones: nat)
    requires
        ones < 10,
    ensures
        decimal(ones) == seq![(48 + ones) as u8],
        tens > 0 ==> decimal(10 * tens + ones) == decimal(tens).push((48 + ones) as u8),
        decimal_value(decimal(10 * tens + ones)) == 10 * tens + ones,
{
    crate::text::law_decimal_reads_back(10 * tens + ones);
    assert((10 * tens + ones) / 10 == tens);
    assert((10 * tens + ones) % 10 == ones);
}

} // verus!
