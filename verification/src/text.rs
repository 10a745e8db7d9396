//! Text as bytes: decimal numbers, comparison without regard to case, UTF-8.

use vstd::prelude::*;
use vstd::slice::slice_subrange;
use vstd::utf8::{decode_utf8, encode_utf8, encode_utf8_decode_utf8, valid_utf8};

verus! {

/// The decimal digits of `n` in ASCII, without leading zeros.
pub open spec fn decimal(n: nat) -> Seq<u8>
    decreases n,
{
    if n < 10 {
        seq![(48 + n) as u8]
    } else {
        decimal(n / 10).push((48 + n % 10) as u8)
    }
}

/// `itoa::Buffer::format`: prints the number in decimal.
#[verifier::external_body]
pub(crate) fn format_decimal(n: usize) -> (digits: Vec<u8>)
    ensures
        digits@ == decimal(n as nat),
{
    itoa::Buffer::new().format(n).as_bytes().to_vec()
}

/// The number that ASCII digits stand for in decimal.
pub open spec fn decimal_value(digits: Seq<u8>) -> int
    decreases digits.len(),
{
    if digits.len() == 0 {
        0
    } else {
        decimal_value(digits.drop_last()) * 10 + (digits.last() - 48)
    }
}

/// Decimal digits read back as the number they were printed from, and hold nothing but
/// digits.
pub proof fn law_decimal_reads_back(n: nat)
    ensures
        decimal(n).len() > 0,
        forall|i: int| 0 <= i < decimal(n).len() ==> 48 <= #[trigger] decimal(n)[i] <= 57,
        decimal_value(decimal(n)) == n,
    decreases n,
{
    if n < 10 {
        assert(decimal(n).drop_last() =~= Seq::empty());
        assert(decimal_value(Seq::<u8>::empty()) == 0);
    } else {
        law_decimal_reads_back(n / 10);
        assert(decimal(n).drop_last() =~= decimal(n / 10));
    }
}

/// A byte with an ASCII capital replaced by its small letter.
pub open spec fn ascii_lower(b: u8) -> u8 {
    if 65 <= b <= 90 {
        (b + 32) as u8
    } else {
        b
    }
}

/// Bytes with every ASCII capital replaced by its small letter.
pub open spec fn folded(bytes: Seq<u8>) -> Seq<u8> {
    Seq::new(bytes.len(), |i: int| ascii_lower(bytes[i]))
}

fn lower(b: u8) -> (r: u8)
    ensures
        r == ascii_lower(b),
{
    if 65 <= b && b <= 90 {
        b + 32
    } else {
        b
    }
}

/// Whether two byte strings are the same but for the case of ASCII letters.
pub fn eq_ignore_ascii_case(a: &[u8], b: &[u8]) -> (r: bool)
    ensures
        r == (folded(a@) == folded(b@)),
{
    if a.len() != b.len() {
        assert(folded(a@).len() != folded(b@).len());
        return false;
    }
    let mut i: usize = 0;
    while i < a.len()
        invariant
            i <= a@.len() == b@.len(),
            forall|j: int| 0 <= j < i ==> folded(a@)[j] == folded(b@)[j],
        decreases a@.len() - i,
    {
        if lower(a[i]) != lower(b[i]) {
            assert(folded(a@)[i as int] != folded(b@)[i as int]);
            return false;
        }
        i += 1;
    }
    assert(folded(a@) =~= folded(b@));
    true
}

/// Whether `needle` stands at index `i` of `hay`, but for the case of ASCII letters.
pub open spec fn stands_at(hay: Seq<u8>, needle: Seq<u8>, i: int) -> bool {
    &&& 0 <= i <= hay.len() - needle.len()
    &&& folded(hay.subrange(i, i + needle.len())) == folded(needle)
}

/// Whether `needle` stands somewhere in `hay`, but for the case of ASCII letters.
pub open spec fn holds_folded(hay: Seq<u8>, needle: Seq<u8>) -> bool {
    exists|i: int| stands_at(hay, needle, i)
}

/// Whether `needle` stands somewhere in `hay`, but for the case of ASCII letters.
pub fn contains_ignore_ascii_case(hay: &[u8], needle: &[u8]) -> (r: bool)
    ensures
        r == holds_folded(hay@, needle@),
{
    if hay.len() < needle.len() {
        return false;
    }
    let mut i: usize = 0;
    while i <= hay.len() - needle.len()
        invariant
            needle@.len() <= hay@.len(),
            i <= hay@.len() - needle@.len() + 1,
            forall|j: int| 0 <= j < i ==> !stands_at(hay@, needle@, j),
        decreases hay@.len() - needle@.len() + 1 - i,
    {
        if eq_ignore_ascii_case(slice_subrange(hay, i, i + needle.len()), needle) {
            assert(stands_at(hay@, needle@, i as int));
            return true;
        }
        if i == hay.len() - needle.len() {
            return false;
        }
        i += 1;
    }
    false
}

/// `std::str::from_utf8`: the text that the bytes encode, if they are valid UTF-8.
#[verifier::external_body]
fn from_utf8(bytes: &[u8]) -> (r: Option<&str>)
    ensures
        match r {
            Some(text) => valid_utf8(bytes@) && encode_utf8(text@) == bytes@,
            None => !valid_utf8(bytes@),
        },
{
    std::str::from_utf8(bytes).ok()
}

/// The text that bytes encode in UTF-8, or no text if they are not UTF-8.
pub open spec fn text_or_empty(bytes: Seq<u8>) -> Seq<char> {
    if valid_utf8(bytes) {
        decode_utf8(bytes)
    } else {
        Seq::empty()
    }
}

/// Reads bytes as UTF-8, and as no text at all if they are not.
pub fn lenient_text(bytes: &[u8]) -> (text: String)
    ensures
        text@ == text_or_empty(bytes@),
{
    match from_utf8(bytes) {
        Some(text) => {
            proof {
                encode_utf8_decode_utf8(text@);
            }
            text.to_owned()
        },
        None => String::new(),
    }
}

} // verus!
