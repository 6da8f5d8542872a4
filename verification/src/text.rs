//! Text as the index needs it: equality, the order of sort keys, lower case,
//! and hexadecimal numerals.

use vstd::prelude::*;
use vstd::string::*;
use vstd::utf8::*;

verus! {

/// The text of an optional string.
pub open spec fn text_of(s: Option<String>) -> Option<Seq<char>> {
    match s {
        Some(t) => Some(t@),
        None => None,
    }
}

/// A copy of an optional string.
pub fn clone_text(s: &Option<String>) -> (copy: Option<String>)
    ensures
        text_of(copy) == text_of(*s),
{
    match s {
        Some(t) => Some(t.clone()),
        None => None,
    }
}

/// The lower-case form of a text, as `str::to_lowercase` of the standard
/// library gives it: Unicode's mapping, which no short formula states.
pub uninterp spec fn lowercase_of(text: Seq<char>) -> Seq<char>;

/// `str::to_lowercase`. Nothing is proved of it: the contract only gives the
/// result its name, [`lowercase_of`], a function of the text alone.
#[verifier::external_body]
pub(crate) fn to_lowercase(text: &str) -> (lower: String)
    ensures
        lower@ == lowercase_of(text@),
{
    text.to_lowercase()
}

/// Two texts with the same UTF-8 bytes are the same text.
pub proof fn lemma_bytes_determine_text(a: Seq<char>, b: Seq<char>)
    requires
        encode_utf8(a) == encode_utf8(b),
    ensures
        a == b,
{
    encode_utf8_decode_utf8(a);
    encode_utf8_decode_utf8(b);
}

/// Whether two texts are equal.
pub fn same_text(a: &str, b: &str) -> (same: bool)
    ensures
        same == (a@ == b@),
{
    let x = a.as_bytes();
    let y = b.as_bytes();
    if x.len() != y.len() {
        return false;
    }
    let mut i: usize = 0;
    while i < x.len()
        invariant
            i <= x.len(),
            x.len() == y.len(),
            x@ == encode_utf8(a@),
            y@ == encode_utf8(b@),
            forall|j: int| 0 <= j < i ==> x@[j] == y@[j],
        decreases x.len() - i,
    {
        if x[i] != y[i] {
            return false;
        }
        i += 1;
    }
    proof {
        assert(x@ =~= y@);
        lemma_bytes_determine_text(a@, b@);
    }
    true
}

/// `a` comes no later than `b` in the lexicographic order of byte strings,
/// looking only at the bytes from index `from` on.
pub open spec fn bytes_le_from(a: Seq<u8>, b: Seq<u8>, from: int) -> bool
    decreases a.len() - from,
{
    if from < 0 || from >= a.len() {
        true
    } else if from >= b.len() {
        false
    } else if a[from] != b[from] {
        a[from] < b[from]
    } else {
        bytes_le_from(a, b, from + 1)
    }
}

/// The order in which the standard library compares strings: texts are
/// ordered lexicographically by the bytes of their UTF-8 form, which is also
/// the order of their code points.
pub open spec fn text_le(a: Seq<char>, b: Seq<char>) -> bool {
    bytes_le_from(encode_utf8(a), encode_utf8(b), 0)
}

/// Whether `a` comes no later than `b` in the order [`text_le`].
pub fn text_no_later(a: &str, b: &str) -> (le: bool)
    ensures
        le == text_le(a@, b@),
{
    let x = a.as_bytes();
    let y = b.as_bytes();
    let mut i: usize = 0;
    while i < x.len()
        invariant
            i <= x.len(),
            x@ == encode_utf8(a@),
            y@ == encode_utf8(b@),
            bytes_le_from(x@, y@, 0) == bytes_le_from(x@, y@, i as int),
        decreases x.len() - i,
    {
        if i >= y.len() {
            return false;
        }
        if x[i] != y[i] {
            return x[i] < y[i];
        }
        i += 1;
    }
    true
}

/// Every byte string comes no later than itself.
pub proof fn lemma_bytes_le_reflexive(a: Seq<u8>, from: int)
    ensures
        bytes_le_from(a, a, from),
    decreases a.len() - from,
{
    if 0 <= from < a.len() {
        lemma_bytes_le_reflexive(a, from + 1);
    }
}

/// Of two byte strings one comes no later than the other.
pub proof fn lemma_bytes_le_total(a: Seq<u8>, b: Seq<u8>, from: int)
    requires
        0 <= from,
    ensures
        bytes_le_from(a, b, from) || bytes_le_from(b, a, from),
    decreases a.len() - from,
{
    if from < a.len() && from < b.len() && a[from] == b[from] {
        lemma_bytes_le_total(a, b, from + 1);
    }
}

/// What comes no later than a byte string comes no later than anything
/// behind that byte string.
pub proof fn lemma_bytes_le_transitive(a: Seq<u8>, b: Seq<u8>, c: Seq<u8>, from: int)
    requires
        0 <= from,
        bytes_le_from(a, b, from),
        bytes_le_from(b, c, from),
    ensures
        bytes_le_from(a, c, from),
    decreases a.len() - from,
{
    if from < a.len() && a[from] == b[from] && b[from] == c[from] {
        lemma_bytes_le_transitive(a, b, c, from + 1);
    }
}

/// Two byte strings of which each comes no later than the other, looking
/// from `from` on, are equal from there on.
pub proof fn lemma_bytes_le_antisymmetric(a: Seq<u8>, b: Seq<u8>, from: int)
    requires
        0 <= from <= a.len(),
        from <= b.len(),
        bytes_le_from(a, b, from),
        bytes_le_from(b, a, from),
    ensures
        a.len() == b.len(),
        forall|i: int| from <= i < a.len() ==> a[i] == b[i],
    decreases a.len() - from,
{
    if from < a.len() {
        lemma_bytes_le_antisymmetric(a, b, from + 1);
    }
}

/// [`text_le`] is a total order on texts: reflexive, total, transitive and
/// antisymmetric.
pub proof fn lemma_text_le_is_total_order(a: Seq<char>, b: Seq<char>, c: Seq<char>)
    ensures
        text_le(a, a),
        text_le(a, b) || text_le(b, a),
        text_le(a, b) && text_le(b, c) ==> text_le(a, c),
        text_le(a, b) && text_le(b, a) ==> a == b,
{
    let (x, y, z) = (encode_utf8(a), encode_utf8(b), encode_utf8(c));
    lemma_bytes_le_reflexive(x, 0);
    lemma_bytes_le_total(x, y, 0);
    if text_le(a, b) && text_le(b, c) {
        lemma_bytes_le_transitive(x, y, z, 0);
    }
    if text_le(a, b) && text_le(b, a) {
        lemma_bytes_le_antisymmetric(x, y, 0);
        assert(x =~= y);
        lemma_bytes_determine_text(a, b);
    }
}

/// The sixteen hexadecimal digits, lower case.
pub open spec fn hex_digits() -> Seq<char> {
    seq!['0', '1', '2', '3', '4', '5', '6', '7', '8', '9', 'a', 'b', 'c', 'd', 'e', 'f']
}

/// The hexadecimal numeral of a number: lower-case digits, most significant
/// first, no leading zero, and `0` for zero.
pub open spec fn hex_of(value: nat) -> Seq<char>
    decreases value,
{
    if value < 16 {
        seq![hex_digits()[value as int]]
    } else {
        hex_of(value / 16).push(hex_digits()[(value % 16) as int])
    }
}

/// One hexadecimal digit as a text.
fn hex_digit(digit: u64) -> (text: &'static str)
    requires
        digit < 16,
    ensures
        text@ == seq![hex_digits()[digit as int]],
{
    let digits = "0123456789abcdef";
    proof {
        reveal_strlit("0123456789abcdef");
        assert(digits@ =~= hex_digits());
    }
    let index = digit as usize;
    let text = digits.substring_char(index, index + 1);
    assert(text@ =~= seq![hex_digits()[digit as int]]);
    text
}

/// The hexadecimal numeral of `value`.
pub fn to_hex(value: u64) -> (hex: String)
    ensures
        hex@ == hex_of(value as nat),
    decreases value,
{
    let last = hex_digit(value % 16);
    if value < 16 {
        String::from_str(last)
    } else {
        let mut hex = to_hex(value / 16);
        hex.append(last);
        assert(hex@ =~= hex_of((value / 16) as nat).push(hex_digits()[(value % 16) as int]));
        hex
    }
}

} // verus!
