//! Helpers over byte strings and text.
use vstd::prelude::*;

verus! {

broadcast use vstd::array::axiom_array_ext_equal;

/// Two arrays with the same contents are the same value.
pub proof fn lemma_same_array<const N: usize>(a: [u8; N], b: [u8; N])
    requires
        a@ == b@,
    ensures
        a == b,
{
    assert forall|i: int| 0 <= i < N implies a[i] == b[i] by {
        assert(a@[i] == b@[i]);
    }
    assert(a =~= b);
}

/// Tells whether two byte strings are equal.
pub fn same_bytes(a: &[u8], b: &[u8]) -> (same: bool)
    ensures
        same == (a@ == b@),
{
    if a.len() != b.len() {
        return false;
    }
    let n: usize = a.len();
    let mut i: usize = 0;
    while i < n
        invariant
            i <= n,
            n == a@.len(),
            n == b@.len(),
            forall|k: int| 0 <= k < i ==> a@[k] == b@[k],
        decreases n - i,
    {
        if a[i] != b[i] {
            return false;
        }
        i += 1;
    }
    assert(a@ =~= b@);
    true
}

/// Tells whether two arrays are equal.
pub fn same_array<const N: usize>(a: &[u8; N], b: &[u8; N]) -> (same: bool)
    ensures
        same == (*a == *b),
{
    let same = same_bytes(a.as_slice(), b.as_slice());
    proof {
        if same {
            lemma_same_array(*a, *b);
        }
    }
    same
}

/// A copy of a byte string.
pub fn copy_bytes(bytes: &Vec<u8>) -> (copied: Vec<u8>)
    ensures
        copied@ == bytes@,
{
    vstd::slice::slice_to_vec(bytes.as_slice())
}

/// The decimal digits of a number, the most significant first.
pub open spec fn decimal(n: nat) -> Seq<char>
    decreases n,
{
    if n < 10 {
        seq![('0' as u8 + n) as u8 as char]
    } else {
        decimal(n / 10).push(('0' as u8 + n % 10) as u8 as char)
    }
}

/// The text of a number in decimal.
///
/// Calls std's `Display` of `u64` through `format!`, which writes the number in decimal
/// without sign, padding or separators. That is the claim of the contract.
#[verifier::external_body]
pub(crate) fn decimal_text(n: u64) -> (text: String)
    ensures
        text@ == decimal(n as nat),
{
    format!("{}", n)
}

/// What std's `Debug` writes for a text: the text in quotes, with escapes.
pub uninterp spec fn debug_text_of(text: Seq<char>) -> Seq<char>;

/// The quoted and escaped form of a text.
///
/// Calls std's `Debug` of `str` through `format!`. The contract claims only that the result is a
/// function of the text.
#[verifier::external_body]
pub(crate) fn debug_text(text: &str) -> (quoted: String)
    ensures
        quoted@ == debug_text_of(text@),
{
    format!("{:?}", text)
}

/// One text followed by another.
pub fn concat_text(prefix: &str, rest: &str) -> (text: String)
    ensures
        text@ == prefix@ + rest@,
{
    let mut text: String = prefix.to_owned();
    text.append(rest);
    text
}

/// The decimal form of a number ends with its last digit, after the form of the number without that
/// digit; a number of one digit has nothing before it.
pub proof fn law_decimal_digits(n: nat)
    ensures
        decimal(n).len() > 0,
        decimal(n).last() as int == 48 + n % 10,
        n < 10 ==> decimal(n).len() == 1,
        n >= 10 ==> decimal(n).drop_last() == decimal(n / 10),
    decreases n,
{
    if n >= 10 {
        assert(decimal(n).drop_last() =~= decimal(n / 10));
    }
}

/// Two numbers have the same decimal form only where they are the same.
pub proof fn law_decimal_tells_numbers_apart(a: nat, b: nat)
    ensures
        decimal(a) == decimal(b) ==> a == b,
    decreases a,
{
    law_decimal_digits(a);
    law_decimal_digits(b);
    if decimal(a) == decimal(b) {
        if a >= 10 && b >= 10 {
            law_decimal_tells_numbers_apart(a / 10, b / 10);
        } else if a >= 10 {
            law_decimal_digits(a / 10);
        } else if b >= 10 {
            law_decimal_digits(b / 10);
        }
    }
}

} // verus!
