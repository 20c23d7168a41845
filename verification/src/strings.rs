//! Strings as sequences of characters: the few operations on `String` that
//! the engine needs beyond those the verifier's library specifies.

use vstd::prelude::*;
use vstd::std_specs::iter::IteratorSpec;

verus! {

/// `String::push` of the standard library: the character is appended to the
/// end of the string.
#[verifier::external_body]
pub(crate) fn string_push(text: &mut String, c: char)
    ensures
        final(text)@ == old(text)@.push(c),
{
    text.push(c);
}

/// `String::pop` of the standard library: the last character is removed and
/// returned; an empty string stays empty and gives `None`.
#[verifier::external_body]
pub(crate) fn string_pop(text: &mut String) -> (r: Option<char>)
    ensures
        old(text)@.len() == 0 ==> r is None && final(text)@ == old(text)@,
        old(text)@.len() > 0 ==> r == Some(old(text)@.last()) && final(text)@ == old(text)@.drop_last(),
{
    text.pop()
}

/// Whether two strings hold the same characters.
pub fn str_eq(a: &str, b: &str) -> (r: bool)
    ensures
        r == (a@ == b@),
{
    broadcast use vstd::string::group_string_axioms;

    let mut rest_a = a.chars();
    let mut rest_b = b.chars();
    let ghost mut same: Seq<char> = Seq::empty();
    assert(a@ =~= same + rest_a.remaining());
    assert(b@ =~= same + rest_b.remaining());
    loop
        invariant
            a@ == same + rest_a.remaining(),
            b@ == same + rest_b.remaining(),
            rest_a.decrease() is Some,
        decreases rest_a.decrease()->0,
    {
        let ghost left = rest_a.remaining();
        let ghost right = rest_b.remaining();
        match (rest_a.next(), rest_b.next()) {
            (None, None) => {
                return true;
            },
            (Some(x), Some(y)) => {
                if x != y {
                    assert(a@[same.len() as int] == x);
                    assert(b@[same.len() as int] == y);
                    return false;
                }
                proof {
                    assert(left =~= seq![x] + rest_a.remaining());
                    assert(right =~= seq![y] + rest_b.remaining());
                    assert(a@ =~= same.push(x) + rest_a.remaining());
                    assert(b@ =~= same.push(x) + rest_b.remaining());
                    same = same.push(x);
                }
            },
            _ => {
                assert(a@.len() != b@.len());
                return false;
            },
        }
    }
}

/// The decimal digit for a value below ten.
pub open spec fn digit_char(d: int) -> char {
    (48 + d) as char
}

/// The decimal notation of a natural number.
pub open spec fn decimal(n: nat) -> Seq<char>
    decreases n,
{
    if n < 10 {
        seq![digit_char(n as int)]
    } else {
        decimal(n / 10).push(digit_char((n % 10) as int))
    }
}

/// Writes a number in decimal notation.
pub fn decimal_string(n: usize) -> (r: String)
    ensures
        r@ == decimal(n as nat),
    decreases n,
{
    let digit = (48u8 + (n % 10) as u8) as char;
    if n < 10 {
        let mut text = String::new();
        string_push(&mut text, digit);
        assert(text@ =~= seq![digit_char(n as int)]);
        text
    } else {
        let mut text = decimal_string(n / 10);
        string_push(&mut text, digit);
        text
    }
}

} // verus!
