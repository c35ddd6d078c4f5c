//! The `snake_case` template filter.
use vstd::prelude::*;
use vstd::string::StrSliceExecFns;

verus! {

/// Whether `c` has the Unicode `Uppercase` property, as `char::is_uppercase` answers.
pub uninterp spec fn is_uppercase_char(c: char) -> bool;

/// `char::is_uppercase`: whether `c` has the Unicode `Uppercase` property.
/// The property takes the Unicode tables to state, so it is only named.
#[verifier::external_body]
fn char_is_uppercase(c: char) -> (r: bool)
    ensures
        r == is_uppercase_char(c),
{
    c.is_uppercase()
}

/// `c` with the ASCII letters 'A' to 'Z' mapped to 'a' to 'z', and every
/// other character unchanged.
pub open spec fn ascii_lower(c: char) -> char {
    if 'A' <= c && c <= 'Z' {
        ((c as u32) + 32) as char
    } else {
        c
    }
}

/// `c` in ASCII lowercase, as `char::to_ascii_lowercase` gives it.
fn char_to_ascii_lowercase(c: char) -> (r: char)
    ensures
        r == ascii_lower(c),
{
    if 'A' <= c && c <= 'Z' {
        let b: u8 = c as u8;
        assert(b == c as u32);
        (b + 32) as char
    } else {
        c
    }
}

/// `String::push`: appends one character.
#[verifier::external_body]
fn string_push(s: &mut String, c: char)
    ensures
        final(s)@ == old(s)@.push(c),
{
    s.push(c)
}

/// The snake case of the characters after the first: an uppercase
/// character becomes `_` and its ASCII lowercase, any other its ASCII
/// lowercase.
pub open spec fn snake_rest(chars: Seq<char>) -> Seq<char>
    decreases chars.len(),
{
    if chars.len() == 0 {
        Seq::empty()
    } else {
        let c = chars.last();
        let tail = if is_uppercase_char(c) {
            seq!['_', ascii_lower(c)]
        } else {
            seq![ascii_lower(c)]
        };
        snake_rest(chars.drop_last()) + tail
    }
}

/// The snake case of a name: its first character in ASCII lowercase, then
/// the rest as [`snake_rest`] gives it.
pub open spec fn snake_case_of(chars: Seq<char>) -> Seq<char> {
    if chars.len() == 0 {
        Seq::empty()
    } else {
        seq![ascii_lower(chars[0])] + snake_rest(chars.drop_first())
    }
}

/// Turns a `CamelCase` name into `snake_case`: `"TestStructF32"` becomes
/// `"test_struct_f32"`.
pub fn snake_case(value: &str) -> (r: String)
    ensures
        r@ == snake_case_of(value@),
{
    let n = value.unicode_len();
    let mut out = String::new();
    if n == 0 {
        return out;
    }
    string_push(&mut out, char_to_ascii_lowercase(value.get_char(0)));
    let ghost rest = value@.drop_first();
    let mut i: usize = 1;
    while i < n
        invariant
            n == value@.len(),
            1 <= i <= n,
            rest == value@.drop_first(),
            out@ == seq![ascii_lower(value@[0])] + snake_rest(rest.take(i - 1)),
        decreases n - i,
    {
        let c = value.get_char(i);
        proof {
            assert(rest.take(i as int).drop_last() =~= rest.take(i - 1));
            assert(rest.take(i as int).last() == c);
        }
        if char_is_uppercase(c) {
            string_push(&mut out, '_');
        }
        string_push(&mut out, char_to_ascii_lowercase(c));
        proof {
            assert(out@ =~= seq![ascii_lower(value@[0])] + snake_rest(rest.take(i as int)));
        }
        i = i + 1;
    }
    assert(rest.take(n - 1) =~= rest);
    out
}

} // verus!
