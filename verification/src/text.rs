use vstd::prelude::*;

verus! {

/// Appends one character to a string (`String::push`).
///
/// Trusted: the contract states what the standard library documents for
/// `String::push`, that the character is appended at the end.
#[verifier::external_body]
pub(crate) fn push_char(s: &mut String, c: char)
    ensures
        final(s)@ == old(s)@.push(c),
{
    s.push(c);
}

/// Whether the string's first character is `c` (`str::starts_with` with a `char`).
pub fn starts_with_char(s: &str, c: char) -> (b: bool)
    ensures
        b == (s@.len() > 0 && s@[0] == c),
{
    let n = s.unicode_len();
    if n == 0 {
        false
    } else {
        s.get_char(0) == c
    }
}

/// Appends `count` copies of `unit` to `out` (the effect of `str::repeat` followed by `push_str`).
pub fn push_repeated(out: &mut String, unit: &str, count: usize)
    ensures
        final(out)@ == old(out)@ + repeat_seq(unit@, count as nat),
{
    let mut i: usize = 0;
    while i < count
        invariant
            i <= count,
            out@ == old(out)@ + repeat_seq(unit@, i as nat),
        decreases count - i,
    {
        out.append(unit);
        proof {
            assert(repeat_seq(unit@, (i + 1) as nat) == repeat_seq(unit@, i as nat) + unit@);
            assert(out@ == old(out)@ + repeat_seq(unit@, (i + 1) as nat));
        }
        i = i + 1;
    }
}

/// `unit` written `count` times in a row.
pub open spec fn repeat_seq(unit: Seq<char>, count: nat) -> Seq<char>
    decreases count,
{
    if count == 0 {
        Seq::empty()
    } else {
        repeat_seq(unit, (count - 1) as nat) + unit
    }
}

} // verus!
