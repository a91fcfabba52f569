//! Appending to the output buffer.

use vstd::prelude::*;

verus! {

/// `k` space characters.
pub open spec fn spaces(k: nat) -> Seq<char> {
    Seq::new(k, |i: int| ' ')
}

/// Every character of `s` in order, each followed by one space.
pub open spec fn spaced(s: Seq<char>) -> Seq<char> {
    Seq::new(2 * s.len(), |i: int| if i % 2 == 0 { s[i / 2] } else { ' ' })
}

/// Appends one character to the buffer through `String::push`.
///
/// Trusted: the contract repeats what std documents of that method, that the
/// character is added at the end and the rest of the string is left as it was.
#[verifier::external_body]
pub(crate) fn push_char(buf: &mut String, c: char)
    ensures
        final(buf)@ == old(buf)@.push(c),
{
    buf.push(c);
}

/// Appends `k` spaces.
pub(crate) fn push_spaces(buf: &mut String, k: usize)
    ensures
        final(buf)@ == old(buf)@ + spaces(k as nat),
{
    let mut i: usize = 0;
    while i < k
        invariant
            i <= k,
            buf@ == old(buf)@ + spaces(i as nat),
        decreases k - i,
    {
        push_char(buf, ' ');
        i += 1;
        assert(buf@ =~= old(buf)@ + spaces(i as nat));
    }
}

/// Spacing out one more character appends it and a space.
pub proof fn lemma_spaced_push(s: Seq<char>, c: char)
    ensures
        spaced(s.push(c)) == spaced(s).push(c).push(' '),
{
    assert(spaced(s.push(c)) =~= spaced(s).push(c).push(' '));
}

/// Appends the characters from index `from` on, first to last, each followed
/// by a space.
pub(crate) fn push_spaced(buf: &mut String, chars: &Vec<char>, from: usize)
    requires
        from <= chars.len(),
    ensures
        final(buf)@ == old(buf)@ + spaced(chars@.skip(from as int)),
{
    let len = chars.len();
    let mut i: usize = from;
    assert(old(buf)@ + spaced(chars@.subrange(from as int, i as int)) =~= old(buf)@);
    while i < len
        invariant
            from <= i <= len,
            len == chars.len(),
            buf@ == old(buf)@ + spaced(chars@.subrange(from as int, i as int)),
        decreases len - i,
    {
        let ghost done = chars@.subrange(from as int, i as int);
        push_char(buf, chars[i]);
        push_char(buf, ' ');
        proof {
            lemma_spaced_push(done, chars@[i as int]);
            assert(chars@.subrange(from as int, i + 1) =~= done.push(chars@[i as int]));
            assert(buf@ =~= old(buf)@ + spaced(done.push(chars@[i as int])));
        }
        i += 1;
    }
    assert(chars@.subrange(from as int, len as int) =~= chars@.skip(from as int));
}

/// Appends the characters from index `from` on, last to first, each followed
/// by a space.
pub(crate) fn push_spaced_rev(buf: &mut String, chars: &Vec<char>, from: usize)
    requires
        from <= chars.len(),
    ensures
        final(buf)@ == old(buf)@ + spaced(chars@.skip(from as int).reverse()),
{
    let len = chars.len();
    let mut i: usize = len;
    assert(old(buf)@ + spaced(chars@.skip(i as int).reverse()) =~= old(buf)@);
    while i > from
        invariant
            from <= i <= len,
            len == chars.len(),
            buf@ == old(buf)@ + spaced(chars@.skip(i as int).reverse()),
        decreases i,
    {
        let ghost done = chars@.skip(i as int).reverse();
        i -= 1;
        push_char(buf, chars[i]);
        push_char(buf, ' ');
        proof {
            lemma_spaced_push(done, chars@[i as int]);
            assert(chars@.skip(i as int).reverse() =~= done.push(chars@[i as int]));
            assert(buf@ =~= old(buf)@ + spaced(done.push(chars@[i as int])));
        }
    }
}

} // verus!
