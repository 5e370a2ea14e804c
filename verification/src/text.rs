//! Text by the character: prefixes, words and numbers.

use vstd::prelude::*;
use vstd::string::StringExecFns;

verus! {

/// Whether `name` starts with `prefix`.
pub open spec fn starts_with(name: Seq<char>, prefix: Seq<char>) -> bool {
    name.len() >= prefix.len() && name.subrange(0, prefix.len() as int) == prefix
}

/// Whether a character is white space.
pub open spec fn is_whitespace(c: char) -> bool {
    let n = c as u32;
    (9 <= n <= 13) || n == 0x20 || n == 0x85 || n == 0xa0 || n == 0x1680 || (0x2000 <= n <= 0x200a)
        || n == 0x2028 || n == 0x2029 || n == 0x202f || n == 0x205f || n == 0x3000
}

/// What stands between the white space characters of a text.
pub open spec fn stretches(s: Seq<char>) -> Seq<Seq<char>>
    decreases s.len(),
{
    if s.len() == 0 {
        seq![Seq::empty()]
    } else {
        let init = stretches(s.drop_last());
        if is_whitespace(s.last()) {
            init.push(Seq::empty())
        } else {
            init.update(init.len() - 1, init.last().push(s.last()))
        }
    }
}

/// Those of the parts that are not empty, in their order.
pub open spec fn nonempty(parts: Seq<Seq<char>>) -> Seq<Seq<char>>
    decreases parts.len(),
{
    if parts.len() == 0 {
        Seq::empty()
    } else if parts.last().len() > 0 {
        nonempty(parts.drop_last()).push(parts.last())
    } else {
        nonempty(parts.drop_last())
    }
}

/// The words of a text: its longest stretches without white space.
pub open spec fn words(s: Seq<char>) -> Seq<Seq<char>> {
    nonempty(stretches(s))
}

/// The digit for a number below ten.
pub open spec fn digit(d: nat) -> char {
    (48 + d) as u8 as char
}

/// A number in decimal.
pub open spec fn decimal(n: nat) -> Seq<char>
    decreases n,
{
    if n < 10 {
        seq![digit(n)]
    } else {
        decimal(n / 10).push(digit(n % 10))
    }
}

/// The parts joined, each followed by `separator` but the last.
pub open spec fn joined(parts: Seq<Seq<char>>, separator: Seq<char>) -> Seq<char>
    decreases parts.len(),
{
    if parts.len() == 0 {
        Seq::empty()
    } else if parts.len() == 1 {
        parts[0]
    } else {
        joined(parts.drop_last(), separator) + separator + parts.last()
    }
}

/// `String::push`: appends one character.
#[verifier::external_body]
pub(crate) fn string_push(text: &mut String, c: char)
    ensures
        final(text)@ == old(text)@.push(c),
{
    text.push(c)
}

/// `String::pop`: removes the last character and returns it; `None` for
/// the empty text.
#[verifier::external_body]
pub(crate) fn string_pop(text: &mut String) -> (c: Option<char>)
    ensures
        old(text)@.len() == 0 ==> c is None && final(text)@ == old(text)@,
        old(text)@.len() > 0 ==> c == Some(old(text)@.last()) && final(text)@ == old(
            text,
        )@.drop_last(),
{
    text.pop()
}

/// Whether a character is white space.
pub fn is_space(c: char) -> (space: bool)
    ensures
        space == is_whitespace(c),
{
    let n = c as u32;
    (9 <= n && n <= 13) || n == 0x20 || n == 0x85 || n == 0xa0 || n == 0x1680 || (0x2000 <= n && n
        <= 0x200a) || n == 0x2028 || n == 0x2029 || n == 0x202f || n == 0x205f || n == 0x3000
}

/// Whether `text[from..to]` starts with `prefix`.
pub fn range_starts_with(text: &str, from: usize, to: usize, prefix: &str) -> (found: bool)
    requires
        from <= to <= text@.len(),
    ensures
        found == starts_with(text@.subrange(from as int, to as int), prefix@),
{
    let n = prefix.unicode_len();
    if to - from < n {
        return false;
    }
    let ghost name = text@.subrange(from as int, to as int);
    let mut i: usize = 0;
    while i < n
        invariant
            i <= n,
            n == prefix@.len(),
            from + n <= to <= text@.len(),
            name == text@.subrange(from as int, to as int),
            name.subrange(0, i as int) == prefix@.subrange(0, i as int),
        decreases n - i,
    {
        if text.get_char(from + i) != prefix.get_char(i) {
            assert(name.subrange(0, n as int)[i as int] != prefix@[i as int]);
            return false;
        }
        assert(name.subrange(0, i as int + 1) =~= name.subrange(0, i as int).push(name[i as int]));
        assert(prefix@.subrange(0, i as int + 1) =~= prefix@.subrange(0, i as int).push(
            prefix@[i as int],
        ));
        i = i + 1;
    }
    assert(prefix@.subrange(0, n as int) =~= prefix@);
    true
}

/// Whether `text[from..to]` is `other`.
pub fn range_equals(text: &str, from: usize, to: usize, other: &str) -> (same: bool)
    requires
        from <= to <= text@.len(),
    ensures
        same == (text@.subrange(from as int, to as int) == other@),
{
    let n = other.unicode_len();
    if to - from != n {
        return false;
    }
    let found = range_starts_with(text, from, to, other);
    proof {
        let name = text@.subrange(from as int, to as int);
        assert(name.subrange(0, n as int) =~= name);
    }
    found
}

/// Where the words of `text` stand in it: the start and the end of each.
pub fn word_ranges(text: &str) -> (ranges: Vec<(usize, usize)>)
    ensures
        ranges@.len() == words(text@).len(),
        forall|i: int|
            0 <= i < ranges@.len() ==> (#[trigger] ranges@[i]).0 < ranges@[i].1 <= text@.len()
                && text@.subrange(ranges@[i].0 as int, ranges@[i].1 as int) == words(text@)[i],
{
    let n = text.unicode_len();
    let mut ranges: Vec<(usize, usize)> = Vec::new();
    let mut start: usize = 0;
    let mut k: usize = 0;
    assert(text@.subrange(0, 0) =~= Seq::<char>::empty());
    assert(stretches(Seq::<char>::empty()).drop_last() =~= Seq::<Seq<char>>::empty());
    while k < n
        invariant
            n == text@.len(),
            start <= k <= n,
            stretches(text@.subrange(0, k as int)).len() > 0,
            stretches(text@.subrange(0, k as int)).last() == text@.subrange(start as int, k as int),
            ranges@.len() == nonempty(stretches(text@.subrange(0, k as int)).drop_last()).len(),
            forall|i: int|
                0 <= i < ranges@.len() ==> (#[trigger] ranges@[i]).0 < ranges@[i].1 <= n
                    && text@.subrange(ranges@[i].0 as int, ranges@[i].1 as int) == nonempty(
                    stretches(text@.subrange(0, k as int)).drop_last(),
                )[i],
        decreases n - k,
    {
        let ghost parts = stretches(text@.subrange(0, k as int));
        let ghost done = parts.drop_last();
        let ghost current = parts.last();
        let ghost after = text@.subrange(0, k as int + 1);
        let c = text.get_char(k);
        proof {
            assert(after.drop_last() =~= text@.subrange(0, k as int));
            assert(after.last() == c);
        }
        if is_space(c) {
            if start < k {
                ranges.push((start, k));
            }
            proof {
                assert(stretches(after) == parts.push(Seq::<char>::empty()));
                assert(stretches(after).drop_last() =~= parts);
                assert(parts =~= done.push(current));
                assert(done.push(current).drop_last() =~= done);
                assert(text@.subrange(k as int + 1, k as int + 1) =~= Seq::<char>::empty());
            }
            start = k + 1;
        } else {
            proof {
                assert(stretches(after) == parts.update(parts.len() - 1, current.push(c)));
                assert(stretches(after).drop_last() =~= done);
                assert(current.push(c) =~= text@.subrange(start as int, k as int + 1));
            }
        }
        k = k + 1;
    }
    let ghost parts = stretches(text@.subrange(0, n as int));
    if start < n {
        ranges.push((start, n));
    }
    proof {
        assert(text@.subrange(0, n as int) =~= text@);
        assert(parts =~= parts.drop_last().push(parts.last()));
        assert(parts.drop_last().push(parts.last()).drop_last() =~= parts.drop_last());
    }
    ranges
}

/// `n` in decimal.
pub fn to_decimal(n: usize) -> (text: String)
    ensures
        text@ == decimal(n as nat),
    decreases n,
{
    let mut text = if n < 10 {
        String::new()
    } else {
        to_decimal(n / 10)
    };
    let d: u8 = (n % 10) as u8;
    string_push(&mut text, (48 + d) as char);
    proof {
        if n < 10 {
            assert(text@ =~= seq![digit(n as nat)]);
        }
    }
    text
}

} // verus!
