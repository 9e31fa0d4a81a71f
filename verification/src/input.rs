//! Entered lines: the white space around them, and the word that ends a
//! session.

use vstd::prelude::*;

verus! {

/// Whether `c` is white space: one of the characters that Unicode gives the
/// property `White_Space`.
pub open spec fn is_whitespace(c: char) -> bool {
    let code = c as int;
    (0x09 <= code <= 0x0D) || code == 0x20 || code == 0x85 || code == 0xA0 || code == 0x1680 || (
    0x2000 <= code <= 0x200A) || code == 0x2028 || code == 0x2029 || code == 0x202F || code
        == 0x205F || code == 0x3000
}

/// `s` without the white space that it begins with.
pub open spec fn without_leading_whitespace(s: Seq<char>) -> Seq<char>
    decreases s.len(),
{
    if s.len() > 0 && is_whitespace(s[0]) {
        without_leading_whitespace(s.drop_first())
    } else {
        s
    }
}

/// `s` without the white space that it ends in.
pub open spec fn without_trailing_whitespace(s: Seq<char>) -> Seq<char>
    decreases s.len(),
{
    if s.len() > 0 && is_whitespace(s.last()) {
        without_trailing_whitespace(s.drop_last())
    } else {
        s
    }
}

/// `s` without the white space at either end.
pub open spec fn trimmed(s: Seq<char>) -> Seq<char> {
    without_trailing_whitespace(without_leading_whitespace(s))
}

/// The word that ends a session.
pub open spec fn sentinel() -> Seq<char> {
    seq!['e', 'x', 'i', 't']
}

/// Whether the entered `line` ends the session: it does where it is the
/// sentinel once the white space around it is set aside. Letter case counts.
pub open spec fn ends_session(line: Seq<char>) -> bool {
    trimmed(line) == sentinel()
}

/// Whether `c` is white space.
pub fn whitespace(c: char) -> (r: bool)
    ensures
        r == is_whitespace(c),
{
    let code: u32 = c as u32;
    (0x09 <= code && code <= 0x0D) || code == 0x20 || code == 0x85 || code == 0xA0 || code
        == 0x1680 || (0x2000 <= code && code <= 0x200A) || code == 0x2028 || code == 0x2029
        || code == 0x202F || code == 0x205F || code == 0x3000
}

/// Takes the white space off both ends of `line`.
pub fn trim(line: &str) -> (r: &str)
    ensures
        r@ == trimmed(line@),
{
    let len = line.unicode_len();
    let mut start: usize = 0;
    assert(line@.skip(0) =~= line@);
    while start < len && whitespace(line.get_char(start))
        invariant
            start <= len,
            len == line@.len(),
            without_leading_whitespace(line@) == without_leading_whitespace(
                line@.skip(start as int),
            ),
        decreases len - start,
    {
        assert(line@.skip(start as int)[0] == line@[start as int]);
        assert(line@.skip(start as int).drop_first() =~= line@.skip(start + 1));
        start += 1;
    }
    let ghost body = line@.skip(start as int);
    assert(without_leading_whitespace(line@) == body) by {
        if start < len {
            assert(body[0] == line@[start as int]);
        }
    }
    let mut end: usize = len;
    assert(body.take(len - start) =~= body);
    while end > start && whitespace(line.get_char(end - 1))
        invariant
            start <= end <= len,
            len == line@.len(),
            body == line@.skip(start as int),
            without_trailing_whitespace(body) == without_trailing_whitespace(
                body.take(end - start),
            ),
        decreases end,
    {
        assert(body.take(end - start).last() == line@[end - 1]);
        assert(body.take(end - start).drop_last() =~= body.take(end - 1 - start));
        end -= 1;
    }
    assert(without_trailing_whitespace(body) == body.take(end - start)) by {
        if end > start {
            assert(body.take(end - start).last() == line@[end - 1]);
        }
    }
    assert(body.take(end - start) =~= line@.subrange(start as int, end as int));
    line.substring_char(start, end)
}

/// Whether the entered `line` ends the session.
pub fn is_sentinel(line: &str) -> (r: bool)
    ensures
        r == ends_session(line@),
{
    let word = trim(line);
    if word.unicode_len() != 4 {
        return false;
    }
    let same = word.get_char(0) == 'e' && word.get_char(1) == 'x' && word.get_char(2) == 'i'
        && word.get_char(3) == 't';
    assert(same == (word@ =~= sentinel()));
    same
}

/// Whether `s` neither begins nor ends with white space.
pub open spec fn is_bare(s: Seq<char>) -> bool {
    s.len() == 0 || (!is_whitespace(s[0]) && !is_whitespace(s.last()))
}

/// What is left without leading white space is the end of the text, begins
/// with no white space, and follows white space only.
pub proof fn lemma_without_leading_whitespace(s: Seq<char>)
    ensures
        without_leading_whitespace(s).len() <= s.len(),
        without_leading_whitespace(s) == s.skip(s.len() - without_leading_whitespace(s).len()),
        without_leading_whitespace(s).len() > 0 ==> !is_whitespace(
            without_leading_whitespace(s)[0],
        ),
        forall|i: int|
            0 <= i < s.len() - without_leading_whitespace(s).len() ==> is_whitespace(
                #[trigger] s[i],
            ),
    decreases s.len(),
{
    if s.len() > 0 && is_whitespace(s[0]) {
        let tail = s.drop_first();
        lemma_without_leading_whitespace(tail);
        let rest = without_leading_whitespace(tail);
        assert(tail.skip(tail.len() - rest.len()) =~= s.skip(s.len() - rest.len()));
        assert forall|i: int| 0 <= i < s.len() - rest.len() implies is_whitespace(
            #[trigger] s[i],
        ) by {
            if i > 0 {
                assert(s[i] == tail[i - 1]);
            }
        }
    } else {
        assert(s.skip(0) =~= s);
    }
}

/// What is left without trailing white space is the beginning of the text,
/// ends with no white space, and is followed by white space only.
pub proof fn lemma_without_trailing_whitespace(s: Seq<char>)
    ensures
        without_trailing_whitespace(s).len() <= s.len(),
        without_trailing_whitespace(s) == s.take(without_trailing_whitespace(s).len() as int),
        without_trailing_whitespace(s).len() > 0 ==> !is_whitespace(
            without_trailing_whitespace(s).last(),
        ),
        forall|i: int|
            without_trailing_whitespace(s).len() <= i < s.len() ==> is_whitespace(#[trigger] s[i]),
    decreases s.len(),
{
    if s.len() > 0 && is_whitespace(s.last()) {
        let head = s.drop_last();
        lemma_without_trailing_whitespace(head);
        let rest = without_trailing_whitespace(head);
        assert(head.take(rest.len() as int) =~= s.take(rest.len() as int));
        assert forall|i: int| rest.len() <= i < s.len() implies is_whitespace(#[trigger] s[i]) by {
            if i < s.len() - 1 {
                assert(s[i] == head[i]);
            }
        }
    } else {
        assert(s.take(s.len() as int) =~= s);
    }
}

/// A trimmed text neither begins nor ends with white space.
pub proof fn lemma_trimmed_is_bare(s: Seq<char>)
    ensures
        is_bare(trimmed(s)),
{
    let front = without_leading_whitespace(s);
    lemma_without_leading_whitespace(s);
    lemma_without_trailing_whitespace(front);
    let both = trimmed(s);
    if both.len() > 0 {
        assert(both[0] == front[0]);
    }
}

/// Trimming changes nothing in a text that neither begins nor ends with white
/// space, so trimming twice is trimming once, and a line ends the session
/// whether or not it was trimmed before.
pub proof fn lemma_trimmed_again(s: Seq<char>)
    ensures
        is_bare(s) ==> trimmed(s) == s,
        trimmed(trimmed(s)) == trimmed(s),
        ends_session(trimmed(s)) == ends_session(s),
{
    lemma_trimmed_is_bare(s);
}

} // verus!
