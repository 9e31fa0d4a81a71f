//! Directory names: the counter that a name begins with, the name made from a
//! counter, and the name of the directory that a path ends in.

use crate::digits::{
    all_digits, counter_of_numeral, digits_value, format_counter, is_digit, is_numeral,
    lemma_padded_counter_width, numeral_body, padded_counter, parse_counter,
};
use vstd::prelude::*;
use vstd::string::StringExecFns;

verus! {

/// The part of `s` in front of its first underscore; all of `s` where it has
/// none.
pub open spec fn leading_segment(s: Seq<char>) -> Seq<char>
    decreases s.len(),
{
    if s.len() == 0 || s[0] == '_' {
        Seq::empty()
    } else {
        seq![s[0]] + leading_segment(s.drop_first())
    }
}

/// The counter that a directory name begins with: the leading segment of the
/// name, read as a numeral.
pub open spec fn initial_counter(name: Seq<char>) -> Option<i64> {
    counter_of_numeral(leading_segment(name))
}

/// The name of a numbered directory: the counter in its field of five, an
/// underscore, and the text that was entered.
pub open spec fn numbered_name(counter: int, text: Seq<char>) -> Seq<char> {
    padded_counter(counter) + seq!['_'] + text
}

/// The part of `name` in front of its first underscore.
pub fn first_segment(name: &str) -> (r: &str)
    ensures
        r@ == leading_segment(name@),
{
    let len = name.unicode_len();
    let mut i: usize = 0;
    assert(name@.skip(0) =~= name@);
    assert(name@.take(0) + leading_segment(name@) =~= leading_segment(name@));
    while i < len
        invariant
            i <= len,
            len == name@.len(),
            leading_segment(name@) == name@.take(i as int) + leading_segment(name@.skip(i as int)),
        decreases len - i,
    {
        let c = name.get_char(i);
        let ghost rest = name@.skip(i as int);
        assert(rest[0] == c);
        if c == '_' {
            assert(name@.take(i as int) + Seq::<char>::empty() =~= name@.take(i as int));
            return name.substring_char(0, i);
        }
        assert(rest.drop_first() =~= name@.skip(i + 1));
        assert(name@.take(i as int) + (seq![c] + leading_segment(name@.skip(i + 1)))
            =~= name@.take(i + 1) + leading_segment(name@.skip(i + 1)));
        i += 1;
    }
    assert(name@.skip(len as int) =~= Seq::<char>::empty());
    assert(name@.take(len as int) + Seq::<char>::empty() =~= name@);
    assert(name@.subrange(0, len as int) =~= name@);
    name
}

/// Reads the counter that the directory name `name` begins with.
pub fn initial_number(name: &str) -> (r: Option<i64>)
    ensures
        r == initial_counter(name@),
{
    parse_counter(first_segment(name))
}

/// Makes the name of the directory numbered `counter` for the entered `text`.
pub fn directory_name(counter: i64, text: &str) -> (r: String)
    ensures
        r@ == numbered_name(counter as int, text@),
{
    let mut out = format_counter(counter);
    proof {
        reveal_strlit("_");
    }
    out.append("_");
    out.append(text);
    assert(out@ =~= numbered_name(counter as int, text@));
    out
}

/// Whether `s` holds no underscore.
pub open spec fn no_underscore(s: Seq<char>) -> bool {
    forall|i: int| 0 <= i < s.len() ==> #[trigger] s[i] != '_'
}

/// The leading segment of `s` is the longest prefix of `s` that holds no
/// underscore: it ends where `s` ends or in front of an underscore.
pub proof fn lemma_leading_segment(s: Seq<char>)
    ensures
        leading_segment(s).len() <= s.len(),
        leading_segment(s) == s.take(leading_segment(s).len() as int),
        no_underscore(leading_segment(s)),
        leading_segment(s).len() == s.len() || s[leading_segment(s).len() as int] == '_',
    decreases s.len(),
{
    if s.len() > 0 && s[0] != '_' {
        let tail = s.drop_first();
        lemma_leading_segment(tail);
        let seg = leading_segment(s);
        assert(seg =~= s.take(seg.len() as int));
        if seg.len() < s.len() {
            assert(s[seg.len() as int] == tail[leading_segment(tail).len() as int]);
        }
    } else {
        assert(leading_segment(s) =~= s.take(0));
    }
}

/// In front of an underscore, a text that holds none is the leading segment.
pub proof fn lemma_segment_before_underscore(head: Seq<char>, rest: Seq<char>)
    requires
        no_underscore(head),
    ensures
        leading_segment(head + seq!['_'] + rest) == head,
    decreases head.len(),
{
    let whole = head + seq!['_'] + rest;
    if head.len() > 0 {
        lemma_segment_before_underscore(head.drop_first(), rest);
        assert(whole.drop_first() =~= head.drop_first() + seq!['_'] + rest);
        assert(whole[0] == head[0]);
        assert(seq![head[0]] + head.drop_first() =~= head);
    } else {
        assert(whole[0] == '_');
        assert(head =~= Seq::<char>::empty());
    }
}

/// A text that holds no underscore is its own leading segment.
pub proof fn lemma_segment_without_underscore(s: Seq<char>)
    requires
        no_underscore(s),
    ensures
        leading_segment(s) == s,
    decreases s.len(),
{
    if s.len() > 0 {
        lemma_segment_without_underscore(s.drop_first());
        assert(seq![s[0]] + s.drop_first() =~= s);
    } else {
        assert(s =~= Seq::<char>::empty());
    }
}

/// A name that begins with digits and an underscore has the number that the
/// digits denote as its counter, whatever follows the underscore.
pub proof fn lemma_digits_then_underscore(digits: Seq<char>, rest: Seq<char>)
    requires
        digits.len() > 0,
        all_digits(digits),
        digits_value(digits) <= i64::MAX,
    ensures
        initial_counter(digits + seq!['_'] + rest) == Some(digits_value(digits) as i64),
{
    assert(no_underscore(digits)) by {
        assert forall|i: int| 0 <= i < digits.len() implies #[trigger] digits[i] != '_' by {
            assert(is_digit(digits[i]));
        }
    }
    lemma_segment_before_underscore(digits, rest);
    assert(is_digit(digits[0]));
    assert(numeral_body(digits) == digits);
    crate::digits::lemma_digits_value_nonnegative(digits);
}

/// A name whose leading segment is no numeral has no counter. A name with no
/// underscore in it is its own leading segment, so it has a counter only where
/// the whole name is a numeral.
pub proof fn lemma_no_numeral_no_counter(name: Seq<char>)
    ensures
        !is_numeral(leading_segment(name)) ==> initial_counter(name) is None,
        no_underscore(name) ==> initial_counter(name) == counter_of_numeral(name),
        no_underscore(name) && !is_numeral(name) ==> initial_counter(name) is None,
{
    if no_underscore(name) {
        lemma_segment_without_underscore(name);
    }
}

/// The counter that a numbered directory was made with is read back from its
/// name.
pub proof fn lemma_numbered_name_round_trip(counter: i64, text: Seq<char>)
    requires
        counter >= 0,
    ensures
        initial_counter(numbered_name(counter as int, text)) == Some(counter),
{
    lemma_padded_counter_width(counter as int);
    let written = padded_counter(counter as int);
    assert(written.len() >= 1) by {
        crate::digits::lemma_decimal_denotes(counter as nat);
    }
    lemma_digits_then_underscore(written, text);
}

/// `s` without the separators that it ends in.
pub open spec fn without_trailing_separators(s: Seq<char>) -> Seq<char>
    decreases s.len(),
{
    if s.len() > 0 && s.last() == '/' {
        without_trailing_separators(s.drop_last())
    } else {
        s
    }
}

/// What follows the last separator of `s`; all of `s` where it has none.
pub open spec fn after_last_separator(s: Seq<char>) -> Seq<char>
    decreases s.len(),
{
    if s.len() == 0 || s.last() == '/' {
        Seq::empty()
    } else {
        after_last_separator(s.drop_last()).push(s.last())
    }
}

/// The last component of `path`, separators at its end set aside.
pub open spec fn final_component(path: Seq<char>) -> Seq<char> {
    after_last_separator(without_trailing_separators(path))
}

/// Whether `component` can name a directory: it is not empty and is neither
/// `.` nor `..`.
pub open spec fn is_nameable(component: Seq<char>) -> bool {
    component.len() > 0 && component != seq!['.'] && component != seq!['.', '.']
}

/// The name of the directory that `path` ends in, if it ends in one: a path
/// made of separators alone, or one that ends in `.` or `..`, names none.
pub open spec fn root_name_of(path: Seq<char>) -> Option<Seq<char>> {
    if is_nameable(final_component(path)) {
        Some(final_component(path))
    } else {
        None
    }
}

/// Takes the name of the directory that `path` ends in.
pub fn root_name(path: &str) -> (r: Option<String>)
    ensures
        r is Some <==> root_name_of(path@) is Some,
        r matches Some(name) ==> Some(name@) == root_name_of(path@),
{
    let len = path.unicode_len();
    let mut end: usize = len;
    assert(path@.take(len as int) =~= path@);
    while end > 0 && path.get_char(end - 1) == '/'
        invariant
            end <= len,
            len == path@.len(),
            without_trailing_separators(path@) == without_trailing_separators(
                path@.take(end as int),
            ),
        decreases end,
    {
        assert(path@.take(end as int).drop_last() =~= path@.take(end - 1));
        end -= 1;
    }
    let ghost body = path@.take(end as int);
    assert(without_trailing_separators(path@) == body);
    let mut start: usize = end;
    assert(body.take(end as int) =~= body);
    assert(after_last_separator(body) + body.subrange(end as int, end as int)
        =~= after_last_separator(body));
    while start > 0 && path.get_char(start - 1) != '/'
        invariant
            start <= end <= len,
            len == path@.len(),
            body == path@.take(end as int),
            after_last_separator(body) == after_last_separator(body.take(start as int))
                + body.subrange(start as int, end as int),
        decreases start,
    {
        let ghost prefix = body.take(start as int);
        assert(prefix.last() == path@[start - 1]);
        assert(prefix.drop_last() =~= body.take(start - 1));
        assert(after_last_separator(body.take(start - 1)).push(prefix.last()) + body.subrange(
            start as int,
            end as int,
        ) =~= after_last_separator(body.take(start - 1)) + body.subrange(
            start - 1,
            end as int,
        ));
        start -= 1;
    }
    let ghost component = body.subrange(start as int, end as int);
    assert(after_last_separator(body) =~= component) by {
        if start > 0 {
            assert(body.take(start as int).last() == path@[start - 1]);
        }
    }
    assert(component =~= path@.subrange(start as int, end as int));
    let width = end - start;
    if width == 0 {
        return None;
    }
    if path.get_char(start) == '.' {
        if width == 1 {
            assert(component =~= seq!['.']);
            return None;
        }
        if width == 2 && path.get_char(start + 1) == '.' {
            assert(component =~= seq!['.', '.']);
            return None;
        }
    }
    assert(component != seq!['.']) by {
        if component == seq!['.'] {
            assert(seq!['.'][0] == '.');
        }
    }
    assert(component != seq!['.', '.']) by {
        if component == seq!['.', '.'] {
            assert(seq!['.', '.'][0] == '.');
            assert(seq!['.', '.'][1] == '.');
        }
    }
    Some(String::from_str(path.substring_char(start, end)))
}

} // verus!
