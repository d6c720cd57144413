//! Text as sequences of characters: searching, cutting, replacing and ordering.

use vstd::prelude::*;

verus! {

/// `String::push` appends the given character to the end of the string.
pub assume_specification[ String::push ](s: &mut String, c: char)
    ensures
        final(s)@ == old(s)@.push(c),
;

/// `pat` stands in `s` at position `i`.
pub open spec fn occurs_at(pat: Seq<char>, s: Seq<char>, i: int) -> bool {
    0 <= i && i + pat.len() <= s.len() && s.subrange(i, i + pat.len()) == pat
}

/// `pat` stands somewhere in `s`.
pub open spec fn occurs_in(pat: Seq<char>, s: Seq<char>) -> bool {
    exists|i: int| occurs_at(pat, s, i)
}

/// `s` ends with `suffix`.
pub open spec fn is_suffix(suffix: Seq<char>, s: Seq<char>) -> bool {
    occurs_at(suffix, s, s.len() - suffix.len())
}

/// `s` with every occurrence of `pat`, found from left to right without overlaps, replaced by
/// `with`. An empty `pat` is never found.
pub open spec fn replaced(s: Seq<char>, pat: Seq<char>, with: Seq<char>) -> Seq<char>
    decreases s.len(),
{
    if s.len() == 0 {
        Seq::empty()
    } else if pat.len() > 0 && occurs_at(pat, s, 0) {
        with + replaced(s.skip(pat.len() as int), pat, with)
    } else {
        seq![s[0]] + replaced(s.drop_first(), pat, with)
    }
}

/// `s` with every `from` turned into `to`.
pub open spec fn char_replaced(s: Seq<char>, from: char, to: char) -> Seq<char> {
    s.map_values(
        |c: char|
            if c == from {
                to
            } else {
                c
            },
    )
}

/// `s` without the run of `c` at its end.
pub open spec fn without_trailing(s: Seq<char>, c: char) -> Seq<char>
    decreases s.len(),
{
    if s.len() > 0 && s.last() == c {
        without_trailing(s.drop_last(), c)
    } else {
        s
    }
}

/// `s` without the run of `c` at its start.
pub open spec fn without_leading(s: Seq<char>, c: char) -> Seq<char>
    decreases s.len(),
{
    if s.len() > 0 && s[0] == c {
        without_leading(s.drop_first(), c)
    } else {
        s
    }
}

/// Every character of `s` is `c`.
pub open spec fn is_run(s: Seq<char>, c: char) -> bool {
    forall|k: int| 0 <= k < s.len() ==> #[trigger] s[k] == c
}

/// What follows the last `c` of `s`; all of `s` where it holds no `c`.
pub open spec fn after_last(s: Seq<char>, c: char) -> Seq<char>
    decreases s.len(),
{
    if s.len() == 0 || s.last() == c {
        Seq::empty()
    } else {
        after_last(s.drop_last(), c).push(s.last())
    }
}

/// What precedes the last `c` of `s`, or `None` where it holds no `c`.
pub open spec fn before_last(s: Seq<char>, c: char) -> Option<Seq<char>>
    decreases s.len(),
{
    if s.len() == 0 {
        None
    } else if s.last() == c {
        Some(s.drop_last())
    } else {
        before_last(s.drop_last(), c)
    }
}

/// `a` comes before `b` in the order of strings: by the first code point in which they differ,
/// a proper prefix before what it is a prefix of.
pub open spec fn precedes(a: Seq<char>, b: Seq<char>) -> bool
    decreases a.len(),
{
    if b.len() == 0 {
        false
    } else if a.len() == 0 {
        true
    } else if a[0] != b[0] {
        a[0] < b[0]
    } else {
        precedes(a.drop_first(), b.drop_first())
    }
}

/// The characters of `s`.
pub fn chars_of(s: &str) -> (r: Vec<char>)
    ensures
        r@ == s@,
{
    let mut r: Vec<char> = Vec::new();
    for c in it: s.chars()
        invariant
            it.seq() == s@,
            r@ == s@.take(it.index() as int),
    {
        r.push(c);
    }
    r
}

/// The two strings hold the same characters.
pub fn same_text(a: &str, b: &str) -> (r: bool)
    ensures
        r == (a@ == b@),
{
    let left: Vec<char> = chars_of(a);
    let right: Vec<char> = chars_of(b);
    left.len() == right.len() && stands_at(&left, &right, 0)
}

/// Whether `pat` stands in `s` at position `i`.
fn stands_at(pat: &Vec<char>, s: &Vec<char>, i: usize) -> (r: bool)
    requires
        i + pat.len() <= s.len(),
    ensures
        r == occurs_at(pat@, s@, i as int),
        i == 0 && pat.len() == s.len() ==> r == (pat@ == s@),
{
    let mut k: usize = 0;
    while k < pat.len()
        invariant
            k <= pat.len(),
            i + pat.len() <= s.len(),
            forall|j: int| 0 <= j < k ==> pat[j] == s[i + j],
        decreases pat.len() - k,
    {
        if pat[k] != s[i + k] {
            assert(s@.subrange(i as int, i + pat.len())[k as int] != pat@[k as int]);
            return false;
        }
        k += 1;
    }
    assert(s@.subrange(i as int, i + pat.len()) =~= pat@);
    proof {
        if i == 0 && pat.len() == s.len() {
            assert(pat@ =~= s@);
        }
    }
    true
}

/// Whether `pat` stands somewhere in `s`.
pub fn contains(s: &str, pat: &str) -> (r: bool)
    ensures
        r == occurs_in(pat@, s@),
{
    let text: Vec<char> = chars_of(s);
    let needle: Vec<char> = chars_of(pat);
    if needle.len() > text.len() {
        return false;
    }
    let last: usize = text.len() - needle.len();
    let mut i: usize = 0;
    while i <= last
        invariant
            text@ == s@,
            needle@ == pat@,
            last + needle.len() == text.len(),
            forall|j: int| 0 <= j < i ==> !occurs_at(pat@, s@, j),
        decreases last + 1 - i,
    {
        if stands_at(&needle, &text, i) {
            return true;
        }
        if i == last {
            assert(forall|j: int| j > last ==> !occurs_at(pat@, s@, j));
            return false;
        }
        i += 1;
    }
    false
}

/// Whether `s` ends with `suffix`.
pub fn ends_with(s: &str, suffix: &str) -> (r: bool)
    ensures
        r == is_suffix(suffix@, s@),
{
    let text: Vec<char> = chars_of(s);
    let tail: Vec<char> = chars_of(suffix);
    tail.len() <= text.len() && stands_at(&tail, &text, text.len() - tail.len())
}

/// `s` with every occurrence of the non-empty `pat` replaced by `with`.
pub fn replace(s: &str, pat: &str, with: &str) -> (r: String)
    requires
        pat@.len() > 0,
    ensures
        r@ == replaced(s@, pat@, with@),
{
    let text: Vec<char> = chars_of(s);
    let needle: Vec<char> = chars_of(pat);
    let mut r: String = String::new();
    let mut i: usize = 0;
    assert(s@.skip(0) =~= s@);
    while i < text.len()
        invariant
            i <= text.len(),
            text@ == s@,
            needle@ == pat@,
            pat@.len() > 0,
            replaced(s@, pat@, with@) == r@ + replaced(s@.skip(i as int), pat@, with@),
        decreases text.len() - i,
    {
        let ghost rest = s@.skip(i as int);
        let ghost before = r@;
        assert(rest.subrange(0, pat@.len() as int) =~= s@.subrange(i as int, i + pat@.len())
            || rest.len() < pat@.len());
        assert(occurs_at(pat@, rest, 0) == occurs_at(pat@, s@, i as int));
        if needle.len() <= text.len() - i && stands_at(&needle, &text, i) {
            r.append(with);
            assert(rest.skip(pat@.len() as int) =~= s@.skip(i + pat@.len()));
            i += needle.len();
            assert(before + (with@ + replaced(s@.skip(i as int), pat@, with@)) =~= r@ + replaced(
                s@.skip(i as int),
                pat@,
                with@,
            ));
        } else {
            r.push(text[i]);
            assert(rest.drop_first() =~= s@.skip(i + 1));
            i += 1;
            assert(before + (seq![rest[0]] + replaced(s@.skip(i as int), pat@, with@)) =~= r@
                + replaced(s@.skip(i as int), pat@, with@));
        }
    }
    assert(r@ + replaced(s@.skip(i as int), pat@, with@) =~= r@);
    r
}

/// `s` with every `from` turned into `to`.
pub fn replace_char(s: &str, from: char, to: char) -> (r: String)
    ensures
        r@ == char_replaced(s@, from, to),
{
    let text: Vec<char> = chars_of(s);
    let mut r: String = String::new();
    let mut i: usize = 0;
    while i < text.len()
        invariant
            i <= text.len(),
            text@ == s@,
            r@ == char_replaced(s@, from, to).take(i as int),
        decreases text.len() - i,
    {
        if text[i] == from {
            r.push(to);
        } else {
            r.push(text[i]);
        }
        i += 1;
    }
    r
}

/// `s` without the run of `c` at its end.
pub fn trim_end(s: &str, c: char) -> (r: &str)
    ensures
        r@ == without_trailing(s@, c),
{
    let text: Vec<char> = chars_of(s);
    let mut n: usize = text.len();
    assert(s@.take(n as int) =~= s@);
    while n > 0 && text[n - 1] == c
        invariant
            n <= text.len(),
            text@ == s@,
            without_trailing(s@, c) == without_trailing(s@.take(n as int), c),
        decreases n,
    {
        assert(s@.take(n as int).drop_last() =~= s@.take(n - 1));
        n -= 1;
    }
    s.substring_char(0, n)
}

/// The position after the last `c` of `text`, or 0 where it holds no `c`.
fn cut_position(text: &Vec<char>, c: char) -> (n: usize)
    ensures
        n <= text.len(),
        after_last(text@, c) == text@.skip(n as int),
        match before_last(text@, c) {
            Some(head) => n > 0 && head == text@.take(n - 1),
            None => n == 0,
        },
{
    let mut n: usize = text.len();
    assert(text@.take(n as int) =~= text@);
    while n > 0 && text[n - 1] != c
        invariant
            n <= text.len(),
            after_last(text@, c) == after_last(text@.take(n as int), c) + text@.skip(n as int),
            before_last(text@, c) == before_last(text@.take(n as int), c),
        decreases n,
    {
        assert(text@.take(n as int).drop_last() =~= text@.take(n - 1));
        proof {
            let head = after_last(text@.take(n - 1), c);
            assert(head.push(text@[n - 1]) + text@.skip(n as int) =~= head + text@.skip(n - 1));
        }
        n -= 1;
    }
    assert(Seq::<char>::empty() + text@.skip(n as int) =~= text@.skip(n as int));
    proof {
        if n > 0 {
            assert(text@.take(n as int).drop_last() =~= text@.take(n - 1));
        }
    }
    n
}

/// What follows the last `c` of `s`; all of `s` where it holds no `c`.
pub fn part_after_last(s: &str, c: char) -> (r: &str)
    ensures
        r@ == after_last(s@, c),
{
    let text: Vec<char> = chars_of(s);
    let n: usize = cut_position(&text, c);
    assert(s@.subrange(n as int, s@.len() as int) =~= s@.skip(n as int));
    s.substring_char(n, text.len())
}

/// What precedes the last `c` of `s`, or `None` where it holds no `c`.
pub fn part_before_last(s: &str, c: char) -> (r: Option<&str>)
    ensures
        r.deep_view() == before_last(s@, c),
{
    let text: Vec<char> = chars_of(s);
    let n: usize = cut_position(&text, c);
    if n == 0 {
        None
    } else {
        assert(s@.subrange(0, n - 1) =~= s@.take(n - 1));
        Some(s.substring_char(0, n - 1))
    }
}

/// Whether `a` comes before `b` in the order of strings.
pub fn is_before(a: &str, b: &str) -> (r: bool)
    ensures
        r == precedes(a@, b@),
{
    let left: Vec<char> = chars_of(a);
    let right: Vec<char> = chars_of(b);
    let mut i: usize = 0;
    assert(a@.skip(0) =~= a@ && b@.skip(0) =~= b@);
    while i < left.len() && i < right.len()
        invariant
            i <= left.len(),
            i <= right.len(),
            left@ == a@,
            right@ == b@,
            precedes(a@, b@) == precedes(a@.skip(i as int), b@.skip(i as int)),
        decreases left.len() - i,
    {
        if left[i] != right[i] {
            return left[i] < right[i];
        }
        assert(a@.skip(i as int).drop_first() =~= a@.skip(i + 1));
        assert(b@.skip(i as int).drop_first() =~= b@.skip(i + 1));
        i += 1;
    }
    i < right.len()
}

/// Whether `s` holds the character `c`.
pub fn has_char(s: &str, c: char) -> (r: bool)
    ensures
        r == s@.contains(c),
{
    let text: Vec<char> = chars_of(s);
    let mut i: usize = 0;
    while i < text.len()
        invariant
            i <= text.len(),
            text@ == s@,
            forall|k: int| 0 <= k < i ==> s@[k] != c,
        decreases text.len() - i,
    {
        if text[i] == c {
            assert(s@[i as int] == c);
            return true;
        }
        i += 1;
    }
    false
}

/// Where `pat` does not occur, replacing it changes nothing.
pub proof fn nothing_to_replace(s: Seq<char>, pat: Seq<char>, with: Seq<char>)
    requires
        !occurs_in(pat, s),
    ensures
        replaced(s, pat, with) == s,
    decreases s.len(),
{
    if s.len() > 0 {
        let rest = s.drop_first();
        assert forall|i: int| !occurs_at(pat, rest, i) by {
            if occurs_at(pat, rest, i) {
                assert(s.subrange(i + 1, i + 1 + pat.len()) =~= rest.subrange(i, i + pat.len()));
                assert(occurs_at(pat, s, i + 1));
            }
        }
        nothing_to_replace(rest, pat, with);
        assert(s =~= seq![s[0]] + rest);
    } else {
        assert(replaced(s, pat, with) =~= s);
    }
}

/// The lower case of an ASCII letter; any other character as it is.
pub open spec fn ascii_lower(c: char) -> char {
    if 'A' <= c <= 'Z' {
        (c as u32 + 32) as char
    } else {
        c
    }
}

/// What `str::to_lowercase` makes of a text that is not all ASCII.
pub uninterp spec fn unicode_lowercase(s: Seq<char>) -> Seq<char>;

/// `s` in lower case.
pub open spec fn lowercase(s: Seq<char>) -> Seq<char> {
    if vstd::utf8::is_ascii_chars(s) {
        s.map_values(|c: char| ascii_lower(c))
    } else {
        unicode_lowercase(s)
    }
}

/// `str::to_lowercase` gives the lower case of a text as Unicode defines it. Of ASCII text that is
/// the lower case of each letter; of other text it is named by [`unicode_lowercase`].
#[verifier::external_body]
pub(crate) fn to_lowercase(s: &str) -> (r: String)
    ensures
        vstd::utf8::is_ascii_chars(s@) ==> r@ == s@.map_values(|c: char| ascii_lower(c)),
        !vstd::utf8::is_ascii_chars(s@) ==> r@ == unicode_lowercase(s@),
{
    s.to_lowercase()
}

/// Two ASCII texts have the same lower case exactly where they differ at most in the case of
/// letters.
pub proof fn lowercase_ignores_case(a: Seq<char>, b: Seq<char>)
    requires
        vstd::utf8::is_ascii_chars(a),
        vstd::utf8::is_ascii_chars(b),
    ensures
        lowercase(a) == lowercase(b) <==> a.len() == b.len() && forall|k: int|
            0 <= k < a.len() ==> ascii_lower(#[trigger] a[k]) == ascii_lower(b[k]),
{
    if lowercase(a) == lowercase(b) {
        assert(lowercase(a).len() == a.len());
        assert forall|k: int| 0 <= k < a.len() implies ascii_lower(#[trigger] a[k]) == ascii_lower(
            b[k],
        ) by {
            assert(lowercase(a)[k] == lowercase(b)[k]);
        }
    } else if a.len() == b.len() && forall|k: int|
        0 <= k < a.len() ==> ascii_lower(#[trigger] a[k]) == ascii_lower(b[k]) {
        assert(lowercase(a) =~= lowercase(b));
    }
}

/// A text is the run of `c` at its start, and what follows.
pub proof fn leading_run(s: Seq<char>, c: char)
    ensures
        without_leading(s, c).len() <= s.len(),
        is_run(s.take(s.len() - without_leading(s, c).len()), c),
        s == s.take(s.len() - without_leading(s, c).len()) + without_leading(s, c),
    decreases s.len(),
{
    let rest = without_leading(s, c);
    if s.len() > 0 && s[0] == c {
        let tail = s.drop_first();
        leading_run(tail, c);
        let run = s.take(s.len() - rest.len());
        let shorter = tail.take(tail.len() - rest.len());
        assert(run =~= seq![c] + shorter);
        assert(s =~= seq![c] + tail);
        assert(s =~= run + rest);
    } else {
        assert(s =~= s.take(0) + rest);
    }
}

/// A text holds what stands between any two texts.
pub proof fn middle_occurs(a: Seq<char>, pat: Seq<char>, b: Seq<char>)
    ensures
        occurs_at(pat, a + pat + b, a.len() as int),
        occurs_in(pat, a + pat + b),
{
    assert((a + pat + b).subrange(a.len() as int, (a + pat).len() as int) =~= pat);
}

/// `pat` stands somewhere in `s` exactly where `s` is some text, then `pat`, then some text.
pub proof fn occurrence_splits_the_text(pat: Seq<char>, s: Seq<char>)
    ensures
        occurs_in(pat, s) <==> exists|a: Seq<char>, b: Seq<char>| s == #[trigger] (a + pat + b),
{
    if occurs_in(pat, s) {
        let i = choose|i: int| occurs_at(pat, s, i);
        let a = s.take(i);
        let b = s.skip(i + pat.len());
        assert(s =~= a + pat + b);
    }
    assert forall|a: Seq<char>, b: Seq<char>| s == #[trigger] (a + pat + b) implies occurs_in(
        pat,
        s,
    ) by {
        middle_occurs(a, pat, b);
    }
}

/// `s` ends with `suffix` exactly where it is some text, then `suffix`.
pub proof fn suffix_ends_the_text(suffix: Seq<char>, s: Seq<char>)
    ensures
        is_suffix(suffix, s) <==> exists|a: Seq<char>| s == #[trigger] (a + suffix),
{
    if is_suffix(suffix, s) {
        assert(s =~= s.take(s.len() - suffix.len()) + suffix);
    }
    assert forall|a: Seq<char>| s == #[trigger] (a + suffix) implies is_suffix(suffix, s) by {
        assert(s.subrange(a.len() as int, s.len() as int) =~= suffix);
    }
}

/// Turning one character into another keeps the length and every other character.
pub proof fn characters_are_replaced_in_place(s: Seq<char>, from: char, to: char, k: int)
    requires
        0 <= k < s.len(),
    ensures
        char_replaced(s, from, to).len() == s.len(),
        s[k] == from ==> char_replaced(s, from, to)[k] == to,
        s[k] != from ==> char_replaced(s, from, to)[k] == s[k],
{
}

/// A run of `c` at the end is cut off, whatever its length, and nothing else.
pub proof fn trailing_run_is_cut_off(s: Seq<char>, run: Seq<char>, c: char)
    requires
        s.len() == 0 || s.last() != c,
        forall|k: int| 0 <= k < run.len() ==> #[trigger] run[k] == c,
    ensures
        without_trailing(s + run, c) == s,
    decreases run.len(),
{
    if run.len() == 0 {
        assert(s + run =~= s);
    } else {
        assert((s + run).drop_last() =~= s + run.drop_last());
        trailing_run_is_cut_off(s, run.drop_last(), c);
    }
}

/// A run of `c` at the start is cut off, whatever its length, and nothing else.
pub proof fn leading_run_is_cut_off(s: Seq<char>, run: Seq<char>, c: char)
    requires
        s.len() == 0 || s[0] != c,
        forall|k: int| 0 <= k < run.len() ==> #[trigger] run[k] == c,
    ensures
        without_leading(run + s, c) == s,
    decreases run.len(),
{
    if run.len() == 0 {
        assert(run + s =~= s);
    } else {
        assert((run + s).drop_first() =~= run.drop_first() + s);
        leading_run_is_cut_off(s, run.drop_first(), c);
    }
}

/// The last `c` of a text cuts it in two: what follows holds no `c`, what precedes is all the rest.
pub proof fn last_separator_cuts(head: Seq<char>, tail: Seq<char>, c: char)
    requires
        forall|k: int| 0 <= k < tail.len() ==> #[trigger] tail[k] != c,
    ensures
        after_last(head.push(c) + tail, c) == tail,
        before_last(head.push(c) + tail, c) == Some(head),
    decreases tail.len(),
{
    let s = head.push(c) + tail;
    if tail.len() == 0 {
        assert(s =~= head.push(c));
        assert(s.drop_last() =~= head);
        assert(tail =~= Seq::empty());
    } else {
        assert(s.drop_last() =~= head.push(c) + tail.drop_last());
        last_separator_cuts(head, tail.drop_last(), c);
        assert(tail.drop_last().push(tail.last()) =~= tail);
    }
}

/// A text without `c` is not cut at all.
pub proof fn nothing_to_cut(s: Seq<char>, c: char)
    requires
        forall|k: int| 0 <= k < s.len() ==> #[trigger] s[k] != c,
    ensures
        after_last(s, c) == s,
        before_last(s, c) is None,
    decreases s.len(),
{
    if s.len() == 0 {
        assert(s =~= Seq::empty());
    } else {
        nothing_to_cut(s.drop_last(), c);
        assert(s.drop_last().push(s.last()) =~= s);
    }
}

/// Where nothing before it overlaps an occurrence of `pat`, that occurrence is replaced, and the
/// replacing goes on behind it.
pub proof fn first_occurrence_is_replaced(
    a: Seq<char>,
    pat: Seq<char>,
    b: Seq<char>,
    with: Seq<char>,
)
    requires
        pat.len() > 0,
        forall|i: int| 0 <= i < a.len() ==> !occurs_at(pat, a + pat + b, i),
    ensures
        replaced(a + pat + b, pat, with) == a + with + replaced(b, pat, with),
    decreases a.len(),
{
    let s = a + pat + b;
    if a.len() == 0 {
        middle_occurs(a, pat, b);
        assert(s.skip(pat.len() as int) =~= b);
        assert(a + with + replaced(b, pat, with) =~= with + replaced(b, pat, with));
    } else {
        let rest = a.drop_first();
        assert(s.drop_first() =~= rest + pat + b);
        assert forall|i: int| 0 <= i < rest.len() implies !occurs_at(pat, rest + pat + b, i) by {
            assert(!occurs_at(pat, s, i + 1));
            if occurs_at(pat, rest + pat + b, i) {
                assert(s.subrange(i + 1, i + 1 + pat.len()) =~= (rest + pat + b).subrange(
                    i,
                    i + pat.len(),
                ));
            }
        }
        assert(!occurs_at(pat, s, 0));
        first_occurrence_is_replaced(rest, pat, b, with);
        assert(seq![s[0]] + (rest + with + replaced(b, pat, with)) =~= a + with + replaced(
            b,
            pat,
            with,
        ));
    }
}

/// One string comes before another exactly where it is a proper prefix of it, or has the lesser
/// character where the two first differ.
pub proof fn first_difference_decides(a: Seq<char>, b: Seq<char>)
    ensures
        precedes(a, b) <==> {
            ||| a.len() < b.len() && a == b.take(a.len() as int)
            ||| exists|k: int|
                {
                    &&& 0 <= k < a.len() && k < b.len()
                    &&& #[trigger] a[k] < b[k]
                    &&& forall|j: int| 0 <= j < k ==> #[trigger] a[j] == b[j]
                }
        },
    decreases a.len(),
{
    if b.len() == 0 {
    } else if a.len() == 0 {
        assert(a =~= b.take(0));
    } else if a[0] != b[0] {
        if a.len() < b.len() && a == b.take(a.len() as int) {
            assert(a[0] == b.take(a.len() as int)[0]);
        }
    } else {
        let (c, d) = (a.drop_first(), b.drop_first());
        first_difference_decides(c, d);
        if c.len() < d.len() && c == d.take(c.len() as int) {
            assert(a =~= seq![a[0]] + c);
            assert(a =~= b.take(a.len() as int));
        }
        if a.len() < b.len() && a == b.take(a.len() as int) {
            assert(c =~= d.take(c.len() as int));
        }
        if precedes(a, b) && !(c.len() < d.len() && c == d.take(c.len() as int)) {
            let k = choose|k: int|
                {
                    &&& 0 <= k < c.len() && k < d.len()
                    &&& #[trigger] c[k] < d[k]
                    &&& forall|j: int| 0 <= j < k ==> #[trigger] c[j] == d[j]
                };
            assert(a[k + 1] < b[k + 1]);
            assert forall|j: int| 0 <= j < k + 1 implies #[trigger] a[j] == b[j] by {
                if j > 0 {
                    assert(c[j - 1] == d[j - 1]);
                }
            }
        }
        assert forall|k: int|
            {
                &&& 0 <= k < a.len() && k < b.len()
                &&& #[trigger] a[k] < b[k]
                &&& forall|j: int| 0 <= j < k ==> #[trigger] a[j] == b[j]
            } implies precedes(a, b) by {
            assert(c[k - 1] < d[k - 1]);
            assert forall|j: int| 0 <= j < k - 1 implies #[trigger] c[j] == d[j] by {
                assert(a[j + 1] == b[j + 1]);
            }
        }
    }
}

/// Of ASCII text, lower case moves each capital letter by the distance of the two alphabets and
/// keeps all else.
pub proof fn lowercase_of_ascii(s: Seq<char>, k: int)
    requires
        forall|i: int| 0 <= i < s.len() ==> '\0' <= #[trigger] s[i] <= '\u{7f}',
        0 <= k < s.len(),
    ensures
        lowercase(s).len() == s.len(),
        'A' <= s[k] <= 'Z' ==> lowercase(s)[k] as u32 - 'a' as u32 == s[k] as u32 - 'A' as u32,
        !('A' <= s[k] <= 'Z') ==> lowercase(s)[k] == s[k],
{
    assert(vstd::utf8::is_ascii_chars(s));
}

} // verus!
