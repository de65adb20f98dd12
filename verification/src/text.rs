//! Text as sequences of characters.

use vstd::prelude::*;

verus! {

/// `String::push`: appends one character to a string.
pub assume_specification[ std::string::String::push ](s: &mut std::string::String, ch: char)
    ensures
        final(s)@ == old(s)@.push(ch),
;

/// The characters with the Unicode property `White_Space`.
pub open spec fn is_white_space(c: char) -> bool {
    let code = c as u32;
    ||| 0x0009 <= code <= 0x000D
    ||| code == 0x0020
    ||| code == 0x0085
    ||| code == 0x00A0
    ||| code == 0x1680
    ||| 0x2000 <= code <= 0x200A
    ||| code == 0x2028
    ||| code == 0x2029
    ||| code == 0x202F
    ||| code == 0x205F
    ||| code == 0x3000
}

/// `s` without its leading white space.
pub open spec fn trimmed_start(s: Seq<char>) -> Seq<char>
    decreases s.len(),
{
    if s.len() > 0 && is_white_space(s[0]) {
        trimmed_start(s.skip(1))
    } else {
        s
    }
}

/// `s` without its trailing white space.
pub open spec fn trimmed_end(s: Seq<char>) -> Seq<char>
    decreases s.len(),
{
    if s.len() > 0 && is_white_space(s.last()) {
        trimmed_end(s.drop_last())
    } else {
        s
    }
}

/// `s` without leading and trailing white space.
pub open spec fn trimmed(s: Seq<char>) -> Seq<char> {
    trimmed_end(trimmed_start(s))
}

/// `s` without the slashes at its end.
pub open spec fn without_end_slashes(s: Seq<char>) -> Seq<char>
    decreases s.len(),
{
    if s.len() > 0 && s.last() == '/' {
        without_end_slashes(s.drop_last())
    } else {
        s
    }
}

/// What follows the last slash in `s`, or all of `s` when it has none.
pub open spec fn last_segment(s: Seq<char>) -> Seq<char>
    decreases s.len(),
{
    if s.len() == 0 || s.last() == '/' {
        Seq::empty()
    } else {
        last_segment(s.drop_last()).push(s.last())
    }
}

/// The last part of a name has no slash in it, and a name without a slash is
/// its own last part.
pub proof fn lemma_last_segment(s: Seq<char>)
    ensures
        !last_segment(s).contains('/'),
        !s.contains('/') ==> last_segment(s) == s,
    decreases s.len(),
{
    if s.len() > 0 && s.last() != '/' {
        lemma_last_segment(s.drop_last());
        let before = last_segment(s.drop_last());
        assert forall|i: int| 0 <= i < before.push(s.last()).len() implies before.push(s.last())[i]
            != '/' by {
            if i < before.len() {
                assert(before.contains(before[i]));
            }
        }
        if !s.contains('/') {
            assert forall|i: int| 0 <= i < s.drop_last().len() implies s.drop_last()[i] != '/' by {
                assert(s.contains(s[i]));
            }
            assert(before.push(s.last()) =~= s);
        }
    } else if s.len() > 0 {
        assert(s.contains(s[s.len() - 1]));
    }
}

/// `A` to `Z` as lower case letters, every other character as it is.
pub open spec fn ascii_lower(c: char) -> char {
    if 'A' <= c <= 'Z' {
        ((c as u8 + 32) as u8) as char
    } else {
        c
    }
}

/// `s` with its ASCII letters in lower case.
pub open spec fn ascii_lowered(s: Seq<char>) -> Seq<char> {
    s.map_values(|c: char| ascii_lower(c))
}

/// The characters of a string.
pub fn chars_of(s: &str) -> (chars: Vec<char>)
    ensures
        chars@ == s@,
{
    let mut chars: Vec<char> = Vec::new();
    for c in it: s.chars()
        invariant
            it.seq() == s@,
            chars@ == s@.take(it.index()),
    {
        chars.push(c);
    }
    chars
}

/// The string made of some characters.
pub fn string_of(chars: &[char]) -> (s: String)
    ensures
        s@ == chars@,
{
    let mut s = String::new();
    let mut i: usize = 0;
    while i < chars.len()
        invariant
            i <= chars@.len(),
            s@ == chars@.take(i as int),
        decreases chars@.len() - i,
    {
        s.push(chars[i]);
        i = i + 1;
    }
    s
}

fn white_space(c: char) -> (yes: bool)
    ensures
        yes == is_white_space(c),
{
    let code: u32 = c as u32;
    (0x0009 <= code && code <= 0x000D) || code == 0x0020 || code == 0x0085 || code == 0x00A0
        || code == 0x1680 || (0x2000 <= code && code <= 0x200A) || code == 0x2028 || code == 0x2029
        || code == 0x202F || code == 0x205F || code == 0x3000
}

/// Cuts white space off both ends.
pub fn trim<'a>(chars: &'a [char]) -> (inner: &'a [char])
    ensures
        inner@ == trimmed(chars@),
{
    let mut start: usize = 0;
    assert(chars@.skip(0) =~= chars@);
    while start < chars.len() && white_space(chars[start])
        invariant
            start <= chars@.len(),
            trimmed_start(chars@) == trimmed_start(chars@.skip(start as int)),
        decreases chars@.len() - start,
    {
        assert(chars@.skip(start as int).skip(1) =~= chars@.skip(start + 1));
        start = start + 1;
    }
    let mut end: usize = chars.len();
    let ghost rest = chars@.skip(start as int);
    assert(chars@.subrange(start as int, end as int) =~= rest);
    while end > start && white_space(chars[end - 1])
        invariant
            start <= end <= chars@.len(),
            trimmed_end(rest) == trimmed_end(chars@.subrange(start as int, end as int)),
        decreases end,
    {
        assert(chars@.subrange(start as int, end as int).drop_last() =~= chars@.subrange(
            start as int,
            end - 1,
        ));
        end = end - 1;
    }
    vstd::slice::slice_subrange(chars, start, end)
}

/// Cuts the slashes off the end.
pub fn trim_end_slashes<'a>(chars: &'a [char]) -> (inner: &'a [char])
    ensures
        inner@ == without_end_slashes(chars@),
{
    let mut end: usize = chars.len();
    assert(chars@.take(end as int) =~= chars@);
    while end > 0 && chars[end - 1] == '/'
        invariant
            end <= chars@.len(),
            without_end_slashes(chars@) == without_end_slashes(chars@.take(end as int)),
        decreases end,
    {
        assert(chars@.take(end as int).drop_last() =~= chars@.take(end - 1));
        end = end - 1;
    }
    vstd::slice::slice_subrange(chars, 0, end)
}

/// What follows the last slash.
pub fn segment_after_last_slash<'a>(chars: &'a [char]) -> (segment: &'a [char])
    ensures
        segment@ == last_segment(chars@),
{
    let mut start: usize = chars.len();
    assert(chars@.take(start as int) =~= chars@);
    assert(last_segment(chars@) =~= last_segment(chars@) + chars@.skip(start as int));
    while start > 0 && chars[start - 1] != '/'
        invariant
            start <= chars@.len(),
            last_segment(chars@) == last_segment(chars@.take(start as int)) + chars@.skip(
                start as int,
            ),
        decreases start,
    {
        assert(chars@.take(start as int).drop_last() =~= chars@.take(start - 1));
        assert(last_segment(chars@.take(start as int)) + chars@.skip(start as int)
            =~= last_segment(chars@.take(start - 1)) + chars@.skip(start - 1));
        start = start - 1;
    }
    assert(last_segment(chars@.take(start as int)) =~= Seq::<char>::empty());
    assert(last_segment(chars@) =~= chars@.skip(start as int));
    vstd::slice::slice_subrange(chars, start, chars.len())
}

/// Tells whether `chars` starts with `prefix`.
pub fn starts_with(chars: &[char], prefix: &[char]) -> (yes: bool)
    ensures
        yes == prefix@.is_prefix_of(chars@),
{
    if chars.len() < prefix.len() {
        return false;
    }
    let mut i: usize = 0;
    while i < prefix.len()
        invariant
            i <= prefix@.len() <= chars@.len(),
            forall|j: int| 0 <= j < i ==> prefix@[j] == chars@[j],
        decreases prefix@.len() - i,
    {
        if chars[i] != prefix[i] {
            assert(chars@.take(prefix@.len() as int)[i as int] != prefix@[i as int]);
            return false;
        }
        i = i + 1;
    }
    assert(prefix@ =~= chars@.subrange(0, prefix@.len() as int));
    true
}

/// Tells whether `c` occurs in `chars`.
pub fn contains_char(chars: &[char], c: char) -> (yes: bool)
    ensures
        yes == chars@.contains(c),
{
    let mut i: usize = 0;
    while i < chars.len()
        invariant
            i <= chars@.len(),
            forall|j: int| 0 <= j < i ==> chars@[j] != c,
        decreases chars@.len() - i,
    {
        if chars[i] == c {
            assert(chars@[i as int] == c);
            return true;
        }
        i = i + 1;
    }
    false
}

fn lower_char(c: char) -> (lowered: char)
    ensures
        lowered == ascii_lower(c),
{
    if 'A' <= c && c <= 'Z' {
        (c as u8 + 32) as char
    } else {
        c
    }
}

/// Puts the ASCII letters of a string into lower case.
pub fn to_ascii_lowercase(s: &str) -> (lowered: String)
    ensures
        lowered@ == ascii_lowered(s@),
{
    let mut lowered = String::new();
    for c in it: s.chars()
        invariant
            it.seq() == s@,
            lowered@ == ascii_lowered(s@.take(it.index())),
    {
        lowered.push(lower_char(c));
        assert(lowered@ =~= ascii_lowered(s@.take(it.index() + 1)));
    }
    assert(s@.take(s@.len() as int) =~= s@);
    lowered
}

/// Compares two strings without regard to the case of ASCII letters.
pub fn eq_ignore_ascii_case(a: &str, b: &str) -> (yes: bool)
    ensures
        yes == (ascii_lowered(a@) == ascii_lowered(b@)),
{
    to_ascii_lowercase(a) == to_ascii_lowercase(b)
}

/// Tells whether two strings hold the same characters.
pub fn same_text(a: &str, b: &str) -> (same: bool)
    ensures
        same == (a@ == b@),
{
    a.to_owned() == b.to_owned()
}

/// Joins two strings.
pub fn concat(a: &str, b: &str) -> (joined: String)
    ensures
        joined@ == a@ + b@,
{
    let mut joined = a.to_owned();
    joined.append(b);
    joined
}

/// White space is what Unicode lists as such: 25 characters, six of them ASCII.
pub proof fn law_white_space(c: char)
    ensures
        c as u32 <= 0x7F ==> (is_white_space(c) <==> c == '\t' || c == '\n' || c == '\u{B}' || c
            == '\u{C}' || c == '\r' || c == ' '),
        c as u32 > 0x7F ==> (is_white_space(c) <==> c == '\u{85}' || c == '\u{A0}' || c
            == '\u{1680}' || ('\u{2000}' <= c <= '\u{200A}') || c == '\u{2028}' || c == '\u{2029}'
            || c == '\u{202F}' || c == '\u{205F}' || c == '\u{3000}'),
{
}

/// Every character of `s` is white space.
pub open spec fn is_blank(s: Seq<char>) -> bool {
    forall|i: int| 0 <= i < s.len() ==> is_white_space(#[trigger] s[i])
}

/// Nothing but the white space around a text is cut off: what starts and ends
/// with another character comes out whole, whatever is in between.
pub proof fn law_trim_keeps_inner_text(front: Seq<char>, inner: Seq<char>, back: Seq<char>)
    requires
        is_blank(front),
        is_blank(back),
        inner.len() > 0,
        !is_white_space(inner[0]),
        !is_white_space(inner.last()),
    ensures
        trimmed(front + inner + back) == inner,
{
    lemma_trimmed_start(front, inner + back);
    assert(front + inner + back =~= front + (inner + back));
    assert((inner + back)[0] == inner[0]);
    lemma_trimmed_end(inner, back);
}

/// Of a text of white space nothing is left.
pub proof fn law_trim_of_blank_is_empty(s: Seq<char>)
    requires
        is_blank(s),
    ensures
        trimmed(s) == Seq::<char>::empty(),
{
    lemma_trimmed_start(s, Seq::empty());
    assert(s + Seq::<char>::empty() =~= s);
}

/// White space around a text makes no difference once it is trimmed.
pub proof fn law_trim_ignores_blanks(front: Seq<char>, s: Seq<char>, back: Seq<char>)
    requires
        is_blank(front),
        is_blank(back),
    ensures
        trimmed(front + s + back) == trimmed(s),
    decreases s.len(),
{
    assert(front + s + back =~= front + (s + back));
    lemma_trimmed_start(front, s + back);
    if s.len() == 0 {
        assert(s + back =~= back);
        law_trim_of_blank_is_empty(back);
        law_trim_of_blank_is_empty(s);
    } else if is_white_space(s[0]) {
        let rest = s.skip(1);
        assert((s + back).skip(1) =~= rest + back);
        assert((s + back)[0] == s[0]);
        law_trim_ignores_blanks(Seq::empty(), rest, back);
        assert(Seq::<char>::empty() + rest + back =~= rest + back);
    } else {
        assert((s + back)[0] == s[0]);
        lemma_trimmed_end(s, back);
    }
}

proof fn lemma_trimmed_start(front: Seq<char>, rest: Seq<char>)
    requires
        is_blank(front),
    ensures
        trimmed_start(front + rest) == trimmed_start(rest),
    decreases front.len(),
{
    if front.len() == 0 {
        assert(front + rest =~= rest);
    } else {
        assert((front + rest)[0] == front[0]);
        assert((front + rest).skip(1) =~= front.skip(1) + rest);
        assert forall|i: int| 0 <= i < front.skip(1).len() implies is_white_space(
            #[trigger] front.skip(1)[i],
        ) by {
            assert(is_white_space(front[i + 1]));
        }
        lemma_trimmed_start(front.skip(1), rest);
    }
}

proof fn lemma_trimmed_end(s: Seq<char>, back: Seq<char>)
    requires
        is_blank(back),
    ensures
        trimmed_end(s + back) == trimmed_end(s),
    decreases back.len(),
{
    if back.len() == 0 {
        assert(s + back =~= s);
    } else {
        assert((s + back).last() == back[back.len() - 1]);
        assert((s + back).drop_last() =~= s + back.drop_last());
        assert forall|i: int| 0 <= i < back.drop_last().len() implies is_white_space(
            #[trigger] back.drop_last()[i],
        ) by {
            assert(is_white_space(back[i]));
        }
        lemma_trimmed_end(s, back.drop_last());
    }
}

/// All slashes at the end of a text are cut off, and nothing else.
pub proof fn law_end_slashes(s: Seq<char>, slashes: Seq<char>)
    requires
        s.len() > 0 ==> s.last() != '/',
        forall|i: int| 0 <= i < slashes.len() ==> #[trigger] slashes[i] == '/',
    ensures
        without_end_slashes(s + slashes) == s,
    decreases slashes.len(),
{
    if slashes.len() == 0 {
        assert(s + slashes =~= s);
    } else {
        assert((s + slashes).last() == slashes[slashes.len() - 1]);
        assert((s + slashes).drop_last() =~= s + slashes.drop_last());
        assert forall|i: int| 0 <= i < slashes.drop_last().len() implies #[trigger] slashes.drop_last()[i]
            == '/' by {
            assert(slashes[i] == '/');
        }
        law_end_slashes(s, slashes.drop_last());
    }
}

/// The last part of a name is what follows its last slash, whatever stands in
/// front of it.
pub proof fn law_last_segment_follows_slash(front: Seq<char>, segment: Seq<char>)
    requires
        !segment.contains('/'),
    ensures
        last_segment(segment) == segment,
        last_segment(front + seq!['/'] + segment) == segment,
    decreases segment.len(),
{
    lemma_last_segment(segment);
    let name = front + seq!['/'] + segment;
    if segment.len() == 0 {
        assert(name.last() == '/');
    } else {
        let shorter = segment.drop_last();
        assert forall|i: int| 0 <= i < shorter.len() implies shorter[i] != '/' by {
            assert(segment.contains(segment[i]));
        }
        assert(segment.contains(segment[segment.len() - 1]));
        assert(name.last() == segment.last());
        assert(name.drop_last() =~= front + seq!['/'] + shorter);
        law_last_segment_follows_slash(front, shorter);
        assert(shorter.push(segment.last()) =~= segment);
    }
}

/// In lower case a text is as long as before, and exactly the letters from `A`
/// to `Z` change, each by 32.
pub proof fn law_lower_case(s: Seq<char>, i: int)
    requires
        0 <= i < s.len(),
    ensures
        ascii_lowered(s).len() == s.len(),
        0x41 <= s[i] as u32 <= 0x5A ==> ascii_lowered(s)[i] as u32 == s[i] as u32 + 32,
        !(0x41 <= s[i] as u32 <= 0x5A) ==> ascii_lowered(s)[i] == s[i],
        ascii_lowered(ascii_lowered(s)) == ascii_lowered(s),
{
    assert(ascii_lowered(ascii_lowered(s)) =~= ascii_lowered(s));
}

} // verus!
