//! Character-level text operations.
//!
//! Every operation is stated over the sequence of characters of a string, the
//! view that Verus gives `str` and `String`.

use vstd::prelude::*;

verus! {

/// `String::push` appends one character at the end of the string.
pub assume_specification[ String::push ](s: &mut String, ch: char)
    ensures
        final(s)@ == old(s)@.push(ch),
;

/// The Unicode property White_Space.
pub open spec fn white_space(c: char) -> bool {
    ||| '\u{9}' <= c <= '\u{d}'
    ||| c == '\u{20}'
    ||| c == '\u{85}'
    ||| c == '\u{a0}'
    ||| c == '\u{1680}'
    ||| '\u{2000}' <= c <= '\u{200a}'
    ||| c == '\u{2028}'
    ||| c == '\u{2029}'
    ||| c == '\u{202f}'
    ||| c == '\u{205f}'
    ||| c == '\u{3000}'
}

/// Whether a string holds nothing but white space; the empty string is blank.
pub open spec fn blank(s: Seq<char>) -> bool {
    forall|i: int| 0 <= i < s.len() ==> white_space(#[trigger] s[i])
}

/// A string without its leading white space.
pub open spec fn trimmed_start(s: Seq<char>) -> Seq<char>
    decreases s.len(),
{
    if s.len() > 0 && white_space(s.first()) {
        trimmed_start(s.drop_first())
    } else {
        s
    }
}

/// A string without its trailing white space.
pub open spec fn trimmed_end(s: Seq<char>) -> Seq<char>
    decreases s.len(),
{
    if s.len() > 0 && white_space(s.last()) {
        trimmed_end(s.drop_last())
    } else {
        s
    }
}

/// A string without leading and trailing white space.
pub open spec fn trimmed(s: Seq<char>) -> Seq<char> {
    trimmed_end(trimmed_start(s))
}

/// The lower-case form of an ASCII capital; any other character unchanged.
pub open spec fn ascii_lower_char(c: char) -> char {
    if 'A' <= c <= 'Z' {
        (c as u8 + 32) as char
    } else {
        c
    }
}

/// A string with its ASCII capitals in lower case.
pub open spec fn ascii_lower(s: Seq<char>) -> Seq<char> {
    s.map_values(|c: char| ascii_lower_char(c))
}

/// Whether two strings are the same but for the case of ASCII letters.
pub open spec fn same_ignoring_case(a: Seq<char>, b: Seq<char>) -> bool {
    ascii_lower(a) == ascii_lower(b)
}

/// Lower case is its own lower case.
pub proof fn law_lower_is_stable(s: Seq<char>)
    ensures
        ascii_lower(ascii_lower(s)) == ascii_lower(s),
{
    assert(ascii_lower(ascii_lower(s)) =~= ascii_lower(s));
}

/// Leading white space goes: what is left is an end of the text that does not
/// begin with white space.
pub proof fn law_trimmed_start(s: Seq<char>)
    ensures
        trimmed_start(s).len() <= s.len(),
        trimmed_start(s) == s.skip(s.len() - trimmed_start(s).len()),
        trimmed_start(s).len() > 0 ==> !white_space(trimmed_start(s).first()),
        trimmed_start(s).len() == 0 <==> blank(s),
        forall|i: int|
            0 <= i < s.len() - trimmed_start(s).len() ==> white_space(#[trigger] s[i]),
    decreases s.len(),
{
    if s.len() > 0 && white_space(s.first()) {
        let rest = s.drop_first();
        law_trimmed_start(rest);
        let cut = rest.len() - trimmed_start(rest).len();
        assert(rest.skip(cut) == s.skip(cut + 1));
        assert forall|i: int| 0 <= i < cut + 1 implies white_space(#[trigger] s[i]) by {
            if i > 0 {
                assert(rest[i - 1] == s[i]);
            }
        }
        if blank(s) {
            assert forall|i: int| 0 <= i < rest.len() implies white_space(#[trigger] rest[i]) by {
                assert(rest[i] == s[i + 1]);
            }
        }
    } else {
        assert(s.skip(0) == s);
        if s.len() > 0 {
            assert(!white_space(s[0]));
        }
    }
}

/// Trailing white space goes: what is left is a beginning of the text that does
/// not end in white space.
proof fn lemma_trimmed_end(s: Seq<char>)
    ensures
        trimmed_end(s).len() <= s.len(),
        trimmed_end(s) == s.take(trimmed_end(s).len() as int),
        trimmed_end(s).len() > 0 ==> !white_space(trimmed_end(s).last()),
        trimmed_end(s).len() == 0 ==> blank(s),
        forall|i: int| trimmed_end(s).len() <= i < s.len() ==> white_space(#[trigger] s[i]),
    decreases s.len(),
{
    if s.len() > 0 && white_space(s.last()) {
        let rest = s.drop_last();
        lemma_trimmed_end(rest);
        let kept = trimmed_end(rest).len() as int;
        assert(rest.take(kept) == s.take(kept));
        assert forall|i: int| kept <= i < s.len() implies white_space(#[trigger] s[i]) by {
            if i < s.len() - 1 {
                assert(rest[i] == s[i]);
            }
        }
    } else {
        assert(s.take(s.len() as int) == s);
    }
}

/// A trimmed text is a part of the text between nothing but white space; it
/// neither begins nor ends with white space, and it is empty exactly if the
/// text is blank.
pub proof fn law_trimmed(s: Seq<char>)
    ensures
        exists|from: int, to: int|
            {
                &&& 0 <= from <= to <= s.len()
                &&& trimmed(s) == #[trigger] s.subrange(from, to)
                &&& blank(s.take(from))
                &&& blank(s.skip(to))
            },
        trimmed(s).len() > 0 ==> !white_space(trimmed(s).first()) && !white_space(
            trimmed(s).last(),
        ),
        trimmed(s).len() == 0 <==> blank(s),
{
    let rest = trimmed_start(s);
    law_trimmed_start(s);
    lemma_trimmed_end(rest);
    let from = s.len() - rest.len();
    let to = from + trimmed(s).len();
    assert(rest.take(trimmed(s).len() as int) =~= s.subrange(from, to));
    assert forall|i: int| 0 <= i < s.take(from).len() implies white_space(
        #[trigger] s.take(from)[i],
    ) by {
        assert(white_space(s[i]));
    }
    assert forall|i: int| 0 <= i < s.skip(to).len() implies white_space(
        #[trigger] s.skip(to)[i],
    ) by {
        assert(rest[to - from + i] == s[to + i]);
    }
    assert(trimmed(s) == s.subrange(from, to));
    if trimmed(s).len() > 0 {
        assert(trimmed(s)[0] == rest[0]);
    }
    if trimmed(s).len() == 0 && rest.len() > 0 {
        assert(white_space(rest[0]));
    }
}

/// Whether `pattern` stands in `s` at position `at`.
pub open spec fn occurs_at(s: Seq<char>, pattern: Seq<char>, at: int) -> bool {
    0 <= at <= s.len() - pattern.len() && s.subrange(at, at + pattern.len()) == pattern
}

/// Whether `pattern` stands anywhere in `s`.
pub open spec fn occurs(s: Seq<char>, pattern: Seq<char>) -> bool {
    exists|at: int| occurs_at(s, pattern, at)
}

/// `s` with every occurrence of `pattern`, taken from the left, replaced by `with`.
pub open spec fn replaced(s: Seq<char>, pattern: Seq<char>, with: Seq<char>) -> Seq<char>
    decreases s.len(),
{
    if s.len() == 0 || pattern.len() == 0 {
        s
    } else if occurs_at(s, pattern, 0) {
        with + replaced(s.skip(pattern.len() as int), pattern, with)
    } else {
        seq![s[0]] + replaced(s.skip(1), pattern, with)
    }
}

/// The position of the first `c` in `s`.
pub open spec fn position(s: Seq<char>, c: char) -> Option<int>
    decreases s.len(),
{
    if s.len() == 0 {
        None
    } else if s.first() == c {
        Some(0)
    } else {
        match position(s.drop_first(), c) {
            Some(i) => Some(i + 1),
            None => None,
        }
    }
}

/// The first position of a character holds it and has none before it; a
/// character without a position does not occur.
pub proof fn law_position(s: Seq<char>, c: char)
    ensures
        match position(s, c) {
            Some(i) => 0 <= i < s.len() && s[i] == c && forall|j: int|
                0 <= j < i ==> #[trigger] s[j] != c,
            None => !s.contains(c),
        },
    decreases s.len(),
{
    if s.len() > 0 && s.first() != c {
        let rest = s.drop_first();
        law_position(rest, c);
        match position(rest, c) {
            Some(i) => {
                assert forall|j: int| 0 <= j < i + 1 implies #[trigger] s[j] != c by {
                    if j > 0 {
                        assert(rest[j - 1] != c);
                    }
                }
            },
            None => {
                assert forall|j: int| 0 <= j < s.len() implies s[j] != c by {
                    if j > 0 {
                        assert(rest[j - 1] == s[j]);
                    }
                }
            },
        }
    }
}

/// How often `c` stands in `s`.
pub open spec fn tally(s: Seq<char>, c: char) -> nat
    decreases s.len(),
{
    if s.len() == 0 {
        0
    } else {
        tally(s.drop_first(), c) + if s.first() == c {
            1nat
        } else {
            0nat
        }
    }
}

/// The tally of a concatenation is the sum of the tallies.
proof fn lemma_tally_concat(a: Seq<char>, b: Seq<char>, c: char)
    ensures
        tally(a + b, c) == tally(a, c) + tally(b, c),
    decreases a.len(),
{
    if a.len() == 0 {
        assert(a + b == b);
    } else {
        assert((a + b).drop_first() == a.drop_first() + b);
        lemma_tally_concat(a.drop_first(), b, c);
    }
}

/// A character that does not occur has the tally zero.
proof fn lemma_tally_absent(s: Seq<char>, c: char)
    requires
        !s.contains(c),
    ensures
        tally(s, c) == 0,
    decreases s.len(),
{
    if s.len() > 0 {
        assert(s[0] != c);
        assert forall|i: int| 0 <= i < s.drop_first().len() implies s.drop_first()[i] != c by {
            assert(s[i + 1] != c);
        }
        lemma_tally_absent(s.drop_first(), c);
    }
}

/// Replacing a pattern that holds no `c` by a text that holds no `c` neither
/// adds nor removes a `c`.
pub proof fn law_replacement_keeps_tally(
    s: Seq<char>,
    pattern: Seq<char>,
    with: Seq<char>,
    c: char,
)
    requires
        !pattern.contains(c),
        !with.contains(c),
    ensures
        tally(replaced(s, pattern, with), c) == tally(s, c),
    decreases s.len(),
{
    if s.len() > 0 && pattern.len() > 0 {
        if occurs_at(s, pattern, 0) {
            let rest = s.skip(pattern.len() as int);
            law_replacement_keeps_tally(rest, pattern, with, c);
            lemma_tally_concat(with, replaced(rest, pattern, with), c);
            lemma_tally_absent(with, c);
            assert(s == pattern + rest);
            lemma_tally_concat(pattern, rest, c);
            lemma_tally_absent(pattern, c);
        } else {
            let rest = s.skip(1);
            law_replacement_keeps_tally(rest, pattern, with, c);
            assert(s == seq![s[0]] + rest);
            lemma_tally_concat(seq![s[0]], replaced(rest, pattern, with), c);
            lemma_tally_concat(seq![s[0]], rest, c);
        }
    }
}

/// A pattern that occurs once is replaced there, and what stands before and
/// behind it is kept.
pub proof fn law_single_replacement(
    before: Seq<char>,
    pattern: Seq<char>,
    after: Seq<char>,
    with: Seq<char>,
)
    requires
        pattern.len() > 0,
        forall|at: int|
            #[trigger] occurs_at(before + pattern + after, pattern, at) ==> at == before.len(),
    ensures
        replaced(before + pattern + after, pattern, with) == before + with + after,
    decreases before.len(),
{
    let whole = before + pattern + after;
    if before.len() == 0 {
        assert(whole.subrange(0, pattern.len() as int) == pattern);
        assert(whole.skip(pattern.len() as int) == after);
        assert forall|at: int| !occurs_at(after, pattern, at) by {
            if occurs_at(after, pattern, at) {
                let deep = at + pattern.len();
                assert(whole.subrange(deep, deep + pattern.len()) == after.subrange(
                    at,
                    at + pattern.len(),
                ));
                assert(occurs_at(whole, pattern, deep));
            }
        }
        law_no_replacement(after, pattern, with);
        assert(with + after == before + with + after);
    } else {
        let shorter = before.drop_first();
        assert(!occurs_at(whole, pattern, 0));
        assert(whole.skip(1) == shorter + pattern + after);
        assert forall|at: int|
            #[trigger] occurs_at(shorter + pattern + after, pattern, at) implies at
            == shorter.len() by {
            assert(whole.subrange(at + 1, at + 1 + pattern.len()) == whole.skip(1).subrange(
                at,
                at + pattern.len(),
            ));
            assert(occurs_at(whole, pattern, at + 1));
        }
        law_single_replacement(shorter, pattern, after, with);
        assert(seq![whole[0]] + (shorter + with + after) == before + with + after);
    }
}

/// A text without the pattern is unchanged by a replacement.
pub proof fn law_no_replacement(s: Seq<char>, pattern: Seq<char>, with: Seq<char>)
    requires
        !occurs(s, pattern),
    ensures
        replaced(s, pattern, with) == s,
    decreases s.len(),
{
    if s.len() > 0 && pattern.len() > 0 {
        assert(!occurs_at(s, pattern, 0));
        assert forall|at: int| !occurs_at(s.skip(1), pattern, at) by {
            if occurs_at(s.skip(1), pattern, at) {
                assert(s.subrange(at + 1, at + 1 + pattern.len()) == s.skip(1).subrange(
                    at,
                    at + pattern.len(),
                ));
                assert(occurs_at(s, pattern, at + 1));
            }
        }
        law_no_replacement(s.skip(1), pattern, with);
        assert(seq![s[0]] + s.skip(1) == s);
    }
}

/// Whether a character has the Unicode property White_Space.
pub fn is_white_space(c: char) -> (r: bool)
    ensures
        r == white_space(c),
{
    ('\u{9}' <= c && c <= '\u{d}') || c == '\u{20}' || c == '\u{85}' || c == '\u{a0}' || c
        == '\u{1680}' || ('\u{2000}' <= c && c <= '\u{200a}') || c == '\u{2028}' || c == '\u{2029}'
        || c == '\u{202f}' || c == '\u{205f}' || c == '\u{3000}'
}

/// The characters of a string.
pub fn chars_of(s: &str) -> (r: Vec<char>)
    ensures
        r@ == s@,
{
    let mut out: Vec<char> = Vec::new();
    for c in it: s.chars()
        invariant
            it.seq() == s@,
            out@ == s@.take(it.index() as int),
    {
        out.push(c);
    }
    out
}

/// Whether a string holds nothing but white space.
pub fn is_blank(s: &str) -> (r: bool)
    ensures
        r == blank(s@),
{
    let chars: Vec<char> = chars_of(s);
    let mut i: usize = 0;
    while i < chars.len()
        invariant
            chars@ == s@,
            i <= chars.len(),
            forall|j: int| 0 <= j < i ==> white_space(#[trigger] s@[j]),
        decreases chars.len() - i,
    {
        if !is_white_space(chars[i]) {
            return false;
        }
        i = i + 1;
    }
    true
}

/// The part of a string behind its leading white space.
pub fn trim_start(s: &str) -> (r: &str)
    ensures
        r@ == trimmed_start(s@),
{
    let chars: Vec<char> = chars_of(s);
    let mut start: usize = 0;
    proof {
        assert(s@.skip(0) == s@);
    }
    while start < chars.len() && is_white_space(chars[start])
        invariant
            chars@ == s@,
            start <= chars.len(),
            trimmed_start(s@.skip(start as int)) == trimmed_start(s@),
        decreases chars.len() - start,
    {
        proof {
            assert(s@.skip(start as int).drop_first() == s@.skip(start + 1));
        }
        start = start + 1;
    }
    proof {
        assert(s@.subrange(start as int, s@.len() as int) == s@.skip(start as int));
    }
    s.substring_char(start, chars.len())
}

/// The lower-case form of an ASCII capital; any other character unchanged.
pub fn lower_char(c: char) -> (r: char)
    ensures
        r == ascii_lower_char(c),
{
    if 'A' <= c && c <= 'Z' {
        (c as u8 + 32) as char
    } else {
        c
    }
}

/// A copy of a string with its ASCII capitals in lower case.
pub fn to_ascii_lower(s: &str) -> (r: String)
    ensures
        r@ == ascii_lower(s@),
{
    let mut out: String = String::new();
    for c in it: s.chars()
        invariant
            it.seq() == s@,
            out@ == ascii_lower(s@.take(it.index() as int)),
    {
        out.push(lower_char(c));
        proof {
            let n = it.index() as int;
            assert(s@.take(n + 1) == s@.take(n).push(s@[n]));
        }
    }
    proof {
        assert(s@.take(s@.len() as int) == s@);
    }
    out
}

/// Whether two strings hold the same characters.
pub fn same_text(a: &str, b: &str) -> (r: bool)
    ensures
        r == (a@ == b@),
{
    a.to_owned() == b.to_owned()
}

/// Whether two strings are the same but for the case of ASCII letters.
pub fn eq_ignore_ascii_case(a: &str, b: &str) -> (r: bool)
    ensures
        r == same_ignoring_case(a@, b@),
{
    to_ascii_lower(a) == to_ascii_lower(b)
}

/// Whether `pattern` stands in `chars` at position `at`.
fn matches_at(chars: &Vec<char>, pattern: &Vec<char>, at: usize) -> (r: bool)
    requires
        at <= chars.len(),
    ensures
        r == occurs_at(chars@, pattern@, at as int),
{
    if pattern.len() > chars.len() - at {
        return false;
    }
    let mut i: usize = 0;
    while i < pattern.len()
        invariant
            at + pattern.len() <= chars.len(),
            i <= pattern.len(),
            forall|j: int| 0 <= j < i ==> chars@[at + j] == #[trigger] pattern@[j],
        decreases pattern.len() - i,
    {
        if chars[at + i] != pattern[i] {
            proof {
                assert(chars@.subrange(at as int, at + pattern@.len())[i as int] != pattern@[i as int]);
            }
            return false;
        }
        i = i + 1;
    }
    proof {
        assert(chars@.subrange(at as int, at + pattern@.len()) =~= pattern@);
    }
    true
}

/// The position of the first `c` among some characters.
pub fn find_char(chars: &Vec<char>, c: char) -> (r: Option<usize>)
    ensures
        match r {
            Some(i) => position(chars@, c) == Some(i as int) && i < chars.len(),
            None => position(chars@, c) is None,
        },
{
    proof {
        law_position(chars@, c);
    }
    let mut i: usize = 0;
    while i < chars.len()
        invariant
            i <= chars.len(),
            forall|j: int| 0 <= j < i ==> #[trigger] chars@[j] != c,
            match position(chars@, c) {
                Some(i) => 0 <= i < chars@.len() && chars@[i] == c && forall|j: int|
                    0 <= j < i ==> #[trigger] chars@[j] != c,
                None => !chars@.contains(c),
            },
        decreases chars.len() - i,
    {
        if chars[i] == c {
            return Some(i);
        }
        i = i + 1;
    }
    None
}

/// Whether a string begins with `prefix`.
pub fn starts_with(s: &str, prefix: &str) -> (r: bool)
    ensures
        r == prefix@.is_prefix_of(s@),
{
    let chars: Vec<char> = chars_of(s);
    let pattern: Vec<char> = chars_of(prefix);
    matches_at(&chars, &pattern, 0)
}

/// Whether `pattern` stands anywhere in a string.
pub fn contains(s: &str, pattern: &str) -> (r: bool)
    ensures
        r == occurs(s@, pattern@),
{
    let chars: Vec<char> = chars_of(s);
    let wanted: Vec<char> = chars_of(pattern);
    let mut at: usize = 0;
    while at < chars.len()
        invariant
            chars@ == s@,
            wanted@ == pattern@,
            at <= chars.len(),
            forall|j: int| 0 <= j < at ==> !occurs_at(s@, pattern@, j),
        decreases chars.len() - at,
    {
        if matches_at(&chars, &wanted, at) {
            return true;
        }
        at = at + 1;
    }
    matches_at(&chars, &wanted, at)
}

/// A copy of a string with every occurrence of `pattern` replaced by `with`.
pub fn replace(s: &str, pattern: &str, with: &str) -> (r: String)
    requires
        pattern@.len() > 0,
    ensures
        r@ == replaced(s@, pattern@, with@),
{
    let chars: Vec<char> = chars_of(s);
    let wanted: Vec<char> = chars_of(pattern);
    let mut out: String = String::new();
    let mut at: usize = 0;
    proof {
        assert(s@.skip(0) == s@);
    }
    while at < chars.len()
        invariant
            chars@ == s@,
            wanted@ == pattern@,
            wanted.len() > 0,
            at <= chars.len(),
            replaced(s@, pattern@, with@) == out@ + replaced(s@.skip(at as int), pattern@, with@),
        decreases chars.len() - at,
    {
        let ghost rest = s@.skip(at as int);
        let ghost done = out@;
        if matches_at(&chars, &wanted, at) {
            proof {
                assert(rest.subrange(0, pattern@.len() as int) == s@.subrange(
                    at as int,
                    at + pattern@.len(),
                ));
                assert(rest.skip(pattern@.len() as int) == s@.skip(at + pattern@.len()));
            }
            out.append(with);
            at = at + wanted.len();
            proof {
                let tail = replaced(s@.skip(at as int), pattern@, with@);
                assert(done + (with@ + tail) == (done + with@) + tail);
            }
        } else {
            proof {
                assert(pattern@.len() <= rest.len() ==> rest.subrange(0, pattern@.len() as int)
                    == s@.subrange(at as int, at + pattern@.len()));
                assert(rest.skip(1) == s@.skip(at + 1));
            }
            out.push(chars[at]);
            at = at + 1;
            proof {
                let tail = replaced(s@.skip(at as int), pattern@, with@);
                assert(done + (seq![rest[0]] + tail) == done.push(rest[0]) + tail);
            }
        }
    }
    proof {
        assert(s@.skip(at as int) == Seq::<char>::empty());
        assert(out@ + Seq::<char>::empty() == out@);
    }
    out
}

/// White space are the code points that Unicode lists under White_Space, and no
/// others.
pub proof fn law_white_space(c: char)
    ensures
        white_space(c) <==> {
            let v = c as int;
            ||| 9 <= v && v <= 13
            ||| v == 32
            ||| v == 133
            ||| v == 160
            ||| v == 5760
            ||| 8192 <= v && v <= 8202
            ||| v == 8232
            ||| v == 8233
            ||| v == 8239
            ||| v == 8287
            ||| v == 12288
        },
{
}

/// The empty text is blank; a text made of two parts is blank exactly if both
/// are; a single character is blank exactly if it is white space.
pub proof fn law_blank(a: Seq<char>, b: Seq<char>, c: char)
    ensures
        blank(Seq::empty()),
        blank(a + b) <==> blank(a) && blank(b),
        blank(seq![c]) <==> white_space(c),
{
    let s = a + b;
    if blank(s) {
        assert forall|i: int| 0 <= i < a.len() implies white_space(#[trigger] a[i]) by {
            assert(s[i] == a[i]);
        }
        assert forall|i: int| 0 <= i < b.len() implies white_space(#[trigger] b[i]) by {
            assert(s[a.len() + i] == b[i]);
        }
    }
    if blank(a) && blank(b) {
        assert forall|i: int| 0 <= i < s.len() implies white_space(#[trigger] s[i]) by {
            if i < a.len() {
                assert(s[i] == a[i]);
            } else {
                assert(s[i] == b[i - a.len()]);
            }
        }
    }
    if blank(seq![c]) {
        assert(white_space(seq![c][0]));
    }
}

/// Lower case keeps every character in its place: the code point of a capital
/// from `A` to `Z` goes up by thirty-two, that of any other character stays.
pub proof fn law_ascii_lower(s: Seq<char>)
    ensures
        ascii_lower(s).len() == s.len(),
        forall|i: int|
            0 <= i < s.len() ==> (#[trigger] ascii_lower(s)[i]) as int == (if 65 <= s[i] as int
                && s[i] as int <= 90 {
                s[i] as int + 32
            } else {
                s[i] as int
            }),
{
}

/// Two texts are the same but for case exactly if they have one length and at
/// each place the same character, or a capital from `A` to `Z` and the small
/// letter thirty-two code points above it.
pub proof fn law_same_ignoring_case(a: Seq<char>, b: Seq<char>)
    ensures
        same_ignoring_case(a, b) <==> {
            &&& a.len() == b.len()
            &&& forall|i: int|
                0 <= i < a.len() ==> {
                    let (x, y) = (#[trigger] a[i] as int, b[i] as int);
                    ||| x == y
                    ||| 65 <= x && x <= 90 && y == x + 32
                    ||| 65 <= y && y <= 90 && x == y + 32
                }
        },
{
    law_ascii_lower(a);
    law_ascii_lower(b);
    if same_ignoring_case(a, b) {
        assert forall|i: int| 0 <= i < a.len() implies {
            let (x, y) = (#[trigger] a[i] as int, b[i] as int);
            ||| x == y
            ||| 65 <= x && x <= 90 && y == x + 32
            ||| 65 <= y && y <= 90 && x == y + 32
        } by {
            assert(ascii_lower(a)[i] == ascii_lower(b)[i]);
        }
    }
    if a.len() == b.len() && forall|i: int|
        0 <= i < a.len() ==> {
            let (x, y) = (#[trigger] a[i] as int, b[i] as int);
            ||| x == y
            ||| 65 <= x && x <= 90 && y == x + 32
            ||| 65 <= y && y <= 90 && x == y + 32
        } {
        assert forall|i: int| 0 <= i < a.len() implies ascii_lower(a)[i] == ascii_lower(b)[i] by {
            let (x, y) = (a[i] as int, b[i] as int);
        }
        assert(ascii_lower(a) =~= ascii_lower(b));
    }
}

/// A pattern stands at a position exactly if it fits there and agrees with the
/// text character by character.
pub proof fn law_occurs_at(s: Seq<char>, pattern: Seq<char>, at: int)
    ensures
        occurs_at(s, pattern, at) <==> {
            &&& 0 <= at
            &&& at + pattern.len() <= s.len()
            &&& forall|k: int| 0 <= k < pattern.len() ==> s[at + k] == #[trigger] pattern[k]
        },
{
    if occurs_at(s, pattern, at) {
        assert forall|k: int| 0 <= k < pattern.len() implies s[at + k] == #[trigger] pattern[k] by {
            assert(s.subrange(at, at + pattern.len())[k] == s[at + k]);
        }
    }
    if 0 <= at && at + pattern.len() <= s.len() && forall|k: int|
        0 <= k < pattern.len() ==> s[at + k] == #[trigger] pattern[k] {
        assert(s.subrange(at, at + pattern.len()) =~= pattern);
    }
}

/// A text holds a pattern exactly if it is some text, the pattern, and some text.
pub proof fn law_occurs(s: Seq<char>, pattern: Seq<char>)
    ensures
        occurs(s, pattern) <==> exists|before: Seq<char>, after: Seq<char>|
            #![trigger before + pattern + after]
            s == before + pattern + after,
{
    if occurs(s, pattern) {
        let at = choose|at: int| occurs_at(s, pattern, at);
        let before = s.take(at);
        let after = s.skip(at + pattern.len());
        assert(s =~= before + s.subrange(at, at + pattern.len()) + after);
        assert(s == before + pattern + after);
    }
    if exists|before: Seq<char>, after: Seq<char>|
        #![trigger before + pattern + after]
        s == before + pattern + after {
        let (before, after) = choose|before: Seq<char>, after: Seq<char>|
            #![trigger before + pattern + after]
            s == before + pattern + after;
        let at = before.len() as int;
        assert(s.subrange(at, at + pattern.len()) =~= pattern);
        assert(occurs_at(s, pattern, at));
    }
}

/// Where a pattern comes first it is replaced, what stands before it is kept, and
/// the rest is replaced in the same way.
pub proof fn law_leftmost_replacement(
    before: Seq<char>,
    pattern: Seq<char>,
    after: Seq<char>,
    with: Seq<char>,
)
    requires
        pattern.len() > 0,
        forall|at: int|
            #[trigger] occurs_at(before + pattern + after, pattern, at) ==> at >= before.len(),
    ensures
        replaced(before + pattern + after, pattern, with) == before + with + replaced(
            after,
            pattern,
            with,
        ),
    decreases before.len(),
{
    let whole = before + pattern + after;
    let tail = replaced(after, pattern, with);
    if before.len() == 0 {
        assert(whole.subrange(0, pattern.len() as int) == pattern);
        assert(whole.skip(pattern.len() as int) == after);
        assert(with + tail == before + with + tail);
    } else {
        let shorter = before.drop_first();
        assert(!occurs_at(whole, pattern, 0));
        assert(whole.skip(1) == shorter + pattern + after);
        assert forall|at: int|
            #[trigger] occurs_at(shorter + pattern + after, pattern, at) implies at
            >= shorter.len() by {
            assert(whole.subrange(at + 1, at + 1 + pattern.len()) == whole.skip(1).subrange(
                at,
                at + pattern.len(),
            ));
            assert(occurs_at(whole, pattern, at + 1));
        }
        law_leftmost_replacement(shorter, pattern, after, with);
        assert(seq![whole[0]] + (shorter + with + tail) == before + with + tail);
    }
}

/// The tally of a character counts its places: nothing in the empty text, one
/// more for each time it is put behind.
pub proof fn law_tally(s: Seq<char>, last: char, c: char)
    ensures
        tally(Seq::empty(), c) == 0,
        tally(s.push(last), c) == tally(s, c) + (if last == c {
            1int
        } else {
            0int
        }),
{
    assert(s.push(last) == s + seq![last]);
    lemma_tally_concat(s, seq![last], c);
    assert(seq![last].drop_first() == Seq::<char>::empty());
    assert(tally(seq![last].drop_first(), c) == 0);
}

} // verus!
