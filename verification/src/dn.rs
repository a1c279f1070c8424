//! The first relative distinguished name (RDN) of a distinguished name, and its
//! value.
//!
//! In a distinguished name a backslash takes the character behind it out of the
//! syntax (RFC 4514). So an escaped comma does not end an RDN, and escaped white
//! space at the end of a value belongs to the value. Escapes are kept as they
//! are written.

use crate::text::{chars_of, is_white_space, trim_start};
use vstd::prelude::*;

verus! {

/// Where the RDN that is read from position `from` on ends: at the first comma
/// that no backslash escapes, or at the end of the DN.
pub open spec fn rdn_end(dn: Seq<char>, from: int) -> int
    decreases dn.len() - from,
{
    if from >= dn.len() {
        dn.len() as int
    } else if dn[from] == ',' {
        from
    } else if dn[from] == '\\' && from + 1 < dn.len() {
        rdn_end(dn, from + 2)
    } else {
        rdn_end(dn, from + 1)
    }
}

/// The first RDN of a DN.
pub open spec fn first_rdn(dn: Seq<char>) -> Seq<char> {
    dn.take(rdn_end(dn, 0))
}

/// Whether a text can stand as a value in an RDN: the comma behind it is the
/// first one that no backslash escapes.
pub open spec fn is_value(value: Seq<char>) -> bool {
    rdn_end(value.push(','), 0) == value.len()
}

/// How many backslashes a text ends in.
pub open spec fn final_backslashes(s: Seq<char>) -> nat
    decreases s.len(),
{
    if s.len() > 0 && s.last() == '\\' {
        final_backslashes(s.drop_last()) + 1
    } else {
        0
    }
}

/// Whether a backslash escapes the last character of a text. Of the backslashes
/// before it each pair is one escaped backslash, so it takes an odd number.
pub open spec fn last_is_escaped(s: Seq<char>) -> bool {
    s.len() > 0 && final_backslashes(s.drop_last()) % 2 == 1
}

/// A text without its trailing white space, up to white space that is escaped.
pub open spec fn trimmed_value_end(s: Seq<char>) -> Seq<char>
    decreases s.len(),
{
    if s.len() > 0 && crate::text::white_space(s.last()) && !last_is_escaped(s) {
        trimmed_value_end(s.drop_last())
    } else {
        s
    }
}

/// The value that a text behind an equals sign is: the text without the white
/// space around it that is not escaped.
pub open spec fn trimmed_value(s: Seq<char>) -> Seq<char> {
    trimmed_value_end(crate::text::trimmed_start(s))
}

/// The end of an RDN is a position of the DN, and not before the one it is
/// sought from.
proof fn lemma_end_bounds(dn: Seq<char>, from: int)
    requires
        0 <= from <= dn.len(),
    ensures
        from <= rdn_end(dn, from) <= dn.len(),
        rdn_end(dn, from) < dn.len() ==> dn[rdn_end(dn, from)] == ',',
    decreases dn.len() - from,
{
    if from < dn.len() && dn[from] != ',' {
        if dn[from] == '\\' && from + 1 < dn.len() {
            lemma_end_bounds(dn, from + 2);
        } else {
            lemma_end_bounds(dn, from + 1);
        }
    }
}

/// Without a comma up to a character that is no backslash, the end of the RDN is
/// the one that is sought from behind that character.
proof fn lemma_seek_behind(dn: Seq<char>, from: int, at: int)
    requires
        0 <= from <= at < dn.len(),
        dn[at] != '\\',
        forall|j: int| from <= j <= at ==> #[trigger] dn[j] != ',',
    ensures
        rdn_end(dn, from) == rdn_end(dn, at + 1),
    decreases at - from,
{
    assert(dn[from] != ',');
    if from < at {
        if dn[from] == '\\' {
            if from + 1 < at {
                lemma_seek_behind(dn, from + 2, at);
            }
        } else {
            lemma_seek_behind(dn, from + 1, at);
        }
    }
}

/// A text that is read as one RDN is read so from behind any character that is
/// no backslash.
proof fn lemma_one_rdn_behind(s: Seq<char>, from: int, at: int)
    requires
        0 <= from <= at < s.len(),
        s[at] != '\\',
        rdn_end(s, from) == s.len(),
    ensures
        rdn_end(s, at + 1) == s.len(),
    decreases at - from,
{
    if from < at {
        if s[from] == '\\' {
            if from + 1 < at {
                lemma_one_rdn_behind(s, from + 2, at);
            }
        } else {
            lemma_one_rdn_behind(s, from + 1, at);
        }
    }
}

/// A beginning of a text that is read as one RDN is read as one RDN.
proof fn lemma_one_rdn_beginning(s: Seq<char>, from: int, n: int)
    requires
        0 <= from,
        0 <= n <= s.len(),
        rdn_end(s, from) == s.len(),
    ensures
        rdn_end(s.take(n), from) == n,
    decreases s.len() - from,
{
    if from < n {
        assert(s.take(n)[from] == s[from]);
        if s[from] == '\\' && from + 1 < s.len() {
            lemma_one_rdn_beginning(s, from + 2, n);
            if from + 1 == n {
                assert(rdn_end(s.take(n), from + 1) == n);
            }
        } else {
            lemma_one_rdn_beginning(s, from + 1, n);
        }
    }
}

/// Positions of an end of a text are those of the text, shifted.
proof fn lemma_end_shift(s: Seq<char>, k: int, from: int)
    requires
        0 <= k <= s.len(),
        0 <= from,
    ensures
        rdn_end(s.skip(k), from) == rdn_end(s, k + from) - k,
    decreases s.len() - from,
{
    if k + from < s.len() {
        assert(s.skip(k)[from] == s[k + from]);
        if s[k + from] == '\\' && k + from + 1 < s.len() {
            lemma_end_shift(s, k, from + 2);
        } else {
            lemma_end_shift(s, k, from + 1);
        }
    }
}

/// Where an RDN ends does not depend on what stands behind the comma that ends
/// it.
proof fn lemma_end_is_local(s: Seq<char>, t: Seq<char>, from: int)
    requires
        0 <= from,
        rdn_end(s, from) < s.len(),
        rdn_end(s, from) < t.len(),
        forall|j: int| 0 <= j <= rdn_end(s, from) ==> #[trigger] s[j] == t[j],
    ensures
        rdn_end(t, from) == rdn_end(s, from),
    decreases s.len() - from,
{
    if from < s.len() {
        lemma_end_bounds(s, from);
        let end = rdn_end(s, from);
        assert(s[from] == t[from]);
        if s[from] != ',' {
            if s[from] == '\\' && from + 1 < s.len() {
                if from + 2 <= s.len() {
                    lemma_end_bounds(s, from + 2);
                }
                lemma_end_is_local(s, t, from + 2);
            } else {
                lemma_end_is_local(s, t, from + 1);
            }
        }
    }
}

/// The first RDN of a DN holds no comma that is not escaped. It is the whole DN,
/// or a comma stands behind it.
pub proof fn law_first_rdn(dn: Seq<char>)
    ensures
        0 <= rdn_end(dn, 0) <= dn.len(),
        rdn_end(dn, 0) < dn.len() ==> dn[rdn_end(dn, 0)] == ',',
        rdn_end(first_rdn(dn), 0) == first_rdn(dn).len(),
{
    lemma_end_bounds(dn, 0);
    lemma_first_rdn_is_one(dn, 0);
}

/// What stands before the end of an RDN is read as one RDN.
proof fn lemma_first_rdn_is_one(dn: Seq<char>, from: int)
    requires
        0 <= from <= dn.len(),
    ensures
        ({
            let end = rdn_end(dn, from);
            rdn_end(dn.take(end), from) == end
        }),
    decreases dn.len() - from,
{
    let end = rdn_end(dn, from);
    lemma_end_bounds(dn, from);
    if from < end {
        assert(dn.take(end)[from] == dn[from]);
        if dn[from] == '\\' && from + 1 < dn.len() {
            lemma_end_bounds(dn, from + 2);
            lemma_first_rdn_is_one(dn, from + 2);
        } else {
            lemma_end_bounds(dn, from + 1);
            lemma_first_rdn_is_one(dn, from + 1);
        }
    }
}

/// A value and a comma behind it: the value is read as one RDN, and whatever
/// begins with a comma behind it does not change that.
proof fn lemma_value_ends(value: Seq<char>, rest: Seq<char>)
    requires
        is_value(value),
        rest.len() == 0 || rest[0] == ',',
    ensures
        rdn_end(value + rest, 0) == value.len(),
{
    let s = value.push(',');
    if rest.len() == 0 {
        lemma_first_rdn_is_one(s, 0);
        assert(s.take(value.len() as int) == value);
        assert(value + rest == value);
    } else {
        let t = value + rest;
        assert forall|j: int| 0 <= j <= value.len() implies #[trigger] s[j] == t[j] by {}
        lemma_end_is_local(s, t, 0);
    }
}

/// An attribute name without a comma, an equals sign and a value are the first
/// RDN of a DN, whatever RDNs follow.
pub proof fn law_first_rdn_of(name: Seq<char>, value: Seq<char>, rest: Seq<char>)
    requires
        !name.contains(','),
        is_value(value),
        rest.len() == 0 || rest[0] == ',',
    ensures
        first_rdn(name + seq!['='] + value + rest) == name + seq!['='] + value,
{
    let dn = name + seq!['='] + value + rest;
    let at = name.len() as int;
    assert forall|j: int| 0 <= j <= at implies #[trigger] dn[j] != ',' by {
        if j < at {
            assert(name[j] == dn[j]);
        }
    }
    lemma_seek_behind(dn, 0, at);
    assert(dn.skip(at + 1) == value + rest);
    lemma_end_shift(dn, at + 1, 0);
    lemma_value_ends(value, rest);
    assert(dn.take(at + 1 + value.len()) == name + seq!['='] + value);
}

/// A text without a backslash before its last character does not end in an
/// escape.
proof fn lemma_no_backslash_no_escape(s: Seq<char>)
    requires
        !s.contains('\\'),
    ensures
        !last_is_escaped(s),
{
    if s.len() > 1 {
        assert(s.drop_last().last() == s[s.len() - 2]);
    }
}

/// Trimming the end of a value cuts white space alone, and cuts until what is
/// left ends in no white space but escaped one.
proof fn lemma_trimmed_value_end(s: Seq<char>)
    ensures
        trimmed_value_end(s).len() <= s.len(),
        trimmed_value_end(s) == s.take(trimmed_value_end(s).len() as int),
        trimmed_value_end(s).len() > 0 && crate::text::white_space(trimmed_value_end(s).last())
            ==> last_is_escaped(trimmed_value_end(s)),
        forall|i: int|
            trimmed_value_end(s).len() <= i < s.len() ==> crate::text::white_space(#[trigger] s[i]),
        !s.contains('\\') ==> trimmed_value_end(s) == crate::text::trimmed_end(s),
    decreases s.len(),
{
    if !s.contains('\\') {
        lemma_no_backslash_no_escape(s);
    }
    if s.len() > 0 && crate::text::white_space(s.last()) && !last_is_escaped(s) {
        let rest = s.drop_last();
        lemma_trimmed_value_end(rest);
        let kept = trimmed_value_end(rest).len() as int;
        assert(rest.take(kept) == s.take(kept));
        assert forall|i: int| kept <= i < s.len() implies crate::text::white_space(
            #[trigger] s[i],
        ) by {
            if i < s.len() - 1 {
                assert(rest[i] == s[i]);
            }
        }
        if !s.contains('\\') {
            assert forall|i: int| 0 <= i < rest.len() implies rest[i] != '\\' by {
                assert(rest[i] == s[i]);
            }
            assert(!rest.contains('\\'));
        }
    } else {
        assert(s.take(s.len() as int) == s);
    }
}

/// A value is a part of the text between nothing but white space. It does not
/// begin with white space, and ends in white space only where that is escaped.
/// It is empty exactly if the text is blank. Without a backslash it is the text
/// without the white space around it.
pub proof fn law_trimmed_value(s: Seq<char>)
    ensures
        exists|from: int, to: int|
            {
                &&& 0 <= from <= to <= s.len()
                &&& trimmed_value(s) == #[trigger] s.subrange(from, to)
                &&& crate::text::blank(s.take(from))
                &&& crate::text::blank(s.skip(to))
            },
        trimmed_value(s).len() > 0 ==> !crate::text::white_space(trimmed_value(s).first()),
        trimmed_value(s).len() > 0 && crate::text::white_space(trimmed_value(s).last())
            ==> last_is_escaped(trimmed_value(s)),
        trimmed_value(s).len() == 0 <==> crate::text::blank(s),
        !s.contains('\\') ==> trimmed_value(s) == crate::text::trimmed(s),
{
    let rest = crate::text::trimmed_start(s);
    let value = trimmed_value(s);
    crate::text::law_trimmed_start(s);
    lemma_trimmed_value_end(rest);
    let from = s.len() - rest.len();
    let to = from + value.len();
    assert(rest.take(value.len() as int) =~= s.subrange(from, to));
    assert forall|i: int| 0 <= i < s.take(from).len() implies crate::text::white_space(
        #[trigger] s.take(from)[i],
    ) by {
        assert(crate::text::white_space(s[i]));
    }
    assert forall|i: int| 0 <= i < s.skip(to).len() implies crate::text::white_space(
        #[trigger] s.skip(to)[i],
    ) by {
        assert(rest[to - from + i] == s[to + i]);
    }
    assert(value == s.subrange(from, to));
    if value.len() > 0 {
        assert(value[0] == rest[0]);
    } else if rest.len() > 0 {
        assert(crate::text::white_space(rest[0]));
    }
    if !s.contains('\\') {
        assert forall|i: int| 0 <= i < rest.len() implies rest[i] != '\\' by {
            assert(rest[i] == s[from + i]);
        }
        assert(!rest.contains('\\'));
    }
}

/// A text without a backslash that is read as one RDN holds no comma, and its
/// last character is not escaped.
pub proof fn law_no_backslash(s: Seq<char>)
    requires
        !s.contains('\\'),
        rdn_end(s, 0) == s.len(),
    ensures
        !s.contains(','),
        !last_is_escaped(s),
{
    lemma_no_backslash_no_escape(s);
    assert forall|i: int| 0 <= i < s.len() implies s[i] != ',' by {
        if i > 0 {
            assert(s[i - 1] != '\\');
            lemma_one_rdn_behind(s, 0, i - 1);
        }
    }
}

/// A text without a comma in which a backslash always begins an escape by
/// hexadecimal digits can stand as a value.
pub proof fn law_escaped_is_value(value: Seq<char>)
    requires
        !value.contains(','),
        crate::escape::backslashes_escape(value),
    ensures
        is_value(value),
{
    let s = value.push(',');
    let last = value.len() - 1;
    if value.len() > 0 {
        assert(value[last] != '\\');
        assert forall|j: int| 0 <= j <= last implies #[trigger] s[j] != ',' by {
            assert(value[j] == s[j]);
        }
        lemma_seek_behind(s, 0, last);
    }
}

/// What stands behind an equals sign of an RDN, as a value, holds no comma that
/// is not escaped.
pub proof fn law_value_is_one_rdn(rdn: Seq<char>, eq: int)
    requires
        rdn_end(rdn, 0) == rdn.len(),
        0 <= eq < rdn.len(),
        rdn[eq] == '=',
    ensures
        rdn_end(trimmed_value(rdn.skip(eq + 1)), 0) == trimmed_value(rdn.skip(eq + 1)).len(),
{
    let behind = rdn.skip(eq + 1);
    let rest = crate::text::trimmed_start(behind);
    crate::text::law_trimmed_start(behind);
    let start = eq + 1 + (behind.len() - rest.len());
    let at = start - 1;
    if at > eq {
        assert(crate::text::white_space(behind[at - eq - 1]));
    }
    lemma_one_rdn_behind(rdn, 0, at);
    assert(rdn.skip(start) == rest);
    lemma_end_shift(rdn, start, 0);
    lemma_trimmed_value_end(rest);
    lemma_one_rdn_beginning(rest, 0, trimmed_value(behind).len() as int);
}

/// As many backslashes stand at the end of a text as are counted, and no more.
pub proof fn law_final_backslashes(s: Seq<char>)
    ensures
        final_backslashes(s) <= s.len(),
        forall|i: int|
            s.len() - final_backslashes(s) <= i < s.len() ==> #[trigger] s[i] == '\\',
        final_backslashes(s) < s.len() ==> s[s.len() - final_backslashes(s) - 1] != '\\',
    decreases s.len(),
{
    if s.len() > 0 && s.last() == '\\' {
        let rest = s.drop_last();
        law_final_backslashes(rest);
        assert forall|i: int| s.len() - final_backslashes(s) <= i < s.len() implies #[trigger] s[i]
            == '\\' by {
            if i < s.len() - 1 {
                assert(rest[i] == s[i]);
            }
        }
    }
}

/// The last character is escaped exactly if an odd number of backslashes stands
/// before it.
pub proof fn law_last_is_escaped(before: Seq<char>, c: char)
    ensures
        last_is_escaped(before.push(c)) <==> final_backslashes(before) % 2 == 1,
        !last_is_escaped(Seq::empty()),
{
    assert(before.push(c).drop_last() == before);
}

/// An RDN that is sought from a character that is not escaped ends at the first
/// comma that an even number of backslashes stands before.
proof fn lemma_end_by_parity(dn: Seq<char>, from: int)
    requires
        0 <= from <= dn.len(),
        final_backslashes(dn.take(from)) % 2 == 0,
    ensures
        ({
            let end = rdn_end(dn, from);
            &&& end <= dn.len()
            &&& end < dn.len() ==> final_backslashes(dn.take(end)) % 2 == 0
            &&& forall|j: int|
                from <= j < end && #[trigger] dn[j] == ',' ==> final_backslashes(dn.take(j)) % 2
                    == 1
        }),
    decreases dn.len() - from,
{
    if from < dn.len() && dn[from] != ',' {
        assert(dn.take(from + 1).drop_last() == dn.take(from));
        assert(dn.take(from + 1).last() == dn[from]);
        if dn[from] == '\\' && from + 1 < dn.len() {
            assert(dn.take(from + 2).drop_last() == dn.take(from + 1));
            assert(dn.take(from + 2).last() == dn[from + 1]);
            assert(final_backslashes(dn.take(from + 1)) == final_backslashes(dn.take(from)) + 1);
            assert(final_backslashes(dn.take(from + 2)) % 2 == 0);
            lemma_end_by_parity(dn, from + 2);
        } else if dn[from] != '\\' {
            lemma_end_by_parity(dn, from + 1);
        } else {
            assert(rdn_end(dn, from + 1) == dn.len());
        }
        assert forall|j: int|
            from <= j < rdn_end(dn, from) && #[trigger] dn[j] == ',' implies final_backslashes(
            dn.take(j),
        ) % 2 == 1 by {
            if j == from + 1 && dn[from] == '\\' {
                assert(final_backslashes(dn.take(j)) == final_backslashes(dn.take(from)) + 1);
            }
        }
    }
}

/// The first RDN of a DN is what stands before the first comma that is not
/// escaped, one before which the number of backslashes is even; without such a
/// comma it is the whole DN.
pub proof fn law_first_rdn_ends_at_a_comma(dn: Seq<char>)
    ensures
        ({
            let end = rdn_end(dn, 0);
            &&& 0 <= end <= dn.len()
            &&& first_rdn(dn) == dn.subrange(0, end)
            &&& end < dn.len() ==> dn[end] == ',' && final_backslashes(dn.subrange(0, end)) % 2 == 0
            &&& forall|j: int|
                0 <= j < end && #[trigger] dn[j] == ',' ==> final_backslashes(dn.subrange(0, j)) % 2
                    == 1
        }),
{
    let end = rdn_end(dn, 0);
    lemma_end_bounds(dn, 0);
    lemma_end_by_parity(dn, 0);
    assert(dn.take(end) == dn.subrange(0, end));
    assert forall|j: int| 0 <= j < end && #[trigger] dn[j] == ',' implies final_backslashes(
        dn.subrange(0, j),
    ) % 2 == 1 by {
        assert(dn.take(j) == dn.subrange(0, j));
    }
}

/// A text can stand as a value exactly if each comma in it is escaped and it does
/// not end in a backslash that escapes what follows.
pub proof fn law_values(value: Seq<char>)
    ensures
        is_value(value) <==> {
            &&& final_backslashes(value) % 2 == 0
            &&& forall|j: int|
                0 <= j < value.len() && #[trigger] value[j] == ',' ==> final_backslashes(
                    value.subrange(0, j),
                ) % 2 == 1
        },
{
    let s = value.push(',');
    let end = rdn_end(s, 0);
    law_first_rdn_ends_at_a_comma(s);
    assert(s.subrange(0, value.len() as int) == value);
    assert forall|j: int| 0 <= j < value.len() implies value[j] == s[j] && #[trigger] s.subrange(
        0,
        j,
    ) == value.subrange(0, j) by {}
    if is_value(value) {
        assert forall|j: int| 0 <= j < value.len() && #[trigger] value[j] == ',' implies (
        final_backslashes(value.subrange(0, j)) % 2 == 1) by {
            assert(s[j] == ',');
            assert(s.subrange(0, j) == value.subrange(0, j));
        }
    } else if final_backslashes(value) % 2 == 0 {
        if end < value.len() {
            assert(value[end] == ',');
            assert(s.subrange(0, end) == value.subrange(0, end));
        } else {
            assert(s[value.len() as int] == ',');
        }
    }
}

/// The white space that is cut from a text to have its value: at the beginning
/// all there is, at the end all there is up to white space that is escaped, and
/// nothing else.
pub proof fn law_value_is_cut_out(s: Seq<char>)
    ensures
        exists|from: int, to: int|
            {
                &&& 0 <= from <= to <= s.len()
                &&& trimmed_value(s) == #[trigger] s.subrange(from, to)
                &&& forall|i: int| 0 <= i < from ==> crate::text::white_space(#[trigger] s[i])
                &&& from < s.len() ==> !crate::text::white_space(s[from])
                &&& forall|i: int|
                    to <= i < s.len() ==> crate::text::white_space(#[trigger] s[i])
                        && final_backslashes(s.subrange(from, i)) % 2 == 0
                &&& to > from && crate::text::white_space(s[to - 1]) ==> final_backslashes(
                    s.subrange(from, to - 1),
                ) % 2 == 1
            },
{
    let rest = crate::text::trimmed_start(s);
    let value = trimmed_value(s);
    crate::text::law_trimmed_start(s);
    lemma_trimmed_value_end(rest);
    lemma_cut_is_not_escaped(rest);
    let from = s.len() - rest.len();
    let to = from + value.len();
    assert(value =~= s.subrange(from, to));
    if from < s.len() {
        assert(rest[0] == s[from]);
    }
    assert forall|i: int| to <= i < s.len() implies crate::text::white_space(#[trigger] s[i])
        && final_backslashes(s.subrange(from, i)) % 2 == 0 by {
        assert(rest[i - from] == s[i]);
        assert(rest.take(i - from) == s.subrange(from, i));
    }
    if to > from {
        assert(value.last() == s[to - 1]);
        assert(value.drop_last() == s.subrange(from, to - 1));
    }
}

/// What is cut from the end of a text is not escaped.
proof fn lemma_cut_is_not_escaped(s: Seq<char>)
    ensures
        forall|i: int|
            trimmed_value_end(s).len() <= i < s.len() ==> final_backslashes(#[trigger] s.take(i))
                % 2 == 0,
    decreases s.len(),
{
    if s.len() > 0 && crate::text::white_space(s.last()) && !last_is_escaped(s) {
        let rest = s.drop_last();
        lemma_cut_is_not_escaped(rest);
        assert forall|i: int| trimmed_value_end(s).len() <= i < s.len() implies final_backslashes(
            #[trigger] s.take(i),
        ) % 2 == 0 by {
            if i < s.len() - 1 {
                assert(rest.take(i) == s.take(i));
            } else {
                assert(s.take(i) == rest);
            }
        }
    }
}

/// Where the first RDN of a DN ends.
pub fn first_rdn_end(chars: &Vec<char>) -> (r: usize)
    ensures
        r == rdn_end(chars@, 0),
        r <= chars.len(),
{
    let mut at: usize = 0;
    while at < chars.len() && chars[at] != ','
        invariant
            at <= chars.len(),
            rdn_end(chars@, at as int) == rdn_end(chars@, 0),
        decreases chars.len() - at,
    {
        if chars[at] == '\\' && chars.len() - at > 1 {
            at = at + 2;
        } else {
            at = at + 1;
        }
    }
    at
}

/// Whether a backslash escapes the last of the first `end` characters.
fn ends_escaped(chars: &Vec<char>, end: usize) -> (r: bool)
    requires
        0 < end <= chars.len(),
    ensures
        r == last_is_escaped(chars@.take(end as int)),
{
    let ghost before = chars@.take(end - 1);
    let mut at: usize = end - 1;
    let mut odd: bool = false;
    proof {
        assert(chars@.take(end as int).drop_last() == before);
        assert(before.take(at as int) == before);
    }
    while at > 0 && chars[at - 1] == '\\'
        invariant
            at < end <= chars.len(),
            before == chars@.take(end - 1),
            final_backslashes(before) % 2 == (final_backslashes(before.take(at as int)) + if odd {
                1nat
            } else {
                0nat
            }) % 2,
        decreases at,
    {
        proof {
            assert(before.take(at as int).last() == chars@[at - 1]);
            assert(before.take(at as int).drop_last() == before.take(at - 1));
        }
        odd = !odd;
        at = at - 1;
    }
    proof {
        if at > 0 {
            assert(before.take(at as int).last() == chars@[at - 1]);
        }
    }
    odd
}

/// The value that a text behind an equals sign is.
pub fn trim_value(s: &str) -> (r: &str)
    ensures
        r@ == trimmed_value(s@),
{
    let rest: &str = trim_start(s);
    let chars: Vec<char> = chars_of(rest);
    let mut end: usize = chars.len();
    proof {
        assert(rest@.take(end as int) == rest@);
    }
    while end > 0 && is_white_space(chars[end - 1]) && !ends_escaped(&chars, end)
        invariant
            chars@ == rest@,
            end <= chars.len(),
            trimmed_value_end(rest@.take(end as int)) == trimmed_value_end(rest@),
        decreases end,
    {
        proof {
            assert(rest@.take(end as int).last() == rest@[end - 1]);
            assert(rest@.take(end as int).drop_last() == rest@.take(end - 1));
        }
        end = end - 1;
    }
    proof {
        if end > 0 {
            assert(rest@.take(end as int).last() == rest@[end - 1]);
        }
        assert(rest@.subrange(0, end as int) == rest@.take(end as int));
    }
    rest.substring_char(0, end)
}

} // verus!
