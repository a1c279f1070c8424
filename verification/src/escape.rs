//! Escaping of caller-supplied text that goes into distinguished names and
//! search filters.

use vstd::prelude::*;

verus! {

/// The lower-case hexadecimal digit of a value below sixteen.
pub open spec fn hex_digit(v: int) -> char {
    if v < 10 {
        ('0' as int + v) as char
    } else {
        ('a' as int + (v - 10)) as char
    }
}

/// A backslash and the two hexadecimal digits of an ASCII character.
pub open spec fn hex_escape(c: char) -> Seq<char> {
    seq!['\\', hex_digit(c as int / 16), hex_digit(c as int % 16)]
}

/// The characters that have a meaning of their own in a search filter
/// (RFC 4515).
pub open spec fn filter_special(c: char) -> bool {
    c == '\\' || c == '*' || c == '(' || c == ')' || c == '\0'
}

/// A filter literal: every special character as its hexadecimal escape, every
/// other character as it is.
pub open spec fn filter_escaped(s: Seq<char>) -> Seq<char>
    decreases s.len(),
{
    if s.len() == 0 {
        seq![]
    } else {
        filter_escaped(s.drop_last()) + if filter_special(s.last()) {
            hex_escape(s.last())
        } else {
            seq![s.last()]
        }
    }
}

/// The characters that have a meaning of their own anywhere in the value of a
/// relative distinguished name (RFC 4514).
pub open spec fn dn_special(c: char) -> bool {
    c == '"' || c == '+' || c == ',' || c == ';' || c == '<' || c == '=' || c == '>' || c == '\\'
        || c == '\0'
}

/// Whether the character at `i` is escaped in the value of a relative
/// distinguished name: a special one anywhere, a space or a number sign at the
/// beginning, a space at the end.
pub open spec fn dn_escapes(s: Seq<char>, i: int) -> bool {
    ||| dn_special(s[i])
    ||| i == 0 && (s[i] == ' ' || s[i] == '#')
    ||| i == s.len() - 1 && s[i] == ' '
}

/// The first `n` characters of `s`, escaped as part of the value `s` of a
/// relative distinguished name.
pub open spec fn dn_escaped_prefix(s: Seq<char>, n: int) -> Seq<char>
    decreases n,
{
    if n <= 0 {
        seq![]
    } else {
        dn_escaped_prefix(s, n - 1) + if dn_escapes(s, n - 1) {
            hex_escape(s[n - 1])
        } else {
            seq![s[n - 1]]
        }
    }
}

/// The value of a relative distinguished name.
pub open spec fn dn_escaped(s: Seq<char>) -> Seq<char> {
    dn_escaped_prefix(s, s.len() as int)
}

/// `ldap3::ldap_escape`: the text with each backslash, asterisk, parenthesis
/// and NUL replaced by a backslash and the two lower-case hexadecimal digits
/// of the character, and everything else unchanged.
#[verifier::external_body]
pub(crate) fn ldap_escape(lit: &str) -> (r: String)
    ensures
        r@ == filter_escaped(lit@),
{
    ldap3::ldap_escape(lit).into_owned()
}

/// `ldap3::dn_escape`: the text with each character that RFC 4514 has escaped
/// in an attribute value (see `dn_escapes`) replaced by a backslash and the
/// two lower-case hexadecimal digits of the character, and everything else
/// unchanged.
#[verifier::external_body]
pub(crate) fn dn_escape(val: &str) -> (r: String)
    ensures
        r@ == dn_escaped(val@),
{
    ldap3::dn_escape(val).into_owned()
}

/// Whether a character is a lower-case hexadecimal digit.
pub open spec fn is_hex_digit(c: char) -> bool {
    '0' <= c <= '9' || 'a' <= c <= 'f'
}

/// Whether every backslash in `s` begins a hexadecimal escape.
pub open spec fn backslashes_escape(s: Seq<char>) -> bool {
    forall|i: int|
        0 <= i < s.len() && #[trigger] s[i] == '\\' ==> i + 2 < s.len() && is_hex_digit(s[i + 1])
            && is_hex_digit(s[i + 2])
}

/// The value of a hexadecimal digit.
pub open spec fn hex_value(c: char) -> int {
    if '0' <= c <= '9' {
        c as int - '0' as int
    } else {
        c as int - 'a' as int + 10
    }
}

/// The text that a string stands for when each backslash and the two
/// hexadecimal digits behind it are read as one character.
pub open spec fn unescaped(s: Seq<char>) -> Seq<char>
    decreases s.len(),
{
    if s.len() == 0 {
        seq![]
    } else if s.len() >= 3 && s[s.len() - 3] == '\\' {
        unescaped(s.take(s.len() - 3)).push(
            (16 * hex_value(s[s.len() - 2]) + hex_value(s[s.len() - 1])) as char,
        )
    } else {
        unescaped(s.drop_last()).push(s.last())
    }
}

/// An escape is three characters, a backslash and two hexadecimal digits, and
/// is read back as the character it stands for.
proof fn lemma_hex_escape(c: char)
    requires
        c as int <= 127,
    ensures
        hex_escape(c).len() == 3,
        hex_escape(c)[0] == '\\',
        is_hex_digit(hex_escape(c)[1]),
        is_hex_digit(hex_escape(c)[2]),
        16 * hex_value(hex_escape(c)[1]) + hex_value(hex_escape(c)[2]) == c as int,
{
}

/// A filter literal holds no asterisk, parenthesis or NUL, whatever text it is
/// made from, and no backslash but those of its escapes.
pub proof fn law_filter_literal_is_inert(s: Seq<char>)
    ensures
        forall|i: int|
            0 <= i < filter_escaped(s).len() ==> {
                let c = #[trigger] filter_escaped(s)[i];
                filter_special(c) ==> c == '\\'
            },
        backslashes_escape(filter_escaped(s)),
    decreases s.len(),
{
    if s.len() > 0 {
        law_filter_literal_is_inert(s.drop_last());
        if filter_special(s.last()) {
            lemma_hex_escape(s.last());
        }
    }
}

/// A filter literal stands for exactly the text it is made from.
pub proof fn law_filter_literal_reads_back(s: Seq<char>)
    ensures
        unescaped(filter_escaped(s)) == s,
    decreases s.len(),
{
    if s.len() > 0 {
        let before = filter_escaped(s.drop_last());
        law_filter_literal_reads_back(s.drop_last());
        law_filter_literal_is_inert(s.drop_last());
        let whole = filter_escaped(s);
        if filter_special(s.last()) {
            lemma_hex_escape(s.last());
            assert(whole.take(whole.len() - 3) == before);
        } else {
            assert(whole.drop_last() == before);
            if whole.len() >= 3 && whole[whole.len() - 3] == '\\' {
                assert(before[before.len() - 2] == '\\');
            }
        }
        assert(s.drop_last().push(s.last()) == s);
    }
}

/// Facts on the escaped text of a prefix of `s`, in step with its length.
proof fn lemma_dn_escaped_prefix(s: Seq<char>, n: int)
    requires
        0 <= n <= s.len(),
    ensures
        forall|i: int|
            0 <= i < dn_escaped_prefix(s, n).len() ==> {
                let c = #[trigger] dn_escaped_prefix(s, n)[i];
                dn_special(c) ==> c == '\\'
            },
        backslashes_escape(dn_escaped_prefix(s, n)),
        unescaped(dn_escaped_prefix(s, n)) == s.take(n),
        n > 0 ==> dn_escaped_prefix(s, n).len() > 0 && dn_escaped_prefix(s, n)[0] != ' '
            && dn_escaped_prefix(s, n)[0] != '#',
        n == s.len() && n > 0 ==> dn_escaped_prefix(s, n).last() != ' ',
    decreases n,
{
    if n > 0 {
        let before = dn_escaped_prefix(s, n - 1);
        let whole = dn_escaped_prefix(s, n);
        lemma_dn_escaped_prefix(s, n - 1);
        assert(s.take(n) == s.take(n - 1).push(s[n - 1]));
        if dn_escapes(s, n - 1) {
            lemma_hex_escape(s[n - 1]);
            assert(whole.take(whole.len() - 3) == before);
        } else {
            assert(whole.drop_last() == before);
            if whole.len() >= 3 && whole[whole.len() - 3] == '\\' {
                assert(before[before.len() - 2] == '\\');
            }
        }
        if n > 1 {
            assert(whole[0] == before[0]);
        }
    }
}

/// An escaped value holds no character that separates or structures
/// distinguished names, whatever text it is made from: no comma, plus sign,
/// semicolon, equals sign, angle bracket, double quote or NUL, no backslash but
/// those of its escapes, no space or number sign at its beginning and no space
/// at its end.
pub proof fn law_dn_value_is_inert(s: Seq<char>)
    ensures
        forall|i: int|
            0 <= i < dn_escaped(s).len() ==> {
                let c = #[trigger] dn_escaped(s)[i];
                dn_special(c) ==> c == '\\'
            },
        backslashes_escape(dn_escaped(s)),
        s.len() > 0 ==> dn_escaped(s).len() > 0 && dn_escaped(s)[0] != ' ' && dn_escaped(s)[0]
            != '#' && dn_escaped(s).last() != ' ',
{
    lemma_dn_escaped_prefix(s, s.len() as int);
}

/// An escaped value stands for exactly the text it is made from.
pub proof fn law_dn_value_reads_back(s: Seq<char>)
    ensures
        unescaped(dn_escaped(s)) == s,
{
    lemma_dn_escaped_prefix(s, s.len() as int);
    assert(s.take(s.len() as int) == s);
}

/// The filter literal of one character: RFC 4515 has a backslash and two
/// hexadecimal digits for five of them.
pub proof fn law_filter_literal_of_a_character(c: char)
    ensures
        filter_escaped(seq![c]) == (if c == '*' {
            seq!['\\', '2', 'a']
        } else if c == '(' {
            seq!['\\', '2', '8']
        } else if c == ')' {
            seq!['\\', '2', '9']
        } else if c == '\\' {
            seq!['\\', '5', 'c']
        } else if c == '\0' {
            seq!['\\', '0', '0']
        } else {
            seq![c]
        }),
{
    assert(seq![c].drop_last() == Seq::<char>::empty());
    assert(filter_escaped(Seq::empty()) == Seq::<char>::empty());
    assert(filter_escaped(seq![c]) =~= (if filter_special(c) {
        hex_escape(c)
    } else {
        seq![c]
    }));
}

/// The filter literal of two texts, one behind the other, is that of the first
/// and that of the second.
pub proof fn law_filter_literal_of_parts(a: Seq<char>, b: Seq<char>)
    ensures
        filter_escaped(a + b) == filter_escaped(a) + filter_escaped(b),
        filter_escaped(Seq::empty()) == Seq::<char>::empty(),
    decreases b.len(),
{
    if b.len() == 0 {
        assert(a + b == a);
        assert(filter_escaped(a) + filter_escaped(b) == filter_escaped(a));
    } else {
        assert((a + b).drop_last() == a + b.drop_last());
        law_filter_literal_of_parts(a, b.drop_last());
        let piece = if filter_special(b.last()) {
            hex_escape(b.last())
        } else {
            seq![b.last()]
        };
        assert(filter_escaped(a) + filter_escaped(b.drop_last()) + piece == filter_escaped(a) + (
        filter_escaped(b.drop_last()) + piece));
    }
}

/// The escape of a character in the value of a relative distinguished name.
proof fn lemma_dn_escape_of(c: char)
    ensures
        c == '"' ==> hex_escape(c) == seq!['\\', '2', '2'],
        c == '+' ==> hex_escape(c) == seq!['\\', '2', 'b'],
        c == ',' ==> hex_escape(c) == seq!['\\', '2', 'c'],
        c == ';' ==> hex_escape(c) == seq!['\\', '3', 'b'],
        c == '<' ==> hex_escape(c) == seq!['\\', '3', 'c'],
        c == '=' ==> hex_escape(c) == seq!['\\', '3', 'd'],
        c == '>' ==> hex_escape(c) == seq!['\\', '3', 'e'],
        c == '\\' ==> hex_escape(c) == seq!['\\', '5', 'c'],
        c == '\0' ==> hex_escape(c) == seq!['\\', '0', '0'],
        c == ' ' ==> hex_escape(c) == seq!['\\', '2', '0'],
        c == '#' ==> hex_escape(c) == seq!['\\', '2', '3'],
{
}

/// An escaped value is made of its characters in order: RFC 4514 has a backslash
/// and two hexadecimal digits for nine of them anywhere, for a space and a number
/// sign at the beginning and for a space at the end; every other character stands
/// for itself.
pub proof fn law_dn_value_of_characters(s: Seq<char>)
    ensures
        dn_escaped(s) == Seq::new(
            s.len(),
            |i: int|
                {
                    let c = s[i];
                    if c == '"' {
                        seq!['\\', '2', '2']
                    } else if c == '+' {
                        seq!['\\', '2', 'b']
                    } else if c == ',' {
                        seq!['\\', '2', 'c']
                    } else if c == ';' {
                        seq!['\\', '3', 'b']
                    } else if c == '<' {
                        seq!['\\', '3', 'c']
                    } else if c == '=' {
                        seq!['\\', '3', 'd']
                    } else if c == '>' {
                        seq!['\\', '3', 'e']
                    } else if c == '\\' {
                        seq!['\\', '5', 'c']
                    } else if c == '\0' {
                        seq!['\\', '0', '0']
                    } else if c == ' ' && (i == 0 || i + 1 == s.len()) {
                        seq!['\\', '2', '0']
                    } else if c == '#' && i == 0 {
                        seq!['\\', '2', '3']
                    } else {
                        seq![c]
                    }
                },
        ).flatten(),
{
    let pieces = Seq::new(
        s.len(),
        |i: int|
            {
                let c = s[i];
                if c == '"' {
                    seq!['\\', '2', '2']
                } else if c == '+' {
                    seq!['\\', '2', 'b']
                } else if c == ',' {
                    seq!['\\', '2', 'c']
                } else if c == ';' {
                    seq!['\\', '3', 'b']
                } else if c == '<' {
                    seq!['\\', '3', 'c']
                } else if c == '=' {
                    seq!['\\', '3', 'd']
                } else if c == '>' {
                    seq!['\\', '3', 'e']
                } else if c == '\\' {
                    seq!['\\', '5', 'c']
                } else if c == '\0' {
                    seq!['\\', '0', '0']
                } else if c == ' ' && (i == 0 || i + 1 == s.len()) {
                    seq!['\\', '2', '0']
                } else if c == '#' && i == 0 {
                    seq!['\\', '2', '3']
                } else {
                    seq![c]
                }
            },
    );
    assert forall|i: int| 0 <= i < s.len() implies #[trigger] pieces[i] == (if dn_escapes(s, i) {
        hex_escape(s[i])
    } else {
        seq![s[i]]
    }) by {
        lemma_dn_escape_of(s[i]);
    }
    lemma_dn_escaped_pieces(s, pieces, s.len() as int);
    assert(pieces.take(s.len() as int) == pieces);
}

/// The escaped text of a prefix is made of its pieces.
proof fn lemma_dn_escaped_pieces(s: Seq<char>, pieces: Seq<Seq<char>>, n: int)
    requires
        0 <= n <= s.len(),
        pieces.len() == s.len(),
        forall|i: int|
            0 <= i < s.len() ==> #[trigger] pieces[i] == (if dn_escapes(s, i) {
                hex_escape(s[i])
            } else {
                seq![s[i]]
            }),
    ensures
        dn_escaped_prefix(s, n) == pieces.take(n).flatten(),
    decreases n,
{
    if n > 0 {
        lemma_dn_escaped_pieces(s, pieces, n - 1);
        assert(pieces.take(n) == pieces.take(n - 1).push(pieces[n - 1]));
        pieces.take(n - 1).lemma_flatten_push(pieces[n - 1]);
    } else {
        assert(pieces.take(0) == Seq::<Seq<char>>::empty());
        assert(pieces.take(0).flatten() == Seq::<char>::empty());
    }
}

} // verus!
