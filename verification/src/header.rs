//! The `Authorization: Basic` header.

use crate::octets::{base64_decode, utf8_decode};
use crate::text::{chars_of, eq_ignore_ascii_case, find_char};
use vstd::prelude::*;
use vstd::utf8::encode_utf8;

verus! {

/// A parsed `Authorization: Basic` credential.
pub enum ParsedBasic {
    /// No credential, or a scheme other than Basic: other resolvers may have a
    /// use for the request.
    Absent,
    /// A Basic credential that is malformed: bad base64, bad UTF-8, no colon,
    /// or an empty field. It is never tried against the directory, where an
    /// empty password would become an unauthenticated bind.
    Invalid(String),
    /// A well-formed user name and password.
    Credentials {
        /// The text before the first colon.
        username: String,
        /// The text behind the first colon.
        password: String,
    },
}

/// What a parsed credential is.
pub enum CredentialView {
    Absent,
    Invalid(Seq<char>),
    Credentials { username: Seq<char>, password: Seq<char> },
}

impl View for ParsedBasic {
    type V = CredentialView;

    open spec fn view(&self) -> CredentialView {
        match *self {
            ParsedBasic::Absent => CredentialView::Absent,
            ParsedBasic::Invalid(reason) => CredentialView::Invalid(reason@),
            ParsedBasic::Credentials { username, password } => CredentialView::Credentials {
                username: username@,
                password: password@,
            },
        }
    }
}

/// The value of the first header of that name; the case of ASCII letters in
/// names does not matter.
pub open spec fn header_value(headers: Seq<(Seq<char>, Seq<char>)>, target: Seq<char>) -> Option<
    Seq<char>,
>
    decreases headers.len(),
{
    if headers.len() == 0 {
        None
    } else if crate::text::same_ignoring_case(headers.first().0, target) {
        Some(headers.first().1)
    } else {
        header_value(headers.drop_first(), target)
    }
}

/// What stands behind `Basic` and one space; the case of the scheme does not
/// matter.
pub open spec fn basic_credential(value: Seq<char>) -> Option<Seq<char>> {
    if value.len() > 5 && crate::text::same_ignoring_case(value.take(5), "Basic"@) && value[5]
        == ' ' {
        Some(value.skip(6))
    } else {
        None
    }
}

/// A decoded credential, split at its first colon.
pub open spec fn split_credential(decoded: Seq<char>) -> CredentialView {
    match crate::text::position(decoded, ':') {
        None => CredentialView::Invalid("malformed Basic credential (no colon)"@),
        Some(colon) => if colon == 0 {
            CredentialView::Invalid("empty username"@)
        } else if colon + 1 == decoded.len() {
            CredentialView::Invalid("empty password"@)
        } else {
            CredentialView::Credentials {
                username: decoded.take(colon),
                password: decoded.skip(colon + 1),
            }
        },
    }
}

/// A base64 credential, decoded and split.
pub open spec fn decoded_credential(credential: Seq<char>) -> CredentialView {
    match crate::octets::base64_decoded(encode_utf8(credential)) {
        None => CredentialView::Invalid("malformed Basic credential (base64)"@),
        Some(bytes) => match crate::octets::utf8_decoded(bytes) {
            None => CredentialView::Invalid("malformed Basic credential (non-utf8)"@),
            Some(decoded) => split_credential(decoded),
        },
    }
}

/// The credential that the headers of a request carry.
pub open spec fn parsed_basic(headers: Seq<(Seq<char>, Seq<char>)>) -> CredentialView {
    match header_value(headers, "authorization"@) {
        None => CredentialView::Absent,
        Some(value) => match basic_credential(value) {
            None => CredentialView::Absent,
            Some(credential) => if credential.len() == 0 {
                CredentialView::Absent
            } else {
                decoded_credential(credential)
            },
        },
    }
}

/// A credential that is handed on has a user name and a password that hold
/// something, and the user name holds no colon. Joined by a colon again they
/// are the decoded credential.
pub proof fn law_credentials_are_complete(decoded: Seq<char>)
    ensures
        split_credential(decoded) matches CredentialView::Credentials { username, password } ==> {
            &&& username.len() > 0
            &&& password.len() > 0
            &&& !username.contains(':')
            &&& username + seq![':'] + password == decoded
        },
{
    crate::text::law_position(decoded, ':');
}

/// Whatever credential the headers of a request carry, its user name and its
/// password hold something and its user name holds no colon.
pub proof fn law_parsed_credentials_are_complete(headers: Seq<(Seq<char>, Seq<char>)>)
    ensures
        parsed_basic(headers) matches CredentialView::Credentials { username, password } ==> {
            &&& username.len() > 0
            &&& password.len() > 0
            &&& !username.contains(':')
        },
{
    if let Some(value) = header_value(headers, "authorization"@) {
        if let Some(credential) = basic_credential(value) {
            if let Some(bytes) = crate::octets::base64_decoded(encode_utf8(credential)) {
                if let Some(decoded) = crate::octets::utf8_decoded(bytes) {
                    law_credentials_are_complete(decoded);
                }
            }
        }
    }
}

/// A user name without a colon and a password are read back from
/// `username:password`; the password may hold colons.
pub proof fn law_split_reads_back(username: Seq<char>, password: Seq<char>)
    requires
        username.len() > 0,
        password.len() > 0,
        !username.contains(':'),
    ensures
        split_credential(username + seq![':'] + password) == (CredentialView::Credentials {
            username,
            password,
        }),
{
    let decoded = username + seq![':'] + password;
    let at = username.len() as int;
    crate::text::law_position(decoded, ':');
    assert(decoded[at] == ':');
    assert(decoded.contains(':'));
    let colon = crate::text::position(decoded, ':')->0;
    if colon < at {
        assert(username[colon] == ':');
    }
    assert(colon == at);
    assert(decoded.take(at) == username);
    assert(decoded.skip(at + 1) == password);
}

/// A request whose `Authorization` header is the scheme `Basic` in any case, a
/// space, and the base64 text of `username:password` in UTF-8, carries exactly
/// that user name and password.
pub proof fn law_basic_header_reads_back(
    headers: Seq<(Seq<char>, Seq<char>)>,
    scheme: Seq<char>,
    username: Seq<char>,
    password: Seq<char>,
)
    requires
        username.len() > 0,
        password.len() > 0,
        !username.contains(':'),
        crate::text::same_ignoring_case(scheme, "Basic"@),
        header_value(headers, "authorization"@) == Some(
            scheme + seq![' '] + crate::octets::base64_chars(
                encode_utf8(username + seq![':'] + password),
            ),
        ),
    ensures
        parsed_basic(headers) == (CredentialView::Credentials { username, password }),
{
    let decoded = username + seq![':'] + password;
    let bytes = encode_utf8(decoded);
    let credential = crate::octets::base64_chars(bytes);
    let value = scheme + seq![' '] + credential;
    reveal_strlit("Basic");
    assert(crate::text::ascii_lower(scheme).len() == 5);
    assert(value.take(5) == scheme);
    assert(value.skip(6) == credential);
    crate::octets::law_base64_chars_encode(bytes);
    crate::octets::law_base64_reads_back(bytes);
    vstd::utf8::encode_utf8_valid_utf8(decoded);
    vstd::utf8::encode_utf8_decode_utf8(decoded);
    law_split_reads_back(username, password);
    if credential.len() == 0 {
        assert(encode_utf8(credential) == Seq::<u8>::empty());
        crate::octets::law_base64_is_injective(bytes, Seq::empty());
        assert(decoded.len() == 0);
    }
}

/// The first header of a name gives the value; where no header has the name
/// there is none.
pub proof fn law_first_header_counts(
    headers: Seq<(Seq<char>, Seq<char>)>,
    target: Seq<char>,
    i: int,
)
    requires
        0 <= i <= headers.len(),
        forall|j: int|
            0 <= j < i ==> !crate::text::same_ignoring_case((#[trigger] headers[j]).0, target),
        i < headers.len() ==> crate::text::same_ignoring_case(headers[i].0, target),
    ensures
        header_value(headers, target) == (if i < headers.len() {
            Some(headers[i].1)
        } else {
            None
        }),
    decreases headers.len(),
{
    if headers.len() > 0 && i > 0 {
        let rest = headers.drop_first();
        assert(headers[0] == headers.first());
        assert forall|j: int| 0 <= j < i - 1 implies !crate::text::same_ignoring_case(
            (#[trigger] rest[j]).0,
            target,
        ) by {
            assert(rest[j] == headers[j + 1]);
        }
        law_first_header_counts(rest, target, i - 1);
    }
}

/// The case of ASCII letters in header names does not matter.
pub proof fn law_header_names_ignore_case(
    headers: Seq<(Seq<char>, Seq<char>)>,
    others: Seq<(Seq<char>, Seq<char>)>,
    target: Seq<char>,
)
    requires
        headers.len() == others.len(),
        forall|i: int|
            0 <= i < headers.len() ==> crate::text::same_ignoring_case(
                (#[trigger] headers[i]).0,
                others[i].0,
            ) && headers[i].1 == others[i].1,
    ensures
        header_value(headers, target) == header_value(others, target),
    decreases headers.len(),
{
    if headers.len() > 0 {
        assert(headers.first() == headers[0]);
        assert forall|i: int| 0 <= i < headers.drop_first().len() implies (
        crate::text::same_ignoring_case(
            (#[trigger] headers.drop_first()[i]).0,
            others.drop_first()[i].0,
        ) && headers.drop_first()[i].1 == others.drop_first()[i].1) by {
            assert(headers[i + 1] == headers.drop_first()[i]);
        }
        law_header_names_ignore_case(headers.drop_first(), others.drop_first(), target);
    }
}

/// A credential stands behind the five letters of `Basic`, each in either case,
/// and one space: all that follows is the credential, be it empty, and no other
/// value holds one.
pub proof fn law_basic_scheme(value: Seq<char>)
    ensures
        basic_credential(value) == (if {
            &&& value.len() >= 6
            &&& value[0] == 'B' || value[0] == 'b'
            &&& value[1] == 'A' || value[1] == 'a'
            &&& value[2] == 'S' || value[2] == 's'
            &&& value[3] == 'I' || value[3] == 'i'
            &&& value[4] == 'C' || value[4] == 'c'
            &&& value[5] == ' '
        } {
            Some(value.subrange(6, value.len() as int))
        } else {
            None
        }),
{
    reveal_strlit("Basic");
    if value.len() > 5 {
        let scheme = value.take(5);
        crate::text::law_same_ignoring_case(scheme, "Basic"@);
        assert(scheme[0] == value[0] && scheme[1] == value[1] && scheme[2] == value[2] && scheme[3]
            == value[3] && scheme[4] == value[4]);
        assert("Basic"@[0] == 'B' && "Basic"@[1] == 'a' && "Basic"@[2] == 's' && "Basic"@[3] == 'i'
            && "Basic"@[4] == 'c');
        assert(value.skip(6) =~= value.subrange(6, value.len() as int));
    }
}

/// Headers without an `Authorization` header carry no credential.
pub proof fn law_no_header_is_absent(headers: Seq<(Seq<char>, Seq<char>)>)
    requires
        forall|j: int|
            0 <= j < headers.len() ==> !crate::text::same_ignoring_case(
                (#[trigger] headers[j]).0,
                "authorization"@,
            ),
    ensures
        parsed_basic(headers) == CredentialView::Absent,
{
    law_first_header_counts(headers, "authorization"@, headers.len() as int);
}

/// Headers whose first `Authorization` value does not begin with the five letters
/// of `Basic`, in any case, and one space carry no credential, and neither do
/// those where nothing follows the space. Any other first value is taken for a
/// credential: it is well-formed or refused, and never passed over.
pub proof fn law_other_schemes_are_absent(headers: Seq<(Seq<char>, Seq<char>)>, i: int)
    requires
        0 <= i < headers.len(),
        crate::text::same_ignoring_case(headers[i].0, "authorization"@),
        forall|j: int|
            0 <= j < i ==> !crate::text::same_ignoring_case(
                (#[trigger] headers[j]).0,
                "authorization"@,
            ),
    ensures
        ({
            let value = headers[i].1;
            let begins_with_basic = {
                &&& value.len() >= 6
                &&& value[0] == 'B' || value[0] == 'b'
                &&& value[1] == 'A' || value[1] == 'a'
                &&& value[2] == 'S' || value[2] == 's'
                &&& value[3] == 'I' || value[3] == 'i'
                &&& value[4] == 'C' || value[4] == 'c'
                &&& value[5] == ' '
            };
            &&& !begins_with_basic ==> parsed_basic(headers) == CredentialView::Absent
            &&& value.len() == 6 ==> parsed_basic(headers) == CredentialView::Absent
            &&& begins_with_basic && value.len() > 6 ==> !(parsed_basic(headers) is Absent)
        }),
{
    law_first_header_counts(headers, "authorization"@, i);
    law_basic_scheme(headers[i].1);
}

/// What the headers carry is decided by their first `Authorization` header alone:
/// two requests in which it has the same value carry the same credential.
pub proof fn law_only_the_first_header_decides(
    headers: Seq<(Seq<char>, Seq<char>)>,
    i: int,
    others: Seq<(Seq<char>, Seq<char>)>,
    k: int,
)
    requires
        0 <= i < headers.len(),
        crate::text::same_ignoring_case(headers[i].0, "authorization"@),
        forall|j: int|
            0 <= j < i ==> !crate::text::same_ignoring_case(
                (#[trigger] headers[j]).0,
                "authorization"@,
            ),
        0 <= k < others.len(),
        crate::text::same_ignoring_case(others[k].0, "authorization"@),
        forall|j: int|
            0 <= j < k ==> !crate::text::same_ignoring_case(
                (#[trigger] others[j]).0,
                "authorization"@,
            ),
        headers[i].1 == others[k].1,
    ensures
        parsed_basic(headers) == parsed_basic(others),
{
    law_first_header_counts(headers, "authorization"@, i);
    law_first_header_counts(others, "authorization"@, k);
}

/// A credential behind `Basic` that is not the base64 text of any bytes is
/// refused.
pub proof fn law_bad_base64_is_refused(
    headers: Seq<(Seq<char>, Seq<char>)>,
    i: int,
    scheme: Seq<char>,
    credential: Seq<char>,
)
    requires
        0 <= i < headers.len(),
        crate::text::same_ignoring_case(headers[i].0, "authorization"@),
        forall|j: int|
            0 <= j < i ==> !crate::text::same_ignoring_case(
                (#[trigger] headers[j]).0,
                "authorization"@,
            ),
        headers[i].1 == scheme + seq![' '] + credential,
        crate::text::same_ignoring_case(scheme, "Basic"@),
        credential.len() > 0,
        forall|bytes: Seq<u8>| #[trigger]
            crate::octets::base64_text(bytes) != encode_utf8(credential),
    ensures
        parsed_basic(headers) == CredentialView::Invalid("malformed Basic credential (base64)"@),
{
    lemma_credential_behind_basic(headers, i, scheme, credential);
    if let Some(bytes) = crate::octets::base64_decoded(encode_utf8(credential)) {
        crate::octets::law_base64_decoded(encode_utf8(credential), bytes);
    }
}

/// A credential behind `Basic` that decodes to bytes that are not the UTF-8 of
/// any text is refused.
pub proof fn law_bad_utf8_is_refused(
    headers: Seq<(Seq<char>, Seq<char>)>,
    i: int,
    scheme: Seq<char>,
    bytes: Seq<u8>,
)
    requires
        0 <= i < headers.len(),
        crate::text::same_ignoring_case(headers[i].0, "authorization"@),
        forall|j: int|
            0 <= j < i ==> !crate::text::same_ignoring_case(
                (#[trigger] headers[j]).0,
                "authorization"@,
            ),
        headers[i].1 == scheme + seq![' '] + crate::octets::base64_chars(bytes),
        crate::text::same_ignoring_case(scheme, "Basic"@),
        forall|text: Seq<char>| #[trigger] encode_utf8(text) != bytes,
    ensures
        parsed_basic(headers) == CredentialView::Invalid("malformed Basic credential (non-utf8)"@),
{
    assert(encode_utf8(Seq::<char>::empty()) == Seq::<u8>::empty());
    if bytes.len() == 0 {
        assert(bytes == Seq::<u8>::empty());
    }
    lemma_base64_credential(headers, i, scheme, bytes);
    if let Some(text) = crate::octets::utf8_decoded(bytes) {
        crate::octets::law_utf8_decoded(bytes, text);
    }
}

/// A credential behind `Basic` that decodes to a text is split at the first colon
/// of the text: what stands before it is the user name, all that follows it the
/// password. Without a colon, without anything before it or without anything
/// behind it the credential is refused, for that reason.
pub proof fn law_credential_of_a_text(
    headers: Seq<(Seq<char>, Seq<char>)>,
    i: int,
    scheme: Seq<char>,
    username: Seq<char>,
    password: Seq<char>,
)
    requires
        0 <= i < headers.len(),
        crate::text::same_ignoring_case(headers[i].0, "authorization"@),
        forall|j: int|
            0 <= j < i ==> !crate::text::same_ignoring_case(
                (#[trigger] headers[j]).0,
                "authorization"@,
            ),
        crate::text::same_ignoring_case(scheme, "Basic"@),
        !username.contains(':'),
    ensures
        headers[i].1 == scheme + seq![' '] + crate::octets::base64_chars(
            encode_utf8(username + seq![':'] + password),
        ) ==> parsed_basic(headers) == (if username.len() == 0 {
            CredentialView::Invalid("empty username"@)
        } else if password.len() == 0 {
            CredentialView::Invalid("empty password"@)
        } else {
            CredentialView::Credentials { username, password }
        }),
        username.len() > 0 && headers[i].1 == scheme + seq![' '] + crate::octets::base64_chars(
            encode_utf8(username),
        ) ==> parsed_basic(headers) == CredentialView::Invalid(
            "malformed Basic credential (no colon)"@,
        ),
{
    let decoded = username + seq![':'] + password;
    if headers[i].1 == scheme + seq![' '] + crate::octets::base64_chars(encode_utf8(decoded)) {
        lemma_text_credential(headers, i, scheme, decoded);
        law_split_at_the_first_colon(username, password);
    }
    if username.len() > 0 && headers[i].1 == scheme + seq![' '] + crate::octets::base64_chars(
        encode_utf8(username),
    ) {
        lemma_text_credential(headers, i, scheme, username);
        law_split_at_the_first_colon(username, password);
    }
}

/// A decoded credential is split at its first colon. It is refused if it has no
/// colon, if nothing stands before the first one, or if nothing stands behind it.
pub proof fn law_split_at_the_first_colon(username: Seq<char>, password: Seq<char>)
    requires
        !username.contains(':'),
    ensures
        split_credential(username + seq![':'] + password) == (if username.len() == 0 {
            CredentialView::Invalid("empty username"@)
        } else if password.len() == 0 {
            CredentialView::Invalid("empty password"@)
        } else {
            CredentialView::Credentials { username, password }
        }),
        split_credential(username) == CredentialView::Invalid(
            "malformed Basic credential (no colon)"@,
        ),
{
    let decoded = username + seq![':'] + password;
    let at = username.len() as int;
    crate::text::law_position(username, ':');
    crate::text::law_position(decoded, ':');
    assert(decoded[at] == ':');
    assert(decoded.contains(':'));
    let colon = crate::text::position(decoded, ':')->0;
    if colon < at {
        assert(username[colon] == ':');
    }
    assert(colon == at);
    assert(decoded.take(at) == username);
    assert(decoded.skip(at + 1) == password);
}

/// The first `Authorization` value is `Basic`, a space and a credential.
proof fn lemma_credential_behind_basic(
    headers: Seq<(Seq<char>, Seq<char>)>,
    i: int,
    scheme: Seq<char>,
    credential: Seq<char>,
)
    requires
        0 <= i < headers.len(),
        crate::text::same_ignoring_case(headers[i].0, "authorization"@),
        forall|j: int|
            0 <= j < i ==> !crate::text::same_ignoring_case(
                (#[trigger] headers[j]).0,
                "authorization"@,
            ),
        headers[i].1 == scheme + seq![' '] + credential,
        crate::text::same_ignoring_case(scheme, "Basic"@),
        credential.len() > 0,
    ensures
        parsed_basic(headers) == decoded_credential(credential),
{
    let value = headers[i].1;
    law_first_header_counts(headers, "authorization"@, i);
    reveal_strlit("Basic");
    assert(crate::text::ascii_lower(scheme).len() == 5);
    assert(value.take(5) == scheme);
    assert(value.skip(6) == credential);
}

/// The credential behind `Basic` is the base64 text of some bytes.
proof fn lemma_base64_credential(
    headers: Seq<(Seq<char>, Seq<char>)>,
    i: int,
    scheme: Seq<char>,
    bytes: Seq<u8>,
)
    requires
        0 <= i < headers.len(),
        crate::text::same_ignoring_case(headers[i].0, "authorization"@),
        forall|j: int|
            0 <= j < i ==> !crate::text::same_ignoring_case(
                (#[trigger] headers[j]).0,
                "authorization"@,
            ),
        headers[i].1 == scheme + seq![' '] + crate::octets::base64_chars(bytes),
        crate::text::same_ignoring_case(scheme, "Basic"@),
        bytes.len() > 0,
    ensures
        parsed_basic(headers) == decoded_credential(crate::octets::base64_chars(bytes)),
        crate::octets::base64_decoded(encode_utf8(crate::octets::base64_chars(bytes))) == Some(
            bytes,
        ),
{
    let credential = crate::octets::base64_chars(bytes);
    crate::octets::law_base64_chars_encode(bytes);
    crate::octets::law_base64_reads_back(bytes);
    if credential.len() == 0 {
        assert(encode_utf8(credential) == Seq::<u8>::empty());
        crate::octets::law_base64_is_injective(bytes, Seq::empty());
    }
    lemma_credential_behind_basic(headers, i, scheme, credential);
}

/// The credential behind `Basic` is the base64 text of a text in UTF-8.
proof fn lemma_text_credential(
    headers: Seq<(Seq<char>, Seq<char>)>,
    i: int,
    scheme: Seq<char>,
    text: Seq<char>,
)
    requires
        0 <= i < headers.len(),
        crate::text::same_ignoring_case(headers[i].0, "authorization"@),
        forall|j: int|
            0 <= j < i ==> !crate::text::same_ignoring_case(
                (#[trigger] headers[j]).0,
                "authorization"@,
            ),
        headers[i].1 == scheme + seq![' '] + crate::octets::base64_chars(encode_utf8(text)),
        crate::text::same_ignoring_case(scheme, "Basic"@),
        text.len() > 0,
    ensures
        parsed_basic(headers) == split_credential(text),
{
    let bytes = encode_utf8(text);
    if bytes.len() == 0 {
        vstd::utf8::encode_utf8_decode_utf8(text);
        assert(bytes == encode_utf8(Seq::<char>::empty()));
        vstd::utf8::encode_utf8_decode_utf8(Seq::empty());
    }
    lemma_base64_credential(headers, i, scheme, bytes);
    crate::octets::law_utf8_decoded(bytes, text);
}

/// A parsed credential shows its parts as they are.
pub proof fn law_parsed_parts(parsed: ParsedBasic)
    ensures
        match parsed {
            ParsedBasic::Absent => parsed@ is Absent,
            ParsedBasic::Invalid(reason) => parsed@ matches CredentialView::Invalid(shown) && shown
                == reason@,
            ParsedBasic::Credentials {
                username,
                password,
            } => parsed@ matches CredentialView::Credentials { username: name, password: secret }
                && name == username@ && secret == password@,
        },
{
}

/// The value of the first header of that name, whatever its case.
pub fn lookup_header<'a>(headers: &'a [(String, String)], target: &str) -> (r: Option<&'a str>)
    ensures
        match r {
            Some(value) => header_value(headers.deep_view(), target@) == Some(value@),
            None => header_value(headers.deep_view(), target@) is None,
        },
{
    let ghost all = headers.deep_view();
    let mut i: usize = 0;
    proof {
        assert(all.skip(0) == all);
    }
    while i < headers.len()
        invariant
            all == headers.deep_view(),
            i <= headers.len(),
            header_value(all.skip(i as int), target@) == header_value(all, target@),
        decreases headers.len() - i,
    {
        let ghost rest = all.skip(i as int);
        proof {
            assert(rest.first() == (headers@[i as int].0@, headers@[i as int].1@));
            assert(rest.drop_first() == all.skip(i + 1));
        }
        let header: &(String, String) = &headers[i];
        if eq_ignore_ascii_case(header.0.as_str(), target) {
            return Some(header.1.as_str());
        }
        i = i + 1;
    }
    None
}

/// What stands behind the scheme `Basic`, in any case, and one space.
pub fn strip_basic_prefix(value: &str) -> (r: Option<&str>)
    ensures
        match r {
            Some(credential) => basic_credential(value@) == Some(credential@),
            None => basic_credential(value@) is None,
        },
{
    let length: usize = value.unicode_len();
    if length <= 5 {
        return None;
    }
    proof {
        assert(value@.subrange(0, 5) == value@.take(5));
        assert(value@.subrange(6, value@.len() as int) == value@.skip(6));
    }
    if !eq_ignore_ascii_case(value.substring_char(0, 5), "Basic") || value.get_char(5) != ' ' {
        return None;
    }
    Some(value.substring_char(6, length))
}

/// Splits a decoded credential at its first colon. Both fields have to hold
/// something: many servers take a bind with an empty password for an anonymous
/// one, which succeeds.
pub fn split_at_colon(decoded: &str) -> (r: ParsedBasic)
    ensures
        r@ == split_credential(decoded@),
{
    let chars: Vec<char> = chars_of(decoded);
    match find_char(&chars, ':') {
        None => ParsedBasic::Invalid("malformed Basic credential (no colon)".to_owned()),
        Some(colon) => {
            let username: &str = decoded.substring_char(0, colon);
            let password: &str = decoded.substring_char(colon + 1, chars.len());
            proof {
                assert(decoded@.subrange(0, colon as int) == decoded@.take(colon as int));
                assert(decoded@.subrange(colon + 1, decoded@.len() as int) == decoded@.skip(
                    colon + 1,
                ));
            }
            if username.is_empty() {
                return ParsedBasic::Invalid("empty username".to_owned());
            }
            if password.is_empty() {
                return ParsedBasic::Invalid("empty password".to_owned());
            }
            ParsedBasic::Credentials {
                username: username.to_owned(),
                password: password.to_owned(),
            }
        },
    }
}

/// The credential that the headers of a request carry.
pub fn parse_basic(headers: &[(String, String)]) -> (r: ParsedBasic)
    ensures
        r@ == parsed_basic(headers.deep_view()),
{
    let auth_value: &str = match lookup_header(headers, "authorization") {
        Some(value) => value,
        None => return ParsedBasic::Absent,
    };
    let credential: &str = match strip_basic_prefix(auth_value) {
        Some(credential) => credential,
        None => return ParsedBasic::Absent,
    };
    if credential.is_empty() {
        return ParsedBasic::Absent;
    }
    let decoded: Vec<u8> = match base64_decode(credential) {
        Some(bytes) => bytes,
        None => return ParsedBasic::Invalid("malformed Basic credential (base64)".to_owned()),
    };
    match utf8_decode(&decoded) {
        Some(decoded_str) => split_at_colon(decoded_str),
        None => ParsedBasic::Invalid("malformed Basic credential (non-utf8)".to_owned()),
    }
}

} // verus!
