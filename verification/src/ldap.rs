//! What a directory answers, and what the answers mean.

use crate::dn::{first_rdn_end, trim_value};
use crate::string_map::StringMap;
use crate::text::{chars_of, find_char, to_ascii_lower};
use vstd::prelude::*;
use vstd::string::StringExecFns;

verus! {

/// The attributes of an entry. Names are in lower case, since LDAP attribute
/// names ignore case; an attribute has any number of values.
pub type AttrMap = StringMap<Vec<String>>;

/// The values of attributes by their lower-case names.
pub type AttrView = Map<Seq<char>, Seq<Seq<char>>>;

/// An entry as a search returns it: its DN, and the names and values of its
/// attributes in the order in which they were handed over.
#[derive(Debug, Clone)]
pub struct DirectoryEntry {
    pub dn: String,
    pub attrs: Vec<(String, Vec<String>)>,
}

/// What an entry is.
pub struct EntryView {
    pub dn: Seq<char>,
    pub attrs: Seq<(Seq<char>, Seq<Seq<char>>)>,
}

impl View for DirectoryEntry {
    type V = EntryView;

    open spec fn view(&self) -> EntryView {
        EntryView { dn: self.dn@, attrs: self.attrs.deep_view() }
    }
}

/// The caller's directory entry after a successful authenticating bind.
#[derive(Debug, Clone)]
pub struct DirectoryUser {
    /// The bound DN.
    pub dn: String,
    /// The attributes that were read from the entry.
    pub attrs: AttrMap,
}

/// What a directory user is.
#[verifier::ext_equal]
pub struct UserView {
    pub dn: Seq<char>,
    pub attrs: AttrView,
}

impl View for DirectoryUser {
    type V = UserView;

    open spec fn view(&self) -> UserView {
        UserView { dn: self.dn@, attrs: self.attrs@ }
    }
}

/// The outcome of an authentication attempt.
#[derive(Debug)]
pub enum BindOutcome {
    /// The directory verified the password, and the entry was read.
    Authenticated(DirectoryUser),
    /// The directory rejected the caller's bind.
    BadCredentials,
    /// The user filter matched no entry.
    UserNotFound,
    /// The user filter matched more than one entry.
    Ambiguous,
    /// The credential could not be verified: connect, time limit, service
    /// account or transport.
    Unavailable(String),
}

/// What an outcome is.
pub enum OutcomeView {
    Authenticated(UserView),
    BadCredentials,
    UserNotFound,
    Ambiguous,
    Unavailable(Seq<char>),
}

impl View for BindOutcome {
    type V = OutcomeView;

    open spec fn view(&self) -> OutcomeView {
        match *self {
            BindOutcome::Authenticated(user) => OutcomeView::Authenticated(user@),
            BindOutcome::BadCredentials => OutcomeView::BadCredentials,
            BindOutcome::UserNotFound => OutcomeView::UserNotFound,
            BindOutcome::Ambiguous => OutcomeView::Ambiguous,
            BindOutcome::Unavailable(detail) => OutcomeView::Unavailable(detail@),
        }
    }
}

/// The result of one simple bind.
#[derive(Debug)]
pub enum BindAttempt {
    /// The directory accepted the password.
    Accepted,
    /// The directory rejected the password.
    Rejected,
    /// The bind did not come to an answer.
    Transport(String),
}

/// What the result of a bind is.
pub enum AttemptView {
    Accepted,
    Rejected,
    Transport(Seq<char>),
}

impl View for BindAttempt {
    type V = AttemptView;

    open spec fn view(&self) -> AttemptView {
        match *self {
            BindAttempt::Accepted => AttemptView::Accepted,
            BindAttempt::Rejected => AttemptView::Rejected,
            BindAttempt::Transport(detail) => AttemptView::Transport(detail@),
        }
    }
}

/// What came back of a search.
#[derive(Debug)]
pub enum SearchReply<E> {
    /// The search did not come to an answer.
    Failed(String),
    /// The directory answered with a result code other than success.
    Denied(String),
    /// The entries that matched.
    Entries(Vec<E>),
}

/// The result of a search for one user.
#[derive(Debug)]
pub enum FindUser<E> {
    /// The one entry that matched.
    Found(E),
    /// No entry matched.
    NotFound,
    /// More than one entry matched.
    Ambiguous,
    /// The search failed.
    Error(String),
}

/// What the result of a search for one user is.
pub enum FindView {
    Found(EntryView),
    NotFound,
    Ambiguous,
    Error(Seq<char>),
}

impl View for FindUser<DirectoryEntry> {
    type V = FindView;

    open spec fn view(&self) -> FindView {
        match *self {
            FindUser::Found(entry) => FindView::Found(entry@),
            FindUser::NotFound => FindView::NotFound,
            FindUser::Ambiguous => FindView::Ambiguous,
            FindUser::Error(detail) => FindView::Error(detail@),
        }
    }
}

/// The attributes of an entry by their lower-case names. Of names that differ
/// only in case the last one counts.
pub open spec fn lowered(attrs: Seq<(Seq<char>, Seq<Seq<char>>)>) -> AttrView
    decreases attrs.len(),
{
    if attrs.len() == 0 {
        Map::empty()
    } else {
        lowered(attrs.drop_last()).insert(crate::text::ascii_lower(attrs.last().0), attrs.last().1)
    }
}

/// The role that a group DN stands for: the value of its first RDN, which is
/// what stands behind the first equals sign, without white space around it, if
/// that is anything. Escapes stay as they are written.
pub open spec fn role_of(dn: Seq<char>) -> Option<Seq<char>> {
    let rdn = crate::dn::first_rdn(dn);
    match crate::text::position(rdn, '=') {
        None => None,
        Some(eq) => {
            let value = crate::dn::trimmed_value(rdn.skip(eq + 1));
            if value.len() == 0 {
                None
            } else {
                Some(value)
            }
        },
    }
}

/// An attribute is found by its name in any case. Its values are those of the
/// last attribute of that name.
pub proof fn law_attributes_ignore_case(
    attrs: Seq<(Seq<char>, Seq<Seq<char>>)>,
    name: Seq<char>,
)
    ensures
        lowered(attrs).contains_key(crate::text::ascii_lower(name)) <==> exists|i: int|
            0 <= i < attrs.len() && crate::text::same_ignoring_case((#[trigger] attrs[i]).0, name),
        forall|i: int|
            0 <= i < attrs.len() && crate::text::same_ignoring_case((#[trigger] attrs[i]).0, name)
                && (forall|j: int|
                i < j < attrs.len() ==> !crate::text::same_ignoring_case(
                    (#[trigger] attrs[j]).0,
                    name,
                )) ==> lowered(attrs)[crate::text::ascii_lower(name)] == attrs[i].1,
    decreases attrs.len(),
{
    if attrs.len() > 0 {
        let shorter = attrs.drop_last();
        let last = attrs.len() - 1;
        let key = crate::text::ascii_lower(name);
        law_attributes_ignore_case(shorter, name);
        assert(attrs[last] == attrs.last());
        if crate::text::same_ignoring_case(attrs[last].0, name) {
            assert(lowered(attrs).contains_key(key));
        } else {
            assert(lowered(attrs).contains_key(key) == lowered(shorter).contains_key(key));
            if lowered(shorter).contains_key(key) {
                let i = choose|i: int|
                    0 <= i < shorter.len() && crate::text::same_ignoring_case(
                        (#[trigger] shorter[i]).0,
                        name,
                    );
                assert(attrs[i] == shorter[i]);
            }
            if exists|i: int|
                0 <= i < attrs.len() && crate::text::same_ignoring_case(
                    (#[trigger] attrs[i]).0,
                    name,
                ) {
                let i = choose|i: int|
                    0 <= i < attrs.len() && crate::text::same_ignoring_case(
                        (#[trigger] attrs[i]).0,
                        name,
                    );
                assert(shorter[i] == attrs[i]);
            }
        }
        assert forall|i: int|
            0 <= i < attrs.len() && crate::text::same_ignoring_case((#[trigger] attrs[i]).0, name)
                && (forall|j: int|
                i < j < attrs.len() ==> !crate::text::same_ignoring_case(
                    (#[trigger] attrs[j]).0,
                    name,
                )) implies lowered(attrs)[key] == attrs[i].1 by {
            if i < last {
                assert(!crate::text::same_ignoring_case(attrs[last].0, name));
                assert(shorter[i] == attrs[i]);
                assert forall|j: int| i < j < shorter.len() implies !(
                crate::text::same_ignoring_case((#[trigger] shorter[j]).0, name)) by {
                    assert(shorter[j] == attrs[j]);
                }
            }
        }
    }
}

/// Attribute names are in lower case.
pub proof fn law_attribute_names_are_lower(
    attrs: Seq<(Seq<char>, Seq<Seq<char>>)>,
    key: Seq<char>,
)
    ensures
        lowered(attrs).contains_key(key) ==> crate::text::ascii_lower(key) == key,
    decreases attrs.len(),
{
    if attrs.len() > 0 {
        law_attribute_names_are_lower(attrs.drop_last(), key);
        crate::text::law_lower_is_stable(attrs.last().0);
    }
}

/// A role holds something, and no comma that is not escaped. It does not begin
/// with white space, and ends in white space only where that is escaped. The
/// role of a DN without a backslash holds no comma and no white space at its
/// ends.
pub proof fn law_role_is_clean(dn: Seq<char>)
    ensures
        role_of(dn) matches Some(role) ==> {
            &&& role.len() > 0
            &&& crate::dn::rdn_end(role, 0) == role.len()
            &&& !crate::text::white_space(role.first())
            &&& crate::text::white_space(role.last()) ==> crate::dn::last_is_escaped(role)
            &&& !dn.contains('\\') ==> !role.contains(',') && !crate::text::white_space(
                role.last(),
            )
        },
{
    let rdn = crate::dn::first_rdn(dn);
    crate::dn::law_first_rdn(dn);
    crate::text::law_position(rdn, '=');
    if let Some(eq) = crate::text::position(rdn, '=') {
        let behind = rdn.skip(eq + 1);
        let role = crate::dn::trimmed_value(behind);
        crate::dn::law_trimmed_value(behind);
        crate::dn::law_value_is_one_rdn(rdn, eq);
        if !dn.contains('\\') && role.len() > 0 {
            let (from, to) = choose|from: int, to: int|
                {
                    &&& 0 <= from <= to <= behind.len()
                    &&& role == #[trigger] behind.subrange(from, to)
                    &&& crate::text::blank(behind.take(from))
                    &&& crate::text::blank(behind.skip(to))
                };
            assert forall|i: int| 0 <= i < role.len() implies role[i] != '\\' by {
                assert(role[i] == dn[eq + 1 + from + i]);
            }
            crate::dn::law_no_backslash(role);
        }
    }
}

/// A group DN that begins with an attribute name, an equals sign and a value
/// stands for the role of that value, whatever RDNs follow it. The value may hold
/// escapes, those of commas among them.
pub proof fn law_role_of_group(name: Seq<char>, value: Seq<char>, rest: Seq<char>)
    requires
        !name.contains(','),
        !name.contains('='),
        crate::dn::is_value(value),
        !crate::text::blank(value),
        rest.len() == 0 || rest[0] == ',',
    ensures
        role_of(name + seq!['='] + value + rest) == Some(crate::dn::trimmed_value(value)),
{
    let head = name + seq!['='] + value;
    crate::dn::law_first_rdn_of(name, value, rest);
    crate::text::law_position(head, '=');
    assert(head[name.len() as int] == '=');
    assert(head.contains('='));
    let eq = crate::text::position(head, '=')->0;
    if eq < name.len() {
        assert(name[eq] == '=');
    }
    assert(eq == name.len());
    assert(head.skip(eq + 1) == value);
    crate::dn::law_trimmed_value(value);
}

/// A group whose value is any text, escaped for a DN, stands for the role of that
/// whole value.
pub proof fn law_role_of_escaped_value(name: Seq<char>, text: Seq<char>, rest: Seq<char>)
    requires
        !name.contains(','),
        !name.contains('='),
        !crate::text::blank(crate::escape::dn_escaped(text)),
        rest.len() == 0 || rest[0] == ',',
    ensures
        role_of(name + seq!['='] + crate::escape::dn_escaped(text) + rest) == Some(
            crate::dn::trimmed_value(crate::escape::dn_escaped(text)),
        ),
{
    let value = crate::escape::dn_escaped(text);
    crate::escape::law_dn_value_is_inert(text);
    crate::dn::law_escaped_is_value(value);
    law_role_of_group(name, value, rest);
}

/// A group DN stands for the value behind the first equals sign of its first RDN.
/// Without an equals sign, or with nothing but white space behind it, it stands
/// for none.
pub proof fn law_role(dn: Seq<char>, eq: int)
    ensures
        !crate::dn::first_rdn(dn).contains('=') ==> role_of(dn) is None,
        ({
            let rdn = crate::dn::first_rdn(dn);
            let value = rdn.subrange(eq + 1, rdn.len() as int);
            0 <= eq < rdn.len() && rdn[eq] == '=' && (forall|j: int|
                0 <= j < eq ==> #[trigger] rdn[j] != '=') ==> role_of(dn) == (
            if crate::text::blank(value) {
                None
            } else {
                Some(crate::dn::trimmed_value(value))
            })
        }),
{
    let rdn = crate::dn::first_rdn(dn);
    crate::text::law_position(rdn, '=');
    if let Some(at) = crate::text::position(rdn, '=') {
        assert(rdn[at] == '=');
        assert(rdn.contains('='));
    }
    if 0 <= eq < rdn.len() && rdn[eq] == '=' && (forall|j: int|
        0 <= j < eq ==> #[trigger] rdn[j] != '=') {
        assert(rdn.contains('='));
        assert(crate::text::position(rdn, '=') == Some(eq));
        assert(rdn.skip(eq + 1) == rdn.subrange(eq + 1, rdn.len() as int));
        crate::dn::law_trimmed_value(rdn.skip(eq + 1));
    }
}

/// The attributes of no entry are none, and one more attribute stands under its
/// name in lower case, in place of an earlier one of that name.
pub proof fn law_one_more_attribute(
    attrs: Seq<(Seq<char>, Seq<Seq<char>>)>,
    name: Seq<char>,
    values: Seq<Seq<char>>,
)
    ensures
        lowered(Seq::empty()) == Map::<Seq<char>, Seq<Seq<char>>>::empty(),
        lowered(attrs.push((name, values))) == lowered(attrs).insert(
            crate::text::ascii_lower(name),
            values,
        ),
{
    assert(attrs.push((name, values)).drop_last() == attrs);
}

/// Entries and users show their parts as they are.
pub proof fn law_entry_parts(entry: DirectoryEntry, user: DirectoryUser)
    ensures
        entry@.dn == entry.dn@,
        entry@.attrs.len() == entry.attrs@.len(),
        forall|i: int|
            0 <= i < entry.attrs@.len() ==> (#[trigger] entry@.attrs[i]).0 == entry.attrs@[i].0@
                && entry@.attrs[i].1.len() == entry.attrs@[i].1@.len(),
        forall|i: int, k: int|
            0 <= i < entry.attrs@.len() && 0 <= k < entry.attrs@[i].1@.len()
                ==> #[trigger] entry@.attrs[i].1[k] == entry.attrs@[i].1@[k]@,
        user@.dn == user.dn@,
        user@.attrs == user.attrs@,
{
}

/// Outcomes, results of binds and results of searches show their parts as they
/// are.
pub proof fn law_outcome_parts(
    outcome: BindOutcome,
    attempt: BindAttempt,
    found: FindUser<DirectoryEntry>,
)
    ensures
        match outcome {
            BindOutcome::Authenticated(user) => outcome@ == OutcomeView::Authenticated(user@),
            BindOutcome::BadCredentials => outcome@ == OutcomeView::BadCredentials,
            BindOutcome::UserNotFound => outcome@ == OutcomeView::UserNotFound,
            BindOutcome::Ambiguous => outcome@ == OutcomeView::Ambiguous,
            BindOutcome::Unavailable(detail) => outcome@ == OutcomeView::Unavailable(detail@),
        },
        match attempt {
            BindAttempt::Accepted => attempt@ == AttemptView::Accepted,
            BindAttempt::Rejected => attempt@ == AttemptView::Rejected,
            BindAttempt::Transport(detail) => attempt@ == AttemptView::Transport(detail@),
        },
        match found {
            FindUser::Found(entry) => found@ == FindView::Found(entry@),
            FindUser::NotFound => found@ == FindView::NotFound,
            FindUser::Ambiguous => found@ == FindView::Ambiguous,
            FindUser::Error(detail) => found@ == FindView::Error(detail@),
        },
{
}

/// The result of a simple bind, from the result code of the directory or the
/// message of the error that stood in its place. Any code but zero is a
/// rejection.
pub fn try_bind(reply: Result<u32, String>) -> (r: BindAttempt)
    ensures
        r@ == match reply {
            Ok(code) => if code == 0 {
                AttemptView::Accepted
            } else {
                AttemptView::Rejected
            },
            Err(detail) => AttemptView::Transport(detail@),
        },
{
    match reply {
        Ok(code) => if code == 0 {
            BindAttempt::Accepted
        } else {
            BindAttempt::Rejected
        },
        Err(detail) => BindAttempt::Transport(detail),
    }
}

/// The entry to take from a read of the caller's own entry. A read that failed
/// gives none: the bind has proved who the caller is, so what cannot be read
/// omits roles and does not deny access.
pub fn read_entry<E>(reply: SearchReply<E>) -> (r: Option<E>)
    ensures
        match reply {
            SearchReply::Entries(entries) if entries.len() > 0 => r == Some(entries@[0]),
            _ => r is None,
        },
{
    match reply {
        SearchReply::Entries(entries) => {
            let mut entries = entries;
            if entries.len() == 0 {
                None
            } else {
                Some(entries.swap_remove(0))
            }
        },
        _ => None,
    }
}

/// The one entry that a search for a user matched.
pub fn search_one<E>(reply: SearchReply<E>) -> (r: FindUser<E>)
    ensures
        match reply {
            SearchReply::Failed(detail) => r matches FindUser::Error(message) && message@
                == "user search failed: "@ + detail@,
            SearchReply::Denied(detail) => r matches FindUser::Error(message) && message@
                == "user search rejected: "@ + detail@,
            SearchReply::Entries(entries) => if entries.len() == 0 {
                r is NotFound
            } else if entries.len() == 1 {
                r == FindUser::Found(entries@[0])
            } else {
                r is Ambiguous
            },
        },
{
    match reply {
        SearchReply::Failed(detail) => FindUser::Error(
            "user search failed: ".to_owned().concat(detail.as_str()),
        ),
        SearchReply::Denied(detail) => FindUser::Error(
            "user search rejected: ".to_owned().concat(detail.as_str()),
        ),
        SearchReply::Entries(entries) => {
            let mut entries = entries;
            if entries.len() > 1 {
                return FindUser::Ambiguous;
            }
            match entries.pop() {
                Some(entry) => FindUser::Found(entry),
                None => FindUser::NotFound,
            }
        },
    }
}

/// The attributes of an entry by their lower-case names.
pub fn lower_attrs(attrs: Vec<(String, Vec<String>)>) -> (r: AttrMap)
    ensures
        r@ == lowered(attrs.deep_view()),
{
    let ghost all = attrs.deep_view();
    let mut map: AttrMap = StringMap::new();
    proof {
        assert(all.take(0) == Seq::<(Seq<char>, Seq<Seq<char>>)>::empty());
    }
    for attr in it: attrs
        invariant
            it.seq() == attrs@,
            all == attrs.deep_view(),
            map@ == lowered(all.take(it.index() as int)),
    {
        let ghost shown = attr.deep_view();
        proof {
            let n = it.index() as int;
            assert(all[n] == shown);
            assert(all.take(n + 1).drop_last() == all.take(n));
            assert(all.take(n + 1).last() == shown);
        }
        let (name, values): (String, Vec<String>) = attr;
        map.insert(to_ascii_lower(name.as_str()), values);
    }
    proof {
        assert(all.take(all.len() as int) == all);
    }
    map
}

/// The role that a group DN stands for, the value of its first RDN:
/// `cn=Admins,ou=Groups,dc=x` gives `Admins`. An escaped comma does not end the
/// RDN, and escapes stay as they are written: `cn=Smith\, John,ou=Groups` gives
/// `Smith\, John`. A DN whose first RDN has no equals sign, or nothing behind it,
/// gives none.
pub fn group_dn_to_role(dn: &str) -> (r: Option<String>)
    ensures
        r.deep_view() == role_of(dn@),
{
    let chars: Vec<char> = chars_of(dn);
    let end: usize = first_rdn_end(&chars);
    let rdn: &str = dn.substring_char(0, end);
    proof {
        assert(rdn@ == crate::dn::first_rdn(dn@));
    }
    let rdn_chars: Vec<char> = chars_of(rdn);
    match find_char(&rdn_chars, '=') {
        None => None,
        Some(eq) => {
            let behind: &str = rdn.substring_char(eq + 1, rdn_chars.len());
            proof {
                assert(behind@ == rdn@.skip(eq + 1));
            }
            let value: &str = trim_value(behind);
            if value.is_empty() {
                None
            } else {
                Some(value.to_owned())
            }
        },
    }
}

/// A bind is accepted by the result code zero and by nothing else; every other
/// code rejects it, and an error does neither.
pub proof fn law_only_code_zero_accepts(reply: Result<u32, String>, attempt: BindAttempt)
    requires
        call_ensures(try_bind, (reply,), attempt),
    ensures
        attempt is Accepted <==> reply == Ok::<u32, String>(0),
        attempt is Rejected <==> reply is Ok && reply->Ok_0 != 0,
        attempt matches BindAttempt::Transport(detail) ==> reply is Err && detail@
            == reply->Err_0@,
{
}

/// A read gives the first entry that came back, and none exactly if it failed, was
/// denied or came back without entries.
pub proof fn law_first_entry_is_read<E>(reply: SearchReply<E>, entry: Option<E>)
    requires
        call_ensures(read_entry::<E>, (reply,), entry),
    ensures
        reply is Failed || reply is Denied ==> entry is None,
        reply matches SearchReply::Entries(entries) ==> {
            &&& entry is None <==> entries@.len() == 0
            &&& entry matches Some(first) ==> entries@.first() == first
        },
{
}

/// A search finds a user exactly if it matched one entry: none is no user, and two
/// or more are ambiguous, however many they are. A search that failed or was
/// denied finds nobody and tells which of the two it was.
pub proof fn law_one_match_is_found<E>(reply: SearchReply<E>, found: FindUser<E>)
    requires
        call_ensures(search_one::<E>, (reply,), found),
    ensures
        found is Found <==> reply is Entries && reply->Entries_0@.len() == 1,
        found matches FindUser::Found(entry) ==> reply->Entries_0@ == seq![entry],
        found is NotFound <==> reply is Entries && reply->Entries_0@.len() == 0,
        found is Ambiguous <==> reply is Entries && reply->Entries_0@.len() >= 2,
        reply matches SearchReply::Failed(detail) ==> (found matches FindUser::Error(message)
            && message@ == "user search failed: "@ + detail@),
        reply matches SearchReply::Denied(detail) ==> (found matches FindUser::Error(message)
            && message@ == "user search rejected: "@ + detail@),
{
    if let FindUser::Found(entry) = found {
        assert(reply->Entries_0@ =~= seq![entry]);
    }
}

} // verus!
