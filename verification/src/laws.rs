//! What holds of every resolution, whatever the request and the directory.

use crate::config::{BindView, ConfigView, USERNAME_PLACEHOLDER};
use crate::header::CredentialView;
use crate::ldap::{AttemptView, EntryView, FindView, OutcomeView, UserView};
use crate::plugin::{IdentityResolution, PluginClass, PluginIdentity, PluginManifest};
use crate::plugin::{Resolving, ResolutionView, ResolvingView};
use crate::session::{ActionView, ReplyView, SessionView};
use vstd::prelude::*;

verus! {

/// A request without a credential falls through, and one with a malformed
/// credential is rejected, before the directory is asked; no reply changes that.
pub proof fn law_no_directory_without_a_credential(
    config: ConfigView,
    headers: Seq<(Seq<char>, Seq<char>)>,
    replies: Seq<ReplyView>,
)
    ensures
        match crate::header::parsed_basic(headers) {
            CredentialView::Absent => crate::plugin::resolved_after(config, headers, replies)
                == ResolvingView::Done(ResolutionView::Absent),
            CredentialView::Invalid(reason) => crate::plugin::resolved_after(
                config,
                headers,
                replies,
            ) == ResolvingView::Done(ResolutionView::Invalid { reason }),
            CredentialView::Credentials { .. } => true,
        },
{
}

/// A caller is resolved only if the request carries a user name and a password
/// that hold something, and the directory accepted a bind with that password;
/// the identity is that of the DN that was bound.
pub proof fn law_resolved_only_by_a_bind(
    config: ConfigView,
    headers: Seq<(Seq<char>, Seq<char>)>,
    replies: Seq<ReplyView>,
)
    ensures
        crate::plugin::resolved_after(config, headers, replies) matches ResolvingView::Done(
            ResolutionView::Resolved { identity },
        ) ==> {
            &&& crate::header::parsed_basic(headers) matches CredentialView::Credentials {
                username,
                password,
            }
            &&& username.len() > 0
            &&& password.len() > 0
            &&& exists|user: UserView|
                {
                    &&& #[trigger] crate::plugin::identity_of(config, user) == identity
                    &&& crate::plugin::authentication(config, username, password).accepted(
                        replies,
                        user.dn,
                        password,
                    )
                }
        },
{
    crate::header::law_parsed_credentials_are_complete(headers);
    if let CredentialView::Credentials { username, password } = crate::header::parsed_basic(
        headers,
    ) {
        let start = crate::plugin::authentication(config, username, password);
        crate::session::law_authenticated_by_a_bind_as_the_caller(start, replies);
        if let Some(OutcomeView::Authenticated(user)) = start.run(replies).outcome() {
            assert(start.accepted(replies, user.dn, password));
            assert(crate::plugin::resolution_of(config, OutcomeView::Authenticated(user))
                == (ResolutionView::Resolved {
                identity: crate::plugin::identity_of(config, user),
            }));
        }
    }
}

/// A caller whose bind the directory accepts is resolved: in direct mode as the
/// DN of the template with the attributes of the entry that was read, or with
/// none where there was no entry to read.
pub proof fn law_direct_caller_is_resolved(
    config: ConfigView,
    headers: Seq<(Seq<char>, Seq<char>)>,
    username: Seq<char>,
    password: Seq<char>,
    entry: Option<EntryView>,
)
    requires
        config.bind is Direct,
        crate::header::parsed_basic(headers) == (CredentialView::Credentials {
            username,
            password,
        }),
    ensures
        crate::plugin::resolved_after(
            config,
            headers,
            seq![
                ReplyView::Connected(Ok(())),
                ReplyView::Bound(AttemptView::Accepted),
                ReplyView::Read(entry),
                ReplyView::Unbound,
            ],
        ) == ResolvingView::Done(
            ResolutionView::Resolved {
                identity: crate::plugin::identity_of(
                    config,
                    UserView {
                        dn: crate::plugin::authentication(
                            config,
                            username,
                            password,
                        )->Direct_request.user_dn,
                        attrs: match entry {
                            Some(entry) => crate::ldap::lowered(entry.attrs),
                            None => Map::empty(),
                        },
                    },
                ),
            },
        ),
{
    let start = crate::plugin::authentication(config, username, password);
    lemma_run_four(
        start,
        ReplyView::Connected(Ok(())),
        ReplyView::Bound(AttemptView::Accepted),
        ReplyView::Read(entry),
        ReplyView::Unbound,
    );
}

/// In search mode a caller whose bind the directory accepts is resolved as the
/// entry that the search found.
pub proof fn law_found_caller_is_resolved(
    config: ConfigView,
    headers: Seq<(Seq<char>, Seq<char>)>,
    username: Seq<char>,
    password: Seq<char>,
    entry: EntryView,
)
    requires
        config.bind is Search,
        crate::header::parsed_basic(headers) == (CredentialView::Credentials {
            username,
            password,
        }),
    ensures
        crate::plugin::resolved_after(
            config,
            headers,
            seq![
                ReplyView::Connected(Ok(())),
                ReplyView::Bound(AttemptView::Accepted),
                ReplyView::Searched(FindView::Found(entry)),
                ReplyView::Bound(AttemptView::Accepted),
                ReplyView::Unbound,
            ],
        ) == ResolvingView::Done(
            ResolutionView::Resolved {
                identity: crate::plugin::identity_of(config, crate::session::user_of(entry)),
            },
        ),
{
    let start = crate::plugin::authentication(config, username, password);
    let four = seq![
        ReplyView::Connected(Ok(())),
        ReplyView::Bound(AttemptView::Accepted),
        ReplyView::Searched(FindView::Found(entry)),
        ReplyView::Bound(AttemptView::Accepted),
    ];
    lemma_run_four(start, four[0], four[1], four[2], four[3]);
    assert(four.push(ReplyView::Unbound).drop_last() == four);
    assert(four.push(ReplyView::Unbound) == seq![
        four[0],
        four[1],
        four[2],
        four[3],
        ReplyView::Unbound,
    ]);
}

/// A session after four replies.
proof fn lemma_run_four(
    start: SessionView,
    a: ReplyView,
    b: ReplyView,
    c: ReplyView,
    d: ReplyView,
)
    ensures
        start.run(seq![a, b, c, d]) == start.next(a).next(b).next(c).next(d),
{
    reveal_with_fuel(SessionView::run, 5);
    assert(seq![a, b, c, d].drop_last() == seq![a, b, c]);
    assert(seq![a, b, c].drop_last() == seq![a, b]);
    assert(seq![a, b].drop_last() == seq![a]);
    assert(seq![a].drop_last() == Seq::<ReplyView>::empty());
}

/// A request with a credential, well-formed or not, is never passed on to other
/// resolvers: it is resolved or rejected.
pub proof fn law_credentials_do_not_fall_through(
    config: ConfigView,
    headers: Seq<(Seq<char>, Seq<char>)>,
    replies: Seq<ReplyView>,
)
    requires
        !(crate::header::parsed_basic(headers) is Absent),
    ensures
        crate::plugin::resolved_after(config, headers, replies) != ResolvingView::Done(
            ResolutionView::Absent,
        ),
{
}

/// The answer does not tell a wrong password from an unknown user, nor why a
/// directory is unavailable.
pub proof fn law_answers_disclose_nothing(
    config: ConfigView,
    detail: Seq<char>,
    other: Seq<char>,
)
    ensures
        crate::plugin::resolution_of(config, OutcomeView::BadCredentials)
            == crate::plugin::resolution_of(config, OutcomeView::UserNotFound),
        crate::plugin::resolution_of(config, OutcomeView::Unavailable(detail))
            == crate::plugin::resolution_of(config, OutcomeView::Unavailable(other)),
{
}

/// Whatever was not verified is rejected: every outcome but an authenticated
/// user resolves to a rejection.
pub proof fn law_unverified_is_rejected(config: ConfigView, outcome: OutcomeView)
    ensures
        crate::plugin::resolution_of(config, outcome) is Resolved <==> outcome is Authenticated,
        crate::plugin::resolution_of(config, outcome) is Invalid <==> !(outcome is Authenticated),
{
}

/// A directory that cannot verify the credential of a request, at whatever
/// operation, has the request rejected.
pub proof fn law_unavailable_directory_is_rejected(
    config: ConfigView,
    headers: Seq<(Seq<char>, Seq<char>)>,
    replies: Seq<ReplyView>,
    reply: ReplyView,
)
    requires
        crate::plugin::resolved_after(config, headers, replies) matches ResolvingView::Directory(
            session,
        ) && session.action().answered_by(reply) && session.fails_on(reply),
    ensures
        crate::plugin::resolved_after(config, headers, replies.push(reply)) == ResolvingView::Done(
            ResolutionView::Invalid { reason: "directory unavailable"@ },
        ),
{
    if let ResolvingView::Directory(session) = crate::plugin::resolved_after(
        config,
        headers,
        replies,
    ) {
        crate::session::law_failures_end_unavailable(session, reply);
        assert(replies.push(reply).drop_last() == replies);
    }
}

/// In search mode a user that the directory does not know is answered as one
/// whose password it rejects, whatever entry it found.
pub proof fn law_unknown_user_is_answered_like_a_wrong_password(
    config: ConfigView,
    headers: Seq<(Seq<char>, Seq<char>)>,
    replies: Seq<ReplyView>,
    entry: EntryView,
)
    requires
        crate::plugin::resolved_after(config, headers, replies) matches ResolvingView::Directory(
            session,
        ) && session.action() is SearchUser,
    ensures
        crate::plugin::resolved_after(
            config,
            headers,
            replies.push(ReplyView::Searched(FindView::NotFound)),
        ) == crate::plugin::resolved_after(
            config,
            headers,
            replies.push(ReplyView::Searched(FindView::Found(entry))).push(
                ReplyView::Bound(AttemptView::Rejected),
            ),
        ),
{
    reveal_with_fuel(SessionView::run, 3);
    let unknown = ReplyView::Searched(FindView::NotFound);
    let found = ReplyView::Searched(FindView::Found(entry));
    let rejected = ReplyView::Bound(AttemptView::Rejected);
    assert(replies.push(unknown).drop_last() == replies);
    assert(replies.push(found).drop_last() == replies);
    assert(replies.push(found).push(rejected).drop_last() == replies.push(found));
}

/// No bind as the caller has an empty password: in a session that a request
/// begins, every bind carries the request's password, which holds something, but
/// for that of the service account.
pub proof fn law_no_anonymous_bind(
    config: ConfigView,
    headers: Seq<(Seq<char>, Seq<char>)>,
    replies: Seq<ReplyView>,
)
    ensures
        crate::plugin::resolved_after(config, headers, replies) matches ResolvingView::Directory(
            session,
        ) ==> session.action() matches ActionView::Bind { dn, password } ==> {
            ||| password.len() > 0
            ||| config.bind matches BindView::Search { bind_dn, bind_password, .. } && dn == bind_dn
                && password == bind_password
        },
{
    crate::header::law_parsed_credentials_are_complete(headers);
    if let CredentialView::Credentials { username, password } = crate::header::parsed_basic(
        headers,
    ) {
        crate::session::law_binds_of_a_session(
            crate::plugin::authentication(config, username, password),
            replies,
        );
    }
}

/// A user name cannot change the structure of the DN that it is put into: the
/// DN has as many commas, plus signs, semicolons, equals signs, angle brackets,
/// double quotes and NULs as the template.
pub proof fn law_user_name_cannot_inject_into_a_dn(
    config: ConfigView,
    username: Seq<char>,
    password: Seq<char>,
    c: char,
)
    requires
        crate::escape::dn_special(c),
        c != '\\',
    ensures
        config.bind matches BindView::Direct { user_dn_template, .. } ==> {
            &&& crate::plugin::authentication(
                config,
                username,
                password,
            ) matches SessionView::Direct { request, .. }
            &&& crate::text::tally(request.user_dn, c) == crate::text::tally(user_dn_template, c)
        },
{
    reveal_strlit("{username}");
    if let BindView::Direct { user_dn_template, .. } = config.bind {
        let escaped = crate::escape::dn_escaped(username);
        crate::escape::law_dn_value_is_inert(username);
        assert(!escaped.contains(c));
        assert(!USERNAME_PLACEHOLDER@.contains(c));
        crate::text::law_replacement_keeps_tally(
            user_dn_template,
            USERNAME_PLACEHOLDER@,
            escaped,
            c,
        );
    }
}

/// A template that holds the placeholder once gives the DN in which the escaped
/// user name stands in its place.
pub proof fn law_user_dn_of_a_template(
    config: ConfigView,
    before: Seq<char>,
    after: Seq<char>,
    groups_base_dn: Option<Seq<char>>,
    username: Seq<char>,
    password: Seq<char>,
)
    requires
        config.bind == (BindView::Direct {
            user_dn_template: before + USERNAME_PLACEHOLDER@ + after,
            groups_base_dn,
        }),
        forall|at: int| #[trigger]
            crate::text::occurs_at(
                before + USERNAME_PLACEHOLDER@ + after,
                USERNAME_PLACEHOLDER@,
                at,
            ) ==> at == before.len(),
    ensures
        crate::plugin::authentication(config, username, password) matches SessionView::Direct {
            request,
            ..
        } && request.user_dn == before + crate::escape::dn_escaped(username) + after,
{
    reveal_strlit("{username}");
    crate::text::law_single_replacement(
        before,
        USERNAME_PLACEHOLDER@,
        after,
        crate::escape::dn_escaped(username),
    );
}

/// A filter that holds the placeholder once gives the filter in which the
/// escaped user name stands in its place.
pub proof fn law_filter_of_a_template(
    config: ConfigView,
    before: Seq<char>,
    after: Seq<char>,
    username: Seq<char>,
    password: Seq<char>,
)
    requires
        config.bind matches BindView::Search { user_filter, .. } && user_filter == before
            + USERNAME_PLACEHOLDER@ + after,
        forall|at: int| #[trigger]
            crate::text::occurs_at(
                before + USERNAME_PLACEHOLDER@ + after,
                USERNAME_PLACEHOLDER@,
                at,
            ) ==> at == before.len(),
    ensures
        crate::plugin::authentication(config, username, password) matches SessionView::Search {
            request,
            ..
        } && request.user_filter == before + crate::escape::filter_escaped(username) + after,
{
    reveal_strlit("{username}");
    crate::text::law_single_replacement(
        before,
        USERNAME_PLACEHOLDER@,
        after,
        crate::escape::filter_escaped(username),
    );
}

/// A user name cannot change the structure of the filter that it is put into:
/// the filter has as many asterisks, parentheses and NULs as the configured one.
pub proof fn law_user_name_cannot_inject_into_a_filter(
    config: ConfigView,
    username: Seq<char>,
    password: Seq<char>,
    c: char,
)
    requires
        crate::escape::filter_special(c),
        c != '\\',
    ensures
        config.bind matches BindView::Search { user_filter, .. } ==> {
            &&& crate::plugin::authentication(
                config,
                username,
                password,
            ) matches SessionView::Search { request, .. }
            &&& crate::text::tally(request.user_filter, c) == crate::text::tally(user_filter, c)
        },
{
    reveal_strlit("{username}");
    if let BindView::Search { user_filter, .. } = config.bind {
        let escaped = crate::escape::filter_escaped(username);
        crate::escape::law_filter_literal_is_inert(username);
        assert(!escaped.contains(c));
        assert(!USERNAME_PLACEHOLDER@.contains(c));
        crate::text::law_replacement_keeps_tally(user_filter, USERNAME_PLACEHOLDER@, escaped, c);
    }
}

/// An identity has at most as many groups as the size limit, and at most as many
/// roles as groups.
pub proof fn law_identity_is_bounded(config: ConfigView, user: UserView)
    ensures
        crate::plugin::identity_of(config, user).groups.len() <= config.size_limit,
        crate::plugin::identity_of(config, user).roles.len() <= crate::plugin::identity_of(
            config,
            user,
        ).groups.len(),
{
    lemma_fewer_roles_than_groups(crate::plugin::groups_of(config, user));
}

/// There are at most as many roles as groups.
proof fn lemma_fewer_roles_than_groups(groups: Seq<Seq<char>>)
    ensures
        crate::plugin::roles_of(groups).len() <= groups.len(),
    decreases groups.len(),
{
    if groups.len() > 0 {
        lemma_fewer_roles_than_groups(groups.drop_last());
    }
}

/// The roles are exactly those that the groups stand for.
pub proof fn law_roles_come_from_groups(groups: Seq<Seq<char>>, role: Seq<char>)
    ensures
        crate::plugin::roles_of(groups).contains(role) <==> exists|i: int|
            0 <= i < groups.len() && crate::ldap::role_of(#[trigger] groups[i]) == Some(role),
    decreases groups.len(),
{
    if groups.len() > 0 {
        let shorter = groups.drop_last();
        let before = crate::plugin::roles_of(shorter);
        let after = crate::plugin::roles_of(groups);
        let last = groups.len() - 1;
        law_roles_come_from_groups(shorter, role);
        if after.contains(role) {
            let k = choose|k: int| 0 <= k < after.len() && after[k] == role;
            if k < before.len() {
                assert(before[k] == role);
                let i = choose|i: int|
                    0 <= i < shorter.len() && crate::ldap::role_of(#[trigger] shorter[i]) == Some(
                        role,
                    );
                assert(groups[i] == shorter[i]);
            } else {
                assert(crate::ldap::role_of(groups[last]) == Some(role));
            }
        }
        if exists|i: int|
            0 <= i < groups.len() && crate::ldap::role_of(#[trigger] groups[i]) == Some(role) {
            let i = choose|i: int|
                0 <= i < groups.len() && crate::ldap::role_of(#[trigger] groups[i]) == Some(role);
            if i < last {
                assert(shorter[i] == groups[i]);
                let k = choose|k: int| 0 <= k < before.len() && before[k] == role;
                assert(after[k] == role);
            } else {
                assert(after[before.len() as int] == role);
            }
        }
    }
}

/// In search mode the session that verifies a caller connects to the configured
/// URL, binds the configured service account with its password, and searches the
/// subtree of the configured base for the attributes of the configuration, with
/// the configured filter in which the escaped user name stands for each
/// placeholder. It then binds the DN that was found with the caller's password.
/// Each operation has the configured time limit.
pub proof fn law_search_session_follows_the_config(
    config: ConfigView,
    bind_dn: Seq<char>,
    bind_password: Seq<char>,
    base_dn: Seq<char>,
    user_filter: Seq<char>,
    username: Seq<char>,
    password: Seq<char>,
    entry: EntryView,
)
    requires
        config.bind == (BindView::Search { bind_dn, bind_password, base_dn, user_filter }),
    ensures
        ({
            let start = crate::plugin::authentication(config, username, password);
            let connected = start.next(ReplyView::Connected(Ok(())));
            let served = connected.next(ReplyView::Bound(AttemptView::Accepted));
            let found = served.next(ReplyView::Searched(FindView::Found(entry)));
            &&& start.action() == ActionView::Connect { url: config.url }
            &&& connected.action() == ActionView::Bind { dn: bind_dn, password: bind_password }
            &&& served.action() == ActionView::SearchUser {
                base: base_dn,
                filter: crate::text::replaced(
                    user_filter,
                    "{username}"@,
                    crate::escape::filter_escaped(username),
                ),
                attrs: config.read_attributes(),
            }
            &&& found.action() == ActionView::Bind { dn: entry.dn, password }
            &&& start matches SessionView::Search { request, .. }
            &&& request.timeout_ms == config.timeout_ms
        }),
{
}

/// In direct mode the session that verifies a caller connects to the configured
/// URL, binds the configured template, in which the escaped user name stands for
/// each placeholder, with the caller's password, and reads the attributes of the
/// configuration of the configured entry, or of the DN that was bound. Each
/// operation has the configured time limit.
pub proof fn law_direct_session_follows_the_config(
    config: ConfigView,
    user_dn_template: Seq<char>,
    groups_base_dn: Option<Seq<char>>,
    username: Seq<char>,
    password: Seq<char>,
)
    requires
        config.bind == (BindView::Direct { user_dn_template, groups_base_dn }),
    ensures
        ({
            let start = crate::plugin::authentication(config, username, password);
            let connected = start.next(ReplyView::Connected(Ok(())));
            let bound = connected.next(ReplyView::Bound(AttemptView::Accepted));
            let user_dn = crate::text::replaced(
                user_dn_template,
                "{username}"@,
                crate::escape::dn_escaped(username),
            );
            &&& start.action() == ActionView::Connect { url: config.url }
            &&& connected.action() == ActionView::Bind { dn: user_dn, password }
            &&& bound.action() == ActionView::ReadEntry {
                base: if groups_base_dn is Some {
                    groups_base_dn->0
                } else {
                    user_dn
                },
                filter: "(objectClass=*)"@,
                attrs: config.read_attributes(),
            }
            &&& start matches SessionView::Direct { request, .. }
            &&& request.timeout_ms == config.timeout_ms
        }),
{
}

/// A request in search mode that carries a user name and a password begins a
/// session that connects to the configured URL, binds the configured service
/// account, and searches the configured base with the filter in which the escaped
/// user name, and nothing else of the request, stands in place of the
/// placeholder. It binds the DN that was found with the password of the request,
/// and the caller is the entry that was found.
pub proof fn law_search_session_of_a_request(
    config: ConfigView,
    headers: Seq<(Seq<char>, Seq<char>)>,
    username: Seq<char>,
    password: Seq<char>,
    bind_dn: Seq<char>,
    bind_password: Seq<char>,
    base_dn: Seq<char>,
    before: Seq<char>,
    after: Seq<char>,
    entry: EntryView,
)
    requires
        config.bind == (BindView::Search {
            bind_dn,
            bind_password,
            base_dn,
            user_filter: before + "{username}"@ + after,
        }),
        forall|at: int| #[trigger]
            crate::text::occurs_at(before + "{username}"@ + after, "{username}"@, at) ==> at
                == before.len(),
        crate::header::parsed_basic(headers) == (CredentialView::Credentials {
            username,
            password,
        }),
    ensures
        crate::plugin::resolving(config, headers) matches ResolvingView::Directory(start) && {
            let connected = start.next(ReplyView::Connected(Ok(())));
            let served = connected.next(ReplyView::Bound(AttemptView::Accepted));
            let found = served.next(ReplyView::Searched(FindView::Found(entry)));
            let bound = found.next(ReplyView::Bound(AttemptView::Accepted));
            &&& start.action() == ActionView::Connect { url: config.url }
            &&& connected.action() == ActionView::Bind { dn: bind_dn, password: bind_password }
            &&& served.action() == ActionView::SearchUser {
                base: base_dn,
                filter: before + crate::escape::filter_escaped(username) + after,
                attrs: config.read_attributes(),
            }
            &&& found.action() == ActionView::Bind { dn: entry.dn, password }
            &&& bound.action() == ActionView::Unbind
            &&& bound.next(ReplyView::Unbound).outcome() == Some(
                OutcomeView::Authenticated(
                    UserView { dn: entry.dn, attrs: crate::ldap::lowered(entry.attrs) },
                ),
            )
        },
{
    reveal_strlit("{username}");
    crate::text::law_single_replacement(
        before,
        "{username}"@,
        after,
        crate::escape::filter_escaped(username),
    );
}

/// A request in direct mode that carries a user name and a password begins a
/// session that connects to the configured URL and binds, with the password of
/// the request, the DN in which the escaped user name, and nothing else of the
/// request, stands in place of the placeholder of the template. It then reads the
/// configured entry, or that of the DN that was bound, and the caller is that DN
/// with the attributes that were read.
pub proof fn law_direct_session_of_a_request(
    config: ConfigView,
    headers: Seq<(Seq<char>, Seq<char>)>,
    username: Seq<char>,
    password: Seq<char>,
    before: Seq<char>,
    after: Seq<char>,
    groups_base_dn: Option<Seq<char>>,
    entry: EntryView,
)
    requires
        config.bind == (BindView::Direct {
            user_dn_template: before + "{username}"@ + after,
            groups_base_dn,
        }),
        forall|at: int| #[trigger]
            crate::text::occurs_at(before + "{username}"@ + after, "{username}"@, at) ==> at
                == before.len(),
        crate::header::parsed_basic(headers) == (CredentialView::Credentials {
            username,
            password,
        }),
    ensures
        crate::plugin::resolving(config, headers) matches ResolvingView::Directory(start) && {
            let user_dn = before + crate::escape::dn_escaped(username) + after;
            let connected = start.next(ReplyView::Connected(Ok(())));
            let bound = connected.next(ReplyView::Bound(AttemptView::Accepted));
            let read = bound.next(ReplyView::Read(Some(entry)));
            &&& start.action() == ActionView::Connect { url: config.url }
            &&& connected.action() == ActionView::Bind { dn: user_dn, password }
            &&& bound.action() == ActionView::ReadEntry {
                base: if groups_base_dn is Some {
                    groups_base_dn->0
                } else {
                    user_dn
                },
                filter: "(objectClass=*)"@,
                attrs: config.read_attributes(),
            }
            &&& read.action() == ActionView::Unbind
            &&& read.next(ReplyView::Unbound).outcome() == Some(
                OutcomeView::Authenticated(
                    UserView { dn: user_dn, attrs: crate::ldap::lowered(entry.attrs) },
                ),
            )
        },
{
    reveal_strlit("{username}");
    crate::text::law_single_replacement(
        before,
        "{username}"@,
        after,
        crate::escape::dn_escaped(username),
    );
}

/// What a request begins depends on its credential alone. Without one it falls
/// through, with a malformed one it is rejected for the reason that makes it
/// malformed, and otherwise it begins the session that verifies exactly that user
/// name and that password, of which nothing is answered yet.
pub proof fn law_requests_begin(config: ConfigView, headers: Seq<(Seq<char>, Seq<char>)>)
    ensures
        match crate::header::parsed_basic(headers) {
            CredentialView::Absent => crate::plugin::resolving(config, headers)
                == ResolvingView::Done(ResolutionView::Absent),
            CredentialView::Invalid(reason) => crate::plugin::resolving(config, headers)
                == ResolvingView::Done(ResolutionView::Invalid { reason }),
            CredentialView::Credentials { username, password } => crate::plugin::resolving(
                config,
                headers,
            ) == ResolvingView::Directory(
                crate::plugin::authentication(config, username, password),
            ),
        },
{
}

/// A request whose first `Authorization` value does not begin with the five
/// letters of `Basic`, in any case, and one space falls through, whatever the
/// configuration, and the directory is not asked.
pub proof fn law_other_schemes_fall_through(
    config: ConfigView,
    headers: Seq<(Seq<char>, Seq<char>)>,
    i: int,
)
    requires
        0 <= i < headers.len(),
        crate::text::same_ignoring_case(headers[i].0, "authorization"@),
        forall|j: int|
            0 <= j < i ==> !crate::text::same_ignoring_case(
                (#[trigger] headers[j]).0,
                "authorization"@,
            ),
        ({
            let value = headers[i].1;
            ||| value.len() < 6
            ||| value[0] != 'B' && value[0] != 'b'
            ||| value[1] != 'A' && value[1] != 'a'
            ||| value[2] != 'S' && value[2] != 's'
            ||| value[3] != 'I' && value[3] != 'i'
            ||| value[4] != 'C' && value[4] != 'c'
            ||| value[5] != ' '
        }),
    ensures
        crate::plugin::resolving(config, headers) == ResolvingView::Done(ResolutionView::Absent),
{
    crate::header::law_other_schemes_are_absent(headers, i);
}

/// A request is resolved reply by reply: before any reply it is as it began, a
/// reply advances its session, an outcome of the session resolves it, and once
/// resolved it stays so.
pub proof fn law_one_more_reply_to_a_request(
    config: ConfigView,
    headers: Seq<(Seq<char>, Seq<char>)>,
    replies: Seq<ReplyView>,
    reply: ReplyView,
)
    ensures
        crate::plugin::resolved_after(config, headers, Seq::empty()) == crate::plugin::resolving(
            config,
            headers,
        ),
        match crate::plugin::resolved_after(config, headers, replies) {
            ResolvingView::Done(resolution) => crate::plugin::resolved_after(
                config,
                headers,
                replies.push(reply),
            ) == ResolvingView::Done(resolution),
            ResolvingView::Directory(session) => crate::plugin::resolved_after(
                config,
                headers,
                replies.push(reply),
            ) == (if session.next(reply).outcome() is Some {
                ResolvingView::Done(
                    crate::plugin::resolution_of(config, session.next(reply).outcome()->0),
                )
            } else {
                ResolvingView::Directory(session.next(reply))
            }),
        },
{
    assert(replies.push(reply).drop_last() == replies);
}

/// An authenticated user resolves to the identity of that user; every other
/// outcome is rejected, for one of three reasons.
pub proof fn law_resolutions(config: ConfigView, user: UserView, detail: Seq<char>)
    ensures
        crate::plugin::resolution_of(config, OutcomeView::Authenticated(user)) == (
        ResolutionView::Resolved { identity: crate::plugin::identity_of(config, user) }),
        crate::plugin::resolution_of(config, OutcomeView::BadCredentials) == (
        ResolutionView::Invalid { reason: "invalid username or password"@ }),
        crate::plugin::resolution_of(config, OutcomeView::UserNotFound) == (
        ResolutionView::Invalid { reason: "invalid username or password"@ }),
        crate::plugin::resolution_of(config, OutcomeView::Ambiguous) == (ResolutionView::Invalid {
            reason: "ambiguous directory match for user"@,
        }),
        crate::plugin::resolution_of(config, OutcomeView::Unavailable(detail)) == (
        ResolutionView::Invalid { reason: "directory unavailable"@ }),
{
}

/// Whatever the bind strategy, the subject of a user is the first value of the
/// configured subject attribute, its case set aside, if the user has one, and the
/// user's DN otherwise.
pub proof fn law_subject(config: ConfigView, user: UserView)
    ensures
        config.subject_attribute is None ==> crate::plugin::identity_of(config, user).subject_id
            == Some(user.dn),
        config.subject_attribute matches Some(name) ==> {
            let key = crate::text::ascii_lower(name);
            &&& user.attrs.contains_key(key) && user.attrs[key].len() > 0
                ==> crate::plugin::identity_of(config, user).subject_id == Some(user.attrs[key][0])
            &&& !(user.attrs.contains_key(key) && user.attrs[key].len() > 0)
                ==> crate::plugin::identity_of(config, user).subject_id == Some(user.dn)
        },
{
}

/// The subject of an entry, whatever the bind strategy: if the last attribute
/// that has the name of the subject attribute, its case set aside, has a value,
/// the first of its values, and the DN if it has none or there is no such
/// attribute.
pub proof fn law_subject_of_an_entry(config: ConfigView, entry: EntryView, name: Seq<char>, i: int)
    requires
        config.subject_attribute == Some(name),
        -1 <= i < entry.attrs.len(),
        i >= 0 ==> crate::text::same_ignoring_case(entry.attrs[i].0, name),
        forall|j: int|
            i < j < entry.attrs.len() ==> !crate::text::same_ignoring_case(
                (#[trigger] entry.attrs[j]).0,
                name,
            ),
    ensures
        crate::plugin::identity_of(
            config,
            UserView { dn: entry.dn, attrs: crate::ldap::lowered(entry.attrs) },
        ).subject_id == Some(
            if i >= 0 && entry.attrs[i].1.len() > 0 {
                entry.attrs[i].1[0]
            } else {
                entry.dn
            },
        ),
{
    crate::ldap::law_attributes_ignore_case(entry.attrs, name);
    if i >= 0 {
        assert(crate::text::same_ignoring_case(entry.attrs[i].0, name));
    }
}

/// The groups of a user are the values of the group attribute, in order, up to
/// the size limit; a user without that attribute has none.
pub proof fn law_groups(config: ConfigView, user: UserView)
    ensures
        ({
            let key = crate::text::ascii_lower(config.group_attribute);
            let groups = crate::plugin::identity_of(config, user).groups;
            &&& !user.attrs.contains_key(key) ==> groups.len() == 0
            &&& user.attrs.contains_key(key) ==> {
                &&& groups.len() <= user.attrs[key].len()
                &&& groups.len() <= config.size_limit
                &&& groups.len() == user.attrs[key].len() || groups.len() == config.size_limit
                &&& forall|i: int|
                    0 <= i < groups.len() ==> #[trigger] groups[i] == user.attrs[key][i]
            }
        }),
{
}

/// The roles of a user are those of its groups, where the configuration has roles
/// made from groups, and none otherwise.
pub proof fn law_roles(config: ConfigView, user: UserView)
    ensures
        config.roles_from_group_cn ==> crate::plugin::identity_of(config, user).roles
            == crate::plugin::roles_of(crate::plugin::identity_of(config, user).groups),
        !config.roles_from_group_cn ==> crate::plugin::identity_of(config, user).roles.len() == 0,
{
}

/// No groups have no roles, and one more group behind some has its role, if it
/// stands for one, come behind theirs.
pub proof fn law_one_more_group(groups: Seq<Seq<char>>, group: Seq<char>)
    ensures
        crate::plugin::roles_of(Seq::empty()).len() == 0,
        crate::ldap::role_of(group) matches Some(role) ==> crate::plugin::roles_of(
            groups.push(group),
        ) == crate::plugin::roles_of(groups).push(role),
        crate::ldap::role_of(group) is None ==> crate::plugin::roles_of(groups.push(group))
            == crate::plugin::roles_of(groups),
{
    assert(groups.push(group).drop_last() == groups);
}

/// The attributes of an identity are those that the configuration lists and that
/// the user has a value of, under the names by which they are listed, each with
/// the first value.
pub proof fn law_identity_attributes(config: ConfigView, user: UserView, name: Seq<char>)
    ensures
        ({
            let attributes = crate::plugin::identity_of(config, user).attributes;
            let key = crate::text::ascii_lower(name);
            &&& attributes.contains_key(name) <==> config.attributes.contains(name)
                && user.attrs.contains_key(key) && user.attrs[key].len() > 0
            &&& attributes.contains_key(name) ==> attributes[name] == user.attrs[key][0]
        }),
{
}

/// Whatever the user, an identity has the configured trust level, as its kind
/// too, the configured label as its provider, the directory's URL as its issuer,
/// and no scopes.
pub proof fn law_identity_posture(config: ConfigView, user: UserView)
    ensures
        crate::plugin::identity_of(config, user).kind == config.trust_level,
        crate::plugin::identity_of(config, user).trust_level == config.trust_level,
        crate::plugin::identity_of(config, user).auth_provider == Some(config.auth_provider_label),
        crate::plugin::identity_of(config, user).issuer == Some(config.url),
        crate::plugin::identity_of(config, user).scopes.len() == 0,
{
}

/// Identities show their parts as they are.
pub proof fn law_identity_parts(identity: PluginIdentity)
    ensures
        identity@.kind == identity.kind@,
        identity@.trust_level == identity.trust_level@,
        match identity.subject_id {
            Some(subject) => identity@.subject_id == Some(subject@),
            None => identity@.subject_id is None,
        },
        match identity.auth_provider {
            Some(label) => identity@.auth_provider == Some(label@),
            None => identity@.auth_provider is None,
        },
        match identity.issuer {
            Some(issuer) => identity@.issuer == Some(issuer@),
            None => identity@.issuer is None,
        },
        identity@.roles.len() == identity.roles@.len(),
        forall|i: int|
            0 <= i < identity.roles@.len() ==> #[trigger] identity@.roles[i]
                == identity.roles@[i]@,
        identity@.groups.len() == identity.groups@.len(),
        forall|i: int|
            0 <= i < identity.groups@.len() ==> #[trigger] identity@.groups[i]
                == identity.groups@[i]@,
        identity@.scopes.len() == identity.scopes@.len(),
        forall|i: int|
            0 <= i < identity.scopes@.len() ==> #[trigger] identity@.scopes[i]
                == identity.scopes@[i]@,
        identity@.attributes == identity.attributes@,
{
}

/// Resolutions show their parts as they are.
pub proof fn law_resolution_parts(resolution: IdentityResolution, resolving: Resolving)
    ensures
        match resolution {
            IdentityResolution::Resolved { identity } => resolution@ == (ResolutionView::Resolved {
                identity: identity@,
            }),
            IdentityResolution::Absent => resolution@ == ResolutionView::Absent,
            IdentityResolution::Invalid { reason } => resolution@ == (ResolutionView::Invalid {
                reason: reason@,
            }),
        },
        match resolving {
            Resolving::Done(done) => resolving@ == ResolvingView::Done(done@),
            Resolving::Directory(session) => resolving@ == ResolvingView::Directory(session@),
        },
{
}

/// A manifest of this plugin names it, its version and its host's path, asks for
/// nothing and offers nothing besides identities.
pub proof fn law_manifest(
    manifest: PluginManifest,
    version: Seq<char>,
    module_path_prefix: Seq<char>,
)
    ensures
        crate::plugin::is_manifest(manifest, version, module_path_prefix) <==> {
            &&& manifest.id@ == "dev.mcpg.identity.ldap"@
            &&& manifest.version@ == version
            &&& manifest.name@ == "LDAP / Active Directory Identity Resolver"@
            &&& manifest.plugin_class == PluginClass::IdentityProvider
            &&& manifest.protocol_version@ == "1.0"@
            &&& manifest.license is None
            &&& manifest.required_capabilities@.len() == 0
            &&& manifest.tags@.len() == 0
            &&& manifest.provides@.len() == 0
            &&& manifest.provides_schemes@.len() == 0
            &&& manifest.module_path_prefix@ == module_path_prefix
            &&& manifest.backend_profile is None
        },
{
}

} // verus!
