//! The exchange with a directory that verifies one caller.
//!
//! The directory decides about the password: a simple bind with the caller's
//! password that succeeds is the proof of identity. A [`Session`] says which
//! operation comes next and takes in what the operation returned, until it has
//! an outcome. There are two strategies: [`resolve_direct`] binds a DN that is
//! known beforehand, [`resolve_search`] finds the DN with a service account and
//! binds again as the DN it found.

use crate::ldap::{
    lower_attrs, AttemptView, BindAttempt, BindOutcome, DirectoryEntry, DirectoryUser, EntryView,
    FindUser, FindView, OutcomeView, UserView,
};
use crate::string_map::StringMap;
use vstd::prelude::*;
use vstd::string::StringExecFns;

verus! {

/// The filter that a read of one entry uses: it matches every entry.
pub const ENTRY_FILTER: &'static str = "(objectClass=*)";

/// What a direct bind needs.
pub struct DirectRequest {
    pub url: String,
    pub user_dn: String,
    pub password: String,
    pub groups_base_dn: Option<String>,
    pub read_attrs: Vec<String>,
    pub timeout_ms: u64,
}

/// What a search and a bind as the found DN need.
pub struct SearchRequest {
    pub url: String,
    pub bind_dn: String,
    pub bind_password: String,
    pub base_dn: String,
    pub user_filter: String,
    pub password: String,
    pub read_attrs: Vec<String>,
    pub timeout_ms: u64,
}

/// Where a direct bind stands: which operation is due, or the outcome.
pub enum DirectStage {
    Connect,
    Bind,
    Read,
    Unbind(DirectoryUser),
    Finished(BindOutcome),
}

/// Where a search and bind stands: which operation is due, or the outcome.
pub enum SearchStage {
    Connect,
    ServiceBind,
    Find,
    CallerBind(DirectoryUser),
    Unbind(DirectoryUser),
    Finished(BindOutcome),
}

/// The exchange with a directory that verifies one caller.
#[allow(inconsistent_fields)]
pub enum Session {
    Direct { request: DirectRequest, stage: DirectStage },
    Search { request: SearchRequest, stage: SearchStage },
}

/// An operation on the directory.
pub enum Action {
    /// Open a connection.
    Connect { url: String },
    /// Simple-bind a DN.
    Bind { dn: String, password: String },
    /// Search one entry, the base itself.
    ReadEntry { base: String, filter: String, attrs: Vec<String> },
    /// Search the subtree of the base.
    SearchUser { base: String, filter: String, attrs: Vec<String> },
    /// Unbind; whether that succeeds does not matter.
    Unbind,
    /// Nothing more to do: the session has an outcome.
    Finish,
}

/// What an operation returned.
pub enum Reply {
    /// Whether the connection was opened, or the message of the error.
    Connected(Result<(), String>),
    /// The result of a bind.
    Bound(BindAttempt),
    /// The entry that a read gave, if any.
    Read(Option<DirectoryEntry>),
    /// The result of the search for the user.
    Searched(FindUser<DirectoryEntry>),
    /// The unbind is over.
    Unbound,
}

/// What a direct bind needs.
pub struct DirectRequestView {
    pub url: Seq<char>,
    pub user_dn: Seq<char>,
    pub password: Seq<char>,
    pub groups_base_dn: Option<Seq<char>>,
    pub read_attrs: Seq<Seq<char>>,
    pub timeout_ms: nat,
}

/// What a search and a bind as the found DN need.
pub struct SearchRequestView {
    pub url: Seq<char>,
    pub bind_dn: Seq<char>,
    pub bind_password: Seq<char>,
    pub base_dn: Seq<char>,
    pub user_filter: Seq<char>,
    pub password: Seq<char>,
    pub read_attrs: Seq<Seq<char>>,
    pub timeout_ms: nat,
}

/// Where a direct bind stands.
pub enum DirectStageView {
    Connect,
    Bind,
    Read,
    Unbind(UserView),
    Finished(OutcomeView),
}

/// Where a search and bind stands.
pub enum SearchStageView {
    Connect,
    ServiceBind,
    Find,
    CallerBind(UserView),
    Unbind(UserView),
    Finished(OutcomeView),
}

/// What a session is.
#[allow(inconsistent_fields)]
pub enum SessionView {
    Direct { request: DirectRequestView, stage: DirectStageView },
    Search { request: SearchRequestView, stage: SearchStageView },
}

/// What an operation is.
pub enum ActionView {
    Connect { url: Seq<char> },
    Bind { dn: Seq<char>, password: Seq<char> },
    ReadEntry { base: Seq<char>, filter: Seq<char>, attrs: Seq<Seq<char>> },
    SearchUser { base: Seq<char>, filter: Seq<char>, attrs: Seq<Seq<char>> },
    Unbind,
    Finish,
}

/// What the return of an operation is.
pub enum ReplyView {
    Connected(Result<(), Seq<char>>),
    Bound(AttemptView),
    Read(Option<EntryView>),
    Searched(FindView),
    Unbound,
}

impl View for DirectRequest {
    type V = DirectRequestView;

    open spec fn view(&self) -> DirectRequestView {
        DirectRequestView {
            url: self.url@,
            user_dn: self.user_dn@,
            password: self.password@,
            groups_base_dn: self.groups_base_dn.deep_view(),
            read_attrs: self.read_attrs.deep_view(),
            timeout_ms: self.timeout_ms as nat,
        }
    }
}

impl View for SearchRequest {
    type V = SearchRequestView;

    open spec fn view(&self) -> SearchRequestView {
        SearchRequestView {
            url: self.url@,
            bind_dn: self.bind_dn@,
            bind_password: self.bind_password@,
            base_dn: self.base_dn@,
            user_filter: self.user_filter@,
            password: self.password@,
            read_attrs: self.read_attrs.deep_view(),
            timeout_ms: self.timeout_ms as nat,
        }
    }
}

impl View for DirectStage {
    type V = DirectStageView;

    open spec fn view(&self) -> DirectStageView {
        match *self {
            DirectStage::Connect => DirectStageView::Connect,
            DirectStage::Bind => DirectStageView::Bind,
            DirectStage::Read => DirectStageView::Read,
            DirectStage::Unbind(user) => DirectStageView::Unbind(user@),
            DirectStage::Finished(outcome) => DirectStageView::Finished(outcome@),
        }
    }
}

impl View for SearchStage {
    type V = SearchStageView;

    open spec fn view(&self) -> SearchStageView {
        match *self {
            SearchStage::Connect => SearchStageView::Connect,
            SearchStage::ServiceBind => SearchStageView::ServiceBind,
            SearchStage::Find => SearchStageView::Find,
            SearchStage::CallerBind(user) => SearchStageView::CallerBind(user@),
            SearchStage::Unbind(user) => SearchStageView::Unbind(user@),
            SearchStage::Finished(outcome) => SearchStageView::Finished(outcome@),
        }
    }
}

impl View for Session {
    type V = SessionView;

    open spec fn view(&self) -> SessionView {
        match *self {
            Session::Direct { request, stage } => SessionView::Direct {
                request: request@,
                stage: stage@,
            },
            Session::Search { request, stage } => SessionView::Search {
                request: request@,
                stage: stage@,
            },
        }
    }
}

impl View for Action {
    type V = ActionView;

    open spec fn view(&self) -> ActionView {
        match *self {
            Action::Connect { url } => ActionView::Connect { url: url@ },
            Action::Bind { dn, password } => ActionView::Bind { dn: dn@, password: password@ },
            Action::ReadEntry { base, filter, attrs } => ActionView::ReadEntry {
                base: base@,
                filter: filter@,
                attrs: attrs.deep_view(),
            },
            Action::SearchUser { base, filter, attrs } => ActionView::SearchUser {
                base: base@,
                filter: filter@,
                attrs: attrs.deep_view(),
            },
            Action::Unbind => ActionView::Unbind,
            Action::Finish => ActionView::Finish,
        }
    }
}

impl View for Reply {
    type V = ReplyView;

    open spec fn view(&self) -> ReplyView {
        match *self {
            Reply::Connected(Ok(())) => ReplyView::Connected(Ok(())),
            Reply::Connected(Err(detail)) => ReplyView::Connected(Err(detail@)),
            Reply::Bound(attempt) => ReplyView::Bound(attempt@),
            Reply::Read(Some(entry)) => ReplyView::Read(Some(entry@)),
            Reply::Read(None) => ReplyView::Read(None),
            Reply::Searched(found) => ReplyView::Searched(found@),
            Reply::Unbound => ReplyView::Unbound,
        }
    }
}

impl ActionView {
    /// Whether a reply is one to this operation.
    pub open spec fn answered_by(self, reply: ReplyView) -> bool {
        match self {
            ActionView::Connect { .. } => reply is Connected,
            ActionView::Bind { .. } => reply is Bound,
            ActionView::ReadEntry { .. } => reply is Read,
            ActionView::SearchUser { .. } => reply is Searched,
            ActionView::Unbind => reply is Unbound,
            ActionView::Finish => false,
        }
    }
}

/// The user that an entry stands for.
pub open spec fn user_of(entry: EntryView) -> UserView {
    UserView { dn: entry.dn, attrs: crate::ldap::lowered(entry.attrs) }
}

impl DirectStageView {
    /// The operation that is due.
    pub open spec fn action(self, request: DirectRequestView) -> ActionView {
        match self {
            DirectStageView::Connect => ActionView::Connect { url: request.url },
            DirectStageView::Bind => ActionView::Bind {
                dn: request.user_dn,
                password: request.password,
            },
            DirectStageView::Read => ActionView::ReadEntry {
                base: match request.groups_base_dn {
                    Some(base) => base,
                    None => request.user_dn,
                },
                filter: ENTRY_FILTER@,
                attrs: request.read_attrs,
            },
            DirectStageView::Unbind(_) => ActionView::Unbind,
            DirectStageView::Finished(_) => ActionView::Finish,
        }
    }

    /// The stage after a reply.
    pub open spec fn next(self, request: DirectRequestView, reply: ReplyView) -> DirectStageView {
        match (self, reply) {
            (DirectStageView::Connect, ReplyView::Connected(Ok(_))) => DirectStageView::Bind,
            (DirectStageView::Connect, ReplyView::Connected(Err(detail))) => {
                DirectStageView::Finished(
                    OutcomeView::Unavailable("connect failed: "@ + detail),
                )
            },
            (DirectStageView::Bind, ReplyView::Bound(attempt)) => match attempt {
                AttemptView::Accepted => DirectStageView::Read,
                AttemptView::Rejected => DirectStageView::Finished(
                    OutcomeView::BadCredentials,
                ),
                AttemptView::Transport(detail) => DirectStageView::Finished(
                    OutcomeView::Unavailable(detail),
                ),
            },
            (DirectStageView::Read, ReplyView::Read(entry)) => DirectStageView::Unbind(
                UserView {
                    dn: request.user_dn,
                    attrs: match entry {
                        Some(entry) => crate::ldap::lowered(entry.attrs),
                        None => Map::empty(),
                    },
                },
            ),
            (DirectStageView::Unbind(user), ReplyView::Unbound) => DirectStageView::Finished(
                OutcomeView::Authenticated(user),
            ),
            _ => self,
        }
    }

    /// How many replies the session can take in at most.
    pub open spec fn remaining(self) -> nat {
        match self {
            DirectStageView::Connect => 4,
            DirectStageView::Bind => 3,
            DirectStageView::Read => 2,
            DirectStageView::Unbind(_) => 1,
            DirectStageView::Finished(_) => 0,
        }
    }
}

impl SearchStageView {
    /// The operation that is due.
    pub open spec fn action(self, request: SearchRequestView) -> ActionView {
        match self {
            SearchStageView::Connect => ActionView::Connect { url: request.url },
            SearchStageView::ServiceBind => ActionView::Bind {
                dn: request.bind_dn,
                password: request.bind_password,
            },
            SearchStageView::Find => ActionView::SearchUser {
                base: request.base_dn,
                filter: request.user_filter,
                attrs: request.read_attrs,
            },
            SearchStageView::CallerBind(user) => ActionView::Bind {
                dn: user.dn,
                password: request.password,
            },
            SearchStageView::Unbind(_) => ActionView::Unbind,
            SearchStageView::Finished(_) => ActionView::Finish,
        }
    }

    /// The stage after a reply. That the service account cannot bind is the
    /// operator's fault, not the caller's.
    pub open spec fn next(self, reply: ReplyView) -> SearchStageView {
        match (self, reply) {
            (SearchStageView::Connect, ReplyView::Connected(Ok(_))) => SearchStageView::ServiceBind,
            (SearchStageView::Connect, ReplyView::Connected(Err(detail))) => {
                SearchStageView::Finished(
                    OutcomeView::Unavailable("connect failed: "@ + detail),
                )
            },
            (SearchStageView::ServiceBind, ReplyView::Bound(attempt)) => match attempt {
                AttemptView::Accepted => SearchStageView::Find,
                AttemptView::Rejected => SearchStageView::Finished(
                    OutcomeView::Unavailable("service-account bind rejected"@),
                ),
                AttemptView::Transport(detail) => SearchStageView::Finished(
                    OutcomeView::Unavailable("service-account bind: "@ + detail),
                ),
            },
            (SearchStageView::Find, ReplyView::Searched(found)) => match found {
                FindView::Found(entry) => SearchStageView::CallerBind(user_of(entry)),
                FindView::NotFound => SearchStageView::Finished(
                    OutcomeView::UserNotFound,
                ),
                FindView::Ambiguous => SearchStageView::Finished(
                    OutcomeView::Ambiguous,
                ),
                FindView::Error(detail) => SearchStageView::Finished(
                    OutcomeView::Unavailable(detail),
                ),
            },
            (SearchStageView::CallerBind(user), ReplyView::Bound(attempt)) => match attempt {
                AttemptView::Accepted => SearchStageView::Unbind(user),
                AttemptView::Rejected => SearchStageView::Finished(
                    OutcomeView::BadCredentials,
                ),
                AttemptView::Transport(detail) => SearchStageView::Finished(
                    OutcomeView::Unavailable(detail),
                ),
            },
            (SearchStageView::Unbind(user), ReplyView::Unbound) => SearchStageView::Finished(
                OutcomeView::Authenticated(user),
            ),
            _ => self,
        }
    }

    /// How many replies the session can take in at most.
    pub open spec fn remaining(self) -> nat {
        match self {
            SearchStageView::Connect => 5,
            SearchStageView::ServiceBind => 4,
            SearchStageView::Find => 3,
            SearchStageView::CallerBind(_) => 2,
            SearchStageView::Unbind(_) => 1,
            SearchStageView::Finished(_) => 0,
        }
    }
}

impl SessionView {
    /// The operation that is due.
    pub open spec fn action(self) -> ActionView {
        match self {
            SessionView::Direct { request, stage } => stage.action(request),
            SessionView::Search { request, stage } => stage.action(request),
        }
    }

    /// The session after a reply. A reply to another operation than the one
    /// that is due changes nothing.
    pub open spec fn next(self, reply: ReplyView) -> SessionView {
        match self {
            SessionView::Direct { request, stage } => SessionView::Direct {
                request,
                stage: stage.next(request, reply),
            },
            SessionView::Search { request, stage } => SessionView::Search {
                request,
                stage: stage.next(reply),
            },
        }
    }

    /// The outcome, once there is one.
    pub open spec fn outcome(self) -> Option<OutcomeView> {
        match self {
            SessionView::Direct { stage: DirectStageView::Finished(outcome), .. } => Some(outcome),
            SessionView::Search { stage: SearchStageView::Finished(outcome), .. } => Some(outcome),
            _ => None,
        }
    }

    /// How many replies the session can take in at most.
    pub open spec fn remaining(self) -> nat {
        match self {
            SessionView::Direct { stage, .. } => stage.remaining(),
            SessionView::Search { stage, .. } => stage.remaining(),
        }
    }

    /// The caller's password.
    pub open spec fn password(self) -> Seq<char> {
        match self {
            SessionView::Direct { request, .. } => request.password,
            SessionView::Search { request, .. } => request.password,
        }
    }

    /// Whether nothing has been done yet.
    pub open spec fn fresh(self) -> bool {
        match self {
            SessionView::Direct { stage, .. } => stage is Connect,
            SessionView::Search { stage, .. } => stage is Connect,
        }
    }

    /// Whether the bind of the service account is due.
    pub open spec fn at_service_bind(self) -> bool {
        match self {
            SessionView::Direct { .. } => false,
            SessionView::Search { stage, .. } => stage is ServiceBind,
        }
    }

    /// Whether a reply leaves the credential unverifiable: the connection is
    /// not opened, a bind or the search for the user comes to no answer, or the
    /// service account is rejected.
    pub open spec fn fails_on(self, reply: ReplyView) -> bool {
        match reply {
            ReplyView::Connected(result) => result is Err,
            ReplyView::Bound(attempt) => attempt is Transport || (attempt is Rejected
                && self.at_service_bind()),
            ReplyView::Searched(found) => found is Error,
            _ => false,
        }
    }

    /// The session after some replies.
    pub open spec fn run(self, replies: Seq<ReplyView>) -> SessionView
        decreases replies.len(),
    {
        if replies.len() == 0 {
            self
        } else {
            self.run(replies.drop_last()).next(replies.last())
        }
    }

    /// Whether, in the course of some replies, the directory accepted a bind of
    /// `dn` with `password`.
    pub open spec fn accepted(
        self,
        replies: Seq<ReplyView>,
        dn: Seq<char>,
        password: Seq<char>,
    ) -> bool {
        exists|i: int|
            {
                &&& 0 <= i < replies.len()
                &&& (#[trigger] self.run(replies.take(i))).action() == ActionView::Bind {
                    dn,
                    password,
                }
                &&& replies[i] == ReplyView::Bound(AttemptView::Accepted)
            }
    }
}

/// In the course of a direct bind, everything behind the bind stage has the
/// caller's bind accepted, and the request stays as it is.
proof fn lemma_direct_run(start: SessionView, replies: Seq<ReplyView>)
    requires
        start.fresh(),
        start is Direct,
    ensures
        start.run(replies) is Direct,
        start.run(replies)->Direct_request == start->Direct_request,
        match start.run(replies)->Direct_stage {
            DirectStageView::Read => start.accepted(
                replies,
                start->Direct_request.user_dn,
                start.password(),
            ),
            DirectStageView::Unbind(user) => user.dn == start->Direct_request.user_dn
                && start.accepted(replies, user.dn, start.password()),
            DirectStageView::Finished(OutcomeView::Authenticated(user)) => user.dn
                == start->Direct_request.user_dn && start.accepted(
                replies,
                user.dn,
                start.password(),
            ),
            _ => true,
        },
    decreases replies.len(),
{
    if replies.len() > 0 {
        let before = replies.drop_last();
        let last = replies.len() - 1;
        lemma_direct_run(start, before);
        assert(replies.take(last) == before);
        let dn = start->Direct_request.user_dn;
        let password = start.password();
        if start.accepted(before, dn, password) {
            lemma_accepted_stays(start, before, replies.last(), dn, password);
            assert(before.push(replies.last()) == replies);
        }
        if start.run(before)->Direct_stage is Bind && replies.last() == ReplyView::Bound(
            AttemptView::Accepted,
        ) {
            assert(start.run(replies.take(last)).action() == (ActionView::Bind { dn, password }));
            assert(start.accepted(replies, dn, password));
        }
    }
}

/// In the course of a search and bind, everything behind the caller's bind has
/// it accepted, and the request stays as it is.
proof fn lemma_search_run(start: SessionView, replies: Seq<ReplyView>)
    requires
        start.fresh(),
        start is Search,
    ensures
        start.run(replies) is Search,
        start.run(replies)->Search_request == start->Search_request,
        match start.run(replies)->Search_stage {
            SearchStageView::Unbind(user) => start.accepted(replies, user.dn, start.password()),
            SearchStageView::Finished(OutcomeView::Authenticated(user)) => start.accepted(
                replies,
                user.dn,
                start.password(),
            ),
            _ => true,
        },
    decreases replies.len(),
{
    if replies.len() > 0 {
        let before = replies.drop_last();
        let last = replies.len() - 1;
        lemma_search_run(start, before);
        assert(replies.take(last) == before);
        assert(before.push(replies.last()) == replies);
        let password = start.password();
        match start.run(before)->Search_stage {
            SearchStageView::CallerBind(user) => {
                if replies.last() == ReplyView::Bound(AttemptView::Accepted) {
                    assert(start.run(replies.take(last)).action() == (ActionView::Bind {
                        dn: user.dn,
                        password,
                    }));
                    assert(start.accepted(replies, user.dn, password));
                }
            },
            SearchStageView::Unbind(user) => {
                lemma_accepted_stays(start, before, replies.last(), user.dn, password);
            },
            SearchStageView::Finished(OutcomeView::Authenticated(user)) => {
                lemma_accepted_stays(start, before, replies.last(), user.dn, password);
            },
            _ => {},
        }
    }
}

/// What was accepted in the course of some replies stays accepted in the course
/// of one more.
proof fn lemma_accepted_stays(
    start: SessionView,
    replies: Seq<ReplyView>,
    reply: ReplyView,
    dn: Seq<char>,
    password: Seq<char>,
)
    requires
        start.accepted(replies, dn, password),
    ensures
        start.accepted(replies.push(reply), dn, password),
{
    let longer = replies.push(reply);
    let i = choose|i: int|
        {
            &&& 0 <= i < replies.len()
            &&& (#[trigger] start.run(replies.take(i))).action() == ActionView::Bind {
                dn,
                password,
            }
            &&& replies[i] == ReplyView::Bound(AttemptView::Accepted)
        };
    assert(longer.take(i) == replies.take(i));
    assert(start.run(longer.take(i)).action() == (ActionView::Bind { dn, password }));
}

/// A caller is authenticated only as a DN that the directory accepted in a bind
/// with the caller's password.
pub proof fn law_authenticated_by_a_bind_as_the_caller(
    start: SessionView,
    replies: Seq<ReplyView>,
)
    requires
        start.fresh(),
    ensures
        start.run(replies).outcome() matches Some(OutcomeView::Authenticated(user))
            ==> start.accepted(replies, user.dn, start.password()),
{
    match start {
        SessionView::Direct { .. } => lemma_direct_run(start, replies),
        SessionView::Search { .. } => lemma_search_run(start, replies),
    }
}

/// Whether some replies hold the entry that a search for the user found.
pub open spec fn found_in(replies: Seq<ReplyView>, user: UserView) -> bool {
    exists|i: int|
        {
            &&& 0 <= i < replies.len()
            &&& #[trigger] replies[i] matches ReplyView::Searched(FindView::Found(entry))
            &&& user == user_of(entry)
        }
}

/// In the course of a search and bind, the user comes from the search.
proof fn lemma_search_found(start: SessionView, replies: Seq<ReplyView>)
    requires
        start.fresh(),
        start is Search,
    ensures
        start.run(replies) is Search,
        match start.run(replies)->Search_stage {
            SearchStageView::CallerBind(user) => found_in(replies, user),
            SearchStageView::Unbind(user) => found_in(replies, user),
            SearchStageView::Finished(OutcomeView::Authenticated(user)) => found_in(replies, user),
            _ => true,
        },
    decreases replies.len(),
{
    if replies.len() > 0 {
        let before = replies.drop_last();
        let last = replies.len() - 1;
        lemma_search_found(start, before);
        assert forall|user: UserView| found_in(before, user) implies found_in(replies, user) by {
            let i = choose|i: int|
                {
                    &&& 0 <= i < before.len()
                    &&& #[trigger] before[i] matches ReplyView::Searched(FindView::Found(entry))
                    &&& user == user_of(entry)
                };
            assert(replies[i] == before[i]);
        }
        if let ReplyView::Searched(FindView::Found(entry)) = replies.last() {
            assert(replies[last] == replies.last());
            assert(found_in(replies, user_of(entry)));
        }
    }
}

/// The user that a direct session authenticates has the DN that it was begun
/// with; the user that a search session authenticates is the entry that the
/// search found.
pub proof fn law_authenticated_user(start: SessionView, replies: Seq<ReplyView>)
    requires
        start.fresh(),
    ensures
        start.run(replies).outcome() matches Some(OutcomeView::Authenticated(user))
            ==> match start {
            SessionView::Direct { request, .. } => user.dn == request.user_dn,
            SessionView::Search { .. } => found_in(replies, user),
        },
{
    match start {
        SessionView::Direct { .. } => lemma_direct_run(start, replies),
        SessionView::Search { .. } => lemma_search_found(start, replies),
    }
}

/// A direct session binds no DN but the caller's and uses no password but the
/// caller's; a search session binds the service account with its own password,
/// and with the caller's password no DN but that of the entry that the search
/// found.
pub proof fn law_binds_of_a_session(start: SessionView, replies: Seq<ReplyView>)
    requires
        start.fresh(),
    ensures
        start.run(replies).action() matches ActionView::Bind { dn, password } ==> match start {
            SessionView::Direct { request, .. } => dn == request.user_dn && password
                == request.password,
            SessionView::Search { request, .. } => {
                ||| dn == request.bind_dn && password == request.bind_password
                ||| password == request.password && exists|user: UserView| #[trigger]
                    found_in(replies, user) && dn == user.dn
            },
        },
{
    match start {
        SessionView::Direct { .. } => lemma_direct_run(start, replies),
        SessionView::Search { .. } => {
            lemma_search_run(start, replies);
            lemma_search_found(start, replies);
        },
    }
}

/// Every reply to the operation that is due brings a session nearer to its
/// outcome, and a session with no reply left to take in has one.
pub proof fn law_sessions_end(session: SessionView, reply: ReplyView)
    ensures
        session.action().answered_by(reply) ==> session.next(reply).remaining()
            < session.remaining(),
        session.remaining() == 0 <==> session.outcome() is Some,
        session.action() is Finish <==> session.outcome() is Some,
        session.remaining() <= 5,
{
}

/// A connection that is not opened, a bind or a search for the user that comes
/// to no answer, and a service account that is rejected all end a session with
/// the directory unavailable: no credential passes unverified.
pub proof fn law_failures_end_unavailable(session: SessionView, reply: ReplyView)
    requires
        session.action().answered_by(reply),
        session.fails_on(reply),
    ensures
        session.next(reply).outcome() matches Some(outcome) && outcome is Unavailable,
{
}

/// A read that gives no entry does not undo the authentication: the caller has
/// the DN that was bound, and no attributes.
pub proof fn law_unreadable_entry_authenticates(request: DirectRequestView)
    ensures
        ({
            let session = SessionView::Direct { request, stage: DirectStageView::Read };
            session.next(ReplyView::Read(None)).next(ReplyView::Unbound).outcome() == Some(
                OutcomeView::Authenticated(UserView { dn: request.user_dn, attrs: Map::empty() }),
            )
        }),
{
}

/// A direct session connects, binds the caller's DN with the caller's password,
/// reads one entry, the configured one or the caller's own, whatever class it is
/// of, and unbinds. The caller is the DN that was bound, with the attributes that
/// were read. What fails ends the session: no connection or no answer to the bind
/// with the directory unavailable, a rejected bind with bad credentials.
pub proof fn law_direct_exchange(
    request: DirectRequestView,
    entry: Option<EntryView>,
    detail: Seq<char>,
)
    ensures
        ({
            let start = SessionView::Direct { request, stage: DirectStageView::Connect };
            let connected = start.next(ReplyView::Connected(Ok(())));
            let bound = connected.next(ReplyView::Bound(AttemptView::Accepted));
            let read = bound.next(ReplyView::Read(entry));
            let ended = read.next(ReplyView::Unbound);
            &&& start.action() == ActionView::Connect { url: request.url }
            &&& start.outcome() is None
            &&& start.next(ReplyView::Connected(Err(detail))).outcome() == Some(
                OutcomeView::Unavailable("connect failed: "@ + detail),
            )
            &&& connected.action() == ActionView::Bind {
                dn: request.user_dn,
                password: request.password,
            }
            &&& connected.outcome() is None
            &&& connected.next(ReplyView::Bound(AttemptView::Rejected)).outcome() == Some(
                OutcomeView::BadCredentials,
            )
            &&& connected.next(ReplyView::Bound(AttemptView::Transport(detail))).outcome() == Some(
                OutcomeView::Unavailable(detail),
            )
            &&& bound.action() == ActionView::ReadEntry {
                base: if request.groups_base_dn is Some {
                    request.groups_base_dn->0
                } else {
                    request.user_dn
                },
                filter: "(objectClass=*)"@,
                attrs: request.read_attrs,
            }
            &&& bound.outcome() is None
            &&& read.action() == ActionView::Unbind
            &&& read.outcome() is None
            &&& ended.action() == ActionView::Finish
            &&& entry is None ==> ended.outcome() == Some(
                OutcomeView::Authenticated(UserView { dn: request.user_dn, attrs: Map::empty() }),
            )
            &&& entry is Some ==> ended.outcome() == Some(
                OutcomeView::Authenticated(
                    UserView { dn: request.user_dn, attrs: crate::ldap::lowered(entry->0.attrs) },
                ),
            )
        }),
{
}

/// A search session connects, binds the service account with its own password,
/// searches the subtree of the base with the filter, binds the DN that was found
/// with the caller's password, and unbinds. The caller is the entry that was
/// found. What fails ends the session: no connection, no answer, and a service
/// account that is rejected with the directory unavailable; no entry, more than
/// one entry, and a rejected caller each with an outcome of its own.
pub proof fn law_search_exchange(request: SearchRequestView, entry: EntryView, detail: Seq<char>)
    ensures
        ({
            let start = SessionView::Search { request, stage: SearchStageView::Connect };
            let connected = start.next(ReplyView::Connected(Ok(())));
            let served = connected.next(ReplyView::Bound(AttemptView::Accepted));
            let found = served.next(ReplyView::Searched(FindView::Found(entry)));
            let bound = found.next(ReplyView::Bound(AttemptView::Accepted));
            let ended = bound.next(ReplyView::Unbound);
            &&& start.action() == ActionView::Connect { url: request.url }
            &&& start.outcome() is None
            &&& start.next(ReplyView::Connected(Err(detail))).outcome() == Some(
                OutcomeView::Unavailable("connect failed: "@ + detail),
            )
            &&& connected.action() == ActionView::Bind {
                dn: request.bind_dn,
                password: request.bind_password,
            }
            &&& connected.outcome() is None
            &&& connected.next(ReplyView::Bound(AttemptView::Rejected)).outcome() == Some(
                OutcomeView::Unavailable("service-account bind rejected"@),
            )
            &&& connected.next(ReplyView::Bound(AttemptView::Transport(detail))).outcome() == Some(
                OutcomeView::Unavailable("service-account bind: "@ + detail),
            )
            &&& served.action() == ActionView::SearchUser {
                base: request.base_dn,
                filter: request.user_filter,
                attrs: request.read_attrs,
            }
            &&& served.outcome() is None
            &&& served.next(ReplyView::Searched(FindView::NotFound)).outcome() == Some(
                OutcomeView::UserNotFound,
            )
            &&& served.next(ReplyView::Searched(FindView::Ambiguous)).outcome() == Some(
                OutcomeView::Ambiguous,
            )
            &&& served.next(ReplyView::Searched(FindView::Error(detail))).outcome() == Some(
                OutcomeView::Unavailable(detail),
            )
            &&& found.action() == ActionView::Bind { dn: entry.dn, password: request.password }
            &&& found.outcome() is None
            &&& found.next(ReplyView::Bound(AttemptView::Rejected)).outcome() == Some(
                OutcomeView::BadCredentials,
            )
            &&& found.next(ReplyView::Bound(AttemptView::Transport(detail))).outcome() == Some(
                OutcomeView::Unavailable(detail),
            )
            &&& bound.action() == ActionView::Unbind
            &&& bound.outcome() is None
            &&& ended.action() == ActionView::Finish
            &&& ended.outcome() == Some(
                OutcomeView::Authenticated(
                    UserView { dn: entry.dn, attrs: crate::ldap::lowered(entry.attrs) },
                ),
            )
        }),
{
}

/// A reply to another operation than the one that is due changes nothing, and
/// neither does any reply once there is an outcome.
pub proof fn law_unasked_replies_change_nothing(session: SessionView, reply: ReplyView)
    ensures
        session.action() is Connect && !(reply is Connected) ==> session.next(reply) == session,
        session.action() is Bind && !(reply is Bound) ==> session.next(reply) == session,
        session.action() is ReadEntry && !(reply is Read) ==> session.next(reply) == session,
        session.action() is SearchUser && !(reply is Searched) ==> session.next(reply) == session,
        session.action() is Unbind && !(reply is Unbound) ==> session.next(reply) == session,
        session.action() is Finish ==> session.next(reply) == session,
        session.outcome() is Some ==> session.next(reply) == session,
{
}

/// What a session was begun with, its time limit among it, stays as it is.
pub proof fn law_requests_stay(session: SessionView, reply: ReplyView)
    ensures
        match session {
            SessionView::Direct { request, .. } => session.next(reply) matches SessionView::Direct {
                request: after,
                ..
            } && after == request,
            SessionView::Search { request, .. } => session.next(reply) matches SessionView::Search {
                request: after,
                ..
            } && after == request,
        },
{
}

/// A session takes in its replies one after the other.
pub proof fn law_one_more_reply(session: SessionView, replies: Seq<ReplyView>, reply: ReplyView)
    ensures
        session.run(Seq::empty()) == session,
        session.run(replies.push(reply)) == session.run(replies).next(reply),
{
    assert(replies.push(reply).drop_last() == replies);
}

/// The replies to an operation are those of its kind.
pub proof fn law_answers(action: ActionView, reply: ReplyView)
    ensures
        action.answered_by(reply) <==> {
            ||| action is Connect && reply is Connected
            ||| action is Bind && reply is Bound
            ||| action is ReadEntry && reply is Read
            ||| action is SearchUser && reply is Searched
            ||| action is Unbind && reply is Unbound
        },
{
}

/// Operations and replies show their parts as they are.
pub proof fn law_action_parts(action: Action, reply: Reply)
    ensures
        match action {
            Action::Connect { url } => action@ == (ActionView::Connect { url: url@ }),
            Action::Bind { dn, password } => action@ == (ActionView::Bind {
                dn: dn@,
                password: password@,
            }),
            Action::ReadEntry { base, filter, attrs } => {
                &&& action@ matches ActionView::ReadEntry { base: b, filter: f, attrs: a }
                &&& b == base@
                &&& f == filter@
                &&& a.len() == attrs@.len()
                &&& forall|i: int| 0 <= i < attrs@.len() ==> #[trigger] a[i] == attrs@[i]@
            },
            Action::SearchUser { base, filter, attrs } => {
                &&& action@ matches ActionView::SearchUser { base: b, filter: f, attrs: a }
                &&& b == base@
                &&& f == filter@
                &&& a.len() == attrs@.len()
                &&& forall|i: int| 0 <= i < attrs@.len() ==> #[trigger] a[i] == attrs@[i]@
            },
            Action::Unbind => action@ == ActionView::Unbind,
            Action::Finish => action@ == ActionView::Finish,
        },
        match reply {
            Reply::Connected(result) => match result {
                Ok(()) => reply@ == ReplyView::Connected(Ok(())),
                Err(detail) => reply@ == ReplyView::Connected(Err(detail@)),
            },
            Reply::Bound(attempt) => reply@ == ReplyView::Bound(attempt@),
            Reply::Read(entry) => match entry {
                Some(read) => reply@ == ReplyView::Read(Some(read@)),
                None => reply@ == ReplyView::Read(None),
            },
            Reply::Searched(found) => reply@ == ReplyView::Searched(found@),
            Reply::Unbound => reply@ == ReplyView::Unbound,
        },
{
}

/// A session shows its parts as they are.
pub proof fn law_session_parts(session: Session)
    ensures
        match session {
            Session::Direct { request, stage } => {
                &&& session@ == (SessionView::Direct { request: request@, stage: stage@ })
                &&& request@.url == request.url@
                &&& request@.user_dn == request.user_dn@
                &&& request@.password == request.password@
                &&& match request.groups_base_dn {
                    Some(base) => request@.groups_base_dn == Some(base@),
                    None => request@.groups_base_dn is None,
                }
                &&& request@.read_attrs.len() == request.read_attrs@.len()
                &&& forall|i: int|
                    0 <= i < request.read_attrs@.len() ==> #[trigger] request@.read_attrs[i]
                        == request.read_attrs@[i]@
                &&& request@.timeout_ms == request.timeout_ms
                &&& match stage {
                    DirectStage::Connect => stage@ == DirectStageView::Connect,
                    DirectStage::Bind => stage@ == DirectStageView::Bind,
                    DirectStage::Read => stage@ == DirectStageView::Read,
                    DirectStage::Unbind(user) => stage@ == DirectStageView::Unbind(user@),
                    DirectStage::Finished(outcome) => stage@ == DirectStageView::Finished(outcome@),
                }
            },
            Session::Search { request, stage } => {
                &&& session@ == (SessionView::Search { request: request@, stage: stage@ })
                &&& request@.url == request.url@
                &&& request@.bind_dn == request.bind_dn@
                &&& request@.bind_password == request.bind_password@
                &&& request@.base_dn == request.base_dn@
                &&& request@.user_filter == request.user_filter@
                &&& request@.password == request.password@
                &&& request@.read_attrs.len() == request.read_attrs@.len()
                &&& forall|i: int|
                    0 <= i < request.read_attrs@.len() ==> #[trigger] request@.read_attrs[i]
                        == request.read_attrs@[i]@
                &&& request@.timeout_ms == request.timeout_ms
                &&& match stage {
                    SearchStage::Connect => stage@ == SearchStageView::Connect,
                    SearchStage::ServiceBind => stage@ == SearchStageView::ServiceBind,
                    SearchStage::Find => stage@ == SearchStageView::Find,
                    SearchStage::CallerBind(user) => stage@ == SearchStageView::CallerBind(user@),
                    SearchStage::Unbind(user) => stage@ == SearchStageView::Unbind(user@),
                    SearchStage::Finished(outcome) => stage@ == SearchStageView::Finished(outcome@),
                }
            },
        },
{
}

/// A copy of a list of names.
fn copy_names(list: &Vec<String>) -> (r: Vec<String>)
    ensures
        r.deep_view() == list.deep_view(),
{
    let r: Vec<String> = list.clone();
    proof {
        assert(r.deep_view() =~= list.deep_view());
    }
    r
}

/// Begins a direct bind: the DN is bound with the caller's password, and then
/// the caller's entry is read for groups and attributes.
pub fn resolve_direct(
    url: &str,
    user_dn: &str,
    password: &str,
    groups_base_dn: Option<&str>,
    read_attrs: &Vec<String>,
    timeout_ms: u64,
) -> (r: Session)
    ensures
        r@ == (SessionView::Direct {
            request: DirectRequestView {
                url: url@,
                user_dn: user_dn@,
                password: password@,
                groups_base_dn: groups_base_dn.deep_view(),
                read_attrs: read_attrs.deep_view(),
                timeout_ms: timeout_ms as nat,
            },
            stage: DirectStageView::Connect,
        }),
{
    Session::Direct {
        request: DirectRequest {
            url: url.to_owned(),
            user_dn: user_dn.to_owned(),
            password: password.to_owned(),
            groups_base_dn: match groups_base_dn {
                Some(base) => Some(base.to_owned()),
                None => None,
            },
            read_attrs: copy_names(read_attrs),
            timeout_ms,
        },
        stage: DirectStage::Connect,
    }
}

/// Begins a search and bind: the service account is bound, the caller is
/// searched for, and the DN that was found is bound with the caller's password.
/// The attributes come from the search.
pub fn resolve_search(
    url: &str,
    bind_dn: &str,
    bind_password: &str,
    base_dn: &str,
    user_filter: &str,
    password: &str,
    read_attrs: &Vec<String>,
    timeout_ms: u64,
) -> (r: Session)
    ensures
        r@ == (SessionView::Search {
            request: SearchRequestView {
                url: url@,
                bind_dn: bind_dn@,
                bind_password: bind_password@,
                base_dn: base_dn@,
                user_filter: user_filter@,
                password: password@,
                read_attrs: read_attrs.deep_view(),
                timeout_ms: timeout_ms as nat,
            },
            stage: SearchStageView::Connect,
        }),
{
    Session::Search {
        request: SearchRequest {
            url: url.to_owned(),
            bind_dn: bind_dn.to_owned(),
            bind_password: bind_password.to_owned(),
            base_dn: base_dn.to_owned(),
            user_filter: user_filter.to_owned(),
            password: password.to_owned(),
            read_attrs: copy_names(read_attrs),
            timeout_ms,
        },
        stage: SearchStage::Connect,
    }
}

impl DirectStage {
    /// The operation that is due.
    fn action(&self, request: &DirectRequest) -> (r: Action)
        ensures
            r@ == self@.action(request@),
    {
        match self {
            DirectStage::Connect => Action::Connect { url: request.url.clone() },
            DirectStage::Bind => Action::Bind {
                dn: request.user_dn.clone(),
                password: request.password.clone(),
            },
            DirectStage::Read => Action::ReadEntry {
                base: match &request.groups_base_dn {
                    Some(base) => base.clone(),
                    None => request.user_dn.clone(),
                },
                filter: ENTRY_FILTER.to_owned(),
                attrs: copy_names(&request.read_attrs),
            },
            DirectStage::Unbind(_) => Action::Unbind,
            DirectStage::Finished(_) => Action::Finish,
        }
    }

    /// The stage after a reply.
    fn next(self, request: &DirectRequest, reply: Reply) -> (r: Self)
        ensures
            r@ == self@.next(request@, reply@),
    {
        match (self, reply) {
            (DirectStage::Connect, Reply::Connected(Ok(()))) => DirectStage::Bind,
            (DirectStage::Connect, Reply::Connected(Err(detail))) => DirectStage::Finished(
                BindOutcome::Unavailable("connect failed: ".to_owned().concat(detail.as_str())),
            ),
            (DirectStage::Bind, Reply::Bound(BindAttempt::Accepted)) => DirectStage::Read,
            (DirectStage::Bind, Reply::Bound(BindAttempt::Rejected)) => DirectStage::Finished(
                BindOutcome::BadCredentials,
            ),
            (
                DirectStage::Bind,
                Reply::Bound(BindAttempt::Transport(detail)),
            ) => DirectStage::Finished(BindOutcome::Unavailable(detail)),
            (DirectStage::Read, Reply::Read(entry)) => DirectStage::Unbind(
                DirectoryUser {
                    dn: request.user_dn.clone(),
                    attrs: match entry {
                        Some(entry) => lower_attrs(entry.attrs),
                        None => StringMap::new(),
                    },
                },
            ),
            (DirectStage::Unbind(user), Reply::Unbound) => DirectStage::Finished(
                BindOutcome::Authenticated(user),
            ),
            (stage, _) => stage,
        }
    }
}

impl SearchStage {
    /// The operation that is due.
    fn action(&self, request: &SearchRequest) -> (r: Action)
        ensures
            r@ == self@.action(request@),
    {
        match self {
            SearchStage::Connect => Action::Connect { url: request.url.clone() },
            SearchStage::ServiceBind => Action::Bind {
                dn: request.bind_dn.clone(),
                password: request.bind_password.clone(),
            },
            SearchStage::Find => Action::SearchUser {
                base: request.base_dn.clone(),
                filter: request.user_filter.clone(),
                attrs: copy_names(&request.read_attrs),
            },
            SearchStage::CallerBind(user) => Action::Bind {
                dn: user.dn.clone(),
                password: request.password.clone(),
            },
            SearchStage::Unbind(_) => Action::Unbind,
            SearchStage::Finished(_) => Action::Finish,
        }
    }

    /// The stage after a reply.
    fn next(self, reply: Reply) -> (r: Self)
        ensures
            r@ == self@.next(reply@),
    {
        match (self, reply) {
            (SearchStage::Connect, Reply::Connected(Ok(()))) => SearchStage::ServiceBind,
            (SearchStage::Connect, Reply::Connected(Err(detail))) => SearchStage::Finished(
                BindOutcome::Unavailable("connect failed: ".to_owned().concat(detail.as_str())),
            ),
            (SearchStage::ServiceBind, Reply::Bound(BindAttempt::Accepted)) => SearchStage::Find,
            (
                SearchStage::ServiceBind,
                Reply::Bound(BindAttempt::Rejected),
            ) => SearchStage::Finished(
                BindOutcome::Unavailable("service-account bind rejected".to_owned()),
            ),
            (
                SearchStage::ServiceBind,
                Reply::Bound(BindAttempt::Transport(detail)),
            ) => SearchStage::Finished(
                BindOutcome::Unavailable(
                    "service-account bind: ".to_owned().concat(detail.as_str()),
                ),
            ),
            (SearchStage::Find, Reply::Searched(FindUser::Found(entry))) => SearchStage::CallerBind(
                DirectoryUser { dn: entry.dn, attrs: lower_attrs(entry.attrs) },
            ),
            (SearchStage::Find, Reply::Searched(FindUser::NotFound)) => SearchStage::Finished(
                BindOutcome::UserNotFound,
            ),
            (SearchStage::Find, Reply::Searched(FindUser::Ambiguous)) => SearchStage::Finished(
                BindOutcome::Ambiguous,
            ),
            (SearchStage::Find, Reply::Searched(FindUser::Error(detail))) => SearchStage::Finished(
                BindOutcome::Unavailable(detail),
            ),
            (
                SearchStage::CallerBind(user),
                Reply::Bound(BindAttempt::Accepted),
            ) => SearchStage::Unbind(user),
            (
                SearchStage::CallerBind(_),
                Reply::Bound(BindAttempt::Rejected),
            ) => SearchStage::Finished(BindOutcome::BadCredentials),
            (
                SearchStage::CallerBind(_),
                Reply::Bound(BindAttempt::Transport(detail)),
            ) => SearchStage::Finished(BindOutcome::Unavailable(detail)),
            (SearchStage::Unbind(user), Reply::Unbound) => SearchStage::Finished(
                BindOutcome::Authenticated(user),
            ),
            (stage, _) => stage,
        }
    }
}

impl Session {
    /// The operation that is due.
    pub fn action(&self) -> (r: Action)
        ensures
            r@ == self@.action(),
    {
        match self {
            Session::Direct { request, stage } => stage.action(request),
            Session::Search { request, stage } => stage.action(request),
        }
    }

    /// Takes in the reply to the operation that is due. A reply to another
    /// operation leaves the session as it is.
    pub fn advance(self, reply: Reply) -> (r: Session)
        ensures
            r@ == self@.next(reply@),
    {
        match self {
            Session::Direct { request, stage } => {
                let stage: DirectStage = stage.next(&request, reply);
                Session::Direct { request, stage }
            },
            Session::Search { request, stage } => {
                let stage: SearchStage = stage.next(reply);
                Session::Search { request, stage }
            },
        }
    }

    /// The outcome, or the session as it is if it has none yet.
    pub fn finish(self) -> (r: Result<BindOutcome, Session>)
        ensures
            match r {
                Ok(outcome) => self@.outcome() == Some(outcome@),
                Err(session) => self@.outcome() is None && session == self,
            },
    {
        match self {
            Session::Direct { stage: DirectStage::Finished(outcome), .. } => Ok(outcome),
            Session::Search { stage: SearchStage::Finished(outcome), .. } => Ok(outcome),
            session => Err(session),
        }
    }

    /// The time limit of each operation, in milliseconds.
    pub fn timeout_ms(&self) -> (r: u64)
        ensures
            r == (match self@ {
                SessionView::Direct { request, .. } => request.timeout_ms,
                SessionView::Search { request, .. } => request.timeout_ms,
            }),
    {
        match self {
            Session::Direct { request, .. } => request.timeout_ms,
            Session::Search { request, .. } => request.timeout_ms,
        }
    }
}

} // verus!
