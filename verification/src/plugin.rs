//! The identity resolver.

use crate::config::{BindMode, BindView, ConfigDocument, ConfigError, ConfigErrorView, ConfigView};
use crate::config::{LdapIdentityConfig, USERNAME_PLACEHOLDER};
use crate::escape::{dn_escape, ldap_escape};
use crate::header::{parse_basic, CredentialView, ParsedBasic};
use crate::ldap::{group_dn_to_role, AttrMap, BindOutcome, DirectoryUser, OutcomeView, UserView};
use crate::session::{resolve_direct, resolve_search, DirectRequestView, DirectStageView};
use crate::session::{ReplyView, SearchRequestView, SearchStageView, Session, SessionView};
use crate::string_map::StringMap;
use crate::text::{replace, to_ascii_lower};
use vstd::prelude::*;

verus! {

/// The identifier of the plugin.
pub const PLUGIN_ID: &'static str = "dev.mcpg.identity.ldap";

/// The class of a plugin.
#[derive(Debug, Clone, Copy, PartialEq, Eq, Structural)]
pub enum PluginClass {
    IdentityProvider,
}

/// What a plugin tells its host about itself.
#[derive(Debug, Clone)]
pub struct PluginManifest {
    pub id: String,
    pub version: String,
    pub name: String,
    pub plugin_class: PluginClass,
    pub protocol_version: String,
    pub license: Option<String>,
    pub required_capabilities: Vec<String>,
    pub tags: Vec<String>,
    pub provides: Vec<String>,
    pub provides_schemes: Vec<String>,
    pub module_path_prefix: String,
    pub backend_profile: Option<String>,
}

/// A resolved identity.
#[derive(Debug, Clone)]
pub struct PluginIdentity {
    pub kind: String,
    pub trust_level: String,
    pub subject_id: Option<String>,
    pub auth_provider: Option<String>,
    pub issuer: Option<String>,
    pub roles: Vec<String>,
    pub groups: Vec<String>,
    pub scopes: Vec<String>,
    pub attributes: StringMap<String>,
}

/// What an identity is.
#[verifier::ext_equal]
pub struct IdentityView {
    pub kind: Seq<char>,
    pub trust_level: Seq<char>,
    pub subject_id: Option<Seq<char>>,
    pub auth_provider: Option<Seq<char>>,
    pub issuer: Option<Seq<char>>,
    pub roles: Seq<Seq<char>>,
    pub groups: Seq<Seq<char>>,
    pub scopes: Seq<Seq<char>>,
    pub attributes: Map<Seq<char>, Seq<char>>,
}

impl View for PluginIdentity {
    type V = IdentityView;

    open spec fn view(&self) -> IdentityView {
        IdentityView {
            kind: self.kind@,
            trust_level: self.trust_level@,
            subject_id: self.subject_id.deep_view(),
            auth_provider: self.auth_provider.deep_view(),
            issuer: self.issuer.deep_view(),
            roles: self.roles.deep_view(),
            groups: self.groups.deep_view(),
            scopes: self.scopes.deep_view(),
            attributes: self.attributes@,
        }
    }
}

/// What a request resolves to.
#[derive(Debug)]
pub enum IdentityResolution {
    /// The caller is known.
    Resolved { identity: PluginIdentity },
    /// The request carries no credential for this resolver: the next one may
    /// have a use for it.
    Absent,
    /// The request is to be rejected.
    Invalid { reason: String },
}

/// What a resolution is.
pub enum ResolutionView {
    Resolved { identity: IdentityView },
    Absent,
    Invalid { reason: Seq<char> },
}

impl View for IdentityResolution {
    type V = ResolutionView;

    open spec fn view(&self) -> ResolutionView {
        match *self {
            IdentityResolution::Resolved { identity } => ResolutionView::Resolved {
                identity: identity@,
            },
            IdentityResolution::Absent => ResolutionView::Absent,
            IdentityResolution::Invalid { reason } => ResolutionView::Invalid { reason: reason@ },
        }
    }
}

/// How far the resolution of a request has come.
pub enum Resolving {
    /// The request is resolved.
    Done(IdentityResolution),
    /// The directory has to be asked.
    Directory(Session),
}

/// How far the resolution of a request has come.
pub enum ResolvingView {
    Done(ResolutionView),
    Directory(SessionView),
}

impl View for Resolving {
    type V = ResolvingView;

    open spec fn view(&self) -> ResolvingView {
        match *self {
            Resolving::Done(resolution) => ResolvingView::Done(resolution@),
            Resolving::Directory(session) => ResolvingView::Directory(session@),
        }
    }
}

/// The session that verifies a caller. In a DN template the user name stands
/// escaped as a DN value, in a search filter as a filter literal.
pub open spec fn authentication(
    config: ConfigView,
    username: Seq<char>,
    password: Seq<char>,
) -> SessionView {
    match config.bind {
        BindView::Direct { user_dn_template, groups_base_dn } => SessionView::Direct {
            request: DirectRequestView {
                url: config.url,
                user_dn: crate::text::replaced(
                    user_dn_template,
                    USERNAME_PLACEHOLDER@,
                    crate::escape::dn_escaped(username),
                ),
                password,
                groups_base_dn,
                read_attrs: config.read_attributes(),
                timeout_ms: config.timeout_ms,
            },
            stage: DirectStageView::Connect,
        },
        BindView::Search { bind_dn, bind_password, base_dn, user_filter } => SessionView::Search {
            request: SearchRequestView {
                url: config.url,
                bind_dn,
                bind_password,
                base_dn,
                user_filter: crate::text::replaced(
                    user_filter,
                    USERNAME_PLACEHOLDER@,
                    crate::escape::filter_escaped(username),
                ),
                password,
                read_attrs: config.read_attributes(),
                timeout_ms: config.timeout_ms,
            },
            stage: SearchStageView::Connect,
        },
    }
}

/// The values of an attribute, whatever the case of its name.
pub open spec fn attribute_values(user: UserView, name: Seq<char>) -> Seq<Seq<char>> {
    let key = crate::text::ascii_lower(name);
    if user.attrs.contains_key(key) {
        user.attrs[key]
    } else {
        seq![]
    }
}

/// The first value of an attribute, whatever the case of its name.
pub open spec fn first_value(user: UserView, name: Seq<char>) -> Option<Seq<char>> {
    let values = attribute_values(user, name);
    if values.len() > 0 {
        Some(values[0])
    } else {
        None
    }
}

/// The roles that some groups stand for, in order; a group that stands for none
/// is passed over.
pub open spec fn roles_of(groups: Seq<Seq<char>>) -> Seq<Seq<char>>
    decreases groups.len(),
{
    if groups.len() == 0 {
        seq![]
    } else {
        let before = roles_of(groups.drop_last());
        match crate::ldap::role_of(groups.last()) {
            Some(role) => before.push(role),
            None => before,
        }
    }
}

/// The groups of a user: as many values of the group attribute as the size
/// limit lets through.
pub open spec fn groups_of(config: ConfigView, user: UserView) -> Seq<Seq<char>> {
    let all = attribute_values(user, config.group_attribute);
    if all.len() <= config.size_limit {
        all
    } else {
        all.take(config.size_limit as int)
    }
}

/// The subject that a user is: the first value of the subject attribute, or the
/// bound DN.
pub open spec fn subject_of(config: ConfigView, user: UserView) -> Seq<char> {
    match config.subject_attribute {
        Some(name) => match first_value(user, name) {
            Some(value) => value,
            None => user.dn,
        },
        None => user.dn,
    }
}

/// The identity of a user.
pub open spec fn identity_of(config: ConfigView, user: UserView) -> IdentityView {
    IdentityView {
        kind: config.trust_level,
        trust_level: config.trust_level,
        subject_id: Some(subject_of(config, user)),
        auth_provider: Some(config.auth_provider_label),
        issuer: Some(config.url),
        roles: if config.roles_from_group_cn {
            roles_of(groups_of(config, user))
        } else {
            seq![]
        },
        groups: groups_of(config, user),
        scopes: seq![],
        attributes: Map::new(
            |name: Seq<char>| config.attributes.contains(name) && first_value(user, name) is Some,
            |name: Seq<char>| first_value(user, name)->0,
        ),
    }
}

/// What an outcome resolves to. A wrong password and an unknown user get the
/// same answer, and the detail of a failure stays with the operator.
pub open spec fn resolution_of(config: ConfigView, outcome: OutcomeView) -> ResolutionView {
    match outcome {
        OutcomeView::Authenticated(user) => ResolutionView::Resolved {
            identity: identity_of(config, user),
        },
        OutcomeView::BadCredentials => ResolutionView::Invalid {
            reason: "invalid username or password"@,
        },
        OutcomeView::UserNotFound => ResolutionView::Invalid {
            reason: "invalid username or password"@,
        },
        OutcomeView::Ambiguous => ResolutionView::Invalid {
            reason: "ambiguous directory match for user"@,
        },
        OutcomeView::Unavailable(_) => ResolutionView::Invalid { reason: "directory unavailable"@ },
    }
}

/// The resolution of a request before the directory is asked.
pub open spec fn resolving(
    config: ConfigView,
    headers: Seq<(Seq<char>, Seq<char>)>,
) -> ResolvingView {
    match crate::header::parsed_basic(headers) {
        CredentialView::Absent => ResolvingView::Done(ResolutionView::Absent),
        CredentialView::Invalid(reason) => ResolvingView::Done(ResolutionView::Invalid { reason }),
        CredentialView::Credentials { username, password } => ResolvingView::Directory(
            authentication(config, username, password),
        ),
    }
}

/// The resolution of a request after some replies of the directory: that of its
/// session, once the session has an outcome.
pub open spec fn resolved_after(
    config: ConfigView,
    headers: Seq<(Seq<char>, Seq<char>)>,
    replies: Seq<ReplyView>,
) -> ResolvingView {
    match resolving(config, headers) {
        ResolvingView::Done(resolution) => ResolvingView::Done(resolution),
        ResolvingView::Directory(start) => match start.run(replies).outcome() {
            Some(outcome) => ResolvingView::Done(resolution_of(config, outcome)),
            None => ResolvingView::Directory(start.run(replies)),
        },
    }
}

/// The identity resolver: a checked configuration and what follows from it.
pub struct LdapIdentityPlugin {
    manifest: PluginManifest,
    cfg: LdapIdentityConfig,
    read_attrs: Vec<String>,
}

impl LdapIdentityPlugin {
    #[verifier::type_invariant]
    spec fn is_set_up(self) -> bool {
        &&& self.cfg@.fault() is None
        &&& self.read_attrs.deep_view() == self.cfg@.read_attributes()
    }

    /// The configuration.
    pub closed spec fn config(self) -> ConfigView {
        self.cfg@
    }

    /// The manifest.
    pub closed spec fn spec_manifest(self) -> PluginManifest {
        self.manifest
    }
}

/// Whether a manifest is the one of this plugin in that version.
pub open spec fn is_manifest(
    manifest: PluginManifest,
    version: Seq<char>,
    module_path_prefix: Seq<char>,
) -> bool {
    &&& manifest.id@ == PLUGIN_ID@
    &&& manifest.version@ == version
    &&& manifest.name@ == "LDAP / Active Directory Identity Resolver"@
    &&& manifest.plugin_class == PluginClass::IdentityProvider
    &&& manifest.protocol_version@ == "1.0"@
    &&& manifest.license is None
    &&& manifest.required_capabilities@.len() == 0
    &&& manifest.tags@.len() == 0
    &&& manifest.provides@.len() == 0
    &&& manifest.provides_schemes@.len() == 0
    &&& manifest.module_path_prefix@ == module_path_prefix
    &&& manifest.backend_profile is None
}

impl LdapIdentityPlugin {
    /// Makes a resolver from a decoded configuration document, or from the
    /// message of the error that stood in its place. A resolver that is
    /// configured wrongly is not made at all.
    pub fn from_config_json(
        decoded: Result<ConfigDocument, String>,
        version: &str,
        module_path_prefix: &str,
    ) -> (r: Result<Self, ConfigError>)
        ensures
            match decoded {
                Err(detail) => r matches Err(e) && e@ == ConfigErrorView::InvalidJson(detail@),
                Ok(document) => match r {
                    Ok(plugin) => {
                        &&& document.described().fault() is None
                        &&& plugin.config() == document.described()
                        &&& is_manifest(plugin.spec_manifest(), version@, module_path_prefix@)
                    },
                    Err(e) => document.described().fault() == Some(e@),
                },
            },
    {
        match LdapIdentityConfig::parse(decoded) {
            Ok(cfg) => Ok(Self::from_validated_config(cfg, version, module_path_prefix)),
            Err(e) => Err(e),
        }
    }

    /// Makes a resolver from a configuration that was checked.
    fn from_validated_config(
        cfg: LdapIdentityConfig,
        version: &str,
        module_path_prefix: &str,
    ) -> (r: Self)
        requires
            cfg@.fault() is None,
        ensures
            r.config() == cfg@,
            is_manifest(r.spec_manifest(), version@, module_path_prefix@),
    {
        let read_attrs: Vec<String> = cfg.read_attributes();
        LdapIdentityPlugin {
            manifest: PluginManifest {
                id: PLUGIN_ID.to_owned(),
                version: version.to_owned(),
                name: "LDAP / Active Directory Identity Resolver".to_owned(),
                plugin_class: PluginClass::IdentityProvider,
                protocol_version: "1.0".to_owned(),
                license: None,
                required_capabilities: Vec::new(),
                tags: Vec::new(),
                provides: Vec::new(),
                provides_schemes: Vec::new(),
                module_path_prefix: module_path_prefix.to_owned(),
                backend_profile: None,
            },
            cfg,
            read_attrs,
        }
    }

    /// The manifest.
    pub fn manifest(&self) -> (r: &PluginManifest)
        ensures
            *r == self.spec_manifest(),
    {
        &self.manifest
    }

    /// The directory that callers are verified against.
    pub fn url(&self) -> (r: &str)
        ensures
            r@ == self.config().url,
    {
        self.cfg.url.as_str()
    }

    /// The name of the bind strategy.
    pub fn mode(&self) -> (r: &'static str)
        ensures
            r@ == match self.config().bind {
                BindView::Direct { .. } => "direct"@,
                BindView::Search { .. } => "search"@,
            },
    {
        self.cfg.bind.label()
    }

    /// Begins the verification of a caller.
    pub fn authenticate(&self, username: &str, password: &str) -> (r: Session)
        ensures
            r@ == authentication(self.config(), username@, password@),
    {
        proof {
            use_type_invariant(self);
            reveal_strlit("{username}");
        }
        match &self.cfg.bind {
            BindMode::Direct { user_dn_template, groups_base_dn } => {
                let escaped: String = dn_escape(username);
                let user_dn: String = replace(
                    user_dn_template.as_str(),
                    USERNAME_PLACEHOLDER,
                    escaped.as_str(),
                );
                resolve_direct(
                    self.cfg.url.as_str(),
                    user_dn.as_str(),
                    password,
                    match groups_base_dn {
                        Some(base) => Some(base.as_str()),
                        None => None,
                    },
                    &self.read_attrs,
                    self.cfg.timeout_ms,
                )
            },
            BindMode::Search { bind_dn, bind_password, base_dn, user_filter } => {
                let escaped: String = ldap_escape(username);
                let filter: String = replace(
                    user_filter.as_str(),
                    USERNAME_PLACEHOLDER,
                    escaped.as_str(),
                );
                resolve_search(
                    self.cfg.url.as_str(),
                    bind_dn.as_str(),
                    bind_password.as_str(),
                    base_dn.as_str(),
                    filter.as_str(),
                    password,
                    &self.read_attrs,
                    self.cfg.timeout_ms,
                )
            },
        }
    }

    /// What an outcome resolves to.
    pub fn map_outcome(&self, outcome: BindOutcome) -> (r: IdentityResolution)
        ensures
            r@ == resolution_of(self.config(), outcome@),
    {
        match outcome {
            BindOutcome::Authenticated(user) => IdentityResolution::Resolved {
                identity: self.build_identity(user),
            },
            BindOutcome::BadCredentials | BindOutcome::UserNotFound => {
                IdentityResolution::Invalid { reason: "invalid username or password".to_owned() }
            },
            BindOutcome::Ambiguous => IdentityResolution::Invalid {
                reason: "ambiguous directory match for user".to_owned(),
            },
            BindOutcome::Unavailable(_) => IdentityResolution::Invalid {
                reason: "directory unavailable".to_owned(),
            },
        }
    }

    /// The identity of a user.
    pub fn build_identity(&self, user: DirectoryUser) -> (r: PluginIdentity)
        ensures
            r@ == identity_of(self.config(), user@),
    {
        let config: &LdapIdentityConfig = &self.cfg;
        let mut groups: Vec<String> = values_of(&user.attrs, config.group_attribute.as_str());
        groups.truncate(config.size_limit);
        proof {
            assert(groups.deep_view() =~= groups_of(config@, user@));
        }
        let roles: Vec<String> = if config.roles_from_group_cn {
            group_roles(&groups)
        } else {
            Vec::new()
        };
        let subject_id: String = match &config.subject_attribute {
            Some(name) => match first_value_of(&user.attrs, name.as_str()) {
                Some(value) => value,
                None => user.dn.clone(),
            },
            None => user.dn.clone(),
        };
        let attributes: StringMap<String> = first_values(&user, &config.attributes);
        let scopes: Vec<String> = Vec::new();
        let r = PluginIdentity {
            kind: config.resolution.trust_level.clone(),
            trust_level: config.resolution.trust_level.clone(),
            subject_id: Some(subject_id),
            auth_provider: Some(config.resolution.auth_provider_label.clone()),
            issuer: Some(config.url.clone()),
            roles,
            groups,
            scopes,
            attributes,
        };
        proof {
            assert(r@ =~= identity_of(config@, user@));
        }
        r
    }

    /// Begins the resolution of a request. The directory is asked only if the
    /// request carries a well-formed credential.
    pub fn resolve_identity(&self, headers: &[(String, String)]) -> (r: Resolving)
        ensures
            r@ == resolving(self.config(), headers.deep_view()),
    {
        match parse_basic(headers) {
            ParsedBasic::Absent => Resolving::Done(IdentityResolution::Absent),
            ParsedBasic::Invalid(reason) => Resolving::Done(IdentityResolution::Invalid { reason }),
            ParsedBasic::Credentials { username, password } => Resolving::Directory(
                self.authenticate(username.as_str(), password.as_str()),
            ),
        }
    }
}

/// The values of an attribute, whatever the case of its name.
fn values_of(attrs: &AttrMap, name: &str) -> (r: Vec<String>)
    ensures
        forall|user: UserView| user.attrs == attrs@ ==> #[trigger] attribute_values(user, name@)
            == r.deep_view(),
{
    match attrs.get(to_ascii_lower(name).as_str()) {
        Some(values) => {
            let r: Vec<String> = values.clone();
            proof {
                assert(r.deep_view() =~= values.deep_view());
            }
            r
        },
        None => {
            let r: Vec<String> = Vec::new();
            proof {
                assert(r.deep_view() =~= Seq::<Seq<char>>::empty());
            }
            r
        },
    }
}

/// The first value of an attribute, whatever the case of its name.
fn first_value_of(attrs: &AttrMap, name: &str) -> (r: Option<String>)
    ensures
        forall|user: UserView| user.attrs == attrs@ ==> #[trigger] first_value(user, name@)
            == r.deep_view(),
{
    match attrs.get(to_ascii_lower(name).as_str()) {
        Some(values) => if values.len() > 0 {
            Some(values[0].clone())
        } else {
            None
        },
        None => None,
    }
}

/// The first value of each attribute that a user has, under the name by which
/// it was asked for.
fn first_values(user: &DirectoryUser, wanted: &Vec<String>) -> (r: StringMap<String>)
    ensures
        r@ == Map::new(
            |name: Seq<char>|
                wanted.deep_view().contains(name) && first_value(user@, name) is Some,
            |name: Seq<char>| first_value(user@, name)->0,
        ),
{
    let mut out: StringMap<String> = StringMap::new();
    let mut i: usize = 0;
    while i < wanted.len()
        invariant
            i <= wanted.len(),
            forall|name: Seq<char>| #[trigger]
                out@.contains_key(name) <==> wanted.deep_view().take(i as int).contains(name)
                    && first_value(user@, name) is Some,
            forall|name: Seq<char>| #[trigger]
                out@.contains_key(name) ==> out@[name] == first_value(user@, name)->0,
        decreases wanted.len() - i,
    {
        proof {
            let shorter = wanted.deep_view().take(i as int);
            let longer = wanted.deep_view().take(i + 1);
            let name = wanted@[i as int]@;
            assert(longer == shorter.push(name));
            assert forall|other: Seq<char>| #[trigger] longer.contains(other) <==> (
            shorter.contains(other) || other == name) by {
                if shorter.contains(other) {
                    let k = choose|k: int| 0 <= k < shorter.len() && shorter[k] == other;
                    assert(longer[k] == other);
                }
                if other == name {
                    assert(longer[i as int] == other);
                }
                if longer.contains(other) {
                    let k = choose|k: int| 0 <= k < longer.len() && longer[k] == other;
                    if k < i {
                        assert(shorter[k] == other);
                    }
                }
            }
        }
        let name: &String = &wanted[i];
        if let Some(value) = first_value_of(&user.attrs, name.as_str()) {
            out.insert(name.clone(), value);
        }
        i = i + 1;
    }
    proof {
        assert(wanted.deep_view().take(i as int) == wanted.deep_view());
        assert(out@ =~= Map::new(
            |name: Seq<char>|
                wanted.deep_view().contains(name) && first_value(user@, name) is Some,
            |name: Seq<char>| first_value(user@, name)->0,
        ));
    }
    out
}

/// The roles that some groups stand for.
fn group_roles(groups: &Vec<String>) -> (r: Vec<String>)
    ensures
        r.deep_view() == roles_of(groups.deep_view()),
{
    let ghost all = groups.deep_view();
    let mut out: Vec<String> = Vec::new();
    let mut i: usize = 0;
    proof {
        assert(out.deep_view() =~= roles_of(all.take(0)));
    }
    while i < groups.len()
        invariant
            i <= groups.len(),
            all == groups.deep_view(),
            out.deep_view() == roles_of(all.take(i as int)),
        decreases groups.len() - i,
    {
        let ghost before = out.deep_view();
        proof {
            assert(all.take(i + 1).drop_last() == all.take(i as int));
            assert(all.take(i + 1).last() == groups@[i as int]@);
        }
        if let Some(role) = group_dn_to_role(groups[i].as_str()) {
            let ghost shown = role@;
            out.push(role);
            proof {
                assert(out.deep_view() =~= before.push(shown));
            }
        }
        i = i + 1;
    }
    proof {
        assert(all.take(i as int) == all);
    }
    out
}

/// What goes into the record of a resolution.
#[derive(Debug)]
pub enum ResolveEvent {
    /// A caller was resolved: the subject, and how many roles it has.
    Resolved { subject: String, roles: usize },
    /// There was no credential, and the request fell through.
    FallThrough,
    /// A request was rejected, which calls for attention.
    Rejected { reason: String },
}

/// The record of a resolution: the label that it is counted under, and what is
/// logged of it.
#[derive(Debug)]
pub struct ResolveRecord {
    pub outcome: &'static str,
    pub event: ResolveEvent,
}

/// The record of a resolution.
pub fn record_resolve_outcome(result: &IdentityResolution) -> (r: ResolveRecord)
    ensures
        match result@ {
            ResolutionView::Resolved { identity } => {
                &&& r.outcome@ == "resolved"@
                &&& r.event matches ResolveEvent::Resolved { subject, roles }
                &&& subject@ == match identity.subject_id {
                    Some(subject) => subject,
                    None => seq![],
                }
                &&& roles == identity.roles.len()
            },
            ResolutionView::Absent => {
                &&& r.outcome@ == "none"@
                &&& r.event is FallThrough
            },
            ResolutionView::Invalid { reason: given } => {
                &&& r.outcome@ == "invalid"@
                &&& r.event matches ResolveEvent::Rejected { reason }
                &&& reason@ == given
            },
        },
{
    match result {
        IdentityResolution::Resolved { identity } => ResolveRecord {
            outcome: "resolved",
            event: ResolveEvent::Resolved {
                subject: match &identity.subject_id {
                    Some(subject) => subject.clone(),
                    None => String::new(),
                },
                roles: identity.roles.len(),
            },
        },
        IdentityResolution::Absent => ResolveRecord {
            outcome: "none",
            event: ResolveEvent::FallThrough,
        },
        IdentityResolution::Invalid { reason } => ResolveRecord {
            outcome: "invalid",
            event: ResolveEvent::Rejected { reason: reason.clone() },
        },
    }
}

/// A resolution is counted under one label for each kind, and its record tells
/// who was resolved and with how many roles, or why a request was rejected.
pub proof fn law_records(result: IdentityResolution, record: ResolveRecord)
    requires
        call_ensures(record_resolve_outcome, (&result,), record),
    ensures
        match result {
            IdentityResolution::Resolved { identity } => {
                &&& record.outcome@ == "resolved"@
                &&& record.event matches ResolveEvent::Resolved { subject, roles }
                &&& identity.subject_id matches Some(id) ==> subject@ == id@
                &&& identity.subject_id is None ==> subject@.len() == 0
                &&& roles == identity.roles@.len()
            },
            IdentityResolution::Absent => {
                &&& record.outcome@ == "none"@
                &&& record.event is FallThrough
            },
            IdentityResolution::Invalid { reason } => {
                &&& record.outcome@ == "invalid"@
                &&& record.event matches ResolveEvent::Rejected { reason: told }
                &&& told@ == reason@
            },
        },
{
}

/// A resolver is made exactly if the document describes a configuration without a
/// fault, and then it resolves by that configuration.
pub proof fn law_resolver_of_a_document(
    decoded: Result<ConfigDocument, String>,
    version: &str,
    module_path_prefix: &str,
    r: Result<LdapIdentityPlugin, ConfigError>,
)
    requires
        call_ensures(
            LdapIdentityPlugin::from_config_json,
            (decoded, version, module_path_prefix),
            r,
        ),
    ensures
        r is Ok <==> decoded is Ok && decoded->Ok_0.described().fault() is None,
        r is Ok ==> r->Ok_0.config() == decoded->Ok_0.described() && is_manifest(
            r->Ok_0.spec_manifest(),
            version@,
            module_path_prefix@,
        ),
        decoded is Ok && r is Err ==> decoded->Ok_0.described().fault() == Some(r->Err_0@),
        decoded is Err ==> r is Err && r->Err_0@ == ConfigErrorView::InvalidJson(
            decoded->Err_0@,
        ),
{
}

/// A resolver asks the directory exactly if the request carries a user name and a
/// password; it passes on what carries no credential, and rejects what carries a
/// malformed one with the reason.
pub proof fn law_begun_requests(
    plugin: &LdapIdentityPlugin,
    headers: &[(String, String)],
    r: Resolving,
)
    requires
        call_ensures(LdapIdentityPlugin::resolve_identity, (plugin, headers), r),
    ensures
        r is Directory <==> crate::header::parsed_basic(headers.deep_view()) is Credentials,
        r is Done && r->Done_0 is Absent <==> crate::header::parsed_basic(
            headers.deep_view(),
        ) is Absent,
        crate::header::parsed_basic(headers.deep_view()) matches CredentialView::Invalid(reason)
            ==> (r matches Resolving::Done(IdentityResolution::Invalid { reason: told }) && told@
            == reason),
        crate::header::parsed_basic(headers.deep_view()) matches CredentialView::Credentials {
            username,
            password,
        } ==> r->Directory_0@ == authentication(plugin.config(), username, password),
{
}

/// The subject of a built identity, whatever the bind strategy: the first value of
/// the subject attribute, its case set aside, or the user's DN.
pub proof fn law_built_subject(
    plugin: &LdapIdentityPlugin,
    user: DirectoryUser,
    identity: PluginIdentity,
)
    requires
        call_ensures(LdapIdentityPlugin::build_identity, (plugin, user), identity),
    ensures
        identity.subject_id is Some,
        identity.subject_id->0@ == ({
            let key = crate::text::ascii_lower(plugin.config().subject_attribute->0);
            if plugin.config().subject_attribute is Some && user.attrs@.contains_key(key)
                && user.attrs@[key].len() > 0 {
                user.attrs@[key][0]
            } else {
                user.dn@
            }
        }),
{
}

} // verus!
