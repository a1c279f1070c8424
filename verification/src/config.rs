//! Configuration of the identity resolver.
//!
//! One resolver verifies callers against one directory. The bind strategy is
//! [`BindMode`]: `direct` makes the caller's DN from a template, `search` looks
//! the caller up with a service account first, as Active Directory needs it.

use crate::text::{contains, eq_ignore_ascii_case, is_blank, same_text, starts_with};
use vstd::prelude::*;
use vstd::string::StringExecFns;

verus! {

/// The placeholder for the caller's user name in DN templates and search
/// filters. What takes its place is escaped: by RFC 4514 in a DN, by RFC 4515
/// in a filter.
pub const USERNAME_PLACEHOLDER: &'static str = "{username}";

/// The configuration.
#[derive(Debug, Clone)]
pub struct LdapIdentityConfig {
    /// `ldap://host:389` or `ldaps://host:636`.
    pub url: String,
    /// How the caller's user name and password are verified.
    pub bind: BindMode,
    /// The attribute that holds the caller's group memberships, as full group
    /// DNs.
    pub group_attribute: String,
    /// Whether the value of each group DN's first RDN becomes a role.
    pub roles_from_group_cn: bool,
    /// The attribute whose first value is the resolved subject. Without one the
    /// subject is the bound DN.
    pub subject_attribute: Option<String>,
    /// Further attributes whose first values go onto the identity.
    pub attributes: Vec<String>,
    /// The most groups, and so roles, that an identity gets.
    pub size_limit: usize,
    /// The time limit of connect, bind and search, in milliseconds.
    pub timeout_ms: u64,
    /// The trust level and the provider label of resolved identities.
    pub resolution: ResolutionConfig,
}

/// The bind strategy: how the caller's password is verified.
#[derive(Debug, Clone)]
pub enum BindMode {
    /// Makes the caller's DN from a template and binds it with the caller's
    /// password.
    Direct {
        /// For example `uid={username},ou=people,dc=example,dc=org`.
        user_dn_template: String,
        /// The entry to read group memberships from; the bound DN without one.
        groups_base_dn: Option<String>,
    },
    /// Binds a service account, searches for the caller, and binds again as the
    /// matched DN with the caller's password.
    Search {
        /// The DN of the service account.
        bind_dn: String,
        /// The password of the service account.
        bind_password: String,
        /// The base of the search for the caller.
        base_dn: String,
        /// The filter that selects the caller, for example
        /// `(sAMAccountName={username})`.
        user_filter: String,
    },
}

/// The trust posture of callers that bound.
#[derive(Debug, Clone)]
pub struct ResolutionConfig {
    /// `verified`, or `header_asserted` on weaker contracts.
    pub trust_level: String,
    /// The provider label of resolved identities.
    pub auth_provider_label: String,
}

/// A decoded configuration document. What the document may leave out is an
/// `Option`, and `None` where it did.
#[derive(Debug, Clone)]
pub struct ConfigDocument {
    pub url: String,
    pub bind: BindMode,
    pub group_attribute: Option<String>,
    pub roles_from_group_cn: Option<bool>,
    pub subject_attribute: Option<String>,
    pub attributes: Option<Vec<String>>,
    pub size_limit: Option<usize>,
    pub timeout_ms: Option<u64>,
    pub resolution: Option<ResolutionDocument>,
}

/// The `resolution` part of a configuration document.
#[derive(Debug, Clone)]
pub struct ResolutionDocument {
    pub trust_level: Option<String>,
    pub auth_provider_label: Option<String>,
}

/// Why a configuration is refused.
#[derive(Debug)]
pub enum ConfigError {
    /// The document could not be decoded.
    InvalidJson(String),
    /// The URL has another scheme than `ldap` or `ldaps`.
    InvalidUrl(String),
    /// A field is blank.
    Empty { field: &'static str },
    /// A field lacks the user name placeholder.
    MissingUsernamePlaceholder { field: &'static str, placeholder: &'static str },
    /// The time limit is zero.
    ZeroTimeout,
    /// The size limit is zero.
    ZeroSizeLimit,
    /// The trust level is not a known one.
    InvalidTrustLevel(String),
}

/// What a configuration error is.
pub enum ConfigErrorView {
    InvalidJson(Seq<char>),
    InvalidUrl(Seq<char>),
    Empty { field: Seq<char> },
    MissingUsernamePlaceholder { field: Seq<char>, placeholder: Seq<char> },
    ZeroTimeout,
    ZeroSizeLimit,
    InvalidTrustLevel(Seq<char>),
}

impl View for ConfigError {
    type V = ConfigErrorView;

    open spec fn view(&self) -> ConfigErrorView {
        match *self {
            ConfigError::InvalidJson(detail) => ConfigErrorView::InvalidJson(detail@),
            ConfigError::InvalidUrl(url) => ConfigErrorView::InvalidUrl(url@),
            ConfigError::Empty { field } => ConfigErrorView::Empty { field: field@ },
            ConfigError::MissingUsernamePlaceholder { field, placeholder } => {
                ConfigErrorView::MissingUsernamePlaceholder {
                    field: field@,
                    placeholder: placeholder@,
                }
            },
            ConfigError::ZeroTimeout => ConfigErrorView::ZeroTimeout,
            ConfigError::ZeroSizeLimit => ConfigErrorView::ZeroSizeLimit,
            ConfigError::InvalidTrustLevel(level) => ConfigErrorView::InvalidTrustLevel(level@),
        }
    }
}

impl ConfigErrorView {
    /// The message of an error.
    pub open spec fn message(self) -> Seq<char> {
        match self {
            ConfigErrorView::InvalidJson(detail) => "invalid identity.ldap config JSON: "@ + detail,
            ConfigErrorView::InvalidUrl(url) => {
                "identity.ldap: url must start with ldap:// or ldaps://, got `"@ + url + "`"@
            },
            ConfigErrorView::Empty { field } => {
                "identity.ldap: "@ + field + " must not be empty"@
            },
            ConfigErrorView::MissingUsernamePlaceholder { field, placeholder } => {
                "identity.ldap: "@ + field + " must contain the `"@ + placeholder
                    + "` placeholder (it is substituted with the caller's username)"@
            },
            ConfigErrorView::ZeroTimeout => "identity.ldap: timeout_ms must be greater than 0"@,
            ConfigErrorView::ZeroSizeLimit => "identity.ldap: size_limit must be greater than 0"@,
            ConfigErrorView::InvalidTrustLevel(level) => {
                "identity.ldap: invalid trust_level `"@ + level
                    + "` (allowed: verified | header_asserted)"@
            },
        }
    }
}

impl ConfigError {
    /// The message of an error, for an operator to read.
    pub fn message(&self) -> (r: String)
        ensures
            r@ == self@.message(),
    {
        match self {
            ConfigError::InvalidJson(detail) => {
                "invalid identity.ldap config JSON: ".to_owned().concat(detail.as_str())
            },
            ConfigError::InvalidUrl(url) => {
                "identity.ldap: url must start with ldap:// or ldaps://, got `".to_owned().concat(
                    url.as_str(),
                ).concat("`")
            },
            ConfigError::Empty { field } => {
                "identity.ldap: ".to_owned().concat(field).concat(" must not be empty")
            },
            ConfigError::MissingUsernamePlaceholder { field, placeholder } => {
                "identity.ldap: ".to_owned().concat(field).concat(" must contain the `").concat(
                    placeholder,
                ).concat("` placeholder (it is substituted with the caller's username)")
            },
            ConfigError::ZeroTimeout => {
                "identity.ldap: timeout_ms must be greater than 0".to_owned()
            },
            ConfigError::ZeroSizeLimit => {
                "identity.ldap: size_limit must be greater than 0".to_owned()
            },
            ConfigError::InvalidTrustLevel(level) => {
                "identity.ldap: invalid trust_level `".to_owned().concat(level.as_str()).concat(
                    "` (allowed: verified | header_asserted)",
                )
            },
        }
    }
}

/// What a bind strategy is.
pub enum BindView {
    Direct { user_dn_template: Seq<char>, groups_base_dn: Option<Seq<char>> },
    Search {
        bind_dn: Seq<char>,
        bind_password: Seq<char>,
        base_dn: Seq<char>,
        user_filter: Seq<char>,
    },
}

impl View for BindMode {
    type V = BindView;

    open spec fn view(&self) -> BindView {
        match *self {
            BindMode::Direct { user_dn_template, groups_base_dn } => BindView::Direct {
                user_dn_template: user_dn_template@,
                groups_base_dn: groups_base_dn.deep_view(),
            },
            BindMode::Search { bind_dn, bind_password, base_dn, user_filter } => BindView::Search {
                bind_dn: bind_dn@,
                bind_password: bind_password@,
                base_dn: base_dn@,
                user_filter: user_filter@,
            },
        }
    }
}

impl BindMode {
    /// The name of a bind strategy.
    pub fn label(&self) -> (r: &'static str)
        ensures
            r@ == match self@ {
                BindView::Direct { .. } => "direct"@,
                BindView::Search { .. } => "search"@,
            },
    {
        match self {
            BindMode::Direct { .. } => "direct",
            BindMode::Search { .. } => "search",
        }
    }
}

/// What a configuration is.
pub struct ConfigView {
    pub url: Seq<char>,
    pub bind: BindView,
    pub group_attribute: Seq<char>,
    pub roles_from_group_cn: bool,
    pub subject_attribute: Option<Seq<char>>,
    pub attributes: Seq<Seq<char>>,
    pub size_limit: nat,
    pub timeout_ms: nat,
    pub trust_level: Seq<char>,
    pub auth_provider_label: Seq<char>,
}

impl View for LdapIdentityConfig {
    type V = ConfigView;

    open spec fn view(&self) -> ConfigView {
        ConfigView {
            url: self.url@,
            bind: self.bind@,
            group_attribute: self.group_attribute@,
            roles_from_group_cn: self.roles_from_group_cn,
            subject_attribute: self.subject_attribute.deep_view(),
            attributes: self.attributes.deep_view(),
            size_limit: self.size_limit as nat,
            timeout_ms: self.timeout_ms as nat,
            trust_level: self.resolution.trust_level@,
            auth_provider_label: self.resolution.auth_provider_label@,
        }
    }
}

/// A value, or its default where there is none.
pub open spec fn or_default<T>(value: Option<T>, default: T) -> T {
    match value {
        Some(given) => given,
        None => default,
    }
}

impl ConfigDocument {
    /// The configuration that a document describes: what it gives, and the
    /// defaults for what it leaves out.
    pub open spec fn described(self) -> ConfigView {
        ConfigView {
            url: self.url@,
            bind: self.bind@,
            group_attribute: or_default(self.group_attribute.deep_view(), "memberOf"@),
            roles_from_group_cn: or_default(self.roles_from_group_cn, true),
            subject_attribute: self.subject_attribute.deep_view(),
            attributes: or_default(self.attributes.deep_view(), seq![]),
            size_limit: or_default(self.size_limit, 100) as nat,
            timeout_ms: or_default(self.timeout_ms, 10_000) as nat,
            trust_level: match self.resolution {
                Some(given) => or_default(given.trust_level.deep_view(), "verified"@),
                None => "verified"@,
            },
            auth_provider_label: match self.resolution {
                Some(given) => or_default(given.auth_provider_label.deep_view(), "ldap"@),
                None => "ldap"@,
            },
        }
    }
}

impl BindView {
    /// The first fault of a bind strategy.
    pub open spec fn fault(self) -> Option<ConfigErrorView> {
        match self {
            BindView::Direct { user_dn_template, .. } => {
                if crate::text::blank(user_dn_template) {
                    Some(ConfigErrorView::Empty { field: "bind.user_dn_template"@ })
                } else if !crate::text::occurs(user_dn_template, USERNAME_PLACEHOLDER@) {
                    Some(
                        ConfigErrorView::MissingUsernamePlaceholder {
                            field: "bind.user_dn_template"@,
                            placeholder: USERNAME_PLACEHOLDER@,
                        },
                    )
                } else {
                    None
                }
            },
            BindView::Search { bind_dn, base_dn, user_filter, .. } => {
                if crate::text::blank(bind_dn) {
                    Some(ConfigErrorView::Empty { field: "bind.bind_dn"@ })
                } else if crate::text::blank(base_dn) {
                    Some(ConfigErrorView::Empty { field: "bind.base_dn"@ })
                } else if crate::text::blank(user_filter) {
                    Some(ConfigErrorView::Empty { field: "bind.user_filter"@ })
                } else if !crate::text::occurs(user_filter, USERNAME_PLACEHOLDER@) {
                    Some(
                        ConfigErrorView::MissingUsernamePlaceholder {
                            field: "bind.user_filter"@,
                            placeholder: USERNAME_PLACEHOLDER@,
                        },
                    )
                } else {
                    None
                }
            },
        }
    }

    /// Whether callers can be verified by this strategy.
    pub open spec fn usable(self) -> bool {
        match self {
            BindView::Direct { user_dn_template, .. } => crate::text::occurs(
                user_dn_template,
                USERNAME_PLACEHOLDER@,
            ),
            BindView::Search { bind_dn, base_dn, user_filter, .. } => !crate::text::blank(bind_dn)
                && !crate::text::blank(base_dn) && crate::text::occurs(
                user_filter,
                USERNAME_PLACEHOLDER@,
            ),
        }
    }
}

impl ConfigView {
    /// The first fault of a configuration, in the order in which its parts are
    /// looked at.
    pub open spec fn fault(self) -> Option<ConfigErrorView> {
        if !"ldap://"@.is_prefix_of(self.url) && !"ldaps://"@.is_prefix_of(self.url) {
            Some(ConfigErrorView::InvalidUrl(self.url))
        } else if crate::text::blank(self.group_attribute) {
            Some(ConfigErrorView::Empty { field: "group_attribute"@ })
        } else if self.timeout_ms == 0 {
            Some(ConfigErrorView::ZeroTimeout)
        } else if self.size_limit == 0 {
            Some(ConfigErrorView::ZeroSizeLimit)
        } else if self.trust_level != "verified"@ && self.trust_level != "header_asserted"@ {
            Some(ConfigErrorView::InvalidTrustLevel(self.trust_level))
        } else {
            self.bind.fault()
        }
    }

    /// Whether a resolver can run on a configuration.
    pub open spec fn valid(self) -> bool {
        &&& "ldap://"@.is_prefix_of(self.url) || "ldaps://"@.is_prefix_of(self.url)
        &&& !crate::text::blank(self.group_attribute)
        &&& self.timeout_ms > 0
        &&& self.size_limit > 0
        &&& self.trust_level == "verified"@ || self.trust_level == "header_asserted"@
        &&& self.bind.usable()
    }

    /// The attribute names that a configuration mentions, in order.
    pub open spec fn mentioned_attributes(self) -> Seq<Seq<char>> {
        seq![self.group_attribute] + match self.subject_attribute {
            Some(name) => seq![name],
            None => seq![],
        } + self.attributes
    }

    /// The attributes to request of the caller's entry.
    pub open spec fn read_attributes(self) -> Seq<Seq<char>> {
        distinct_names(self.mentioned_attributes())
    }
}

/// Whether a list holds a name, whatever its case.
pub open spec fn names(list: Seq<Seq<char>>, name: Seq<char>) -> bool {
    exists|i: int|
        0 <= i < list.len() && crate::text::same_ignoring_case(#[trigger] list[i], name)
}

/// The names of a list that hold something, each in the spelling in which it
/// comes first, the case of ASCII letters set aside.
pub open spec fn distinct_names(list: Seq<Seq<char>>) -> Seq<Seq<char>>
    decreases list.len(),
{
    if list.len() == 0 {
        seq![]
    } else {
        let before = distinct_names(list.drop_last());
        if list.last().len() == 0 || names(before, list.last()) {
            before
        } else {
            before.push(list.last())
        }
    }
}

/// A configuration is free of faults exactly if it is valid.
pub proof fn law_faultless_is_valid(config: ConfigView)
    ensures
        config.fault() is None <==> config.valid(),
{
    match config.bind {
        BindView::Direct { user_dn_template, .. } => {
            lemma_placeholder_is_not_blank(user_dn_template);
        },
        BindView::Search { user_filter, .. } => {
            lemma_placeholder_is_not_blank(user_filter);
        },
    }
}

/// A text that holds the placeholder is not blank.
proof fn lemma_placeholder_is_not_blank(s: Seq<char>)
    ensures
        crate::text::occurs(s, USERNAME_PLACEHOLDER@) ==> !crate::text::blank(s),
{
    reveal_strlit("{username}");
    let placeholder = USERNAME_PLACEHOLDER@;
    if crate::text::occurs(s, placeholder) {
        let at = choose|at: int| crate::text::occurs_at(s, placeholder, at);
        assert(s.subrange(at, at + placeholder.len())[0] == '{');
        assert(!crate::text::white_space(s[at]));
    }
}

/// The names that are kept are some of the list, hold something, and are
/// pairwise different whatever their case; every name of the list that holds
/// something is kept in some spelling.
pub proof fn law_distinct_names(list: Seq<Seq<char>>)
    ensures
        forall|i: int|
            0 <= i < distinct_names(list).len() ==> (#[trigger] distinct_names(list)[i]).len() > 0
                && list.contains(distinct_names(list)[i]),
        forall|i: int, j: int|
            0 <= i < j < distinct_names(list).len() ==> !crate::text::same_ignoring_case(
                #[trigger] distinct_names(list)[i],
                #[trigger] distinct_names(list)[j],
            ),
        forall|i: int|
            0 <= i < list.len() && (#[trigger] list[i]).len() > 0 ==> names(
                distinct_names(list),
                list[i],
            ),
    decreases list.len(),
{
    if list.len() > 0 {
        let shorter = list.drop_last();
        let before = distinct_names(shorter);
        let after = distinct_names(list);
        law_distinct_names(shorter);
        assert forall|i: int| 0 <= i < after.len() implies (#[trigger] after[i]).len() > 0
            && list.contains(after[i]) by {
            if i < before.len() {
                assert(after[i] == before[i]);
                let k = choose|k: int| 0 <= k < shorter.len() && shorter[k] == before[i];
                assert(list[k] == after[i]);
            } else {
                assert(list[list.len() - 1] == after[i]);
            }
        }
        assert forall|i: int, j: int| 0 <= i < j < after.len() implies !(
        crate::text::same_ignoring_case(#[trigger] after[i], #[trigger] after[j])) by {
            assert(after[i] == before[i]);
        }
        assert forall|i: int| 0 <= i < list.len() && (#[trigger] list[i]).len() > 0 implies names(
            after,
            list[i],
        ) by {
            if i < list.len() - 1 {
                assert(shorter[i] == list[i]);
                let k = choose|k: int|
                    0 <= k < before.len() && crate::text::same_ignoring_case(
                        #[trigger] before[k],
                        list[i],
                    );
                assert(after[k] == before[k]);
            } else if !names(before, list[i]) {
                assert(after[before.len() as int] == list[i]);
            }
        }
    }
}

/// A name is kept in the spelling in which it comes first: no name before it in
/// the list is the same whatever its case.
pub proof fn law_first_spelling_is_kept(list: Seq<Seq<char>>, i: int)
    requires
        0 <= i < distinct_names(list).len(),
    ensures
        exists|k: int|
            {
                &&& 0 <= k < list.len()
                &&& #[trigger] list[k] == distinct_names(list)[i]
                &&& forall|j: int|
                    0 <= j < k ==> !crate::text::same_ignoring_case(#[trigger] list[j], list[k])
            },
    decreases list.len(),
{
    let shorter = list.drop_last();
    let before = distinct_names(shorter);
    let last = list.len() - 1;
    if i < before.len() {
        law_first_spelling_is_kept(shorter, i);
        let k = choose|k: int|
            {
                &&& 0 <= k < shorter.len()
                &&& #[trigger] shorter[k] == before[i]
                &&& forall|j: int|
                    0 <= j < k ==> !crate::text::same_ignoring_case(
                        #[trigger] shorter[j],
                        shorter[k],
                    )
            };
        assert(list[k] == shorter[k]);
        assert forall|j: int| 0 <= j < k implies !crate::text::same_ignoring_case(
            #[trigger] list[j],
            list[k],
        ) by {
            assert(shorter[j] == list[j]);
        }
    } else {
        law_distinct_names(shorter);
        assert forall|j: int| 0 <= j < last implies !crate::text::same_ignoring_case(
            #[trigger] list[j],
            list[last],
        ) by {
            if crate::text::same_ignoring_case(list[j], list[last]) {
                assert(crate::text::ascii_lower(list[j]).len() == list[j].len());
                assert(crate::text::ascii_lower(list[last]).len() == list[last].len());
                assert(shorter[j] == list[j]);
                assert(names(before, list[j]));
                let m = choose|m: int|
                    0 <= m < before.len() && crate::text::same_ignoring_case(
                        #[trigger] before[m],
                        list[j],
                    );
                assert(crate::text::same_ignoring_case(before[m], list[last]));
                assert(names(before, list[last]));
            }
        }
        assert(list[last] == distinct_names(list)[i]);
    }
}

/// The attributes that are requested are pairwise different whatever their
/// case; the group attribute, the subject attribute and the further attributes
/// are among them in some spelling unless they are empty.
pub proof fn law_read_attributes(config: ConfigView)
    ensures
        forall|i: int, j: int|
            0 <= i < j < config.read_attributes().len() ==> !crate::text::same_ignoring_case(
                #[trigger] config.read_attributes()[i],
                #[trigger] config.read_attributes()[j],
            ),
        config.group_attribute.len() > 0 ==> names(
            config.read_attributes(),
            config.group_attribute,
        ),
        config.subject_attribute matches Some(name) ==> name.len() > 0 ==> names(
            config.read_attributes(),
            name,
        ),
        forall|i: int|
            0 <= i < config.attributes.len() && (#[trigger] config.attributes[i]).len() > 0
                ==> names(config.read_attributes(), config.attributes[i]),
{
    let list = config.mentioned_attributes();
    law_distinct_names(list);
    assert(list[0] == config.group_attribute);
    let offset: int = match config.subject_attribute {
        Some(name) => {
            assert(list[1] == name);
            2
        },
        None => 1,
    };
    assert forall|i: int|
        0 <= i < config.attributes.len() && (#[trigger] config.attributes[i]).len() > 0 implies names(
        config.read_attributes(),
        config.attributes[i],
    ) by {
        assert(list[offset + i] == config.attributes[i]);
    }
}

/// A configuration has what its document gives, field by field and as it stands,
/// and where the document gives nothing the default: the groups in `memberOf`,
/// roles from them, the DN as the subject, no further attributes, at most a
/// hundred groups, ten seconds, the trust level `verified` and the label `ldap`.
pub proof fn law_document_is_followed(document: ConfigDocument)
    ensures
        document.described().url == document.url@,
        match document.bind {
            BindMode::Direct {
                user_dn_template,
                groups_base_dn,
            } => document.described().bind matches BindView::Direct {
                user_dn_template: template,
                groups_base_dn: base,
            } && template == user_dn_template@ && (match groups_base_dn {
                Some(given) => base == Some(given@),
                None => base is None,
            }),
            BindMode::Search {
                bind_dn,
                bind_password,
                base_dn,
                user_filter,
            } => document.described().bind matches BindView::Search {
                bind_dn: dn,
                bind_password: password,
                base_dn: base,
                user_filter: filter,
            } && dn == bind_dn@ && password == bind_password@ && base == base_dn@ && filter
                == user_filter@,
        },
        match document.group_attribute {
            Some(given) => document.described().group_attribute == given@,
            None => document.described().group_attribute == "memberOf"@,
        },
        match document.roles_from_group_cn {
            Some(given) => document.described().roles_from_group_cn == given,
            None => document.described().roles_from_group_cn,
        },
        match document.subject_attribute {
            Some(given) => document.described().subject_attribute == Some(given@),
            None => document.described().subject_attribute is None,
        },
        match document.attributes {
            Some(given) => {
                &&& document.described().attributes.len() == given@.len()
                &&& forall|i: int|
                    0 <= i < given@.len() ==> #[trigger] document.described().attributes[i]
                        == given@[i]@
            },
            None => document.described().attributes.len() == 0,
        },
        match document.size_limit {
            Some(given) => document.described().size_limit == given,
            None => document.described().size_limit == 100,
        },
        match document.timeout_ms {
            Some(given) => document.described().timeout_ms == given,
            None => document.described().timeout_ms == 10_000,
        },
        match document.resolution {
            Some(resolution) => {
                &&& match resolution.trust_level {
                    Some(given) => document.described().trust_level == given@,
                    None => document.described().trust_level == "verified"@,
                }
                &&& match resolution.auth_provider_label {
                    Some(given) => document.described().auth_provider_label == given@,
                    None => document.described().auth_provider_label == "ldap"@,
                }
            },
            None => {
                &&& document.described().trust_level == "verified"@
                &&& document.described().auth_provider_label == "ldap"@
            },
        },
{
    if let Some(given) = document.attributes {
        assert(document.described().attributes == given.deep_view());
    }
}

/// A configuration shows its parts as they are.
pub proof fn law_config_parts(config: LdapIdentityConfig)
    ensures
        config@.url == config.url@,
        config@.group_attribute == config.group_attribute@,
        config@.roles_from_group_cn == config.roles_from_group_cn,
        match config.subject_attribute {
            Some(name) => config@.subject_attribute == Some(name@),
            None => config@.subject_attribute is None,
        },
        config@.attributes.len() == config.attributes@.len(),
        forall|i: int|
            0 <= i < config.attributes@.len() ==> #[trigger] config@.attributes[i]
                == config.attributes@[i]@,
        config@.size_limit == config.size_limit,
        config@.timeout_ms == config.timeout_ms,
        config@.trust_level == config.resolution.trust_level@,
        config@.auth_provider_label == config.resolution.auth_provider_label@,
        config@.bind == config.bind@,
        match config.bind {
            BindMode::Direct {
                user_dn_template,
                groups_base_dn,
            } => config@.bind matches BindView::Direct {
                user_dn_template: template,
                groups_base_dn: base,
            } && template == user_dn_template@ && (match groups_base_dn {
                Some(given) => base == Some(given@),
                None => base is None,
            }),
            BindMode::Search {
                bind_dn,
                bind_password,
                base_dn,
                user_filter,
            } => config@.bind matches BindView::Search {
                bind_dn: dn,
                bind_password: password,
                base_dn: base,
                user_filter: filter,
            } && dn == bind_dn@ && password == bind_password@ && base == base_dn@ && filter
                == user_filter@,
        },
{
}

/// A configuration error shows its parts as they are.
pub proof fn law_error_parts(error: ConfigError)
    ensures
        match error {
            ConfigError::InvalidJson(detail) => error@ == ConfigErrorView::InvalidJson(detail@),
            ConfigError::InvalidUrl(url) => error@ == ConfigErrorView::InvalidUrl(url@),
            ConfigError::Empty { field } => error@ == (ConfigErrorView::Empty { field: field@ }),
            ConfigError::MissingUsernamePlaceholder { field, placeholder } => error@ == (
            ConfigErrorView::MissingUsernamePlaceholder {
                field: field@,
                placeholder: placeholder@,
            }),
            ConfigError::ZeroTimeout => error@ == ConfigErrorView::ZeroTimeout,
            ConfigError::ZeroSizeLimit => error@ == ConfigErrorView::ZeroSizeLimit,
            ConfigError::InvalidTrustLevel(level) => error@ == ConfigErrorView::InvalidTrustLevel(
                level@,
            ),
        },
{
}

/// The message of an error names what is wrong and quotes what was given.
pub proof fn law_messages(given: Seq<char>, placeholder: Seq<char>)
    ensures
        ConfigErrorView::InvalidJson(given).message() == "invalid identity.ldap config JSON: "@
            + given,
        ConfigErrorView::InvalidUrl(given).message()
            == "identity.ldap: url must start with ldap:// or ldaps://, got `"@ + given + "`"@,
        (ConfigErrorView::Empty { field: given }).message() == "identity.ldap: "@ + given
            + " must not be empty"@,
        (ConfigErrorView::MissingUsernamePlaceholder { field: given, placeholder }).message()
            == "identity.ldap: "@ + given + " must contain the `"@ + placeholder
            + "` placeholder (it is substituted with the caller's username)"@,
        ConfigErrorView::ZeroTimeout.message() == "identity.ldap: timeout_ms must be greater than 0"@,
        ConfigErrorView::ZeroSizeLimit.message()
            == "identity.ldap: size_limit must be greater than 0"@,
        ConfigErrorView::InvalidTrustLevel(given).message() == "identity.ldap: invalid trust_level `"@
            + given + "` (allowed: verified | header_asserted)"@,
{
}

/// The first fault that a configuration has is the one that is told. A URL has to
/// be `ldap://` or `ldaps://` and some text; the group attribute has to hold more
/// than white space; the limits have to be greater than zero; the trust level has
/// to be one of two.
pub proof fn law_faults(config: ConfigView)
    ensures
        ({
            let usable_url = exists|rest: Seq<char>|
                config.url == #[trigger] ("ldap://"@ + rest) || config.url == "ldaps://"@ + rest;
            let usable_group = !crate::text::blank(config.group_attribute);
            let usable_trust = config.trust_level == "verified"@ || config.trust_level
                == "header_asserted"@;
            &&& !usable_url ==> config.fault() == Some(ConfigErrorView::InvalidUrl(config.url))
            &&& usable_url && !usable_group ==> config.fault() == Some(
                ConfigErrorView::Empty { field: "group_attribute"@ },
            )
            &&& usable_url && usable_group && config.timeout_ms == 0 ==> config.fault() == Some(
                ConfigErrorView::ZeroTimeout,
            )
            &&& usable_url && usable_group && config.timeout_ms > 0 && config.size_limit == 0
                ==> config.fault() == Some(ConfigErrorView::ZeroSizeLimit)
            &&& usable_url && usable_group && config.timeout_ms > 0 && config.size_limit > 0
                && !usable_trust ==> config.fault() == Some(
                ConfigErrorView::InvalidTrustLevel(config.trust_level),
            )
            &&& usable_url && usable_group && config.timeout_ms > 0 && config.size_limit > 0
                && usable_trust ==> config.fault() == config.bind.fault()
        }),
{
    let rest = config.url.skip(7);
    if "ldap://"@.is_prefix_of(config.url) {
        reveal_strlit("ldap://");
        assert(config.url =~= "ldap://"@ + rest);
    }
    if "ldaps://"@.is_prefix_of(config.url) {
        reveal_strlit("ldaps://");
        let behind = config.url.skip(8);
        assert(config.url =~= "ldaps://"@ + behind);
        let other = "ldap://"@ + behind;
    }
    assert forall|rest: Seq<char>|
        config.url == #[trigger] ("ldap://"@ + rest) || config.url == "ldaps://"@ + rest implies (
    "ldap://"@.is_prefix_of(config.url) || "ldaps://"@.is_prefix_of(config.url)) by {}
}

/// The first fault that a bind strategy has is the one that is told: what has to
/// hold more than white space and does not, and then a template or a filter
/// without the placeholder. A password may be empty.
pub proof fn law_bind_faults(
    user_dn_template: Seq<char>,
    groups_base_dn: Option<Seq<char>>,
    bind_dn: Seq<char>,
    bind_password: Seq<char>,
    base_dn: Seq<char>,
    user_filter: Seq<char>,
)
    ensures
        ({
            let fault = (BindView::Direct { user_dn_template, groups_base_dn }).fault();
            let holds_placeholder = exists|before: Seq<char>, after: Seq<char>|
                #![trigger before + "{username}"@ + after]
                user_dn_template == before + "{username}"@ + after;
            &&& crate::text::blank(user_dn_template) ==> fault == Some(
                ConfigErrorView::Empty { field: "bind.user_dn_template"@ },
            )
            &&& !crate::text::blank(user_dn_template) && !holds_placeholder ==> fault == Some(
                ConfigErrorView::MissingUsernamePlaceholder {
                    field: "bind.user_dn_template"@,
                    placeholder: "{username}"@,
                },
            )
            &&& holds_placeholder ==> fault is None
        }),
        ({
            let fault = (BindView::Search { bind_dn, bind_password, base_dn, user_filter }).fault();
            let holds_placeholder = exists|before: Seq<char>, after: Seq<char>|
                #![trigger before + "{username}"@ + after]
                user_filter == before + "{username}"@ + after;
            let usable = !crate::text::blank(bind_dn) && !crate::text::blank(base_dn);
            &&& crate::text::blank(bind_dn) ==> fault == Some(
                ConfigErrorView::Empty { field: "bind.bind_dn"@ },
            )
            &&& !crate::text::blank(bind_dn) && crate::text::blank(base_dn) ==> fault == Some(
                ConfigErrorView::Empty { field: "bind.base_dn"@ },
            )
            &&& usable && crate::text::blank(user_filter) ==> fault == Some(
                ConfigErrorView::Empty { field: "bind.user_filter"@ },
            )
            &&& usable && !crate::text::blank(user_filter) && !holds_placeholder ==> fault == Some(
                ConfigErrorView::MissingUsernamePlaceholder {
                    field: "bind.user_filter"@,
                    placeholder: "{username}"@,
                },
            )
            &&& usable && holds_placeholder ==> fault is None
        }),
{
    crate::text::law_occurs(user_dn_template, "{username}"@);
    crate::text::law_occurs(user_filter, "{username}"@);
    lemma_placeholder_is_not_blank(user_dn_template);
    lemma_placeholder_is_not_blank(user_filter);
}

/// One more name behind a list is kept, last, unless it is empty or the list
/// holds it already in some spelling; what was kept before stays.
pub proof fn law_one_more_name(list: Seq<Seq<char>>, name: Seq<char>)
    ensures
        distinct_names(Seq::empty()) == Seq::<Seq<char>>::empty(),
        distinct_names(list.push(name)) == (if name.len() == 0 || exists|i: int|
            0 <= i < list.len() && crate::text::same_ignoring_case(#[trigger] list[i], name) {
            distinct_names(list)
        } else {
            distinct_names(list).push(name)
        }),
{
    let longer = list.push(name);
    let before = distinct_names(list);
    assert(longer.drop_last() == list);
    law_distinct_names(list);
    if name.len() > 0 {
        if names(before, name) {
            let k = choose|k: int|
                0 <= k < before.len() && crate::text::same_ignoring_case(#[trigger] before[k], name);
            assert(list.contains(before[k]));
            let i = choose|i: int| 0 <= i < list.len() && list[i] == before[k];
            assert(crate::text::same_ignoring_case(list[i], name));
        }
        if exists|i: int|
            0 <= i < list.len() && crate::text::same_ignoring_case(#[trigger] list[i], name) {
            let i = choose|i: int|
                0 <= i < list.len() && crate::text::same_ignoring_case(#[trigger] list[i], name);
            crate::text::law_same_ignoring_case(list[i], name);
            assert(names(before, list[i]));
            let k = choose|k: int|
                0 <= k < before.len() && crate::text::same_ignoring_case(
                    #[trigger] before[k],
                    list[i],
                );
            assert(crate::text::same_ignoring_case(before[k], name));
        }
    }
}

/// The attributes that are requested are the group attribute, the subject
/// attribute and the further attributes, in that order, each once.
pub proof fn law_read_attributes_in_order(config: ConfigView)
    ensures
        config.subject_attribute is None ==> config.read_attributes() == distinct_names(
            seq![config.group_attribute] + config.attributes,
        ),
        config.subject_attribute matches Some(name) ==> config.read_attributes() == distinct_names(
            seq![config.group_attribute, name] + config.attributes,
        ),
{
    match config.subject_attribute {
        Some(name) => {
            assert(config.mentioned_attributes() == seq![config.group_attribute, name]
                + config.attributes);
        },
        None => {
            assert(config.mentioned_attributes() == seq![config.group_attribute]
                + config.attributes);
        },
    }
}

/// The default of `roles_from_group_cn`.
pub fn default_true() -> (r: bool)
    ensures
        r,
{
    true
}

/// The default of `group_attribute`, which Active Directory and most modern
/// directories fill.
pub fn default_group_attribute() -> (r: String)
    ensures
        r@ == "memberOf"@,
{
    "memberOf".to_owned()
}

/// The default of `size_limit`.
pub fn default_size_limit() -> (r: usize)
    ensures
        r == 100,
{
    100
}

/// The default of `timeout_ms`: ten seconds.
pub fn default_timeout_ms() -> (r: u64)
    ensures
        r == 10_000,
{
    10_000
}

/// The default of `resolution.trust_level`: a successful bind proves that the
/// caller holds the password.
pub fn default_trust_level() -> (r: String)
    ensures
        r@ == "verified"@,
{
    "verified".to_owned()
}

/// The default of `resolution.auth_provider_label`.
pub fn default_auth_provider_label() -> (r: String)
    ensures
        r@ == "ldap"@,
{
    "ldap".to_owned()
}

impl Default for ResolutionConfig {
    fn default() -> (r: Self)
        ensures
            r.trust_level@ == "verified"@,
            r.auth_provider_label@ == "ldap"@,
    {
        ResolutionConfig {
            trust_level: default_trust_level(),
            auth_provider_label: default_auth_provider_label(),
        }
    }
}

impl ResolutionDocument {
    /// What the document gives, and the defaults for what it leaves out.
    fn fill(self) -> (r: ResolutionConfig)
        ensures
            r.trust_level@ == or_default(self.trust_level.deep_view(), "verified"@),
            r.auth_provider_label@ == or_default(self.auth_provider_label.deep_view(), "ldap"@),
    {
        ResolutionConfig {
            trust_level: match self.trust_level {
                Some(given) => given,
                None => default_trust_level(),
            },
            auth_provider_label: match self.auth_provider_label {
                Some(given) => given,
                None => default_auth_provider_label(),
            },
        }
    }
}

impl ConfigDocument {
    /// What the document gives, and the defaults for what it leaves out.
    pub fn fill(self) -> (r: LdapIdentityConfig)
        ensures
            r@ == self.described(),
    {
        proof {
            assert(forall|v: Vec<String>|
                v@.len() == 0 ==> #[trigger] v.deep_view() =~= Seq::<Seq<char>>::empty());
        }
        LdapIdentityConfig {
            url: self.url,
            bind: self.bind,
            group_attribute: match self.group_attribute {
                Some(given) => given,
                None => default_group_attribute(),
            },
            roles_from_group_cn: match self.roles_from_group_cn {
                Some(given) => given,
                None => default_true(),
            },
            subject_attribute: self.subject_attribute,
            attributes: match self.attributes {
                Some(given) => given,
                None => Vec::new(),
            },
            size_limit: match self.size_limit {
                Some(given) => given,
                None => default_size_limit(),
            },
            timeout_ms: match self.timeout_ms {
                Some(given) => given,
                None => default_timeout_ms(),
            },
            resolution: match self.resolution {
                Some(given) => given.fill(),
                None => ResolutionConfig::default(),
            },
        }
    }
}

/// One more name of a list is kept unless it is empty or kept already.
proof fn lemma_next_name(list: Seq<Seq<char>>, n: int)
    requires
        0 <= n < list.len(),
    ensures
        distinct_names(list.take(n + 1)) == ({
            let before = distinct_names(list.take(n));
            if list[n].len() == 0 || names(before, list[n]) {
                before
            } else {
                before.push(list[n])
            }
        }),
{
    assert(list.take(n + 1).drop_last() == list.take(n));
    assert(list.take(n + 1).last() == list[n]);
}

/// Adds a name to a list unless it is empty or listed already, in any case.
fn push_distinct(out: &mut Vec<String>, name: &str)
    ensures
        final(out).deep_view() == (if name@.len() == 0 || names(old(out).deep_view(), name@) {
            old(out).deep_view()
        } else {
            old(out).deep_view().push(name@)
        }),
{
    if name.is_empty() {
        return;
    }
    let ghost listed = out.deep_view();
    let mut i: usize = 0;
    while i < out.len()
        invariant
            i <= out.len(),
            listed == out.deep_view(),
            listed == old(out).deep_view(),
            forall|j: int|
                0 <= j < i ==> !crate::text::same_ignoring_case(#[trigger] listed[j], name@),
        decreases out.len() - i,
    {
        if eq_ignore_ascii_case(out[i].as_str(), name) {
            proof {
                assert(listed[i as int] == out@[i as int]@);
            }
            return;
        }
        i = i + 1;
    }
    out.push(name.to_owned());
    proof {
        assert(out.deep_view() =~= listed.push(name@));
    }
}

impl LdapIdentityConfig {
    /// Completes a decoded configuration document with the defaults and checks
    /// it. The argument is what the decoder returned: a document, or the
    /// message of its error.
    pub fn parse(decoded: Result<ConfigDocument, String>) -> (r: Result<Self, ConfigError>)
        ensures
            match decoded {
                Err(detail) => r matches Err(e) && e@ == ConfigErrorView::InvalidJson(detail@),
                Ok(document) => match r {
                    Ok(config) => config@ == document.described()
                        && document.described().fault() is None,
                    Err(e) => document.described().fault() == Some(e@),
                },
            },
    {
        let document: ConfigDocument = match decoded {
            Ok(document) => document,
            Err(detail) => return Err(ConfigError::InvalidJson(detail)),
        };
        let config: LdapIdentityConfig = document.fill();
        match config.validate() {
            Ok(()) => Ok(config),
            Err(e) => Err(e),
        }
    }

    /// Checks a configuration.
    pub fn validate(&self) -> (r: Result<(), ConfigError>)
        ensures
            match r {
                Ok(()) => self@.fault() is None,
                Err(e) => self@.fault() == Some(e@),
            },
    {
        if !starts_with(self.url.as_str(), "ldap://") && !starts_with(
            self.url.as_str(),
            "ldaps://",
        ) {
            return Err(ConfigError::InvalidUrl(self.url.clone()));
        }
        if is_blank(self.group_attribute.as_str()) {
            return Err(ConfigError::Empty { field: "group_attribute" });
        }
        if self.timeout_ms == 0 {
            return Err(ConfigError::ZeroTimeout);
        }
        if self.size_limit == 0 {
            return Err(ConfigError::ZeroSizeLimit);
        }
        let trust_level: &str = self.resolution.trust_level.as_str();
        if !same_text(trust_level, "verified") && !same_text(trust_level, "header_asserted") {
            return Err(ConfigError::InvalidTrustLevel(trust_level.to_owned()));
        }
        match &self.bind {
            BindMode::Direct { user_dn_template, .. } => {
                if is_blank(user_dn_template.as_str()) {
                    return Err(ConfigError::Empty { field: "bind.user_dn_template" });
                }
                if !contains(user_dn_template.as_str(), USERNAME_PLACEHOLDER) {
                    return Err(
                        ConfigError::MissingUsernamePlaceholder {
                            field: "bind.user_dn_template",
                            placeholder: USERNAME_PLACEHOLDER,
                        },
                    );
                }
            },
            BindMode::Search { bind_dn, base_dn, user_filter, .. } => {
                if is_blank(bind_dn.as_str()) {
                    return Err(ConfigError::Empty { field: "bind.bind_dn" });
                }
                if is_blank(base_dn.as_str()) {
                    return Err(ConfigError::Empty { field: "bind.base_dn" });
                }
                if is_blank(user_filter.as_str()) {
                    return Err(ConfigError::Empty { field: "bind.user_filter" });
                }
                if !contains(user_filter.as_str(), USERNAME_PLACEHOLDER) {
                    return Err(
                        ConfigError::MissingUsernamePlaceholder {
                            field: "bind.user_filter",
                            placeholder: USERNAME_PLACEHOLDER,
                        },
                    );
                }
            },
        }
        Ok(())
    }

    /// The attributes to request of the caller's entry: the group attribute,
    /// the subject attribute and the further attributes, each once whatever its
    /// case.
    pub fn read_attributes(&self) -> (r: Vec<String>)
        ensures
            r.deep_view() == self@.read_attributes(),
    {
        let ghost list = self@.mentioned_attributes();
        let mut out: Vec<String> = Vec::new();
        proof {
            assert(out.deep_view() =~= distinct_names(list.take(0)));
            assert(list[0] == self.group_attribute@);
            lemma_next_name(list, 0);
        }
        push_distinct(&mut out, self.group_attribute.as_str());
        let ghost mut taken: int = 1;
        if let Some(name) = &self.subject_attribute {
            proof {
                assert(list[1] == name@);
                lemma_next_name(list, 1);
                taken = 2;
            }
            push_distinct(&mut out, name.as_str());
        }
        let mut i: usize = 0;
        while i < self.attributes.len()
            invariant
                i <= self.attributes.len(),
                list == self@.mentioned_attributes(),
                taken == (if self.subject_attribute is Some {
                    2int
                } else {
                    1int
                }),
                out.deep_view() == distinct_names(list.take(taken + i)),
            decreases self.attributes.len() - i,
        {
            proof {
                assert(list[taken + i] == self.attributes@[i as int]@);
                lemma_next_name(list, taken + i);
            }
            push_distinct(&mut out, self.attributes[i].as_str());
            i = i + 1;
        }
        proof {
            assert(list.take(taken + i) == list);
        }
        out
    }
}

/// A filled document has every given value, whatever it is, and the default in
/// place of every value that was left out.
pub proof fn law_filled_document(document: ConfigDocument, config: LdapIdentityConfig)
    requires
        call_ensures(ConfigDocument::fill, (document,), config),
    ensures
        config.url@ == document.url@,
        config.bind@ == document.bind@,
        config.group_attribute@ == (if document.group_attribute is Some {
            document.group_attribute->0@
        } else {
            "memberOf"@
        }),
        config.roles_from_group_cn == (document.roles_from_group_cn != Some(false)),
        config.subject_attribute is Some <==> document.subject_attribute is Some,
        document.subject_attribute is Some ==> config.subject_attribute->0@
            == document.subject_attribute->0@,
        config.attributes@.len() == (if document.attributes is Some {
            document.attributes->0@.len()
        } else {
            0
        }),
        forall|i: int|
            0 <= i < config.attributes@.len() ==> (#[trigger] config.attributes@[i])@
                == document.attributes->0@[i]@,
        config.size_limit == (if document.size_limit is Some {
            document.size_limit->0
        } else {
            100
        }),
        config.timeout_ms == (if document.timeout_ms is Some {
            document.timeout_ms->0
        } else {
            10_000
        }),
        config.resolution.trust_level@ == (if document.resolution is Some
            && document.resolution->0.trust_level is Some {
            document.resolution->0.trust_level->0@
        } else {
            "verified"@
        }),
        config.resolution.auth_provider_label@ == (if document.resolution is Some
            && document.resolution->0.auth_provider_label is Some {
            document.resolution->0.auth_provider_label->0@
        } else {
            "ldap"@
        }),
{
    law_config_parts(config);
    law_document_is_followed(document);
    assert forall|i: int| 0 <= i < config.attributes@.len() implies (
    #[trigger] config.attributes@[i])@ == document.attributes->0@[i]@ by {
        assert(config@.attributes[i] == document.described().attributes[i]);
    }
}

/// A document is taken exactly if the configuration that it describes has no
/// fault, and is refused for the first fault that it has; what is no document is
/// refused with the message of the decoder.
pub proof fn law_parsed_document(
    decoded: Result<ConfigDocument, String>,
    r: Result<LdapIdentityConfig, ConfigError>,
)
    requires
        call_ensures(LdapIdentityConfig::parse, (decoded,), r),
    ensures
        r is Ok <==> decoded is Ok && decoded->Ok_0.described().fault() is None,
        r is Ok ==> r->Ok_0@ == decoded->Ok_0.described(),
        decoded is Ok && r is Err ==> decoded->Ok_0.described().fault() == Some(r->Err_0@),
        decoded is Err ==> r is Err && r->Err_0@ == ConfigErrorView::InvalidJson(
            decoded->Err_0@,
        ),
{
}

} // verus!
