use mcpg_plugin_identity_ldap::config::{
    default_auth_provider_label, default_group_attribute, default_size_limit, default_timeout_ms,
    default_true, default_trust_level, ConfigDocument, ResolutionDocument, USERNAME_PLACEHOLDER,
};
use mcpg_plugin_identity_ldap::{BindMode, ConfigError, LdapIdentityConfig, ResolutionConfig};

fn direct_doc() -> ConfigDocument {
    ConfigDocument {
        url: "ldaps://dc.example.com:636".into(),
        bind: BindMode::Direct {
            user_dn_template: "uid={username},ou=people,dc=example,dc=org".into(),
            groups_base_dn: None,
        },
        group_attribute: None,
        roles_from_group_cn: None,
        subject_attribute: None,
        attributes: None,
        size_limit: None,
        timeout_ms: None,
        resolution: None,
    }
}

fn search_doc(bind_dn: &str, base_dn: &str, user_filter: &str) -> ConfigDocument {
    let mut doc = direct_doc();
    doc.bind = BindMode::Search {
        bind_dn: bind_dn.into(),
        bind_password: "p".into(),
        base_dn: base_dn.into(),
        user_filter: user_filter.into(),
    };
    doc
}

fn error_of(doc: ConfigDocument) -> ConfigError {
    match LdapIdentityConfig::parse(Ok(doc)) {
        Ok(_) => panic!("accepted"),
        Err(err) => err,
    }
}

fn empty_field(doc: ConfigDocument) -> &'static str {
    match error_of(doc) {
        ConfigError::Empty { field } => field,
        other => panic!("unexpected: {:?}", other),
    }
}

#[test]
fn parses_direct_with_defaults() {
    let cfg = LdapIdentityConfig::parse(Ok(direct_doc())).unwrap();
    assert_eq!(cfg.group_attribute, "memberOf");
    assert!(cfg.roles_from_group_cn);
    assert_eq!(cfg.timeout_ms, 10_000);
    assert_eq!(cfg.size_limit, 100);
    assert_eq!(cfg.resolution.trust_level, "verified");
    assert_eq!(cfg.resolution.auth_provider_label, "ldap");
    assert!(matches!(cfg.bind, BindMode::Direct { .. }));
}

#[test]
fn parses_search_mode() {
    let doc = ConfigDocument {
        url: "ldap://dc.example.com:389".into(),
        bind: BindMode::Search {
            bind_dn: "cn=svc,dc=example,dc=org".into(),
            bind_password: "secret".into(),
            base_dn: "ou=people,dc=example,dc=org".into(),
            user_filter: "(sAMAccountName={username})".into(),
        },
        group_attribute: None,
        roles_from_group_cn: None,
        subject_attribute: Some("sAMAccountName".into()),
        attributes: Some(vec!["mail".into(), "displayName".into()]),
        size_limit: None,
        timeout_ms: None,
        resolution: None,
    };
    let cfg = LdapIdentityConfig::parse(Ok(doc)).unwrap();
    assert!(matches!(cfg.bind, BindMode::Search { .. }));
    // The group, the subject and the further attributes, each once.
    let attrs = cfg.read_attributes();
    assert_eq!(
        attrs,
        vec!["memberOf", "sAMAccountName", "mail", "displayName"]
    );
}

#[test]
fn rejects_non_ldap_url() {
    let mut doc = direct_doc();
    doc.url = "https://dc/".into();
    let err = LdapIdentityConfig::parse(Ok(doc)).unwrap_err();
    assert!(matches!(err, ConfigError::InvalidUrl(_)));
}

#[test]
fn rejects_template_without_placeholder() {
    let mut doc = direct_doc();
    doc.bind = BindMode::Direct {
        user_dn_template: "uid=fixed,ou=people,dc=example,dc=org".into(),
        groups_base_dn: None,
    };
    let err = LdapIdentityConfig::parse(Ok(doc)).unwrap_err();
    assert!(matches!(
        err,
        ConfigError::MissingUsernamePlaceholder { .. }
    ));
}

#[test]
fn rejects_filter_without_placeholder() {
    let mut doc = search_doc("cn=svc,dc=x", "dc=x", "(objectClass=person)");
    doc.url = "ldap://dc:389".into();
    let err = LdapIdentityConfig::parse(Ok(doc)).unwrap_err();
    assert!(matches!(
        err,
        ConfigError::MissingUsernamePlaceholder { .. }
    ));
}

#[test]
fn rejects_invalid_trust_level() {
    let mut doc = direct_doc();
    doc.resolution = Some(ResolutionDocument {
        trust_level: Some("alien".into()),
        auth_provider_label: None,
    });
    let err = LdapIdentityConfig::parse(Ok(doc)).unwrap_err();
    assert!(matches!(err, ConfigError::InvalidTrustLevel(v) if v == "alien"));
}

#[test]
fn read_attributes_dedups_case_insensitively() {
    let mut doc = direct_doc();
    doc.group_attribute = Some("memberOf".into());
    doc.subject_attribute = Some("memberof".into()); // the same attribute in another case
    doc.attributes = Some(vec!["Mail".into(), "mail".into()]); // twice
    let cfg = LdapIdentityConfig::parse(Ok(doc)).unwrap();
    // memberof folds into memberOf; mail appears once.
    assert_eq!(cfg.read_attributes(), vec!["memberOf", "Mail"]);
}

#[test]
fn read_attributes_leaves_out_empty_names() {
    let mut doc = direct_doc();
    doc.subject_attribute = Some("".into());
    doc.attributes = Some(vec!["".into(), " ".into(), "cn".into()]);
    let cfg = LdapIdentityConfig::parse(Ok(doc)).unwrap();
    assert_eq!(cfg.read_attributes(), vec!["memberOf", " ", "cn"]);
}

#[test]
fn read_attributes_folds_ascii_only() {
    let mut doc = direct_doc();
    doc.attributes = Some(vec!["\u{c9}t\u{e9}".into(), "\u{e9}t\u{e9}".into()]);
    let cfg = LdapIdentityConfig::parse(Ok(doc)).unwrap();
    assert_eq!(cfg.read_attributes().len(), 3);
}

#[test]
fn what_a_document_gives_is_kept() {
    let mut doc = direct_doc();
    doc.group_attribute = Some("isMemberOf".into());
    doc.roles_from_group_cn = Some(false);
    doc.subject_attribute = Some("uid".into());
    doc.attributes = Some(vec!["mail".into()]);
    doc.size_limit = Some(7);
    doc.timeout_ms = Some(300);
    doc.resolution = Some(ResolutionDocument {
        trust_level: Some("header_asserted".into()),
        auth_provider_label: Some("corp".into()),
    });
    let cfg = LdapIdentityConfig::parse(Ok(doc)).unwrap();
    assert_eq!(cfg.url, "ldaps://dc.example.com:636");
    assert_eq!(cfg.group_attribute, "isMemberOf");
    assert!(!cfg.roles_from_group_cn);
    assert_eq!(cfg.subject_attribute.as_deref(), Some("uid"));
    assert_eq!(cfg.attributes, vec!["mail"]);
    assert_eq!(cfg.size_limit, 7);
    assert_eq!(cfg.timeout_ms, 300);
    assert_eq!(cfg.resolution.trust_level, "header_asserted");
    assert_eq!(cfg.resolution.auth_provider_label, "corp");
}

#[test]
fn resolution_defaults_apply_one_by_one() {
    let mut doc = direct_doc();
    doc.resolution = Some(ResolutionDocument {
        trust_level: None,
        auth_provider_label: Some("corp".into()),
    });
    let cfg = LdapIdentityConfig::parse(Ok(doc)).unwrap();
    assert_eq!(cfg.resolution.trust_level, "verified");
    assert_eq!(cfg.resolution.auth_provider_label, "corp");
}

#[test]
fn defaults_are_the_documented_ones() {
    assert!(default_true());
    assert_eq!(default_group_attribute(), "memberOf");
    assert_eq!(default_size_limit(), 100);
    assert_eq!(default_timeout_ms(), 10_000);
    assert_eq!(default_trust_level(), "verified");
    assert_eq!(default_auth_provider_label(), "ldap");
    let resolution = ResolutionConfig::default();
    assert_eq!(resolution.trust_level, "verified");
    assert_eq!(resolution.auth_provider_label, "ldap");
    assert_eq!(USERNAME_PLACEHOLDER, "{username}");
}

#[test]
fn an_undecodable_document_is_refused() {
    let err = LdapIdentityConfig::parse(Err("expected value at line 1".into())).unwrap_err();
    assert!(matches!(&err, ConfigError::InvalidJson(d) if d == "expected value at line 1"));
    assert_eq!(
        err.message(),
        "invalid identity.ldap config JSON: expected value at line 1"
    );
}

#[test]
fn both_ldap_schemes_are_accepted_and_case_matters() {
    for url in ["ldap://", "ldaps://", "ldap://h:389", "ldaps://h:636"] {
        let mut doc = direct_doc();
        doc.url = url.into();
        assert!(LdapIdentityConfig::parse(Ok(doc)).is_ok());
    }
    for url in ["", "ldap:/", "LDAP://h", " ldap://h", "ldapi://h", "ldaps:/h"] {
        let mut doc = direct_doc();
        doc.url = url.into();
        assert!(matches!(error_of(doc), ConfigError::InvalidUrl(u) if u == url));
    }
}

#[test]
fn blank_fields_are_refused() {
    let mut doc = direct_doc();
    doc.group_attribute = Some(" \t\u{3000}".into());
    assert_eq!(empty_field(doc), "group_attribute");
    let mut doc = direct_doc();
    doc.bind = BindMode::Direct { user_dn_template: "\n".into(), groups_base_dn: None };
    assert_eq!(empty_field(doc), "bind.user_dn_template");
    assert_eq!(empty_field(search_doc("", "dc=x", "(uid={username})")), "bind.bind_dn");
    assert_eq!(empty_field(search_doc("cn=svc", " ", "(uid={username})")), "bind.base_dn");
    assert_eq!(empty_field(search_doc("cn=svc", "dc=x", "\u{a0}")), "bind.user_filter");
}

#[test]
fn an_empty_service_password_is_not_checked() {
    let mut doc = direct_doc();
    doc.bind = BindMode::Search {
        bind_dn: "cn=svc".into(),
        bind_password: "".into(),
        base_dn: "dc=x".into(),
        user_filter: "(uid={username})".into(),
    };
    assert!(LdapIdentityConfig::parse(Ok(doc)).is_ok());
}

#[test]
fn zero_limits_are_refused() {
    let mut doc = direct_doc();
    doc.timeout_ms = Some(0);
    assert!(matches!(error_of(doc), ConfigError::ZeroTimeout));
    let mut doc = direct_doc();
    doc.size_limit = Some(0);
    assert!(matches!(error_of(doc), ConfigError::ZeroSizeLimit));
}

#[test]
fn the_first_fault_counts() {
    let mut doc = search_doc("", "", "");
    doc.timeout_ms = Some(0);
    doc.size_limit = Some(0);
    doc.group_attribute = Some("".into());
    doc.url = "x".into();
    assert!(matches!(error_of(doc.clone()), ConfigError::InvalidUrl(_)));
    doc.url = "ldap://h".into();
    assert_eq!(empty_field(doc.clone()), "group_attribute");
    doc.group_attribute = None;
    assert!(matches!(error_of(doc.clone()), ConfigError::ZeroTimeout));
    doc.timeout_ms = None;
    assert!(matches!(error_of(doc.clone()), ConfigError::ZeroSizeLimit));
    doc.size_limit = None;
    assert_eq!(empty_field(doc), "bind.bind_dn");
}

#[test]
fn messages_of_configuration_errors() {
    assert_eq!(
        ConfigError::InvalidUrl("http://x".into()).message(),
        "identity.ldap: url must start with ldap:// or ldaps://, got `http://x`"
    );
    assert_eq!(
        ConfigError::Empty { field: "bind.base_dn" }.message(),
        "identity.ldap: bind.base_dn must not be empty"
    );
    assert_eq!(
        ConfigError::MissingUsernamePlaceholder {
            field: "bind.user_filter",
            placeholder: USERNAME_PLACEHOLDER,
        }
        .message(),
        "identity.ldap: bind.user_filter must contain the `{username}` placeholder \
         (it is substituted with the caller's username)"
    );
    assert_eq!(
        ConfigError::ZeroTimeout.message(),
        "identity.ldap: timeout_ms must be greater than 0"
    );
    assert_eq!(
        ConfigError::ZeroSizeLimit.message(),
        "identity.ldap: size_limit must be greater than 0"
    );
    assert_eq!(
        ConfigError::InvalidTrustLevel("alien".into()).message(),
        "identity.ldap: invalid trust_level `alien` (allowed: verified | header_asserted)"
    );
}

#[test]
fn bind_modes_have_labels() {
    assert_eq!(direct_doc().bind.label(), "direct");
    assert_eq!(search_doc("cn=svc", "dc=x", "(uid={username})").bind.label(), "search");
}
