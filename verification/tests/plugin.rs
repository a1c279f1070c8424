use base64::engine::general_purpose::STANDARD as BASE64_STANDARD;
use base64::Engine;
use mcpg_plugin_identity_ldap::config::{ConfigDocument, ResolutionDocument};
use mcpg_plugin_identity_ldap::ldap::{AttrMap, BindAttempt, DirectoryEntry, FindUser};
use mcpg_plugin_identity_ldap::plugin::{
    record_resolve_outcome, IdentityResolution, PluginClass, PluginIdentity, ResolveEvent,
    Resolving, PLUGIN_ID,
};
use mcpg_plugin_identity_ldap::session::{Action, Reply, Session};
use mcpg_plugin_identity_ldap::{
    BindMode, BindOutcome, ConfigError, DirectoryUser, LdapIdentityPlugin,
};

fn direct_doc() -> ConfigDocument {
    ConfigDocument {
        url: "ldap://127.0.0.1:1".into(),
        bind: BindMode::Direct {
            user_dn_template: "uid={username},ou=people,dc=example,dc=org".into(),
            groups_base_dn: None,
        },
        group_attribute: None,
        roles_from_group_cn: None,
        subject_attribute: Some("uid".into()),
        attributes: Some(vec!["mail".into()]),
        size_limit: None,
        timeout_ms: Some(300),
        resolution: None,
    }
}

fn plugin_of(doc: ConfigDocument) -> LdapIdentityPlugin {
    match LdapIdentityPlugin::from_config_json(Ok(doc), "1.2.3", "some_crate") {
        Ok(plugin) => plugin,
        Err(err) => panic!("{}", err.message()),
    }
}

fn direct_plugin() -> LdapIdentityPlugin {
    plugin_of(direct_doc())
}

fn search_plugin() -> LdapIdentityPlugin {
    let mut doc = direct_doc();
    doc.bind = BindMode::Search {
        bind_dn: "cn=svc,dc=example,dc=org".into(),
        bind_password: "svcpw".into(),
        base_dn: "ou=people,dc=example,dc=org".into(),
        user_filter: "(sAMAccountName={username})".into(),
    };
    plugin_of(doc)
}

fn basic_header(creds: &str) -> Vec<(String, String)> {
    let encoded = BASE64_STANDARD.encode(creds.as_bytes());
    vec![("Authorization".into(), format!("Basic {encoded}"))]
}

fn user(dn: &str, attrs: Vec<(&str, Vec<&str>)>) -> DirectoryUser {
    let mut map = AttrMap::new();
    for (name, values) in attrs {
        map.insert(name.into(), values.into_iter().map(String::from).collect());
    }
    DirectoryUser { dn: dn.into(), attrs: map }
}

fn session_of(resolving: Resolving) -> Session {
    match resolving {
        Resolving::Directory(session) => session,
        Resolving::Done(resolution) => panic!("done: {:?}", resolution),
    }
}

fn resolution_of(resolving: Resolving) -> IdentityResolution {
    match resolving {
        Resolving::Done(resolution) => resolution,
        Resolving::Directory(_) => panic!("not done"),
    }
}

fn resume(plugin: &LdapIdentityPlugin, session: Session, reply: Reply) -> Resolving {
    match session.advance(reply).finish() {
        Ok(outcome) => Resolving::Done(plugin.map_outcome(outcome)),
        Err(session) => Resolving::Directory(session),
    }
}

fn reason_of(resolution: IdentityResolution) -> String {
    match resolution {
        IdentityResolution::Invalid { reason } => reason,
        other => panic!("expected Invalid, got {:?}", other),
    }
}

fn bind_dn_for(plugin: &LdapIdentityPlugin, username: &str) -> String {
    match plugin.authenticate(username, "pw").advance(Reply::Connected(Ok(()))).action() {
        Action::Bind { dn, .. } => dn,
        _ => panic!("expected a bind"),
    }
}

fn filter_for(plugin: &LdapIdentityPlugin, username: &str) -> String {
    let session = plugin
        .authenticate(username, "pw")
        .advance(Reply::Connected(Ok(())))
        .advance(Reply::Bound(BindAttempt::Accepted));
    match session.action() {
        Action::SearchUser { filter, .. } => filter,
        _ => panic!("expected a search"),
    }
}

#[test]
fn build_identity_maps_groups_roles_subject_attrs() {
    let plugin = direct_plugin();
    let mut attrs = AttrMap::new();
    attrs.insert(
        "memberof".into(),
        vec![
            "cn=admins,ou=groups,dc=example,dc=org".into(),
            "cn=developers,ou=groups,dc=example,dc=org".into(),
        ],
    );
    attrs.insert("uid".into(), vec!["alice".into()]);
    attrs.insert("mail".into(), vec!["alice@example.org".into()]);
    let user = DirectoryUser {
        dn: "uid=alice,ou=people,dc=example,dc=org".into(),
        attrs,
    };
    let id = plugin.build_identity(user);
    assert_eq!(id.subject_id.as_deref(), Some("alice")); // from uid attr
    assert_eq!(id.trust_level, "verified");
    assert_eq!(id.auth_provider.as_deref(), Some("ldap"));
    assert_eq!(
        id.groups,
        vec![
            "cn=admins,ou=groups,dc=example,dc=org".to_owned(),
            "cn=developers,ou=groups,dc=example,dc=org".to_owned()
        ]
    );
    assert_eq!(id.roles, vec!["admins".to_owned(), "developers".to_owned()]);
    assert_eq!(
        id.attributes.get("mail").map(String::as_str),
        Some("alice@example.org")
    );
}

#[test]
fn build_identity_falls_back_to_dn_subject() {
    // The entry has no uid, so the subject is the DN.
    let plugin = direct_plugin();
    let user = DirectoryUser {
        dn: "uid=bob,ou=people,dc=example,dc=org".into(),
        attrs: AttrMap::new(),
    };
    let id = plugin.build_identity(user);
    assert_eq!(
        id.subject_id.as_deref(),
        Some("uid=bob,ou=people,dc=example,dc=org")
    );
    assert!(id.roles.is_empty());
    assert!(id.groups.is_empty());
}

#[test]
fn manifest_is_identity_provider() {
    let plugin = direct_plugin();
    let m = plugin.manifest();
    assert_eq!(m.id, PLUGIN_ID);
    assert_eq!(m.plugin_class, PluginClass::IdentityProvider);
}

#[test]
fn sync_no_credential_returns_none_without_blocking() {
    let plugin = direct_plugin();
    let r = resolution_of(plugin.resolve_identity(&[]));
    assert!(matches!(r, IdentityResolution::Absent));
}

#[test]
fn sync_unreachable_directory_fails_closed() {
    let plugin = direct_plugin();
    let session = session_of(plugin.resolve_identity(&basic_header("alice:hunter2")));
    assert!(matches!(session.action(), Action::Connect { url } if url == "ldap://127.0.0.1:1"));
    assert_eq!(session.timeout_ms(), 300);
    let r = resolution_of(
        resume(&plugin, session, Reply::Connected(Err("connection refused".into()))),
    );
    match r {
        IdentityResolution::Invalid { reason } => assert_eq!(reason, "directory unavailable"),
        other => panic!("expected Invalid(directory unavailable), got {other:?}"),
    }
}

#[test]
fn sync_empty_password_rejected_without_blocking() {
    let plugin = direct_plugin();
    let r = resolution_of(plugin.resolve_identity(&basic_header("alice:")));
    assert!(matches!(r, IdentityResolution::Invalid { .. }));
}

#[test]
fn manifest_names_the_plugin() {
    let plugin = direct_plugin();
    let m = plugin.manifest();
    assert_eq!(m.id, "dev.mcpg.identity.ldap");
    assert_eq!(m.version, "1.2.3");
    assert_eq!(m.name, "LDAP / Active Directory Identity Resolver");
    assert_eq!(m.protocol_version, "1.0");
    assert_eq!(m.module_path_prefix, "some_crate");
    assert!(m.license.is_none() && m.backend_profile.is_none());
    assert!(m.required_capabilities.is_empty() && m.tags.is_empty());
    assert!(m.provides.is_empty() && m.provides_schemes.is_empty());
    assert_eq!(plugin.url(), "ldap://127.0.0.1:1");
    assert_eq!(plugin.mode(), "direct");
    assert_eq!(search_plugin().mode(), "search");
}

#[test]
fn a_faulty_configuration_makes_no_plugin() {
    let mut doc = direct_doc();
    doc.timeout_ms = Some(0);
    assert!(matches!(
        LdapIdentityPlugin::from_config_json(Ok(doc), "1", "c"),
        Err(ConfigError::ZeroTimeout)
    ));
    assert!(matches!(
        LdapIdentityPlugin::from_config_json(Err("eof".into()), "1", "c"),
        Err(ConfigError::InvalidJson(d)) if d == "eof"
    ));
}

#[test]
fn user_names_are_escaped_into_dns() {
    let plugin = direct_plugin();
    let rest = ",ou=people,dc=example,dc=org";
    for (username, value) in [
        ("alice", "alice"),
        ("a,dc=evil", "a\\2cdc\\3devil"),
        ("a+b;c", "a\\2bb\\3bc"),
        ("<\"\\>", "\\3c\\22\\5c\\3e"),
        ("#x", "\\23x"),
        ("x#", "x#"),
        (" a b ", "\\20a b\\20"),
        ("a\0b", "a\\00b"),
        ("\u{fc}*()", "\u{fc}*()"),
        ("{username}", "{username}"),
    ] {
        assert_eq!(bind_dn_for(&plugin, username), format!("uid={value}{rest}"));
        assert_eq!(ldap3::dn_escape(username), value);
    }
}

#[test]
fn user_names_are_escaped_into_filters() {
    let plugin = search_plugin();
    for (username, value) in [
        ("alice", "alice"),
        ("*", "\\2a"),
        ("a)(uid=*", "a\\29\\28uid=\\2a"),
        ("a\\b", "a\\5cb"),
        ("a\0", "a\\00"),
        ("\u{fc}, x", "\u{fc}, x"),
    ] {
        assert_eq!(filter_for(&plugin, username), format!("(sAMAccountName={value})"));
        assert_eq!(ldap3::ldap_escape(username), value);
    }
}

#[test]
fn every_placeholder_is_substituted() {
    let mut doc = direct_doc();
    doc.bind = BindMode::Direct {
        user_dn_template: "uid={username},ou={username},{user}".into(),
        groups_base_dn: Some("ou=groups".into()),
    };
    let plugin = plugin_of(doc);
    assert_eq!(bind_dn_for(&plugin, "a,b"), "uid=a\\2cb,ou=a\\2cb,{user}");
    let session = plugin
        .authenticate("a", "pw")
        .advance(Reply::Connected(Ok(())))
        .advance(Reply::Bound(BindAttempt::Accepted));
    assert!(matches!(
        session.action(),
        Action::ReadEntry { base, attrs, .. }
            if base == "ou=groups" && attrs == ["memberOf", "uid", "mail"]
    ));
}

#[test]
fn outcomes_map_to_resolutions() {
    let plugin = direct_plugin();
    assert_eq!(
        reason_of(plugin.map_outcome(BindOutcome::BadCredentials)),
        "invalid username or password"
    );
    // An unknown user is not told from a wrong password.
    assert_eq!(
        reason_of(plugin.map_outcome(BindOutcome::UserNotFound)),
        "invalid username or password"
    );
    assert_eq!(
        reason_of(plugin.map_outcome(BindOutcome::Ambiguous)),
        "ambiguous directory match for user"
    );
    assert_eq!(
        reason_of(plugin.map_outcome(BindOutcome::Unavailable("secret detail".into()))),
        "directory unavailable"
    );
    let resolution = plugin.map_outcome(BindOutcome::Authenticated(user("uid=a", vec![])));
    assert!(matches!(
        resolution,
        IdentityResolution::Resolved { identity } if identity.subject_id.as_deref() == Some("uid=a")
    ));
}

#[test]
fn identities_are_complete() {
    let mut doc = direct_doc();
    doc.attributes = Some(vec!["Mail".into(), "MAIL".into(), "phone".into(), "empty".into()]);
    doc.subject_attribute = Some("UID".into());
    doc.resolution = Some(ResolutionDocument {
        trust_level: Some("header_asserted".into()),
        auth_provider_label: Some("corp".into()),
    });
    let id = plugin_of(doc).build_identity(user(
        "uid=a,dc=x",
        vec![("uid", vec!["a", "b"]), ("mail", vec!["m1", "m2"]), ("empty", vec![])],
    ));
    assert_eq!(id.kind, "header_asserted");
    assert_eq!(id.trust_level, "header_asserted");
    assert_eq!(id.subject_id.as_deref(), Some("a"));
    assert_eq!(id.auth_provider.as_deref(), Some("corp"));
    assert_eq!(id.issuer.as_deref(), Some("ldap://127.0.0.1:1"));
    assert!(id.scopes.is_empty());
    assert_eq!(id.attributes.get("Mail").map(String::as_str), Some("m1"));
    assert_eq!(id.attributes.get("MAIL").map(String::as_str), Some("m1"));
    assert_eq!(id.attributes.get("mail"), None);
    assert_eq!(id.attributes.get("phone"), None);
    assert_eq!(id.attributes.get("empty"), None);
    assert_eq!(id.attributes.into_entries().len(), 2);
}

#[test]
fn a_subject_attribute_without_values_gives_the_dn() {
    let id = direct_plugin().build_identity(user("uid=a,dc=x", vec![("uid", vec![])]));
    assert_eq!(id.subject_id.as_deref(), Some("uid=a,dc=x"));
    let mut doc = direct_doc();
    doc.subject_attribute = None;
    let id = plugin_of(doc).build_identity(user("uid=a,dc=x", vec![("uid", vec!["a"])]));
    assert_eq!(id.subject_id.as_deref(), Some("uid=a,dc=x"));
}

#[test]
fn the_size_limit_caps_groups_and_roles() {
    let mut doc = direct_doc();
    doc.size_limit = Some(3);
    let member_of = vec!["cn=a,dc=x", "nonsense", "cn=b,dc=x", "cn=c,dc=x"];
    let id = plugin_of(doc.clone()).build_identity(user("u", vec![("memberof", member_of.clone())]));
    assert_eq!(id.groups, vec!["cn=a,dc=x", "nonsense", "cn=b,dc=x"]);
    assert_eq!(id.roles, vec!["a", "b"]);
    doc.roles_from_group_cn = Some(false);
    let id = plugin_of(doc).build_identity(user("u", vec![("memberof", member_of)]));
    assert_eq!(id.groups.len(), 3);
    assert!(id.roles.is_empty());
}

#[test]
fn groups_that_differ_behind_an_escaped_comma_get_different_roles() {
    let member_of = vec!["cn=Ops\\, East,dc=x", "cn=Ops\\, West,dc=x"];
    let id = direct_plugin().build_identity(user("u", vec![("memberof", member_of)]));
    assert_eq!(id.roles, vec!["Ops\\, East", "Ops\\, West"]);
}

#[test]
fn the_group_attribute_ignores_case() {
    let mut doc = direct_doc();
    doc.group_attribute = Some("isMemberOf".into());
    let id = plugin_of(doc).build_identity(user("u", vec![("ismemberof", vec!["cn=a"])]));
    assert_eq!(id.groups, vec!["cn=a"]);
}

#[test]
fn a_direct_resolution_from_header_to_identity() {
    let plugin = direct_plugin();
    let session = session_of(plugin.resolve_identity(&basic_header("alice:hunter2")));
    let session = session_of(resume(&plugin, session, Reply::Connected(Ok(()))));
    assert!(matches!(
        session.action(),
        Action::Bind { dn, password }
            if dn == "uid=alice,ou=people,dc=example,dc=org" && password == "hunter2"
    ));
    let session = session_of(resume(&plugin, session, Reply::Bound(BindAttempt::Accepted)));
    let entry = DirectoryEntry {
        dn: "uid=alice,ou=people,dc=example,dc=org".into(),
        attrs: vec![("memberOf".into(), vec!["cn=ops,dc=x".into()])],
    };
    let session = session_of(resume(&plugin, session, Reply::Read(Some(entry))));
    let identity: PluginIdentity = match resolution_of(resume(&plugin, session, Reply::Unbound)) {
        IdentityResolution::Resolved { identity } => identity,
        other => panic!("expected Resolved, got {other:?}"),
    };
    assert_eq!(identity.roles, vec!["ops"]);
    assert_eq!(
        identity.subject_id.as_deref(),
        Some("uid=alice,ou=people,dc=example,dc=org")
    );
}

#[test]
fn a_search_resolution_rejects_a_wrong_password() {
    let plugin = search_plugin();
    let session = session_of(plugin.resolve_identity(&basic_header("alice:wrong")));
    let session = session_of(resume(&plugin, session, Reply::Connected(Ok(()))));
    assert!(matches!(
        session.action(),
        Action::Bind { dn, password } if dn == "cn=svc,dc=example,dc=org" && password == "svcpw"
    ));
    let session = session_of(resume(&plugin, session, Reply::Bound(BindAttempt::Accepted)));
    let entry = DirectoryEntry { dn: "cn=Alice".into(), attrs: vec![] };
    let session = session_of(resume(&plugin, session, Reply::Searched(FindUser::Found(entry))));
    assert!(matches!(
        session.action(),
        Action::Bind { dn, password } if dn == "cn=Alice" && password == "wrong"
    ));
    let r = resolution_of(resume(&plugin, session, Reply::Bound(BindAttempt::Rejected)));
    assert_eq!(reason_of(r), "invalid username or password");
}

#[test]
fn a_search_resolution_does_not_disclose_who_exists() {
    let plugin = search_plugin();
    let at_search = || {
        let session = session_of(plugin.resolve_identity(&basic_header("nobody:pw")));
        let session = session_of(resume(&plugin, session, Reply::Connected(Ok(()))));
        session_of(resume(&plugin, session, Reply::Bound(BindAttempt::Accepted)))
    };
    let unknown = resume(&plugin, at_search(), Reply::Searched(FindUser::NotFound));
    let entry = DirectoryEntry { dn: "cn=N".into(), attrs: vec![] };
    let found = session_of(resume(&plugin, at_search(), Reply::Searched(FindUser::Found(entry))));
    let wrong = resume(&plugin, found, Reply::Bound(BindAttempt::Rejected));
    assert_eq!(reason_of(resolution_of(unknown)), reason_of(resolution_of(wrong)));
    let failed = Reply::Searched(FindUser::Error("user search failed: timeout".into()));
    let failed = resume(&plugin, at_search(), failed);
    assert_eq!(reason_of(resolution_of(failed)), "directory unavailable");
}

#[test]
fn resolutions_are_recorded() {
    let plugin = direct_plugin();
    let user = user("u", vec![("memberof", vec!["cn=a", "cn=b"]), ("uid", vec!["alice"])]);
    let record = record_resolve_outcome(&plugin.map_outcome(BindOutcome::Authenticated(user)));
    assert_eq!(record.outcome, "resolved");
    assert!(matches!(
        record.event,
        ResolveEvent::Resolved { subject, roles: 2 } if subject == "alice"
    ));
    let record = record_resolve_outcome(&IdentityResolution::Absent);
    assert_eq!(record.outcome, "none");
    assert!(matches!(record.event, ResolveEvent::FallThrough));
    let record = record_resolve_outcome(&plugin.map_outcome(BindOutcome::BadCredentials));
    assert_eq!(record.outcome, "invalid");
    assert!(matches!(
        record.event,
        ResolveEvent::Rejected { reason } if reason == "invalid username or password"
    ));
}
