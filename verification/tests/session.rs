use mcpg_plugin_identity_ldap::ldap::{BindAttempt, BindOutcome, DirectoryEntry, FindUser};
use mcpg_plugin_identity_ldap::session::{
    resolve_direct, resolve_search, Action, Reply, Session, ENTRY_FILTER,
};

fn names() -> Vec<String> {
    vec!["memberOf".to_string(), "uid".to_string()]
}

fn direct(groups_base_dn: Option<&str>) -> Session {
    resolve_direct("ldap://h", "uid=a,dc=x", "pw", groups_base_dn, &names(), 300)
}

fn search() -> Session {
    resolve_search(
        "ldap://h",
        "cn=svc",
        "svcpw",
        "ou=people",
        "(uid=a)",
        "pw",
        &names(),
        300,
    )
}

fn entry(dn: &str) -> DirectoryEntry {
    DirectoryEntry {
        dn: dn.to_string(),
        attrs: vec![("UID".to_string(), vec!["a".to_string()])],
    }
}

fn outcome(session: Session) -> BindOutcome {
    match session.finish() {
        Ok(outcome) => outcome,
        Err(_) => panic!("no outcome yet"),
    }
}

fn unavailable(session: Session) -> String {
    match outcome(session) {
        BindOutcome::Unavailable(detail) => detail,
        other => panic!("unexpected: {:?}", other),
    }
}

fn accepted() -> Reply {
    Reply::Bound(BindAttempt::Accepted)
}

fn rejected() -> Reply {
    Reply::Bound(BindAttempt::Rejected)
}

fn broken(detail: &str) -> Reply {
    Reply::Bound(BindAttempt::Transport(detail.to_string()))
}

#[test]
fn a_direct_session_runs_to_an_authenticated_user() {
    let s = direct(None);
    assert_eq!(s.timeout_ms(), 300);
    assert!(matches!(s.action(), Action::Connect { url } if url == "ldap://h"));
    let s = s.advance(Reply::Connected(Ok(())));
    assert!(matches!(
        s.action(),
        Action::Bind { dn, password } if dn == "uid=a,dc=x" && password == "pw"
    ));
    let s = s.advance(accepted());
    assert!(matches!(
        s.action(),
        Action::ReadEntry { base, filter, attrs }
            if base == "uid=a,dc=x" && filter == "(objectClass=*)" && attrs == names()
    ));
    assert_eq!(ENTRY_FILTER, "(objectClass=*)");
    let s = s.advance(Reply::Read(Some(entry("ignored"))));
    assert!(matches!(s.action(), Action::Unbind));
    let s = s.advance(Reply::Unbound);
    assert!(matches!(s.action(), Action::Finish));
    match outcome(s) {
        BindOutcome::Authenticated(user) => {
            assert_eq!(user.dn, "uid=a,dc=x");
            assert_eq!(user.attrs.get("uid"), Some(&vec!["a".to_string()]));
        }
        other => panic!("unexpected: {:?}", other),
    }
}

#[test]
fn a_direct_session_reads_groups_from_the_configured_base() {
    let s = direct(Some("ou=groups"))
        .advance(Reply::Connected(Ok(())))
        .advance(accepted());
    assert!(matches!(s.action(), Action::ReadEntry { base, .. } if base == "ou=groups"));
}

#[test]
fn an_unreadable_entry_authenticates_without_attributes() {
    let s = direct(None)
        .advance(Reply::Connected(Ok(())))
        .advance(accepted())
        .advance(Reply::Read(None))
        .advance(Reply::Unbound);
    match outcome(s) {
        BindOutcome::Authenticated(user) => {
            assert_eq!(user.dn, "uid=a,dc=x");
            assert!(user.attrs.into_entries().is_empty());
        }
        other => panic!("unexpected: {:?}", other),
    }
}

#[test]
fn a_direct_session_fails_closed() {
    let s = direct(None).advance(Reply::Connected(Err("refused".into())));
    assert_eq!(unavailable(s), "connect failed: refused");
    let s = direct(None).advance(Reply::Connected(Ok(()))).advance(broken("reset"));
    assert_eq!(unavailable(s), "reset");
    let s = direct(None).advance(Reply::Connected(Ok(()))).advance(rejected());
    assert!(matches!(outcome(s), BindOutcome::BadCredentials));
}

#[test]
fn a_search_session_binds_the_found_entry_as_the_caller() {
    let s = search();
    assert_eq!(s.timeout_ms(), 300);
    assert!(matches!(s.action(), Action::Connect { url } if url == "ldap://h"));
    let s = s.advance(Reply::Connected(Ok(())));
    assert!(matches!(
        s.action(),
        Action::Bind { dn, password } if dn == "cn=svc" && password == "svcpw"
    ));
    let s = s.advance(accepted());
    assert!(matches!(
        s.action(),
        Action::SearchUser { base, filter, attrs }
            if base == "ou=people" && filter == "(uid=a)" && attrs == names()
    ));
    let s = s.advance(Reply::Searched(FindUser::Found(entry("cn=A,ou=people"))));
    assert!(matches!(
        s.action(),
        Action::Bind { dn, password } if dn == "cn=A,ou=people" && password == "pw"
    ));
    let s = s.advance(accepted());
    assert!(matches!(s.action(), Action::Unbind));
    match outcome(s.advance(Reply::Unbound)) {
        BindOutcome::Authenticated(user) => {
            assert_eq!(user.dn, "cn=A,ou=people");
            assert_eq!(user.attrs.get("uid"), Some(&vec!["a".to_string()]));
        }
        other => panic!("unexpected: {:?}", other),
    }
}

#[test]
fn a_search_session_blames_the_operator_for_the_service_account() {
    let bound = || search().advance(Reply::Connected(Ok(())));
    assert_eq!(unavailable(bound().advance(rejected())), "service-account bind rejected");
    assert_eq!(unavailable(bound().advance(broken("eof"))), "service-account bind: eof");
    let s = search().advance(Reply::Connected(Err("dns".into())));
    assert_eq!(unavailable(s), "connect failed: dns");
}

#[test]
fn a_search_session_ends_with_what_the_search_found() {
    let bound = || search().advance(Reply::Connected(Ok(()))).advance(accepted());
    let s = bound().advance(Reply::Searched(FindUser::NotFound));
    assert!(matches!(outcome(s), BindOutcome::UserNotFound));
    let s = bound().advance(Reply::Searched(FindUser::Ambiguous));
    assert!(matches!(outcome(s), BindOutcome::Ambiguous));
    let s = bound().advance(Reply::Searched(FindUser::Error("user search failed: x".into())));
    assert_eq!(unavailable(s), "user search failed: x");
    let found = || bound().advance(Reply::Searched(FindUser::Found(entry("cn=A"))));
    assert!(matches!(outcome(found().advance(rejected())), BindOutcome::BadCredentials));
    assert_eq!(unavailable(found().advance(broken("eof"))), "eof");
}

#[test]
fn replies_to_other_operations_change_nothing() {
    let s = direct(None).advance(accepted()).advance(Reply::Unbound).advance(Reply::Read(None));
    assert!(matches!(s.action(), Action::Connect { .. }));
    let s = match s.finish() {
        Err(s) => s,
        Ok(_) => panic!("an outcome without a reply"),
    };
    assert!(matches!(s.action(), Action::Connect { .. }));
    let s = search().advance(Reply::Searched(FindUser::Found(entry("cn=A"))));
    assert!(matches!(s.action(), Action::Connect { .. }));
    let s = direct(None).advance(Reply::Connected(Err("e".into()))).advance(accepted());
    assert_eq!(unavailable(s), "connect failed: e");
}
