use mcpg_plugin_identity_ldap::ldap::{
    group_dn_to_role, lower_attrs, read_entry, search_one, try_bind, BindAttempt, FindUser,
    SearchReply,
};

#[test]
fn role_from_group_dn() {
    assert_eq!(
        group_dn_to_role("cn=Admins,ou=Groups,dc=example,dc=org").as_deref(),
        Some("Admins")
    );
    assert_eq!(
        group_dn_to_role("CN=Domain Users,CN=Users,DC=corp").as_deref(),
        Some("Domain Users")
    );
}

#[test]
fn role_from_malformed_dn_is_none() {
    assert_eq!(group_dn_to_role(""), None);
    assert_eq!(group_dn_to_role("not-a-dn"), None);
    assert_eq!(group_dn_to_role("cn=,ou=x"), None);
}

#[test]
fn role_is_the_trimmed_value_of_the_first_rdn() {
    assert_eq!(group_dn_to_role("cn= \u{a0}Ops \t,ou=x").as_deref(), Some("Ops"));
    assert_eq!(group_dn_to_role("cn=a=b,ou=x").as_deref(), Some("a=b"));
    assert_eq!(group_dn_to_role("cn=Admins").as_deref(), Some("Admins"));
    assert_eq!(group_dn_to_role("=x").as_deref(), Some("x"));
    assert_eq!(group_dn_to_role("cn=   ,ou=x"), None);
    assert_eq!(group_dn_to_role(",cn=x"), None);
    assert_eq!(group_dn_to_role("nocn,cn=x"), None);
    assert_eq!(group_dn_to_role("cn=\u{dc}ber,ou=x").as_deref(), Some("\u{dc}ber"));
}

#[test]
fn an_escaped_comma_does_not_end_the_first_rdn() {
    assert_eq!(
        group_dn_to_role("cn=Smith\\, John,ou=Groups,dc=x").as_deref(),
        Some("Smith\\, John")
    );
    assert_eq!(
        group_dn_to_role("cn=Smith\\, Jane,ou=Groups,dc=x").as_deref(),
        Some("Smith\\, Jane")
    );
    assert_eq!(group_dn_to_role("cn=a\\2c b,ou=x").as_deref(), Some("a\\2c b"));
    // An escaped backslash leaves the comma behind it as it is.
    assert_eq!(group_dn_to_role("cn=a\\\\,ou=x").as_deref(), Some("a\\\\"));
    assert_eq!(group_dn_to_role("cn=a\\\\\\,b,ou=x").as_deref(), Some("a\\\\\\,b"));
    assert_eq!(group_dn_to_role("cn=\\,").as_deref(), Some("\\,"));
    assert_eq!(group_dn_to_role("cn=a\\").as_deref(), Some("a\\"));
    assert_eq!(group_dn_to_role("a\\,b,cn=x"), None);
}

#[test]
fn escaped_white_space_belongs_to_the_value() {
    assert_eq!(group_dn_to_role("cn=Ops\\ ,ou=x").as_deref(), Some("Ops\\ "));
    assert_eq!(group_dn_to_role("cn=Ops\\   ,ou=x").as_deref(), Some("Ops\\ "));
    assert_eq!(group_dn_to_role("cn= \\ Ops ,ou=x").as_deref(), Some("\\ Ops"));
    assert_eq!(group_dn_to_role("cn=Ops\\\\ ,ou=x").as_deref(), Some("Ops\\\\"));
    assert_eq!(group_dn_to_role("cn=\\ ,ou=x").as_deref(), Some("\\ "));
}

#[test]
fn an_escaped_value_gives_its_whole_role() {
    for text in ["Admins", "Smith, John", "a=b+c", "back\\slash", " lead", "trail "] {
        let value = ldap3::dn_escape(text);
        assert_eq!(
            group_dn_to_role(&format!("cn={value},ou=x")).as_deref(),
            Some(value.as_ref())
        );
    }
}

#[test]
fn a_bind_is_accepted_by_result_code_zero_alone() {
    assert!(matches!(try_bind(Ok(0)), BindAttempt::Accepted));
    assert!(matches!(try_bind(Ok(49)), BindAttempt::Rejected));
    assert!(matches!(try_bind(Ok(1)), BindAttempt::Rejected));
    assert!(matches!(try_bind(Err("reset".into())), BindAttempt::Transport(e) if e == "reset"));
}

#[test]
fn a_read_takes_the_first_entry_or_none() {
    assert_eq!(read_entry(SearchReply::Entries(vec![7, 8])), Some(7));
    assert_eq!(read_entry(SearchReply::Entries(vec![7])), Some(7));
    assert_eq!(read_entry::<i32>(SearchReply::Entries(vec![])), None);
    assert_eq!(read_entry::<i32>(SearchReply::Failed("x".into())), None);
    assert_eq!(read_entry::<i32>(SearchReply::Denied("x".into())), None);
}

#[test]
fn a_search_for_a_user_wants_exactly_one_entry() {
    assert!(matches!(search_one(SearchReply::Entries(vec![7])), FindUser::Found(7)));
    assert!(matches!(search_one::<i32>(SearchReply::Entries(vec![])), FindUser::NotFound));
    assert!(matches!(search_one(SearchReply::Entries(vec![7, 8])), FindUser::Ambiguous));
    assert!(matches!(search_one(SearchReply::Entries(vec![7, 8, 9])), FindUser::Ambiguous));
    assert!(matches!(
        search_one::<i32>(SearchReply::Failed("timeout".into())),
        FindUser::Error(e) if e == "user search failed: timeout"
    ));
    assert!(matches!(
        search_one::<i32>(SearchReply::Denied("rc=32".into())),
        FindUser::Error(e) if e == "user search rejected: rc=32"
    ));
}

#[test]
fn attribute_names_are_lowered_and_the_last_one_counts() {
    let attrs = lower_attrs(vec![
        ("memberOf".into(), vec!["a".into(), "b".into()]),
        ("Mail".into(), vec!["1".into()]),
        ("MAIL".into(), vec!["2".into()]),
    ]);
    assert_eq!(attrs.get("memberof"), Some(&vec!["a".to_string(), "b".to_string()]));
    assert_eq!(attrs.get("mail"), Some(&vec!["2".to_string()]));
    assert_eq!(attrs.get("memberOf"), None);
    assert_eq!(attrs.into_entries().len(), 2);
}
