# LDAP identity

Identity from an LDAP directory or Active Directory, for the mcpg gateway
(`dev.mcpg.identity.ldap`). A caller's identity is resolved from an
`Authorization: Basic` header by binding to the directory as the caller: the
directory verifies the password, and the caller's group memberships become
groups and roles of the identity.

## Layout

- `src/` is the verified library. It holds every decision: the configuration and
  its checks, the parsing of the header, the escaping of user names, the
  exchange with the directory step by step, and the projection of a directory
  entry to an identity. It does no input or output.
- `src/laws.rs` and the functions named `law_...` in the other modules state what
  holds of the library as a whole, for every request and every directory.
- `tests/` runs the library on concrete values.
- `app/` is the plugin around the library: JSON, LDAP over the network, logging,
  metrics, and the gateway's plugin interface.

## How a request is resolved

1. `header::parse_basic` reads the user name and the password. A request without
   a Basic credential falls through to other resolvers; one with a malformed
   credential, an empty user name or an empty password is rejected before the
   directory is asked.
2. `LdapIdentityPlugin::authenticate` begins a `session::Session`. In `direct`
   mode the caller's DN comes from a template; in `search` mode a service account
   searches for it. The user name is escaped by RFC 4514 in a DN and by RFC 4515
   in a filter.
3. `Session::action` names the operation that is due, and `Session::advance`
   takes in what it returned, until `Session::finish` has an outcome.
4. `LdapIdentityPlugin::map_outcome` makes the answer: an identity, or a
   rejection that does not tell a wrong password from an unknown user.

## Configuration

| Field | Default | Meaning |
|---|---|---|
| `url` | required | `ldap://host:389` or `ldaps://host:636` |
| `bind` | required | `mode: direct` with `user_dn_template` and, optionally, `groups_base_dn`; or `mode: search` with `bind_dn`, `bind_password`, `base_dn` and `user_filter` |
| `group_attribute` | `memberOf` | the attribute that holds group DNs |
| `roles_from_group_cn` | `true` | whether the value of each group DN's first RDN becomes a role; an escaped comma does not end the RDN, and escapes stay as they are written |
| `subject_attribute` | the bound DN | the attribute whose first value is the subject |
| `attributes` | none | further attributes whose first values go onto the identity |
| `size_limit` | `100` | the most groups, and so roles |
| `timeout_ms` | `10000` | the time limit of connect, bind and search |
| `resolution.trust_level` | `verified` | `verified` or `header_asserted` |
| `resolution.auth_provider_label` | `ldap` | the provider label |
