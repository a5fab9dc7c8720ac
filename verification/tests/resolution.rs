use idres::model::AccountRecord;
use idres::model::GroupEntry;
use idres::model::GroupRecord;
use idres::model::IdentityError;
use idres::resolver::group_name;
use idres::resolver::resolve;
use idres::resolver::resolve_with_sources;
use idres::resolver::select_hint;
use idres::resolver::supplementary_groups;

fn account(name: &str, uid: u32, gid: u32) -> AccountRecord {
    AccountRecord { name: name.to_string(), uid, gid }
}

fn group(name: &str, gid: u32, members: &[&str]) -> GroupRecord {
    GroupRecord {
        name: name.to_string(),
        gid,
        members: members.iter().map(|m| m.to_string()).collect(),
    }
}

fn entry(gid: u32, name: &str) -> GroupEntry {
    GroupEntry { gid, name: name.to_string() }
}

#[test]
fn scenario_alice_primary_unknown_supplementary_by_membership() {
    let accounts = vec![account("alice", 1001, 1001)];
    let groups = vec![group("devs", 2000, &["alice", "bob"])];
    let id = resolve("alice", &accounts, &groups).unwrap();
    assert_eq!(id.display_name, "alice");
    assert_eq!(id.uid, 1001);
    assert_eq!(id.primary_group, entry(1001, "unknown"));
    assert_eq!(id.supplementary_groups, vec![entry(2000, "devs")]);
}

#[test]
fn scenario_bob_primary_group_listed_by_gid_match() {
    let accounts = vec![account("bob", 1002, 1001)];
    let groups = vec![group("staff", 1001, &[])];
    let id = resolve("bob", &accounts, &groups).unwrap();
    assert_eq!(id.uid, 1002);
    assert_eq!(id.primary_group, entry(1001, "staff"));
    assert_eq!(id.supplementary_groups, vec![entry(1001, "staff")]);
}

#[test]
fn scenario_empty_hint_fails_with_no_identity_hint() {
    let accounts = vec![account("alice", 1001, 1001)];
    let groups = vec![group("devs", 2000, &["alice"])];
    let err = resolve("", &accounts, &groups).unwrap_err();
    assert_eq!(err, IdentityError::NoIdentityHint);
}

#[test]
fn scenario_unknown_hint_fails_with_account_not_found() {
    let accounts = vec![account("alice", 1001, 1001)];
    let groups: Vec<GroupRecord> = Vec::new();
    let err = resolve("carol", &accounts, &groups).unwrap_err();
    assert_eq!(err, IdentityError::AccountNotFound { hint: "carol".to_string() });
}

#[test]
fn resolving_twice_yields_identical_results() {
    let accounts = vec![account("alice", 1001, 1001), account("bob", 1002, 1001)];
    let groups = vec![group("staff", 1001, &[]), group("devs", 2000, &["alice", "bob"])];
    let first = resolve("bob", &accounts, &groups);
    let second = resolve("bob", &accounts, &groups);
    assert_eq!(first, second);
}

#[test]
fn first_account_with_duplicate_name_wins() {
    let accounts = vec![account("alice", 1001, 1001), account("alice", 9999, 42)];
    let groups: Vec<GroupRecord> = Vec::new();
    let id = resolve("alice", &accounts, &groups).unwrap();
    assert_eq!(id.uid, 1001);
    assert_eq!(id.primary_group.gid, 1001);
}

#[test]
fn membership_includes_exactly_matching_groups() {
    let groups = vec![
        group("bygid", 500, &[]),
        group("bylist", 600, &["dana", "erin"]),
        group("neither", 700, &["frank"]),
        group("both", 500, &["dana"]),
    ];
    let name = "dana".to_string();
    let entries = supplementary_groups(&name, 500, &groups);
    assert_eq!(
        entries,
        vec![entry(500, "bygid"), entry(600, "bylist"), entry(500, "both")]
    );
}

#[test]
fn primary_group_miss_degrades_to_unknown_sentinel() {
    let accounts = vec![account("alice", 1001, 1234)];
    let groups = vec![group("devs", 2000, &["alice"])];
    let id = resolve("alice", &accounts, &groups).unwrap();
    assert_eq!(id.primary_group, entry(1234, "unknown"));
    assert_eq!(id.supplementary_groups, vec![entry(2000, "devs")]);
}

#[test]
fn empty_group_table_still_resolves() {
    let accounts = vec![account("alice", 1001, 1001)];
    let groups: Vec<GroupRecord> = Vec::new();
    let id = resolve("alice", &accounts, &groups).unwrap();
    assert_eq!(id.uid, 1001);
    assert_eq!(id.primary_group, entry(1001, "unknown"));
    assert!(id.supplementary_groups.is_empty());
}

#[test]
fn group_name_finds_first_matching_gid() {
    let groups = vec![group("one", 10, &[]), group("two", 20, &[]), group("shadow", 10, &[])];
    assert_eq!(group_name(10, &groups), "one");
    assert_eq!(group_name(20, &groups), "two");
}

#[test]
fn group_name_without_match_is_unknown() {
    let groups = vec![group("one", 10, &[])];
    assert_eq!(group_name(99, &groups), "unknown");
}

#[test]
fn select_hint_takes_first_non_empty_source() {
    let sources = vec!["".to_string(), "logname".to_string(), "username".to_string()];
    assert_eq!(select_hint(&sources), Some("logname".to_string()));
}

#[test]
fn select_hint_with_all_sources_empty_is_none() {
    let sources = vec!["".to_string(), "".to_string()];
    assert_eq!(select_hint(&sources), None);
    assert_eq!(select_hint(&Vec::new()), None);
}

#[test]
fn resolve_with_sources_uses_fallback_order() {
    let accounts = vec![account("alice", 1001, 1001), account("bob", 1002, 1001)];
    let groups = vec![group("staff", 1001, &[])];
    let sources = vec!["".to_string(), "bob".to_string(), "alice".to_string()];
    let id = resolve_with_sources(&sources, &accounts, &groups).unwrap();
    assert_eq!(id.display_name, "bob");
    assert_eq!(id.uid, 1002);
}

#[test]
fn resolve_with_sources_without_any_hint_fails() {
    let accounts = vec![account("alice", 1001, 1001)];
    let groups: Vec<GroupRecord> = Vec::new();
    let err = resolve_with_sources(&Vec::new(), &accounts, &groups).unwrap_err();
    assert_eq!(err, IdentityError::NoIdentityHint);
}

#[test]
fn resolve_against_empty_account_table_reports_the_hint() {
    let accounts: Vec<AccountRecord> = Vec::new();
    let groups = vec![group("devs", 2000, &["alice"])];
    let err = resolve("alice", &accounts, &groups).unwrap_err();
    assert_eq!(err, IdentityError::AccountNotFound { hint: "alice".to_string() });
}

#[test]
fn malformed_account_line_is_invisible_to_resolution() {
    let accounts = idres::reader::parse_accounts("alice:x:oops:1001:Alice\nbob:x:1002:1001\n");
    let groups = idres::reader::parse_groups("staff:x:1001:\n");
    let err = resolve("alice", &accounts, &groups).unwrap_err();
    assert_eq!(err, IdentityError::AccountNotFound { hint: "alice".to_string() });
    let id = resolve("bob", &accounts, &groups).unwrap();
    assert_eq!(id.uid, 1002);
    assert_eq!(id.primary_group, entry(1001, "staff"));
}

#[test]
fn supplementary_groups_preserve_table_order() {
    let groups = vec![
        group("z", 3, &["gail"]),
        group("a", 1, &["gail"]),
        group("m", 2, &["gail"]),
    ];
    let name = "gail".to_string();
    let entries = supplementary_groups(&name, 999, &groups);
    assert_eq!(entries, vec![entry(3, "z"), entry(1, "a"), entry(2, "m")]);
}
