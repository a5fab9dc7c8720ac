use idres::model::AccountRecord;
use idres::model::GroupRecord;
use idres::reader::parse_account_line;
use idres::reader::parse_accounts;
use idres::reader::parse_group_line;
use idres::reader::parse_groups;
use idres::text::parse_u32;
use idres::text::split_on;

#[test]
fn account_line_with_four_fields_parses() {
    let rec = parse_account_line("alice:x:1001:1001:Alice:/home/alice:/bin/sh").unwrap();
    assert_eq!(rec.name, "alice");
    assert_eq!(rec.uid, 1001);
    assert_eq!(rec.gid, 1001);
}

#[test]
fn account_line_with_too_few_fields_is_skipped() {
    assert_eq!(parse_account_line("alice:x:1001"), None);
    assert_eq!(parse_account_line(""), None);
    assert_eq!(parse_account_line("justaname"), None);
}

#[test]
fn account_line_with_bad_numbers_is_skipped() {
    assert_eq!(parse_account_line("alice:x:not-a-number:1001"), None);
    assert_eq!(parse_account_line("alice:x:1001:bad"), None);
    assert_eq!(parse_account_line("alice:x::1001"), None);
}

#[test]
fn accounts_file_skips_malformed_lines_and_keeps_order() {
    let content = "alice:x:1001:1001:Alice\n\
                   broken line\n\
                   bob:x:1002:1001:Bob\n\
                   carol:x:bad:3000\n\
                   dave:x:1004:1004\n";
    let table = parse_accounts(content);
    let names: Vec<String> = table.iter().map(|a| a.name.clone()).collect();
    assert_eq!(names, vec!["alice", "bob", "dave"]);
    assert_eq!(table[1].uid, 1002);
}

#[test]
fn empty_account_file_yields_empty_table() {
    let table = parse_accounts("");
    assert!(table.is_empty());
}

#[test]
fn group_line_with_members_parses() {
    let rec = parse_group_line("devs:x:2000:alice,bob").unwrap();
    assert_eq!(rec.name, "devs");
    assert_eq!(rec.gid, 2000);
    assert_eq!(rec.members, vec!["alice", "bob"]);
}

#[test]
fn group_line_with_empty_member_field_has_no_members() {
    let rec = parse_group_line("staff:x:1001:").unwrap();
    assert_eq!(rec.name, "staff");
    assert_eq!(rec.gid, 1001);
    assert!(rec.members.is_empty());
}

#[test]
fn group_line_with_bad_gid_is_skipped() {
    assert_eq!(parse_group_line("devs:x:20x0:alice"), None);
    assert_eq!(parse_group_line("devs:x::alice"), None);
}

#[test]
fn groups_file_parses_line_by_line() {
    let content = "root:x:0:\nshort:line\ndevs:x:2000:alice,bob\n";
    let table = parse_groups(content);
    assert_eq!(table.len(), 2);
    assert_eq!(table[0].name, "root");
    assert_eq!(table[0].gid, 0);
    assert!(table[0].members.is_empty());
    assert_eq!(table[1].members, vec!["alice", "bob"]);
}

#[test]
fn empty_group_file_yields_empty_table() {
    let table: Vec<GroupRecord> = parse_groups("");
    assert!(table.is_empty());
}

#[test]
fn carriage_returns_at_line_ends_are_tolerated() {
    let accounts: Vec<AccountRecord> = parse_accounts("alice:x:1001:1001:Alice\r\nbob:x:1002:1001\r\n");
    assert_eq!(accounts.len(), 2);
    assert_eq!(accounts[0].name, "alice");
    assert_eq!(accounts[1].gid, 1001);
}

#[test]
fn file_without_trailing_newline_parses_last_line() {
    let table = parse_accounts("alice:x:1001:1001");
    assert_eq!(table.len(), 1);
    assert_eq!(table[0].uid, 1001);
}

#[test]
fn parse_u32_reads_plain_decimal_numbers() {
    assert_eq!(parse_u32("0"), Some(0));
    assert_eq!(parse_u32("1001"), Some(1001));
    assert_eq!(parse_u32("007"), Some(7));
    assert_eq!(parse_u32("4294967295"), Some(u32::MAX));
}

#[test]
fn parse_u32_rejects_non_numerals() {
    assert_eq!(parse_u32(""), None);
    assert_eq!(parse_u32("12a"), None);
    assert_eq!(parse_u32("-5"), None);
    assert_eq!(parse_u32(" 5"), None);
}

#[test]
fn parse_u32_accepts_one_leading_plus_sign() {
    assert_eq!(parse_u32("+7"), Some(7));
    assert_eq!(parse_u32("+"), None);
    assert_eq!(parse_u32("++7"), None);
    assert_eq!(parse_u32("7+"), None);
}

#[test]
fn parse_u32_rejects_values_out_of_range() {
    assert_eq!(parse_u32("4294967296"), None);
    assert_eq!(parse_u32("99999999999999999999"), None);
}

#[test]
fn split_on_keeps_empty_fields() {
    assert_eq!(split_on("a:b::c", ':'), vec!["a", "b", "", "c"]);
    assert_eq!(split_on("", ':'), vec![""]);
    assert_eq!(split_on(":", ':'), vec!["", ""]);
    assert_eq!(split_on("alice,bob", ','), vec!["alice", "bob"]);
}
