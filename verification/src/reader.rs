//! The database reader: parses the newline-delimited, colon-separated
//! account and group tables into in-memory records. Parsing is best-effort
//! and line-oriented: a line with too few fields, or whose numeric fields
//! do not read as unsigned integers, is skipped; it never aborts a load.
//! The caller hands in the file's text, so an unreadable file is simply an
//! empty table.

use vstd::prelude::*;
use vstd::string::StrSliceExecFns;

use crate::model::AccountRecord;
use crate::model::GroupRecord;
use crate::model::SpecAccountRecord;
use crate::model::SpecGroupRecord;
use crate::model::opt_account_view;
use crate::model::opt_group_view;
use crate::model::accounts_view;
use crate::model::groups_view;
use crate::text::spec_split;
use crate::text::spec_parse_u32;
use crate::text::split_on;
use crate::text::parse_u32;

verus! {

/// `line` with a single trailing carriage return removed, so that tables
/// written with CRLF line endings read the same as LF ones.
pub open spec fn spec_trim_cr(line: Seq<char>) -> Seq<char> {
    if line.len() > 0 && line.last() == '\r' {
        line.drop_last()
    } else {
        line
    }
}

/// Drops a single trailing carriage return, as `spec_trim_cr` describes.
pub fn trim_cr<'a>(line: &'a str) -> (r: &'a str)
    ensures
        r@ == spec_trim_cr(line@),
{
    let n = line.unicode_len();
    if n > 0 {
        let c = line.get_char(n - 1);
        if c == '\r' {
            let r = line.substring_char(0, n - 1);
            proof {
                assert(line@.subrange(0, n - 1) =~= line@.drop_last());
            }
            return r;
        }
    }
    line
}

/// What one account line parses to: field 0 is the name, field 2 the user
/// id, field 3 the primary group id. A line with fewer than four fields, or
/// whose id fields are not unsigned decimal numbers, parses to nothing.
pub open spec fn spec_parse_account_line(line: Seq<char>) -> Option<SpecAccountRecord> {
    let fields = spec_split(line, ':');
    if fields.len() < 4 {
        None
    } else if spec_parse_u32(fields[2]) is Some && spec_parse_u32(fields[3]) is Some {
        Some(
            SpecAccountRecord {
                name: fields[0],
                uid: spec_parse_u32(fields[2]).unwrap(),
                gid: spec_parse_u32(fields[3]).unwrap(),
            },
        )
    } else {
        None
    }
}

/// The member-list field split at commas; an empty field means no members.
pub open spec fn spec_member_list(field: Seq<char>) -> Seq<Seq<char>> {
    if field.len() == 0 {
        Seq::empty()
    } else {
        spec_split(field, ',')
    }
}

/// What one group line parses to: field 0 is the name, field 2 the group
/// id, field 3 the comma-separated member list. A line with fewer than four
/// fields, or whose id field is not an unsigned decimal number, parses to
/// nothing.
pub open spec fn spec_parse_group_line(line: Seq<char>) -> Option<SpecGroupRecord> {
    let fields = spec_split(line, ':');
    if fields.len() < 4 {
        None
    } else if spec_parse_u32(fields[2]) is Some {
        Some(
            SpecGroupRecord {
                name: fields[0],
                gid: spec_parse_u32(fields[2]).unwrap(),
                members: spec_member_list(fields[3]),
            },
        )
    } else {
        None
    }
}

/// Parses one account line, as `spec_parse_account_line` describes.
pub fn parse_account_line(line: &str) -> (r: Option<AccountRecord>)
    ensures
        opt_account_view(r) == spec_parse_account_line(line@),
{
    let fields = split_on(line, ':');
    proof {
        assert(fields@.map_values(|p: String| p@) == spec_split(line@, ':'));
    }
    if fields.len() < 4 {
        return None;
    }
    proof {
        assert(fields@.map_values(|p: String| p@)[2] == fields@[2]@);
        assert(fields@.map_values(|p: String| p@)[3] == fields@[3]@);
        assert(fields@.map_values(|p: String| p@)[0] == fields@[0]@);
    }
    let uid = match parse_u32(fields[2].as_str()) {
        Some(u) => u,
        None => {
            return None;
        },
    };
    let gid = match parse_u32(fields[3].as_str()) {
        Some(g) => g,
        None => {
            return None;
        },
    };
    let name = fields[0].clone();
    Some(AccountRecord { name, uid, gid })
}

/// Parses one group line, as `spec_parse_group_line` describes.
pub fn parse_group_line(line: &str) -> (r: Option<GroupRecord>)
    ensures
        opt_group_view(r) == spec_parse_group_line(line@),
{
    let fields = split_on(line, ':');
    proof {
        assert(fields@.map_values(|p: String| p@) == spec_split(line@, ':'));
    }
    if fields.len() < 4 {
        return None;
    }
    proof {
        assert(fields@.map_values(|p: String| p@)[2] == fields@[2]@);
        assert(fields@.map_values(|p: String| p@)[3] == fields@[3]@);
        assert(fields@.map_values(|p: String| p@)[0] == fields@[0]@);
    }
    let gid = match parse_u32(fields[2].as_str()) {
        Some(g) => g,
        None => {
            return None;
        },
    };
    let members: Vec<String> = if fields[3].as_str().is_empty() {
        Vec::new()
    } else {
        split_on(fields[3].as_str(), ',')
    };
    proof {
        assert(members@.map_values(|m: String| m@) =~= spec_member_list(fields@[3]@));
    }
    let name = fields[0].clone();
    Some(GroupRecord { name, gid, members })
}

/// The account records of a sequence of lines, in order, lines that do not
/// parse skipped. Each line is taken with a trailing carriage return
/// removed.
pub open spec fn spec_accounts_of_lines(lines: Seq<Seq<char>>) -> Seq<SpecAccountRecord>
    decreases lines.len(),
{
    if lines.len() == 0 {
        Seq::empty()
    } else {
        let rest = spec_accounts_of_lines(lines.drop_first());
        match spec_parse_account_line(spec_trim_cr(lines[0])) {
            Some(a) => seq![a] + rest,
            None => rest,
        }
    }
}

/// The group records of a sequence of lines, in order, lines that do not
/// parse skipped. Each line is taken with a trailing carriage return
/// removed.
pub open spec fn spec_groups_of_lines(lines: Seq<Seq<char>>) -> Seq<SpecGroupRecord>
    decreases lines.len(),
{
    if lines.len() == 0 {
        Seq::empty()
    } else {
        let rest = spec_groups_of_lines(lines.drop_first());
        match spec_parse_group_line(spec_trim_cr(lines[0])) {
            Some(g) => seq![g] + rest,
            None => rest,
        }
    }
}

/// What a whole account file parses to: its newline-separated lines, each
/// parsed as an account line.
pub open spec fn spec_parse_accounts(content: Seq<char>) -> Seq<SpecAccountRecord> {
    spec_accounts_of_lines(spec_split(content, '\n'))
}

/// What a whole group file parses to: its newline-separated lines, each
/// parsed as a group line.
pub open spec fn spec_parse_groups(content: Seq<char>) -> Seq<SpecGroupRecord> {
    spec_groups_of_lines(spec_split(content, '\n'))
}

proof fn lemma_accounts_of_lines_step(lines: Seq<Seq<char>>, i: int)
    requires
        0 <= i < lines.len(),
    ensures
        spec_accounts_of_lines(lines.subrange(i, lines.len() as int)) == (match spec_parse_account_line(
            spec_trim_cr(lines[i]),
        ) {
            Some(a) => seq![a] + spec_accounts_of_lines(lines.subrange(i + 1, lines.len() as int)),
            None => spec_accounts_of_lines(lines.subrange(i + 1, lines.len() as int)),
        }),
{
    let t = lines.subrange(i, lines.len() as int);
    assert(t[0] == lines[i]);
    assert(t.drop_first() =~= lines.subrange(i + 1, lines.len() as int));
}

proof fn lemma_groups_of_lines_step(lines: Seq<Seq<char>>, i: int)
    requires
        0 <= i < lines.len(),
    ensures
        spec_groups_of_lines(lines.subrange(i, lines.len() as int)) == (match spec_parse_group_line(
            spec_trim_cr(lines[i]),
        ) {
            Some(g) => seq![g] + spec_groups_of_lines(lines.subrange(i + 1, lines.len() as int)),
            None => spec_groups_of_lines(lines.subrange(i + 1, lines.len() as int)),
        }),
{
    let t = lines.subrange(i, lines.len() as int);
    assert(t[0] == lines[i]);
    assert(t.drop_first() =~= lines.subrange(i + 1, lines.len() as int));
}

/// Parses a whole account file, as `spec_parse_accounts` describes: one
/// record per well-formed line, in file order, malformed lines skipped.
pub fn parse_accounts(content: &str) -> (r: Vec<AccountRecord>)
    ensures
        accounts_view(r@) == spec_parse_accounts(content@),
{
    let lines = split_on(content, '\n');
    let ghost line_views = lines@.map_values(|l: String| l@);
    let mut out: Vec<AccountRecord> = Vec::new();
    let mut i: usize = 0;
    proof {
        assert(line_views.subrange(0, line_views.len() as int) =~= line_views);
        assert(accounts_view(out@) + spec_accounts_of_lines(line_views) =~= spec_accounts_of_lines(
            line_views,
        ));
    }
    while i < lines.len()
        invariant
            lines@.map_values(|l: String| l@) == line_views,
            line_views == spec_split(content@, '\n'),
            i <= lines.len(),
            spec_parse_accounts(content@) == accounts_view(out@) + spec_accounts_of_lines(
                line_views.subrange(i as int, line_views.len() as int),
            ),
        decreases lines.len() - i,
    {
        proof {
            assert(line_views[i as int] == lines@[i as int]@);
            lemma_accounts_of_lines_step(line_views, i as int);
        }
        let trimmed = trim_cr(lines[i].as_str());
        let parsed = parse_account_line(trimmed);
        match parsed {
            Some(rec) => {
                proof {
                    assert(accounts_view(out@.push(rec)) =~= accounts_view(out@).push(rec@));
                    assert(accounts_view(out@).push(rec@) + spec_accounts_of_lines(
                        line_views.subrange(i + 1, line_views.len() as int),
                    ) =~= accounts_view(out@) + (seq![rec@] + spec_accounts_of_lines(
                        line_views.subrange(i + 1, line_views.len() as int),
                    )));
                }
                out.push(rec);
            },
            None => {},
        }
        i += 1;
    }
    proof {
        assert(line_views.subrange(lines.len() as int, line_views.len() as int)
            =~= Seq::<Seq<char>>::empty());
        assert(accounts_view(out@) + Seq::<SpecAccountRecord>::empty() =~= accounts_view(out@));
    }
    out
}

/// Parses a whole group file, as `spec_parse_groups` describes: one record
/// per well-formed line, in file order, malformed lines skipped.
pub fn parse_groups(content: &str) -> (r: Vec<GroupRecord>)
    ensures
        groups_view(r@) == spec_parse_groups(content@),
{
    let lines = split_on(content, '\n');
    let ghost line_views = lines@.map_values(|l: String| l@);
    let mut out: Vec<GroupRecord> = Vec::new();
    let mut i: usize = 0;
    proof {
        assert(line_views.subrange(0, line_views.len() as int) =~= line_views);
        assert(groups_view(out@) + spec_groups_of_lines(line_views) =~= spec_groups_of_lines(
            line_views,
        ));
    }
    while i < lines.len()
        invariant
            lines@.map_values(|l: String| l@) == line_views,
            line_views == spec_split(content@, '\n'),
            i <= lines.len(),
            spec_parse_groups(content@) == groups_view(out@) + spec_groups_of_lines(
                line_views.subrange(i as int, line_views.len() as int),
            ),
        decreases lines.len() - i,
    {
        proof {
            assert(line_views[i as int] == lines@[i as int]@);
            lemma_groups_of_lines_step(line_views, i as int);
        }
        let trimmed = trim_cr(lines[i].as_str());
        let parsed = parse_group_line(trimmed);
        match parsed {
            Some(rec) => {
                proof {
                    assert(groups_view(out@.push(rec)) =~= groups_view(out@).push(rec@));
                    assert(groups_view(out@).push(rec@) + spec_groups_of_lines(
                        line_views.subrange(i + 1, line_views.len() as int),
                    ) =~= groups_view(out@) + (seq![rec@] + spec_groups_of_lines(
                        line_views.subrange(i + 1, line_views.len() as int),
                    )));
                }
                out.push(rec);
            },
            None => {},
        }
        i += 1;
    }
    proof {
        assert(line_views.subrange(lines.len() as int, line_views.len() as int)
            =~= Seq::<Seq<char>>::empty());
        assert(groups_view(out@) + Seq::<SpecGroupRecord>::empty() =~= groups_view(out@));
    }
    out
}

} // verus!
