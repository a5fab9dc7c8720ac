//! The data model: account and group records as parsed from the databases,
//! the resolved identity handed to the presentation layer, and the error
//! taxonomy of resolution. Each executable type has a mathematical view
//! that the contracts speak of.

use vstd::prelude::*;

verus! {

/// One line of the account database: the login name, the numeric user id,
/// and the numeric id of the account's primary group.
#[derive(Debug, PartialEq, Eq)]
pub struct AccountRecord {
    pub name: String,
    pub uid: u32,
    pub gid: u32,
}

/// The mathematical view of an `AccountRecord`.
#[verifier::ext_equal]
pub struct SpecAccountRecord {
    pub name: Seq<char>,
    pub uid: u32,
    pub gid: u32,
}

impl View for AccountRecord {
    type V = SpecAccountRecord;

    open spec fn view(&self) -> SpecAccountRecord {
        SpecAccountRecord { name: self.name@, uid: self.uid, gid: self.gid }
    }
}

/// One line of the group database: the group name, the numeric group id,
/// and the login names explicitly listed as members.
#[derive(Debug, PartialEq, Eq)]
pub struct GroupRecord {
    pub name: String,
    pub gid: u32,
    pub members: Vec<String>,
}

/// The mathematical view of a `GroupRecord`.
#[verifier::ext_equal]
pub struct SpecGroupRecord {
    pub name: Seq<char>,
    pub gid: u32,
    pub members: Seq<Seq<char>>,
}

impl View for GroupRecord {
    type V = SpecGroupRecord;

    open spec fn view(&self) -> SpecGroupRecord {
        SpecGroupRecord {
            name: self.name@,
            gid: self.gid,
            members: self.members@.map_values(|m: String| m@),
        }
    }
}

/// A group as reported in a resolved identity: its id and its name.
#[derive(Debug, PartialEq, Eq)]
pub struct GroupEntry {
    pub gid: u32,
    pub name: String,
}

/// The mathematical view of a `GroupEntry`.
#[verifier::ext_equal]
pub struct SpecGroupEntry {
    pub gid: u32,
    pub name: Seq<char>,
}

impl View for GroupEntry {
    type V = SpecGroupEntry;

    open spec fn view(&self) -> SpecGroupEntry {
        SpecGroupEntry { gid: self.gid, name: self.name@ }
    }
}

/// The fully resolved identity of an account: its display name, its user
/// id, its primary group, and every group it belongs to, in database order.
#[derive(Debug, PartialEq, Eq)]
pub struct ResolvedIdentity {
    pub display_name: String,
    pub uid: u32,
    pub primary_group: GroupEntry,
    pub supplementary_groups: Vec<GroupEntry>,
}

/// The mathematical view of a `ResolvedIdentity`.
#[verifier::ext_equal]
pub struct SpecResolvedIdentity {
    pub display_name: Seq<char>,
    pub uid: u32,
    pub primary_group: SpecGroupEntry,
    pub supplementary_groups: Seq<SpecGroupEntry>,
}

impl View for ResolvedIdentity {
    type V = SpecResolvedIdentity;

    open spec fn view(&self) -> SpecResolvedIdentity {
        SpecResolvedIdentity {
            display_name: self.display_name@,
            uid: self.uid,
            primary_group: self.primary_group@,
            supplementary_groups: self.supplementary_groups@.map_values(|e: GroupEntry| e@),
        }
    }
}

/// Why resolution failed: no usable identity hint could be obtained, or a
/// hint was obtained but names no record in the account table.
#[derive(Debug, PartialEq, Eq)]
pub enum IdentityError {
    NoIdentityHint,
    AccountNotFound { hint: String },
}

/// The mathematical view of an `IdentityError`.
#[verifier::ext_equal]
pub enum SpecIdentityError {
    NoIdentityHint,
    AccountNotFound { hint: Seq<char> },
}

impl View for IdentityError {
    type V = SpecIdentityError;

    open spec fn view(&self) -> SpecIdentityError {
        match self {
            IdentityError::NoIdentityHint => SpecIdentityError::NoIdentityHint,
            IdentityError::AccountNotFound { hint } => (SpecIdentityError::AccountNotFound {
                hint: hint@,
            }),
        }
    }
}

/// The views of a sequence of account records.
pub open spec fn accounts_view(s: Seq<AccountRecord>) -> Seq<SpecAccountRecord> {
    s.map_values(|a: AccountRecord| a@)
}

/// The views of a sequence of group records.
pub open spec fn groups_view(s: Seq<GroupRecord>) -> Seq<SpecGroupRecord> {
    s.map_values(|g: GroupRecord| g@)
}

/// The views of a sequence of group entries.
pub open spec fn entries_view(s: Seq<GroupEntry>) -> Seq<SpecGroupEntry> {
    s.map_values(|e: GroupEntry| e@)
}

/// The views of a sequence of strings.
pub open spec fn strings_view(s: Seq<String>) -> Seq<Seq<char>> {
    s.map_values(|x: String| x@)
}

/// The view of a resolution outcome.
pub open spec fn outcome_view(r: Result<ResolvedIdentity, IdentityError>) -> Result<
    SpecResolvedIdentity,
    SpecIdentityError,
> {
    match r {
        Ok(id) => Ok(id@),
        Err(e) => Err(e@),
    }
}

/// The view of an optional account record.
pub open spec fn opt_account_view(r: Option<AccountRecord>) -> Option<SpecAccountRecord> {
    match r {
        Some(a) => Some(a@),
        None => None,
    }
}

/// The view of an optional group record.
pub open spec fn opt_group_view(r: Option<GroupRecord>) -> Option<SpecGroupRecord> {
    match r {
        Some(g) => Some(g@),
        None => None,
    }
}

/// The view of an optional string.
pub open spec fn opt_string_view(r: Option<String>) -> Option<Seq<char>> {
    match r {
        Some(s) => Some(s@),
        None => None,
    }
}

} // verus!
