//! The identity resolver: given an identity hint and the parsed tables, it
//! finds the account (first match wins), names the primary group (degrading
//! to the sentinel `"unknown"` when no group record carries the account's
//! primary group id), and gathers every group the account belongs to —
//! those whose id equals the primary group id and those that list the
//! account by name — in table order.

use vstd::prelude::*;
use vstd::string::StrSliceExecFns;
use vstd::string::StringExecFns;

use crate::model::AccountRecord;
use crate::model::GroupRecord;
use crate::model::GroupEntry;
use crate::model::ResolvedIdentity;
use crate::model::IdentityError;
use crate::model::SpecAccountRecord;
use crate::model::SpecGroupRecord;
use crate::model::SpecGroupEntry;
use crate::model::SpecResolvedIdentity;
use crate::model::SpecIdentityError;
use crate::model::accounts_view;
use crate::model::groups_view;
use crate::model::entries_view;
use crate::model::strings_view;
use crate::model::outcome_view;
use crate::model::opt_string_view;

verus! {

/// The first account record whose name equals `hint`, if any.
pub open spec fn spec_find_account(accounts: Seq<SpecAccountRecord>, hint: Seq<char>) -> Option<
    SpecAccountRecord,
>
    decreases accounts.len(),
{
    if accounts.len() == 0 {
        None
    } else if accounts[0].name == hint {
        Some(accounts[0])
    } else {
        spec_find_account(accounts.drop_first(), hint)
    }
}

/// The name of the first group record whose id equals `gid`, or the
/// sentinel `"unknown"` when there is none.
pub open spec fn spec_group_name(groups: Seq<SpecGroupRecord>, gid: u32) -> Seq<char>
    decreases groups.len(),
{
    if groups.len() == 0 {
        "unknown"@
    } else if groups[0].gid == gid {
        groups[0].name
    } else {
        spec_group_name(groups.drop_first(), gid)
    }
}

/// The account named `name` with primary group id `gid` belongs to group
/// `g`: either `g` carries that id, or the account is listed as a member.
pub open spec fn spec_group_matches(g: SpecGroupRecord, name: Seq<char>, gid: u32) -> bool {
    g.gid == gid || g.members.contains(name)
}

/// The entry under which a group record is reported.
pub open spec fn spec_entry_of(g: SpecGroupRecord) -> SpecGroupEntry {
    SpecGroupEntry { gid: g.gid, name: g.name }
}

/// The groups the account belongs to, in table order, each reported as an
/// id/name entry. The primary group, when present in the table, appears
/// here as well: the list is the full set of the account's groups.
pub open spec fn spec_supplementary_groups(
    groups: Seq<SpecGroupRecord>,
    name: Seq<char>,
    gid: u32,
) -> Seq<SpecGroupEntry>
    decreases groups.len(),
{
    if groups.len() == 0 {
        Seq::empty()
    } else {
        let rest = spec_supplementary_groups(groups.drop_first(), name, gid);
        if spec_group_matches(groups[0], name, gid) {
            seq![spec_entry_of(groups[0])] + rest
        } else {
            rest
        }
    }
}

/// What resolving `hint` against the tables yields. An empty hint fails
/// with `NoIdentityHint` before any lookup; a hint naming no account fails
/// with `AccountNotFound`; otherwise the result carries the account's name
/// and user id, its primary group (name degraded to `"unknown"` when the id
/// is not in the table), and the full list of its groups.
pub open spec fn spec_resolve(
    hint: Seq<char>,
    accounts: Seq<SpecAccountRecord>,
    groups: Seq<SpecGroupRecord>,
) -> Result<SpecResolvedIdentity, SpecIdentityError> {
    if hint.len() == 0 {
        Err(SpecIdentityError::NoIdentityHint)
    } else {
        match spec_find_account(accounts, hint) {
            None => Err(SpecIdentityError::AccountNotFound { hint }),
            Some(account) => Ok(
                SpecResolvedIdentity {
                    display_name: account.name,
                    uid: account.uid,
                    primary_group: SpecGroupEntry {
                        gid: account.gid,
                        name: spec_group_name(groups, account.gid),
                    },
                    supplementary_groups: spec_supplementary_groups(groups, account.name, account.gid),
                },
            )
        }
    }
}

/// The first non-empty hint among the ordered candidate sources, if any.
pub open spec fn spec_select_hint(sources: Seq<Seq<char>>) -> Option<Seq<char>>
    decreases sources.len(),
{
    if sources.len() == 0 {
        None
    } else if sources[0].len() > 0 {
        Some(sources[0])
    } else {
        spec_select_hint(sources.drop_first())
    }
}

/// What resolving against an ordered list of hint sources yields: the
/// first non-empty source is the hint; when every source is empty, no
/// identity can be determined.
pub open spec fn spec_resolve_with_sources(
    sources: Seq<Seq<char>>,
    accounts: Seq<SpecAccountRecord>,
    groups: Seq<SpecGroupRecord>,
) -> Result<SpecResolvedIdentity, SpecIdentityError> {
    match spec_select_hint(sources) {
        Some(hint) => spec_resolve(hint, accounts, groups),
        None => Err(SpecIdentityError::NoIdentityHint),
    }
}

/// First match wins in the account table: if the record at `i` carries the
/// hint's name and no earlier record does, that record — with its uid — is
/// the one resolution uses, whatever later records say.
pub proof fn lemma_find_account_first_match(
    accounts: Seq<SpecAccountRecord>,
    hint: Seq<char>,
    i: int,
)
    requires
        0 <= i < accounts.len(),
        accounts[i].name == hint,
        forall|k: int| 0 <= k < i ==> accounts[k].name != hint,
    ensures
        spec_find_account(accounts, hint) == Some(accounts[i]),
    decreases i,
{
    if i > 0 {
        lemma_find_account_first_match(accounts.drop_first(), hint, i - 1);
    }
}

/// A hint that no record carries finds no account.
pub proof fn lemma_find_account_none(accounts: Seq<SpecAccountRecord>, hint: Seq<char>)
    requires
        forall|k: int| 0 <= k < accounts.len() ==> accounts[k].name != hint,
    ensures
        spec_find_account(accounts, hint) is None,
    decreases accounts.len(),
{
    if accounts.len() > 0 {
        lemma_find_account_none(accounts.drop_first(), hint);
    }
}

/// First match wins in the group table: the name reported for `gid` is the
/// name of the earliest record carrying it.
pub proof fn lemma_group_name_first_match(groups: Seq<SpecGroupRecord>, gid: u32, i: int)
    requires
        0 <= i < groups.len(),
        groups[i].gid == gid,
        forall|k: int| 0 <= k < i ==> groups[k].gid != gid,
    ensures
        spec_group_name(groups, gid) == groups[i].name,
    decreases i,
{
    if i > 0 {
        lemma_group_name_first_match(groups.drop_first(), gid, i - 1);
    }
}

/// A primary-group miss degrades gracefully: when no group record carries
/// `gid`, the reported name is the sentinel `"unknown"`, and nothing fails.
pub proof fn lemma_group_name_miss(groups: Seq<SpecGroupRecord>, gid: u32)
    requires
        forall|k: int| 0 <= k < groups.len() ==> groups[k].gid != gid,
    ensures
        spec_group_name(groups, gid) == "unknown"@,
    decreases groups.len(),
{
    if groups.len() > 0 {
        lemma_group_name_miss(groups.drop_first(), gid);
    }
}

/// Resolution is pure: the outcome is a function of the hint and the
/// tables alone, so resolving the same hint against the same tables always
/// yields a structurally identical result.
pub proof fn lemma_resolve_deterministic(
    hint1: Seq<char>,
    hint2: Seq<char>,
    accounts1: Seq<SpecAccountRecord>,
    accounts2: Seq<SpecAccountRecord>,
    groups1: Seq<SpecGroupRecord>,
    groups2: Seq<SpecGroupRecord>,
)
    requires
        hint1 == hint2,
        accounts1 == accounts2,
        groups1 == groups2,
    ensures
        spec_resolve(hint1, accounts1, groups1) == spec_resolve(hint2, accounts2, groups2),
{
}

/// Membership is complete: a group's entry is reported among the account's
/// groups exactly when the group matches — its id equals the primary group
/// id, or the account's name stands in its member list. Every matching
/// group's entry appears, and every reported entry comes from a matching
/// group.
pub proof fn lemma_supplementary_membership(
    groups: Seq<SpecGroupRecord>,
    name: Seq<char>,
    gid: u32,
)
    ensures
        forall|k: int|
            0 <= k < groups.len() && spec_group_matches(groups[k], name, gid)
                ==> spec_supplementary_groups(groups, name, gid).contains(
                spec_entry_of(groups[k]),
            ),
        forall|e: SpecGroupEntry|
            spec_supplementary_groups(groups, name, gid).contains(e) ==> (exists|k: int|
                0 <= k < groups.len() && spec_group_matches(groups[k], name, gid) && e
                    == spec_entry_of(groups[k])),
    decreases groups.len(),
{
    if groups.len() > 0 {
        let rest = groups.drop_first();
        lemma_supplementary_membership(rest, name, gid);
        let supp = spec_supplementary_groups(groups, name, gid);
        let supp_rest = spec_supplementary_groups(rest, name, gid);
        assert forall|k: int|
            0 <= k < groups.len() && spec_group_matches(groups[k], name, gid) implies supp
            .contains(spec_entry_of(groups[k])) by {
            if k == 0 {
                assert(supp[0] == spec_entry_of(groups[0]));
            } else {
                assert(groups[k] == rest[k - 1]);
                assert(supp_rest.contains(spec_entry_of(rest[k - 1])));
                let j = choose|j: int|
                    0 <= j < supp_rest.len() && supp_rest[j] == spec_entry_of(rest[k - 1]);
                if spec_group_matches(groups[0], name, gid) {
                    assert(supp[j + 1] == spec_entry_of(groups[k]));
                } else {
                    assert(supp[j] == spec_entry_of(groups[k]));
                }
            }
        }
        assert forall|e: SpecGroupEntry| supp.contains(e) implies (exists|k: int|
            0 <= k < groups.len() && spec_group_matches(groups[k], name, gid) && e
                == spec_entry_of(groups[k])) by {
            let j = choose|j: int| 0 <= j < supp.len() && supp[j] == e;
            if spec_group_matches(groups[0], name, gid) && j == 0 {
                assert(spec_group_matches(groups[0], name, gid) && e == spec_entry_of(
                    groups[0],
                ));
            } else {
                let jr: int = if spec_group_matches(groups[0], name, gid) {
                    j - 1
                } else {
                    j
                };
                assert(supp_rest[jr] == e);
                assert(supp_rest.contains(e));
                let k = choose|k: int|
                    0 <= k < rest.len() && spec_group_matches(rest[k], name, gid) && e
                        == spec_entry_of(rest[k]);
                assert(groups[k + 1] == rest[k]);
                assert(spec_group_matches(groups[k + 1], name, gid) && e == spec_entry_of(
                    groups[k + 1],
                ));
            }
        }
    }
}

/// An unreadable or missing group file is tolerated: against the empty
/// group table a found account still resolves, with no supplementary
/// groups and the primary group name degraded to the sentinel `"unknown"`.
pub proof fn lemma_resolve_empty_groups(hint: Seq<char>, accounts: Seq<SpecAccountRecord>)
    requires
        hint.len() != 0,
        spec_find_account(accounts, hint) is Some,
    ensures
        spec_resolve(hint, accounts, Seq::empty()) is Ok,
        spec_resolve(hint, accounts, Seq::empty())->Ok_0.supplementary_groups == Seq::<
            SpecGroupEntry,
        >::empty(),
        spec_resolve(hint, accounts, Seq::empty())->Ok_0.primary_group.name == "unknown"@,
{
}

/// Looks up the name of the first group whose id equals `gid`, returning
/// the sentinel `"unknown"` when no group carries that id.
pub fn group_name(gid: u32, groups: &Vec<GroupRecord>) -> (r: String)
    ensures
        r@ == spec_group_name(groups_view(groups@), gid),
{
    let ghost gv = groups_view(groups@);
    let mut i: usize = 0;
    while i < groups.len()
        invariant
            gv == groups_view(groups@),
            i <= groups.len(),
            forall|k: int| 0 <= k < i ==> gv[k].gid != gid,
        decreases groups.len() - i,
    {
        proof {
            assert(gv[i as int] == groups@[i as int]@);
        }
        if groups[i].gid == gid {
            proof {
                lemma_group_name_first_match(gv, gid, i as int);
            }
            return groups[i].name.clone();
        }
        i += 1;
    }
    proof {
        lemma_group_name_miss(gv, gid);
    }
    String::from_str("unknown")
}

/// Whether `name` occurs in the member list `members`.
fn contains_name(members: &Vec<String>, name: &String) -> (r: bool)
    ensures
        r == strings_view(members@).contains(name@),
{
    let ghost mv = strings_view(members@);
    let mut i: usize = 0;
    while i < members.len()
        invariant
            mv == strings_view(members@),
            i <= members.len(),
            forall|k: int| 0 <= k < i ==> mv[k] != name@,
        decreases members.len() - i,
    {
        proof {
            assert(mv[i as int] == members@[i as int]@);
        }
        if members[i] == *name {
            proof {
                assert(mv[i as int] == name@);
            }
            return true;
        }
        i += 1;
    }
    proof {
        assert(forall|k: int| 0 <= k < mv.len() ==> mv[k] != name@);
    }
    false
}

proof fn lemma_supplementary_step(groups: Seq<SpecGroupRecord>, name: Seq<char>, gid: u32, i: int)
    requires
        0 <= i < groups.len(),
    ensures
        spec_supplementary_groups(groups.subrange(i, groups.len() as int), name, gid) == (
        if spec_group_matches(groups[i], name, gid) {
            seq![spec_entry_of(groups[i])] + spec_supplementary_groups(
                groups.subrange(i + 1, groups.len() as int),
                name,
                gid,
            )
        } else {
            spec_supplementary_groups(groups.subrange(i + 1, groups.len() as int), name, gid)
        }),
{
    let t = groups.subrange(i, groups.len() as int);
    assert(t[0] == groups[i]);
    assert(t.drop_first() =~= groups.subrange(i + 1, groups.len() as int));
}

/// Gathers, in table order, every group the account named `name` with
/// primary group id `gid` belongs to, as `spec_supplementary_groups`
/// describes.
pub fn supplementary_groups(name: &String, gid: u32, groups: &Vec<GroupRecord>) -> (r: Vec<
    GroupEntry,
>)
    ensures
        entries_view(r@) == spec_supplementary_groups(groups_view(groups@), name@, gid),
{
    let ghost gv = groups_view(groups@);
    let mut out: Vec<GroupEntry> = Vec::new();
    let mut i: usize = 0;
    proof {
        assert(gv.subrange(0, gv.len() as int) =~= gv);
        assert(entries_view(out@) + spec_supplementary_groups(gv, name@, gid)
            =~= spec_supplementary_groups(gv, name@, gid));
    }
    while i < groups.len()
        invariant
            gv == groups_view(groups@),
            i <= groups.len(),
            spec_supplementary_groups(gv, name@, gid) == entries_view(out@)
                + spec_supplementary_groups(gv.subrange(i as int, gv.len() as int), name@, gid),
        decreases groups.len() - i,
    {
        proof {
            assert(gv[i as int] == groups@[i as int]@);
            lemma_supplementary_step(gv, name@, gid, i as int);
        }
        let matches_gid = groups[i].gid == gid;
        let listed = contains_name(&groups[i].members, name);
        if matches_gid || listed {
            let entry = GroupEntry { gid: groups[i].gid, name: groups[i].name.clone() };
            proof {
                assert(entry@ == spec_entry_of(gv[i as int]));
                assert(entries_view(out@.push(entry)) =~= entries_view(out@).push(entry@));
                assert(entries_view(out@).push(entry@) + spec_supplementary_groups(
                    gv.subrange(i + 1, gv.len() as int),
                    name@,
                    gid,
                ) =~= entries_view(out@) + (seq![entry@] + spec_supplementary_groups(
                    gv.subrange(i + 1, gv.len() as int),
                    name@,
                    gid,
                )));
            }
            out.push(entry);
        }
        i += 1;
    }
    proof {
        assert(gv.subrange(groups.len() as int, gv.len() as int)
            =~= Seq::<SpecGroupRecord>::empty());
        assert(entries_view(out@) + Seq::<SpecGroupEntry>::empty() =~= entries_view(out@));
    }
    out
}

/// Resolves `hint` against the parsed tables, as `spec_resolve` describes:
/// an empty hint fails with `NoIdentityHint`, a hint naming no account
/// fails with `AccountNotFound`, and otherwise the first matching account
/// is reported with its primary group and the full list of its groups.
pub fn resolve(hint: &str, accounts: &Vec<AccountRecord>, groups: &Vec<GroupRecord>) -> (r: Result<
    ResolvedIdentity,
    IdentityError,
>)
    ensures
        outcome_view(r) == spec_resolve(hint@, accounts_view(accounts@), groups_view(groups@)),
{
    let ghost av = accounts_view(accounts@);
    if hint.unicode_len() == 0 {
        return Err(IdentityError::NoIdentityHint);
    }
    let hint_string = String::from_str(hint);
    let mut i: usize = 0;
    while i < accounts.len()
        invariant
            av == accounts_view(accounts@),
            i <= accounts.len(),
            hint_string@ == hint@,
            hint@.len() != 0,
            forall|k: int| 0 <= k < i ==> av[k].name != hint@,
        decreases accounts.len() - i,
    {
        proof {
            assert(av[i as int] == accounts@[i as int]@);
        }
        if accounts[i].name == hint_string {
            proof {
                lemma_find_account_first_match(av, hint@, i as int);
            }
            let display_name = accounts[i].name.clone();
            let uid = accounts[i].uid;
            let gid = accounts[i].gid;
            let primary_name = group_name(gid, groups);
            let supplementary = supplementary_groups(&accounts[i].name, gid, groups);
            let result = ResolvedIdentity {
                display_name,
                uid,
                primary_group: GroupEntry { gid, name: primary_name },
                supplementary_groups: supplementary,
            };
            proof {
                let account = av[i as int];
                let expected = SpecResolvedIdentity {
                    display_name: account.name,
                    uid: account.uid,
                    primary_group: SpecGroupEntry {
                        gid: account.gid,
                        name: spec_group_name(groups_view(groups@), account.gid),
                    },
                    supplementary_groups: spec_supplementary_groups(
                        groups_view(groups@),
                        account.name,
                        account.gid,
                    ),
                };
                assert(result@ =~~= expected);
            }
            return Ok(result);
        }
        i += 1;
    }
    proof {
        lemma_find_account_none(av, hint@);
    }
    Err(IdentityError::AccountNotFound { hint: hint_string })
}

/// Picks the first non-empty hint among the ordered candidate sources, as
/// `spec_select_hint` describes.
pub fn select_hint(sources: &Vec<String>) -> (r: Option<String>)
    ensures
        opt_string_view(r) == spec_select_hint(strings_view(sources@)),
{
    let ghost sv = strings_view(sources@);
    let mut i: usize = 0;
    proof {
        assert(sv.subrange(0, sv.len() as int) =~= sv);
    }
    while i < sources.len()
        invariant
            sv == strings_view(sources@),
            i <= sources.len(),
            forall|k: int| 0 <= k < i ==> sv[k].len() == 0,
            spec_select_hint(sv) == spec_select_hint(sv.subrange(i as int, sv.len() as int)),
        decreases sources.len() - i,
    {
        proof {
            assert(sv[i as int] == sources@[i as int]@);
            let t = sv.subrange(i as int, sv.len() as int);
            assert(t[0] == sv[i as int]);
            assert(t.drop_first() =~= sv.subrange(i + 1, sv.len() as int));
        }
        if !sources[i].as_str().is_empty() {
            return Some(sources[i].clone());
        }
        i += 1;
    }
    proof {
        assert(sv.subrange(sources.len() as int, sv.len() as int) =~= Seq::<Seq<char>>::empty());
    }
    None
}

/// Resolves the identity taken from an ordered list of hint sources — the
/// explicit form of an environment-variable fallback chain — as
/// `spec_resolve_with_sources` describes.
pub fn resolve_with_sources(
    sources: &Vec<String>,
    accounts: &Vec<AccountRecord>,
    groups: &Vec<GroupRecord>,
) -> (r: Result<ResolvedIdentity, IdentityError>)
    ensures
        outcome_view(r) == spec_resolve_with_sources(
            strings_view(sources@),
            accounts_view(accounts@),
            groups_view(groups@),
        ),
{
    match select_hint(sources) {
        Some(hint) => resolve(hint.as_str(), accounts, groups),
        None => Err(IdentityError::NoIdentityHint),
    }
}

} // verus!
