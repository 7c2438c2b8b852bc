//! Sharing views with guests: the rows of shared views and users, grouped by
//! view, and the decisions of the sharing requests.

use vstd::prelude::*;
use crate::json::{
    assoc_get, assoc_set, entry_keys, find_key, lemma_assoc_set_get, lemma_assoc_get_none, first_key_index, is_first_key, lemma_first_key_exists, string_keys,
};
use crate::ids::{parse_uuid, parsed_uuid};
use crate::document::{opt_str_view, strings_view};

verus! {

/// A stored grant of a view: the view's id as text and the access level's code.
#[derive(Debug, PartialEq)]
pub struct SharedViewRow {
    pub view_id: String,
    pub access_level: i32,
}

/// A view shared with a user, and the user's access level's code.
#[derive(Debug, PartialEq)]
pub struct SharedView {
    pub view_id: u128,
    pub access_level: i32,
}

/// A stored grant of a view joined with its user: the view's id as text, the
/// access level's code, the user's email and name, and the user's role code
/// in the workspace where the user is a member.
#[derive(Debug, PartialEq)]
pub struct SharedUserRow {
    pub view_id: String,
    pub access_level: i32,
    pub email: String,
    pub name: Option<String>,
    pub role_id: Option<i32>,
}

/// A user a view is shared with.
#[derive(Debug, PartialEq)]
pub struct SharedUser {
    pub view_id: u128,
    pub email: String,
    pub name: String,
    pub access_level: i32,
    pub role: i32,
    pub avatar_url: Option<String>,
    pub pending_invitation: bool,
}

/// The users a view is shared with.
#[derive(Debug, PartialEq)]
pub struct SharedViewDetails {
    pub view_id: u128,
    pub shared_with: Vec<SharedUser>,
}

/// The view of a shared user.
pub struct SharedUserV {
    pub view_id: u128,
    pub email: Seq<char>,
    pub name: Seq<char>,
    pub access_level: i32,
    pub role: i32,
    pub avatar_url: Option<Seq<char>>,
    pub pending_invitation: bool,
}

/// The view of the users a view is shared with.
pub struct SharedViewDetailsV {
    pub view_id: u128,
    pub shared_with: Seq<SharedUserV>,
}

impl View for SharedUser {
    type V = SharedUserV;

    open spec fn view(&self) -> SharedUserV {
        SharedUserV {
            view_id: self.view_id,
            email: self.email@,
            name: self.name@,
            access_level: self.access_level,
            role: self.role,
            avatar_url: opt_str_view(self.avatar_url),
            pending_invitation: self.pending_invitation,
        }
    }
}

/// The views of a sequence of users.
pub open spec fn users_view(s: Seq<SharedUser>) -> Seq<SharedUserV> {
    s.map_values(|u: SharedUser| u@)
}

impl View for SharedViewDetails {
    type V = SharedViewDetailsV;

    open spec fn view(&self) -> SharedViewDetailsV {
        SharedViewDetailsV { view_id: self.view_id, shared_with: users_view(self.shared_with@) }
    }
}

/// The views of a sequence of details.
pub open spec fn details_view(s: Seq<SharedViewDetails>) -> Seq<SharedViewDetailsV> {
    s.map_values(|d: SharedViewDetails| d@)
}

/// The role code of a user who is no member of the workspace.
pub open spec fn guest_role() -> i32 {
    3
}

/// A view id read from its text; the nil id where the text is no UUID.
pub open spec fn view_id_of(text: Seq<char>) -> u128 {
    match parsed_uuid(text) {
        Some(u) => u,
        None => 0,
    }
}

/// The shared view that a stored grant gives.
pub open spec fn shared_view_of(row: SharedViewRow) -> SharedView {
    SharedView { view_id: view_id_of(row.view_id@), access_level: row.access_level }
}

/// The shared user that a joined grant gives: no name reads as empty, no
/// membership as the guest role; no avatar, no pending invitation.
pub open spec fn shared_user_of(row: SharedUserRow) -> SharedUserV {
    SharedUserV {
        view_id: view_id_of(row.view_id@),
        email: row.email@,
        name: match row.name {
            Some(n) => n@,
            None => Seq::empty(),
        },
        access_level: row.access_level,
        role: match row.role_id {
            Some(r) => r,
            None => guest_role(),
        },
        avatar_url: None,
        pending_invitation: false,
    }
}

/// The users, in order, that a view is shared with.
pub open spec fn users_of_view(users: Seq<SharedUserV>, view_id: u128) -> Seq<SharedUserV>
    decreases users.len(),
{
    if users.len() == 0 {
        Seq::empty()
    } else {
        let prev = users_of_view(users.subrange(0, users.len() - 1), view_id);
        if users[users.len() - 1].view_id == view_id {
            prev.push(users[users.len() - 1])
        } else {
            prev
        }
    }
}

/// For each requested view, in order, the users it is shared with.
pub open spec fn group_by_view(users: Seq<SharedUserV>, view_ids: Seq<u128>) -> Seq<SharedViewDetailsV> {
    view_ids.map_values(|v: u128| SharedViewDetailsV { view_id: v, shared_with: users_of_view(users, v) })
}

/// Reads the shared views of a user from the stored grants, one for each
/// grant in order: the view id parsed from its text, the nil id where it is
/// no UUID, and the access level's code.
pub fn select_shared_views_for_user(rows: &Vec<SharedViewRow>) -> (r: Vec<SharedView>)
    ensures
        r.len() == rows.len(),
        forall|i: int| 0 <= i < rows.len() ==> #[trigger] r@[i] == shared_view_of(rows@[i]),
        forall|i: int|
            0 <= i < rows.len() ==> (#[trigger] r@[i]).access_level == rows@[i].access_level && r@[i].view_id == match parsed_uuid(
                rows@[i].view_id@,
            ) {
                Some(u) => u,
                None => 0,
            },
{
    let mut out: Vec<SharedView> = Vec::new();
    let mut i: usize = 0;
    while i < rows.len()
        invariant
            i <= rows.len(),
            out.len() == i,
            forall|j: int| 0 <= j < i ==> #[trigger] out@[j] == shared_view_of(rows@[j]),
        decreases rows.len() - i,
    {
        let view_id = match parse_uuid(&rows[i].view_id) {
            Some(u) => u,
            None => 0,
        };
        out.push(SharedView { view_id, access_level: rows[i].access_level });
        i = i + 1;
    }
    out
}

/// A copy of an optional string.
fn clone_opt(s: &Option<String>) -> (r: Option<String>)
    ensures
        opt_str_view(r) == opt_str_view(*s),
{
    match s {
        Some(x) => Some(x.clone()),
        None => None,
    }
}

/// A copy of a shared user.
fn clone_user(u: &SharedUser) -> (r: SharedUser)
    ensures
        r@ == u@,
{
    SharedUser {
        view_id: u.view_id,
        email: u.email.clone(),
        name: u.name.clone(),
        access_level: u.access_level,
        role: u.role,
        avatar_url: clone_opt(&u.avatar_url),
        pending_invitation: u.pending_invitation,
    }
}

/// The shared user that a joined grant gives.
pub fn shared_user_from_row(row: &SharedUserRow) -> (r: SharedUser)
    ensures
        r@ == shared_user_of(*row),
        r.view_id == match parsed_uuid(row.view_id@) {
            Some(u) => u,
            None => 0,
        },
        r.email@ == row.email@,
        r.name@ == match row.name {
            Some(n) => n@,
            None => Seq::empty(),
        },
        r.access_level == row.access_level,
        r.role == match row.role_id {
            Some(x) => x,
            None => 3,
        },
        r.avatar_url is None,
        !r.pending_invitation,
{
    let view_id = match parse_uuid(&row.view_id) {
        Some(u) => u,
        None => 0,
    };
    let name = match &row.name {
        Some(n) => n.clone(),
        None => String::new(),
    };
    let role = match row.role_id {
        Some(r) => r,
        None => 3,
    };
    SharedUser {
        view_id,
        email: row.email.clone(),
        name,
        access_level: row.access_level,
        role,
        avatar_url: None,
        pending_invitation: false,
    }
}

/// The users, in order, that the view `view_id` is shared with.
fn users_for_view(users: &Vec<SharedUser>, view_id: u128) -> (r: Vec<SharedUser>)
    ensures
        users_view(r@) == users_of_view(users_view(users@), view_id),
{
    let ghost uv = users_view(users@);
    let mut out: Vec<SharedUser> = Vec::new();
    let mut i: usize = 0;
    assert(users_view(out@) =~= Seq::empty());
    while i < users.len()
        invariant
            i <= users.len(),
            uv == users_view(users@),
            users_view(out@) == users_of_view(uv.subrange(0, i as int), view_id),
        decreases users.len() - i,
    {
        assert(uv.subrange(0, i + 1).subrange(0, i as int) =~= uv.subrange(0, i as int));
        if users[i].view_id == view_id {
            let c = clone_user(&users[i]);
            let ghost prev = out@;
            out.push(c);
            assert(users_view(out@) =~= users_view(prev).push(c@));
        }
        i = i + 1;
    }
    assert(uv.subrange(0, users.len() as int) =~= uv);
    out
}

/// Groups shared users by view: for each requested view id, in order, the
/// users that view is shared with, in their order; none for a view shared
/// with no one.
pub fn group_shared_users(users: &Vec<SharedUser>, view_ids: &Vec<u128>) -> (r: Vec<SharedViewDetails>)
    ensures
        details_view(r@) == group_by_view(users_view(users@), view_ids@),
{
    let mut out: Vec<SharedViewDetails> = Vec::new();
    let mut i: usize = 0;
    while i < view_ids.len()
        invariant
            i <= view_ids.len(),
            details_view(out@) == group_by_view(users_view(users@), view_ids@.subrange(0, i as int)),
        decreases view_ids.len() - i,
    {
        let d = SharedViewDetails { view_id: view_ids[i], shared_with: users_for_view(users, view_ids[i]) };
        let ghost prev = out@;
        out.push(d);
        proof {
            assert(details_view(out@) =~= details_view(prev).push(d@));
            assert(group_by_view(users_view(users@), view_ids@.subrange(0, i + 1)) =~= group_by_view(
                users_view(users@),
                view_ids@.subrange(0, i as int),
            ).push(d@));
        }
        i = i + 1;
    }
    assert(view_ids@.subrange(0, view_ids.len() as int) =~= view_ids@);
    out
}

/// The users that the requested views are shared with, from the joined
/// grants: each grant read as a shared user, then grouped by view, one entry
/// for each requested view id in order.
pub fn select_shared_users_for_views(rows: &Vec<SharedUserRow>, view_ids: &Vec<u128>) -> (r: Vec<SharedViewDetails>)
    ensures
        details_view(r@) == group_by_view(rows@.map_values(|row: SharedUserRow| shared_user_of(row)), view_ids@),
{
    let mut users: Vec<SharedUser> = Vec::new();
    let mut i: usize = 0;
    while i < rows.len()
        invariant
            i <= rows.len(),
            users_view(users@) == rows@.subrange(0, i as int).map_values(|row: SharedUserRow| shared_user_of(row)),
        decreases rows.len() - i,
    {
        let u = shared_user_from_row(&rows[i]);
        let ghost prev = users@;
        users.push(u);
        proof {
            assert(users_view(users@) =~= users_view(prev).push(u@));
            assert(rows@.subrange(0, i + 1).map_values(|row: SharedUserRow| shared_user_of(row)) =~= rows@.subrange(
                0,
                i as int,
            ).map_values(|row: SharedUserRow| shared_user_of(row)).push(shared_user_of(rows@[i as int])));
        }
        i = i + 1;
    }
    assert(rows@.subrange(0, rows.len() as int) =~= rows@);
    group_shared_users(&users, view_ids)
}

/// The shared views of a user, and the views among them the user has lost
/// access to (none are reported).
#[derive(Debug, PartialEq)]
pub struct SharedViews {
    pub shared_views: Vec<SharedView>,
    pub view_id_with_no_access: Vec<u128>,
}

/// The answer to a listing of a user's shared views: those views, and no
/// view without access.
pub fn shared_views_response(shared_views: Vec<SharedView>) -> (r: SharedViews)
    ensures
        r.shared_views@ == shared_views@,
        r.view_id_with_no_access@ == Seq::<u128>::empty(),
{
    SharedViews { shared_views, view_id_with_no_access: Vec::new() }
}

/// Why a sharing request is refused.
#[derive(Debug, PartialEq)]
pub enum GuestError {
    InvalidRequest(String),
}

/// The message for a share request none of whose emails has an account.
pub open spec fn no_users_message() -> Seq<char> {
    "No registered users found for the provided emails. Users must create an account first."@
}

/// The users found for the emails of a share request, each email with the
/// user id found for it: a later lookup of the same email replaces the
/// earlier id; an email with no account is skipped.
pub open spec fn found_targets(lookups: Seq<(Seq<char>, Option<i64>)>) -> Seq<(Seq<char>, i64)>
    decreases lookups.len(),
{
    if lookups.len() == 0 {
        Seq::empty()
    } else {
        let prev = found_targets(lookups.subrange(0, lookups.len() - 1));
        let last = lookups[lookups.len() - 1];
        match last.1 {
            Some(uid) => assoc_set(prev, last.0, uid),
            None => prev,
        }
    }
}

/// The views of email lookups.
pub open spec fn lookups_view(s: Seq<(String, Option<i64>)>) -> Seq<(Seq<char>, Option<i64>)> {
    s.map_values(|e: (String, Option<i64>)| (e.0@, e.1))
}

/// The views of emails with user ids.
pub open spec fn targets_view(s: Seq<(String, i64)>) -> Seq<(Seq<char>, i64)> {
    s.map_values(|e: (String, i64)| (e.0@, e.1))
}

/// The view of the outcome of a share request's lookups.
pub open spec fn targets_result_view(r: Result<Vec<(String, i64)>, GuestError>) -> Result<Seq<(Seq<char>, i64)>, Seq<char>> {
    match r {
        Ok(t) => Ok(targets_view(t@)),
        Err(GuestError::InvalidRequest(m)) => Err(m@),
    }
}

/// Sets the user id of an email among the found users.
fn set_target(targets: &mut Vec<(String, i64)>, email: String, uid: i64)
    ensures
        targets_view(final(targets)@) == assoc_set(targets_view(old(targets)@), email@, uid),
{
    assert(entry_keys(targets_view(targets@)) =~= string_keys(targets@));
    match find_key(targets, &email) {
        Some(i) => {
            let ghost prev = targets@;
            targets.set(i, (email, uid));
            assert(targets_view(targets@) =~= targets_view(prev).update(i as int, (email@, uid)));
        },
        None => {
            let ghost prev = targets@;
            targets.push((email, uid));
            assert(targets_view(targets@) =~= targets_view(prev).push((email@, uid)));
        },
    }
}

/// Decides whom a view is shared with, from the lookups of the request's
/// emails: the emails that have an account, each with its user id. Refused
/// with an invalid request where no email has one.
pub fn share_targets(lookups: &Vec<(String, Option<i64>)>) -> (r: Result<Vec<(String, i64)>, GuestError>)
    ensures
        targets_result_view(r) == (if found_targets(lookups_view(lookups@)).len() == 0 {
            Err(no_users_message())
        } else {
            Ok(found_targets(lookups_view(lookups@)))
        }),
{
    let ghost lv = lookups_view(lookups@);
    let mut targets: Vec<(String, i64)> = Vec::new();
    let mut i: usize = 0;
    assert(targets_view(targets@) =~= Seq::empty());
    while i < lookups.len()
        invariant
            i <= lookups.len(),
            lv == lookups_view(lookups@),
            targets_view(targets@) == found_targets(lv.subrange(0, i as int)),
        decreases lookups.len() - i,
    {
        assert(lv.subrange(0, i + 1).subrange(0, i as int) =~= lv.subrange(0, i as int));
        match lookups[i].1 {
            Some(uid) => {
                set_target(&mut targets, lookups[i].0.clone(), uid);
            },
            None => {},
        }
        i = i + 1;
    }
    assert(lv.subrange(0, lookups.len() as int) =~= lv);
    if targets.len() == 0 {
        return Err(GuestError::InvalidRequest(String::from_str(
            "No registered users found for the provided emails. Users must create an account first.",
        )));
    }
    Ok(targets)
}

/// The user ids of the found users, in order.
pub fn target_uids(targets: &Vec<(String, i64)>) -> (r: Vec<i64>)
    ensures
        r@ == targets@.map_values(|e: (String, i64)| e.1),
{
    let mut out: Vec<i64> = Vec::new();
    let mut i: usize = 0;
    while i < targets.len()
        invariant
            i <= targets.len(),
            out@ == targets@.subrange(0, i as int).map_values(|e: (String, i64)| e.1),
        decreases targets.len() - i,
    {
        out.push(targets[i].1);
        i = i + 1;
        assert(out@ =~= targets@.subrange(0, i as int).map_values(|e: (String, i64)| e.1));
    }
    assert(targets@.subrange(0, targets.len() as int) =~= targets@);
    out
}

/// The user ids found, in the order of the lookups; emails without an
/// account are skipped.
pub open spec fn found_uids_of(lookups: Seq<Option<i64>>) -> Seq<i64>
    decreases lookups.len(),
{
    if lookups.len() == 0 {
        Seq::empty()
    } else {
        let prev = found_uids_of(lookups.subrange(0, lookups.len() - 1));
        match lookups[lookups.len() - 1] {
            Some(uid) => prev.push(uid),
            None => prev,
        }
    }
}

/// The users whose access a revoke request takes away: those of its emails
/// that have an account, in order.
pub fn found_uids(lookups: &Vec<Option<i64>>) -> (r: Vec<i64>)
    ensures
        r@ == found_uids_of(lookups@),
{
    let mut out: Vec<i64> = Vec::new();
    let mut i: usize = 0;
    while i < lookups.len()
        invariant
            i <= lookups.len(),
            out@ == found_uids_of(lookups@.subrange(0, i as int)),
        decreases lookups.len() - i,
    {
        assert(lookups@.subrange(0, i + 1).subrange(0, i as int) =~= lookups@.subrange(0, i as int));
        match lookups[i] {
            Some(uid) => out.push(uid),
            None => {},
        }
        i = i + 1;
    }
    assert(lookups@.subrange(0, lookups.len() as int) =~= lookups@);
    out
}

/// The views whose sharing an access-details request reads: the requested
/// ancestors, then the view itself where it is not among them.
pub open spec fn detail_view_ids(ancestors: Seq<u128>, view_id: u128) -> Seq<u128> {
    if ancestors.contains(view_id) {
        ancestors
    } else {
        ancestors.push(view_id)
    }
}

/// Lists the views whose sharing an access-details request reads.
pub fn access_detail_view_ids(ancestor_view_ids: &Vec<u128>, view_id: u128) -> (r: Vec<u128>)
    ensures
        r@ == detail_view_ids(ancestor_view_ids@, view_id),
{
    let mut all: Vec<u128> = Vec::new();
    let mut found = false;
    let mut i: usize = 0;
    while i < ancestor_view_ids.len()
        invariant
            i <= ancestor_view_ids.len(),
            all@ == ancestor_view_ids@.subrange(0, i as int),
            found == ancestor_view_ids@.subrange(0, i as int).contains(view_id),
        decreases ancestor_view_ids.len() - i,
    {
        let v = ancestor_view_ids[i];
        if v == view_id {
            found = true;
        }
        all.push(v);
        i = i + 1;
        proof {
            assert(all@ =~= ancestor_view_ids@.subrange(0, i as int));
            let s = ancestor_view_ids@.subrange(0, i as int);
            if v == view_id {
                assert(s[i - 1] == view_id);
            }
            if s.contains(view_id) {
                let k = choose|k: int| 0 <= k < s.len() && s[k] == view_id;
                if k < i - 1 {
                    assert(ancestor_view_ids@.subrange(0, i - 1)[k] == view_id);
                }
            }
        }
    }
    assert(ancestor_view_ids@.subrange(0, ancestor_view_ids.len() as int) =~= ancestor_view_ids@);
    if !found {
        all.push(view_id);
    }
    all
}

/// The details of the view `view_id` among the details read: the first
/// entry for it, or none shared with where there is no entry.
pub open spec fn primary_of(details: Seq<SharedViewDetailsV>, view_id: u128) -> SharedViewDetailsV {
    if exists|i: int| 0 <= i < details.len() && details[i].view_id == view_id {
        details[choose|i: int| 0 <= i < details.len() && details[i].view_id == view_id && forall|j: int|
            0 <= j < i ==> details[j].view_id != view_id]
    } else {
        SharedViewDetailsV { view_id, shared_with: Seq::empty() }
    }
}

/// Picks the details of the view `view_id` among the details read.
pub fn primary_details(details: Vec<SharedViewDetails>, view_id: u128) -> (r: SharedViewDetails)
    ensures
        r@ == primary_of(details_view(details@), view_id),
        r.view_id == view_id,
        forall|i: int|
            0 <= i < details.len() && (#[trigger] details@[i]).view_id == view_id && (forall|j: int|
                0 <= j < i ==> details@[j].view_id != view_id) ==> r@ == details@[i]@,
        (forall|i: int| 0 <= i < details.len() ==> (#[trigger] details@[i]).view_id != view_id) ==> r@
            == (SharedViewDetailsV { view_id, shared_with: Seq::empty() }),
{
    let ghost dv = details_view(details@);
    let mut i: usize = 0;
    while i < details.len()
        invariant
            i <= details.len(),
            dv == details_view(details@),
            forall|j: int| 0 <= j < i ==> details@[j].view_id != view_id,
        decreases details.len() - i,
    {
        if details[i].view_id == view_id {
            let ghost pick = choose|k: int| 0 <= k < dv.len() && dv[k].view_id == view_id && forall|j: int|
                0 <= j < k ==> dv[j].view_id != view_id;
            assert(0 <= i < dv.len() && dv[i as int].view_id == view_id && forall|j: int|
                0 <= j < i ==> dv[j].view_id != view_id);
            assert(pick == i);
            assert forall|k: int|
                0 <= k < details.len() && (#[trigger] details@[k]).view_id == view_id && (forall|j: int|
                    0 <= j < k ==> details@[j].view_id != view_id) implies k == i by {
                if k < i {
                    assert(details@[k].view_id != view_id);
                } else if k > i {
                    assert(details@[i as int].view_id != view_id);
                }
            }
            let mut details = details;
            let r = details.swap_remove(i);
            return r;
        }
        i = i + 1;
    }
    assert(!(exists|k: int| 0 <= k < dv.len() && dv[k].view_id == view_id));
    let r = SharedViewDetails { view_id, shared_with: Vec::new() };
    assert(users_view(r.shared_with@) =~= Seq::empty());
    r
}

/// Every user listed for a view has that view's id, and every user with that
/// view's id is listed.
pub proof fn lemma_users_of_view(users: Seq<SharedUserV>, view_id: u128)
    ensures
        forall|k: int| 0 <= k < users_of_view(users, view_id).len() ==> #[trigger] users_of_view(users, view_id)[k].view_id == view_id,
        forall|k: int| 0 <= k < users.len() && users[k].view_id == view_id ==> users_of_view(users, view_id).contains(#[trigger] users[k]),
        users_of_view(users, view_id).len() <= users.len(),
    decreases users.len(),
{
    if users.len() > 0 {
        let prefix = users.subrange(0, users.len() - 1);
        lemma_users_of_view(prefix, view_id);
        let prev = users_of_view(prefix, view_id);
        assert forall|k: int| 0 <= k < users.len() && users[k].view_id == view_id implies users_of_view(users, view_id).contains(#[trigger] users[k]) by {
            if k < users.len() - 1 {
                assert(prefix[k] == users[k]);
                let w = choose|w: int| 0 <= w < prev.len() && prev[w] == users[k];
                if users[users.len() - 1].view_id == view_id {
                    assert(prev.push(users[users.len() - 1])[w] == users[k]);
                }
            } else {
                assert(prev.push(users[k])[prev.len() as int] == users[k]);
            }
        }
    }
}

/// Grouping answers every requested view, in order, with exactly the users
/// shared that view: each listed user has the view's id, and each user with
/// the view's id is listed.
pub proof fn lemma_group_by_view(users: Seq<SharedUserV>, view_ids: Seq<u128>)
    ensures
        group_by_view(users, view_ids).len() == view_ids.len(),
        forall|i: int| 0 <= i < view_ids.len() ==> #[trigger] group_by_view(users, view_ids)[i].view_id == view_ids[i],
        forall|i: int, k: int|
            0 <= i < view_ids.len() && 0 <= k < group_by_view(users, view_ids)[i].shared_with.len()
                ==> #[trigger] group_by_view(users, view_ids)[i].shared_with[k].view_id == view_ids[i],
        forall|i: int, k: int|
            0 <= i < view_ids.len() && 0 <= k < users.len() && users[k].view_id == view_ids[i]
                ==> #[trigger] group_by_view(users, view_ids)[i].shared_with.contains(#[trigger] users[k]),
{
    assert forall|i: int, k: int|
        0 <= i < view_ids.len() && 0 <= k < group_by_view(users, view_ids)[i].shared_with.len()
        implies #[trigger] group_by_view(users, view_ids)[i].shared_with[k].view_id == view_ids[i] by {
        lemma_users_of_view(users, view_ids[i]);
    }
    assert forall|i: int, k: int|
        0 <= i < view_ids.len() && 0 <= k < users.len() && users[k].view_id == view_ids[i]
        implies #[trigger] group_by_view(users, view_ids)[i].shared_with.contains(#[trigger] users[k]) by {
        lemma_users_of_view(users, view_ids[i]);
    }
}

/// A share request is refused exactly when none of its emails has an account.
pub proof fn lemma_share_refused_iff_none_found(lookups: Seq<(Seq<char>, Option<i64>)>)
    ensures
        found_targets(lookups).len() == 0 <==> forall|i: int| 0 <= i < lookups.len() ==> #[trigger] lookups[i].1 is None,
    decreases lookups.len(),
{
    if lookups.len() > 0 {
        let prefix = lookups.subrange(0, lookups.len() - 1);
        lemma_share_refused_iff_none_found(prefix);
        let prev = found_targets(prefix);
        let last = lookups[lookups.len() - 1];
        if let Some(uid) = last.1 {
            match first_key_index(entry_keys(prev), last.0) {
                Some(i) => {
                    assert(is_first_key(entry_keys(prev), last.0, i));
                },
                None => {},
            }
        }
        if forall|i: int| 0 <= i < prefix.len() ==> #[trigger] prefix[i].1 is None {
            assert forall|i: int| 0 <= i < lookups.len() - 1 implies #[trigger] lookups[i].1 is None by {
                assert(prefix[i] == lookups[i]);
            }
        } else {
            let i = choose|i: int| 0 <= i < prefix.len() && !(#[trigger] prefix[i].1 is None);
            assert(prefix[i] == lookups[i]);
        }
    }
}

/// Setting a key keeps the keys free of repeats.
proof fn lemma_assoc_set_distinct<V>(entries: Seq<(Seq<char>, V)>, key: Seq<char>, value: V)
    requires
        entry_keys(entries).no_duplicates(),
    ensures
        entry_keys(assoc_set(entries, key, value)).no_duplicates(),
{
    let keys = entry_keys(entries);
    match first_key_index(keys, key) {
        Some(i) => {
            assert(is_first_key(keys, key, i));
            assert(entry_keys(assoc_set(entries, key, value)) =~= keys);
        },
        None => {
            assert forall|c: int| 0 <= c < keys.len() implies keys[c] != key by {
                if keys[c] == key {
                    lemma_first_key_exists(keys, key, c);
                }
            }
            assert(entry_keys(assoc_set(entries, key, value)) =~= keys.push(key));
        },
    }
}

/// No email is shared with twice: the found users' emails are distinct.
pub proof fn lemma_found_targets_distinct(lookups: Seq<(Seq<char>, Option<i64>)>)
    ensures
        entry_keys(found_targets(lookups)).no_duplicates(),
    decreases lookups.len(),
{
    if lookups.len() == 0 {
        assert(entry_keys(found_targets(lookups)) =~= Seq::<Seq<char>>::empty());
    } else {
        let prefix = lookups.subrange(0, lookups.len() - 1);
        lemma_found_targets_distinct(prefix);
        let last = lookups[lookups.len() - 1];
        if let Some(uid) = last.1 {
            lemma_assoc_set_distinct(found_targets(prefix), last.0, uid);
        }
    }
}

/// The views an access-details request reads hold the view and every
/// requested ancestor, and repeat none where the ancestors repeat none.
pub proof fn lemma_detail_view_ids(ancestors: Seq<u128>, view_id: u128)
    ensures
        detail_view_ids(ancestors, view_id).contains(view_id),
        forall|i: int| 0 <= i < ancestors.len() ==> detail_view_ids(ancestors, view_id).contains(#[trigger] ancestors[i]),
        ancestors.no_duplicates() ==> detail_view_ids(ancestors, view_id).no_duplicates(),
{
    let r = detail_view_ids(ancestors, view_id);
    if !ancestors.contains(view_id) {
        assert(r[ancestors.len() as int] == view_id);
        assert forall|i: int| 0 <= i < ancestors.len() implies r.contains(#[trigger] ancestors[i]) by {
            assert(r[i] == ancestors[i]);
        }
    } else {
        assert forall|i: int| 0 <= i < ancestors.len() implies r.contains(#[trigger] ancestors[i]) by {
            assert(r[i] == ancestors[i]);
        }
    }
}

/// The emails of the found users to add to the workspace as guests: those
/// whose role lookup found no role, in order.
pub open spec fn guest_emails_of(targets: Seq<(Seq<char>, i64)>, has_role: Seq<bool>) -> Seq<Seq<char>>
    decreases targets.len(),
{
    if targets.len() == 0 {
        Seq::empty()
    } else {
        let n = (targets.len() - 1) as int;
        let prev = guest_emails_of(targets.subrange(0, n), has_role);
        if has_role[n] {
            prev
        } else {
            prev.push(targets[n].0)
        }
    }
}

/// Decides which found users a share request adds to the workspace as
/// guests: each one whose role lookup, at the same position, found no role.
pub fn guests_to_add(targets: &Vec<(String, i64)>, has_role: &Vec<bool>) -> (r: Vec<String>)
    requires
        has_role.len() == targets.len(),
    ensures
        strings_view(r@) == guest_emails_of(targets_view(targets@), has_role@),
{
    let ghost tv = targets_view(targets@);
    let mut out: Vec<String> = Vec::new();
    let mut i: usize = 0;
    assert(strings_view(out@) =~= Seq::empty());
    while i < targets.len()
        invariant
            i <= targets.len(),
            has_role.len() == targets.len(),
            tv == targets_view(targets@),
            strings_view(out@) == guest_emails_of(tv.subrange(0, i as int), has_role@),
        decreases targets.len() - i,
    {
        assert(tv.subrange(0, i + 1).subrange(0, i as int) =~= tv.subrange(0, i as int));
        if !has_role[i] {
            let e = targets[i].0.clone();
            let ghost prev = out@;
            out.push(e);
            assert(strings_view(out@) =~= strings_view(prev).push(e@));
        }
        i = i + 1;
    }
    assert(tv.subrange(0, targets.len() as int) =~= tv);
    out
}

/// The details picked for a view are those of the first entry for it, the
/// very first entry included; only where no entry is for the view are they
/// that view's, shared with no one.
pub proof fn lemma_primary_of(details: Seq<SharedViewDetailsV>, view_id: u128)
    ensures
        primary_of(details, view_id).view_id == view_id,
        forall|i: int|
            0 <= i < details.len() && (#[trigger] details[i]).view_id == view_id && (forall|j: int|
                0 <= j < i ==> details[j].view_id != view_id) ==> primary_of(details, view_id) == details[i],
        (forall|i: int| 0 <= i < details.len() ==> (#[trigger] details[i]).view_id != view_id) ==> primary_of(
            details,
            view_id,
        ) == (SharedViewDetailsV { view_id, shared_with: Seq::empty() }),
{
    if exists|i: int| 0 <= i < details.len() && details[i].view_id == view_id {
        let i0 = choose|i: int| 0 <= i < details.len() && details[i].view_id == view_id;
        lemma_first_match(details, view_id, i0);
        let k = choose|k: int| 0 <= k < details.len() && details[k].view_id == view_id && forall|j: int|
            0 <= j < k ==> details[j].view_id != view_id;
        assert forall|i: int|
            0 <= i < details.len() && (#[trigger] details[i]).view_id == view_id && (forall|j: int|
                0 <= j < i ==> details[j].view_id != view_id) implies primary_of(details, view_id) == details[i] by {
            if i < k {
                assert(details[i].view_id != view_id);
            } else if k < i {
                assert(details[k].view_id != view_id);
            }
        }
    }
}

/// Where some entry is for the view, a first one is.
proof fn lemma_first_match(details: Seq<SharedViewDetailsV>, view_id: u128, i: int)
    requires
        0 <= i < details.len(),
        details[i].view_id == view_id,
    ensures
        exists|k: int| 0 <= k < details.len() && details[k].view_id == view_id && forall|j: int|
            0 <= j < k ==> details[j].view_id != view_id,
    decreases i,
{
    if exists|j: int| 0 <= j < i && details[j].view_id == view_id {
        let j = choose|j: int| 0 <= j < i && details[j].view_id == view_id;
        lemma_first_match(details, view_id, j);
    } else {
        assert(0 <= i < details.len() && details[i].view_id == view_id && forall|j: int|
            0 <= j < i ==> details[j].view_id != view_id);
    }
}

/// The user found for an email is the one of its last lookup that found an
/// account; an email none of whose lookups found one is no target.
pub proof fn lemma_found_targets_lookup(lookups: Seq<(Seq<char>, Option<i64>)>, email: Seq<char>)
    ensures
        forall|i: int|
            0 <= i < lookups.len() && (#[trigger] lookups[i]).0 == email && lookups[i].1 is Some && (forall|j: int|
                i < j < lookups.len() && lookups[j].0 == email ==> lookups[j].1 is None)
                ==> assoc_get(found_targets(lookups), email) == lookups[i].1,
        (forall|j: int| 0 <= j < lookups.len() && (#[trigger] lookups[j]).0 == email ==> lookups[j].1 is None)
            ==> assoc_get(found_targets(lookups), email) is None,
    decreases lookups.len(),
{
    if lookups.len() == 0 {
        lemma_assoc_get_none(Seq::<(Seq<char>, i64)>::empty(), email);
    } else {
        let n = lookups.len() - 1;
        let prefix = lookups.subrange(0, n);
        lemma_found_targets_lookup(prefix, email);
        let prev = found_targets(prefix);
        let last = lookups[n];
        if let Some(uid) = last.1 {
            lemma_assoc_set_get(prev, last.0, uid, email);
        }
        assert forall|i: int|
            0 <= i < lookups.len() && (#[trigger] lookups[i]).0 == email && lookups[i].1 is Some && (forall|j: int|
                i < j < lookups.len() && lookups[j].0 == email ==> lookups[j].1 is None)
            implies assoc_get(found_targets(lookups), email) == lookups[i].1 by {
            if i < n {
                assert(prefix[i] == lookups[i]);
                assert forall|j: int| i < j < prefix.len() && prefix[j].0 == email implies prefix[j].1 is None by {
                    assert(prefix[j] == lookups[j]);
                }
                assert(!(last.0 == email && last.1 is Some));
            }
        }
        if forall|j: int| 0 <= j < lookups.len() && (#[trigger] lookups[j]).0 == email ==> lookups[j].1 is None {
            assert forall|j: int| 0 <= j < prefix.len() && (#[trigger] prefix[j]).0 == email implies prefix[j].1 is None by {
                assert(prefix[j] == lookups[j]);
            }
        }
    }
}

/// The users a revoke request takes away are exactly those found: each id
/// found is listed, each listed id was found, and none is listed more often
/// than there are lookups.
pub proof fn lemma_found_uids(lookups: Seq<Option<i64>>)
    ensures
        found_uids_of(lookups).len() <= lookups.len(),
        forall|i: int| 0 <= i < lookups.len() && (#[trigger] lookups[i]) is Some ==> found_uids_of(lookups).contains(
            lookups[i].unwrap(),
        ),
        forall|k: int| 0 <= k < found_uids_of(lookups).len() ==> lookups.contains(Some(#[trigger] found_uids_of(lookups)[k])),
    decreases lookups.len(),
{
    if lookups.len() > 0 {
        let n = lookups.len() - 1;
        let prefix = lookups.subrange(0, n);
        lemma_found_uids(prefix);
        let prev = found_uids_of(prefix);
        let r = found_uids_of(lookups);
        assert forall|i: int| 0 <= i < lookups.len() && (#[trigger] lookups[i]) is Some implies r.contains(lookups[i].unwrap()) by {
            if i < n {
                assert(prefix[i] == lookups[i]);
                let w = choose|w: int| 0 <= w < prev.len() && prev[w] == lookups[i].unwrap();
                assert(r[w] == prev[w]);
            } else {
                assert(r[r.len() - 1] == lookups[i].unwrap());
            }
        }
        assert forall|k: int| 0 <= k < r.len() implies lookups.contains(Some(#[trigger] r[k])) by {
            if k < prev.len() {
                assert(r[k] == prev[k]);
                let w = choose|w: int| 0 <= w < prefix.len() && prefix[w] == Some(prev[k]);
                assert(lookups[w] == prefix[w]);
            } else {
                assert(lookups[n] == Some(r[k]));
            }
        }
    }
}

/// The guests a share request adds are exactly the found users without a
/// role: each such user's email is listed, and each listed email is that of
/// such a user.
pub proof fn lemma_guest_emails(targets: Seq<(Seq<char>, i64)>, has_role: Seq<bool>)
    requires
        has_role.len() == targets.len(),
    ensures
        guest_emails_of(targets, has_role).len() <= targets.len(),
        forall|i: int| 0 <= i < targets.len() && !has_role[i] ==> guest_emails_of(targets, has_role).contains(
            (#[trigger] targets[i]).0,
        ),
        forall|k: int|
            0 <= k < guest_emails_of(targets, has_role).len() ==> exists|i: int|
                0 <= i < targets.len() && !has_role[i] && #[trigger] targets[i].0 == #[trigger] guest_emails_of(
                    targets,
                    has_role,
                )[k],
{
    lemma_guest_emails_prefix(targets, has_role);
}

/// The guest emails of the first targets, where the roles run at least as far.
proof fn lemma_guest_emails_prefix(targets: Seq<(Seq<char>, i64)>, has_role: Seq<bool>)
    requires
        has_role.len() >= targets.len(),
    ensures
        guest_emails_of(targets, has_role).len() <= targets.len(),
        forall|i: int| 0 <= i < targets.len() && !has_role[i] ==> guest_emails_of(targets, has_role).contains(
            (#[trigger] targets[i]).0,
        ),
        forall|k: int|
            0 <= k < guest_emails_of(targets, has_role).len() ==> exists|i: int|
                0 <= i < targets.len() && !has_role[i] && #[trigger] targets[i].0 == #[trigger] guest_emails_of(
                    targets,
                    has_role,
                )[k],
    decreases targets.len(),
{
    if targets.len() > 0 {
        let n = targets.len() - 1;
        let prefix = targets.subrange(0, n);
        lemma_guest_emails_prefix(prefix, has_role);
        let prev = guest_emails_of(prefix, has_role);
        let r = guest_emails_of(targets, has_role);
        assert forall|i: int| 0 <= i < targets.len() && !has_role[i] implies r.contains((#[trigger] targets[i]).0) by {
            if i < n {
                assert(prefix[i] == targets[i]);
                let w = choose|w: int| 0 <= w < prev.len() && prev[w] == prefix[i].0;
                assert(r[w] == prev[w]);
            } else {
                assert(r[r.len() - 1] == targets[i].0);
            }
        }
        assert forall|k: int| 0 <= k < r.len() implies exists|i: int|
            0 <= i < targets.len() && !has_role[i] && #[trigger] targets[i].0 == #[trigger] r[k] by {
            if k < prev.len() {
                assert(r[k] == prev[k]);
                let i = choose|i: int| 0 <= i < prefix.len() && !has_role[i] && #[trigger] prefix[i].0 == prev[k];
                assert(targets[i] == prefix[i]);
            } else {
                assert(targets[n].0 == r[k]);
            }
        }
    }
}

} // verus!
