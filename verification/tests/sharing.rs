use appflowy_cloud::sharing::{
    access_detail_view_ids, found_uids, group_shared_users, primary_details, select_shared_users_for_views,
    select_shared_views_for_user, share_targets, shared_views_response, target_uids, GuestError, SharedUser,
    SharedUserRow, SharedView, SharedViewDetails, SharedViewRow,
};

fn s(x: &str) -> String {
    x.to_string()
}

const V1: u128 = 0x550e8400_e29b_41d4_a716_446655440000;
const V2: u128 = 0x67e55044_10b1_426f_9247_bb680e5fe0c8;

fn user(view_id: u128, email: &str) -> SharedUser {
    SharedUser {
        view_id,
        email: s(email),
        name: s(""),
        access_level: 10,
        role: 3,
        avatar_url: None,
        pending_invitation: false,
    }
}

#[test]
fn shared_views_parse_ids_and_fall_back_to_nil() {
    let rows = vec![
        SharedViewRow { view_id: s("550e8400-e29b-41d4-a716-446655440000"), access_level: 20 },
        SharedViewRow { view_id: s("not-a-uuid"), access_level: 50 },
    ];
    assert_eq!(
        select_shared_views_for_user(&rows),
        vec![SharedView { view_id: V1, access_level: 20 }, SharedView { view_id: 0, access_level: 50 }]
    );
}

#[test]
fn shared_users_are_grouped_by_requested_view() {
    let rows = vec![
        SharedUserRow { view_id: s("550e8400-e29b-41d4-a716-446655440000"), access_level: 10, email: s("a@x"), name: Some(s("A")), role_id: Some(2) },
        SharedUserRow { view_id: s("67e55044-10b1-426f-9247-bb680e5fe0c8"), access_level: 30, email: s("b@x"), name: None, role_id: None },
        SharedUserRow { view_id: s("550e8400-e29b-41d4-a716-446655440000"), access_level: 50, email: s("c@x"), name: None, role_id: None },
    ];
    let details = select_shared_users_for_views(&rows, &vec![V2, V1, 7]);
    assert_eq!(details.len(), 3);
    assert_eq!(details[0].view_id, V2);
    assert_eq!(
        details[0].shared_with,
        vec![SharedUser { view_id: V2, email: s("b@x"), name: s(""), access_level: 30, role: 3, avatar_url: None, pending_invitation: false }]
    );
    assert_eq!(details[1].view_id, V1);
    assert_eq!(details[1].shared_with.len(), 2);
    assert_eq!(details[1].shared_with[0].name, s("A"));
    assert_eq!(details[1].shared_with[0].role, 2);
    assert_eq!(details[1].shared_with[1].email, s("c@x"));
    assert_eq!(details[2], SharedViewDetails { view_id: 7, shared_with: vec![] });
}

#[test]
fn grouping_lists_every_user_of_a_view() {
    let users = vec![user(1, "a"), user(2, "b"), user(1, "c")];
    let details = group_shared_users(&users, &vec![1, 2]);
    assert_eq!(details[0].shared_with, vec![user(1, "a"), user(1, "c")]);
    assert_eq!(details[1].shared_with, vec![user(2, "b")]);
}

#[test]
fn share_request_without_registered_users_is_refused() {
    let lookups = vec![(s("a@x"), None), (s("b@x"), None)];
    assert_eq!(
        share_targets(&lookups),
        Err(GuestError::InvalidRequest(s(
            "No registered users found for the provided emails. Users must create an account first."
        )))
    );
    assert_eq!(share_targets(&vec![]), Err(GuestError::InvalidRequest(s(
        "No registered users found for the provided emails. Users must create an account first."
    ))));
}

#[test]
fn share_request_keeps_each_email_once() {
    let lookups = vec![(s("a@x"), Some(1)), (s("b@x"), None), (s("c@x"), Some(3)), (s("a@x"), Some(4))];
    let targets = share_targets(&lookups).unwrap();
    assert_eq!(targets, vec![(s("a@x"), 4), (s("c@x"), 3)]);
    assert_eq!(target_uids(&targets), vec![4, 3]);
}

#[test]
fn revoke_takes_found_users_in_order() {
    assert_eq!(found_uids(&vec![Some(5), None, Some(2)]), vec![5, 2]);
    assert_eq!(found_uids(&vec![]), Vec::<i64>::new());
}

#[test]
fn access_details_read_the_view_once() {
    assert_eq!(access_detail_view_ids(&vec![1, 2], 3), vec![1, 2, 3]);
    assert_eq!(access_detail_view_ids(&vec![1, 3, 2], 3), vec![1, 3, 2]);
    assert_eq!(access_detail_view_ids(&vec![], 3), vec![3]);
}

#[test]
fn primary_details_pick_the_view_or_none() {
    let details = vec![
        SharedViewDetails { view_id: 1, shared_with: vec![user(1, "a")] },
        SharedViewDetails { view_id: 2, shared_with: vec![user(2, "b")] },
    ];
    assert_eq!(primary_details(details, 2), SharedViewDetails { view_id: 2, shared_with: vec![user(2, "b")] });
    let details = vec![SharedViewDetails { view_id: 1, shared_with: vec![user(1, "a")] }];
    assert_eq!(primary_details(details, 9), SharedViewDetails { view_id: 9, shared_with: vec![] });
}

#[test]
fn listing_reports_no_view_without_access() {
    let r = shared_views_response(vec![SharedView { view_id: 1, access_level: 10 }]);
    assert_eq!(r.shared_views, vec![SharedView { view_id: 1, access_level: 10 }]);
    assert!(r.view_id_with_no_access.is_empty());
}

#[test]
fn users_without_a_role_are_added_as_guests() {
    let targets = vec![(s("a@x"), 1), (s("b@x"), 2), (s("c@x"), 3)];
    assert_eq!(
        appflowy_cloud::sharing::guests_to_add(&targets, &vec![false, true, false]),
        vec![s("a@x"), s("c@x")]
    );
    assert!(appflowy_cloud::sharing::guests_to_add(&targets, &vec![true, true, true]).is_empty());
}
