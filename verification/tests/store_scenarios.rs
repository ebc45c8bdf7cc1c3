use project_tracker::cookie::make_cookie_value;
use project_tracker::passwords::verify_password;
use project_tracker::serialise::{get_flash_msg, serialise_data, FlashMsg};
use project_tracker::store::{count_admins, count_in_progress, Store, StoreError, User};

fn store_with_user(email: &str, password: &str) -> (Store, u64) {
    let mut store = Store::new();
    let id = store.add_user(email, password).expect("registration should succeed");
    (store, id)
}

#[test]
fn register_then_authenticate_returns_same_email() {
    let (store, id) = store_with_user("alice@example.com", "pw123");
    let cookie = make_cookie_value(id);
    let user = store
        .authenticate(Some(cookie.as_str()))
        .expect("cookie written at registration should authenticate");
    assert_eq!(user.email, "alice@example.com");
    assert_eq!(user.id, id);
}

#[test]
fn authenticate_without_cookie_is_guest() {
    let (store, _) = store_with_user("alice@example.com", "pw123");
    assert!(store.authenticate(None).is_none());
    assert!(store.authenticate(Some("not-a-number")).is_none());
    assert!(store.authenticate(Some("999")).is_none());
}

#[test]
fn authenticate_admin_requires_flag() {
    let (mut store, id) = store_with_user("alice@example.com", "pw123");
    let cookie = make_cookie_value(id);
    // registration never grants admin rights
    assert!(store.authenticate_admin(Some(cookie.as_str())).is_none());
    // the same cookie resolves once the flag is set on the stored row
    store.users[0].admin = true;
    let admin = store.authenticate_admin(Some(cookie.as_str())).expect("flagged user is admin");
    assert_eq!(admin.user.id, id);
}

#[test]
fn login_checks_email_and_password() {
    let (store, id) = store_with_user("alice@example.com", "pw123");
    assert_eq!(store.login("alice@example.com", "pw123"), Ok(id));
    assert_eq!(
        store.login("alice@example.com", "wrong"),
        Err(StoreError::NotAuthorized)
    );
    assert_eq!(
        store.login("nobody@example.com", "pw123"),
        Err(StoreError::NotFound)
    );
}

#[test]
fn duplicate_email_is_rejected() {
    let (mut store, _) = store_with_user("alice@example.com", "pw123");
    assert_eq!(
        store.add_user("alice@example.com", "other"),
        Err(StoreError::ValidationFailure)
    );
    assert_eq!(store.users.len(), 1);
}

#[test]
fn register_user_requires_matching_confirmation() {
    let mut store = Store::new();
    assert_eq!(
        store.register_user("alice@example.com", "pw123", "pw124"),
        Err(StoreError::ValidationFailure)
    );
    assert_eq!(store.users.len(), 0);
    assert!(store.register_user("alice@example.com", "pw123", "pw123").is_ok());
    assert_eq!(store.users.len(), 1);
}

#[test]
fn listing_for_user_without_projects_is_empty() {
    let (store, id) = store_with_user("alice@example.com", "pw123");
    let projects = store.query_all_projects_for_user(id);
    assert!(projects.is_empty());
}

#[test]
fn delete_by_non_owner_leaves_project_intact() {
    let (mut store, alice_id) = store_with_user("alice@example.com", "pw123");
    let bob_id = store.add_user("bob@example.com", "hunter2").unwrap();
    let project_id = store.add_project("Website", alice_id, "").unwrap();
    let bob = store.query_user_by_id(bob_id).unwrap();

    assert_eq!(
        store.delete_project_by_id(project_id, &bob),
        Err(StoreError::NotAuthorized)
    );

    // the project is unchanged when re-fetched
    let project = store.query_project_by_id(project_id).unwrap();
    assert_eq!(project.id_proj, Some(project_id));
    assert_eq!(project.name, "Website");
    assert_eq!(project.end_date, "");
    assert_eq!(project.user_id, alice_id);
}

#[test]
fn full_scenario_register_login_create_delete() {
    let mut store = Store::new();
    let alice_id = store.add_user("alice@example.com", "pw123").unwrap();
    let bob_id = store.add_user("bob@example.com", "hunter2").unwrap();

    // login succeeds and yields the id the cookie is written from
    let session = store.login("alice@example.com", "pw123").unwrap();
    assert_eq!(session, alice_id);
    let cookie = make_cookie_value(session);
    let alice = store.authenticate(Some(cookie.as_str())).unwrap();

    // create a project; the listing holds exactly it, still in progress
    let project_id = store.add_project("Website", alice.id, "").unwrap();
    let projects = store.query_all_projects_for_user(alice.id);
    assert_eq!(projects.len(), 1);
    assert_eq!(projects[0].name, "Website");
    assert_eq!(projects[0].end_date, "");
    assert_eq!(projects[0].id_proj, Some(project_id));

    // a different user cannot delete it
    let bob = store.query_user_by_id(bob_id).unwrap();
    assert_eq!(
        store.delete_project_by_id(project_id, &bob),
        Err(StoreError::NotAuthorized)
    );
    assert!(store.query_project_by_id(project_id).is_ok());

    // the owner can, and the project is gone afterwards
    assert_eq!(store.delete_project_by_id(project_id, &alice), Ok(()));
    assert_eq!(
        store.query_project_by_id(project_id).unwrap_err(),
        StoreError::NotFound
    );
}

#[test]
fn edit_persists_reformatted_end_date() {
    let (mut store, alice_id) = store_with_user("alice@example.com", "pw123");
    let project_id = store.add_project("Website", alice_id, "").unwrap();
    let alice = store.query_user_by_id(alice_id).unwrap();

    let r = store.edit_project(project_id, "Website", "2020-01-01T10:00:00", alice);
    assert_eq!(r, Ok(project_id));
    let project = store.query_project_by_id(project_id).unwrap();
    assert_eq!(project.end_date, "2020-01-01 10:00:00");
}

#[test]
fn edit_with_empty_end_date_persists_empty() {
    let (mut store, alice_id) = store_with_user("alice@example.com", "pw123");
    let project_id = store.add_project("Website", alice_id, "").unwrap();
    let alice = store.query_user_by_id(alice_id).unwrap();

    store
        .edit_project(project_id, "Website", "2020-01-01T10:00:00", alice.clone())
        .unwrap();
    let r = store.edit_project(project_id, "Website v2", "", alice);
    assert_eq!(r, Ok(project_id));
    let project = store.query_project_by_id(project_id).unwrap();
    assert_eq!(project.name, "Website v2");
    assert_eq!(project.end_date, "");
}

#[test]
fn edit_rejects_malformed_end_date() {
    let (mut store, alice_id) = store_with_user("alice@example.com", "pw123");
    let project_id = store.add_project("Website", alice_id, "").unwrap();
    let alice = store.query_user_by_id(alice_id).unwrap();

    let r = store.edit_project(project_id, "Website", "January 1st", alice);
    assert_eq!(r, Err(StoreError::ValidationFailure));
    let project = store.query_project_by_id(project_id).unwrap();
    assert_eq!(project.name, "Website");
    assert_eq!(project.end_date, "");
}

#[test]
fn edit_requires_ownership_and_existence() {
    let (mut store, alice_id) = store_with_user("alice@example.com", "pw123");
    let bob_id = store.add_user("bob@example.com", "hunter2").unwrap();
    let project_id = store.add_project("Website", alice_id, "").unwrap();
    let bob = store.query_user_by_id(bob_id).unwrap();

    assert_eq!(
        store.edit_project(project_id, "Hijacked", "", bob.clone()),
        Err(StoreError::NotAuthorized)
    );
    assert_eq!(
        store.edit_project(project_id + 1, "Nothing", "", bob),
        Err(StoreError::NotFound)
    );
    let project = store.query_project_by_id(project_id).unwrap();
    assert_eq!(project.name, "Website");
}

#[test]
fn delete_of_missing_project_is_not_found() {
    let (mut store, alice_id) = store_with_user("alice@example.com", "pw123");
    let alice = store.query_user_by_id(alice_id).unwrap();
    assert_eq!(
        store.delete_project_by_id(99, &alice),
        Err(StoreError::NotFound)
    );
}

#[test]
fn add_project_requires_existing_owner() {
    let mut store = Store::new();
    assert_eq!(store.add_project("Orphan", 7, ""), Err(StoreError::NotFound));
}

#[test]
fn exhausted_id_space_is_a_backend_failure() {
    let (mut store, alice_id) = store_with_user("alice@example.com", "pw123");
    store.next_project_id = u64::MAX;
    assert_eq!(
        store.add_project("One too many", alice_id, ""),
        Err(StoreError::BackendFailure)
    );
    assert!(store.projects.is_empty());
}

#[test]
fn queries_list_all_rows() {
    let (mut store, alice_id) = store_with_user("alice@example.com", "pw123");
    let bob_id = store.add_user("bob@example.com", "hunter2").unwrap();
    store.add_project("Website", alice_id, "").unwrap();
    store.add_project("Backend", bob_id, "").unwrap();
    store.add_project("Garden", alice_id, "").unwrap();

    assert_eq!(store.query_all_users().len(), 2);
    assert_eq!(store.query_all_projects().len(), 3);
    let alices: Vec<String> = store
        .query_all_projects_for_user(alice_id)
        .into_iter()
        .map(|p| p.name)
        .collect();
    assert_eq!(alices, vec!["Website".to_string(), "Garden".to_string()]);

    let by_email = store
        .query_user_by_email("bob@example.com".to_string())
        .unwrap();
    assert_eq!(by_email.id, bob_id);
    assert_eq!(
        store
            .query_user_by_email("carol@example.com".to_string())
            .unwrap_err(),
        StoreError::NotFound
    );
    assert_eq!(store.query_user_by_id(99).unwrap_err(), StoreError::NotFound);
    let admin = store.query_admin_by_id(bob_id).unwrap();
    assert_eq!(admin.user.email, "bob@example.com");
}

#[test]
fn counts_for_aggregate_listings() {
    let (mut store, alice_id) = store_with_user("alice@example.com", "pw123");
    store.add_user("bob@example.com", "hunter2").unwrap();
    store.users[0].admin = true;
    let p1 = store.add_project("Website", alice_id, "").unwrap();
    store.add_project("Backend", alice_id, "").unwrap();
    let alice = store.query_user_by_id(alice_id).unwrap();
    store
        .edit_project(p1, "Website", "2020-01-01T10:00:00", alice)
        .unwrap();

    assert_eq!(count_admins(&store.query_all_users()), 1);
    // one project got an end date, one is still in progress
    assert_eq!(count_in_progress(&store.query_all_projects()), 1);
}

#[test]
fn serialise_data_keeps_good_rows_in_order() {
    let rows: Vec<Result<i32, String>> = vec![
        Ok(1),
        Err("bad row".to_string()),
        Ok(2),
        Err("worse row".to_string()),
        Ok(3),
    ];
    assert_eq!(serialise_data(rows), vec![1, 2, 3]);

    let none: Vec<Result<i32, String>> = vec![Err("only bad".to_string())];
    assert_eq!(serialise_data(none), Vec::<i32>::new());

    let empty: Vec<Result<i32, String>> = Vec::new();
    assert_eq!(serialise_data(empty), Vec::<i32>::new());
}

#[test]
fn flash_message_rendering() {
    let msg = get_flash_msg(Some(FlashMsg {
        kind: "success".to_string(),
        message: "Project deleted".to_string(),
    }));
    assert_eq!(msg, "success: Project deleted");
    assert_eq!(get_flash_msg(None), "");
}

#[test]
fn ids_start_at_one_and_grow() {
    let mut store = Store::new();
    let a = store.add_user("alice@example.com", "pw123").unwrap();
    let b = store.add_user("bob@example.com", "hunter2").unwrap();
    assert_eq!(a, 1);
    assert_eq!(b, 2);
    let p = store.add_project("Website", a, "").unwrap();
    assert_eq!(p, 1);
}

#[test]
fn stored_password_is_a_hash_that_verifies() {
    let (store, id) = store_with_user("alice@example.com", "pw123");
    let user: User = store.query_user_by_id(id).unwrap();
    assert_ne!(user.password, "pw123");
    assert_eq!(verify_password("pw123", &user.password), Ok(true));
}

#[test]
fn from_rows_rebuilds_a_consistent_store() {
    let (mut store, alice_id) = store_with_user("alice@example.com", "pw123");
    store.add_project("Website", alice_id, "").unwrap();

    let users = store.query_all_users();
    let projects = store.query_all_projects();
    let rebuilt = Store::from_rows(users, projects).expect("rows are consistent");
    assert_eq!(rebuilt.users.len(), 1);
    assert_eq!(rebuilt.projects.len(), 1);
    // the rebuilt store allocates past the highest stored id
    assert!(rebuilt.next_user_id > alice_id);
}

#[test]
fn from_rows_rejects_inconsistent_rows() {
    let duplicate_ids = vec![
        User {
            id: 1,
            email: "a@example.com".to_string(),
            password: "x".to_string(),
            admin: false,
        },
        User {
            id: 1,
            email: "b@example.com".to_string(),
            password: "y".to_string(),
            admin: false,
        },
    ];
    assert_eq!(
        Store::from_rows(duplicate_ids, Vec::new()).unwrap_err(),
        StoreError::ValidationFailure
    );

    let orphan = project_tracker::store::Project {
        id_proj: Some(1),
        name: "Orphan".to_string(),
        start_date: String::new(),
        end_date: String::new(),
        user_id: 9,
    };
    assert_eq!(
        Store::from_rows(Vec::new(), vec![orphan]).unwrap_err(),
        StoreError::ValidationFailure
    );
}

#[test]
fn add_project_stores_given_start_date() {
    let (mut store, alice_id) = store_with_user("alice@example.com", "pw123");
    let project_id = store
        .add_project("Website", alice_id, "2021-06-01 09:30:00")
        .unwrap();
    let project = store.query_project_by_id(project_id).unwrap();
    assert_eq!(project.start_date, "2021-06-01 09:30:00");
    assert_eq!(project.end_date, "");
}

#[test]
fn add_project_rejects_malformed_start_date() {
    let (mut store, alice_id) = store_with_user("alice@example.com", "pw123");
    assert_eq!(
        store.add_project("Website", alice_id, "2021-06-01T09:30:00"),
        Err(StoreError::ValidationFailure)
    );
    assert_eq!(
        store.add_project("Website", alice_id, "yesterday"),
        Err(StoreError::ValidationFailure)
    );
    assert!(store.projects.is_empty());
}
