use users_api::model::UserStore;
use users_api::user_service::{
    api_fallback, create_user, delete_user, get_user, get_users, update_user, CreateUserInput,
    Pagination, UpdateUserInput,
};

fn input(name: &str, username: &str) -> CreateUserInput {
    CreateUserInput { name: name.to_owned(), username: username.to_owned() }
}

#[test]
fn create_then_get_returns_supplied_fields() {
    let mut store = UserStore::new();
    let (code, created) = create_user(&mut store, input("Ada", "ada"));
    assert_eq!(code, 201);
    assert_eq!(created.name, "Ada");
    assert_eq!(created.username, "ada");
    let got = get_user(&store, created.id).expect("created record must be found");
    assert_eq!(got.0, 200);
    assert_eq!(got.1.name, "Ada");
    assert_eq!(got.1.username, "ada");
}

#[test]
fn create_assigns_fresh_ids() {
    let mut store = UserStore::new();
    let (_, a) = create_user(&mut store, input("Ada", "ada"));
    let (_, b) = create_user(&mut store, input("Ada", "ada"));
    assert_ne!(a.id, b.id);
    let (_, listed) = get_users(&store, None);
    assert_eq!(listed.len(), 2);
}

#[test]
fn get_unknown_id_is_404() {
    let store = UserStore::new();
    let r = get_user(&store, 7);
    assert!(r.is_err());
    assert_eq!(r.unwrap_err(), 404);
}

#[test]
fn get_deleted_id_is_404() {
    let mut store = UserStore::new();
    let (_, created) = create_user(&mut store, input("Ada", "ada"));
    assert_eq!(delete_user(&mut store, created.id), 204);
    assert!(get_user(&store, created.id).is_err());
    assert_eq!(get_user(&store, created.id).unwrap_err(), 404);
}

#[test]
fn list_returns_every_record_exactly_once() {
    let mut store = UserStore::new();
    let mut ids = Vec::new();
    for i in 0..3 {
        let (_, u) = create_user(&mut store, input(&format!("n{i}"), &format!("u{i}")));
        ids.push(u.id);
    }
    let (code, listed) = get_users(&store, None);
    assert_eq!(code, 200);
    assert_eq!(listed.len(), 3);
    for id in &ids {
        assert_eq!(listed.iter().filter(|u| u.id == *id).count(), 1);
    }
}

#[test]
fn pagination_skips_and_takes() {
    let mut store = UserStore::new();
    for i in 0..5 {
        create_user(&mut store, input(&format!("n{i}"), &format!("u{i}")));
    }
    let (_, all) = get_users(&store, None);
    let page = Pagination { offset: Some(2), limit: Some(1) };
    let (code, listed) = get_users(&store, Some(page));
    assert_eq!(code, 200);
    assert_eq!(listed.len(), 1);
    assert_eq!(listed[0].id, all[2].id);
    assert_eq!(listed[0].name, all[2].name);
}

#[test]
fn pagination_offset_beyond_size_is_empty_200() {
    let mut store = UserStore::new();
    create_user(&mut store, input("Ada", "ada"));
    let page = Pagination { offset: Some(9), limit: None };
    let (code, listed) = get_users(&store, Some(page));
    assert_eq!(code, 200);
    assert!(listed.is_empty());
}

#[test]
fn update_name_only_keeps_username() {
    let mut store = UserStore::new();
    let (_, created) = create_user(&mut store, input("Ada", "ada"));
    let upd = UpdateUserInput { name: Some("Grace".to_owned()), username: None };
    let (code, updated) = update_user(&mut store, created.id, upd).expect("record exists");
    assert_eq!(code, 201);
    assert_eq!(updated.id, created.id);
    assert_eq!(updated.name, "Grace");
    assert_eq!(updated.username, "ada");
    let got = get_user(&store, created.id).unwrap();
    assert_eq!(got.1.name, "Grace");
    assert_eq!(got.1.username, "ada");
}

#[test]
fn update_username_only_keeps_name() {
    let mut store = UserStore::new();
    let (_, created) = create_user(&mut store, input("Ada", "ada"));
    let upd = UpdateUserInput { name: None, username: Some("ada2".to_owned()) };
    let (_, updated) = update_user(&mut store, created.id, upd).expect("record exists");
    assert_eq!(updated.name, "Ada");
    assert_eq!(updated.username, "ada2");
}

#[test]
fn update_unknown_id_is_404_and_creates_nothing() {
    let mut store = UserStore::new();
    let upd = UpdateUserInput { name: Some("Grace".to_owned()), username: None };
    let r = update_user(&mut store, 42, upd);
    assert_eq!(r.unwrap_err(), 404);
    let (_, listed) = get_users(&store, None);
    assert!(listed.is_empty());
    assert!(get_user(&store, 42).is_err());
}

#[test]
fn delete_twice_is_404_the_second_time() {
    let mut store = UserStore::new();
    let (_, created) = create_user(&mut store, input("Ada", "ada"));
    assert_eq!(delete_user(&mut store, created.id), 204);
    assert_eq!(delete_user(&mut store, created.id), 404);
    assert_eq!(delete_user(&mut store, 99), 404);
}

#[test]
fn fallback_is_structured_404() {
    let (code, body) = api_fallback();
    assert_eq!(code, 404);
    assert_eq!(body, "{\"status\":404,\"message\":\"Not Found\"}");
}

#[test]
fn full_scenario() {
    let mut store = UserStore::new();
    let (code, created) = create_user(&mut store, input("Ada", "ada"));
    assert_eq!(code, 201);
    assert_eq!(created.name, "Ada");
    assert_eq!(created.username, "ada");
    let id = created.id;

    let got = get_user(&store, id).unwrap();
    assert_eq!(got.0, 200);
    assert_eq!(got.1.name, "Ada");
    assert_eq!(got.1.username, "ada");

    let upd = UpdateUserInput { name: None, username: Some("ada2".to_owned()) };
    let (code, updated) = update_user(&mut store, id, upd).unwrap();
    assert_eq!(code, 201);
    assert_eq!(updated.id, id);
    assert_eq!(updated.name, "Ada");
    assert_eq!(updated.username, "ada2");

    assert_eq!(delete_user(&mut store, id), 204);
    assert_eq!(get_user(&store, id).unwrap_err(), 404);
}
