use actor_core::model::{Post, User, UserForInsert, UserForUpdate};

#[test]
fn user_for_update_from_user_copies_every_field() {
    let user = User {
        id: 7,
        name: "name".to_string(),
        hair_color: Some("blank".to_string()),
        created_at: 1_577_836_800,
        updated_at: 1_577_923_200,
    };
    let upd = UserForUpdate::from(user);
    assert_eq!(upd.id, 7);
    assert_eq!(upd.name, "name");
    assert_eq!(upd.hair_color, Some(Some("blank".to_string())));
}

#[test]
fn user_for_update_from_user_keeps_missing_hair_color() {
    let user = User {
        id: 1,
        name: "n".to_string(),
        hair_color: None,
        created_at: 0,
        updated_at: 0,
    };
    let upd = UserForUpdate::from(user);
    assert_eq!(upd.hair_color, Some(None));
}

#[test]
fn insert_and_post_records_hold_plain_values() {
    let ins = UserForInsert { name: "name".to_string(), hair_color: Some("blank".to_string()) };
    assert_eq!(ins.name, "name");

    let post = Post {
        id: 1,
        user_id: 7,
        title: "t".to_string(),
        body: "b".to_string(),
        published: false,
    };
    assert_eq!(post.user_id, 7);
    assert!(!post.published);
}
