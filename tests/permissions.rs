use std::collections::HashMap;
use cashier_query::timestamp::Timestamp;
use cashier_query::users::{
    HasId, PermissionSubjectAction, PermissionTree, Role, RoleAll, RoleShort, RoleShortWithPermissions,
    RoleWithoutPermissions, User, UserAccessLevel, UserAll, UserPublic, UserWithoutRoles,
};

fn permission(subject: &str, action: &str) -> PermissionSubjectAction {
    PermissionSubjectAction { subject: subject.into(), action: action.into() }
}

fn sample() -> PermissionTree {
    let mut admin = HashMap::new();
    admin.insert(1, permission("user", "read"));
    admin.insert(2, permission("order", "subscribe"));
    let mut clerk = HashMap::new();
    clerk.insert(3, permission("item", "subscribe"));
    let mut roles = HashMap::new();
    roles.insert(10, admin);
    roles.insert(20, clerk);
    PermissionTree::new(roles)
}

#[test]
fn get_flattens_all_roles() {
    let all = sample().get();
    assert_eq!(all.len(), 3);
    assert_eq!(all.get(&1), Some(&permission("user", "read")));
    assert_eq!(all.get(&2), Some(&permission("order", "subscribe")));
    assert_eq!(all.get(&3), Some(&permission("item", "subscribe")));
}

#[test]
fn get_subscribe_lists_each_subject_once() {
    let mut tree = sample();
    tree.add_permission(10, 4, "item".into(), "subscribe".into());
    let mut subjects = tree.get_subscribe();
    subjects.sort();
    assert_eq!(subjects, vec!["item".to_string(), "order".to_string()]);
}

#[test]
fn roles_can_be_added_and_removed() {
    let mut tree = PermissionTree::default();
    assert!(tree.get().is_empty());
    let mut perms = HashMap::new();
    perms.insert(5, permission("shop", "write"));
    tree.add_role(7, perms);
    assert_eq!(tree.get().get(&5), Some(&permission("shop", "write")));
    tree.remove_role(7);
    assert!(tree.get().is_empty());
}

#[test]
fn permissions_change_only_in_present_roles() {
    let mut tree = sample();
    tree.add_permission(99, 8, "ghost".into(), "read".into());
    assert_eq!(tree.get().len(), 3);
    tree.remove_permission(10, 1);
    assert_eq!(tree.get().get(&1), None);
    assert_eq!(tree.get().len(), 2);
    tree.remove_permission(99, 2);
    assert_eq!(tree.get().len(), 2);
}

#[test]
fn access_level_defaults_to_public() {
    assert!(matches!(UserAccessLevel::default(), UserAccessLevel::Public));
}

#[test]
fn role_with_permissions_joins_parts() {
    let role = RoleShortWithPermissions::from((RoleShort::new(3, "admin".into()), vec![1, 2]));
    let text = format!("{:?}", role);
    assert!(text.contains("admin"));
    assert!(text.contains("[1, 2]"));
}

#[test]
fn map_avatars_rewrites_present_names() {
    let mut user = User::Public(UserPublic {
        id: 4,
        username: "ann".into(),
        nickname: None,
        avatar: Some("a.png".into()),
        avatar128: None,
        created_at: Timestamp { secs: 0, nanos: 0 },
    });
    user.map_avatars(|x| format!("/media/avatars/{}", x));
    match &user {
        User::Public(p) => {
            assert_eq!(p.avatar.as_deref(), Some("/media/avatars/a.png"));
            assert_eq!(p.avatar128, None);
            assert_eq!(p.username, "ann");
        }
        _ => panic!("variant changed"),
    }
    assert_eq!(user.get_id(), 4);
}

#[test]
fn user_all_joins_roles() {
    let base = UserWithoutRoles {
        id: 9,
        username: "bob".into(),
        email: Some("b@example.com".into()),
        nickname: None,
        avatar: None,
        avatar128: Some("s.png".into()),
        blocked: Some(false),
        created_at: Timestamp { secs: 1, nanos: 0 },
        updated_at: Timestamp { secs: 2, nanos: 0 },
    };
    let mut user = User::All(UserAll::from((base, vec![1, 3])));
    user.map_avatars(|x| x.to_uppercase());
    match &user {
        User::All(u) => {
            assert_eq!(u.roles, vec![1, 3]);
            assert_eq!(u.avatar, None);
            assert_eq!(u.avatar128.as_deref(), Some("S.PNG"));
        }
        _ => panic!("variant changed"),
    }
    assert_eq!(user.get_id(), 9);
}

#[test]
fn roles_report_their_id() {
    let at = Timestamp { secs: 5, nanos: 6 };
    assert_eq!(Role::Short(RoleShort::new(3, "admin".into())).get_id(), 3);
    let full = RoleWithoutPermissions::new(7, "clerk".into(), "Clerk".into(), "sells".into(), at, at);
    assert_eq!(Role::WithoutPermissions(full).get_id(), 7);
    let full = RoleWithoutPermissions::new(8, "boss".into(), "Boss".into(), "runs".into(), at, at);
    assert_eq!(Role::All(RoleAll::from((full, vec![2]))).get_id(), 8);
}
