use cross_core::class::Class;
use cross_core::class::Item;
use cross_core::errors::ErrorKind;
use cross_core::store::Store;
use cross_core::subscriber::Friend;
use cross_core::subscriber::Profile;
use cross_core::subscriber::Subscriber;

fn fresh(social: &str) -> Subscriber {
    Subscriber {
        id: None,
        social_id: Some(social.to_string()),
        proto: Some("google".to_string()),
    }
}

fn register(store: &mut Store, social: &str) -> Subscriber {
    let mut s = fresh(social);
    s.create(store).unwrap();
    s
}

#[test]
fn created_id_has_twelve_characters() {
    let mut store = Store::new();
    let s = register(&mut store, "subject-a");
    assert_eq!(s.id.unwrap().chars().count(), 12);
}

#[test]
fn creation_is_idempotent() {
    let mut store = Store::new();
    let first = register(&mut store, "subject-a");
    let second = register(&mut store, "subject-a");
    let third = register(&mut store, "subject-a");
    let id = first.id.unwrap();
    assert_eq!(second.id.unwrap(), id);
    assert_eq!(third.id.unwrap(), id);
}

#[test]
fn creation_registers_membership() {
    let mut store = Store::new();
    let s = register(&mut store, "subject-a");
    let mut probe = fresh("other");
    assert!(probe.check_subscriber(&store, s.id.as_ref().unwrap()));
    assert!(!probe.check_subscriber(&store, &"nobody".to_string()));
}

#[test]
fn losing_creation_attempt_adopts_stored_mapping() {
    let mut store = Store::new();
    let mut first = fresh("subject-a");
    first.create_with_id(&mut store, "AAAAAAAAAAAA".to_string()).unwrap();
    // A duplicate attempt with its own fresh id must re-read the mapping
    // instead of trusting the id it drew.
    let mut second = fresh("subject-a");
    second.create_with_id(&mut store, "BBBBBBBBBBBB".to_string()).unwrap();
    assert_eq!(first.id.unwrap(), "AAAAAAAAAAAA");
    assert_eq!(second.id.unwrap(), "AAAAAAAAAAAA");
}

#[test]
fn distinct_subjects_get_distinct_ids() {
    let mut store = Store::new();
    let a = register(&mut store, "subject-a");
    let b = register(&mut store, "subject-b");
    assert_ne!(a.id.unwrap(), b.id.unwrap());
}

#[test]
fn resolve_finds_created_mapping() {
    let mut store = Store::new();
    let s = register(&mut store, "subject-a");
    let found = Subscriber::get_instance_from_social_id(
        &store,
        &"google".to_string(),
        &"subject-a".to_string(),
    )
    .unwrap();
    assert_eq!(found.id.unwrap(), s.id.unwrap());
    assert!(Subscriber::get_instance_from_social_id(
        &store,
        &"google".to_string(),
        &"unmapped".to_string(),
    )
    .is_none());
}

#[test]
fn set_id_resolves_or_fails() {
    let mut store = Store::new();
    let s = register(&mut store, "subject-a");
    let mut again = fresh("subject-a");
    again.set_id(&store).unwrap();
    assert_eq!(again.id.unwrap(), s.id.unwrap());

    let mut unmapped = fresh("unmapped");
    let e = unmapped.set_id(&store).unwrap_err();
    assert_eq!(e.kind, ErrorKind::SubscriberNotFound);

    let mut incomplete = Subscriber { id: None, social_id: None, proto: None };
    let e = incomplete.set_id(&store).unwrap_err();
    assert_eq!(e.kind, ErrorKind::NoIdentity);
}

#[test]
fn add_friend_is_not_a_rename() {
    let mut store = Store::new();
    let mut owner = register(&mut store, "owner");
    let friend = register(&mut store, "friend");
    let fid = friend.id.unwrap();
    owner
        .set_friend(&mut store, Friend { id: fid.clone(), name: "A".to_string() })
        .unwrap();
    owner
        .set_friend(&mut store, Friend { id: fid.clone(), name: "B".to_string() })
        .unwrap();
    assert_eq!(owner.check_friend(&store, &fid).unwrap(), "A");
}

#[test]
fn add_friend_rejects_unknown_friend() {
    let mut store = Store::new();
    let mut owner = register(&mut store, "owner");
    let e = owner
        .set_friend(&mut store, Friend { id: "stranger".to_string(), name: "X".to_string() })
        .unwrap_err();
    assert_eq!(e.kind, ErrorKind::UnknownFriend);
}

#[test]
fn friend_ops_require_identity() {
    let mut store = Store::new();
    let mut nobody = Subscriber { id: None, social_id: None, proto: None };
    let e = nobody
        .set_friend(&mut store, Friend { id: "x".to_string(), name: "X".to_string() })
        .unwrap_err();
    assert_eq!(e.kind, ErrorKind::NoIdentity);
    let e = nobody.check_friend(&store, &"x".to_string()).unwrap_err();
    assert_eq!(e.kind, ErrorKind::NoIdentity);
    let e = nobody.delete_friend(&mut store, "x".to_string()).unwrap_err();
    assert_eq!(e.kind, ErrorKind::NoIdentity);
    let e = nobody.get_friends(&store).unwrap_err();
    assert_eq!(e.kind, ErrorKind::NoIdentity);
    let e = nobody.get_profile(&store).unwrap_err();
    assert_eq!(e.kind, ErrorKind::NoIdentity);
    let e = nobody.get_other_profile(&store, &"x".to_string()).unwrap_err();
    assert_eq!(e.kind, ErrorKind::NoIdentity);
    let e = nobody.set_profile(&mut store, Profile { name: "N".to_string() }).unwrap_err();
    assert_eq!(e.kind, ErrorKind::NoIdentity);
}

#[test]
fn update_friend_prefers_profile_name() {
    let mut store = Store::new();
    let mut owner = register(&mut store, "owner");
    let mut friend = register(&mut store, "friend");
    let fid = friend.id.clone().unwrap();
    friend.set_profile(&mut store, Profile { name: "Bob".to_string() }).unwrap();
    owner
        .set_friend(&mut store, Friend { id: fid.clone(), name: "old".to_string() })
        .unwrap();
    owner
        .update_friend(&mut store, Friend { id: fid.clone(), name: "fallback".to_string() })
        .unwrap();
    assert_eq!(owner.check_friend(&store, &fid).unwrap(), "Bob");
}

#[test]
fn update_friend_falls_back_without_profile() {
    let mut store = Store::new();
    let mut owner = register(&mut store, "owner");
    let friend = register(&mut store, "friend");
    let fid = friend.id.unwrap();
    owner
        .set_friend(&mut store, Friend { id: fid.clone(), name: "old".to_string() })
        .unwrap();
    owner
        .update_friend(&mut store, Friend { id: fid.clone(), name: "fallback".to_string() })
        .unwrap();
    assert_eq!(owner.check_friend(&store, &fid).unwrap(), "fallback");
}

#[test]
fn update_friend_falls_back_to_id_without_any_name() {
    let mut store = Store::new();
    let mut owner = register(&mut store, "owner");
    let friend = register(&mut store, "friend");
    let fid = friend.id.unwrap();
    owner
        .set_friend(&mut store, Friend { id: fid.clone(), name: "old".to_string() })
        .unwrap();
    owner
        .update_friend(&mut store, Friend { id: fid.clone(), name: "".to_string() })
        .unwrap();
    assert_eq!(owner.check_friend(&store, &fid).unwrap(), fid);
}

#[test]
fn update_friend_requires_existing_edge() {
    let mut store = Store::new();
    let mut owner = register(&mut store, "owner");
    let friend = register(&mut store, "friend");
    let fid = friend.id.unwrap();
    let e = owner
        .update_friend(&mut store, Friend { id: fid, name: "X".to_string() })
        .unwrap_err();
    assert_eq!(e.kind, ErrorKind::FriendNotFound);
}

#[test]
fn delete_friend_is_idempotent() {
    let mut store = Store::new();
    let mut owner = register(&mut store, "owner");
    let friend = register(&mut store, "friend");
    let fid = friend.id.unwrap();
    owner.delete_friend(&mut store, fid.clone()).unwrap();
    owner
        .set_friend(&mut store, Friend { id: fid.clone(), name: "A".to_string() })
        .unwrap();
    owner.delete_friend(&mut store, fid.clone()).unwrap();
    owner.delete_friend(&mut store, fid.clone()).unwrap();
    let e = owner.check_friend(&store, &fid).unwrap_err();
    assert_eq!(e.kind, ErrorKind::FriendNotFound);
}

#[test]
fn get_friends_lists_all_edges() {
    let mut store = Store::new();
    let mut owner = register(&mut store, "owner");
    let f1 = register(&mut store, "friend-1");
    let f2 = register(&mut store, "friend-2");
    let id1 = f1.id.unwrap();
    let id2 = f2.id.unwrap();
    assert!(owner.get_friends(&store).unwrap().is_empty());
    owner
        .set_friend(&mut store, Friend { id: id1.clone(), name: "One".to_string() })
        .unwrap();
    owner
        .set_friend(&mut store, Friend { id: id2.clone(), name: "Two".to_string() })
        .unwrap();
    let friends = owner.get_friends(&store).unwrap();
    assert_eq!(friends.len(), 2);
    assert!(friends.iter().any(|f| f.id == id1 && f.name == "One"));
    assert!(friends.iter().any(|f| f.id == id2 && f.name == "Two"));
}

#[test]
fn profile_round_trip_and_not_found() {
    let mut store = Store::new();
    let mut s = register(&mut store, "subject-a");
    let e = s.get_profile(&store).unwrap_err();
    assert_eq!(e.kind, ErrorKind::ProfileNotFound);
    s.set_profile(&mut store, Profile { name: "Alice".to_string() }).unwrap();
    assert_eq!(s.get_profile(&store).unwrap().name, "Alice");
    s.set_profile(&mut store, Profile { name: "Alicia".to_string() }).unwrap();
    assert_eq!(s.get_profile(&store).unwrap().name, "Alicia");
}

#[test]
fn other_profile_is_existence_gated_only() {
    let mut store = Store::new();
    let mut viewer = register(&mut store, "viewer");
    let mut target = register(&mut store, "target");
    let tid = target.id.clone().unwrap();
    let e = viewer.get_other_profile(&store, &tid).unwrap_err();
    assert_eq!(e.kind, ErrorKind::ProfileNotFound);
    target.set_profile(&mut store, Profile { name: "Bob".to_string() }).unwrap();
    assert_eq!(viewer.get_other_profile(&store, &tid).unwrap().name, "Bob");
}

#[test]
fn item_round_trip() {
    let mut store = Store::new();
    let s = register(&mut store, "subject-a");
    let sid = s.id.unwrap();
    let mut class = Class("books".to_string());
    class
        .set_class(
            &mut store,
            &sid,
            vec![Item { class: "books".to_string(), id: "x".to_string(), donated: true, stock: 7 }],
        )
        .unwrap();
    let items = class.get_class(&store, &sid).unwrap();
    assert_eq!(items.len(), 1);
    assert_eq!(items[0].id, "x");
    assert_eq!(items[0].class, "books");
    assert!(items[0].donated);
    assert_eq!(items[0].stock, 7);
}

#[test]
fn set_items_rejects_reserved_categories() {
    let mut store = Store::new();
    let s = register(&mut store, "subject-a");
    let sid = s.id.unwrap();
    let item = Item { class: "profile".to_string(), id: "x".to_string(), donated: false, stock: 1 };
    let e = Class("profile".to_string())
        .set_class(&mut store, &sid, vec![item.clone()])
        .unwrap_err();
    assert_eq!(e.kind, ErrorKind::InvalidCategory);
    let e = Class("friends".to_string())
        .set_class(&mut store, &sid, vec![item])
        .unwrap_err();
    assert_eq!(e.kind, ErrorKind::InvalidCategory);
}

#[test]
fn empty_set_is_a_no_op() {
    let mut store = Store::new();
    let s = register(&mut store, "subject-a");
    let sid = s.id.unwrap();
    let mut class = Class("books".to_string());
    class
        .set_class(
            &mut store,
            &sid,
            vec![Item { class: "books".to_string(), id: "x".to_string(), donated: false, stock: 3 }],
        )
        .unwrap();
    class.set_class(&mut store, &sid, vec![]).unwrap();
    let items = class.get_class(&store, &sid).unwrap();
    assert_eq!(items.len(), 1);
    assert_eq!(items[0].id, "x");
    assert!(!items[0].donated);
    assert_eq!(items[0].stock, 3);
}

#[test]
fn set_items_merges_and_overwrites_by_id() {
    let mut store = Store::new();
    let s = register(&mut store, "subject-a");
    let sid = s.id.unwrap();
    let mut class = Class("books".to_string());
    class
        .set_class(
            &mut store,
            &sid,
            vec![
                Item { class: "books".to_string(), id: "x".to_string(), donated: false, stock: 1 },
                Item { class: "books".to_string(), id: "y".to_string(), donated: true, stock: 2 },
            ],
        )
        .unwrap();
    class
        .set_class(
            &mut store,
            &sid,
            vec![Item { class: "books".to_string(), id: "x".to_string(), donated: true, stock: 9 }],
        )
        .unwrap();
    let items = class.get_class(&store, &sid).unwrap();
    assert_eq!(items.len(), 2);
    let x = items.iter().find(|i| i.id == "x").unwrap();
    assert!(x.donated);
    assert_eq!(x.stock, 9);
    let y = items.iter().find(|i| i.id == "y").unwrap();
    assert!(y.donated);
    assert_eq!(y.stock, 2);
}

#[test]
fn unknown_category_reads_empty() {
    let mut store = Store::new();
    let s = register(&mut store, "subject-a");
    let sid = s.id.unwrap();
    let items = Class("nothing".to_string()).get_class(&store, &sid).unwrap();
    assert!(items.is_empty());
}

#[test]
fn malformed_stored_value_fails_the_read() {
    let mut store = Store::new();
    let mut owner = register(&mut store, "owner");
    let friend = register(&mut store, "friend");
    let fid = friend.id.unwrap();
    owner
        .set_friend(&mut store, Friend { id: fid, name: "A".to_string() })
        .unwrap();
    // The friend hash shares the category key space; its values are plain
    // names, which do not decode as item statuses.
    let oid = owner.id.unwrap();
    let e = Class("friends".to_string()).get_class(&store, &oid).unwrap_err();
    assert_eq!(e.kind, ErrorKind::ItemsNotFound);
}
