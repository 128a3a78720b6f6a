use rusty_chat::hub::ChatServ;
use rusty_chat::hub::ClientMessage;
use rusty_chat::hub::Connect;
use rusty_chat::hub::Disconnect;
use rusty_chat::hub::HubError;
use rusty_chat::hub::JoinAccepted;

fn join(hub: &mut ChatServ, name: &str) -> JoinAccepted {
    hub.handle_connect(Connect { req_username: Some(name.to_string()) }).expect("join expected")
}

fn names_of(users: &Vec<rusty_chat::hub::UserEntry>) -> Vec<String> {
    users.iter().map(|e| e.name.clone()).collect()
}

#[test]
fn empty_name_is_rejected() {
    let mut hub = ChatServ::new();
    let r = hub.handle_connect(Connect { req_username: Some(String::new()) });
    match r {
        Err(e) => {
            assert_eq!(e, HubError::EmptyName);
            assert_eq!(e.message(), "Username is empty!".to_string());
        },
        Ok(_) => panic!("an empty name must be rejected"),
    }
}

#[test]
fn taken_name_is_rejected() {
    let mut hub = ChatServ::new();
    join(&mut hub, "alice");
    let r = hub.handle_connect(Connect { req_username: Some("alice".to_string()) });
    match r {
        Err(e) => {
            assert_eq!(e, HubError::NameTaken);
            assert_eq!(e.message(), "Username already taken!".to_string());
        },
        Ok(_) => panic!("a taken name must be rejected"),
    }
}

#[test]
fn name_is_free_again_after_leave() {
    let mut hub = ChatServ::new();
    let a = join(&mut hub, "alice");
    hub.handle_disconnect(Disconnect { id: a.id, username: Some("alice".to_string()) });
    let again = join(&mut hub, "alice");
    assert_ne!(again.id, a.id);
}

#[test]
fn guest_names_differ_with_high_probability() {
    let hub = ChatServ::new();
    let mut names = Vec::new();
    for _ in 0..100 {
        let name = hub.gen_random_username();
        assert!(name.starts_with("guest"));
        assert!(name.len() > "guest".len());
        names.push(name);
    }
    let first = names[0].clone();
    assert!(names.iter().any(|n| *n != first), "100 identical guest names");
}

#[test]
fn guests_always_join() {
    let mut hub = ChatServ::new();
    let a = hub.handle_connect(Connect { req_username: None }).expect("guest join expected");
    let b = hub.handle_connect(Connect { req_username: None }).expect("guest join expected");
    assert_ne!(a.id, b.id);
}

#[test]
fn join_notice_reaches_the_others_only() {
    let mut hub = ChatServ::new();
    let a = join(&mut hub, "alice");
    assert_eq!(a.notice.recipients, Vec::<usize>::new());
    assert_eq!(a.notice.message.user, "Host".to_string());
    assert_eq!(a.notice.message.text, "alice connected!".to_string());
    let b = join(&mut hub, "bob");
    assert_eq!(b.notice.recipients, vec![a.id]);
    assert_eq!(b.notice.message.text, "bob connected!".to_string());
    assert_eq!(names_of(&b.notice.message.to_users), vec!["alice".to_string(), "bob".to_string()]);
}

#[test]
fn relay_excludes_the_sender() {
    let mut hub = ChatServ::new();
    let a = join(&mut hub, "alice");
    let b = join(&mut hub, "bob");
    let c = join(&mut hub, "carol");
    let envelope = ClientMessage {
        id: a.id,
        user: String::new(),
        text: "hi all".to_string(),
        to_users: Vec::new(),
    };
    let broadcast = hub.handle_relay(envelope).expect("relay expected");
    assert_eq!(broadcast.recipients, vec![b.id, c.id]);
    assert!(!broadcast.recipients.contains(&a.id));
    assert_eq!(broadcast.message.id, a.id);
    assert_eq!(broadcast.message.user, "alice".to_string());
    assert_eq!(broadcast.message.text, "hi all".to_string());
    assert_eq!(
        names_of(&broadcast.message.to_users),
        vec!["alice".to_string(), "bob".to_string(), "carol".to_string()]
    );
}

#[test]
fn relay_from_unknown_sender_is_dropped() {
    let mut hub = ChatServ::new();
    join(&mut hub, "alice");
    let envelope = ClientMessage {
        id: 999,
        user: String::new(),
        text: "ghost".to_string(),
        to_users: Vec::new(),
    };
    assert!(hub.handle_relay(envelope).is_none());
}

#[test]
fn leave_notice_names_departed_and_later_relays_exclude_it() {
    let mut hub = ChatServ::new();
    let a = join(&mut hub, "alice");
    let b = join(&mut hub, "bob");
    let c = join(&mut hub, "carol");
    let notice = hub
        .handle_disconnect(Disconnect { id: b.id, username: Some("bob".to_string()) })
        .expect("leave notice expected");
    assert_eq!(notice.message.text, "bob disconnected!".to_string());
    assert_eq!(notice.recipients, vec![a.id, c.id]);
    assert_eq!(names_of(&notice.message.to_users), vec!["alice".to_string(), "carol".to_string()]);

    let envelope = ClientMessage {
        id: a.id,
        user: String::new(),
        text: "still here?".to_string(),
        to_users: Vec::new(),
    };
    let broadcast = hub.handle_relay(envelope).expect("relay expected");
    assert_eq!(broadcast.recipients, vec![c.id]);
    assert!(!broadcast.recipients.contains(&b.id));
    assert_eq!(names_of(&broadcast.message.to_users), vec!["alice".to_string(), "carol".to_string()]);
}

#[test]
fn leave_without_name_is_silent() {
    let mut hub = ChatServ::new();
    let a = join(&mut hub, "alice");
    assert!(hub.handle_disconnect(Disconnect { id: a.id, username: None }).is_none());
}

#[test]
fn second_leave_is_a_no_op() {
    let mut hub = ChatServ::new();
    let a = join(&mut hub, "alice");
    let b = join(&mut hub, "bob");
    let first = hub.handle_disconnect(Disconnect { id: b.id, username: Some("bob".to_string()) });
    assert!(first.is_some());
    let second = hub.handle_disconnect(Disconnect { id: b.id, username: Some("bob".to_string()) });
    assert!(second.is_none(), "a second leave must not produce another notice");
    assert_eq!(names_of(&hub.registry), vec!["alice".to_string()]);
    let _ = a;
}

#[test]
fn lookup_follows_the_registry() {
    let mut hub = ChatServ::new();
    let a = join(&mut hub, "alice");
    assert_eq!(hub.lookup_username(a.id), Some("alice".to_string()));
    assert_eq!(hub.lookup_username(a.id + 1), None);
}
