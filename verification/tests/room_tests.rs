use cogru::client::Client;
use cogru::properties::Properties;
use cogru::room::{to_room_path, no_room_path, Room};

fn new_room(password: Option<&str>) -> Room {
    Room::new(
        Properties::new(None),
        String::from("/srv/room/"),
        password.map(String::from),
    )
}

fn registered(room: &mut Room, addr: u64, client_root: &str) {
    room.add_client(addr, Client::new(String::from(client_root), false));
}

#[test]
fn clients_and_senders_move_in_lock_step() {
    let mut room = new_room(None);
    registered(&mut room, 7, "/home/a/");
    assert!(room.get_client(7).is_some());
    assert_eq!(room.peers().len(), 1);
    assert_eq!(room.peers()[0], 7);
    room.remove_client(7);
    assert!(room.get_client(7).is_none());
    assert!(room.peers().is_empty());
}

#[test]
fn enter_verdicts() {
    let mut room = new_room(Some("hunter2"));
    registered(&mut room, 1, "/home/a/");
    registered(&mut room, 2, "/home/b/");
    let (ok, msg) = room.enter(1, &String::from("alice"), &None);
    assert!(!ok);
    assert_eq!(msg, "Password cannot be null");
    let (ok, msg) = room.enter(1, &String::from("alice"), &Some(String::from("wrong")));
    assert!(!ok);
    assert_eq!(msg, "Incorrect password");
    let (ok, msg) = room.enter(1, &String::from("alice"), &Some(String::from("hunter2")));
    assert!(ok);
    assert_eq!(msg, "");
    room.enter_client(1, &String::from("alice"));
    // Another client with the same name is refused.
    let (ok, msg) = room.enter(2, &String::from("alice"), &Some(String::from("hunter2")));
    assert!(!ok);
    assert_eq!(msg, "Username already taken");
}

#[test]
fn enter_then_exit_restores_client() {
    let mut room = new_room(None);
    registered(&mut room, 1, "/home/a/");
    room.enter_client(1, &String::from("alice"));
    assert!(room.get_client(1).unwrap().entered());
    room.exit_client(1);
    let c = room.get_client(1).unwrap();
    assert!(!c.entered());
    assert!(c.user().is_none());
    assert_eq!(c.get_path(), "/home/a/");
}

#[test]
fn kick_clears_entered_only() {
    let mut room = new_room(None);
    registered(&mut room, 1, "/home/a/");
    room.enter_client(1, &String::from("bob"));
    let (ok, msg) = room.kick(&String::from("bob"));
    assert!(ok);
    assert_eq!(msg, "");
    let c = room.get_client(1).unwrap();
    assert!(!c.entered());
    assert!(room.get_client(1).is_some());
    let (ok, msg) = room.kick(&String::from("bob"));
    assert!(!ok);
    assert_eq!(msg, "User `bob` not found in the room");
}

#[test]
fn path_translation_is_a_prefix_swap() {
    let mut room = new_room(None);
    registered(&mut room, 1, "/home/a/proj/");
    let t = to_room_path(1, &room, &String::from("/home/a/proj/src/main.rs"));
    assert_eq!(t, Some(String::from("/srv/room/src/main.rs")));
    assert_eq!(to_room_path(1, &room, &String::from("/elsewhere/f.txt")), None);
    assert_eq!(
        no_room_path(&room, &String::from("/srv/room/src/main.rs")),
        "src/main.rs"
    );
    assert_eq!(no_room_path(&room, &String::from("/other/x")), "/other/x");
}

#[test]
fn rename_round_trip_restores_the_table() {
    let mut room = new_room(None);
    assert!(room.new_file(&String::from("/srv/room/a.txt"), String::from("alpha")));
    assert!(room.rename_file(&String::from("/srv/room/a.txt"), &String::from("/srv/room/b.txt")));
    assert!(room.file_pos(&String::from("/srv/room/a.txt")).is_none());
    let i = room.file_pos(&String::from("/srv/room/b.txt")).unwrap();
    assert_eq!(room.files[i].relative_path(), "b.txt");
    assert!(room.rename_file(&String::from("/srv/room/b.txt"), &String::from("/srv/room/a.txt")));
    let i = room.file_pos(&String::from("/srv/room/a.txt")).unwrap();
    assert_eq!(room.files[i].relative_path(), "a.txt");
    assert_eq!(room.files[i].buffer(), "alpha");
}

#[test]
fn rename_missing_file_fails() {
    let mut room = new_room(None);
    assert!(!room.rename_file(&String::from("/srv/room/a.txt"), &String::from("/srv/room/b.txt")));
}

#[test]
fn delete_file_removes_the_entry() {
    let mut room = new_room(None);
    assert!(room.new_file(&String::from("/srv/room/x"), String::from("data")));
    assert!(room.delete_file(&String::from("/srv/room/x")));
    assert!(room.file_pos(&String::from("/srv/room/x")).is_none());
    assert!(!room.delete_file(&String::from("/srv/room/x")));
}

#[test]
fn new_file_outside_root_is_refused() {
    let mut room = new_room(None);
    assert!(!room.new_file(&String::from("/elsewhere/x"), String::from("data")));
}

#[test]
fn peers_by_file_selects_same_file_clients() {
    let mut room = new_room(None);
    registered(&mut room, 1, "/home/a/");
    registered(&mut room, 2, "/home/b/");
    registered(&mut room, 3, "/home/c/");
    room.enter_client(1, &String::from("alice"));
    room.enter_client(2, &String::from("bob"));
    room.enter_client(3, &String::from("carol"));
    room.update_user(1, Some(String::from("f.txt")), Some(0), None, None, None, None);
    room.update_user(2, Some(String::from("g.txt")), Some(0), None, None, None, None);
    room.update_user(3, Some(String::from("f.txt")), Some(0), None, None, None, None);
    let peers = room.peers_by_file(&String::from("f.txt"));
    assert_eq!(peers.len(), 2);
    assert!(peers.contains(&1));
    assert!(peers.contains(&3));
    assert!(!peers.contains(&2));
}
