use cogru::client::Client;
use cogru::handlers::handle;
use cogru::properties::Properties;
use cogru::protocol::{sync_reply, Action, OutMessage, Request, SyncKind};
use cogru::room::Room;

const LOCAL: &str = "127.0.0.1";
const REMOTE: &str = "10.0.0.5";

fn new_room(password: Option<&str>) -> Room {
    Room::new(
        Properties::new(None),
        String::from("/srv/room/"),
        password.map(String::from),
    )
}

fn connect(room: &mut Room, addr: u64) {
    // The accept loop registers the row and the sender slot together.
    room.add_client(addr, Client::new(String::new(), false));
}

fn req(room: &mut Room, addr: u64, ip: &str, request: Request) -> Vec<Action> {
    handle(room, addr, &String::from(ip), &request)
}

fn init(room: &mut Room, addr: u64, ip: &str, path: &str) -> Vec<Action> {
    req(room, addr, ip, Request::Init { path: Some(String::from(path)) })
}

fn enter(room: &mut Room, addr: u64, name: &str, pw: Option<&str>) -> Vec<Action> {
    req(
        room,
        addr,
        REMOTE,
        Request::RoomEnter { username: Some(String::from(name)), password: pw.map(String::from) },
    )
}

fn visit(room: &mut Room, addr: u64, client_path: &str, point: isize) {
    let acts = req(
        room,
        addr,
        REMOTE,
        Request::RoomUpdateClient {
            path: Some(String::from(client_path)),
            point: Some(point),
            region_beg: None,
            region_end: None,
            color_cursor: None,
            color_region: None,
        },
    );
    assert!(acts.is_empty());
}

fn edit(
    room: &mut Room,
    addr: u64,
    path: &str,
    op: &str,
    beg: usize,
    end: usize,
    contents: &str,
) -> Vec<Action> {
    req(
        room,
        addr,
        REMOTE,
        Request::BufferUpdate {
            path: Some(String::from(path)),
            add_or_delete: Some(String::from(op)),
            beg: Some(beg),
            end: Some(end),
            contents: Some(String::from(contents)),
        },
    )
}

fn failure_text(acts: &[Action]) -> String {
    assert_eq!(acts.len(), 1);
    match &acts[0] {
        Action::Send { msg: OutMessage::Failure { message, .. }, .. } => message.clone(),
        other => panic!("expected a failure frame, got {:?}", std::mem::discriminant(other)),
    }
}

#[test]
fn handshake() {
    // A connects; init succeeds; entering the password-less room is
    // broadcast with the username.
    let mut room = new_room(None);
    connect(&mut room, 1);
    let acts = init(&mut room, 1, REMOTE, "/home/a/proj");
    assert_eq!(acts.len(), 1);
    match &acts[0] {
        Action::Send { to, msg: OutMessage::InitOk { message } } => {
            assert_eq!(to, &vec![1]);
            assert_eq!(message, "Done initialized in [/home/a/proj]");
        },
        _ => panic!("expected init success"),
    }
    let acts = enter(&mut room, 1, "alice", None);
    assert_eq!(acts.len(), 1);
    match &acts[0] {
        Action::Send { to, msg: OutMessage::EnterOk { username, message } } => {
            assert_eq!(to, &vec![1]);
            assert_eq!(username, "alice");
            assert_eq!(message, "alice has entered the room");
        },
        _ => panic!("expected enter broadcast"),
    }
    let user = room.get_client(1).unwrap().user().unwrap();
    assert_eq!(user.username, "alice");
}

#[test]
fn password_mismatch() {
    let mut room = new_room(Some("hunter2"));
    connect(&mut room, 1);
    init(&mut room, 1, REMOTE, "/home/a/proj");
    let acts = enter(&mut room, 1, "alice", Some("wrong"));
    assert_eq!(failure_text(&acts), "Incorrect password");
    assert!(!room.get_client(1).unwrap().entered());
}

#[test]
fn missing_username_is_reported() {
    let mut room = new_room(None);
    connect(&mut room, 1);
    init(&mut room, 1, REMOTE, "/home/a/proj");
    let acts = req(&mut room, 1, REMOTE, Request::RoomEnter { username: None, password: None });
    assert_eq!(failure_text(&acts), "Required field `username` cannot be null");
}

#[test]
fn not_entered_is_reported() {
    let mut room = new_room(None);
    connect(&mut room, 1);
    init(&mut room, 1, REMOTE, "/home/a/proj");
    let acts = req(&mut room, 1, REMOTE, Request::RoomInfo);
    assert_eq!(failure_text(&acts), "You haven't entered the room yet");
}

/// Build a room with three entered clients a/b/c at the given points,
/// all visiting f.txt unless told otherwise, and the file tracked.
fn cursor_room() -> Room {
    let mut room = new_room(None);
    for (addr, name, home) in
        [(1u64, "alice", "/home/a/proj"), (2, "bob", "/home/b/proj"), (3, "carol", "/home/c/proj")]
    {
        connect(&mut room, addr);
        init(&mut room, addr, REMOTE, home);
        enter(&mut room, addr, name, None);
    }
    assert!(room.new_file(&String::from("/srv/room/f.txt"), String::from("0123456789")));
    room
}

#[test]
fn cursor_shift() {
    // A at 10 edits at beg 7: A itself is unchanged, B at 5 is before the
    // anchor and untouched, C at 8 is at/after the anchor and moves by 3.
    let mut room = cursor_room();
    visit(&mut room, 1, "/home/a/proj/f.txt", 10);
    visit(&mut room, 2, "/home/b/proj/f.txt", 5);
    visit(&mut room, 3, "/home/c/proj/f.txt", 8);
    let acts = edit(&mut room, 1, "/home/a/proj/f.txt", "add", 7, 10, "abc");
    assert_eq!(room.get_client(1).unwrap().user().unwrap().point, Some(10));
    assert_eq!(room.get_client(2).unwrap().user().unwrap().point, Some(5));
    assert_eq!(room.get_client(3).unwrap().user().unwrap().point, Some(11));
    // The rope took the insertion at byte 7.
    let i = room.file_pos(&String::from("/srv/room/f.txt")).unwrap();
    assert_eq!(room.files[i].buffer(), "0123456abc789");
    // The edit frame went out to the same-file peers, not the editor.
    assert_eq!(acts.len(), 1);
    match &acts[0] {
        Action::Send { to, msg: OutMessage::BufferUpdateOk { username, file, .. } } => {
            assert_eq!(username, "alice");
            assert_eq!(file, "f.txt");
            assert!(to.contains(&2) && to.contains(&3));
            assert!(!to.contains(&1));
        },
        _ => panic!("expected the edit frame"),
    }
}

#[test]
fn same_file_fan_out() {
    // A and C edit f.txt, B edits g.txt: B receives nothing.
    let mut room = cursor_room();
    visit(&mut room, 1, "/home/a/proj/f.txt", 0);
    visit(&mut room, 2, "/home/b/proj/g.txt", 0);
    visit(&mut room, 3, "/home/c/proj/f.txt", 0);
    let acts = edit(&mut room, 1, "/home/a/proj/f.txt", "add", 0, 2, "xy");
    assert_eq!(acts.len(), 1);
    match &acts[0] {
        Action::Send { to, .. } => {
            assert_eq!(to, &vec![3]);
        },
        _ => panic!("expected the edit frame"),
    }
}

#[test]
fn zero_delta_update_is_a_no_op() {
    // No fan-out, no rope touch, no prediction.
    let mut room = cursor_room();
    visit(&mut room, 1, "/home/a/proj/f.txt", 4);
    visit(&mut room, 2, "/home/b/proj/f.txt", 9);
    let acts = edit(&mut room, 1, "/home/a/proj/f.txt", "add", 3, 3, "");
    assert!(acts.is_empty());
    assert_eq!(room.get_client(2).unwrap().user().unwrap().point, Some(9));
    let i = room.file_pos(&String::from("/srv/room/f.txt")).unwrap();
    assert_eq!(room.files[i].buffer(), "0123456789");
}

#[test]
fn edit_round_trip_restores_rope_and_cursors() {
    let mut room = cursor_room();
    visit(&mut room, 1, "/home/a/proj/f.txt", 2);
    visit(&mut room, 2, "/home/b/proj/f.txt", 6);
    edit(&mut room, 1, "/home/a/proj/f.txt", "add", 4, 7, "XYZ");
    assert_eq!(room.get_client(2).unwrap().user().unwrap().point, Some(9));
    edit(&mut room, 1, "/home/a/proj/f.txt", "delete", 4, 7, "");
    assert_eq!(room.get_client(2).unwrap().user().unwrap().point, Some(6));
    let i = room.file_pos(&String::from("/srv/room/f.txt")).unwrap();
    assert_eq!(room.files[i].buffer(), "0123456789");
}

#[test]
fn kick_scenario() {
    // Admin A kicks bob: the success is broadcast, bob's row survives with
    // entered cleared, and bob's next request fails as not-entered.
    let mut room = new_room(None);
    connect(&mut room, 1);
    init(&mut room, 1, LOCAL, "/home/a/proj");
    enter(&mut room, 1, "alice", None);
    connect(&mut room, 2);
    init(&mut room, 2, REMOTE, "/home/b/proj");
    enter(&mut room, 2, "bob", None);
    let acts = req(
        &mut room,
        1,
        LOCAL,
        Request::RoomKick { username: Some(String::from("bob")) },
    );
    assert_eq!(acts.len(), 1);
    match &acts[0] {
        Action::Send { to, msg: OutMessage::KickOk { username, admin, message } } => {
            assert_eq!(to.len(), 2);
            assert_eq!(username, "bob");
            assert_eq!(admin, "alice");
            assert_eq!(message, "bob has been kicked out by alice");
        },
        _ => panic!("expected the kick broadcast"),
    }
    assert!(!room.get_client(2).unwrap().entered());
    assert!(room.get_client(2).is_some());
    let acts = req(&mut room, 2, REMOTE, Request::FileSync { file: Some(String::from("/home/b/proj/f.txt")) });
    assert_eq!(failure_text(&acts), "You haven't entered the room yet");
}

#[test]
fn non_admin_cannot_kick() {
    let mut room = new_room(None);
    connect(&mut room, 1);
    init(&mut room, 1, REMOTE, "/home/a/proj");
    enter(&mut room, 1, "alice", None);
    let acts = req(
        &mut room,
        1,
        REMOTE,
        Request::RoomKick { username: Some(String::from("alice")) },
    );
    assert_eq!(
        failure_text(&acts),
        "You are not the admin; only admin can operate this action"
    );
}

#[test]
fn delete_then_reference_recreates() {
    let mut room = cursor_room();
    visit(&mut room, 1, "/home/a/proj/f.txt", 0);
    let acts = req(
        &mut room,
        1,
        REMOTE,
        Request::RoomDeleteFile { file: Some(String::from("/home/a/proj/f.txt")) },
    );
    assert_eq!(acts.len(), 2);
    assert!(matches!(&acts[0], Action::FsDelete { path } if path == "/srv/room/f.txt"));
    assert!(room.file_pos(&String::from("/srv/room/f.txt")).is_none());
    // A subsequent edit recreates the file and propagates.
    let acts = edit(&mut room, 1, "/home/a/proj/f.txt", "add", 0, 2, "hi");
    assert_eq!(acts.len(), 1);
    let i = room.file_pos(&String::from("/srv/room/f.txt")).unwrap();
    assert_eq!(room.files[i].buffer(), "hi");
}

#[test]
fn buffer_and_file_sync_diverge_until_save() {
    let mut room = cursor_room();
    visit(&mut room, 1, "/home/a/proj/f.txt", 0);
    edit(&mut room, 1, "/home/a/proj/f.txt", "add", 0, 2, "hi");
    // buffer::sync answers from the rope.
    let acts = req(
        &mut room,
        1,
        REMOTE,
        Request::BufferSync { file: Some(String::from("/home/a/proj/f.txt")) },
    );
    assert_eq!(acts.len(), 1);
    match &acts[0] {
        Action::Send { msg: OutMessage::BufferSyncOk { contents, .. }, .. } => {
            assert_eq!(contents, "hi0123456789");
        },
        _ => panic!("expected the rope contents"),
    }
    // file::sync defers to the disk: the handler asks for a read, and the
    // reply carries whatever is on disk — still the old text here.
    let acts = req(
        &mut room,
        1,
        REMOTE,
        Request::FileSync { file: Some(String::from("/home/a/proj/f.txt")) },
    );
    assert_eq!(acts.len(), 1);
    match &acts[0] {
        Action::ReadAndSend { to, path, file, kind } => {
            assert_eq!(*to, 1);
            assert_eq!(path, "/srv/room/f.txt");
            assert_eq!(file, "/home/a/proj/f.txt");
            assert!(matches!(kind, SyncKind::FileSync));
            let reply = sync_reply(kind, file.clone(), String::from("0123456789"));
            match reply {
                OutMessage::FileSyncOk { contents, .. } => assert_eq!(contents, "0123456789"),
                _ => panic!("expected a file::sync frame"),
            }
        },
        _ => panic!("expected a deferred read"),
    }
    // buffer::save persists the rope: disk and rope converge.
    let acts = req(
        &mut room,
        1,
        REMOTE,
        Request::BufferSave {
            file: Some(String::from("/home/a/proj/f.txt")),
            contents: Some(String::from("ignored; the rope wins")),
        },
    );
    assert_eq!(acts.len(), 2);
    assert!(matches!(
        &acts[0],
        Action::FsWrite { path, contents } if path == "/srv/room/f.txt" && contents == "hi0123456789"
    ));
}

#[test]
fn rename_file_round_trip_through_handlers() {
    let mut room = cursor_room();
    let acts = req(
        &mut room,
        1,
        REMOTE,
        Request::RoomRenameFile {
            file: Some(String::from("/home/a/proj/f.txt")),
            newname: Some(String::from("/home/a/proj/g.txt")),
        },
    );
    assert_eq!(acts.len(), 2);
    assert!(matches!(
        &acts[0],
        Action::FsRename { from, to } if from == "/srv/room/f.txt" && to == "/srv/room/g.txt"
    ));
    let acts = req(
        &mut room,
        1,
        REMOTE,
        Request::RoomRenameFile {
            file: Some(String::from("/home/a/proj/g.txt")),
            newname: Some(String::from("/home/a/proj/f.txt")),
        },
    );
    assert_eq!(acts.len(), 2);
    let i = room.file_pos(&String::from("/srv/room/f.txt")).unwrap();
    assert_eq!(room.files[i].relative_path(), "f.txt");
    assert_eq!(room.files[i].buffer(), "0123456789");
}

#[test]
fn add_file_creates_and_announces() {
    let mut room = cursor_room();
    let acts = req(
        &mut room,
        1,
        REMOTE,
        Request::RoomAddFile {
            file: Some(String::from("/home/a/proj/new.txt")),
            contents: Some(String::from("fresh")),
        },
    );
    assert_eq!(acts.len(), 2);
    assert!(matches!(
        &acts[0],
        Action::FsWrite { path, contents } if path == "/srv/room/new.txt" && contents == "fresh"
    ));
    match &acts[1] {
        Action::Send { to, msg: OutMessage::AddFileOk { file, contents } } => {
            assert!(!to.contains(&1));
            assert_eq!(file, "new.txt");
            assert_eq!(contents, "fresh");
        },
        _ => panic!("expected the add broadcast"),
    }
    // Adding it again changes nothing and answers nothing.
    let acts = req(
        &mut room,
        1,
        REMOTE,
        Request::RoomAddFile {
            file: Some(String::from("/home/a/proj/new.txt")),
            contents: Some(String::from("other")),
        },
    );
    assert!(acts.is_empty());
    let i = room.file_pos(&String::from("/srv/room/new.txt")).unwrap();
    assert_eq!(room.files[i].buffer(), "fresh");
}

#[test]
fn room_info_lists_entered_users() {
    let mut room = cursor_room();
    let acts = req(&mut room, 1, REMOTE, Request::RoomInfo);
    assert_eq!(acts.len(), 1);
    match &acts[0] {
        Action::Send { to, msg: OutMessage::RoomUsers { clients } } => {
            assert_eq!(to, &vec![1]);
            let names: Vec<&str> = clients.iter().map(|u| u.username.as_str()).collect();
            assert_eq!(names, vec!["alice", "bob", "carol"]);
        },
        _ => panic!("expected the user list"),
    }
}

#[test]
fn file_info_lists_other_users_in_same_file() {
    let mut room = cursor_room();
    visit(&mut room, 1, "/home/a/proj/f.txt", 0);
    visit(&mut room, 2, "/home/b/proj/g.txt", 0);
    visit(&mut room, 3, "/home/c/proj/f.txt", 0);
    let acts = req(&mut room, 1, REMOTE, Request::FileInfo);
    assert_eq!(acts.len(), 1);
    match &acts[0] {
        Action::Send { msg: OutMessage::FileUsers { clients }, .. } => {
            let names: Vec<&str> = clients.iter().map(|u| u.username.as_str()).collect();
            assert_eq!(names, vec!["carol"]);
        },
        _ => panic!("expected the same-file user list"),
    }
}

#[test]
fn find_user_reports_file_and_point() {
    let mut room = cursor_room();
    visit(&mut room, 2, "/home/b/proj/g.txt", 14);
    let acts = req(
        &mut room,
        1,
        REMOTE,
        Request::RoomFindUser { username: Some(String::from("bob")) },
    );
    assert_eq!(acts.len(), 1);
    match &acts[0] {
        Action::Send { msg: OutMessage::FindUserOk { username, file, point }, .. } => {
            assert_eq!(username, "bob");
            assert_eq!(file, "g.txt");
            assert_eq!(*point, 14);
        },
        _ => panic!("expected the user's position"),
    }
    let acts = req(
        &mut room,
        1,
        REMOTE,
        Request::RoomFindUser { username: Some(String::from("nobody")) },
    );
    assert_eq!(failure_text(&acts), "Client not found in the room");
}

#[test]
fn say_reaches_same_file_clients() {
    let mut room = cursor_room();
    visit(&mut room, 1, "/home/a/proj/f.txt", 0);
    visit(&mut room, 3, "/home/c/proj/f.txt", 0);
    let acts = req(
        &mut room,
        1,
        REMOTE,
        Request::FileSay {
            file: Some(String::from("/home/a/proj/f.txt")),
            message: Some(String::from("hello file")),
        },
    );
    assert_eq!(acts.len(), 1);
    match &acts[0] {
        Action::Send { to, msg: OutMessage::SayOk { username, file, message } } => {
            assert!(to.contains(&1) && to.contains(&3) && !to.contains(&2));
            assert_eq!(username, "alice");
            assert_eq!(file, "f.txt");
            assert_eq!(message, "hello file");
        },
        _ => panic!("expected the chat frame"),
    }
    // The message was logged on the file's chat.
    let i = room.file_pos(&String::from("/srv/room/f.txt")).unwrap();
    assert_eq!(room.files[i].chat.messages.len(), 1);
    assert_eq!(room.files[i].chat.messages[0].content, "hello file");
}

#[test]
fn exit_returns_to_pre_enter_state() {
    let mut room = new_room(None);
    connect(&mut room, 1);
    init(&mut room, 1, REMOTE, "/home/a/proj");
    enter(&mut room, 1, "alice", None);
    let acts = req(&mut room, 1, REMOTE, Request::RoomExit);
    assert_eq!(acts.len(), 1);
    match &acts[0] {
        Action::Send { msg: OutMessage::ExitOk { username, message }, .. } => {
            assert_eq!(username, "alice");
            assert_eq!(message, "alice has left the room");
        },
        _ => panic!("expected the exit broadcast"),
    }
    let c = room.get_client(1).unwrap();
    assert!(!c.entered());
    assert!(c.user().is_none());
    assert_eq!(c.get_path(), "/home/a/proj/");
}

#[test]
fn ping_answers_pong() {
    let mut room = new_room(None);
    connect(&mut room, 1);
    let acts = req(&mut room, 1, REMOTE, Request::Ping);
    assert_eq!(acts.len(), 1);
    assert!(matches!(
        &acts[0],
        Action::Send { msg: OutMessage::Pong { .. }, .. }
    ));
}

#[test]
fn broadcast_logs_and_fans_out() {
    let mut room = cursor_room();
    let acts = req(
        &mut room,
        2,
        REMOTE,
        Request::RoomBroadcast { message: Some(String::from("hi all")) },
    );
    assert_eq!(acts.len(), 1);
    match &acts[0] {
        Action::Send { to, msg: OutMessage::BroadcastOk { username, message } } => {
            assert_eq!(to.len(), 3);
            assert_eq!(username, "bob");
            assert_eq!(message, "hi all");
        },
        _ => panic!("expected the broadcast"),
    }
    assert_eq!(room.chat.messages.len(), 1);
    assert_eq!(room.chat.messages[0].username, "bob");
}

#[test]
fn room_sync_streams_every_file_translated() {
    let mut room = cursor_room();
    assert!(room.new_file(&String::from("/srv/room/sub/g.txt"), String::from("gee")));
    let acts = req(
        &mut room,
        1,
        REMOTE,
        Request::RoomSync { path: Some(String::from("/home/a/proj/")) },
    );
    assert_eq!(acts.len(), 2);
    match &acts[0] {
        Action::ReadAndSend { to, path, file, kind } => {
            assert_eq!(*to, 1);
            assert_eq!(path, "/srv/room/f.txt");
            assert_eq!(file, "/home/a/proj/f.txt");
            assert!(matches!(kind, SyncKind::RoomSync));
        },
        _ => panic!("expected a deferred read per file"),
    }
    match &acts[1] {
        Action::ReadAndSend { path, file, .. } => {
            assert_eq!(path, "/srv/room/sub/g.txt");
            assert_eq!(file, "/home/a/proj/sub/g.txt");
        },
        _ => panic!("expected a deferred read per file"),
    }
}

#[test]
fn test_method_echoes_and_broadcasts() {
    let mut room = new_room(None);
    connect(&mut room, 1);
    connect(&mut room, 2);
    let acts = req(&mut room, 1, REMOTE, Request::Test);
    assert_eq!(acts.len(), 2);
    match &acts[0] {
        Action::Send { to, msg: OutMessage::TestEcho { .. } } => assert_eq!(to, &vec![1]),
        _ => panic!("expected the echo"),
    }
    match &acts[1] {
        Action::Send { to, msg: OutMessage::TestBroadcast { message } } => {
            assert_eq!(to.len(), 2);
            assert_eq!(message, "This is the broadcast test!");
        },
        _ => panic!("expected the broadcast"),
    }
}

#[test]
fn update_client_drops_an_unordered_region() {
    let mut room = cursor_room();
    let acts = req(
        &mut room,
        1,
        REMOTE,
        Request::RoomUpdateClient {
            path: Some(String::from("/home/a/proj/f.txt")),
            point: Some(4),
            region_beg: Some(9),
            region_end: Some(3),
            color_cursor: None,
            color_region: None,
        },
    );
    assert!(acts.is_empty());
    let u = room.get_client(1).unwrap().user().unwrap();
    assert_eq!(u.point, Some(4));
    assert_eq!(u.region_beg, None);
    assert_eq!(u.region_end, None);
}
