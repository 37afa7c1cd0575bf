//! The method router and its handlers.
//!
//! Every handler takes the room, the caller's address and the request's
//! fields, mutates the room under its invariant, and returns the actions
//! the caller performs: frames to enqueue, disk work, deferred reads.
//! A handler answers a failure frame on a violated precondition and a
//! `missing_field` frame on an absent required field; it never panics.

use vstd::prelude::*;
use crate::chat::local_now_string;
use crate::client::{Client, client_wf, moved_client};
use crate::protocol::{Request, OutMessage, Action, SyncKind, general_error, missing_field, missing_field_text};
use crate::room::{Room, room_wf, room_host_is, has_client, client_at, has_sender, has_name, editing, exited_client, enter_verdict, room_use_lf, to_room_path, no_room_path, file_idx, has_file};
use crate::user::User;
use crate::util::{concat_str, copy_u64s, str_eq, to_slash, slashed, push_char};

verus! {

/// The caller's client row exists.
pub open spec fn known(r: Room, addr: u64) -> bool {
    has_client(r.clients@, addr)
}

/// The caller has entered the room.
pub open spec fn entered(r: Room, addr: u64) -> bool {
    known(r, addr) && client_at(r.clients@, addr).entered
}

/// The caller's username, when entered.
pub open spec fn caller_username(r: Room, addr: u64) -> Seq<char> {
    match client_at(r.clients@, addr).user {
        Some(u) => u.username@,
        None => Seq::empty(),
    }
}

/// The action is one failure frame for `addr`.
pub open spec fn is_failure_to(a: Action, addr: u64, method: Seq<char>, text: Seq<char>) -> bool {
    match a {
        Action::Send { to, msg } => to@ == seq![addr] && match msg {
            OutMessage::Failure { method: m, message } => m@ == method && message@ == text,
            _ => false,
        },
        _ => false,
    }
}

/// The whole result is one failure frame for `addr` and the room stands
/// untouched.
pub open spec fn only_failure(r0: Room, r1: Room, acts: Seq<Action>, addr: u64, method: Seq<char>, text: Seq<char>) -> bool {
    r1 == r0 && acts.len() == 1 && is_failure_to(acts[0], addr, method, text)
}

/// The caller is unknown or has not entered: the answer every handler
/// gives before doing anything else.
pub open spec fn precheck_failed(r0: Room, r1: Room, acts: Seq<Action>, addr: u64, method: Seq<char>) -> bool {
    if !known(r0, addr) {
        only_failure(r0, r1, acts, addr, method, "Client not found in the room"@)
    } else {
        !entered(r0, addr) && only_failure(
            r0,
            r1,
            acts,
            addr,
            method,
            "You haven't entered the room yet"@,
        )
    }
}

/// `None` while the client may proceed; otherwise the failure frame that
/// tells it to enter the room first.
pub fn check_entered(client: &Client, method: &str) -> (r: Option<OutMessage>)
    ensures
        r is None <==> client.entered,
        r matches Some(m) ==> (match m {
            OutMessage::Failure { method: mm, message } => mm@ == method@ && message@
                == "You haven't entered the room yet"@,
            _ => false,
        }),
{
    if client.entered() {
        Option::None
    } else {
        Option::Some(general_error(method, "You haven't entered the room yet"))
    }
}

/// `None` while the client holds admin privileges; otherwise the failure
/// frame refusing the operation.
pub fn check_admin(client: &Client, method: &str) -> (r: Option<OutMessage>)
    ensures
        r is None <==> client.admin,
        r matches Some(m) ==> (match m {
            OutMessage::Failure { method: mm, message } => mm@ == method@ && message@
                == "You are not the admin; only admin can operate this action"@,
            _ => false,
        }),
{
    if client.admin() {
        Option::None
    } else {
        Option::Some(
            general_error(method, "You are not the admin; only admin can operate this action"),
        )
    }
}

/// One frame sent to one address.
fn send_one(addr: u64, msg: OutMessage) -> (r: Action)
    ensures
        r matches Action::Send { to, msg: m } && to@ == seq![addr] && m == msg,
{
    let mut to: Vec<u64> = Vec::new();
    to.push(addr);
    proof {
        assert(to@ =~= seq![addr]);
    }
    Action::Send { to, msg }
}

/// Effect of `test`: an echo to the caller and a broadcast to every
/// registered sender; the room stands untouched.
pub open spec fn test_post(r0: Room, r1: Room, addr: u64, acts: Seq<Action>) -> bool {
    &&& r1 == r0
    &&& acts.len() == 2
    &&& (match acts[0] {
        Action::Send { to, msg } => to@ == seq![addr] && match msg {
            OutMessage::TestEcho { some } => some@ == "The route is hard!"@,
            _ => false,
        },
        _ => false,
    })
    &&& (match acts[1] {
        Action::Send { to, msg } => to@ == r0.senders@ && match msg {
            OutMessage::TestBroadcast { message } => message@ == "This is the broadcast test!"@,
            _ => false,
        },
        _ => false,
    })
}

/// Self-echo plus a broadcast, to exercise the wiring.
pub fn handle_test(room: &Room, addr: u64) -> (acts: Vec<Action>)
    ensures
        test_post(*room, *room, addr, acts@),
{
    let mut acts: Vec<Action> = Vec::new();
    acts.push(send_one(addr, OutMessage::TestEcho { some: String::from_str("The route is hard!") }));
    acts.push(
        Action::Send {
            to: copy_u64s(room.peers()),
            msg: OutMessage::TestBroadcast {
                message: String::from_str("This is the broadcast test!"),
            },
        },
    );
    acts
}

/// Effect of `ping`: one `pong` frame back to the caller, carrying a
/// timestamp; the room stands untouched.
pub open spec fn ping_post(r0: Room, r1: Room, addr: u64, acts: Seq<Action>) -> bool {
    &&& r1 == r0
    &&& acts.len() == 1
    &&& (match acts[0] {
        Action::Send { to, msg } => to@ == seq![addr] && msg is Pong,
        _ => false,
    })
}

/// Answer a ping with a timestamped pong.
pub fn handle_ping(room: &Room, addr: u64) -> (acts: Vec<Action>)
    ensures
        ping_post(*room, *room, addr, acts@),
{
    let mut acts: Vec<Action> = Vec::new();
    acts.push(send_one(addr, OutMessage::Pong { timestamp: local_now_string() }));
    acts
}

/// The client root a raw `init` path normalizes to: slashes forward, one
/// trailing slash.
pub open spec fn normalized_root(p: Seq<char>) -> Seq<char> {
    let s = slashed(p);
    if s.len() > 0 && s.last() == '/' {
        s
    } else {
        s.push('/')
    }
}

/// Effect of `init`: the caller is registered with its normalized
/// workspace root, admin exactly when it connects from the configured
/// host, and told so.
pub open spec fn init_post(r0: Room, r1: Room, addr: u64, ip: Seq<char>, path: Option<String>, acts: Seq<Action>) -> bool {
    match path {
        None => only_failure(r0, r1, acts, addr, "init"@, missing_field_text("path"@)),
        Some(p) => {
            &&& has_client(r1.clients@, addr)
            &&& ({
                let c = client_at(r1.clients@, addr);
                &&& c.entered == false
                &&& c.user is None
                &&& c.admin == room_host_is(r0, ip)
                &&& c.path@ == normalized_root(p@)
            })
            &&& (forall|a: u64| a != addr ==> (#[trigger] has_client(r1.clients@, a)
                == has_client(r0.clients@, a) && (has_client(r0.clients@, a) ==> client_at(
                r1.clients@,
                a,
            ) == client_at(r0.clients@, a))))
            &&& r1.files == r0.files
            &&& r1.prop == r0.prop
            &&& r1.password == r0.password
            &&& r1.path == r0.path
            &&& r1.chat == r0.chat
            &&& acts.len() == 1
            &&& (match acts[0] {
                Action::Send { to, msg } => to@ == seq![addr] && match msg {
                    OutMessage::InitOk { message } => message@ == "Done initialized in ["@ + p@
                        + "]"@,
                    _ => false,
                },
                _ => false,
            })
        },
    }
}

/// Register the caller: record its workspace root and grant the admin
/// flag when it connects from the configured host.
pub fn handle_init(room: &mut Room, addr: u64, peer_ip: &String, path: &Option<String>) -> (acts:
    Vec<Action>)
    requires
        room_wf(*old(room)),
    ensures
        room_wf(*final(room)),
        init_post(*old(room), *final(room), addr, peer_ip@, *path, acts@),
{
    let mut acts: Vec<Action> = Vec::new();
    let p = match path {
        Option::None => {
            acts.push(send_one(addr, missing_field("init", "path")));
            return acts;
        },
        Option::Some(p) => p,
    };
    let mut root = to_slash(p);
    let is_admin = room.host_is(peer_ip);
    let n = root.as_str().unicode_len();
    let needs_slash: bool = if n == 0 {
        true
    } else {
        root.as_str().get_char(n - 1) != '/'
    };
    if needs_slash {
        push_char(&mut root, '/');
    }
    let client = Client::new(root, is_admin);
    room.add_client(addr, client);
    let message = concat_str(
        &concat_str(&String::from_str("Done initialized in ["), p),
        &String::from_str("]"),
    );
    acts.push(send_one(addr, OutMessage::InitOk { message }));
    acts
}

/// Effect of `room::enter`: admission is decided by `enter_verdict`; on
/// success the caller holds a fresh user record and everyone hears the
/// entry, on failure only the caller hears why.
pub open spec fn enter_post(r0: Room, r1: Room, addr: u64, username: Option<String>, password: Option<String>, acts: Seq<Action>) -> bool {
    if !known(r0, addr) {
        only_failure(r0, r1, acts, addr, "room::enter"@, "Client not found in the room"@)
    } else if entered(r0, addr) {
        only_failure(r0, r1, acts, addr, "room::enter"@, "You have already entered the room"@)
    } else {
        match username {
            None => only_failure(r0, r1, acts, addr, "room::enter"@, missing_field_text("username"@)),
            Some(u) => {
                let v = enter_verdict(r0, addr, u@, password);
                if v.0 {
                    &&& ({
                        let c = client_at(r1.clients@, addr);
                        &&& c.entered
                        &&& (match c.user {
                            Some(us) => us.username@ == u@ && us.path is None && us.point is None,
                            None => false,
                        })
                        &&& c.path == client_at(r0.clients@, addr).path
                        &&& c.admin == client_at(r0.clients@, addr).admin
                    })
                    &&& (forall|a: u64| #[trigger] has_client(r1.clients@, a) == has_client(
                        r0.clients@,
                        a,
                    ))
                    &&& (forall|a: u64| a != addr && has_client(r0.clients@, a) ==> client_at(
                        r1.clients@,
                        a,
                    ) == client_at(r0.clients@, a))
                    &&& r1.files == r0.files
                    &&& r1.senders == r0.senders
                    &&& r1.chat == r0.chat
                    &&& r1.path == r0.path
                    &&& r1.password == r0.password
                    &&& r1.prop == r0.prop
                    &&& acts.len() == 1
                    &&& (match acts[0] {
                        Action::Send { to, msg } => to@ == r0.senders@ && match msg {
                            OutMessage::EnterOk { username: un, message } => un@ == u@ && message@
                                == u@ + " has entered the room"@,
                            _ => false,
                        },
                        _ => false,
                    })
                } else {
                    only_failure(r0, r1, acts, addr, "room::enter"@, v.1)
                }
            },
        }
    }
}

/// Admit the caller into the room, or tell it why not.
pub fn handle_room_enter(
    room: &mut Room,
    addr: u64,
    username: &Option<String>,
    password: &Option<String>,
) -> (acts: Vec<Action>)
    requires
        room_wf(*old(room)),
    ensures
        room_wf(*final(room)),
        enter_post(*old(room), *final(room), addr, *username, *password, acts@),
{
    let mut acts: Vec<Action> = Vec::new();
    let is_entered: bool = match room.get_client(addr) {
        Option::None => {
            acts.push(send_one(addr, general_error("room::enter", "Client not found in the room")));
            return acts;
        },
        Option::Some(c) => c.entered(),
    };
    if is_entered {
        acts.push(send_one(addr, general_error("room::enter", "You have already entered the room")));
        return acts;
    }
    let u = match username {
        Option::None => {
            acts.push(send_one(addr, missing_field("room::enter", "username")));
            return acts;
        },
        Option::Some(u) => u,
    };
    let (ok, message) = room.enter(addr, u, password);
    if ok {
        room.enter_client(addr, u);
        let text = concat_str(u, &String::from_str(" has entered the room"));
        acts.push(
            Action::Send {
                to: copy_u64s(room.peers()),
                msg: OutMessage::EnterOk { username: u.clone(), message: text },
            },
        );
    } else {
        acts.push(
            send_one(
                addr,
                OutMessage::Failure { method: String::from_str("room::enter"), message },
            ),
        );
    }
    acts
}

/// Effect of `room::exit`: the caller's user record is cleared and the
/// whole room hears the departure; a caller that never entered only hears
/// a failure.
pub open spec fn exit_post(r0: Room, r1: Room, addr: u64, acts: Seq<Action>) -> bool {
    if !known(r0, addr) {
        only_failure(r0, r1, acts, addr, "room::exit"@, "Client not found in the room"@)
    } else if !entered(r0, addr) {
        only_failure(r0, r1, acts, addr, "room::exit"@, "You never entered the room; do nothing"@)
    } else {
        &&& client_at(r1.clients@, addr) == exited_client(client_at(r0.clients@, addr))
        &&& (forall|a: u64| #[trigger] has_client(r1.clients@, a) == has_client(r0.clients@, a))
        &&& (forall|a: u64| a != addr && has_client(r0.clients@, a) ==> client_at(r1.clients@, a)
            == client_at(r0.clients@, a))
        &&& r1.files == r0.files
        &&& r1.senders == r0.senders
        &&& r1.chat == r0.chat
        &&& r1.path == r0.path
        &&& r1.password == r0.password
        &&& r1.prop == r0.prop
        &&& acts.len() == 1
        &&& (match acts[0] {
            Action::Send { to, msg } => to@ == r0.senders@ && match msg {
                OutMessage::ExitOk { username, message } => username@ == caller_username(r0, addr)
                    && message@ == caller_username(r0, addr) + " has left the room"@,
                _ => false,
            },
            _ => false,
        })
    }
}

/// Mark the caller exited and tell the room.
pub fn handle_room_exit(room: &mut Room, addr: u64) -> (acts: Vec<Action>)
    requires
        room_wf(*old(room)),
    ensures
        room_wf(*final(room)),
        exit_post(*old(room), *final(room), addr, acts@),
{
    let mut acts: Vec<Action> = Vec::new();
    let name: Option<String> = match room.get_client(addr) {
        Option::None => {
            acts.push(send_one(addr, general_error("room::exit", "Client not found in the room")));
            return acts;
        },
        Option::Some(c) => match c.user() {
            Option::None => Option::None,
            Option::Some(u) => Option::Some(u.username.clone()),
        },
    };
    let name = match name {
        Option::None => {
            acts.push(
                send_one(addr, general_error("room::exit", "You never entered the room; do nothing")),
            );
            return acts;
        },
        Option::Some(n) => n,
    };
    room.exit_client(addr);
    let text = concat_str(&name, &String::from_str(" has left the room"));
    acts.push(
        Action::Send {
            to: copy_u64s(room.peers()),
            msg: OutMessage::ExitOk { username: name, message: text },
        },
    );
    acts
}


/// Effect of `room::kick`: admin-only; the target's entered flag is
/// cleared (its socket stays open) and the whole room hears it, or the
/// caller alone hears why not.
pub open spec fn kick_post(r0: Room, r1: Room, addr: u64, username: Option<String>, acts: Seq<Action>) -> bool {
    if !known(r0, addr) || !entered(r0, addr) {
        precheck_failed(r0, r1, acts, addr, "room::kick"@)
    } else if !client_at(r0.clients@, addr).admin {
        only_failure(
            r0,
            r1,
            acts,
            addr,
            "room::kick"@,
            "You are not the admin; only admin can operate this action"@,
        )
    } else {
        match username {
            None => only_failure(r0, r1, acts, addr, "room::kick"@, missing_field_text("username"@)),
            Some(u) => {
                if has_name(r0.clients@, u@) {
                    &&& (exists|i: int| 0 <= i < r0.clients@.len() && (match (
                    #[trigger] r0.clients@[i]).1.user {
                        Some(us) => us.username@ == u@,
                        None => false,
                    }) && r1.clients@ == r0.clients@.update(
                        i,
                        (r0.clients@[i].0, exited_client(r0.clients@[i].1)),
                    ))
                    &&& r1.files == r0.files
                    &&& r1.senders == r0.senders
                    &&& r1.chat == r0.chat
                    &&& r1.path == r0.path
                    &&& r1.password == r0.password
                    &&& r1.prop == r0.prop
                    &&& acts.len() == 1
                    &&& (match acts[0] {
                        Action::Send { to, msg } => to@ == r0.senders@ && match msg {
                            OutMessage::KickOk { username: un, admin, message } => un@ == u@
                                && admin@ == caller_username(r0, addr) && message@ == u@
                                + " has been kicked out by "@ + caller_username(r0, addr),
                            _ => false,
                        },
                        _ => false,
                    })
                } else {
                    only_failure(
                        r0,
                        r1,
                        acts,
                        addr,
                        "room::kick"@,
                        "User `"@ + u@ + "` not found in the room"@,
                    )
                }
            },
        }
    }
}

/// Kick a user out of the room; only an admin may.
pub fn handle_room_kick(room: &mut Room, addr: u64, username: &Option<String>) -> (acts: Vec<
    Action>)
    requires
        room_wf(*old(room)),
    ensures
        room_wf(*final(room)),
        kick_post(*old(room), *final(room), addr, *username, acts@),
{
    let mut acts: Vec<Action> = Vec::new();
    let admin_name: Option<String> = match room.get_client(addr) {
        Option::None => {
            acts.push(send_one(addr, general_error("room::kick", "Client not found in the room")));
            return acts;
        },
        Option::Some(c) => {
            match check_entered(c, "room::kick") {
                Option::Some(m) => {
                    acts.push(send_one(addr, m));
                    return acts;
                },
                Option::None => {},
            }
            match check_admin(c, "room::kick") {
                Option::Some(m) => {
                    acts.push(send_one(addr, m));
                    return acts;
                },
                Option::None => {},
            }
            match c.user() {
                Option::None => Option::None,
                Option::Some(u) => Option::Some(u.username.clone()),
            }
        },
    };
    let admin_name = match admin_name {
        Option::None => {
            proof {
                assert(false);
            }
            String::new()
        },
        Option::Some(n) => n,
    };
    let target = match username {
        Option::None => {
            acts.push(send_one(addr, missing_field("room::kick", "username")));
            return acts;
        },
        Option::Some(u) => u,
    };
    let (kicked, message) = room.kick(target);
    if kicked {
        let text = concat_str(
            &concat_str(target, &String::from_str(" has been kicked out by ")),
            &admin_name,
        );
        acts.push(
            Action::Send {
                to: copy_u64s(room.peers()),
                msg: OutMessage::KickOk {
                    username: target.clone(),
                    admin: admin_name,
                    message: text,
                },
            },
        );
    } else {
        acts.push(
            send_one(addr, OutMessage::Failure { method: String::from_str("room::kick"), message }),
        );
    }
    acts
}

/// Effect of `room::broadcast`: the message joins the room's chat log and
/// every client hears it under the caller's name.
pub open spec fn broadcast_post(r0: Room, r1: Room, addr: u64, message: Option<String>, acts: Seq<Action>) -> bool {
    if !known(r0, addr) || !entered(r0, addr) {
        precheck_failed(r0, r1, acts, addr, "room::broadcast"@)
    } else {
        match message {
            None => only_failure(
                r0,
                r1,
                acts,
                addr,
                "room::broadcast"@,
                missing_field_text("message"@),
            ),
            Some(m) => {
                &&& r1.chat.messages@.len() == r0.chat.messages@.len() + 1
                &&& r1.chat.messages@.drop_last() == r0.chat.messages@
                &&& r1.chat.messages@.last().username@ == caller_username(r0, addr)
                &&& r1.chat.messages@.last().content@ == m@
                &&& r1.clients == r0.clients
                &&& r1.senders == r0.senders
                &&& r1.files == r0.files
                &&& r1.path == r0.path
                &&& r1.password == r0.password
                &&& r1.prop == r0.prop
                &&& acts.len() == 1
                &&& (match acts[0] {
                    Action::Send { to, msg } => to@ == r0.senders@ && match msg {
                        OutMessage::BroadcastOk { username, message: mm } => username@
                            == caller_username(r0, addr) && mm@ == m@,
                        _ => false,
                    },
                    _ => false,
                })
            },
        }
    }
}

/// Chat across the whole room.
pub fn handle_room_broadcast(room: &mut Room, addr: u64, message: &Option<String>) -> (acts: Vec<
    Action>)
    requires
        room_wf(*old(room)),
    ensures
        room_wf(*final(room)),
        broadcast_post(*old(room), *final(room), addr, *message, acts@),
{
    let mut acts: Vec<Action> = Vec::new();
    let name: Option<String> = match room.get_client(addr) {
        Option::None => {
            acts.push(
                send_one(addr, general_error("room::broadcast", "Client not found in the room")),
            );
            return acts;
        },
        Option::Some(c) => {
            match check_entered(c, "room::broadcast") {
                Option::Some(m) => {
                    acts.push(send_one(addr, m));
                    return acts;
                },
                Option::None => {},
            }
            match c.user() {
                Option::None => Option::None,
                Option::Some(u) => Option::Some(u.username.clone()),
            }
        },
    };
    let name = match name {
        Option::None => {
            proof {
                assert(false);
            }
            String::new()
        },
        Option::Some(n) => n,
    };
    let m = match message {
        Option::None => {
            acts.push(send_one(addr, missing_field("room::broadcast", "message")));
            return acts;
        },
        Option::Some(m) => m,
    };
    room.chat.add_message(&name, m);
    acts.push(
        Action::Send {
            to: copy_u64s(room.peers()),
            msg: OutMessage::BroadcastOk { username: name, message: m.clone() },
        },
    );
    acts
}

/// The user records of the entered clients, in table order.
pub open spec fn entered_users(s: Seq<(u64, Client)>) -> Seq<User>
    decreases s.len(),
{
    if s.len() == 0 {
        Seq::empty()
    } else {
        let rest = entered_users(s.drop_last());
        match s.last().1.user {
            Some(u) => rest.push(u),
            None => rest,
        }
    }
}

/// Collect the users of every entered client, in table order.
pub fn get_users(room: &Room) -> (r: Vec<User>)
    ensures
        r@ == entered_users(room.clients@),
{
    let n = room.clients.len();
    let mut out: Vec<User> = Vec::new();
    let mut i: usize = 0;
    proof {
        assert(room.clients@.subrange(0, 0) =~= Seq::<(u64, Client)>::empty());
    }
    while i < n
        invariant
            0 <= i <= n,
            n == room.clients@.len(),
            out@ == entered_users(room.clients@.subrange(0, i as int)),
        decreases n - i,
    {
        proof {
            assert(room.clients@.subrange(0, i + 1 as int).drop_last() =~= room.clients@.subrange(
                0,
                i as int,
            ));
            assert(room.clients@.subrange(0, i + 1 as int).last() == room.clients@[i as int]);
        }
        match &room.clients[i].1.user {
            Option::None => {},
            Option::Some(u) => {
                out.push(u.snapshot());
            },
        }
        i = i + 1;
    }
    proof {
        assert(room.clients@.subrange(0, n as int) =~= room.clients@);
    }
    out
}

/// Effect of `room::info`: the caller receives the user records of every
/// entered client; the room stands untouched.
pub open spec fn info_post(r0: Room, r1: Room, addr: u64, acts: Seq<Action>) -> bool {
    if !known(r0, addr) || !entered(r0, addr) {
        precheck_failed(r0, r1, acts, addr, "room::info"@)
    } else {
        &&& r1 == r0
        &&& acts.len() == 1
        &&& (match acts[0] {
            Action::Send { to, msg } => to@ == seq![addr] && match msg {
                OutMessage::RoomUsers { clients } => clients@ == entered_users(r0.clients@),
                _ => false,
            },
            _ => false,
        })
    }
}

/// List the entered users for the caller.
pub fn handle_room_info(room: &Room, addr: u64) -> (acts: Vec<Action>)
    requires
        room_wf(*room),
    ensures
        info_post(*room, *room, addr, acts@),
{
    let mut acts: Vec<Action> = Vec::new();
    match room.get_client(addr) {
        Option::None => {
            acts.push(send_one(addr, general_error("room::info", "Client not found in the room")));
            return acts;
        },
        Option::Some(c) => {
            match check_entered(c, "room::info") {
                Option::Some(m) => {
                    acts.push(send_one(addr, m));
                    return acts;
                },
                Option::None => {},
            }
        },
    }
    let users = get_users(room);
    acts.push(send_one(addr, OutMessage::RoomUsers { clients: users }));
    acts
}

/// A submitted selection region, kept only when whole and ordered.
pub open spec fn sanitized_region(b: Option<isize>, e: Option<isize>) -> (Option<isize>, Option<
    isize>) {
    match (b, e) {
        (Some(bb), Some(ee)) => if bb <= ee {
            (Some(bb), Some(ee))
        } else {
            (None, None)
        },
        _ => (None, None),
    }
}

/// Effect of `room::update_client`: the caller's presence is replaced;
/// the submitted path is stored workspace-relative when it lies under the
/// caller's root, a region is kept only when whole and ordered, and
/// nothing is answered.
pub open spec fn update_client_post(r0: Room, r1: Room, addr: u64, path: Option<String>, point: Option<isize>, region_beg: Option<isize>, region_end: Option<isize>, color_cursor: Option<String>, color_region: Option<String>, acts: Seq<Action>) -> bool {
    if !known(r0, addr) || !entered(r0, addr) {
        precheck_failed(r0, r1, acts, addr, "room::update_client"@)
    } else {
        &&& acts.len() == 0
        &&& (forall|a: u64| #[trigger] has_client(r1.clients@, a) == has_client(r0.clients@, a))
        &&& (forall|a: u64| a != addr && has_client(r0.clients@, a) ==> client_at(r1.clients@, a)
            == client_at(r0.clients@, a))
        &&& ({
            let c0 = client_at(r0.clients@, addr);
            let c1 = client_at(r1.clients@, addr);
            let reg = sanitized_region(region_beg, region_end);
            &&& c1.entered == c0.entered
            &&& c1.path == c0.path
            &&& c1.admin == c0.admin
            &&& (match c1.user {
                Some(u1) => {
                    &&& (match c0.user {
                        Some(u0) => u1.username == u0.username,
                        None => false,
                    })
                    &&& (match path {
                        Some(p) => if c0.path@.is_prefix_of(p@) {
                            match u1.path {
                                Some(q) => q@ == p@.skip(c0.path@.len() as int),
                                None => false,
                            }
                        } else {
                            u1.path is None
                        },
                        None => u1.path is None,
                    })
                    &&& u1.point == point
                    &&& u1.region_beg == reg.0
                    &&& u1.region_end == reg.1
                    &&& u1.color_cursor == color_cursor
                    &&& u1.color_region == color_region
                },
                None => false,
            })
        })
        &&& r1.files == r0.files
        &&& r1.senders == r0.senders
        &&& r1.chat == r0.chat
        &&& r1.path == r0.path
        &&& r1.password == r0.password
        &&& r1.prop == r0.prop
    }
}

/// Update the caller's presence: file, cursor, region, colors.
pub fn handle_room_update_client(
    room: &mut Room,
    addr: u64,
    path: &Option<String>,
    point: Option<isize>,
    region_beg: Option<isize>,
    region_end: Option<isize>,
    color_cursor: &Option<String>,
    color_region: &Option<String>,
) -> (acts: Vec<Action>)
    requires
        room_wf(*old(room)),
    ensures
        room_wf(*final(room)),
        update_client_post(
            *old(room),
            *final(room),
            addr,
            *path,
            point,
            region_beg,
            region_end,
            *color_cursor,
            *color_region,
            acts@,
        ),
{
    let mut acts: Vec<Action> = Vec::new();
    let rel: Option<String> = match room.get_client(addr) {
        Option::None => {
            acts.push(
                send_one(addr, general_error("room::update_client", "Client not found in the room")),
            );
            return acts;
        },
        Option::Some(c) => {
            match check_entered(c, "room::update_client") {
                Option::Some(m) => {
                    acts.push(send_one(addr, m));
                    return acts;
                },
                Option::None => {},
            }
            crate::client::no_client_path(c, path)
        },
    };
    let (rb, re): (Option<isize>, Option<isize>) = match (region_beg, region_end) {
        (Option::Some(b), Option::Some(e)) => {
            if b <= e {
                (Option::Some(b), Option::Some(e))
            } else {
                (Option::None, Option::None)
            }
        },
        _ => (Option::None, Option::None),
    };
    let cc = match color_cursor {
        Option::Some(s) => Option::Some(s.clone()),
        Option::None => Option::None,
    };
    let cr = match color_region {
        Option::Some(s) => Option::Some(s.clone()),
        Option::None => Option::None,
    };
    room.update_user(addr, rel, point, rb, re, cc, cr);
    acts
}

/// Effect of `room::find_user`: the caller learns the named user's file
/// and cursor; a user that is absent or not visiting a file reads as not
/// found.  The room stands untouched.
pub open spec fn find_user_post(r0: Room, r1: Room, addr: u64, username: Option<String>, acts: Seq<Action>) -> bool {
    if !known(r0, addr) || !entered(r0, addr) {
        precheck_failed(r0, r1, acts, addr, "room::find_user"@)
    } else {
        match username {
            None => only_failure(
                r0,
                r1,
                acts,
                addr,
                "room::find_user"@,
                missing_field_text("username"@),
            ),
            Some(u) => {
                &&& r1 == r0
                &&& acts.len() == 1
                &&& if exists|j: int| 0 <= j < r0.clients@.len() && (match (
                #[trigger] r0.clients@[j]).1.user {
                    Some(us) => us.username@ == u@ && us.path is Some && us.point is Some,
                    None => false,
                }) {
                    match acts[0] {
                        Action::Send { to, msg } => to@ == seq![addr] && match msg {
                            OutMessage::FindUserOk { username: un, file, point } => un@ == u@
                                && (exists|j: int| 0 <= j < r0.clients@.len() && (match (
                            #[trigger] r0.clients@[j]).1.user {
                                Some(us) => us.username@ == u@ && us.path == Some(file)
                                    && us.point == Some(point),
                                None => false,
                            })),
                            _ => false,
                        },
                        _ => false,
                    }
                } else {
                    is_failure_to(acts[0], addr, "room::find_user"@, "Client not found in the room"@)
                }
            },
        }
    }
}


/// Find the named entered user's file and cursor for the caller.
pub fn handle_room_find_user(room: &Room, addr: u64, username: &Option<String>) -> (acts: Vec<
    Action>)
    requires
        room_wf(*room),
    ensures
        find_user_post(*room, *room, addr, *username, acts@),
{
    let mut acts: Vec<Action> = Vec::new();
    match room.get_client(addr) {
        Option::None => {
            acts.push(
                send_one(addr, general_error("room::find_user", "Client not found in the room")),
            );
            return acts;
        },
        Option::Some(c) => {
            match check_entered(c, "room::find_user") {
                Option::Some(m) => {
                    acts.push(send_one(addr, m));
                    return acts;
                },
                Option::None => {},
            }
        },
    }
    let u = match username {
        Option::None => {
            acts.push(send_one(addr, missing_field("room::find_user", "username")));
            return acts;
        },
        Option::Some(u) => u,
    };
    let found: Option<(String, isize)> = match room.get_client_by_name(u.as_str()) {
        Option::None => Option::None,
        Option::Some(c) => match &c.user {
            Option::None => Option::None,
            Option::Some(us) => match (&us.path, us.point) {
                (Option::Some(p), Option::Some(pt)) => Option::Some((p.clone(), pt)),
                _ => Option::None,
            },
        },
    };
    proof {
        if exists|j: int| 0 <= j < room.clients@.len() && (match (
        #[trigger] room.clients@[j]).1.user {
            Some(us) => us.username@ == u@ && us.path is Some && us.point is Some,
            None => false,
        }) {
            let j = choose|j: int| 0 <= j < room.clients@.len() && (match (
            #[trigger] room.clients@[j]).1.user {
                Some(us) => us.username@ == u@ && us.path is Some && us.point is Some,
                None => false,
            });
            assert(has_name(room.clients@, u@));
        }
    }
    match found {
        Option::None => {
            acts.push(
                send_one(addr, general_error("room::find_user", "Client not found in the room")),
            );
        },
        Option::Some((p, pt)) => {
            acts.push(
                send_one(
                    addr,
                    OutMessage::FindUserOk { username: u.clone(), file: p, point: pt },
                ),
            );
        },
    }
    acts
}

/// The `to` set of a broadcast that skips the originator: every
/// registered sender but `addr`, each once.
pub open spec fn to_all_except(to: Seq<u64>, senders: Seq<u64>, addr: u64) -> bool {
    &&& (forall|k: int| 0 <= k < to.len() ==> #[trigger] to[k] != addr && has_sender(
        senders,
        to[k],
    ))
    &&& (forall|a: u64| a != addr && #[trigger] has_sender(senders, a) ==> has_sender(to, a))
}

/// The string `s` renders the contents of file `f`, normalized by the
/// file's line-ending switch.
pub open spec fn buffer_of(f: crate::file::File, s: Seq<char>) -> bool {
    &&& (!f.use_lf ==> vstd::utf8::encode_utf8(s) == crate::rope::rope_bytes(f.view))
    &&& (f.use_lf ==> s == crate::util::norm_le_spec(
        vstd::utf8::decode_utf8(crate::rope::rope_bytes(f.view)),
    ))
}

/// Effect of `room::sync`: one deferred read per tracked file, each
/// answered to the caller with the path translated into the namespace the
/// caller asked for; the room stands untouched.
pub open spec fn room_sync_post(r0: Room, r1: Room, addr: u64, path: Option<String>, acts: Seq<Action>) -> bool {
    if !known(r0, addr) || !entered(r0, addr) {
        precheck_failed(r0, r1, acts, addr, "room::sync"@)
    } else {
        match path {
            None => only_failure(r0, r1, acts, addr, "room::sync"@, missing_field_text("path"@)),
            Some(p) => {
                &&& r1 == r0
                &&& acts.len() == r0.files@.len()
                &&& (forall|k: int| 0 <= k < acts.len() ==> (match #[trigger] acts[k] {
                    Action::ReadAndSend { to, path: ap, file, kind } => to == addr && ap@
                        == r0.files@[k].path@ && file@ == crate::util::slashed(
                        p@ + r0.files@[k].path@.skip(r0.path@.len() as int),
                    ) && kind is RoomSync,
                    _ => false,
                }))
            },
        }
    }
}

/// Stream every tracked file to the caller, translated into its own
/// namespace; the contents are read from disk by the caller of this
/// handler.
pub fn handle_room_sync(room: &Room, addr: u64, path: &Option<String>) -> (acts: Vec<Action>)
    requires
        room_wf(*room),
    ensures
        room_sync_post(*room, *room, addr, *path, acts@),
{
    let mut acts: Vec<Action> = Vec::new();
    match room.get_client(addr) {
        Option::None => {
            acts.push(send_one(addr, general_error("room::sync", "Client not found in the room")));
            return acts;
        },
        Option::Some(c) => {
            match check_entered(c, "room::sync") {
                Option::Some(m) => {
                    acts.push(send_one(addr, m));
                    return acts;
                },
                Option::None => {},
            }
        },
    }
    let p = match path {
        Option::None => {
            acts.push(send_one(addr, missing_field("room::sync", "path")));
            return acts;
        },
        Option::Some(p) => p,
    };
    let names = room.get_path_files();
    let n = names.len();
    let mut k: usize = 0;
    while k < n
        invariant
            room_wf(*room),
            0 <= k <= n,
            n == names@.len(),
            n == room.files@.len(),
            forall|j: int| 0 <= j < n ==> (#[trigger] names@[j])@ == room.files@[j].path@,
            acts@.len() == k,
            forall|j: int| 0 <= j < k ==> (match #[trigger] acts@[j] {
                Action::ReadAndSend { to, path: ap, file, kind } => to == addr && ap@
                    == room.files@[j].path@ && file@ == crate::util::slashed(
                    p@ + room.files@[j].path@.skip(room.path@.len() as int),
                ) && kind is RoomSync,
                _ => false,
            }),
        decreases n - k,
    {
        let abs = &names[k];
        proof {
            assert(room.path@.is_prefix_of(room.files@[k as int].path@));
        }
        let rel = no_room_path(room, abs);
        let client_file = to_slash(&concat_str(p, &rel));
        acts.push(
            Action::ReadAndSend {
                to: addr,
                path: abs.clone(),
                file: client_file,
                kind: SyncKind::RoomSync,
            },
        );
        k = k + 1;
    }
    acts
}

/// Effect of `room::add_file`: a path under the caller's root that is not
/// yet tracked becomes a tracked file holding the submitted contents,
/// the contents are persisted, and everyone else hears of the file; a
/// path already tracked changes nothing.
pub open spec fn add_file_post(r0: Room, r1: Room, addr: u64, file: Option<String>, contents: Option<String>, acts: Seq<Action>) -> bool {
    if !known(r0, addr) || !entered(r0, addr) {
        precheck_failed(r0, r1, acts, addr, "room::add_file"@)
    } else {
        match (file, contents) {
            (None, _) => only_failure(r0, r1, acts, addr, "room::add_file"@, missing_field_text("file"@)),
            (Some(_), None) => only_failure(
                r0,
                r1,
                acts,
                addr,
                "room::add_file"@,
                missing_field_text("contents"@),
            ),
            (Some(f), Some(ct)) => {
                let c0 = client_at(r0.clients@, addr);
                if !c0.path@.is_prefix_of(f@) {
                    only_failure(
                        r0,
                        r1,
                        acts,
                        addr,
                        "room::add_file"@,
                        "The file is not under the project path: "@ + f@,
                    )
                } else {
                    let rel = f@.skip(c0.path@.len() as int);
                    let t = r0.path@ + rel;
                    if has_file(r0.files@, t) {
                        r1 == r0 && acts.len() == 0
                    } else {
                        &&& has_file(r1.files@, t)
                        &&& ({
                            let nf = r1.files@[file_idx(r1.files@, t)];
                            &&& nf.path@ == t
                            &&& nf.rel_path@ == t.skip(r0.path@.len() as int)
                            &&& nf.use_lf == room_use_lf(r0)
                            &&& (nf.use_lf ==> crate::rope::rope_bytes(nf.view)
                                == vstd::utf8::encode_utf8(crate::util::norm_le_spec(ct@)))
                            &&& (!nf.use_lf ==> crate::rope::rope_bytes(nf.view)
                                == vstd::utf8::encode_utf8(ct@))
                            &&& acts.len() == 2
                            &&& (match acts[0] {
                                Action::FsWrite { path, contents: wc } => path@ == t && buffer_of(
                                    nf,
                                    wc@,
                                ),
                                _ => false,
                            })
                            &&& (match acts[1] {
                                Action::Send { to, msg } => to_all_except(to@, r0.senders@, addr)
                                    && match msg {
                                    OutMessage::AddFileOk { file: ff, contents: cc } => ff@ == rel
                                        && buffer_of(nf, cc@),
                                    _ => false,
                                },
                                _ => false,
                            })
                        })
                        &&& (forall|q: Seq<char>| q != t ==> #[trigger] has_file(r1.files@, q)
                            == has_file(r0.files@, q))
                        &&& (forall|q: Seq<char>| q != t && has_file(r0.files@, q)
                            ==> r1.files@[file_idx(r1.files@, q)] == r0.files@[file_idx(
                            r0.files@,
                            q,
                        )])
                        &&& r1.clients == r0.clients
                        &&& r1.senders == r0.senders
                        &&& r1.chat == r0.chat
                        &&& r1.path == r0.path
                        &&& r1.password == r0.password
                        &&& r1.prop == r0.prop
                    }
                }
            },
        }
    }
}

/// Create a new tracked file from the caller's submission and announce it
/// to everyone else.
pub fn handle_room_add_file(
    room: &mut Room,
    addr: u64,
    file: &Option<String>,
    contents: &Option<String>,
) -> (acts: Vec<Action>)
    requires
        room_wf(*old(room)),
    ensures
        room_wf(*final(room)),
        add_file_post(*old(room), *final(room), addr, *file, *contents, acts@),
{
    let mut acts: Vec<Action> = Vec::new();
    let rel: Option<String> = match room.get_client(addr) {
        Option::None => {
            acts.push(
                send_one(addr, general_error("room::add_file", "Client not found in the room")),
            );
            return acts;
        },
        Option::Some(c) => {
            match check_entered(c, "room::add_file") {
                Option::Some(m) => {
                    acts.push(send_one(addr, m));
                    return acts;
                },
                Option::None => {},
            }
            crate::client::no_client_path(c, file)
        },
    };
    let f = match file {
        Option::None => {
            acts.push(send_one(addr, missing_field("room::add_file", "file")));
            return acts;
        },
        Option::Some(f) => f,
    };
    let ct = match contents {
        Option::None => {
            acts.push(send_one(addr, missing_field("room::add_file", "contents")));
            return acts;
        },
        Option::Some(ct) => ct,
    };
    let relp = match rel {
        Option::None => {
            let text = concat_str(&String::from_str("The file is not under the project path: "), f);
            acts.push(
                send_one(
                    addr,
                    OutMessage::Failure {
                        method: String::from_str("room::add_file"),
                        message: text,
                    },
                ),
            );
            return acts;
        },
        Option::Some(r) => r,
    };
    let t = concat_str(room.get_path(), &relp);
    match room.file_pos(&t) {
        Option::Some(_) => {
            return acts;
        },
        Option::None => {},
    }
    let ok = room.new_file(&t, ct.clone());
    proof {
        assert(t@.subrange(0, room.path@.len() as int) =~= room.path@);
        assert(ok);
    }
    let i = match room.file_pos(&t) {
        Option::None => {
            proof {
                assert(false);
            }
            0
        },
        Option::Some(i) => i,
    };
    let buffer = room.files[i].buffer();
    acts.push(Action::FsWrite { path: t.clone(), contents: buffer.clone() });
    acts.push(
        Action::Send {
            to: room.peers_except(addr),
            msg: OutMessage::AddFileOk { file: relp, contents: buffer },
        },
    );
    acts
}


/// Effect of `room::delete_file`: a tracked file under the caller's root
/// leaves the table, its on-disk copy is deleted, and everyone else
/// hears; deleting an untracked file only fails.
pub open spec fn delete_file_post(r0: Room, r1: Room, addr: u64, file: Option<String>, acts: Seq<Action>) -> bool {
    if !known(r0, addr) || !entered(r0, addr) {
        precheck_failed(r0, r1, acts, addr, "room::delete_file"@)
    } else {
        match file {
            None => only_failure(
                r0,
                r1,
                acts,
                addr,
                "room::delete_file"@,
                missing_field_text("file"@),
            ),
            Some(f) => {
                let c0 = client_at(r0.clients@, addr);
                if !c0.path@.is_prefix_of(f@) {
                    only_failure(
                        r0,
                        r1,
                        acts,
                        addr,
                        "room::delete_file"@,
                        "The file is not under the project path: "@ + f@,
                    )
                } else {
                    let rel = f@.skip(c0.path@.len() as int);
                    let t = r0.path@ + rel;
                    if !has_file(r0.files@, t) {
                        only_failure(
                            r0,
                            r1,
                            acts,
                            addr,
                            "room::delete_file"@,
                            "Fail to delete file, doesn't exists: "@ + f@,
                        )
                    } else {
                        &&& !has_file(r1.files@, t)
                        &&& (forall|q: Seq<char>| q != t ==> #[trigger] has_file(r1.files@, q)
                            == has_file(r0.files@, q))
                        &&& (forall|q: Seq<char>| q != t && has_file(r0.files@, q)
                            ==> r1.files@[file_idx(r1.files@, q)] == r0.files@[file_idx(
                            r0.files@,
                            q,
                        )])
                        &&& r1.clients == r0.clients
                        &&& r1.senders == r0.senders
                        &&& r1.chat == r0.chat
                        &&& r1.path == r0.path
                        &&& r1.password == r0.password
                        &&& r1.prop == r0.prop
                        &&& acts.len() == 2
                        &&& (match acts[0] {
                            Action::FsDelete { path } => path@ == t,
                            _ => false,
                        })
                        &&& (match acts[1] {
                            Action::Send { to, msg } => to_all_except(to@, r0.senders@, addr)
                                && match msg {
                                OutMessage::DeleteFileOk { file: ff } => ff@ == rel,
                                _ => false,
                            },
                            _ => false,
                        })
                    }
                }
            },
        }
    }
}

/// Remove a tracked file from the table and from disk, then tell
/// everyone else.
pub fn handle_room_delete_file(room: &mut Room, addr: u64, file: &Option<String>) -> (acts: Vec<
    Action>)
    requires
        room_wf(*old(room)),
    ensures
        room_wf(*final(room)),
        delete_file_post(*old(room), *final(room), addr, *file, acts@),
{
    let mut acts: Vec<Action> = Vec::new();
    let rel: Option<String> = match room.get_client(addr) {
        Option::None => {
            acts.push(
                send_one(addr, general_error("room::delete_file", "Client not found in the room")),
            );
            return acts;
        },
        Option::Some(c) => {
            match check_entered(c, "room::delete_file") {
                Option::Some(m) => {
                    acts.push(send_one(addr, m));
                    return acts;
                },
                Option::None => {},
            }
            crate::client::no_client_path(c, file)
        },
    };
    let f = match file {
        Option::None => {
            acts.push(send_one(addr, missing_field("room::delete_file", "file")));
            return acts;
        },
        Option::Some(f) => f,
    };
    let relp = match rel {
        Option::None => {
            let text = concat_str(&String::from_str("The file is not under the project path: "), f);
            acts.push(
                send_one(
                    addr,
                    OutMessage::Failure {
                        method: String::from_str("room::delete_file"),
                        message: text,
                    },
                ),
            );
            return acts;
        },
        Option::Some(r) => r,
    };
    let t = concat_str(room.get_path(), &relp);
    let deleted = room.delete_file(&t);
    if !deleted {
        let text = concat_str(&String::from_str("Fail to delete file, doesn't exists: "), f);
        acts.push(
            send_one(
                addr,
                OutMessage::Failure {
                    method: String::from_str("room::delete_file"),
                    message: text,
                },
            ),
        );
        return acts;
    }
    acts.push(Action::FsDelete { path: t });
    acts.push(
        Action::Send {
            to: room.peers_except(addr),
            msg: OutMessage::DeleteFileOk { file: relp },
        },
    );
    acts
}

/// Effect of `room::rename_file`: the tracked file moves to the new path
/// in the table and on disk, and everyone else hears both names; a
/// source that is untracked, or a rename the table refuses, only fails.
pub open spec fn rename_file_post(r0: Room, r1: Room, addr: u64, file: Option<String>, newname: Option<String>, acts: Seq<Action>) -> bool {
    if !known(r0, addr) || !entered(r0, addr) {
        precheck_failed(r0, r1, acts, addr, "room::rename_file"@)
    } else {
        match (file, newname) {
            (None, _) => only_failure(
                r0,
                r1,
                acts,
                addr,
                "room::rename_file"@,
                missing_field_text("file"@),
            ),
            (Some(_), None) => only_failure(
                r0,
                r1,
                acts,
                addr,
                "room::rename_file"@,
                missing_field_text("newname"@),
            ),
            (Some(f), Some(nn)) => {
                let c0 = client_at(r0.clients@, addr);
                if !(c0.path@.is_prefix_of(f@) && c0.path@.is_prefix_of(nn@)) {
                    only_failure(
                        r0,
                        r1,
                        acts,
                        addr,
                        "room::rename_file"@,
                        "The file is not under the project path: "@ + f@,
                    )
                } else {
                    let rel = f@.skip(c0.path@.len() as int);
                    let reln = nn@.skip(c0.path@.len() as int);
                    let t = r0.path@ + rel;
                    let tn = r0.path@ + reln;
                    if !(has_file(r0.files@, t) && (t == tn || !has_file(r0.files@, tn))) {
                        only_failure(
                            r0,
                            r1,
                            acts,
                            addr,
                            "room::rename_file"@,
                            "Fail to rename file, doesn't exists: "@ + f@,
                        )
                    } else {
                        &&& crate::room::rename_post(r0, r1, t, tn)
                        &&& acts.len() == 2
                        &&& (match acts[0] {
                            Action::FsRename { from, to } => from@ == t && to@ == tn,
                            _ => false,
                        })
                        &&& (match acts[1] {
                            Action::Send { to, msg } => to_all_except(to@, r0.senders@, addr)
                                && match msg {
                                OutMessage::RenameFileOk { file: ff, newname: fn2 } => ff@ == rel
                                    && fn2@ == reln,
                                _ => false,
                            },
                            _ => false,
                        })
                    }
                }
            },
        }
    }
}

/// Move a tracked file to a new path, in the table and on disk, and tell
/// everyone else.
pub fn handle_room_rename_file(
    room: &mut Room,
    addr: u64,
    file: &Option<String>,
    newname: &Option<String>,
) -> (acts: Vec<Action>)
    requires
        room_wf(*old(room)),
    ensures
        room_wf(*final(room)),
        rename_file_post(*old(room), *final(room), addr, *file, *newname, acts@),
{
    let mut acts: Vec<Action> = Vec::new();
    let rels: (Option<String>, Option<String>) = match room.get_client(addr) {
        Option::None => {
            acts.push(
                send_one(addr, general_error("room::rename_file", "Client not found in the room")),
            );
            return acts;
        },
        Option::Some(c) => {
            match check_entered(c, "room::rename_file") {
                Option::Some(m) => {
                    acts.push(send_one(addr, m));
                    return acts;
                },
                Option::None => {},
            }
            (crate::client::no_client_path(c, file), crate::client::no_client_path(c, newname))
        },
    };
    let f = match file {
        Option::None => {
            acts.push(send_one(addr, missing_field("room::rename_file", "file")));
            return acts;
        },
        Option::Some(f) => f,
    };
    let nn = match newname {
        Option::None => {
            acts.push(send_one(addr, missing_field("room::rename_file", "newname")));
            return acts;
        },
        Option::Some(n) => n,
    };
    let (relp, relnp) = match rels {
        (Option::Some(a), Option::Some(b)) => (a, b),
        _ => {
            let text = concat_str(&String::from_str("The file is not under the project path: "), f);
            acts.push(
                send_one(
                    addr,
                    OutMessage::Failure {
                        method: String::from_str("room::rename_file"),
                        message: text,
                    },
                ),
            );
            return acts;
        },
    };
    let t = concat_str(room.get_path(), &relp);
    let tn = concat_str(room.get_path(), &relnp);
    proof {
        assert(tn@.subrange(0, room.path@.len() as int) =~= room.path@);
    }
    let renamed = room.rename_file(&t, &tn);
    if !renamed {
        let text = concat_str(&String::from_str("Fail to rename file, doesn't exists: "), f);
        acts.push(
            send_one(
                addr,
                OutMessage::Failure {
                    method: String::from_str("room::rename_file"),
                    message: text,
                },
            ),
        );
        return acts;
    }
    acts.push(Action::FsRename { from: t, to: tn });
    acts.push(
        Action::Send {
            to: room.peers_except(addr),
            msg: OutMessage::RenameFileOk { file: relp, newname: relnp },
        },
    );
    acts
}

/// Effect of `file::sync`: one deferred read of the on-disk contents,
/// answered to the caller with the file named as the caller named it;
/// the room stands untouched.  The rope view is not consulted.
pub open spec fn file_sync_post(r0: Room, r1: Room, addr: u64, file: Option<String>, acts: Seq<Action>) -> bool {
    if !known(r0, addr) || !entered(r0, addr) {
        precheck_failed(r0, r1, acts, addr, "file::sync"@)
    } else {
        match file {
            None => only_failure(r0, r1, acts, addr, "file::sync"@, missing_field_text("file"@)),
            Some(f) => {
                let c0 = client_at(r0.clients@, addr);
                if !c0.path@.is_prefix_of(f@) {
                    only_failure(
                        r0,
                        r1,
                        acts,
                        addr,
                        "file::sync"@,
                        "The file is not under the project path: "@ + f@,
                    )
                } else {
                    &&& r1 == r0
                    &&& acts.len() == 1
                    &&& (match acts[0] {
                        Action::ReadAndSend { to, path, file: ff, kind } => to == addr && path@
                            == r0.path@ + f@.skip(c0.path@.len() as int) && ff@ == f@
                            && kind is FileSync,
                        _ => false,
                    })
                }
            },
        }
    }
}

/// Answer with the on-disk contents of one file; the caller of this
/// handler performs the read.
pub fn handle_file_sync(room: &Room, addr: u64, file: &Option<String>) -> (acts: Vec<Action>)
    requires
        room_wf(*room),
    ensures
        file_sync_post(*room, *room, addr, *file, acts@),
{
    let mut acts: Vec<Action> = Vec::new();
    match room.get_client(addr) {
        Option::None => {
            acts.push(send_one(addr, general_error("file::sync", "Client not found in the room")));
            return acts;
        },
        Option::Some(c) => {
            match check_entered(c, "file::sync") {
                Option::Some(m) => {
                    acts.push(send_one(addr, m));
                    return acts;
                },
                Option::None => {},
            }
        },
    }
    let f = match file {
        Option::None => {
            acts.push(send_one(addr, missing_field("file::sync", "file")));
            return acts;
        },
        Option::Some(f) => f,
    };
    let t = match to_room_path(addr, room, f) {
        Option::None => {
            let text = concat_str(&String::from_str("The file is not under the project path: "), f);
            acts.push(
                send_one(
                    addr,
                    OutMessage::Failure { method: String::from_str("file::sync"), message: text },
                ),
            );
            return acts;
        },
        Option::Some(t) => t,
    };
    acts.push(
        Action::ReadAndSend { to: addr, path: t, file: f.clone(), kind: SyncKind::FileSync },
    );
    acts
}

/// The user records of the other entered clients visiting the file `fp`,
/// in table order.
pub open spec fn same_file_users(s: Seq<(u64, Client)>, addr: u64, fp: Seq<char>) -> Seq<User>
    decreases s.len(),
{
    if s.len() == 0 {
        Seq::empty()
    } else {
        let rest = same_file_users(s.drop_last(), addr, fp);
        match s.last().1.user {
            Some(u) => if s.last().0 != addr && (match u.path {
                Some(p) => p@ == fp,
                None => false,
            }) {
                rest.push(u)
            } else {
                rest
            },
            None => rest,
        }
    }
}

/// Effect of `file::info`: the caller receives the user records of the
/// other entered clients visiting the same file as the caller, compared
/// by the stored file paths; a caller visiting no file receives an empty
/// list.  The room stands untouched.
pub open spec fn file_info_post(r0: Room, r1: Room, addr: u64, acts: Seq<Action>) -> bool {
    if !known(r0, addr) || !entered(r0, addr) {
        precheck_failed(r0, r1, acts, addr, "file::info"@)
    } else {
        &&& r1 == r0
        &&& acts.len() == 1
        &&& (match acts[0] {
            Action::Send { to, msg } => to@ == seq![addr] && match msg {
                OutMessage::FileUsers { clients } => clients@ == (match client_at(
                    r0.clients@,
                    addr,
                ).user {
                    Some(u) => match u.path {
                        Some(p) => same_file_users(r0.clients@, addr, p@),
                        None => Seq::<User>::empty(),
                    },
                    None => Seq::<User>::empty(),
                }),
                _ => false,
            },
            _ => false,
        })
    }
}

/// List the other users visiting the caller's file.
pub fn handle_file_info(room: &Room, addr: u64) -> (acts: Vec<Action>)
    requires
        room_wf(*room),
    ensures
        file_info_post(*room, *room, addr, acts@),
{
    let mut acts: Vec<Action> = Vec::new();
    let fp: Option<String> = match room.get_client(addr) {
        Option::None => {
            acts.push(send_one(addr, general_error("file::info", "Client not found in the room")));
            return acts;
        },
        Option::Some(c) => {
            match check_entered(c, "file::info") {
                Option::Some(m) => {
                    acts.push(send_one(addr, m));
                    return acts;
                },
                Option::None => {},
            }
            match c.user() {
                Option::None => Option::None,
                Option::Some(u) => match &u.path {
                    Option::None => Option::None,
                    Option::Some(p) => Option::Some(p.clone()),
                },
            }
        },
    };
    let fp = match fp {
        Option::None => {
            let users: Vec<User> = Vec::new();
            acts.push(send_one(addr, OutMessage::FileUsers { clients: users }));
            return acts;
        },
        Option::Some(p) => p,
    };
    let n = room.clients.len();
    let mut users: Vec<User> = Vec::new();
    let mut i: usize = 0;
    proof {
        assert(room.clients@.subrange(0, 0) =~= Seq::<(u64, Client)>::empty());
    }
    while i < n
        invariant
            0 <= i <= n,
            n == room.clients@.len(),
            users@ == same_file_users(room.clients@.subrange(0, i as int), addr, fp@),
        decreases n - i,
    {
        proof {
            assert(room.clients@.subrange(0, i + 1 as int).drop_last() =~= room.clients@.subrange(
                0,
                i as int,
            ));
            assert(room.clients@.subrange(0, i + 1 as int).last() == room.clients@[i as int]);
        }
        let row = &room.clients[i];
        if row.0 != addr {
            match &row.1.user {
                Option::None => {},
                Option::Some(u) => {
                    let visits: bool = match &u.path {
                        Option::None => false,
                        Option::Some(p) => p.eq(&fp),
                    };
                    if visits {
                        users.push(u.snapshot());
                    }
                },
            }
        }
        i = i + 1;
    }
    proof {
        assert(room.clients@.subrange(0, n as int) =~= room.clients@);
    }
    acts.push(send_one(addr, OutMessage::FileUsers { clients: users }));
    acts
}

/// Effect of `file::say`: the message joins the file's chat log when the
/// file is tracked, and every entered client visiting that file hears it
/// under the caller's name.
pub open spec fn file_say_post(r0: Room, r1: Room, addr: u64, file: Option<String>, message: Option<String>, acts: Seq<Action>) -> bool {
    if !known(r0, addr) || !entered(r0, addr) {
        precheck_failed(r0, r1, acts, addr, "file::say"@)
    } else {
        match (file, message) {
            (None, _) => only_failure(r0, r1, acts, addr, "file::say"@, missing_field_text("file"@)),
            (Some(_), None) => only_failure(
                r0,
                r1,
                acts,
                addr,
                "file::say"@,
                missing_field_text("message"@),
            ),
            (Some(f), Some(m)) => {
                let c0 = client_at(r0.clients@, addr);
                if !c0.path@.is_prefix_of(f@) {
                    only_failure(
                        r0,
                        r1,
                        acts,
                        addr,
                        "file::say"@,
                        "The file is not under the project path: "@ + f@,
                    )
                } else {
                    let rel = f@.skip(c0.path@.len() as int);
                    let t = r0.path@ + rel;
                    &&& (if has_file(r0.files@, t) {
                        let i = file_idx(r0.files@, t);
                        let f0 = r0.files@[i];
                        let f1 = r1.files@[i];
                        &&& r1.files@.len() == r0.files@.len()
                        &&& (forall|j: int| 0 <= j < r0.files@.len() && j != i ==> #[trigger]
                            r1.files@[j] == r0.files@[j])
                        &&& f1.path == f0.path
                        &&& f1.rel_path == f0.rel_path
                        &&& f1.view == f0.view
                        &&& f1.use_lf == f0.use_lf
                        &&& f1.chat.messages@.len() == f0.chat.messages@.len() + 1
                        &&& f1.chat.messages@.drop_last() == f0.chat.messages@
                        &&& f1.chat.messages@.last().username@ == caller_username(r0, addr)
                        &&& f1.chat.messages@.last().content@ == m@
                    } else {
                        r1.files == r0.files
                    })
                    &&& r1.clients == r0.clients
                    &&& r1.senders == r0.senders
                    &&& r1.chat == r0.chat
                    &&& r1.path == r0.path
                    &&& r1.password == r0.password
                    &&& r1.prop == r0.prop
                    &&& acts.len() == 1
                    &&& (match acts[0] {
                        Action::Send { to, msg } => {
                            &&& (forall|k: int| 0 <= k < to@.len() ==> has_sender(
                                r0.senders@,
                                #[trigger] to@[k],
                            ) && editing(r0.clients@, to@[k], rel))
                            &&& (forall|a: u64| #[trigger] has_sender(r0.senders@, a) && editing(
                                r0.clients@,
                                a,
                                rel,
                            ) ==> has_sender(to@, a))
                            &&& (match msg {
                                OutMessage::SayOk { username, file: ff, message: mm } => username@
                                    == caller_username(r0, addr) && ff@ == rel && mm@ == m@,
                                _ => false,
                            })
                        },
                        _ => false,
                    })
                }
            },
        }
    }
}

/// Per-file chat: log the message and fan it out to the clients visiting
/// the file.
pub fn handle_file_say(
    room: &mut Room,
    addr: u64,
    file: &Option<String>,
    message: &Option<String>,
) -> (acts: Vec<Action>)
    requires
        room_wf(*old(room)),
    ensures
        room_wf(*final(room)),
        file_say_post(*old(room), *final(room), addr, *file, *message, acts@),
{
    let mut acts: Vec<Action> = Vec::new();
    let got: (Option<String>, Option<String>) = match room.get_client(addr) {
        Option::None => {
            acts.push(send_one(addr, general_error("file::say", "Client not found in the room")));
            return acts;
        },
        Option::Some(c) => {
            match check_entered(c, "file::say") {
                Option::Some(m) => {
                    acts.push(send_one(addr, m));
                    return acts;
                },
                Option::None => {},
            }
            let name = match c.user() {
                Option::None => Option::None,
                Option::Some(u) => Option::Some(u.username.clone()),
            };
            (crate::client::no_client_path(c, file), name)
        },
    };
    let f = match file {
        Option::None => {
            acts.push(send_one(addr, missing_field("file::say", "file")));
            return acts;
        },
        Option::Some(f) => f,
    };
    let m = match message {
        Option::None => {
            acts.push(send_one(addr, missing_field("file::say", "message")));
            return acts;
        },
        Option::Some(m) => m,
    };
    let relp = match got.0 {
        Option::None => {
            let text = concat_str(&String::from_str("The file is not under the project path: "), f);
            acts.push(
                send_one(
                    addr,
                    OutMessage::Failure { method: String::from_str("file::say"), message: text },
                ),
            );
            return acts;
        },
        Option::Some(r) => r,
    };
    let name = match got.1 {
        Option::None => {
            proof {
                assert(false);
            }
            String::new()
        },
        Option::Some(n) => n,
    };
    let t = concat_str(room.get_path(), &relp);
    let ghost pre_files = room.files@;
    match room.file_pos(&t) {
        Option::None => {},
        Option::Some(i) => {
            let entry = &mut room.files[i];
            entry.chat.add_message(&name, m);
            proof {
                crate::room::lemma_say_chat(pre_files, i as int, room.files@);
            }
        },
    }
    let peers = room.peers_by_file(&relp);
    acts.push(
        Action::Send {
            to: peers,
            msg: OutMessage::SayOk { username: name, file: relp, message: m.clone() },
        },
    );
    acts
}


/// The `to` set of an edit fan-out: every registered sender that is
/// visiting the edited file, except the editor, each once.
pub open spec fn to_peers_in_file_except(to: Seq<u64>, r0: Room, rel: Seq<char>, addr: u64) -> bool {
    &&& (forall|k: int| 0 <= k < to.len() ==> #[trigger] to[k] != addr && has_sender(
        r0.senders@,
        to[k],
    ) && editing(r0.clients@, to[k], rel))
    &&& (forall|a: u64| a != addr && #[trigger] has_sender(r0.senders@, a) && editing(
        r0.clients@,
        a,
        rel,
    ) ==> has_sender(to, a))
}

/// Effect of `buffer::update`, the central algorithm.
///
/// A missing field is answered `missing_field`; an operation word other
/// than `add`/`delete`, an offset beyond `isize`, a reversed delete, and
/// a zero-length delta are dropped without any work: no prediction, no
/// rope touch, no fan-out.  Otherwise every other client's cursor is
/// predict-shifted by the signed delta when the anchor `beg` lies at or
/// before it, the edit is applied to the (possibly just created) file's
/// rope, and the edit frame goes to every other client visiting that
/// file.
pub open spec fn buffer_update_post(r0: Room, r1: Room, addr: u64, path: Option<String>, aod: Option<String>, beg: Option<usize>, end: Option<usize>, contents: Option<String>, acts: Seq<Action>) -> bool {
    if !known(r0, addr) || !entered(r0, addr) {
        precheck_failed(r0, r1, acts, addr, "buffer::update"@)
    } else {
        match (path, aod, beg, end, contents) {
            (None, _, _, _, _) => only_failure(
                r0,
                r1,
                acts,
                addr,
                "buffer::update"@,
                missing_field_text("path"@),
            ),
            (Some(_), None, _, _, _) => only_failure(
                r0,
                r1,
                acts,
                addr,
                "buffer::update"@,
                missing_field_text("add_or_delete"@),
            ),
            (Some(_), Some(_), None, _, _) => only_failure(
                r0,
                r1,
                acts,
                addr,
                "buffer::update"@,
                missing_field_text("beg"@),
            ),
            (Some(_), Some(_), Some(_), None, _) => only_failure(
                r0,
                r1,
                acts,
                addr,
                "buffer::update"@,
                missing_field_text("end"@),
            ),
            (Some(_), Some(_), Some(_), Some(_), None) => only_failure(
                r0,
                r1,
                acts,
                addr,
                "buffer::update"@,
                missing_field_text("contents"@),
            ),
            (Some(p), Some(op), Some(b), Some(e), Some(ct)) => {
                if op@ != "add"@ && op@ != "delete"@ {
                    r1 == r0 && acts.len() == 0
                } else if b > isize::MAX as usize || e > isize::MAX as usize {
                    r1 == r0 && acts.len() == 0
                } else if op@ == "delete"@ && b > e {
                    r1 == r0 && acts.len() == 0
                } else {
                    let delta: int = if op@ == "delete"@ {
                        b - e
                    } else {
                        e - b
                    };
                    if delta == 0 {
                        r1 == r0 && acts.len() == 0
                    } else {
                        let c0 = client_at(r0.clients@, addr);
                        if !c0.path@.is_prefix_of(p@) {
                            only_failure(
                                r0,
                                r1,
                                acts,
                                addr,
                                "buffer::update"@,
                                "The file is not under the project path: "@ + p@,
                            )
                        } else {
                            let rel = p@.skip(c0.path@.len() as int);
                            let t = r0.path@ + rel;
                            &&& (forall|a: u64| #[trigger] has_client(r1.clients@, a)
                                == has_client(r0.clients@, a))
                            &&& client_at(r1.clients@, addr) == client_at(r0.clients@, addr)
                            &&& (forall|a: u64| a != addr && #[trigger] has_client(r0.clients@, a)
                                ==> client_at(r1.clients@, a) == moved_client(
                                client_at(r0.clients@, a),
                                b as int,
                                delta,
                                Option::None,
                            ))
                            &&& has_file(r1.files@, t)
                            &&& (if has_file(r0.files@, t) {
                                let i = file_idx(r0.files@, t);
                                &&& r1.files@.len() == r0.files@.len()
                                &&& (forall|j: int| 0 <= j < r0.files@.len() && j != i
                                    ==> #[trigger] r1.files@[j] == r0.files@[j])
                                &&& (exists|ap: bool| crate::file::update_post(
                                    r0.files@[i],
                                    r1.files@[file_idx(r1.files@, t)],
                                    ap,
                                    op@,
                                    b as int,
                                    e as int,
                                    ct@,
                                ))
                            } else {
                                &&& (forall|q: Seq<char>| q != t ==> #[trigger] has_file(
                                    r1.files@,
                                    q,
                                ) == has_file(r0.files@, q))
                                &&& (forall|q: Seq<char>| q != t && has_file(r0.files@, q)
                                    ==> r1.files@[file_idx(r1.files@, q)] == r0.files@[file_idx(
                                    r0.files@,
                                    q,
                                )])
                                &&& (exists|fc: crate::file::File, ap: bool|
                                    fc.path@ == t && fc.rel_path@ == t.skip(r0.path@.len() as int)
                                    && crate::rope::rope_bytes(fc.view) == Seq::<u8>::empty()
                                    && fc.chat.messages@.len() == 0 && fc.use_lf == room_use_lf(r0)
                                    && crate::file::update_post(
                                    fc,
                                    r1.files@[file_idx(r1.files@, t)],
                                    ap,
                                    op@,
                                    b as int,
                                    e as int,
                                    ct@,
                                ))
                            })
                            &&& r1.senders == r0.senders
                            &&& r1.chat == r0.chat
                            &&& r1.path == r0.path
                            &&& r1.password == r0.password
                            &&& r1.prop == r0.prop
                            &&& acts.len() == 1
                            &&& (match acts[0] {
                                Action::Send { to, msg } => to_peers_in_file_except(
                                    to@,
                                    r0,
                                    rel,
                                    addr,
                                ) && match msg {
                                    OutMessage::BufferUpdateOk {
                                        username,
                                        file,
                                        add_or_delete,
                                        beg: bb,
                                        end: ee,
                                        contents: cc,
                                    } => username@ == caller_username(r0, addr) && file@ == rel
                                        && add_or_delete@ == op@ && bb == b && ee == e && cc@
                                        == ct@,
                                    _ => false,
                                },
                                _ => false,
                            })
                        }
                    }
                }
            },
        }
    }
}

/// Apply one edit: predict-shift the other cursors, splice the rope, fan
/// the edit out to the other clients in the same file.
pub fn handle_buffer_update(
    room: &mut Room,
    addr: u64,
    path: &Option<String>,
    aod: &Option<String>,
    beg: Option<usize>,
    end: Option<usize>,
    contents: &Option<String>,
) -> (acts: Vec<Action>)
    requires
        room_wf(*old(room)),
    ensures
        room_wf(*final(room)),
        buffer_update_post(
            *old(room),
            *final(room),
            addr,
            *path,
            *aod,
            beg,
            end,
            *contents,
            acts@,
        ),
{
    let mut acts: Vec<Action> = Vec::new();
    let got: (Option<String>, Option<String>) = match room.get_client(addr) {
        Option::None => {
            acts.push(
                send_one(addr, general_error("buffer::update", "Client not found in the room")),
            );
            return acts;
        },
        Option::Some(c) => {
            match check_entered(c, "buffer::update") {
                Option::Some(m) => {
                    acts.push(send_one(addr, m));
                    return acts;
                },
                Option::None => {},
            }
            let name = match c.user() {
                Option::None => Option::None,
                Option::Some(u) => Option::Some(u.username.clone()),
            };
            (crate::client::no_client_path(c, path), name)
        },
    };
    let p = match path {
        Option::None => {
            acts.push(send_one(addr, missing_field("buffer::update", "path")));
            return acts;
        },
        Option::Some(p) => p,
    };
    let op = match aod {
        Option::None => {
            acts.push(send_one(addr, missing_field("buffer::update", "add_or_delete")));
            return acts;
        },
        Option::Some(o) => o,
    };
    let b = match beg {
        Option::None => {
            acts.push(send_one(addr, missing_field("buffer::update", "beg")));
            return acts;
        },
        Option::Some(b) => b,
    };
    let e = match end {
        Option::None => {
            acts.push(send_one(addr, missing_field("buffer::update", "end")));
            return acts;
        },
        Option::Some(e) => e,
    };
    let ct = match contents {
        Option::None => {
            acts.push(send_one(addr, missing_field("buffer::update", "contents")));
            return acts;
        },
        Option::Some(c) => c,
    };
    proof {
        reveal_strlit("add");
        reveal_strlit("delete");
        assert("add"@.len() == 3);
        assert("delete"@.len() == 6);
        assert("add"@ != "delete"@);
    }
    let is_add = str_eq(op, "add");
    let is_del = str_eq(op, "delete");
    if !is_add && !is_del {
        return acts;
    }
    if b > (isize::MAX as usize) || e > (isize::MAX as usize) {
        return acts;
    }
    if is_del && b > e {
        return acts;
    }
    let delta: isize = if is_del {
        (b as isize) - (e as isize)
    } else {
        (e as isize) - (b as isize)
    };
    if delta == 0 {
        return acts;
    }
    let relp = match got.0 {
        Option::None => {
            let text = concat_str(&String::from_str("The file is not under the project path: "), p);
            acts.push(
                send_one(
                    addr,
                    OutMessage::Failure {
                        method: String::from_str("buffer::update"),
                        message: text,
                    },
                ),
            );
            return acts;
        },
        Option::Some(r) => r,
    };
    let name = match got.1 {
        Option::None => {
            proof {
                assert(false);
            }
            String::new()
        },
        Option::Some(n) => n,
    };
    let t = concat_str(room.get_path(), &relp);
    let ghost r0 = *room;
    room.predict_movement(addr, b as isize, delta);
    let ghost r_mid = *room;
    match room.file_pos(&t) {
        Option::Some(_) => {},
        Option::None => {
            proof {
                assert(t@.subrange(0, room.path@.len() as int) =~= room.path@);
            }
            let ok = room.new_file(&t, String::new());
            proof {
                assert(ok);
                assert(crate::util::norm_le_spec(Seq::<char>::empty()) =~= Seq::<char>::empty());
                assert(vstd::utf8::encode_utf8(Seq::<char>::empty()) =~= Seq::<u8>::empty());
            }
        },
    }
    let ghost rpre = *room;
    let applied = match room.update_file(&t, op, b, e, ct) {
        Option::None => {
            proof {
                assert(false);
            }
            false
        },
        Option::Some(a) => a,
    };
    proof {
        crate::room::lemma_file_idx(rpre.files@, t@);
        let i0 = crate::room::file_idx(rpre.files@, t@);
        assert(room.files@[i0].path@ == t@);
        crate::room::lemma_files_pointwise(rpre.files@, room.files@, i0);
        assert(crate::room::file_idx(room.files@, t@) == i0);
        assert forall|q: Seq<char>| q != t@ && has_file(r0.files@, q) implies room.files@[
            crate::room::file_idx(room.files@, q)] == r0.files@[crate::room::file_idx(
            r0.files@,
            q,
        )] by {
            assert(has_file(rpre.files@, q) == has_file(r0.files@, q));
            assert(rpre.files@[crate::room::file_idx(rpre.files@, q)] == r0.files@[
                crate::room::file_idx(r0.files@, q)]);
            assert(room.files@[crate::room::file_idx(room.files@, q)] == rpre.files@[
                crate::room::file_idx(rpre.files@, q)]);
        }
        assert forall|q: Seq<char>| q != t@ implies #[trigger] has_file(room.files@, q)
            == has_file(r0.files@, q) by {
            assert(has_file(rpre.files@, q) == has_file(r0.files@, q));
        }
    }
    proof {
        assert forall|a: u64| a != addr && #[trigger] has_sender(r0.senders@, a) && editing(
            r0.clients@,
            a,
            relp@,
        ) implies editing(room.clients@, a, relp@) by {
            assert(client_at(room.clients@, a) == moved_client(
                client_at(r0.clients@, a),
                b as int,
                delta as int,
                Option::None,
            ));
        }
        assert forall|a: u64| a != addr && #[trigger] has_sender(room.senders@, a) && editing(
            room.clients@,
            a,
            relp@,
        ) implies editing(r0.clients@, a, relp@) by {
            assert(client_at(room.clients@, a) == moved_client(
                client_at(r0.clients@, a),
                b as int,
                delta as int,
                Option::None,
            ));
        }
    }
    let peers = room.peers_by_file(&relp);
    let np = peers.len();
    let mut to: Vec<u64> = Vec::new();
    let mut k: usize = 0;
    while k < np
        invariant
            0 <= k <= np,
            np == peers@.len(),
            forall|j: int| 0 <= j < peers@.len() ==> has_sender(room.senders@, #[trigger]
            peers@[j]) && editing(room.clients@, peers@[j], relp@),
            forall|j: int| 0 <= j < to@.len() ==> #[trigger] to@[j] != addr && has_sender(
                room.senders@,
                to@[j],
            ) && editing(room.clients@, to@[j], relp@),
            forall|j: int| 0 <= j < k ==> (peers@[j] != addr ==> has_sender(
                to@,
                #[trigger] peers@[j],
            )),
        decreases np - k,
    {
        let a = peers[k];
        let ghost pre_to = to@;
        if a != addr {
            to.push(a);
        }
        proof {
            assert forall|j: int| 0 <= j < k + 1 implies (peers@[j] != addr ==> has_sender(
                to@,
                #[trigger] peers@[j],
            )) by {
                if peers@[j] != addr {
                    if j < k as int {
                        let m = choose|m: int| 0 <= m < pre_to.len() && pre_to[m] == peers@[j];
                        assert(to@[m] == peers@[j]);
                    } else {
                        assert(to@[pre_to.len() as int] == peers@[j]);
                    }
                }
            }
        }
        k = k + 1;
    }
    proof {
        assert forall|a: u64| a != addr && #[trigger] has_sender(r0.senders@, a) && editing(
            r0.clients@,
            a,
            relp@,
        ) implies has_sender(to@, a) by {
            assert(editing(room.clients@, a, relp@));
            assert(has_sender(room.senders@, a));
            assert(has_sender(peers@, a));
            let m = choose|m: int| 0 <= m < peers@.len() && peers@[m] == a;
            assert(peers@[m] != addr);
        }
    }
    acts.push(
        Action::Send {
            to,
            msg: OutMessage::BufferUpdateOk {
                username: name,
                file: relp,
                add_or_delete: op.clone(),
                beg: b,
                end: e,
                contents: ct.clone(),
            },
        },
    );
    acts
}


/// Effect of `buffer::sync`: the caller receives the rope contents — the
/// server's in-memory view, not the on-disk file — named as the caller
/// named it.  An untracked or untranslatable path is dropped silently.
pub open spec fn buffer_sync_post(r0: Room, r1: Room, addr: u64, file: Option<String>, acts: Seq<Action>) -> bool {
    if !known(r0, addr) || !entered(r0, addr) {
        precheck_failed(r0, r1, acts, addr, "buffer::sync"@)
    } else {
        match file {
            None => only_failure(r0, r1, acts, addr, "buffer::sync"@, missing_field_text("file"@)),
            Some(f) => {
                let c0 = client_at(r0.clients@, addr);
                if !c0.path@.is_prefix_of(f@) {
                    r1 == r0 && acts.len() == 0
                } else {
                    let t = r0.path@ + f@.skip(c0.path@.len() as int);
                    if !has_file(r0.files@, t) {
                        r1 == r0 && acts.len() == 0
                    } else {
                        &&& r1 == r0
                        &&& acts.len() == 1
                        &&& (match acts[0] {
                            Action::Send { to, msg } => to@ == seq![addr] && match msg {
                                OutMessage::BufferSyncOk { file: ff, contents } => ff@ == f@
                                    && buffer_of(r0.files@[file_idx(r0.files@, t)], contents@),
                                _ => false,
                            },
                            _ => false,
                        })
                    }
                }
            },
        }
    }
}

/// Answer with the rope view of one file.
pub fn handle_buffer_sync(room: &Room, addr: u64, file: &Option<String>) -> (acts: Vec<Action>)
    requires
        room_wf(*room),
    ensures
        buffer_sync_post(*room, *room, addr, *file, acts@),
{
    let mut acts: Vec<Action> = Vec::new();
    match room.get_client(addr) {
        Option::None => {
            acts.push(
                send_one(addr, general_error("buffer::sync", "Client not found in the room")),
            );
            return acts;
        },
        Option::Some(c) => {
            match check_entered(c, "buffer::sync") {
                Option::Some(m) => {
                    acts.push(send_one(addr, m));
                    return acts;
                },
                Option::None => {},
            }
        },
    }
    let f = match file {
        Option::None => {
            acts.push(send_one(addr, missing_field("buffer::sync", "file")));
            return acts;
        },
        Option::Some(f) => f,
    };
    match room.get_file(addr, f) {
        Option::None => {},
        Option::Some(fileref) => {
            let contents = fileref.buffer();
            acts.push(
                send_one(addr, OutMessage::BufferSyncOk { file: f.clone(), contents }),
            );
        },
    }
    acts
}

/// Effect of `buffer::save`: the rope view of the (possibly just
/// created) file is persisted to disk — the rope is authoritative, not
/// the submitted contents — and everyone else hears the saved text.
pub open spec fn buffer_save_post(r0: Room, r1: Room, addr: u64, file: Option<String>, contents: Option<String>, acts: Seq<Action>) -> bool {
    if !known(r0, addr) || !entered(r0, addr) {
        precheck_failed(r0, r1, acts, addr, "buffer::save"@)
    } else {
        match (file, contents) {
            (None, _) => only_failure(r0, r1, acts, addr, "buffer::save"@, missing_field_text("file"@)),
            (Some(_), None) => only_failure(
                r0,
                r1,
                acts,
                addr,
                "buffer::save"@,
                missing_field_text("contents"@),
            ),
            (Some(f), Some(ct)) => {
                let c0 = client_at(r0.clients@, addr);
                if !c0.path@.is_prefix_of(f@) {
                    only_failure(
                        r0,
                        r1,
                        acts,
                        addr,
                        "buffer::save"@,
                        "The file is not under the project path: "@ + f@,
                    )
                } else {
                    let rel = f@.skip(c0.path@.len() as int);
                    let t = r0.path@ + rel;
                    &&& (if has_file(r0.files@, t) {
                        r1 == r0
                    } else {
                        &&& has_file(r1.files@, t)
                        &&& ({
                            let nf = r1.files@[file_idx(r1.files@, t)];
                            &&& nf.path@ == t
                            &&& nf.use_lf == room_use_lf(r0)
                            &&& (nf.use_lf ==> crate::rope::rope_bytes(nf.view)
                                == vstd::utf8::encode_utf8(crate::util::norm_le_spec(ct@)))
                            &&& (!nf.use_lf ==> crate::rope::rope_bytes(nf.view)
                                == vstd::utf8::encode_utf8(ct@))
                        })
                        &&& (forall|q: Seq<char>| q != t ==> #[trigger] has_file(r1.files@, q)
                            == has_file(r0.files@, q))
                        &&& r1.clients == r0.clients
                        &&& r1.senders == r0.senders
                        &&& r1.chat == r0.chat
                        &&& r1.path == r0.path
                        &&& r1.password == r0.password
                        &&& r1.prop == r0.prop
                    })
                    &&& acts.len() == 2
                    &&& ({
                        let nf = r1.files@[file_idx(r1.files@, t)];
                        &&& (match acts[0] {
                            Action::FsWrite { path, contents: wc } => path@ == t && buffer_of(
                                nf,
                                wc@,
                            ),
                            _ => false,
                        })
                        &&& (match acts[1] {
                            Action::Send { to, msg } => to_all_except(to@, r0.senders@, addr)
                                && match msg {
                                OutMessage::BufferSaveOk { file: ff, contents: cc } => ff@ == rel
                                    && buffer_of(nf, cc@),
                                _ => false,
                            },
                            _ => false,
                        })
                    })
                }
            },
        }
    }
}

/// Persist the rope view of one file to disk and announce the saved text
/// to everyone else.
pub fn handle_buffer_save(
    room: &mut Room,
    addr: u64,
    file: &Option<String>,
    contents: &Option<String>,
) -> (acts: Vec<Action>)
    requires
        room_wf(*old(room)),
    ensures
        room_wf(*final(room)),
        buffer_save_post(*old(room), *final(room), addr, *file, *contents, acts@),
{
    let mut acts: Vec<Action> = Vec::new();
    let rel: Option<String> = match room.get_client(addr) {
        Option::None => {
            acts.push(
                send_one(addr, general_error("buffer::save", "Client not found in the room")),
            );
            return acts;
        },
        Option::Some(c) => {
            match check_entered(c, "buffer::save") {
                Option::Some(m) => {
                    acts.push(send_one(addr, m));
                    return acts;
                },
                Option::None => {},
            }
            crate::client::no_client_path(c, file)
        },
    };
    let f = match file {
        Option::None => {
            acts.push(send_one(addr, missing_field("buffer::save", "file")));
            return acts;
        },
        Option::Some(f) => f,
    };
    let ct = match contents {
        Option::None => {
            acts.push(send_one(addr, missing_field("buffer::save", "contents")));
            return acts;
        },
        Option::Some(c) => c,
    };
    let relp = match rel {
        Option::None => {
            let text = concat_str(&String::from_str("The file is not under the project path: "), f);
            acts.push(
                send_one(
                    addr,
                    OutMessage::Failure {
                        method: String::from_str("buffer::save"),
                        message: text,
                    },
                ),
            );
            return acts;
        },
        Option::Some(r) => r,
    };
    let t = concat_str(room.get_path(), &relp);
    match room.file_pos(&t) {
        Option::Some(_) => {},
        Option::None => {
            proof {
                assert(t@.subrange(0, room.path@.len() as int) =~= room.path@);
            }
            let ok = room.new_file(&t, ct.clone());
            proof {
                assert(ok);
            }
        },
    }
    let i = match room.file_pos(&t) {
        Option::None => {
            proof {
                assert(false);
            }
            0
        },
        Option::Some(i) => i,
    };
    let buffer = room.files[i].buffer();
    acts.push(Action::FsWrite { path: t.clone(), contents: buffer.clone() });
    acts.push(
        Action::Send {
            to: room.peers_except(addr),
            msg: OutMessage::BufferSaveOk { file: relp, contents: buffer },
        },
    );
    acts
}

/// Effect of the router: each method behaves as its handler says.
pub open spec fn handle_post(r0: Room, r1: Room, addr: u64, ip: Seq<char>, req: Request, acts: Seq<Action>) -> bool {
    match req {
        Request::Test => test_post(r0, r1, addr, acts),
        Request::Ping => ping_post(r0, r1, addr, acts),
        Request::Init { path } => init_post(r0, r1, addr, ip, path, acts),
        Request::RoomEnter { username, password } => enter_post(r0, r1, addr, username, password, acts),
        Request::RoomExit => exit_post(r0, r1, addr, acts),
        Request::RoomKick { username } => kick_post(r0, r1, addr, username, acts),
        Request::RoomBroadcast { message } => broadcast_post(r0, r1, addr, message, acts),
        Request::RoomInfo => info_post(r0, r1, addr, acts),
        Request::RoomSync { path } => room_sync_post(r0, r1, addr, path, acts),
        Request::RoomUpdateClient { path, point, region_beg, region_end, color_cursor, color_region } => update_client_post(r0, r1, addr, path, point, region_beg, region_end, color_cursor, color_region, acts),
        Request::RoomAddFile { file, contents } => add_file_post(r0, r1, addr, file, contents, acts),
        Request::RoomDeleteFile { file } => delete_file_post(r0, r1, addr, file, acts),
        Request::RoomRenameFile { file, newname } => rename_file_post(r0, r1, addr, file, newname, acts),
        Request::RoomFindUser { username } => find_user_post(r0, r1, addr, username, acts),
        Request::FileSync { file } => file_sync_post(r0, r1, addr, file, acts),
        Request::FileInfo => file_info_post(r0, r1, addr, acts),
        Request::FileSay { file, message } => file_say_post(r0, r1, addr, file, message, acts),
        Request::BufferUpdate { path, add_or_delete, beg, end, contents } => buffer_update_post(r0, r1, addr, path, add_or_delete, beg, end, contents, acts),
        Request::BufferSync { file } => buffer_sync_post(r0, r1, addr, file, acts),
        Request::BufferSave { file, contents } => buffer_save_post(r0, r1, addr, file, contents, acts),
    }
}

/// Dispatch one decoded request to its handler.
///
/// `peer_ip` is the IP the connection came from, used by `init` to grant
/// the admin flag.
pub fn handle(room: &mut Room, addr: u64, peer_ip: &String, req: &Request) -> (acts: Vec<Action>)
    requires
        room_wf(*old(room)),
    ensures
        room_wf(*final(room)),
        handle_post(*old(room), *final(room), addr, peer_ip@, *req, acts@),
{
    match req {
        Request::Test => handle_test(room, addr),
        Request::Ping => handle_ping(room, addr),
        Request::Init { path } => handle_init(room, addr, peer_ip, path),
        Request::RoomEnter { username, password } => handle_room_enter(
            room,
            addr,
            username,
            password,
        ),
        Request::RoomExit => handle_room_exit(room, addr),
        Request::RoomKick { username } => handle_room_kick(room, addr, username),
        Request::RoomBroadcast { message } => handle_room_broadcast(room, addr, message),
        Request::RoomInfo => handle_room_info(room, addr),
        Request::RoomSync { path } => handle_room_sync(room, addr, path),
        Request::RoomUpdateClient {
            path,
            point,
            region_beg,
            region_end,
            color_cursor,
            color_region,
        } => handle_room_update_client(
            room,
            addr,
            path,
            *point,
            *region_beg,
            *region_end,
            color_cursor,
            color_region,
        ),
        Request::RoomAddFile { file, contents } => handle_room_add_file(
            room,
            addr,
            file,
            contents,
        ),
        Request::RoomDeleteFile { file } => handle_room_delete_file(room, addr, file),
        Request::RoomRenameFile { file, newname } => handle_room_rename_file(
            room,
            addr,
            file,
            newname,
        ),
        Request::RoomFindUser { username } => handle_room_find_user(room, addr, username),
        Request::FileSync { file } => handle_file_sync(room, addr, file),
        Request::FileInfo => handle_file_info(room, addr),
        Request::FileSay { file, message } => handle_file_say(room, addr, file, message),
        Request::BufferUpdate { path, add_or_delete, beg, end, contents } => handle_buffer_update(
            room,
            addr,
            path,
            add_or_delete,
            *beg,
            *end,
            contents,
        ),
        Request::BufferSync { file } => handle_buffer_sync(room, addr, file),
        Request::BufferSave { file, contents } => handle_buffer_save(room, addr, file, contents),
    }
}


/// The edit round trip over `buffer::update` itself.
///
/// One call inserts `x` at byte offset `b` of a tracked file; the next
/// call deletes exactly the inserted byte range.  Provided the deletion
/// is applicable (the spliced text keeps `b` and `b + |x|` on character
/// boundaries, as it always does for a boundary insertion) and no cursor
/// shift would leave the `isize` range, the rope is bit-identical to
/// where it started and every client's user record — cursor and region
/// included — is back at its starting position.
pub proof fn lemma_buffer_update_round_trip(
    r0: Room,
    r1: Room,
    r2: Room,
    addr: u64,
    p: String,
    aod1: String,
    aod2: String,
    x: String,
    empty: String,
    b: usize,
    e: usize,
    acts1: Seq<Action>,
    acts2: Seq<Action>,
)
    requires
        room_wf(r0),
        known(r0, addr) && entered(r0, addr),
        aod1@ == "add"@,
        aod2@ == "delete"@,
        client_at(r0.clients@, addr).path@.is_prefix_of(p@),
        vstd::utf8::encode_utf8(x@).len() > 0,
        b + vstd::utf8::encode_utf8(x@).len() <= isize::MAX as usize,
        e == b + vstd::utf8::encode_utf8(x@).len(),
        ({
            let t = r0.path@ + p@.skip(client_at(r0.clients@, addr).path@.len() as int);
            &&& has_file(r0.files@, t)
            &&& crate::file::add_valid(
                crate::rope::rope_bytes(r0.files@[file_idx(r0.files@, t)].view),
                b as int,
            )
        }),
        buffer_update_post(r0, r1, addr, Some(p), Some(aod1), Some(b), Some(e), Some(x), acts1),
        ({
            let t = r0.path@ + p@.skip(client_at(r0.clients@, addr).path@.len() as int);
            crate::file::delete_valid(
                crate::rope::rope_bytes(r1.files@[file_idx(r1.files@, t)].view),
                b as int,
                e as int,
            )
        }),
        buffer_update_post(
            r1,
            r2,
            addr,
            Some(p),
            Some(aod2),
            Some(b),
            Some(e),
            Some(empty),
            acts2,
        ),
        forall|a: u64| #[trigger] has_client(r0.clients@, a) ==> (match client_at(
            r0.clients@,
            a,
        ).user {
            Some(u) => {
                &&& (match u.point {
                    Some(pt) => pt as int + (e - b) <= isize::MAX as int,
                    None => true,
                })
                &&& (match u.region_beg {
                    Some(rb) => rb as int + (e - b) <= isize::MAX as int,
                    None => true,
                })
                &&& (match u.region_end {
                    Some(re) => re as int + (e - b) <= isize::MAX as int,
                    None => true,
                })
            },
            None => true,
        }),
    ensures
        forall|a: u64| #[trigger] has_client(r0.clients@, a) ==> client_at(r2.clients@, a)
            == client_at(r0.clients@, a),
        ({
            let t = r0.path@ + p@.skip(client_at(r0.clients@, addr).path@.len() as int);
            let i = file_idx(r0.files@, t);
            let f0 = r0.files@[i];
            let f2 = r2.files@[i];
            &&& crate::rope::rope_bytes(f2.view) == crate::rope::rope_bytes(f0.view)
            &&& f2.path == f0.path
            &&& f2.rel_path == f0.rel_path
            &&& f2.use_lf == f0.use_lf
            &&& (forall|j: int| 0 <= j < r0.files@.len() && j != i ==> #[trigger] r2.files@[j]
                == r0.files@[j])
        }),
{
    let c0 = client_at(r0.clients@, addr);
    let t = r0.path@ + p@.skip(c0.path@.len() as int);
    let ins = vstd::utf8::encode_utf8(x@);
    let d: int = e - b;
    assert(d > 0);
    reveal_strlit("add");
    reveal_strlit("delete");
    assert("add"@.len() == 3);
    assert("delete"@.len() == 6);
    assert("add"@ != "delete"@);
    crate::room::lemma_file_idx(r0.files@, t);
    let i = file_idx(r0.files@, t);
    let f0 = r0.files@[i];
    let s0 = crate::rope::rope_bytes(f0.view);
    // First call: the insertion applied.
    assert(client_at(r1.clients@, addr) == client_at(r0.clients@, addr));
    let i1 = file_idx(r1.files@, t);
    assert(crate::file::update_post(
        r0.files@[i],
        r1.files@[i1],
        true,
        "add"@,
        b as int,
        e as int,
        x@,
    ) || crate::file::update_post(
        r0.files@[i],
        r1.files@[i1],
        false,
        "add"@,
        b as int,
        e as int,
        x@,
    ));
    let f1 = r1.files@[i1];
    let s1 = crate::rope::rope_bytes(f1.view);
    assert(s1 == s0.subrange(0, b as int) + ins + s0.skip(b as int));
    assert(f1.path == f0.path);
    crate::room::lemma_files_pointwise(r0.files@, r1.files@, i);
    assert(i1 == i);
    // Second call: the caller is still entered at the same root, so the
    // second post takes the same non-failure path with the same target.
    assert(known(r1, addr) && entered(r1, addr));
    assert(client_at(r1.clients@, addr).path@ == c0.path@);
    assert(r1.path == r0.path);
    let i2 = file_idx(r2.files@, t);
    let f2 = r2.files@[i2];
    assert(crate::file::update_post(f1, f2, true, "delete"@, b as int, e as int, empty@)
        || crate::file::update_post(f1, f2, false, "delete"@, b as int, e as int, empty@));
    assert(crate::rope::rope_bytes(f2.view) == s1.subrange(0, b as int) + s1.skip(e as int));
    crate::file::lemma_update_round_trip(s0, b as int, ins);
    assert(crate::rope::rope_bytes(f2.view) == s0);
    crate::room::lemma_files_pointwise(r1.files@, r2.files@, i);
    assert(i2 == i);
    // Cursors: shifting by `d` and then by `-d` around the same anchor is
    // the identity, client by client.
    assert forall|a: u64| #[trigger] has_client(r0.clients@, a) implies client_at(
        r2.clients@,
        a,
    ) == client_at(r0.clients@, a) by {
        if a == addr {
            assert(client_at(r2.clients@, addr) == client_at(r1.clients@, addr));
        } else {
            let ca = client_at(r0.clients@, a);
            assert(client_at(r1.clients@, a) == moved_client(ca, b as int, d, Option::None));
            assert(has_client(r1.clients@, a));
            assert(client_at(r2.clients@, a) == moved_client(
                moved_client(ca, b as int, d, Option::None),
                b as int,
                -d,
                Option::None,
            ));
            match ca.user {
                None => {},
                Some(u) => {
                    match u.path {
                        None => {},
                        Some(_) => {
                            assert(client_wf(ca));
                            crate::user::lemma_move_round_trip(u, b as int, d);
                            assert(moved_client(
                                moved_client(ca, b as int, d, Option::None),
                                b as int,
                                -d,
                                Option::None,
                            ) == ca);
                        },
                    }
                },
            }
        }
    }
}


/// Entering the room and then exiting it, through the handlers, returns
/// the caller's client row to its pre-enter state, and touches nobody
/// else's row.
pub proof fn lemma_enter_exit_handlers(
    r0: Room,
    r1: Room,
    r2: Room,
    addr: u64,
    u: String,
    pw: Option<String>,
    acts1: Seq<Action>,
    acts2: Seq<Action>,
)
    requires
        known(r0, addr),
        !entered(r0, addr),
        client_at(r0.clients@, addr).user is None,
        enter_verdict(r0, addr, u@, pw).0,
        enter_post(r0, r1, addr, Some(u), pw, acts1),
        exit_post(r1, r2, addr, acts2),
    ensures
        client_at(r2.clients@, addr) == client_at(r0.clients@, addr),
        forall|a: u64| a != addr && #[trigger] has_client(r0.clients@, a) ==> client_at(
            r2.clients@,
            a,
        ) == client_at(r0.clients@, a),
{
    let c0 = client_at(r0.clients@, addr);
    let c1 = client_at(r1.clients@, addr);
    assert(known(r1, addr) && entered(r1, addr));
    assert(client_at(r2.clients@, addr) == exited_client(c1));
    assert(exited_client(c1) == c0);
}

} // verus!
