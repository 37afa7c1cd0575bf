//! The shared substrate of one server process: the workspace root, the
//! connected clients, their outbound inboxes, and the mirrored files.
//!
//! `clients` and `senders` are association tables keyed by a peer handle
//! (an integer the accept loop assigns to each connection).  The tables
//! move in lock step: an address is registered in both or in neither.

use vstd::prelude::*;
use vstd::pervasive::VecAdditionalExecFns;
use crate::chat::Chat;
use crate::client::{Client, client_wf, moved_client};
use crate::file::File;
use crate::rope::rope_bytes;
use crate::util::norm_le_spec;
use vstd::utf8::encode_utf8;
use crate::properties::Properties;
use crate::user::User;
use crate::util::{starts_with, strip_prefix, concat_str};

verus! {

/// An address is present in the client table.
pub open spec fn has_client(s: Seq<(u64, Client)>, addr: u64) -> bool {
    exists|i: int| 0 <= i < s.len() && (#[trigger] s[i]).0 == addr
}

/// The position of an address in the client table.
pub open spec fn client_idx(s: Seq<(u64, Client)>, addr: u64) -> int {
    choose|i: int| 0 <= i < s.len() && (#[trigger] s[i]).0 == addr
}

/// The client registered under an address.
pub open spec fn client_at(s: Seq<(u64, Client)>, addr: u64) -> Client {
    s[client_idx(s, addr)].1
}

/// No address is registered twice.
pub open spec fn client_keys_distinct(s: Seq<(u64, Client)>) -> bool {
    forall|i: int, j: int| 0 <= i < j < s.len() ==> (#[trigger] s[i]).0 != (#[trigger] s[j]).0
}

/// An address is present in the sender table.
pub open spec fn has_sender(s: Seq<u64>, addr: u64) -> bool {
    exists|i: int| 0 <= i < s.len() && s[i] == addr
}

/// No sender is registered twice.
pub open spec fn senders_distinct(s: Seq<u64>) -> bool {
    forall|i: int, j: int| 0 <= i < j < s.len() ==> s[i] != s[j]
}

/// A file with the given absolute path is present.
pub open spec fn has_file(s: Seq<File>, path: Seq<char>) -> bool {
    exists|i: int| 0 <= i < s.len() && (#[trigger] s[i]).path@ == path
}

/// The position of the file with the given absolute path.
pub open spec fn file_idx(s: Seq<File>, path: Seq<char>) -> int {
    choose|i: int| 0 <= i < s.len() && (#[trigger] s[i]).path@ == path
}

/// No two files share an absolute path.
pub open spec fn file_paths_distinct(s: Seq<File>) -> bool {
    forall|i: int, j: int| 0 <= i < j < s.len() ==> (#[trigger] s[i]).path@ != (#[trigger] s[j]).path@
}

/// Some *other* entered client already carries this username.
pub open spec fn taken(s: Seq<(u64, Client)>, addr: u64, name: Seq<char>) -> bool {
    exists|i: int| 0 <= i < s.len() && (#[trigger] s[i]).0 != addr && match s[i].1.user {
        Some(u) => u.username@ == name,
        None => false,
    }
}

/// Some entered client carries this username.
pub open spec fn has_name(s: Seq<(u64, Client)>, name: Seq<char>) -> bool {
    exists|i: int| 0 <= i < s.len() && match (#[trigger] s[i]).1.user {
        Some(u) => u.username@ == name,
        None => false,
    }
}

/// The address `addr` is that of an entered client visiting the
/// workspace-relative file `rel`.
pub open spec fn editing(s: Seq<(u64, Client)>, addr: u64, rel: Seq<char>) -> bool {
    has_client(s, addr) && match client_at(s, addr).user {
        Some(u) => match u.path {
            Some(p) => p@ == rel,
            None => false,
        },
        None => false,
    }
}

/// The verdict `enter` reaches for a candidate: admitted or not, and the
/// reason when not.  Entry fails when another entered client already
/// carries the username; succeeds at once when the room has no password;
/// otherwise the submitted password must match the room's.
pub open spec fn enter_verdict(r: Room, addr: u64, name: Seq<char>, password: Option<String>) -> (
    bool,
    Seq<char>,
) {
    if taken(r.clients@, addr, name) {
        (false, "Username already taken"@)
    } else {
        match (r.password, password) {
            (None, _) => (true, Seq::<char>::empty()),
            (Some(pw), None) => (false, "Password cannot be null"@),
            (Some(pw), Some(given)) => if given@ == pw@ {
                (true, Seq::<char>::empty())
            } else {
                (false, "Incorrect password"@)
            },
        }
    }
}

/// The connecting address counts as local, and so as admin: its IP equals
/// the configured host.
pub open spec fn room_host_is(r: Room, ip: Seq<char>) -> bool {
    match crate::properties::lookup(r.prop.data@, "cogru.Host"@) {
        Some(v) => ip == v,
        None => ip == "127.0.0.1"@,
    }
}

/// The authoritative shared state of one server process.
pub struct Room {
    pub prop: Properties,
    pub password: Option<String>,
    pub path: String,
    pub senders: Vec<u64>,
    pub clients: Vec<(u64, Client)>,
    pub files: Vec<File>,
    pub chat: Chat,
}

/// The room invariant.
///
/// Both tables are duplicate-free and registered in lock step: an address
/// is in `clients` exactly when it is in `senders`.  Every client is
/// well-formed (a user record exactly while entered, regions ordered), no
/// two entered clients share a username, and every file lies under the
/// room root with its relative path equal to the absolute path minus the
/// root.
pub open spec fn room_wf(r: Room) -> bool {
    &&& client_keys_distinct(r.clients@)
    &&& senders_distinct(r.senders@)
    &&& forall|a: u64| #[trigger] has_client(r.clients@, a) <==> has_sender(r.senders@, a)
    &&& forall|i: int| 0 <= i < r.clients@.len() ==> client_wf((#[trigger] r.clients@[i]).1)
    &&& forall|i: int, j: int| 0 <= i < j < r.clients@.len() ==> match (
        (#[trigger] r.clients@[i]).1.user,
        (#[trigger] r.clients@[j]).1.user,
    ) {
        (Some(u), Some(v)) => u.username@ != v.username@,
        _ => true,
    }
    &&& file_paths_distinct(r.files@)
    &&& forall|i: int| 0 <= i < r.files@.len() ==> r.path@.is_prefix_of(
        (#[trigger] r.files@[i]).path@,
    ) && r.files@[i].rel_path@ == r.files@[i].path@.skip(r.path@.len() as int)
}

/// The position found for an address is the canonical one.
proof fn lemma_client_idx(s: Seq<(u64, Client)>, addr: u64)
    requires
        client_keys_distinct(s),
        has_client(s, addr),
    ensures
        0 <= client_idx(s, addr) < s.len(),
        s[client_idx(s, addr)].0 == addr,
        forall|i: int| 0 <= i < s.len() && (#[trigger] s[i]).0 == addr ==> i == client_idx(s, addr),
{
    let k = client_idx(s, addr);
    assert(0 <= k < s.len() && s[k].0 == addr);
    assert forall|i: int| 0 <= i < s.len() && (#[trigger] s[i]).0 == addr implies i == k by {
        if i != k {
            if i < k {
                assert(s[i].0 != s[k].0);
            } else {
                assert(s[k].0 != s[i].0);
            }
        }
    }
}

/// The position found for a file path is the canonical one.
pub proof fn lemma_file_idx(s: Seq<File>, path: Seq<char>)
    requires
        file_paths_distinct(s),
        has_file(s, path),
    ensures
        0 <= file_idx(s, path) < s.len(),
        s[file_idx(s, path)].path@ == path,
        forall|i: int| 0 <= i < s.len() && (#[trigger] s[i]).path@ == path ==> i == file_idx(s, path),
{
    let k = file_idx(s, path);
    assert(0 <= k < s.len() && s[k].path@ == path);
    assert forall|i: int| 0 <= i < s.len() && (#[trigger] s[i]).path@ == path implies i == k by {
        if i != k {
            if i < k {
                assert(s[i].path@ != s[k].path@);
            } else {
                assert(s[k].path@ != s[i].path@);
            }
        }
    }
}

impl Room {
    /// An empty room over a workspace root.  The initial file scan is the
    /// caller's business: it reads the workspace and registers each file
    /// through `new_file`.
    pub fn new(prop: Properties, path: String, password: Option<String>) -> (r: Room)
        ensures
            r.prop == prop,
            r.path == path,
            r.password == password,
            r.senders@.len() == 0,
            r.clients@.len() == 0,
            r.files@.len() == 0,
            r.chat.messages@.len() == 0,
            room_wf(r),
    {
        Room {
            prop,
            password,
            path,
            senders: Vec::new(),
            clients: Vec::new(),
            files: Vec::new(),
            chat: Chat::new(),
        }
    }

    /// The configuration.
    pub fn get_prop(&self) -> (r: &Properties)
        ensures
            r == self.prop,
    {
        &self.prop
    }

    /// The workspace root.
    pub fn get_path(&self) -> (r: &String)
        ensures
            r == self.path,
    {
        &self.path
    }

    /// The registered peer addresses.
    pub fn peers(&self) -> (r: &Vec<u64>)
        ensures
            r@ == self.senders@,
    {
        &self.senders
    }

    /// `true` when the room was started with a password.
    pub fn has_password(&self) -> (r: bool)
        ensures
            r == (self.password is Some),
    {
        match &self.password {
            Option::None => false,
            Option::Some(_) => true,
        }
    }

    /// The client table.
    pub fn get_clients(&self) -> (r: &Vec<(u64, Client)>)
        ensures
            r@ == self.clients@,
    {
        &self.clients
    }

    /// The position of an address in the client table.
    pub fn client_pos(&self, addr: u64) -> (r: Option<usize>)
        requires
            client_keys_distinct(self.clients@),
        ensures
            r is Some <==> has_client(self.clients@, addr),
            r matches Some(i) ==> i < self.clients@.len() && self.clients@[i as int].0 == addr
                && i as int == client_idx(self.clients@, addr),
    {
        let n = self.clients.len();
        let mut i: usize = 0;
        while i < n
            invariant
                0 <= i <= n,
                n == self.clients@.len(),
                client_keys_distinct(self.clients@),
                forall|j: int| 0 <= j < i ==> (#[trigger] self.clients@[j]).0 != addr,
            decreases n - i,
        {
            if self.clients[i].0 == addr {
                proof {
                    lemma_client_idx(self.clients@, addr);
                }
                return Option::Some(i);
            }
            i = i + 1;
        }
        Option::None
    }

    /// The client registered under an address.
    pub fn get_client(&self, addr: u64) -> (r: Option<&Client>)
        requires
            client_keys_distinct(self.clients@),
        ensures
            r is Some <==> has_client(self.clients@, addr),
            r matches Some(c) ==> *c == client_at(self.clients@, addr),
    {
        match self.client_pos(addr) {
            Option::None => Option::None,
            Option::Some(i) => Option::Some(&self.clients[i].1),
        }
    }

    /// Register a connection: the client row and its sender slot are
    /// created together, so membership in the two tables stays in lock
    /// step.  A row already registered under the address is replaced.
    pub fn add_client(&mut self, addr: u64, client: Client)
        requires
            room_wf(*old(self)),
            client_wf(client),
            !client.entered,
        ensures
            room_wf(*final(self)),
            has_client(final(self).clients@, addr),
            client_at(final(self).clients@, addr) == client,
            forall|a: u64| a != addr ==> (#[trigger] has_client(final(self).clients@, a)
                == has_client(old(self).clients@, a) && (has_client(old(self).clients@, a)
                ==> client_at(final(self).clients@, a) == client_at(old(self).clients@, a))),
            final(self).prop == old(self).prop,
            final(self).password == old(self).password,
            final(self).path == old(self).path,
            final(self).files == old(self).files,
            final(self).chat == old(self).chat,
    {
        proof {
            assert(client.user is None);
        }
        match self.client_pos(addr) {
            Option::Some(i) => {
                let ghost pre = self.clients@;
                self.clients.set(i, (addr, client));
                proof {
                    lemma_client_idx(pre, addr);
                    assert(self.clients@[i as int].0 == addr);
                    lemma_client_idx(self.clients@, addr);
                    assert forall|a: u64| a != addr implies (#[trigger] has_client(
                        self.clients@,
                        a,
                    ) == has_client(pre, a)) by {
                        if has_client(pre, a) {
                            let k = client_idx(pre, a);
                            assert(self.clients@[k].0 == a);
                        }
                        if has_client(self.clients@, a) {
                            let k = client_idx(self.clients@, a);
                            assert(pre[k].0 == a);
                        }
                    }
                    assert forall|a: u64| a != addr && has_client(pre, a) implies client_at(
                        self.clients@,
                        a,
                    ) == client_at(pre, a) by {
                        lemma_client_idx(pre, a);
                        lemma_client_idx(self.clients@, a);
                        let k = client_idx(pre, a);
                        assert(self.clients@[k].0 == a);
                    }
                }
            },
            Option::None => {
                let ghost pre = self.clients@;
                let ghost pre_s = self.senders@;
                self.clients.push((addr, client));
                self.senders.push(addr);
                proof {
                    assert(self.clients@[pre.len() as int].0 == addr);
                    assert(has_client(self.clients@, addr));
                    lemma_client_idx(self.clients@, addr);
                    assert forall|a: u64| a != addr implies (#[trigger] has_client(
                        self.clients@,
                        a,
                    ) == has_client(pre, a)) by {
                        if has_client(self.clients@, a) {
                            let k = client_idx(self.clients@, a);
                            assert(0 <= k < pre.len() && pre[k].0 == a);
                        }
                        if has_client(pre, a) {
                            let k = client_idx(pre, a);
                            assert(self.clients@[k].0 == a);
                        }
                    }
                    assert forall|a: u64| a != addr && has_client(pre, a) implies client_at(
                        self.clients@,
                        a,
                    ) == client_at(pre, a) by {
                        lemma_client_idx(pre, a);
                        lemma_client_idx(self.clients@, a);
                        let k = client_idx(pre, a);
                        assert(self.clients@[k].0 == a);
                    }
                    assert forall|a: u64| #[trigger] has_client(self.clients@, a) implies
                        has_sender(self.senders@, a) by {
                        if a == addr {
                            assert(self.senders@[pre_s.len() as int] == addr);
                        } else {
                            assert(has_client(pre, a));
                            let k = choose|i: int| 0 <= i < pre_s.len() && pre_s[i] == a;
                            assert(self.senders@[k] == a);
                        }
                    }
                    assert forall|a: u64| has_sender(self.senders@, a) implies #[trigger]
                        has_client(self.clients@, a) by {
                        if a != addr {
                            let k = choose|i: int| 0 <= i < self.senders@.len()
                                && self.senders@[i] == a;
                            assert(pre_s[k] == a);
                            assert(has_sender(pre_s, a));
                            assert(has_client(pre, a));
                            lemma_client_idx(pre, a);
                            let m = client_idx(pre, a);
                            assert(self.clients@[m].0 == a);
                        }
                    }
                    assert(!has_sender(pre_s, addr));
                    assert forall|x: int, y: int| 0 <= x < y < self.clients@.len() implies (
                    #[trigger] self.clients@[x]).0 != (#[trigger] self.clients@[y]).0 by {
                        if y == pre.len() as int {
                            if self.clients@[x].0 == addr {
                                assert(pre[x].0 == addr);
                                assert(has_client(pre, addr));
                            }
                        }
                    }
                    assert forall|x: int, y: int| 0 <= x < y < self.senders@.len() implies
                        self.senders@[x] != self.senders@[y] by {
                        if y == pre_s.len() as int {
                            if self.senders@[x] == addr {
                                assert(pre_s[x] == addr);
                                assert(has_sender(pre_s, addr));
                            }
                        }
                    }
                }
            },
        }
    }

    /// Unregister a connection: the client row and its sender slot go
    /// away together.
    pub fn remove_client(&mut self, addr: u64)
        requires
            room_wf(*old(self)),
        ensures
            room_wf(*final(self)),
            !has_client(final(self).clients@, addr),
            !has_sender(final(self).senders@, addr),
            forall|a: u64| a != addr ==> (#[trigger] has_client(final(self).clients@, a)
                == has_client(old(self).clients@, a) && (has_client(old(self).clients@, a)
                ==> client_at(final(self).clients@, a) == client_at(old(self).clients@, a))),
            final(self).prop == old(self).prop,
            final(self).password == old(self).password,
            final(self).path == old(self).path,
            final(self).files == old(self).files,
            final(self).chat == old(self).chat,
    {
        match self.client_pos(addr) {
            Option::None => {
                proof {
                    assert(!has_sender(self.senders@, addr));
                }
            },
            Option::Some(i) => {
                let ghost pre = self.clients@;
                let ghost pre_s = self.senders@;
                self.clients.remove(i);
                proof {
                    lemma_client_idx(pre, addr);
                    assert forall|a: u64| a != addr && has_client(pre, a) implies has_client(
                        self.clients@,
                        a,
                    ) && client_at(self.clients@, a) == client_at(pre, a) by {
                        lemma_client_idx(pre, a);
                        let k = client_idx(pre, a);
                        if k < i as int {
                            assert(self.clients@[k].0 == a);
                        } else {
                            assert(self.clients@[k - 1].0 == a);
                        }
                        lemma_client_idx(self.clients@, a);
                    }
                    assert forall|a: u64| #[trigger] has_client(self.clients@, a) implies
                        has_client(pre, a) && a != addr by {
                        let k = client_idx(self.clients@, a);
                        if k < i as int {
                            assert(pre[k].0 == a);
                        } else {
                            assert(pre[k + 1].0 == a);
                        }
                    }
                }
                // Now drop the sender slot for the same address.
                let n = self.senders.len();
                let mut j: usize = 0;
                while j < n && self.senders[j] != addr
                    invariant
                        0 <= j <= n,
                        n == self.senders@.len(),
                        forall|k: int| 0 <= k < j ==> self.senders@[k] != addr,
                    decreases n - j,
                {
                    j = j + 1;
                }
                if j >= n {
                    proof {
                        assert(pre[i as int].0 == addr);
                        assert(has_client(pre, addr));
                        assert(has_sender(pre_s, addr));
                        let k = choose|m: int| 0 <= m < pre_s.len() && pre_s[m] == addr;
                        assert(self.senders@[k] != addr);
                        assert(false);
                    }
                } else {
                    let pos = j;
                    self.senders.remove(pos);
                    proof {
                        assert(pre_s[pos as int] == addr);
                        assert forall|a: u64| a != addr && has_sender(pre_s, a) implies
                            has_sender(self.senders@, a) by {
                            let k = choose|m: int| 0 <= m < pre_s.len() && pre_s[m] == a;
                            if k < pos as int {
                                assert(self.senders@[k] == a);
                            } else {
                                assert(self.senders@[k - 1] == a);
                            }
                        }
                        assert forall|a: u64| #[trigger] has_sender(self.senders@, a) implies
                            has_sender(pre_s, a) && a != addr by {
                            let k = choose|m: int| 0 <= m < self.senders@.len()
                                && self.senders@[m] == a;
                            if k < pos as int {
                                assert(pre_s[k] == a);
                            } else {
                                assert(pre_s[k + 1] == a);
                                if pre_s[k + 1] == addr {
                                    assert(false);
                                }
                            }
                        }
                        assert forall|x: int, y: int| 0 <= x < y < self.clients@.len() implies (
                        #[trigger] self.clients@[x]).0 != (#[trigger] self.clients@[y]).0 by {
                            let x2: int = if x < i as int { x } else { x + 1 };
                            let y2: int = if y < i as int { y } else { y + 1 };
                            assert(self.clients@[x] == pre[x2]);
                            assert(self.clients@[y] == pre[y2]);
                        }
                        assert forall|x: int| 0 <= x < self.clients@.len() implies client_wf((
                        #[trigger] self.clients@[x]).1) by {
                            let x2: int = if x < i as int { x } else { x + 1 };
                            assert(self.clients@[x] == pre[x2]);
                        }
                        assert forall|x: int, y: int| 0 <= x < y < self.clients@.len() implies (
                        match ((#[trigger] self.clients@[x]).1.user, (
                        #[trigger] self.clients@[y]).1.user) {
                            (Some(u), Some(v)) => u.username@ != v.username@,
                            _ => true,
                        }) by {
                            let x2: int = if x < i as int { x } else { x + 1 };
                            let y2: int = if y < i as int { y } else { y + 1 };
                            assert(self.clients@[x] == pre[x2]);
                            assert(self.clients@[y] == pre[y2]);
                        }
                        assert forall|x: int, y: int| 0 <= x < y < self.senders@.len() implies
                            self.senders@[x] != self.senders@[y] by {
                            let x2: int = if x < pos as int { x } else { x + 1 };
                            let y2: int = if y < pos as int { y } else { y + 1 };
                            assert(self.senders@[x] == pre_s[x2]);
                            assert(self.senders@[y] == pre_s[y2]);
                        }
                        assert forall|a: u64| #[trigger] has_client(self.clients@, a) implies
                            has_sender(self.senders@, a) by {
                            assert(has_client(pre, a) && a != addr);
                            assert(has_sender(pre_s, a));
                        }
                        assert forall|a: u64| has_sender(self.senders@, a) implies #[trigger]
                            has_client(self.clients@, a) by {
                            assert(has_sender(pre_s, a) && a != addr);
                            assert(has_client(pre, a));
                        }
                    }
                }
            },
        }
    }

    /// Unregister a connection by its sender slot; the client row goes
    /// with it, keeping the two tables in lock step.
    pub fn remove_peer(&mut self, addr: u64)
        requires
            room_wf(*old(self)),
        ensures
            room_wf(*final(self)),
            !has_client(final(self).clients@, addr),
            !has_sender(final(self).senders@, addr),
            forall|a: u64| a != addr ==> (#[trigger] has_client(final(self).clients@, a)
                == has_client(old(self).clients@, a) && (has_client(old(self).clients@, a)
                ==> client_at(final(self).clients@, a) == client_at(old(self).clients@, a))),
            final(self).prop == old(self).prop,
            final(self).password == old(self).password,
            final(self).path == old(self).path,
            final(self).files == old(self).files,
            final(self).chat == old(self).chat,
    {
        self.remove_client(addr);
    }
}


/// The client `c` after leaving the room.
pub open spec fn exited_client(c: Client) -> Client {
    Client { entered: false, user: None, ..c }
}

/// Updating one row without changing its key leaves the table's keys, and
/// every other row, as they were.
proof fn lemma_update_same_key(pre: Seq<(u64, Client)>, i: int, c: Client)
    requires
        0 <= i < pre.len(),
        client_keys_distinct(pre),
    ensures
        ({
            let new = pre.update(i, (pre[i].0, c));
            &&& client_keys_distinct(new)
            &&& forall|a: u64| #[trigger] has_client(new, a) == has_client(pre, a)
            &&& client_at(new, pre[i].0) == c
            &&& forall|a: u64| a != pre[i].0 && has_client(pre, a) ==> client_at(new, a)
                == client_at(pre, a)
        }),
{
    let new = pre.update(i, (pre[i].0, c));
    assert(new[i].0 == pre[i].0);
    assert forall|a: u64| #[trigger] has_client(new, a) == has_client(pre, a) by {
        if has_client(new, a) {
            let k = choose|m: int| 0 <= m < new.len() && new[m].0 == a;
            assert(pre[k].0 == a);
        }
        if has_client(pre, a) {
            let k = choose|m: int| 0 <= m < pre.len() && pre[m].0 == a;
            assert(new[k].0 == a);
        }
    }
    assert(has_client(new, pre[i].0));
    lemma_client_idx(new, pre[i].0);
    assert(client_at(new, pre[i].0) == c);
    assert forall|a: u64| a != pre[i].0 && has_client(pre, a) implies client_at(new, a)
        == client_at(pre, a) by {
        lemma_client_idx(pre, a);
        let k = client_idx(pre, a);
        assert(new[k].0 == a);
        lemma_client_idx(new, a);
    }
}

impl Room {
    /// `true` when another entered client already carries this username.
    pub fn username_taken(&self, addr: u64, username: &String) -> (r: bool)
        ensures
            r == taken(self.clients@, addr, username@),
    {
        let n = self.clients.len();
        let mut i: usize = 0;
        while i < n
            invariant
                0 <= i <= n,
                n == self.clients@.len(),
                forall|j: int| 0 <= j < i ==> !((#[trigger] self.clients@[j]).0 != addr
                    && match self.clients@[j].1.user {
                    Some(u) => u.username@ == username@,
                    None => false,
                }),
            decreases n - i,
        {
            let c = &self.clients[i];
            if c.0 != addr {
                match &c.1.user {
                    Option::None => {},
                    Option::Some(u) => {
                        if u.username.eq(username) {
                            proof {
                                assert((self.clients@[i as int]).0 != addr);
                            }
                            return true;
                        }
                    },
                }
            }
            i = i + 1;
        }
        false
    }

    /// Decide whether a client may enter the room.
    ///
    /// Entry fails when another entered client already carries the
    /// username; succeeds at once when the room has no password; otherwise
    /// requires the submitted password to match the room's.
    pub fn enter(&self, addr: u64, username: &String, password: &Option<String>) -> (r: (
        bool,
        String,
    ))
        ensures
            ({
                let v = enter_verdict(*self, addr, username@, *password);
                r.0 == v.0 && r.1@ == v.1
            }),
    {
        if self.username_taken(addr, username) {
            return (false, String::from_str("Username already taken"));
        }
        let pw = match &self.password {
            Option::None => {
                return (true, String::new());
            },
            Option::Some(pw) => pw,
        };
        match password {
            Option::None => (false, String::from_str("Password cannot be null")),
            Option::Some(given) => {
                if given.eq(pw) {
                    (true, String::new())
                } else {
                    (false, String::from_str("Incorrect password"))
                }
            },
        }
    }

    /// Mark the client at `addr` as entered under `username`.
    ///
    /// The caller has checked that no other entered client carries the
    /// name, so username uniqueness is preserved.
    pub fn enter_client(&mut self, addr: u64, username: &String)
        requires
            room_wf(*old(self)),
            has_client(old(self).clients@, addr),
            !taken(old(self).clients@, addr, username@),
        ensures
            room_wf(*final(self)),
            forall|a: u64| #[trigger] has_client(final(self).clients@, a) == has_client(
                old(self).clients@,
                a,
            ),
            ({
                let c = client_at(final(self).clients@, addr);
                &&& c.entered
                &&& c.user matches Some(u) && u.username == *username && u.path is None
                    && u.point is None && u.region_beg is None && u.region_end is None
                &&& c.path == client_at(old(self).clients@, addr).path
                &&& c.admin == client_at(old(self).clients@, addr).admin
            }),
            forall|a: u64| a != addr && has_client(old(self).clients@, a) ==> client_at(
                final(self).clients@,
                a,
            ) == client_at(old(self).clients@, a),
            final(self).senders == old(self).senders,
            final(self).prop == old(self).prop,
            final(self).password == old(self).password,
            final(self).path == old(self).path,
            final(self).files == old(self).files,
            final(self).chat == old(self).chat,
    {
        let ghost pre = self.clients@;
        let i = match self.client_pos(addr) {
            Option::None => {
                proof {
                    assert(false);
                }
                0
            },
            Option::Some(i) => i,
        };
        let entry = &mut self.clients[i];
        entry.1.enter_room(username);
        proof {
            lemma_update_same_key(pre, i as int, self.clients@[i as int].1);
            assert(self.clients@ =~= pre.update(i as int, (pre[i as int].0, self.clients@[i as int].1)));
            assert forall|x: int, y: int| 0 <= x < y < self.clients@.len() implies (match ((
            #[trigger] self.clients@[x]).1.user, (#[trigger] self.clients@[y]).1.user) {
                (Some(u), Some(v)) => u.username@ != v.username@,
                _ => true,
            }) by {
                if x != i as int && y != i as int {
                    assert(self.clients@[x] == pre[x]);
                    assert(self.clients@[y] == pre[y]);
                } else {
                    let o: int = if x == i as int { y } else { x };
                    assert(self.clients@[o] == pre[o]);
                    if pre[o].0 != addr {
                        assert(!((pre[o]).0 != addr && match pre[o].1.user {
                            Some(u) => u.username@ == username@,
                            None => false,
                        }));
                    } else {
                        assert(pre[o].0 == pre[i as int].0);
                    }
                }
            }
            assert forall|x: int| 0 <= x < self.clients@.len() implies client_wf((
            #[trigger] self.clients@[x]).1) by {
                if x != i as int {
                    assert(self.clients@[x] == pre[x]);
                }
            }
        }
    }

    /// Mark the client at `addr` as exited; its user record is cleared.
    pub fn exit_client(&mut self, addr: u64)
        requires
            room_wf(*old(self)),
            has_client(old(self).clients@, addr),
        ensures
            room_wf(*final(self)),
            forall|a: u64| #[trigger] has_client(final(self).clients@, a) == has_client(
                old(self).clients@,
                a,
            ),
            client_at(final(self).clients@, addr) == exited_client(
                client_at(old(self).clients@, addr),
            ),
            forall|a: u64| a != addr && has_client(old(self).clients@, a) ==> client_at(
                final(self).clients@,
                a,
            ) == client_at(old(self).clients@, a),
            final(self).senders == old(self).senders,
            final(self).prop == old(self).prop,
            final(self).password == old(self).password,
            final(self).path == old(self).path,
            final(self).files == old(self).files,
            final(self).chat == old(self).chat,
    {
        let ghost pre = self.clients@;
        let i = match self.client_pos(addr) {
            Option::None => {
                proof {
                    assert(false);
                }
                0
            },
            Option::Some(i) => i,
        };
        let entry = &mut self.clients[i];
        entry.1.exit_room();
        proof {
            lemma_update_same_key(pre, i as int, self.clients@[i as int].1);
            assert(self.clients@ =~= pre.update(i as int, (pre[i as int].0, self.clients@[i as int].1)));
            assert forall|x: int, y: int| 0 <= x < y < self.clients@.len() implies (match ((
            #[trigger] self.clients@[x]).1.user, (#[trigger] self.clients@[y]).1.user) {
                (Some(u), Some(v)) => u.username@ != v.username@,
                _ => true,
            }) by {
                if x != i as int && y != i as int {
                    assert(self.clients@[x] == pre[x]);
                    assert(self.clients@[y] == pre[y]);
                }
            }
            assert forall|x: int| 0 <= x < self.clients@.len() implies client_wf((
            #[trigger] self.clients@[x]).1) by {
                if x != i as int {
                    assert(self.clients@[x] == pre[x]);
                }
            }
        }
    }

    /// The first entered client carrying this username.
    pub fn get_client_by_name(&self, username: &str) -> (r: Option<&Client>)
        requires
            client_keys_distinct(self.clients@),
        ensures
            r is Some <==> has_name(self.clients@, username@),
            r matches Some(c) ==> exists|i: int| 0 <= i < self.clients@.len() && *c == (
            #[trigger] self.clients@[i]).1 && match c.user {
                Some(u) => u.username@ == username@,
                None => false,
            },
    {
        let n = self.clients.len();
        let mut i: usize = 0;
        while i < n
            invariant
                0 <= i <= n,
                n == self.clients@.len(),
                forall|j: int| 0 <= j < i ==> !(match (#[trigger] self.clients@[j]).1.user {
                    Some(u) => u.username@ == username@,
                    None => false,
                }),
            decreases n - i,
        {
            let c = &self.clients[i];
            match &c.1.user {
                Option::None => {},
                Option::Some(u) => {
                    if crate::util::str_eq(&u.username, username) {
                        return Option::Some(&self.clients[i].1);
                    }
                },
            }
            i = i + 1;
        }
        Option::None
    }

    /// Kick an entered client out of the room by username.
    ///
    /// The target's `entered` flag is cleared and its user record dropped;
    /// its socket is not touched.  Fails when no entered client carries
    /// the name.
    pub fn kick(&mut self, username: &String) -> (r: (bool, String))
        requires
            room_wf(*old(self)),
        ensures
            room_wf(*final(self)),
            r.0 == has_name(old(self).clients@, username@),
            !r.0 ==> *final(self) == *old(self) && r.1@ == "User `"@ + username@
                + "` not found in the room"@,
            r.0 ==> r.1@.len() == 0 && (exists|i: int| 0 <= i < old(self).clients@.len()
                && (match (#[trigger] old(self).clients@[i]).1.user {
                    Some(u) => u.username@ == username@,
                    None => false,
                }) && final(self).clients@ == old(self).clients@.update(
                i,
                (old(self).clients@[i].0, exited_client(old(self).clients@[i].1)),
            )),
            final(self).senders == old(self).senders,
            final(self).prop == old(self).prop,
            final(self).password == old(self).password,
            final(self).path == old(self).path,
            final(self).files == old(self).files,
            final(self).chat == old(self).chat,
    {
        let ghost pre = old(self).clients@;
        let n = self.clients.len();
        let mut i: usize = 0;
        while i < n
            invariant
                *self == *old(self),
                pre == self.clients@,
                room_wf(*self),
                0 <= i <= n,
                n == self.clients@.len(),
                forall|j: int| 0 <= j < i ==> !(match (#[trigger] self.clients@[j]).1.user {
                    Some(u) => u.username@ == username@,
                    None => false,
                }),
            decreases n - i,
        {
            let hit = match &self.clients[i].1.user {
                Option::None => false,
                Option::Some(u) => u.username.eq(username),
            };
            if hit {
                proof {
                    assert((match pre[i as int].1.user {
                        Some(u) => u.username@ == username@,
                        None => false,
                    }));
                    assert((match (#[trigger] old(self).clients@[i as int]).1.user {
                        Some(u) => u.username@ == username@,
                        None => false,
                    }));
                }
                let entry = &mut self.clients[i];
                entry.1.exit_room();
                proof {
                    lemma_update_same_key(pre, i as int, self.clients@[i as int].1);
                    assert(self.clients@ =~= pre.update(
                        i as int,
                        (pre[i as int].0, self.clients@[i as int].1),
                    ));
                    assert(self.clients@[i as int].1 == exited_client(pre[i as int].1));
                    assert forall|x: int, y: int| 0 <= x < y < self.clients@.len() implies (
                    match ((#[trigger] self.clients@[x]).1.user, (
                    #[trigger] self.clients@[y]).1.user) {
                        (Some(u), Some(v)) => u.username@ != v.username@,
                        _ => true,
                    }) by {
                        if x != i as int && y != i as int {
                            assert(self.clients@[x] == pre[x]);
                            assert(self.clients@[y] == pre[y]);
                        }
                    }
                    assert forall|x: int| 0 <= x < self.clients@.len() implies client_wf((
                    #[trigger] self.clients@[x]).1) by {
                        if x != i as int {
                            assert(self.clients@[x] == pre[x]);
                        }
                    }
                }
                return (true, String::new());
            }
            i = i + 1;
        }
        let msg = concat_str(
            &concat_str(&String::from_str("User `"), username),
            &String::from_str("` not found in the room"),
        );
        (false, msg)
    }
}


/// The username of a client's user record, when one exists.
pub open spec fn uname(c: Client) -> Option<Seq<char>> {
    match c.user {
        Some(u) => Some(u.username@),
        None => None,
    }
}

/// A predict-shift changes neither the username nor whether a user record
/// exists, and it preserves client well-formedness.
proof fn lemma_moved_keeps(c: Client, p: int, d: int)
    requires
        client_wf(c),
    ensures
        uname(moved_client(c, p, d, Option::None)) == uname(c),
        client_wf(moved_client(c, p, d, Option::None)),
        moved_client(c, p, d, Option::None).entered == c.entered,
        moved_client(c, p, d, Option::None).path == c.path,
        moved_client(c, p, d, Option::None).admin == c.admin,
{
}

impl Room {
    /// Replace the presence fields of the user at `addr`.
    ///
    /// The caller hands a region that is already both-or-neither and
    /// ordered, so user well-formedness is preserved.
    pub fn update_user(
        &mut self,
        addr: u64,
        path: Option<String>,
        point: Option<isize>,
        region_beg: Option<isize>,
        region_end: Option<isize>,
        color_cursor: Option<String>,
        color_region: Option<String>,
    )
        requires
            room_wf(*old(self)),
            has_client(old(self).clients@, addr),
            client_at(old(self).clients@, addr).user is Some,
            region_beg is Some <==> region_end is Some,
            (match (region_beg, region_end) {
                (Some(b), Some(e)) => b <= e,
                _ => true,
            }),
        ensures
            room_wf(*final(self)),
            forall|a: u64| #[trigger] has_client(final(self).clients@, a) == has_client(
                old(self).clients@,
                a,
            ),
            ({
                let c0 = client_at(old(self).clients@, addr);
                let c1 = client_at(final(self).clients@, addr);
                &&& c1.entered == c0.entered
                &&& c1.path == c0.path
                &&& c1.admin == c0.admin
                &&& c1.user matches Some(u) && (match c0.user {
                    Some(u0) => u.username == u0.username,
                    None => false,
                }) && u.path == path && u.point == point && u.region_beg == region_beg
                    && u.region_end == region_end && u.color_cursor == color_cursor
                    && u.color_region == color_region
            }),
            forall|a: u64| a != addr && has_client(old(self).clients@, a) ==> client_at(
                final(self).clients@,
                a,
            ) == client_at(old(self).clients@, a),
            final(self).senders == old(self).senders,
            final(self).prop == old(self).prop,
            final(self).password == old(self).password,
            final(self).path == old(self).path,
            final(self).files == old(self).files,
            final(self).chat == old(self).chat,
    {
        let ghost pre = self.clients@;
        let i = match self.client_pos(addr) {
            Option::None => {
                proof {
                    assert(false);
                }
                0
            },
            Option::Some(i) => i,
        };
        let entry = &mut self.clients[i];
        match &mut entry.1.user {
            Option::None => {
                proof {
                    assert(false);
                }
            },
            Option::Some(u) => {
                u.update(path, point, region_beg, region_end, color_cursor, color_region);
            },
        }
        proof {
            lemma_update_same_key(pre, i as int, self.clients@[i as int].1);
            assert(self.clients@ =~= pre.update(
                i as int,
                (pre[i as int].0, self.clients@[i as int].1),
            ));
            assert forall|x: int, y: int| 0 <= x < y < self.clients@.len() implies (match ((
            #[trigger] self.clients@[x]).1.user, (#[trigger] self.clients@[y]).1.user) {
                (Some(u), Some(v)) => u.username@ != v.username@,
                _ => true,
            }) by {
                if x != i as int && y != i as int {
                    assert(self.clients@[x] == pre[x]);
                    assert(self.clients@[y] == pre[y]);
                } else {
                    let o: int = if x == i as int { y } else { x };
                    assert(self.clients@[o] == pre[o]);
                    assert(uname(self.clients@[i as int].1) == uname(pre[i as int].1));
                }
            }
            assert forall|x: int| 0 <= x < self.clients@.len() implies client_wf((
            #[trigger] self.clients@[x]).1) by {
                if x != i as int {
                    assert(self.clients@[x] == pre[x]);
                }
            }
        }
    }

    /// Predict remote cursor movement: every client but the editor whose
    /// cursor sits at or after the edit anchor is shifted by `delta`,
    /// region included.  Clients strictly before the anchor, clients in no
    /// file, and the editor itself are untouched.
    pub fn predict_movement(&mut self, addr: u64, point: isize, delta: isize)
        requires
            room_wf(*old(self)),
        ensures
            room_wf(*final(self)),
            forall|a: u64| #[trigger] has_client(final(self).clients@, a) == has_client(
                old(self).clients@,
                a,
            ),
            has_client(old(self).clients@, addr) ==> client_at(final(self).clients@, addr)
                == client_at(old(self).clients@, addr),
            forall|a: u64| a != addr && #[trigger] has_client(old(self).clients@, a)
                ==> client_at(final(self).clients@, a) == moved_client(
                client_at(old(self).clients@, a),
                point as int,
                delta as int,
                Option::None,
            ),
            final(self).senders == old(self).senders,
            final(self).prop == old(self).prop,
            final(self).password == old(self).password,
            final(self).path == old(self).path,
            final(self).files == old(self).files,
            final(self).chat == old(self).chat,
    {
        let ghost pre = old(self).clients@;
        let n = self.clients.len();
        let mut i: usize = 0;
        while i < n
            invariant
                room_wf(*old(self)),
                pre == old(self).clients@,
                n == self.clients@.len(),
                pre.len() == n,
                0 <= i <= n,
                forall|j: int| 0 <= j < n ==> (#[trigger] self.clients@[j]).0 == pre[j].0,
                forall|j: int| 0 <= j < i ==> (#[trigger] self.clients@[j]).1 == (if pre[j].0
                    == addr {
                    pre[j].1
                } else {
                    moved_client(pre[j].1, point as int, delta as int, Option::None)
                }),
                forall|j: int| i <= j < n ==> (#[trigger] self.clients@[j]).1 == pre[j].1,
                self.senders == old(self).senders,
                self.prop == old(self).prop,
                self.password == old(self).password,
                self.path == old(self).path,
                self.files == old(self).files,
                self.chat == old(self).chat,
            decreases n - i,
        {
            let key = self.clients[i].0;
            if key != addr {
                let entry = &mut self.clients[i];
                proof {
                    assert(client_wf(pre[i as int].1));
                }
                let _ = entry.1.move_other(point, delta, Option::None);
            }
            i = i + 1;
        }
        proof {
            assert forall|j: int| 0 <= j < n implies client_wf((#[trigger] self.clients@[j]).1)
                && uname(self.clients@[j].1) == uname(pre[j].1) by {
                assert(client_wf(pre[j].1));
                if pre[j].0 != addr {
                    lemma_moved_keeps(pre[j].1, point as int, delta as int);
                }
            }
            assert forall|x: int, y: int| 0 <= x < y < self.clients@.len() implies (#[trigger]
            self.clients@[x]).0 != (#[trigger] self.clients@[y]).0 by {
                assert(pre[x].0 != pre[y].0);
            }
            assert forall|x: int, y: int| 0 <= x < y < self.clients@.len() implies (match ((
            #[trigger] self.clients@[x]).1.user, (#[trigger] self.clients@[y]).1.user) {
                (Some(u), Some(v)) => u.username@ != v.username@,
                _ => true,
            }) by {
                assert(uname(self.clients@[x].1) == uname(pre[x].1));
                assert(uname(self.clients@[y].1) == uname(pre[y].1));
                assert((match (pre[x].1.user, pre[y].1.user) {
                    (Some(u), Some(v)) => u.username@ != v.username@,
                    _ => true,
                }));
            }
            assert forall|a: u64| #[trigger] has_client(self.clients@, a) == has_client(pre, a)
                by {
                if has_client(self.clients@, a) {
                    let k = choose|m: int| 0 <= m < self.clients@.len() && self.clients@[m].0
                        == a;
                    assert(pre[k].0 == a);
                }
                if has_client(pre, a) {
                    let k = choose|m: int| 0 <= m < pre.len() && pre[m].0 == a;
                    assert(self.clients@[k].0 == a);
                }
            }
            if has_client(pre, addr) {
                lemma_client_idx(pre, addr);
                lemma_client_idx(self.clients@, addr);
                let k = client_idx(pre, addr);
                assert(self.clients@[k].0 == addr);
            }
            assert forall|a: u64| a != addr && #[trigger] has_client(pre, a) implies client_at(
                self.clients@,
                a,
            ) == moved_client(client_at(pre, a), point as int, delta as int, Option::None) by {
                lemma_client_idx(pre, a);
                let k = client_idx(pre, a);
                assert(self.clients@[k].0 == a);
                lemma_client_idx(self.clients@, a);
            }
        }
    }
}


/// The room's LF-normalization switch, as configured.
pub open spec fn room_use_lf(r: Room) -> bool {
    match crate::properties::lookup(r.prop.data@, "cogru.UseLF"@) {
        Some(v) => v == "true"@,
        None => false,
    }
}

/// The room-absolute path that a client-namespace path translates to: the
/// client's root is swapped for the room root.  `None` when the client is
/// unknown or the path does not lie under the client's root.
pub open spec fn room_target(r: Room, addr: u64, p: Seq<char>) -> Option<Seq<char>> {
    if has_client(r.clients@, addr) && client_at(r.clients@, addr).path@.is_prefix_of(p) {
        Some(r.path@ + p.skip(client_at(r.clients@, addr).path@.len() as int))
    } else {
        None
    }
}

/// Convert a path in a client's namespace to the room's namespace.
pub fn to_room_path(addr: u64, room: &Room, path: &String) -> (r: Option<String>)
    requires
        client_keys_distinct(room.clients@),
    ensures
        r is Some <==> room_target(*room, addr, path@) is Some,
        r matches Some(t) ==> room_target(*room, addr, path@) == Some(t@),
{
    match room.get_client(addr) {
        Option::None => Option::None,
        Option::Some(c) => {
            if starts_with(path, &c.path) {
                let rel = strip_prefix(path, &c.path);
                Option::Some(concat_str(&room.path, &rel))
            } else {
                Option::None
            }
        },
    }
}

/// Strip the room root from a room-absolute path; a path not under the
/// root comes back unchanged.
pub fn no_room_path(room: &Room, path: &String) -> (r: String)
    ensures
        room.path@.is_prefix_of(path@) ==> r@ == path@.skip(room.path@.len() as int),
        !room.path@.is_prefix_of(path@) ==> r@ == path@,
{
    if starts_with(path, &room.path) {
        strip_prefix(path, &room.path)
    } else {
        path.clone()
    }
}


/// Exact effect of a successful `rename_file` from `a` to `b`: the entry
/// at `a` now sits at path `b` with the matching relative path, keeping
/// its view and chat; every other entry, and everything else in the room,
/// is as it was.
pub open spec fn rename_post(r0: Room, r1: Room, a: Seq<char>, b: Seq<char>) -> bool {
    let i = file_idx(r0.files@, a);
    let f0 = r0.files@[i];
    let f1 = r1.files@[i];
    &&& r1.files@.len() == r0.files@.len()
    &&& forall|j: int| 0 <= j < r0.files@.len() && j != i ==> #[trigger] r1.files@[j]
        == r0.files@[j]
    &&& f1.path@ == b
    &&& f1.rel_path@ == b.skip(r0.path@.len() as int)
    &&& f1.view == f0.view
    &&& f1.chat == f0.chat
    &&& f1.use_lf == f0.use_lf
    &&& r1.clients == r0.clients
    &&& r1.senders == r0.senders
    &&& r1.prop == r0.prop
    &&& r1.password == r0.password
    &&& r1.path == r0.path
    &&& r1.chat == r0.chat
}

/// Updating one file row without changing its path leaves the table's
/// paths, and every other row, as they were.
proof fn lemma_file_table_set(pre: Seq<File>, i: int, f: File)
    requires
        0 <= i < pre.len(),
        file_paths_distinct(pre),
        f.path@ == pre[i].path@,
    ensures
        ({
            let new = pre.update(i, f);
            &&& file_paths_distinct(new)
            &&& forall|p: Seq<char>| #[trigger] has_file(new, p) == has_file(pre, p)
            &&& has_file(new, f.path@) && new[file_idx(new, f.path@)] == f && file_idx(
                new,
                f.path@,
            ) == i
            &&& forall|p: Seq<char>| p != f.path@ && has_file(pre, p) ==> new[file_idx(new, p)]
                == pre[file_idx(pre, p)]
        }),
{
    let new = pre.update(i, f);
    assert(new[i].path@ == pre[i].path@);
    assert forall|p: Seq<char>| #[trigger] has_file(new, p) == has_file(pre, p) by {
        if has_file(new, p) {
            let k = choose|m: int| 0 <= m < new.len() && new[m].path@ == p;
            assert(pre[k].path@ == p);
        }
        if has_file(pre, p) {
            let k = choose|m: int| 0 <= m < pre.len() && pre[m].path@ == p;
            assert(new[k].path@ == p);
        }
    }
    assert(has_file(new, f.path@));
    lemma_file_idx(new, f.path@);
    assert forall|p: Seq<char>| p != f.path@ && has_file(pre, p) implies new[file_idx(new, p)]
        == pre[file_idx(pre, p)] by {
        lemma_file_idx(pre, p);
        let k = file_idx(pre, p);
        assert(new[k].path@ == p);
        lemma_file_idx(new, p);
    }
}

impl Room {
    /// The configured LF switch.
    fn compute_use_lf(&self) -> (r: bool)
        ensures
            r == room_use_lf(*self),
    {
        let v = self.prop.get_or_default("cogru.UseLF", "false");
        proof {
            reveal_strlit("true");
            reveal_strlit("false");
            assert("true"@.len() == 4);
            assert("false"@.len() == 5);
            assert("true"@ != "false"@);
        }
        crate::util::str_eq(&v, "true")
    }

    /// The position of an absolute path in the file table.
    pub fn file_pos(&self, path: &String) -> (r: Option<usize>)
        requires
            file_paths_distinct(self.files@),
        ensures
            r is Some <==> has_file(self.files@, path@),
            r matches Some(i) ==> i < self.files@.len() && self.files@[i as int].path@ == path@
                && i as int == file_idx(self.files@, path@),
    {
        let n = self.files.len();
        let mut i: usize = 0;
        while i < n
            invariant
                0 <= i <= n,
                n == self.files@.len(),
                file_paths_distinct(self.files@),
                forall|j: int| 0 <= j < i ==> (#[trigger] self.files@[j]).path@ != path@,
            decreases n - i,
        {
            if self.files[i].path.eq(path) {
                proof {
                    lemma_file_idx(self.files@, path@);
                }
                return Option::Some(i);
            }
            i = i + 1;
        }
        Option::None
    }

    /// The file a client-namespace path refers to, if it is tracked.
    pub fn get_file(&self, addr: u64, filename: &String) -> (r: Option<&File>)
        requires
            room_wf(*self),
        ensures
            (match room_target(*self, addr, filename@) {
                None => r is None,
                Some(t) => {
                    &&& (r is Some <==> has_file(self.files@, t))
                    &&& (r matches Some(f) ==> has_file(self.files@, t) && *f == self.files@[
                        file_idx(self.files@, t)
                    ])
                },
            }),
    {
        let t = match to_room_path(addr, self, filename) {
            Option::None => {
                return Option::None;
            },
            Option::Some(t) => t,
        };
        match self.file_pos(&t) {
            Option::None => Option::None,
            Option::Some(i) => Option::Some(&self.files[i]),
        }
    }

    /// Register a file under its room-absolute path.
    ///
    /// Fails, changing nothing, when the path does not lie under the room
    /// root; a file already registered at the path is replaced.  The view
    /// is built from `contents`, normalized when the room is configured
    /// for LF.
    pub fn new_file(&mut self, filename: &String, contents: String) -> (ok: bool)
        requires
            room_wf(*old(self)),
        ensures
            room_wf(*final(self)),
            ok == old(self).path@.is_prefix_of(filename@),
            !ok ==> *final(self) == *old(self),
            ok ==> ({
                &&& has_file(final(self).files@, filename@)
                &&& ({
                    let f = final(self).files@[file_idx(final(self).files@, filename@)];
                    &&& f.path@ == filename@
                    &&& f.rel_path@ == filename@.skip(old(self).path@.len() as int)
                    &&& f.use_lf == room_use_lf(*old(self))
                    &&& (f.use_lf ==> rope_bytes(f.view) == encode_utf8(norm_le_spec(contents@)))
                    &&& (!f.use_lf ==> rope_bytes(f.view) == encode_utf8(contents@))
                    &&& f.chat.messages@.len() == 0
                })
                &&& forall|p: Seq<char>| p != filename@ ==> #[trigger] has_file(
                    final(self).files@,
                    p,
                ) == has_file(old(self).files@, p)
                &&& forall|p: Seq<char>| p != filename@ && has_file(old(self).files@, p)
                    ==> final(self).files@[file_idx(final(self).files@, p)] == old(self).files@[
                    file_idx(old(self).files@, p)
                ]
            }),
            final(self).clients == old(self).clients,
            final(self).senders == old(self).senders,
            final(self).prop == old(self).prop,
            final(self).password == old(self).password,
            final(self).path == old(self).path,
            final(self).chat == old(self).chat,
    {
        if !starts_with(filename, &self.path) {
            return false;
        }
        let rel = strip_prefix(filename, &self.path);
        let use_lf = self.compute_use_lf();
        let f = File::new(filename.clone(), rel, use_lf, contents);
        let ghost pre = self.files@;
        match self.file_pos(filename) {
            Option::Some(i) => {
                self.files.set(i, f);
                proof {
                    lemma_file_table_set(pre, i as int, self.files@[i as int]);
                }
            },
            Option::None => {
                self.files.push(f);
                proof {
                    assert(self.files@[pre.len() as int].path@ == filename@);
                    assert(has_file(self.files@, filename@));
                    lemma_file_idx(self.files@, filename@);
                    assert forall|p: Seq<char>| p != filename@ implies #[trigger] has_file(
                        self.files@,
                        p,
                    ) == has_file(pre, p) by {
                        if has_file(self.files@, p) {
                            let k = choose|m: int| 0 <= m < self.files@.len()
                                && self.files@[m].path@ == p;
                            assert(pre[k].path@ == p);
                        }
                        if has_file(pre, p) {
                            let k = choose|m: int| 0 <= m < pre.len() && pre[m].path@ == p;
                            assert(self.files@[k].path@ == p);
                        }
                    }
                    assert forall|p: Seq<char>| p != filename@ && has_file(pre, p) implies
                        self.files@[file_idx(self.files@, p)] == pre[file_idx(pre, p)] by {
                        lemma_file_idx(pre, p);
                        let k = file_idx(pre, p);
                        assert(self.files@[k].path@ == p);
                        lemma_file_idx(self.files@, p);
                    }
                    assert forall|x: int, y: int| 0 <= x < y < self.files@.len() implies (
                    #[trigger] self.files@[x]).path@ != (#[trigger] self.files@[y]).path@ by {
                        if y == pre.len() as int {
                            if self.files@[x].path@ == filename@ {
                                assert(pre[x].path@ == filename@);
                                assert(has_file(pre, filename@));
                            }
                        }
                    }
                }
            },
        }
        true
    }

    /// Remove the file at a room-absolute path from the table.  The caller
    /// deletes the on-disk file.
    pub fn delete_file(&mut self, filename: &String) -> (r: bool)
        requires
            room_wf(*old(self)),
        ensures
            room_wf(*final(self)),
            r == has_file(old(self).files@, filename@),
            !r ==> *final(self) == *old(self),
            r ==> ({
                &&& !has_file(final(self).files@, filename@)
                &&& forall|p: Seq<char>| p != filename@ ==> #[trigger] has_file(
                    final(self).files@,
                    p,
                ) == has_file(old(self).files@, p)
                &&& forall|p: Seq<char>| p != filename@ && has_file(old(self).files@, p)
                    ==> final(self).files@[file_idx(final(self).files@, p)] == old(self).files@[
                    file_idx(old(self).files@, p)
                ]
            }),
            final(self).clients == old(self).clients,
            final(self).senders == old(self).senders,
            final(self).prop == old(self).prop,
            final(self).password == old(self).password,
            final(self).path == old(self).path,
            final(self).chat == old(self).chat,
    {
        let ghost pre = self.files@;
        match self.file_pos(filename) {
            Option::None => false,
            Option::Some(i) => {
                self.files.remove(i);
                proof {
                    assert forall|x: int, y: int| 0 <= x < y < self.files@.len() implies (
                    #[trigger] self.files@[x]).path@ != (#[trigger] self.files@[y]).path@ by {
                        let x2: int = if x < i as int { x } else { x + 1 };
                        let y2: int = if y < i as int { y } else { y + 1 };
                        assert(self.files@[x] == pre[x2]);
                        assert(self.files@[y] == pre[y2]);
                    }
                    assert forall|x: int| 0 <= x < self.files@.len() implies #[trigger]
                        self.files@[x] == pre[if x < i as int { x } else { x + 1 }] by {}
                    assert forall|p: Seq<char>| #[trigger] has_file(self.files@, p) implies
                        has_file(pre, p) && p != filename@ by {
                        let k = choose|m: int| 0 <= m < self.files@.len() && self.files@[m].path@
                            == p;
                        let k2: int = if k < i as int { k } else { k + 1 };
                        assert(pre[k2].path@ == p);
                        if pre[k2].path@ == filename@ {
                            assert(k2 != i as int);
                            assert(pre[i as int].path@ == filename@);
                        }
                    }
                    assert forall|p: Seq<char>| p != filename@ && has_file(pre, p) implies
                        has_file(self.files@, p) by {
                        lemma_file_idx(pre, p);
                        let k = file_idx(pre, p);
                        if k < i as int {
                            assert(self.files@[k].path@ == p);
                        } else {
                            assert(self.files@[k - 1].path@ == p);
                        }
                    }
                    assert forall|p: Seq<char>| p != filename@ && has_file(pre, p) implies
                        self.files@[file_idx(self.files@, p)] == pre[file_idx(pre, p)] by {
                        lemma_file_idx(pre, p);
                        lemma_file_idx(self.files@, p);
                        let k = file_idx(pre, p);
                        let k3 = file_idx(self.files@, p);
                        let k4: int = if k3 < i as int { k3 } else { k3 + 1 };
                        assert(pre[k4].path@ == p);
                        assert(k4 == k);
                    }
                }
                true
            },
        }
    }

    /// Rename the file at `filename` to `newname`: both the table entry's
    /// path and its relative path are updated, and the entry keeps its
    /// view and chat.  The caller renames the on-disk file.  Fails when
    /// the source is not tracked, the target does not lie under the room
    /// root, or another file already holds the target path.
    pub fn rename_file(&mut self, filename: &String, newname: &String) -> (r: bool)
        requires
            room_wf(*old(self)),
        ensures
            room_wf(*final(self)),
            r == (has_file(old(self).files@, filename@) && old(self).path@.is_prefix_of(newname@)
                && (filename@ == newname@ || !has_file(old(self).files@, newname@))),
            !r ==> *final(self) == *old(self),
            r ==> rename_post(*old(self), *final(self), filename@, newname@),
    {
        let ghost pre = self.files@;
        let i = match self.file_pos(filename) {
            Option::None => {
                return false;
            },
            Option::Some(i) => i,
        };
        if !starts_with(newname, &self.path) {
            return false;
        }
        if !filename.eq(newname) {
            match self.file_pos(newname) {
                Option::Some(_) => {
                    return false;
                },
                Option::None => {},
            }
        }
        let rel = strip_prefix(newname, &self.path);
        let new_path = newname.clone();
        let entry = &mut self.files[i];
        entry.path = new_path;
        entry.rel_path = rel;
        proof {
            assert(self.files@ =~= pre.update(i as int, self.files@[i as int]));
            assert forall|x: int, y: int| 0 <= x < y < self.files@.len() implies (#[trigger]
            self.files@[x]).path@ != (#[trigger] self.files@[y]).path@ by {
                if x != i as int && y != i as int {
                    assert(self.files@[x] == pre[x]);
                    assert(self.files@[y] == pre[y]);
                } else {
                    let o: int = if x == i as int { y } else { x };
                    assert(self.files@[o] == pre[o]);
                    if self.files@[o].path@ == newname@ {
                        assert(has_file(pre, newname@));
                        assert(pre[i as int].path@ == filename@);
                    }
                }
            }
        }
        true
    }

    /// Look a client-namespace path up and create the file when it is not
    /// tracked yet, from the given contents or empty.  Returns the
    /// room-absolute path on success; `None` when the path cannot be
    /// translated.
    pub fn get_file_create(&mut self, addr: u64, filename: &String, contents: Option<String>)
        -> (r: Option<String>)
        requires
            room_wf(*old(self)),
        ensures
            room_wf(*final(self)),
            r is Some <==> room_target(*old(self), addr, filename@) is Some,
            r is None ==> *final(self) == *old(self),
            r matches Some(t) ==> ({
                &&& room_target(*old(self), addr, filename@) == Some(t@)
                &&& has_file(final(self).files@, t@)
                &&& (has_file(old(self).files@, t@) ==> *final(self) == *old(self))
                &&& (!has_file(old(self).files@, t@) ==> ({
                    let f = final(self).files@[file_idx(final(self).files@, t@)];
                    let c = (match contents {
                        Some(s) => s@,
                        None => Seq::<char>::empty(),
                    });
                    &&& f.path@ == t@
                    &&& f.rel_path@ == t@.skip(old(self).path@.len() as int)
                    &&& f.use_lf == room_use_lf(*old(self))
                    &&& (f.use_lf ==> rope_bytes(f.view) == encode_utf8(norm_le_spec(c)))
                    &&& (!f.use_lf ==> rope_bytes(f.view) == encode_utf8(c))
                    &&& f.chat.messages@.len() == 0
                    &&& (forall|p: Seq<char>| p != t@ ==> #[trigger] has_file(
                        final(self).files@,
                        p,
                    ) == has_file(old(self).files@, p))
                    &&& (forall|p: Seq<char>| p != t@ && has_file(old(self).files@, p)
                        ==> final(self).files@[file_idx(final(self).files@, p)]
                        == old(self).files@[file_idx(old(self).files@, p)])
                }))
            }),
            final(self).clients == old(self).clients,
            final(self).senders == old(self).senders,
            final(self).prop == old(self).prop,
            final(self).password == old(self).password,
            final(self).path == old(self).path,
            final(self).chat == old(self).chat,
    {
        let t = match to_room_path(addr, self, filename) {
            Option::None => {
                return Option::None;
            },
            Option::Some(t) => t,
        };
        match self.file_pos(&t) {
            Option::Some(_) => Option::Some(t),
            Option::None => {
                let c = match contents {
                    Option::Some(s) => s,
                    Option::None => String::new(),
                };
                proof {
                    assert(t@ == self.path@ + filename@.skip(
                        client_at(self.clients@, addr).path@.len() as int,
                    ));
                    assert(self.path@.is_prefix_of(t@)) by {
                        assert(t@.subrange(0, self.path@.len() as int) =~= self.path@);
                    }
                }
                let ok = self.new_file(&t, c);
                proof {
                    assert(ok);
                }
                Option::Some(t)
            },
        }
    }

    /// Apply one edit to the tracked file at a room-absolute path.
    ///
    /// `None` when no file is tracked there; otherwise whether the edit
    /// was applicable and applied, exactly as `File::update` says.
    pub fn update_file(
        &mut self,
        abs: &String,
        add_or_delete: &String,
        beg: usize,
        end: usize,
        contents: &String,
    ) -> (r: Option<bool>)
        requires
            room_wf(*old(self)),
        ensures
            room_wf(*final(self)),
            r is Some <==> has_file(old(self).files@, abs@),
            r is None ==> *final(self) == *old(self),
            r matches Some(applied) ==> ({
                let i = file_idx(old(self).files@, abs@);
                &&& final(self).files@.len() == old(self).files@.len()
                &&& forall|j: int| 0 <= j < old(self).files@.len() && j != i ==> #[trigger]
                    final(self).files@[j] == old(self).files@[j]
                &&& crate::file::update_post(
                    old(self).files@[i],
                    final(self).files@[i],
                    applied,
                    add_or_delete@,
                    beg as int,
                    end as int,
                    contents@,
                )
            }),
            final(self).clients == old(self).clients,
            final(self).senders == old(self).senders,
            final(self).prop == old(self).prop,
            final(self).password == old(self).password,
            final(self).path == old(self).path,
            final(self).chat == old(self).chat,
    {
        let ghost pre = self.files@;
        let i = match self.file_pos(abs) {
            Option::None => {
                return Option::None;
            },
            Option::Some(i) => i,
        };
        let entry = &mut self.files[i];
        let applied = entry.update(add_or_delete, beg, end, contents);
        proof {
            assert(self.files@ =~= pre.update(i as int, self.files@[i as int]));
            lemma_file_table_set(pre, i as int, self.files@[i as int]);
        }
        Option::Some(applied)
    }

    /// The absolute paths of every tracked file.
    pub fn get_path_files(&self) -> (r: Vec<String>)
        ensures
            r@.len() == self.files@.len(),
            forall|i: int| 0 <= i < r@.len() ==> (#[trigger] r@[i])@ == self.files@[i].path@,
    {
        let n = self.files.len();
        let mut out: Vec<String> = Vec::new();
        let mut i: usize = 0;
        while i < n
            invariant
                0 <= i <= n,
                n == self.files@.len(),
                out@.len() == i,
                forall|j: int| 0 <= j < i ==> (#[trigger] out@[j])@ == self.files@[j].path@,
            decreases n - i,
        {
            out.push(self.files[i].path.clone());
            i = i + 1;
        }
        out
    }

    /// The senders of the entered clients visiting the workspace-relative
    /// file `rel`, the fan-out set of an edit to that file.
    pub fn peers_by_file(&self, rel: &String) -> (r: Vec<u64>)
        requires
            room_wf(*self),
        ensures
            forall|k: int| 0 <= k < r@.len() ==> has_sender(self.senders@, #[trigger] r@[k])
                && editing(self.clients@, r@[k], rel@),
            forall|a: u64| #[trigger] has_sender(self.senders@, a) && editing(
                self.clients@,
                a,
                rel@,
            ) ==> has_sender(r@, a),
            senders_distinct(r@),
    {
        let n = self.senders.len();
        let mut out: Vec<u64> = Vec::new();
        let mut i: usize = 0;
        while i < n
            invariant
                room_wf(*self),
                0 <= i <= n,
                n == self.senders@.len(),
                forall|k: int| 0 <= k < out@.len() ==> has_sender(self.senders@, #[trigger]
                out@[k]) && editing(self.clients@, out@[k], rel@),
                forall|k: int| 0 <= k < i ==> (editing(self.clients@, self.senders@[k], rel@)
                    ==> has_sender(out@, #[trigger] self.senders@[k])),
                forall|k: int| 0 <= k < out@.len() ==> exists|m: int| 0 <= m < i
                    && self.senders@[m] == #[trigger] out@[k],
                senders_distinct(out@),
            decreases n - i,
        {
            let a = self.senders[i];
            let is_editing: bool = match self.get_client(a) {
                Option::None => false,
                Option::Some(c) => match &c.user {
                    Option::None => false,
                    Option::Some(u) => match &u.path {
                        Option::None => false,
                        Option::Some(p) => p.eq(rel),
                    },
                },
            };
            proof {
                assert(self.senders@[i as int] == a);
                assert(has_sender(self.senders@, a));
                assert(has_client(self.clients@, a));
                assert(is_editing == editing(self.clients@, a, rel@));
            }
            let ghost pre_out = out@;
            if is_editing {
                out.push(a);
                proof {
                    assert forall|x: int, y: int| 0 <= x < y < out@.len() implies out@[x]
                        != out@[y] by {
                        if y == pre_out.len() as int {
                            let m = choose|m: int| 0 <= m < i && self.senders@[m] == pre_out[x];
                            if out@[x] == a {
                                assert(self.senders@[m] == self.senders@[i as int]);
                            }
                        }
                    }
                    assert forall|k: int| 0 <= k < out@.len() implies exists|m: int| 0 <= m < i
                        + 1 && self.senders@[m] == #[trigger] out@[k] by {
                        if k < pre_out.len() as int {
                            let m = choose|m: int| 0 <= m < i && self.senders@[m] == pre_out[k];
                            assert(0 <= m < i + 1 && self.senders@[m] == out@[k]);
                        } else {
                            assert(self.senders@[i as int] == out@[k]);
                        }
                    }
                }
            }
            proof {
                assert forall|k: int| 0 <= k < i + 1 implies (editing(
                    self.clients@,
                    self.senders@[k],
                    rel@,
                ) ==> has_sender(out@, #[trigger] self.senders@[k])) by {
                    if editing(self.clients@, self.senders@[k], rel@) {
                        if k < i as int {
                            let m = choose|m: int| 0 <= m < pre_out.len() && pre_out[m]
                                == self.senders@[k];
                            assert(out@[m] == self.senders@[k]);
                        } else {
                            assert(out@[pre_out.len() as int] == a);
                        }
                    }
                }
            }
            i = i + 1;
        }
        proof {
            assert forall|a: u64| #[trigger] has_sender(self.senders@, a) && editing(
                self.clients@,
                a,
                rel@,
            ) implies has_sender(out@, a) by {
                let k = choose|m: int| 0 <= m < self.senders@.len() && self.senders@[m] == a;
                assert(editing(self.clients@, self.senders@[k], rel@));
            }
        }
        out
    }
}


/// Entering the room and then exiting it returns a client to its
/// pre-enter state: with the user record cleared and the entered flag
/// down, only the workspace path and the admin flag remain, and they were
/// never touched.
pub proof fn lemma_enter_exit_round_trip(c0: Client, c1: Client)
    requires
        !c0.entered,
        c0.user is None,
        c1.path == c0.path,
        c1.admin == c0.admin,
    ensures
        exited_client(c1) == c0,
{
}

/// Renaming a file from `a` to `b` and then from `b` back to `a` restores
/// the in-memory file table: every entry again holds its original path,
/// relative path, view and chat.
pub proof fn lemma_rename_round_trip(r0: Room, r1: Room, r2: Room, a: Seq<char>, b: Seq<char>)
    requires
        room_wf(r0),
        room_wf(r1),
        has_file(r0.files@, a),
        has_file(r1.files@, b),
        rename_post(r0, r1, a, b),
        rename_post(r1, r2, b, a),
        a != b,
        !has_file(r0.files@, b),
    ensures
        r2.files@.len() == r0.files@.len(),
        forall|j: int| 0 <= j < r0.files@.len() ==> ({
            let f2 = #[trigger] r2.files@[j];
            let f0 = r0.files@[j];
            &&& f2.path@ == f0.path@
            &&& f2.rel_path@ == f0.rel_path@
            &&& f2.view == f0.view
            &&& f2.chat == f0.chat
            &&& f2.use_lf == f0.use_lf
        }),
        r2.clients == r0.clients,
        r2.senders == r0.senders,
        r2.chat == r0.chat,
{
    lemma_file_idx(r0.files@, a);
    let i = file_idx(r0.files@, a);
    assert(r1.files@[i].path@ == b);
    assert(has_file(r1.files@, b));
    lemma_file_idx(r1.files@, b);
    assert(file_idx(r1.files@, b) == i);
    assert forall|j: int| 0 <= j < r0.files@.len() implies ({
        let f2 = #[trigger] r2.files@[j];
        let f0 = r0.files@[j];
        &&& f2.path@ == f0.path@
        &&& f2.rel_path@ == f0.rel_path@
        &&& f2.view == f0.view
        &&& f2.chat == f0.chat
        &&& f2.use_lf == f0.use_lf
    }) by {
        if j != i {
            assert(r2.files@[j] == r1.files@[j]);
            assert(r1.files@[j] == r0.files@[j]);
        } else {
            assert(r0.path@.is_prefix_of(r0.files@[i].path@));
            assert(r0.files@[i].rel_path@ == r0.files@[i].path@.skip(r0.path@.len() as int));
        }
    }
}


impl Room {
    /// `true` when the given IP is the configured local host.
    pub fn host_is(&self, ip: &String) -> (r: bool)
        ensures
            r == room_host_is(*self, ip@),
    {
        let h = self.prop.get_or_default("cogru.Host", "127.0.0.1");
        ip.eq(&h)
    }
}


impl Room {
    /// Every registered sender except `addr`: the broadcast-except-self
    /// fan-out set.
    pub fn peers_except(&self, addr: u64) -> (r: Vec<u64>)
        requires
            senders_distinct(self.senders@),
        ensures
            forall|k: int| 0 <= k < r@.len() ==> #[trigger] r@[k] != addr && has_sender(
                self.senders@,
                r@[k],
            ),
            forall|a: u64| a != addr && #[trigger] has_sender(self.senders@, a) ==> has_sender(
                r@,
                a,
            ),
            senders_distinct(r@),
    {
        let n = self.senders.len();
        let mut out: Vec<u64> = Vec::new();
        let mut i: usize = 0;
        while i < n
            invariant
                senders_distinct(self.senders@),
                0 <= i <= n,
                n == self.senders@.len(),
                forall|k: int| 0 <= k < out@.len() ==> #[trigger] out@[k] != addr && has_sender(
                    self.senders@,
                    out@[k],
                ),
                forall|k: int| 0 <= k < i ==> (self.senders@[k] != addr ==> has_sender(
                    out@,
                    #[trigger] self.senders@[k],
                )),
                forall|k: int| 0 <= k < out@.len() ==> exists|m: int| 0 <= m < i
                    && self.senders@[m] == #[trigger] out@[k],
                senders_distinct(out@),
            decreases n - i,
        {
            let a = self.senders[i];
            let ghost pre_out = out@;
            if a != addr {
                out.push(a);
                proof {
                    assert(self.senders@[i as int] == a);
                    assert forall|x: int, y: int| 0 <= x < y < out@.len() implies out@[x]
                        != out@[y] by {
                        if y == pre_out.len() as int {
                            let m = choose|m: int| 0 <= m < i && self.senders@[m] == pre_out[x];
                            if out@[x] == a {
                                assert(self.senders@[m] == self.senders@[i as int]);
                            }
                        }
                    }
                    assert forall|k: int| 0 <= k < out@.len() implies exists|m: int| 0 <= m < i
                        + 1 && self.senders@[m] == #[trigger] out@[k] by {
                        if k < pre_out.len() as int {
                            let m = choose|m: int| 0 <= m < i && self.senders@[m] == pre_out[k];
                            assert(0 <= m < i + 1 && self.senders@[m] == out@[k]);
                        } else {
                            assert(self.senders@[i as int] == out@[k]);
                        }
                    }
                }
            }
            proof {
                assert forall|k: int| 0 <= k < i + 1 implies (self.senders@[k] != addr
                    ==> has_sender(out@, #[trigger] self.senders@[k])) by {
                    if self.senders@[k] != addr {
                        if k < i as int {
                            let m = choose|m: int| 0 <= m < pre_out.len() && pre_out[m]
                                == self.senders@[k];
                            assert(out@[m] == self.senders@[k]);
                        } else {
                            assert(out@[pre_out.len() as int] == self.senders@[k]);
                        }
                    }
                }
            }
            i = i + 1;
        }
        proof {
            assert forall|a: u64| a != addr && #[trigger] has_sender(self.senders@, a) implies
                has_sender(out@, a) by {
                let k = choose|m: int| 0 <= m < self.senders@.len() && self.senders@[m] == a;
                assert(self.senders@[k] != addr);
            }
        }
        out
    }
}


/// A chat-only update of one file row preserves the table's paths and
/// every other row.
pub proof fn lemma_say_chat(pre: Seq<File>, i: int, new: Seq<File>)
    requires
        0 <= i < pre.len(),
        new == pre.update(i, new[i]),
        new.len() == pre.len(),
        new[i].path == pre[i].path,
        new[i].rel_path == pre[i].rel_path,
        new[i].view == pre[i].view,
        new[i].use_lf == pre[i].use_lf,
        file_paths_distinct(pre),
    ensures
        file_paths_distinct(new),
        forall|j: int| 0 <= j < pre.len() && j != i ==> #[trigger] new[j] == pre[j],
        forall|q: Seq<char>| #[trigger] has_file(new, q) == has_file(pre, q),
{
    assert forall|q: Seq<char>| #[trigger] has_file(new, q) == has_file(pre, q) by {
        if has_file(new, q) {
            let k = choose|m: int| 0 <= m < new.len() && new[m].path@ == q;
            assert(pre[k].path@ == q);
        }
        if has_file(pre, q) {
            let k = choose|m: int| 0 <= m < pre.len() && pre[m].path@ == q;
            assert(new[k].path@ == q);
        }
    }
}


/// Changing one file row in place, without changing its path, leaves the
/// table's membership, every other row, and the row's position as they
/// were.
pub proof fn lemma_files_pointwise(pre: Seq<File>, new: Seq<File>, i: int)
    requires
        0 <= i < pre.len(),
        new.len() == pre.len(),
        forall|j: int| 0 <= j < pre.len() && j != i ==> #[trigger] new[j] == pre[j],
        new[i].path == pre[i].path,
        file_paths_distinct(pre),
    ensures
        file_paths_distinct(new),
        forall|q: Seq<char>| #[trigger] has_file(new, q) == has_file(pre, q),
        file_idx(new, pre[i].path@) == i,
        forall|q: Seq<char>| q != pre[i].path@ && has_file(pre, q) ==> new[file_idx(new, q)]
            == pre[file_idx(pre, q)],
{
    assert forall|x: int, y: int| 0 <= x < y < new.len() implies (#[trigger] new[x]).path@ != (
    #[trigger] new[y]).path@ by {
        assert(pre[x].path@ != pre[y].path@);
        if x != i {
            assert(new[x] == pre[x]);
        }
        if y != i {
            assert(new[y] == pre[y]);
        }
    }
    assert forall|q: Seq<char>| #[trigger] has_file(new, q) == has_file(pre, q) by {
        if has_file(new, q) {
            let k = choose|m: int| 0 <= m < new.len() && new[m].path@ == q;
            assert(pre[k].path@ == q);
        }
        if has_file(pre, q) {
            let k = choose|m: int| 0 <= m < pre.len() && pre[m].path@ == q;
            assert(new[k].path@ == q);
        }
    }
    assert(new[i].path@ == pre[i].path@);
    assert(has_file(new, pre[i].path@)) by {
        assert(new[i].path@ == pre[i].path@);
    }
    lemma_file_idx(pre, pre[i].path@);
    lemma_file_idx(new, pre[i].path@);
    assert forall|q: Seq<char>| q != pre[i].path@ && has_file(pre, q) implies new[file_idx(
        new,
        q,
    )] == pre[file_idx(pre, q)] by {
        lemma_file_idx(pre, q);
        let k = file_idx(pre, q);
        assert(k != i);
        assert(new[k].path@ == q);
        lemma_file_idx(new, q);
    }
}


impl Room {
    /// Register a file named in a client's namespace: the path is
    /// translated to the room's namespace and the file created there.
    /// Fails, changing nothing, when the path cannot be translated.
    pub fn new_file_from_addr(&mut self, addr: u64, filename: &String, contents: String) -> (r:
        bool)
        requires
            room_wf(*old(self)),
        ensures
            room_wf(*final(self)),
            r == (room_target(*old(self), addr, filename@) is Some),
            !r ==> *final(self) == *old(self),
            (match room_target(*old(self), addr, filename@) {
                Some(t) => {
                    &&& has_file(final(self).files@, t)
                    &&& ({
                        let f = final(self).files@[file_idx(final(self).files@, t)];
                        &&& f.path@ == t
                        &&& f.rel_path@ == t.skip(old(self).path@.len() as int)
                        &&& f.use_lf == room_use_lf(*old(self))
                        &&& (f.use_lf ==> rope_bytes(f.view) == encode_utf8(
                            norm_le_spec(contents@),
                        ))
                        &&& (!f.use_lf ==> rope_bytes(f.view) == encode_utf8(contents@))
                    })
                    &&& (forall|p: Seq<char>| p != t ==> #[trigger] has_file(
                        final(self).files@,
                        p,
                    ) == has_file(old(self).files@, p))
                    &&& final(self).clients == old(self).clients
                    &&& final(self).senders == old(self).senders
                    &&& final(self).prop == old(self).prop
                    &&& final(self).password == old(self).password
                    &&& final(self).path == old(self).path
                    &&& final(self).chat == old(self).chat
                },
                None => true,
            }),
    {
        match to_room_path(addr, self, filename) {
            Option::None => false,
            Option::Some(t) => {
                proof {
                    assert(t@.subrange(0, self.path@.len() as int) =~= self.path@);
                }
                let ok = self.new_file(&t, contents);
                proof {
                    assert(ok);
                }
                ok
            },
        }
    }
}

} // verus!
