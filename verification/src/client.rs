//! One row per live connection: the client's own workspace root, its admin
//! flag, whether it has entered the room, and its user record once entered.

use vstd::prelude::*;
use crate::user::{User, user_wf, moved_user};
use crate::util::{starts_with, strip_prefix};

verus! {

/// A connected client.
///
/// `path` is the workspace root as the client sees it on its own machine,
/// slash-normalized with a trailing slash; it translates between the
/// client's namespace and the room's.
pub struct Client {
    pub entered: bool,
    pub path: String,
    pub admin: bool,
    pub user: Option<User>,
}

/// Well-formedness of a client: a user record exists exactly while the
/// client is entered, and that record is itself well-formed.
pub open spec fn client_wf(c: Client) -> bool {
    &&& c.entered <==> c.user is Some
    &&& (c.user matches Some(u) ==> user_wf(u))
}

/// `true` when `path` holds a string lying under the client's root.
pub fn under_client_path(client: &Client, path: &Option<String>) -> (r: bool)
    ensures
        r == (path matches Some(p) && client.path@.is_prefix_of(p@)),
{
    match path {
        Option::None => false,
        Option::Some(p) => starts_with(p, &client.path),
    }
}

/// Strip the client's root from a path in the client's namespace, yielding
/// a workspace-relative path; `None` when the path does not lie under the
/// client's root.
pub fn no_client_path(client: &Client, path: &Option<String>) -> (r: Option<String>)
    ensures
        (match path {
            Some(p) => if client.path@.is_prefix_of(p@) {
                r matches Some(q) && q@ == p@.skip(client.path@.len() as int)
            } else {
                r is None
            },
            None => r is None,
        }),
{
    if !under_client_path(client, path) {
        return Option::None;
    }
    match path {
        Option::None => Option::None,
        Option::Some(p) => Option::Some(strip_prefix(p, &client.path)),
    }
}

impl Client {
    /// A fresh, not yet entered client.
    pub fn new(path: String, admin: bool) -> (r: Client)
        ensures
            r.entered == false,
            r.path == path,
            r.admin == admin,
            r.user is None,
            client_wf(r),
    {
        Client { entered: false, path, admin, user: None }
    }

    /// `true` when this client holds admin privileges.
    pub fn admin(&self) -> (r: bool)
        ensures
            r == self.admin,
    {
        self.admin
    }

    /// The user record, while entered.
    pub fn user(&self) -> (r: Option<&User>)
        ensures
            r is Some <==> self.user is Some,
            r matches Some(u) ==> self.user == Some(*u),
    {
        self.user.as_ref()
    }

    /// The file the user is visiting, as a workspace-relative path.
    pub fn user_relative_path(&self) -> (r: Option<String>)
        ensures
            (match self.user {
                Some(u) => r == u.path,
                None => r is None,
            }),
    {
        match &self.user {
            Option::None => Option::None,
            Option::Some(u) => match &u.path {
                Option::None => Option::None,
                Option::Some(p) => Option::Some(p.clone()),
            },
        }
    }

    /// The client's workspace root.
    pub fn get_path(&self) -> (r: &String)
        ensures
            r == self.path,
    {
        &self.path
    }

    /// `true` when the client has entered the room.
    pub fn entered(&self) -> (r: bool)
        ensures
            r == self.entered,
    {
        self.entered
    }

    /// Enter the room under `username`: a fresh user record is created.
    pub fn enter_room(&mut self, username: &String)
        ensures
            final(self).entered,
            final(self).user matches Some(u) && u.username == *username && u.path is None
                && u.point is None && u.region_beg is None && u.region_end is None
                && u.color_cursor is None && u.color_region is None,
            final(self).path == old(self).path,
            final(self).admin == old(self).admin,
            client_wf(*old(self)) ==> client_wf(*final(self)),
    {
        self.user = Some(User::new(username.clone()));
        self.entered = true;
    }

    /// Leave the room: the user record is cleared.
    pub fn exit_room(&mut self)
        ensures
            final(self).entered == false,
            final(self).user is None,
            final(self).path == old(self).path,
            final(self).admin == old(self).admin,
            client_wf(*final(self)),
    {
        self.user = None;
        self.entered = false;
    }

    /// Predict-shift for the editing client itself: a zero delta, used to
    /// learn which file the client is visiting.
    pub fn move_self(&mut self, point: isize) -> (r: Option<String>)
        requires
            client_wf(*old(self)),
        ensures
            client_wf(*final(self)),
            *final(self) == *old(self),
            (match old(self).user {
                Some(u) => (match u.path {
                    Some(p) => r matches Some(q) && q@ == p@,
                    None => r is None,
                }),
                None => r is None,
            }),
    {
        self.move_by_delta(point, 0, Option::None)
    }

    /// Predict-shift for a client other than the editor: shift this client's
    /// cursor by `delta` when the anchor lies at or before it, restricted to
    /// clients visiting `filename` when one is given.
    pub fn move_other(&mut self, point: isize, delta: isize, filename: Option<String>) -> (r:
        Option<String>)
        requires
            client_wf(*old(self)),
        ensures
            client_wf(*final(self)),
            moved_client(*old(self), point as int, delta as int, filename) == *final(self),
            final(self).path == old(self).path,
            final(self).admin == old(self).admin,
            final(self).entered == old(self).entered,
    {
        self.move_by_delta(point, delta, filename)
    }

    /// Common predict-shift: move this client's cursor when it has a user in
    /// a file, and when that file matches the filter.  Returns the file the
    /// user is visiting when the shift was applied.
    fn move_by_delta(&mut self, point: isize, delta: isize, filename: Option<String>) -> (r:
        Option<String>)
        requires
            client_wf(*old(self)),
        ensures
            client_wf(*final(self)),
            moved_client(*old(self), point as int, delta as int, filename) == *final(self),
            final(self).path == old(self).path,
            final(self).admin == old(self).admin,
            final(self).entered == old(self).entered,
            (match old(self).user {
                Some(u) => (match u.path {
                    Some(p) => (match filename {
                        Some(f) => if p@ == f@ {
                            r matches Some(q) && q@ == p@
                        } else {
                            r is None
                        },
                        None => r matches Some(q) && q@ == p@,
                    }),
                    None => r is None,
                }),
                None => r is None,
            }),
    {
        let u = match &self.user {
            Option::None => {
                return Option::None;
            },
            Option::Some(u) => u,
        };
        let p = match &u.path {
            Option::None => {
                return Option::None;
            },
            Option::Some(p) => p.clone(),
        };
        match &filename {
            Option::None => {},
            Option::Some(f) => {
                if !p.eq(f) {
                    return Option::None;
                }
            },
        }
        match &mut self.user {
            Option::None => {},
            Option::Some(u) => {
                u.move_by_delta(point, delta);
            },
        }
        Option::Some(p)
    }
}

/// The client after a predict-shift with anchor `p` and delta `d`,
/// restricted to clients visiting `filename` when one is given: the user's
/// cursor and region move as `moved_user` says; a client with no user, no
/// file, or another file is untouched.
pub open spec fn moved_client(c: Client, p: int, d: int, filename: Option<String>) -> Client {
    match c.user {
        None => c,
        Some(u) => match u.path {
            None => c,
            Some(fp) => {
                let applies = match filename {
                    None => true,
                    Some(f) => fp@ == f@,
                };
                if applies {
                    Client { user: Some(moved_user(u, p, d)), ..c }
                } else {
                    c
                }
            },
        },
    }
}

} // verus!
