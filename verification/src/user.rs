//! Per-session presence of an entered client: username, current file,
//! cursor point, selection region and display colors.

use vstd::prelude::*;

verus! {

/// Signed addition clamped to the `isize` range.
///
/// Cursor positions are shifted by signed deltas; clamping keeps the
/// arithmetic total so that no edit can make the server panic.
pub open spec fn sat_add(a: int, b: int) -> int {
    if a + b > isize::MAX as int {
        isize::MAX as int
    } else if a + b < isize::MIN as int {
        isize::MIN as int
    } else {
        a + b
    }
}

/// Executable clamped addition, exact with respect to `sat_add`.
pub fn saturating_add(a: isize, b: isize) -> (r: isize)
    ensures
        r as int == sat_add(a as int, b as int),
{
    if b >= 0 {
        if a > isize::MAX - b {
            isize::MAX
        } else {
            a + b
        }
    } else {
        if a < isize::MIN - b {
            isize::MIN
        } else {
            a + b
        }
    }
}

/// A user entered into the room.
///
/// `path` is the file the user is visiting, relative to the workspace root.
/// `point` is the cursor offset inside that file.  The selection region
/// `[region_beg, region_end)` is either wholly present or wholly absent.
#[derive(Clone)]
pub struct User {
    pub username: String,
    pub path: Option<String>,
    pub point: Option<isize>,
    pub region_beg: Option<isize>,
    pub region_end: Option<isize>,
    pub color_cursor: Option<String>,
    pub color_region: Option<String>,
}

/// Well-formedness of a user: the region endpoints are both present or both
/// absent, and when present they are ordered.
pub open spec fn user_wf(u: User) -> bool {
    &&& u.region_beg is Some <==> u.region_end is Some
    &&& match (u.region_beg, u.region_end) {
        (Some(b), Some(e)) => b <= e,
        _ => true,
    }
}

/// The user after a predict-shift with anchor `p` and delta `d`: when the
/// user has a cursor and the anchor lies at or before it, the cursor and the
/// region both move by `d`; otherwise nothing changes.
pub open spec fn moved_user(u: User, p: int, d: int) -> User {
    match u.point {
        None => u,
        Some(pt) => if p <= pt as int {
            User {
                point: Some(sat_add(pt as int, d) as isize),
                region_beg: match u.region_beg {
                    None => None,
                    Some(b) => Some(sat_add(b as int, d) as isize),
                },
                region_end: match u.region_end {
                    None => None,
                    Some(e) => Some(sat_add(e as int, d) as isize),
                },
                ..u
            }
        } else {
            u
        },
    }
}

impl User {
    /// A fresh user with only a username.
    pub fn new(username: String) -> (r: User)
        ensures
            r.username == username,
            r.path is None,
            r.point is None,
            r.region_beg is None,
            r.region_end is None,
            r.color_cursor is None,
            r.color_region is None,
            user_wf(r),
    {
        User {
            username,
            path: None,
            point: None,
            region_beg: None,
            region_end: None,
            color_cursor: None,
            color_region: None,
        }
    }

    /// A field-for-field copy of this user.
    pub fn snapshot(&self) -> (r: User)
        ensures
            r == *self,
    {
        User {
            username: self.username.clone(),
            path: (match &self.path {
                Option::Some(p) => Option::Some(p.clone()),
                Option::None => Option::None,
            }),
            point: self.point,
            region_beg: self.region_beg,
            region_end: self.region_end,
            color_cursor: (match &self.color_cursor {
                Option::Some(p) => Option::Some(p.clone()),
                Option::None => Option::None,
            }),
            color_region: (match &self.color_region {
                Option::Some(p) => Option::Some(p.clone()),
                Option::None => Option::None,
            }),
        }
    }

    /// Replace the presence fields; the username stays.
    pub fn update(
        &mut self,
        path: Option<String>,
        point: Option<isize>,
        region_beg: Option<isize>,
        region_end: Option<isize>,
        color_cursor: Option<String>,
        color_region: Option<String>,
    )
        ensures
            final(self).username == old(self).username,
            final(self).path == path,
            final(self).point == point,
            final(self).region_beg == region_beg,
            final(self).region_end == region_end,
            final(self).color_cursor == color_cursor,
            final(self).color_region == color_region,
    {
        self.path = path;
        self.point = point;
        self.region_beg = region_beg;
        self.region_end = region_end;
        self.color_cursor = color_cursor;
        self.color_region = color_region;
    }

    /// Shift the cursor by `delta` when the edit anchor `point` lies at or
    /// before it; an edit exactly at the cursor does shift it.
    ///
    /// The region, when present, moves with the cursor, so its ordering is
    /// preserved.
    pub fn move_by_delta(&mut self, point: isize, delta: isize)
        requires
            user_wf(*old(self)),
        ensures
            *final(self) == moved_user(*old(self), point as int, delta as int),
            user_wf(*final(self)),
            (match old(self).point {
                Some(pt) => point <= pt ==> final(self).point == Some(
                    (sat_add(pt as int, delta as int) as isize),
                ),
                None => *final(self) == *old(self),
            }),
            (match old(self).point {
                Some(pt) => point > pt ==> *final(self) == *old(self),
                None => true,
            }),
    {
        let pt = match self.point {
            Option::None => {
                return;
            },
            Option::Some(pt) => pt,
        };
        if point <= pt {
            self.point = Some(saturating_add(pt, delta));
            match self.region_beg {
                Option::None => {},
                Option::Some(b) => {
                    self.region_beg = Some(saturating_add(b, delta));
                },
            }
            match self.region_end {
                Option::None => {},
                Option::Some(e) => {
                    self.region_end = Some(saturating_add(e, delta));
                },
            }
        }
    }
}

/// Shifting by `d` and then by `-d` around the same anchor returns every
/// cursor and region to its starting position, provided the shifts stay
/// inside the `isize` range and the delta is not negative (the anchor then
/// still lies at or before the moved cursor).
pub proof fn lemma_move_round_trip(u: User, p: int, d: int)
    requires
        user_wf(u),
        0 <= d,
        u.point matches Some(pt) ==> isize::MIN <= pt as int + d <= isize::MAX,
        u.region_beg matches Some(b) ==> isize::MIN <= b as int + d <= isize::MAX,
        u.region_end matches Some(e) ==> isize::MIN <= e as int + d <= isize::MAX,
        isize::MIN <= -d,
    ensures
        moved_user(moved_user(u, p, d), p, -d) == u,
{
    match u.point {
        None => {},
        Some(pt) => {
            if p <= pt as int {
                let v = moved_user(u, p, d);
                assert(v.point == Some((pt as int + d) as isize));
                assert(moved_user(v, p, -d) == u);
            }
        },
    }
}

} // verus!
