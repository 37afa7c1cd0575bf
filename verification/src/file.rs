//! A rope-backed editable mirror of one workspace file, plus its chat log
//! and line-ending handling.

use vstd::prelude::*;
use vstd::utf8::{encode_utf8, is_char_boundary};
use crate::chat::{Chat, Message};
use crate::rope::{rope_bytes, rope_from, rope_byte_len, rope_is_char_boundary, rope_insert, rope_delete, rope_to_string};
use crate::util::{normalize_le, norm_le_spec, str_eq};

verus! {

/// An insertion at `beg` is applicable to text `s`.
pub open spec fn add_valid(s: Seq<u8>, beg: int) -> bool {
    0 <= beg <= s.len() && is_char_boundary(s, beg)
}

/// A deletion of `[beg, end)` is applicable to text `s`.
pub open spec fn delete_valid(s: Seq<u8>, beg: int, end: int) -> bool {
    0 <= beg <= end <= s.len() && is_char_boundary(s, beg) && is_char_boundary(s, end)
}

/// Exact effect of `File::update`: what `post` and `applied` are, given
/// the file `pre`, the operation word `op`, the offsets and the insertion.
pub open spec fn update_post(pre: File, post: File, applied: bool, op: Seq<char>, beg: int, end: int, ins: Seq<char>) -> bool {
    &&& (op == "add"@ ==> {
        if add_valid(rope_bytes(pre.view), beg) {
            &&& applied
            &&& rope_bytes(post.view) == rope_bytes(pre.view).subrange(0, beg) + encode_utf8(ins)
                + rope_bytes(pre.view).skip(beg)
        } else {
            !applied && post == pre
        }
    })
    &&& (op == "delete"@ ==> {
        if delete_valid(rope_bytes(pre.view), beg, end) {
            &&& applied
            &&& rope_bytes(post.view) == rope_bytes(pre.view).subrange(0, beg)
                + rope_bytes(pre.view).skip(end)
        } else {
            !applied && post == pre
        }
    })
    &&& (op != "add"@ && op != "delete"@ ==> !applied && post == pre)
    &&& post.path == pre.path
    &&& post.rel_path == pre.rel_path
    &&& post.chat == pre.chat
    &&& post.use_lf == pre.use_lf
}

/// One mirrored workspace file.
///
/// `path` is the absolute, slash-normalized location under the room root;
/// `rel_path` is the same location with the room root stripped.  `view`
/// holds the authoritative contents.  When `use_lf` is set, contents are
/// normalized to LF line endings on load and on read-back.
pub struct File {
    pub path: String,
    pub rel_path: String,
    pub chat: Chat,
    pub view: crop::Rope,
    pub use_lf: bool,
}

impl File {
    /// A file view over the given contents.
    pub fn new(path: String, rel_path: String, use_lf: bool, contents: String) -> (r: File)
        ensures
            r.path == path,
            r.rel_path == rel_path,
            r.use_lf == use_lf,
            r.chat.messages@ == Seq::<Message>::empty(),
            use_lf ==> rope_bytes(r.view) == encode_utf8(norm_le_spec(contents@)),
            !use_lf ==> rope_bytes(r.view) == encode_utf8(contents@),
    {
        let text = if use_lf {
            normalize_le(&contents)
        } else {
            contents
        };
        File { path, rel_path, chat: Chat::new(), view: rope_from(text.as_str()), use_lf }
    }

    /// The absolute file path.
    pub fn path(&self) -> (r: &String)
        ensures
            r == self.path,
    {
        &self.path
    }

    /// The path relative to the room root.
    pub fn relative_path(&self) -> (r: String)
        ensures
            r@ == self.rel_path@,
    {
        self.rel_path.clone()
    }

    /// The file's chat log, for appending.
    pub fn get_chat(&mut self) -> (r: &mut Chat)
        ensures
            *r == old(self).chat,
            final(self).chat == *final(r),
            final(self).path == old(self).path,
            final(self).rel_path == old(self).rel_path,
            final(self).view == old(self).view,
            final(self).use_lf == old(self).use_lf,
    {
        &mut self.chat
    }

    /// Apply one edit to the rope: `"add"` splices `contents` in at byte
    /// offset `beg`, `"delete"` removes the byte range `[beg, end)`.
    ///
    /// Returns `true` exactly when the edit was applicable and applied; an
    /// out-of-range or off-boundary edit, or an operation word other than
    /// the two above, leaves the file untouched.
    pub fn update(&mut self, add_or_delete: &String, beg: usize, end: usize, contents: &String)
        -> (applied: bool)
        ensures
            update_post(
                *old(self),
                *final(self),
                applied,
                add_or_delete@,
                beg as int,
                end as int,
                contents@,
            ),
    {
        proof {
            reveal_strlit("add");
            reveal_strlit("delete");
            assert("add"@.len() == 3);
            assert("delete"@.len() == 6);
            assert("add"@ != "delete"@);
        }
        let len = rope_byte_len(&self.view);
        if str_eq(add_or_delete, "add") {
            if beg <= len && rope_is_char_boundary(&self.view, beg) {
                rope_insert(&mut self.view, beg, contents.as_str());
                true
            } else {
                false
            }
        } else if str_eq(add_or_delete, "delete") {
            let ghost s = rope_bytes(self.view);
            if beg <= end && end <= len && rope_is_char_boundary(&self.view, beg)
                && rope_is_char_boundary(&self.view, end) {
                proof {
                    assert(delete_valid(s, beg as int, end as int));
                }
                rope_delete(&mut self.view, beg, end);
                proof {
                    assert(rope_bytes(self.view) == s.subrange(0, beg as int) + s.skip(end as int));
                }
                true
            } else {
                proof {
                    assert(!delete_valid(s, beg as int, end as int));
                }
                false
            }
        } else {
            false
        }
    }

    /// The rope contents as a string, line-ending-normalized when the room
    /// is configured for LF.
    pub fn buffer(&self) -> (r: String)
        ensures
            !self.use_lf ==> encode_utf8(r@) == rope_bytes(self.view),
            self.use_lf ==> r@ == norm_le_spec(vstd::utf8::decode_utf8(rope_bytes(self.view))),
    {
        let contents = rope_to_string(&self.view);
        proof {
            broadcast use vstd::utf8::encode_utf8_decode_utf8;
        }
        if self.use_lf {
            normalize_le(&contents)
        } else {
            contents
        }
    }

    /// Normalize line endings by this file's configuration.
    pub fn normalize_le(&self, string: &String) -> (r: String)
        ensures
            self.use_lf ==> r@ == norm_le_spec(string@),
            !self.use_lf ==> r@ == string@,
    {
        if self.use_lf {
            normalize_le(string)
        } else {
            string.clone()
        }
    }
}

/// Inserting text at `beg` and then deleting exactly the inserted byte
/// range restores the original text bit for bit.  This is the rope half of
/// the edit round trip; the cursor half is `user::lemma_move_round_trip`.
pub proof fn lemma_update_round_trip(s: Seq<u8>, beg: int, ins: Seq<u8>)
    requires
        0 <= beg <= s.len(),
    ensures
        ({
            let t = s.subrange(0, beg) + ins + s.skip(beg);
            t.subrange(0, beg) + t.skip(beg + ins.len()) == s
        }),
{
    let t = s.subrange(0, beg) + ins + s.skip(beg);
    assert(t.subrange(0, beg) + t.skip(beg + ins.len()) =~= s);
}

} // verus!
