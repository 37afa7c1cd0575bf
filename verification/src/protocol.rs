//! The typed protocol: requests as parsed from inbound frames, outbound
//! frames as handed to the write side, and the actions a handler asks its
//! caller to perform.

use vstd::prelude::*;
use crate::user::User;
use crate::util::concat_str;

verus! {

/// One decoded request, tagged by its method.  Fields hold `None` when the
/// frame did not carry them; handlers answer `missing_field` then.
pub enum Request {
    Test,
    Ping,
    Init { path: Option<String> },
    RoomEnter { username: Option<String>, password: Option<String> },
    RoomExit,
    RoomKick { username: Option<String> },
    RoomBroadcast { message: Option<String> },
    RoomInfo,
    RoomSync { path: Option<String> },
    RoomUpdateClient {
        path: Option<String>,
        point: Option<isize>,
        region_beg: Option<isize>,
        region_end: Option<isize>,
        color_cursor: Option<String>,
        color_region: Option<String>,
    },
    RoomAddFile { file: Option<String>, contents: Option<String> },
    RoomDeleteFile { file: Option<String> },
    RoomRenameFile { file: Option<String>, newname: Option<String> },
    RoomFindUser { username: Option<String> },
    FileSync { file: Option<String> },
    FileInfo,
    FileSay { file: Option<String>, message: Option<String> },
    BufferUpdate {
        path: Option<String>,
        add_or_delete: Option<String>,
        beg: Option<usize>,
        end: Option<usize>,
        contents: Option<String>,
    },
    BufferSync { file: Option<String> },
    BufferSave { file: Option<String>, contents: Option<String> },
}

/// One outbound frame, before serialization.  Every variant but `Failure`
/// carries success status on the wire.
pub enum OutMessage {
    Failure { method: String, message: String },
    TestEcho { some: String },
    TestBroadcast { message: String },
    Pong { timestamp: String },
    InitOk { message: String },
    EnterOk { username: String, message: String },
    ExitOk { username: String, message: String },
    KickOk { username: String, admin: String, message: String },
    BroadcastOk { username: String, message: String },
    RoomUsers { clients: Vec<User> },
    FileUsers { clients: Vec<User> },
    RoomSyncFile { file: String, contents: String },
    FileSyncOk { file: String, contents: String },
    BufferSyncOk { file: String, contents: String },
    BufferSaveOk { file: String, contents: String },
    AddFileOk { file: String, contents: String },
    DeleteFileOk { file: String },
    RenameFileOk { file: String, newname: String },
    FindUserOk { username: String, file: String, point: isize },
    SayOk { username: String, file: String, message: String },
    BufferUpdateOk {
        username: String,
        file: String,
        add_or_delete: String,
        beg: usize,
        end: usize,
        contents: String,
    },
}

/// Which kind of frame a deferred disk read answers.
pub enum SyncKind {
    RoomSync,
    FileSync,
}

/// One step the caller performs after a handler returns: pushing a frame
/// to some inboxes, touching the disk, or reading a file and answering
/// with its contents.
pub enum Action {
    Send { to: Vec<u64>, msg: OutMessage },
    FsWrite { path: String, contents: String },
    FsDelete { path: String },
    FsRename { from: String, to: String },
    ReadAndSend { to: u64, path: String, file: String, kind: SyncKind },
}

/// A failure frame: the method it answers, and an explanatory message.
pub fn general_error(method: &str, msg: &str) -> (r: OutMessage)
    ensures
        r matches OutMessage::Failure { method: m, message } && m@ == method@ && message@
            == msg@,
{
    OutMessage::Failure { method: String::from_str(method), message: String::from_str(msg) }
}

/// The message text of a `missing_field` failure.
pub open spec fn missing_field_text(key: Seq<char>) -> Seq<char> {
    "Required field `"@ + key + "` cannot be null"@
}

/// A failure frame for a request that lacks a required field.
pub fn missing_field(method: &str, key: &str) -> (r: OutMessage)
    ensures
        r matches OutMessage::Failure { method: m, message } && m@ == method@ && message@
            == missing_field_text(key@),
{
    let text = concat_str(
        &concat_str(&String::from_str("Required field `"), &String::from_str(key)),
        &String::from_str("` cannot be null"),
    );
    OutMessage::Failure { method: String::from_str(method), message: text }
}

/// The message text of an `obsolete_notice` failure.
pub open spec fn obsolete_notice_text(method: Seq<char>) -> Seq<char> {
    "The method `"@ + method + "` is obsoleted"@
}

/// A failure frame for a method that is no longer served.
pub fn obsolete_notice(method: &str) -> (r: OutMessage)
    ensures
        r matches OutMessage::Failure { method: m, message } && m@ == method@ && message@
            == obsolete_notice_text(method@),
{
    let text = concat_str(
        &concat_str(&String::from_str("The method `"), &String::from_str(method)),
        &String::from_str("` is obsoleted"),
    );
    OutMessage::Failure { method: String::from_str(method), message: text }
}

/// The frame answering a deferred disk read: `room::sync` and
/// `file::sync` frames both carry the file in the client's namespace and
/// the on-disk contents.
pub fn sync_reply(kind: &SyncKind, file: String, contents: String) -> (r: OutMessage)
    ensures
        (match kind {
            SyncKind::RoomSync => r matches OutMessage::RoomSyncFile { file: f, contents: c }
                && f == file && c == contents,
            SyncKind::FileSync => r matches OutMessage::FileSyncOk { file: f, contents: c }
                && f == file && c == contents,
        }),
{
    match kind {
        SyncKind::RoomSync => OutMessage::RoomSyncFile { file, contents },
        SyncKind::FileSync => OutMessage::FileSyncOk { file, contents },
    }
}

} // verus!
