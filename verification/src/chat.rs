//! Append-only message logs: one for the room, one per file.

use vstd::prelude::*;

verus! {

/// Relies on `chrono::offset::Local::now`: the current local time, rendered
/// through its `Display` form.  Nothing is assumed of the text.
#[verifier::external_body]
pub(crate) fn local_now_string() -> (r: String) {
    chrono::offset::Local::now().to_string()
}

/// One chat message, stamped at creation time.
#[derive(Clone)]
pub struct Message {
    pub username: String,
    pub content: String,
    pub timestamp: String,
}

impl Message {
    /// A message by `username` carrying `content`, stamped with the current
    /// local time.
    pub fn new(username: &String, content: &str) -> (r: Message)
        ensures
            r.username == *username,
            r.content@ == content@,
    {
        Message {
            username: username.clone(),
            content: content.to_owned(),
            timestamp: local_now_string(),
        }
    }
}

/// An append-only log of messages.
pub struct Chat {
    pub messages: Vec<Message>,
}

impl Chat {
    /// An empty log.
    pub fn new() -> (r: Chat)
        ensures
            r.messages@ == Seq::<Message>::empty(),
    {
        Chat { messages: Vec::new() }
    }

    /// Append one message; everything already logged stays as it was.
    pub fn add_message(&mut self, username: &String, content: &String)
        ensures
            final(self).messages@.len() == old(self).messages@.len() + 1,
            final(self).messages@.drop_last() == old(self).messages@,
            final(self).messages@.last().username == *username,
            final(self).messages@.last().content@ == content@,
    {
        let message = Message::new(username, content.as_str());
        self.messages.push(message);
        proof {
            assert(self.messages@.drop_last() =~= old(self).messages@);
        }
    }
}

} // verus!
