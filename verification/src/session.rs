//! The client's session: one lazily-dialed connection shared by a send path
//! and a receive path. Everything the session decides — when to dial, what a
//! line of input turns into, what to do with an inbound message, how a
//! received payload is named — is here with a contract. Dialing, reading,
//! writing and saving are the surrounding process's work.

use vstd::prelude::*;

use crate::codec::{ChatMessageError, Message, MessageView};
use crate::config::ClientConfig;
use crate::shim::{ext_format_recognized, is_recognized_image_ext};
use crate::text::{
    lemma_trim_head, spec_decimal, spec_trim, spec_words, split_words, str_eq, trim,
    u64_to_decimal,
};

verus! {

/// The connection state after a write with the given outcome: a failed write
/// clears the connection, a successful one keeps it.
pub open spec fn spec_after_write(live: bool, ok: bool) -> bool {
    live && ok
}

/// The connection state after a dial: live exactly when the dial succeeded.
pub open spec fn spec_after_dial(ok: bool) -> bool {
    ok
}

/// How many dial attempts the next outgoing message makes before it is
/// written: none over a live connection, exactly one without.
pub open spec fn spec_dials_needed(live: bool) -> nat {
    if live {
        0
    } else {
        1
    }
}

/// The send path's connection state: whether a live connection exists. Absent
/// at startup, created on the first send, cleared by any write failure.
pub struct Session {
    live: bool,
}

impl View for Session {
    type V = bool;

    closed spec fn view(&self) -> bool {
        self.live
    }
}

impl Session {
    /// A fresh session: no connection yet.
    pub fn new() -> (s: Session)
        ensures
            s@ == false,
    {
        Session { live: false }
    }

    /// Whether a live connection exists.
    pub fn has_live(&self) -> (r: bool)
        ensures
            r == self@,
    {
        self.live
    }

    /// How many dial attempts the next outgoing message makes before it is
    /// written.
    pub fn dials_needed(&self) -> (n: u64)
        ensures
            n as nat == spec_dials_needed(self@),
    {
        if self.live {
            0
        } else {
            1
        }
    }

    /// Notes a dial outcome. On success the connection is live and the
    /// receive path must be spawned against a clone of it, which the result
    /// tells the caller; on failure the message being sent is dropped.
    pub fn note_dial(&mut self, ok: bool) -> (spawn_receiver: bool)
        ensures
            final(self)@ == spec_after_dial(ok),
            spawn_receiver == ok,
    {
        self.live = ok;
        ok
    }

    /// Notes a write outcome: a failed write clears the live connection, so
    /// the next outgoing message dials afresh.
    pub fn note_write(&mut self, ok: bool)
        ensures
            final(self)@ == spec_after_write(old(self)@, ok),
    {
        if !ok {
            self.live = false;
        }
    }
}

/// After a write failure the live connection is gone, so the next outgoing
/// message dials exactly once before it is written; once that dial succeeds,
/// sending needs no further dial.
pub proof fn lemma_reconnect_after_write_failure(live: bool)
    ensures
        !spec_after_write(live, false),
        spec_dials_needed(spec_after_write(live, false)) == 1,
        spec_dials_needed(spec_after_dial(true)) == 0,
{
}

/// One item parsed from an input line: a message ready to send, or a path
/// whose bytes must first be read from disk.
#[derive(Debug, PartialEq, Eq)]
pub enum OutboundItem {
    /// Send as it stands.
    Ready(Message),
    /// Read this path and send its bytes as a file message.
    ReadFile(String),
    /// Read this path and send its bytes as an image message.
    ReadImage(String),
}

/// What a nonempty line's words demand: one file item per path after a
/// ".file" command, one image item per path after ".image", and otherwise a
/// single text message carrying the whole line.
pub open spec fn spec_line_items(line: Seq<char>, items: Seq<OutboundItem>) -> bool {
    let ws = spec_words(line);
    if ws.len() == 0 {
        false
    } else if ws[0] == ".file"@ {
        items.len() == ws.len() - 1 && forall|i: int|
            0 <= i < items.len() ==> ((#[trigger] items[i]) matches OutboundItem::ReadFile(p)
                && p@ == ws[i + 1])
    } else if ws[0] == ".image"@ {
        items.len() == ws.len() - 1 && forall|i: int|
            0 <= i < items.len() ==> ((#[trigger] items[i]) matches OutboundItem::ReadImage(p)
                && p@ == ws[i + 1])
    } else {
        items.len() == 1 && (items[0] matches OutboundItem::Ready(m) && m@ == (MessageView::Text {
            body: line,
        }))
    }
}

/// What to do with one raw line of user input.
#[derive(Debug, PartialEq, Eq)]
pub enum InputAction {
    /// Stop reading input; send nothing further.
    Quit,
    /// A blank line: nothing to do.
    Ignore,
    /// Send these items, in order.
    Send(Vec<OutboundItem>),
}

/// The client: its configuration and its send-path connection state.
pub struct Client {
    pub config: ClientConfig,
    pub session: Session,
}

impl Client {
    /// A fresh client with the given configuration and no connection.
    pub fn new(config: ClientConfig) -> (c: Client)
        ensures
            c.session@ == false,
            c.config == config,
    {
        Client { config, session: Session::new() }
    }

    /// The greeting sent when the client starts.
    pub fn greeting(&self) -> (m: Message)
        ensures
            m@ == (MessageView::Text { body: "Hello from "@ + self.config.username@ }),
    {
        let text = "Hello from ".to_owned().concat(self.config.username.as_str());
        Message::Text(text)
    }

    /// Turns one command line into its outbound items: a ".file" or ".image"
    /// command yields one item per named path, in order; any other nonempty
    /// line yields exactly one text message carrying the whole line. A line
    /// without words carries no command, which is the one error.
    pub fn message_from_command_line(&self, cmd_line: &str) -> (r: Result<
        Vec<OutboundItem>,
        ChatMessageError,
    >)
        ensures
            match r {
                Ok(items) => spec_words(cmd_line@).len() > 0 && spec_line_items(
                    cmd_line@,
                    items@,
                ),
                Err(e) => spec_words(cmd_line@).len() == 0 && (e matches
                    ChatMessageError::OtherError(m) && m@ == "no command supplied"@),
            },
    {
        let words = split_words(cmd_line);
        let ghost ws = spec_words(cmd_line@);
        proof {
            assert(words@.len() == ws.len());
        }
        if words.len() == 0 {
            return Err(
                ChatMessageError::OtherError("no command supplied".to_owned()),
            );
        }
        proof {
            assert(words@[0]@ == ws[0]);
        }
        let n = words.len();
        if str_eq(words[0].as_str(), ".file") {
            let mut items: Vec<OutboundItem> = Vec::new();
            let mut i: usize = 1;
            while i < n
                invariant
                    1 <= i <= n,
                    n == words@.len(),
                    words.deep_view() == ws,
                    items@.len() == i - 1,
                    forall|j: int|
                        0 <= j < items@.len() ==> ((#[trigger] items@[j]) matches
                            OutboundItem::ReadFile(p) && p@ == ws[j + 1]),
                decreases n - i,
            {
                let path = words[i].clone();
                proof {
                    assert(words@[i as int]@ == ws[i as int]);
                }
                items.push(OutboundItem::ReadFile(path));
                i += 1;
            }
            Ok(items)
        } else if str_eq(words[0].as_str(), ".image") {
            let mut items: Vec<OutboundItem> = Vec::new();
            let mut i: usize = 1;
            while i < n
                invariant
                    1 <= i <= n,
                    n == words@.len(),
                    words.deep_view() == ws,
                    items@.len() == i - 1,
                    forall|j: int|
                        0 <= j < items@.len() ==> ((#[trigger] items@[j]) matches
                            OutboundItem::ReadImage(p) && p@ == ws[j + 1]),
                decreases n - i,
            {
                let path = words[i].clone();
                proof {
                    assert(words@[i as int]@ == ws[i as int]);
                }
                items.push(OutboundItem::ReadImage(path));
                i += 1;
            }
            Ok(items)
        } else {
            let mut items: Vec<OutboundItem> = Vec::new();
            items.push(OutboundItem::Ready(Message::Text(cmd_line.to_owned())));
            Ok(items)
        }
    }

    /// Plans one raw line of user input: a blank line does nothing, the quit
    /// token ends input without sending anything, and every other line is
    /// parsed into outbound items after trimming.
    pub fn plan_input_line(&self, raw: &str) -> (r: InputAction)
        ensures
            ({
                let t = spec_trim(raw@);
                &&& (t.len() == 0 ==> r == InputAction::Ignore)
                &&& (t == ".quit"@ ==> r == InputAction::Quit)
                &&& ((t.len() > 0 && t != ".quit"@) ==> (r matches InputAction::Send(items)
                    && spec_line_items(t, items@)))
            }),
    {
        let trimmed = trim(raw);
        proof {
            reveal_strlit(".quit");
        }
        if trimmed.as_str().unicode_len() == 0 {
            return InputAction::Ignore;
        }
        if str_eq(trimmed.as_str(), ".quit") {
            return InputAction::Quit;
        }
        match self.message_from_command_line(trimmed.as_str()) {
            Ok(items) => InputAction::Send(items),
            Err(_) => {
                proof {
                    lemma_trim_head(raw@);
                    assert(spec_words(spec_trim(raw@)).len() > 0);
                    assert(false);
                }
                InputAction::Ignore
            },
        }
    }
}

/// What the receive path does with one decoded inbound message: show text,
/// save a file under a collision-resistant name built from the timestamp and
/// the original name, save an image the same way with the canonical ".png"
/// suffix, or reject an image whose extension names no recognized format. A
/// rejection is local to that one payload; it never ends the receive path.
#[derive(Debug, PartialEq, Eq)]
pub enum InboundAction {
    ShowText(String),
    SaveImage { file_name: String, ext: String, data: Vec<u8> },
    SaveFile { file_name: String, data: Vec<u8> },
    RejectImage { ext: String },
}

/// Dispatches one decoded inbound message, naming saved payloads
/// "{stamp}-{name}" (images additionally get ".png", the canonical format
/// they are converted to).
pub fn handle_incoming(msg: Message, stamp: u64) -> (r: InboundAction)
    ensures
        match msg@ {
            MessageView::Text { body } => r matches InboundAction::ShowText(t) && t@ == body,
            MessageView::Image { name, ext, data } => {
                if is_recognized_image_ext(ext) {
                    r matches InboundAction::SaveImage { file_name, ext: e, data: d } && file_name@
                        == spec_decimal(stamp as nat) + "-"@ + name + ".png"@ && e@ == ext && d@
                        == data
                } else {
                    r matches InboundAction::RejectImage { ext: e } && e@ == ext
                }
            },
            MessageView::File { name, data } => r matches InboundAction::SaveFile {
                file_name,
                data: d,
            } && file_name@ == spec_decimal(stamp as nat) + "-"@ + name && d@ == data,
        },
{
    match msg {
        Message::Text(body) => InboundAction::ShowText(body),
        Message::Image(name, ext, data) => {
            if ext_format_recognized(ext.as_str()) {
                let file_name = u64_to_decimal(stamp).concat("-").concat(name.as_str()).concat(
                    ".png",
                );
                proof {
                    assert(file_name@ =~= spec_decimal(stamp as nat) + "-"@ + name@ + ".png"@);
                }
                InboundAction::SaveImage { file_name, ext, data }
            } else {
                InboundAction::RejectImage { ext }
            }
        },
        Message::File(name, data) => {
            let file_name = u64_to_decimal(stamp).concat("-").concat(name.as_str());
            proof {
                assert(file_name@ =~= spec_decimal(stamp as nat) + "-"@ + name@);
            }
            InboundAction::SaveFile { file_name, data }
        },
    }
}

} // verus!
