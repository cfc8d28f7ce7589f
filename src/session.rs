//! Per-connection state: identity, display name, the active flag, the
//! in-band command protocol and the step taken on each read.

use vstd::prelude::*;
use vstd::utf8::*;
use vstd::string::*;
use crate::frame::{decode, strip_padding};
use crate::text::{
    chars_of, char_views, is_ws, join_from, join_words, lemma_append_word, lemma_single_word,
    split_words, string_of, words,
};
use crate::registry::{lemma_removed_absent, remove_id};

verus! {

/// A lower-case hexadecimal digit.
pub open spec fn is_lower_hex(c: char) -> bool {
    ('0' <= c && c <= '9') || ('a' <= c && c <= 'f')
}

/// The hyphenated text form of a random (version 4) UUID.
pub open spec fn is_hyphenated_v4(s: Seq<char>) -> bool {
    &&& s.len() == 36
    &&& forall|i: int|
        0 <= i < 36 ==> if i == 8 || i == 13 || i == 18 || i == 23 {
            s[i] == '-'
        } else {
            is_lower_hex(#[trigger] s[i])
        }
    &&& s[14] == '4'
}

/// Relies on uuid's `Uuid::new_v4` and its `Display` impl: a random
/// version-4 UUID, written as 32 lower-case hex digits in five groups
/// joined by hyphens.
#[verifier::external_body]
fn new_member_id() -> (r: String)
    ensures
        is_hyphenated_v4(r@),
{
    uuid::Uuid::new_v4().to_string()
}

/// Who is behind a connection: a random id, the peer's address and the
/// nickname chosen with the name command, if any.
pub struct Member {
    pub id: String,
    pub address: String,
    pub nick_name: Option<String>,
}

/// A nickname as characters.
pub open spec fn nick_view(n: Option<String>) -> Option<Seq<char>> {
    match n {
        Some(s) => Some(s@),
        None => None,
    }
}

impl Member {
    /// A member for a connection from `address`, with a fresh random id and
    /// no nickname.
    pub fn new(address: String) -> (r: Member)
        ensures
            is_hyphenated_v4(r.id@),
            r.address@ == address@,
            r.nick_name is None,
    {
        Member { id: new_member_id(), address, nick_name: None }
    }
}

/// The bytes of a member, for sending it elsewhere.
pub struct MemberDataTransferObject {
    pub id: Vec<u8>,
    pub address: Vec<u8>,
    pub nick_name: Option<Vec<u8>>,
}

impl MemberDataTransferObject {
    /// The member's id, address and nickname as UTF-8 bytes.
    pub fn from(member: &Member) -> (r: MemberDataTransferObject)
        ensures
            r.id@ == encode_utf8(member.id@),
            r.address@ == encode_utf8(member.address@),
            member.nick_name is None ==> r.nick_name is None,
            member.nick_name is Some ==> r.nick_name is Some && r.nick_name->0@ == encode_utf8(
                member.nick_name->0@,
            ),
    {
        let nick_name = match &member.nick_name {
            Some(n) => Some(n.as_str().as_bytes_vec()),
            None => None,
        };
        MemberDataTransferObject {
            id: member.id.as_str().as_bytes_vec(),
            address: member.address.as_str().as_bytes_vec(),
            nick_name,
        }
    }
}

/// What a session is, as values.
pub struct SessionView {
    pub id: u64,
    pub member_id: Seq<char>,
    pub address: Seq<char>,
    pub nick: Option<Seq<char>>,
    pub active: bool,
}

/// The name command, with the given prefix.
pub open spec fn name_word(prefix: char) -> Seq<char> {
    seq![prefix, 'n', 'a', 'm', 'e']
}

/// The quit command, with the given prefix.
pub open spec fn quit_word(prefix: char) -> Seq<char> {
    seq![prefix, 'q', 'u', 'i', 't']
}

/// `text` is a command: it holds a word and starts with the prefix.
pub open spec fn is_command(text: Seq<char>, prefix: char) -> bool {
    words(text).len() > 0 && text[0] == prefix
}

/// `text` is chat: it holds a word and does not start with the prefix.
pub open spec fn is_chat(text: Seq<char>, prefix: char) -> bool {
    words(text).len() > 0 && text[0] != prefix
}

/// The nickname once `text` has been processed.
pub open spec fn nick_after(text: Seq<char>, prefix: char, nick: Option<Seq<char>>) -> Option<
    Seq<char>,
> {
    if is_command(text, prefix) && words(text)[0] == name_word(prefix) {
        if words(text).len() == 1 {
            None
        } else {
            Some(join_words(words(text).drop_first()))
        }
    } else {
        nick
    }
}

/// The active flag once `text` has been processed.
pub open spec fn active_after(text: Seq<char>, prefix: char, active: bool) -> bool {
    if is_command(text, prefix) && words(text)[0] == quit_word(prefix) {
        false
    } else {
        active
    }
}

/// Holds of every character but the double quote.
pub open spec fn not_quote() -> spec_fn(char) -> bool {
    |c: char| c != '"'
}

/// The line broadcast for `text` said by `name`, double quotes removed.
pub open spec fn chat_line(name: Seq<char>, text: Seq<char>) -> Seq<char> {
    (name + seq![':', ' '] + text).filter(not_quote())
}

/// The text a frame carries, if its payload is UTF-8.
pub open spec fn frame_text(frame: Seq<u8>) -> Option<Seq<char>> {
    if valid_utf8(strip_padding(frame)) {
        Some(decode_utf8(strip_padding(frame)))
    } else {
        None
    }
}

impl SessionView {
    /// The nickname if one is set, else the peer's address.
    pub open spec fn display_name(self) -> Seq<char> {
        match self.nick {
            Some(n) => n,
            None => self.address,
        }
    }

    /// The session once `text` has been processed.
    pub open spec fn after_text(self, text: Seq<char>, prefix: char) -> SessionView {
        SessionView {
            nick: nick_after(text, prefix, self.nick),
            active: active_after(text, prefix, self.active),
            ..self
        }
    }

    /// The session once its connection is given up.
    pub open spec fn closed(self) -> SessionView {
        SessionView { active: false, ..self }
    }
}

/// One accepted connection's state.
pub struct User {
    pub id: u64,
    pub is_active: bool,
    pub member: Member,
}

impl View for User {
    type V = SessionView;

    open spec fn view(&self) -> SessionView {
        SessionView {
            id: self.id,
            member_id: self.member.id@,
            address: self.member.address@,
            nick: nick_view(self.member.nick_name),
            active: self.is_active,
        }
    }
}

/// What the command processor makes of a text.
pub enum Outcome {
    /// Nothing more to do: a command, or a text without a word.
    Handled,
    /// Chat, to be formatted and broadcast.
    Chat(String),
}

/// Whether `w` is `prefix` followed by `a`, `b`, `c`, `d`.
fn is_word(w: &Vec<char>, prefix: char, a: char, b: char, c: char, d: char) -> (r: bool)
    ensures
        r == (w@ == seq![prefix, a, b, c, d]),
{
    let r = w.len() == 5 && w[0] == prefix && w[1] == a && w[2] == b && w[3] == c && w[4] == d;
    if r {
        assert(w@ =~= seq![prefix, a, b, c, d]);
    }
    r
}

/// Applies `text` to `user`: the quit command clears the active flag, the
/// name command sets (or with no argument clears) the nickname, any other
/// command does nothing, and a text that is not a command is chat.
pub fn process_command(text: &str, prefix: char, user: &mut User) -> (r: Outcome)
    ensures
        final(user)@ == old(user)@.after_text(text@, prefix),
        r is Chat <==> is_chat(text@, prefix),
        r is Chat ==> r->Chat_0@ == text@,
{
    let chars = chars_of(text);
    let ws = split_words(&chars);
    if ws.len() == 0 {
        return Outcome::Handled;
    }
    if chars.len() > 0 && chars[0] == prefix {
        if is_word(&ws[0], prefix, 'q', 'u', 'i', 't') {
            user.is_active = false;
        } else if is_word(&ws[0], prefix, 'n', 'a', 'm', 'e') {
            if ws.len() == 1 {
                user.member.nick_name = None;
            } else {
                let joined = join_from(&ws, 1);
                assert(char_views(ws@).subrange(1, ws@.len() as int) =~= words(
                    text@,
                ).drop_first());
                user.member.nick_name = Some(string_of(&joined));
            }
        }
        Outcome::Handled
    } else {
        Outcome::Chat(string_of(&chars))
    }
}

/// Formats `text` said by `name` as `name: text`, without double quotes.
pub fn format_chat_line(name: &str, text: &str) -> (r: String)
    ensures
        r@ == chat_line(name@, text@),
{
    let mut all = chars_of(name);
    all.push(':');
    all.push(' ');
    let body = chars_of(text);
    let mut j: usize = 0;
    let ghost head = all@;
    while j < body.len()
        invariant
            j <= body@.len(),
            all@ == head + body@.subrange(0, j as int),
        decreases body@.len() - j,
    {
        all.push(body[j]);
        j = j + 1;
        assert(all@ =~= head + body@.subrange(0, j as int));
    }
    assert(all@ =~= name@ + seq![':', ' '] + text@);
    let mut kept: Vec<char> = Vec::new();
    let mut i: usize = 0;
    while i < all.len()
        invariant
            i <= all@.len(),
            kept@ == all@.subrange(0, i as int).filter(not_quote()),
        decreases all@.len() - i,
    {
        assert(all@.subrange(0, i + 1) =~= all@.subrange(0, i as int).push(all@[i as int]));
        proof {
            all@.subrange(0, i as int).lemma_filter_push(all@[i as int], not_quote());
        }
        if all[i] != '"' {
            kept.push(all[i]);
        }
        i = i + 1;
    }
    assert(all@.subrange(0, all@.len() as int) =~= all@);
    string_of(&kept)
}

/// What a read on a session's connection gave.
pub enum ReadEvent {
    /// Bytes were read.
    Data(Vec<u8>),
    /// The read gave no bytes.
    Empty,
    /// Nothing could be read yet.
    WouldBlock,
    /// The connection failed.
    Failed,
}

/// What the read loop does next.
pub enum Step {
    /// Read again.
    Continue,
    /// Hand this line to the broadcaster, then read again.
    Broadcast(String),
    /// Leave the loop and remove the session from the registry.
    Close,
}

impl User {
    /// A new, active session for a connection from `address`, without a
    /// nickname.
    pub fn from(id: u64, address: String) -> (r: User)
        ensures
            r@.id == id,
            is_hyphenated_v4(r@.member_id),
            r@.address == address@,
            r@.nick is None,
            r@.active,
    {
        User { id, is_active: true, member: Member::new(address) }
    }

    /// The nickname if one is set, else the peer's address.
    pub fn get_display_name(&self) -> (r: String)
        ensures
            r@ == self@.display_name(),
    {
        match &self.member.nick_name {
            Some(n) => n.clone(),
            None => self.member.address.clone(),
        }
    }

    /// Marks the session as no longer active.
    pub fn disconnect(&mut self)
        ensures
            final(self)@ == old(self)@.closed(),
    {
        self.is_active = false;
    }

    /// Sets the nickname, or with `None` clears it.
    pub fn set_nickname(&mut self, new_name: Option<String>)
        ensures
            final(self)@ == (SessionView { nick: nick_view(new_name), ..old(self)@ }),
    {
        self.member.nick_name = new_name;
    }

    /// Takes one read's result: decodes a frame, applies a command or
    /// formats chat, and says what the read loop does next. Bytes that are
    /// not UTF-8 are dropped; an empty read or one that would block is
    /// retried; a failed connection closes the session.
    pub fn on_read(&mut self, event: ReadEvent, prefix: char) -> (r: Step)
        ensures
            !old(self)@.active ==> r is Close && final(self)@ == old(self)@,
            old(self)@.active ==> match event {
                ReadEvent::Data(bytes) => match frame_text(bytes@) {
                    None => r is Continue && final(self)@ == old(self)@,
                    Some(text) => {
                        &&& final(self)@ == old(self)@.after_text(text, prefix)
                        &&& is_chat(text, prefix) ==> r is Broadcast && r->Broadcast_0@
                            == chat_line(old(self)@.display_name(), text)
                        &&& !is_chat(text, prefix) && final(self)@.active ==> r is Continue
                        &&& !final(self)@.active ==> r is Close
                    },
                },
                ReadEvent::Empty => r is Continue && final(self)@ == old(self)@,
                ReadEvent::WouldBlock => r is Continue && final(self)@ == old(self)@,
                ReadEvent::Failed => r is Close && final(self)@ == old(self)@.closed(),
            },
    {
        if !self.is_active {
            return Step::Close;
        }
        match event {
            ReadEvent::Data(bytes) => {
                match decode(bytes.as_slice()) {
                    Err(_) => Step::Continue,
                    Ok(text) => {
                        let name = self.get_display_name();
                        match process_command(text.as_str(), prefix, self) {
                            Outcome::Chat(t) => Step::Broadcast(
                                format_chat_line(name.as_str(), t.as_str()),
                            ),
                            Outcome::Handled => {
                                if self.is_active {
                                    Step::Continue
                                } else {
                                    Step::Close
                                }
                            },
                        }
                    },
                }
            },
            ReadEvent::Empty => Step::Continue,
            ReadEvent::WouldBlock => Step::Continue,
            ReadEvent::Failed => {
                self.disconnect();
                Step::Close
            },
        }
    }
}

proof fn lemma_command_word(prefix: char, a: char, b: char, c: char, d: char)
    requires
        !is_ws(prefix),
        !is_ws(a) && !is_ws(b) && !is_ws(c) && !is_ws(d),
    ensures
        words(seq![prefix, a, b, c, d]) == seq![seq![prefix, a, b, c, d]],
        is_command(seq![prefix, a, b, c, d], prefix),
{
    let w = seq![prefix, a, b, c, d];
    assert forall|i: int| 0 <= i < w.len() implies !is_ws(#[trigger] w[i]) by {
        if i == 0 {
        } else if i == 1 {
        } else if i == 2 {
        } else if i == 3 {
        } else {
        }
    }
    lemma_single_word(w);
}

/// The name command without an argument drops the nickname: whatever name
/// was set before, the display name, and so every later chat line, uses
/// the connection's address again. Nothing else changes.
pub proof fn lemma_name_reset(v: SessionView, prefix: char, text: Seq<char>)
    requires
        !is_ws(prefix),
    ensures
        v.after_text(name_word(prefix), prefix).nick is None,
        v.after_text(name_word(prefix), prefix).display_name() == v.address,
        v.after_text(name_word(prefix), prefix).active == v.active,
        chat_line(v.after_text(name_word(prefix), prefix).display_name(), text) == chat_line(
            v.address,
            text,
        ),
        !is_chat(name_word(prefix), prefix),
{
    lemma_command_word(prefix, 'n', 'a', 'm', 'e');
}

/// The name command with a one-word name, then chat: the session keeps
/// its active flag, the command itself is not broadcast, and the chat is
/// broadcast as one line under the new name.
pub proof fn lemma_name_then_chat(v: SessionView, prefix: char, name: Seq<char>, text: Seq<char>)
    requires
        !is_ws(prefix),
        name.len() > 0,
        forall|i: int| 0 <= i < name.len() ==> !is_ws(#[trigger] name[i]),
        is_chat(text, prefix),
    ensures
        ({
            let command = name_word(prefix) + seq![' '] + name;
            let named = v.after_text(command, prefix);
            &&& !is_chat(command, prefix)
            &&& named.active == v.active
            &&& named.display_name() == name
            &&& named.after_text(text, prefix) == named
            &&& chat_line(named.display_name(), text) == chat_line(name, text)
        }),
{
    let word = name_word(prefix);
    let command = word + seq![' '] + name;
    lemma_command_word(prefix, 'n', 'a', 'm', 'e');
    assert(words(word + seq![' ']) =~= words(word)) by {
        assert((word + seq![' ']).drop_last() =~= word);
    }
    lemma_append_word(word + seq![' '], name);
    assert(word + seq![' '] + name =~= command);
    let ws = words(command);
    assert(ws =~= seq![word, name]);
    assert(command[0] == prefix);
    assert(word[1] != quit_word(prefix)[1]);
    assert(ws.drop_first() =~= seq![name]);
}

/// The quit command ends a session: it is no longer active (so its read
/// loop closes and nothing more of it is broadcast), the command itself is
/// not broadcast, and once removed the session is not in the registry.
pub proof fn lemma_quit_ends_session(v: SessionView, prefix: char, ids: Seq<u64>)
    requires
        !is_ws(prefix),
        ids.no_duplicates(),
    ensures
        !v.after_text(quit_word(prefix), prefix).active,
        v.after_text(quit_word(prefix), prefix).display_name() == v.display_name(),
        !is_chat(quit_word(prefix), prefix),
        !remove_id(ids, v.id).contains(v.id),
{
    lemma_command_word(prefix, 'q', 'u', 'i', 't');
    assert(quit_word(prefix)[1] != name_word(prefix)[1]);
    lemma_removed_absent(ids, v.id);
}

/// A command that is neither quit nor name changes nothing and is not
/// broadcast.
pub proof fn lemma_unknown_command(v: SessionView, prefix: char, text: Seq<char>)
    requires
        is_command(text, prefix),
        words(text)[0] != quit_word(prefix),
        words(text)[0] != name_word(prefix),
    ensures
        v.after_text(text, prefix) == v,
        !is_chat(text, prefix),
{
}

} // verus!
