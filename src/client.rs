//! What a chat client decides: which received lines to show, and what to
//! send for a line the user typed.

use vstd::prelude::*;
use vstd::string::*;
use crate::config::{trim, trim_range};
use crate::frame::{decode, strip_padding};
use crate::session::frame_text;
use crate::text::{chars_of, push_char, string_of};

verus! {

/// `s` starts with `pat`.
pub open spec fn starts_with(s: Seq<char>, pat: Seq<char>) -> bool {
    pat.len() <= s.len() && s.subrange(0, pat.len() as int) == pat
}

/// How a line from the user's own name starts.
pub open spec fn own_tag(user: Seq<char>) -> Seq<char> {
    user + seq![':', ' ']
}

/// Whether `pat` occurs in `s` at position `i`.
fn run_at(s: &Vec<char>, pat: &Vec<char>, i: usize) -> (r: bool)
    requires
        i + pat@.len() <= s@.len(),
    ensures
        r == (s@.subrange(i as int, i + pat@.len()) == pat@),
{
    let n = s.len();
    let mut j: usize = 0;
    while j < pat.len()
        invariant
            j <= pat@.len(),
            n == s@.len(),
            i + pat@.len() <= s@.len(),
            s@.subrange(i as int, i + j) == pat@.subrange(0, j as int),
        decreases pat@.len() - j,
    {
        if s[i + j] != pat[j] {
            assert(s@.subrange(i as int, i + pat@.len())[j as int] != pat@[j as int]);
            return false;
        }
        j = j + 1;
        assert(s@.subrange(i as int, i + j) =~= pat@.subrange(0, j as int));
    }
    assert(s@.subrange(i as int, i + pat@.len()) =~= pat@);
    true
}

/// The text of a received frame that the client shows: one that reads as
/// UTF-8, is not empty and does not start with `user: `, so that the
/// user's own lines are not echoed back.
pub fn message_to_show(buffer: &[u8], user: &str) -> (r: Option<String>)
    ensures
        r is Some <==> (frame_text(buffer@) is Some && frame_text(buffer@)->0.len() > 0
            && !starts_with(frame_text(buffer@)->0, own_tag(user@))),
        r is Some ==> r->0@ == frame_text(buffer@)->0,
{
    match decode(buffer) {
        Err(_) => None,
        Ok(text) => {
            let cs = chars_of(text.as_str());
            let mut tag = chars_of(user);
            tag.push(':');
            tag.push(' ');
            assert(tag@ =~= own_tag(user@));
            if cs.len() == 0 || (tag.len() <= cs.len() && run_at(&cs, &tag, 0)) {
                None
            } else {
                Some(text)
            }
        },
    }
}

/// The command that sets the user's name: `<prefix>name <user>`.
pub fn name_command(user: &str, prefix: char) -> (r: String)
    ensures
        r@ == seq![prefix, 'n', 'a', 'm', 'e', ' '] + user@,
{
    let mut out = String::new();
    push_char(&mut out, prefix);
    push_char(&mut out, 'n');
    push_char(&mut out, 'a');
    push_char(&mut out, 'm');
    push_char(&mut out, 'e');
    push_char(&mut out, ' ');
    out.append(user);
    assert(out@ =~= seq![prefix, 'n', 'a', 'm', 'e', ' '] + user@);
    out
}

/// What to send for a typed line: the line trimmed, and whether it is the
/// quit command, after which the client stops reading input.
pub fn outgoing_line(input: &str, prefix: char) -> (r: (String, bool))
    ensures
        r.0@ == trim(input@),
        r.1 == (trim(input@) == seq![prefix, 'q', 'u', 'i', 't']),
{
    let cs = chars_of(input);
    let t = trim_range(&cs, 0, cs.len());
    assert(cs@.subrange(0, cs@.len() as int) =~= input@);
    let quit = t.len() == 5 && t[0] == prefix && t[1] == 'q' && t[2] == 'u' && t[3] == 'i'
        && t[4] == 't';
    if quit {
        assert(t@ =~= seq![prefix, 'q', 'u', 'i', 't']);
    }
    (string_of(&t), quit)
}

} // verus!
