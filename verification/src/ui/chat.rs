//! What the chat screen shows.
use vstd::prelude::*;
use crate::text::{concat2, push_str, push_char};
use crate::ui::{display_name, format_display_name};
use crate::ui::model::pairs_view;

verus! {

/// The header line: peer, address and current channel.
pub fn messaging_header(name: &str, addr: &str, channel: &str) -> (s: String)
    ensures
        s@ == "Connected to "@ + display_name(name@, addr@) + " | Channel: "@ + channel@,
{
    let mut s = concat2("Connected to ", format_display_name(name, addr).as_str());
    push_str(&mut s, " | Channel: ");
    push_str(&mut s, channel);
    s
}

/// One message as shown: `sender: text`.
pub open spec fn message_line(m: (Seq<char>, Seq<char>)) -> Seq<char> {
    m.0 + seq![':', ' '] + m.1
}

/// The messages, one per line (`join("\n")`).
pub open spec fn messages_text_spec(ms: Seq<(Seq<char>, Seq<char>)>) -> Seq<char>
    decreases ms.len(),
{
    if ms.len() == 0 {
        Seq::empty()
    } else if ms.len() == 1 {
        message_line(ms[0])
    } else {
        messages_text_spec(ms.drop_last()) + seq!['\n'] + message_line(ms.last())
    }
}

/// The text of the message pane.
pub fn messages_text(messages: &Vec<(String, String)>) -> (s: String)
    ensures
        s@ == messages_text_spec(pairs_view(messages@)),
{
    let ghost mv = pairs_view(messages@);
    let n = messages.len();
    let mut s = String::new();
    let mut i: usize = 0;
    while i < n
        invariant
            n == messages@.len(),
            mv == pairs_view(messages@),
            i <= n,
            s@ == messages_text_spec(mv.subrange(0, i as int)),
        decreases n - i,
    {
        if i > 0 {
            push_char(&mut s, '\n');
        }
        push_str(&mut s, messages[i].0.as_str());
        push_char(&mut s, ':');
        push_char(&mut s, ' ');
        push_str(&mut s, messages[i].1.as_str());
        proof {
            let p = mv.subrange(0, i + 1);
            assert(p.drop_last() =~= mv.subrange(0, i as int));
            assert(p.last() == mv[i as int]);
        }
        assert(s@ =~= messages_text_spec(mv.subrange(0, i + 1)));
        i = i + 1;
    }
    assert(mv.subrange(0, n as int) =~= mv);
    s
}

} // verus!
