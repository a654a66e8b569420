//! How a line from the Bluetooth task changes the UI state.
//!
//! Lines carry a tag: `PROMPT:`, `DEVICE:<addr>|<name>`, `CONN:`,
//! `CONN_FAIL:`, `DISCONN:`, `DISCONN_FAIL:`, `STATUS:`, `LOG:`; anything else
//! is logged as it is.
use vstd::prelude::*;
use crate::text::{
    has_prefix, after_prefix, split_once, first_word, second_word, trim_seq,
    trim_start_matches_seq, chars_of, match_prefix, string_of, sub_chars, find_char,
    first_word_range, second_word_range, trim_start_matches_from, trim_bounds, concat2,
};
use crate::ui::{devices_view, insert_device_spec, display_name, insert_device_display_name, lemma_insert_device_keeps_invariants};
use crate::ui::model::{UiModel, ModelV, with_log, with_capped_logs, model_wf, capped};
use crate::ui::connections::{table_insert, table_remove, table_set, table_unset, lemma_table_insert, lemma_table_remove};

verus! {

broadcast use crate::ui::model::lemma_model_view;

pub open spec fn with_connections(m: ModelV, c: Seq<(Seq<char>, Seq<char>)>) -> ModelV {
    ModelV { connections: c, ..m }
}

/// `DEVICE:<addr>|<name>`: list the device, log it when new, and make sure a row is highlighted.
pub open spec fn device_update(m: ModelV, body: Seq<char>) -> ModelV {
    let (addr, rest) = split_once(body, '|');
    match rest {
        Some(name) => {
            let (ds, added) = insert_device_spec(m.devices, addr, name);
            let m1 = ModelV { devices: ds, ..m };
            let m2 = if added {
                with_log(m1, "Added device "@ + display_name(name, addr))
            } else {
                m1
            };
            if m2.selected is None {
                ModelV { selected: Some(0), ..m2 }
            } else {
                m2
            }
        },
        None => m,
    }
}

/// The address named in `CONN:Connected to <addr>` / `DISCONN:Disconnected from <addr>`.
pub open spec fn named_address(body: Seq<char>, lead: Seq<char>) -> Option<Seq<char>> {
    first_word(trim_seq(trim_start_matches_seq(body, lead)))
}

/// The address in `Device <addr> ...`, the form failure reports take.
pub open spec fn failed_address(err: Seq<char>) -> Option<Seq<char>> {
    if has_prefix(err, "Device "@) {
        second_word(err)
    } else {
        None
    }
}

pub open spec fn set_status(m: ModelV, a: Option<Seq<char>>, status: Seq<char>) -> ModelV {
    match a {
        Some(a) => with_connections(m, table_insert(m.connections, a, status)),
        None => m,
    }
}

/// What a line other than a prompt does, before the log is capped.
pub open spec fn message_effect(m: ModelV, msg: Seq<char>) -> ModelV {
    if has_prefix(msg, "DEVICE:"@) {
        device_update(m, after_prefix(msg, "DEVICE:"@))
    } else if has_prefix(msg, "CONN:"@) {
        let conn = after_prefix(msg, "CONN:"@);
        with_log(set_status(m, named_address(conn, "Connected to "@), "Connected"@), conn)
    } else if has_prefix(msg, "CONN_FAIL:"@) {
        let err = after_prefix(msg, "CONN_FAIL:"@);
        set_status(
            with_log(m, "Connection failed: "@ + err),
            failed_address(err),
            "Connection failed"@,
        )
    } else if has_prefix(msg, "DISCONN:"@) {
        let d = after_prefix(msg, "DISCONN:"@);
        let m1 = match named_address(d, "Disconnected from "@) {
            Some(a) => with_connections(m, table_remove(m.connections, a)),
            None => m,
        };
        with_log(m1, d)
    } else if has_prefix(msg, "DISCONN_FAIL:"@) {
        let err = after_prefix(msg, "DISCONN_FAIL:"@);
        set_status(
            with_log(m, "Disconnect failed: "@ + err),
            failed_address(err),
            "Disconnect failed"@,
        )
    } else if has_prefix(msg, "STATUS:"@) {
        with_log(m, after_prefix(msg, "STATUS:"@))
    } else if has_prefix(msg, "LOG:"@) {
        with_log(m, after_prefix(msg, "LOG:"@))
    } else {
        with_log(m, msg)
    }
}

/// A line from the Bluetooth task: a prompt is handed to the front end to
/// ask the user; any other line updates the state and the log is capped.
pub open spec fn message_step(m: ModelV, msg: Seq<char>) -> (ModelV, Option<Seq<char>>) {
    if has_prefix(msg, "PROMPT:"@) {
        (m, Some(after_prefix(msg, "PROMPT:"@)))
    } else {
        (with_capped_logs(message_effect(m, msg)), None)
    }
}

/// After the user answered `prompt` with `input`: the answer sent is the
/// trimmed input, and the answer is logged.
pub open spec fn prompt_answer_step(m: ModelV, prompt: Seq<char>, input: Seq<char>) -> (
    ModelV,
    Seq<char>,
) {
    (with_capped_logs(with_log(m, "Answered prompt: "@ + prompt)), trim_seq(input))
}

pub open spec fn opt_view(o: Option<String>) -> Option<Seq<char>> {
    match o {
        Some(s) => Some(s@),
        None => None,
    }
}

/// Every step keeps the state well formed.
pub proof fn lemma_message_step_wf(m: ModelV, msg: Seq<char>)
    requires
        model_wf(m),
    ensures
        model_wf(message_step(m, msg).0),
{
    if has_prefix(msg, "DEVICE:"@) {
        let body = after_prefix(msg, "DEVICE:"@);
        let (addr, rest) = split_once(body, '|');
        if let Some(name) = rest {
            lemma_insert_device_keeps_invariants(m.devices, addr, name);
        }
    } else if has_prefix(msg, "CONN:"@) {
        let conn = after_prefix(msg, "CONN:"@);
        if let Some(a) = named_address(conn, "Connected to "@) {
            lemma_table_insert(m.connections, a, "Connected"@);
        }
    } else if has_prefix(msg, "CONN_FAIL:"@) {
        let err = after_prefix(msg, "CONN_FAIL:"@);
        if let Some(a) = failed_address(err) {
            lemma_table_insert(m.connections, a, "Connection failed"@);
        }
    } else if has_prefix(msg, "DISCONN:"@) {
        let d = after_prefix(msg, "DISCONN:"@);
        if let Some(a) = named_address(d, "Disconnected from "@) {
            lemma_table_remove(m.connections, a);
        }
    } else if has_prefix(msg, "DISCONN_FAIL:"@) {
        let err = after_prefix(msg, "DISCONN_FAIL:"@);
        if let Some(a) = failed_address(err) {
            lemma_table_insert(m.connections, a, "Disconnect failed"@);
        }
    }
}

/// A `PROMPT:` line changes nothing and hands its question to the front end.
pub proof fn lemma_prompt_line(m: ModelV, q: Seq<char>)
    ensures
        message_step(m, "PROMPT:"@ + q) == (m, Some(q)),
{
    reveal_strlit("PROMPT:");
    let line = "PROMPT:"@ + q;
    assert(line.subrange(0, 7) =~= "PROMPT:"@);
    assert(after_prefix(line, "PROMPT:"@) =~= q);
}

/// `STATUS:` and `LOG:` lines log what follows the tag; the log keeps its newest
/// `LOG_CAPACITY` lines and nothing else changes.
pub proof fn lemma_status_and_log_lines(m: ModelV, x: Seq<char>)
    ensures
        message_step(m, "STATUS:"@ + x) == (ModelV { logs: capped(m.logs.push(x)), ..m }, None::<Seq<char>>),
        message_step(m, "LOG:"@ + x) == (ModelV { logs: capped(m.logs.push(x)), ..m }, None::<Seq<char>>),
{
    reveal_strlit("PROMPT:");
    reveal_strlit("DEVICE:");
    reveal_strlit("CONN:");
    reveal_strlit("CONN_FAIL:");
    reveal_strlit("DISCONN:");
    reveal_strlit("DISCONN_FAIL:");
    reveal_strlit("STATUS:");
    reveal_strlit("LOG:");
    let s = "STATUS:"@ + x;
    assert(s[0] == 'S');
    assert(!has_prefix(s, "PROMPT:"@)) by { assert(s.subrange(0, 7)[0] == 'S'); }
    assert(!has_prefix(s, "DEVICE:"@)) by { assert(s.subrange(0, 7)[0] == 'S'); }
    assert(!has_prefix(s, "CONN:"@)) by { assert(s.subrange(0, 5)[0] == 'S'); }
    assert(!has_prefix(s, "CONN_FAIL:"@)) by {
        if s.len() >= 10 {
            assert(s.subrange(0, 10)[0] == 'S');
        }
    }
    assert(!has_prefix(s, "DISCONN:"@)) by {
        if s.len() >= 8 {
            assert(s.subrange(0, 8)[0] == 'S');
        }
    }
    assert(!has_prefix(s, "DISCONN_FAIL:"@)) by {
        if s.len() >= 13 {
            assert(s.subrange(0, 13)[0] == 'S');
        }
    }
    assert(s.subrange(0, 7) =~= "STATUS:"@);
    assert(after_prefix(s, "STATUS:"@) =~= x);
    let l = "LOG:"@ + x;
    assert(!has_prefix(l, "PROMPT:"@)) by {
        if l.len() >= 7 {
            assert(l.subrange(0, 7)[0] == 'L');
        }
    }
    assert(!has_prefix(l, "DEVICE:"@)) by {
        if l.len() >= 7 {
            assert(l.subrange(0, 7)[0] == 'L');
        }
    }
    assert(!has_prefix(l, "CONN:"@)) by {
        if l.len() >= 5 {
            assert(l.subrange(0, 5)[0] == 'L');
        }
    }
    assert(!has_prefix(l, "CONN_FAIL:"@)) by {
        if l.len() >= 10 {
            assert(l.subrange(0, 10)[0] == 'L');
        }
    }
    assert(!has_prefix(l, "DISCONN:"@)) by {
        if l.len() >= 8 {
            assert(l.subrange(0, 8)[0] == 'L');
        }
    }
    assert(!has_prefix(l, "DISCONN_FAIL:"@)) by {
        if l.len() >= 13 {
            assert(l.subrange(0, 13)[0] == 'L');
        }
    }
    assert(!has_prefix(l, "STATUS:"@)) by {
        if l.len() >= 7 {
            assert(l.subrange(0, 7)[0] == 'L');
        }
    }
    assert(l.subrange(0, 4) =~= "LOG:"@);
    assert(after_prefix(l, "LOG:"@) =~= x);
}

/// The address named after `lead` in `v[j..]`.
fn named_address_exec(v: &Vec<char>, j: usize, lead: &str) -> (r: Option<String>)
    requires
        j <= v@.len(),
    ensures
        opt_view(r) == named_address(v@.subrange(j as int, v@.len() as int), lead@),
{
    let k = trim_start_matches_from(v, j, lead);
    let (a, b) = trim_bounds(v, k);
    let w = sub_chars(v, a, b);
    match first_word_range(&w) {
        Some((x, y)) => Some(string_of(&w, x, y)),
        None => None,
    }
}

/// The address in an error of the form `Device <addr> ...`.
fn failed_address_exec(err: &Vec<char>) -> (r: Option<String>)
    ensures
        opt_view(r) == failed_address(err@),
{
    match match_prefix(err, "Device ") {
        Some(_) => match second_word_range(err) {
            Some((x, y)) => Some(string_of(err, x, y)),
            None => None,
        },
        None => None,
    }
}

impl UiModel {
    fn set_status(&mut self, a: Option<String>, status: &str)
        ensures
            final(self)@ == set_status(old(self)@, opt_view(a), status@),
    {
        let ghost before = self@;
        proof {
            use_type_invariant(&*self);
        }
        match a {
            Some(a) => {
                let ghost av = a@;
                proof {
                    lemma_table_insert(before.connections, av, status@);
                }
                let mut table = Vec::new();
                std::mem::swap(&mut table, &mut self.connections);
                table_set(&mut table, a, String::from_str(status));
                self.connections = table;
                assert(self@ =~= with_connections(before, table_insert(before.connections, av, status@)));
            },
            None => {},
        }
    }

    fn device_update(&mut self, body: &Vec<char>)
        ensures
            final(self)@ == device_update(old(self)@, body@),
    {
        let ghost before = self@;
        proof {
            use_type_invariant(&*self);
        }
        let bl = body.len();
        match find_char(body, '|') {
            Some(i) => {
                let addr = string_of(body, 0, i);
                let name = string_of(body, i + 1, bl);
                let ghost (av, nv) = (addr@, name@);
                proof {
                    lemma_insert_device_keeps_invariants(before.devices, av, nv);
                }
                // The highlight rests on the first row while the list is out.
                let sel = self.selected;
                self.selected = Some(0);
                let mut devices = Vec::new();
                std::mem::swap(&mut devices, &mut self.devices);
                let added = insert_device_display_name(&mut devices, addr, name);
                self.devices = devices;
                self.selected = sel;
                if added {
                    let n = self.devices.len();
                    assert(devices_view(self.devices@).len() == n);
                    assert(devices_view(self.devices@)[n - 1] == (av, nv, display_name(nv, av)));
                    assert(self.devices@[n - 1].2@ == display_name(nv, av));
                    let line = concat2("Added device ", self.devices[n - 1].2.as_str());
                    self.push_log(line);
                }
                if self.selected.is_none() {
                    self.selected = Some(0);
                }
                assert(self@ =~= device_update(before, body@));
            },
            None => {},
        }
    }

    /// Apply a line received from the Bluetooth task. A `PROMPT:` line changes
    /// nothing and its question is returned for the front end to ask.
    pub fn handle_message(&mut self, msg: String) -> (r: Option<String>)
        ensures
            (final(self)@, opt_view(r)) == message_step(old(self)@, msg@),
            final(self).wf(),
    {
        let ghost before = self@;
        proof {
            use_type_invariant(&*self);
            lemma_message_step_wf(before, msg@);
        }
        let v = chars_of(msg.as_str());
        let n = v.len();
        if let Some(j) = match_prefix(&v, "PROMPT:") {
            return Some(string_of(&v, j, n));
        }
        if let Some(j) = match_prefix(&v, "DEVICE:") {
            let body = sub_chars(&v, j, n);
            self.device_update(&body);
        } else if let Some(j) = match_prefix(&v, "CONN:") {
            let a = named_address_exec(&v, j, "Connected to ");
            self.set_status(a, "Connected");
            self.push_log(string_of(&v, j, n));
        } else if let Some(j) = match_prefix(&v, "CONN_FAIL:") {
            let err = sub_chars(&v, j, n);
            self.push_log(concat2("Connection failed: ", string_of(&v, j, n).as_str()));
            let a = failed_address_exec(&err);
            self.set_status(a, "Connection failed");
        } else if let Some(j) = match_prefix(&v, "DISCONN:") {
            let a = named_address_exec(&v, j, "Disconnected from ");
            match a {
                Some(a) => {
                    let ghost m0 = self@;
                    proof {
                        use_type_invariant(&*self);
                        lemma_table_remove(m0.connections, a@);
                    }
                    let mut table = Vec::new();
                    std::mem::swap(&mut table, &mut self.connections);
                    table_unset(&mut table, &a);
                    self.connections = table;
                    assert(self@ =~= with_connections(m0, table_remove(m0.connections, a@)));
                },
                None => {},
            }
            self.push_log(string_of(&v, j, n));
        } else if let Some(j) = match_prefix(&v, "DISCONN_FAIL:") {
            let err = sub_chars(&v, j, n);
            self.push_log(concat2("Disconnect failed: ", string_of(&v, j, n).as_str()));
            let a = failed_address_exec(&err);
            self.set_status(a, "Disconnect failed");
        } else if let Some(j) = match_prefix(&v, "STATUS:") {
            self.push_log(string_of(&v, j, n));
        } else if let Some(j) = match_prefix(&v, "LOG:") {
            self.push_log(string_of(&v, j, n));
        } else {
            self.push_log(msg);
        }
        self.cap_logs();
        None
    }

    /// Record the user's answer to `prompt`; returns the answer to send (the trimmed input).
    pub fn answer_prompt(&mut self, prompt: &str, input: &str) -> (answer: String)
        ensures
            (final(self)@, answer@) == prompt_answer_step(old(self)@, prompt@, input@),
            final(self).wf(),
    {
        proof {
            use_type_invariant(&*self);
        }
        let answer = crate::text::trim(input);
        self.push_log(concat2("Answered prompt: ", prompt));
        self.cap_logs();
        answer
    }
}

} // verus!
