//! The lines the Bluetooth task and the UI exchange mean on the receiving side
//! what the sending side meant.
use vstd::prelude::*;
use crate::text::{
    has_prefix, after_prefix, trim_start_seq, trim_end_seq, trim_start_matches_seq,
    split_once, is_ws, lemma_first_index_at, lemma_word_len_at,
};
use crate::bluetooth::{
    Address, address_text, address_char, lemma_address_text_chars, device_line_spec, command_spec,
    CommandV, PlanV, Op, plan_spec, parsed_address, command_argument, request_notice,
    lemma_address_round_trip,
};
use crate::bluetooth::connection::{connected_line_spec, disconnected_line_spec};
use crate::ui::insert_device_spec;
use crate::ui::model::ModelV;
use crate::ui::messages::{message_step, named_address};
use crate::ui::connections::{as_map, keys_unique, lemma_table_insert, lemma_table_remove};

verus! {

/// No address character is whitespace or `|`.
proof fn lemma_address_chars_plain(a: Address)
    ensures
        address_text(a@).len() == 17,
        forall|i: int| 0 <= i < 17 ==> !is_ws(#[trigger] address_text(a@)[i]) && address_text(a@)[i] != '|',
        address_text(a@)[1] != 'o',
        address_text(a@)[0] != 'c' && address_text(a@)[0] != 'd',
{
    lemma_address_text_chars(a);
    assert forall|i: int| 0 <= i < 17 implies !is_ws(#[trigger] address_text(a@)[i]) && address_text(a@)[i] != '|' by {
        assert(address_char(address_text(a@)[i]));
    }
    assert(address_char(address_text(a@)[1]));
    assert(address_char(address_text(a@)[0]));
}

/// An address is its own first word, once any leading `lead` (which it does not start with) is dropped.
proof fn lemma_address_is_named(a: Address, lead: Seq<char>)
    requires
        lead.len() > 1,
        !address_char(lead[1]),
    ensures
        named_address(lead + address_text(a@), lead) == Some(address_text(a@)),
{
    let t = address_text(a@);
    lemma_address_chars_plain(a);
    let s = lead + t;
    assert(s.subrange(0, lead.len() as int) =~= lead);
    assert(after_prefix(s, lead) =~= t);
    lemma_address_text_chars(a);
    assert(!has_prefix(t, lead)) by {
        if lead.len() <= t.len() {
            assert(t.subrange(0, lead.len() as int)[1] == t[1]);
            assert(address_char(t[1]));
        }
    }
    assert(trim_start_matches_seq(t, lead) == t);
    assert(trim_start_matches_seq(s, lead) == trim_start_matches_seq(t, lead));
    assert(trim_start_seq(t) == t);
    assert(trim_end_seq(t) == t);
    lemma_word_len_at(t, 0, 17);
    assert(t.subrange(0, 17) =~= t);
}

/// `DEVICE:<addr>|<name>` from the Bluetooth task lists the device under that address in the UI.
pub proof fn lemma_device_line_understood(m: ModelV, a: Address, name: Seq<char>)
    ensures
        message_step(m, device_line_spec(address_text(a@), name)).1 is None,
        message_step(m, device_line_spec(address_text(a@), name)).0.devices == insert_device_spec(
            m.devices,
            address_text(a@),
            name,
        ).0,
{
    let t = address_text(a@);
    let line = device_line_spec(t, name);
    lemma_address_chars_plain(a);
    reveal_strlit("DEVICE:");
    reveal_strlit("PROMPT:");
    assert(!has_prefix(line, "PROMPT:"@)) by {
        assert(line.subrange(0, 7)[0] == 'D');
    }
    assert(line.subrange(0, 7) =~= "DEVICE:"@);
    let body = after_prefix(line, "DEVICE:"@);
    assert(body =~= t + seq!['|'] + name);
    assert forall|k: int| 0 <= k < 17 implies #[trigger] body[k] != '|' by {
        assert(body[k] == t[k]);
    }
    lemma_first_index_at(body, '|', 0, 17);
    assert(body.subrange(0, body.len() as int) =~= body);
    assert(body.subrange(0, 17) =~= t);
    assert(body.subrange(18, body.len() as int) =~= name);
    assert(split_once(body, '|') == (t, Some(name)));
}

/// `CONN:Connected to <addr>` records the device as connected.
pub proof fn lemma_connected_line_understood(m: ModelV, a: Address)
    requires
        keys_unique(m.connections),
    ensures
        message_step(m, connected_line_spec(address_text(a@))).1 is None,
        as_map(message_step(m, connected_line_spec(address_text(a@))).0.connections) == as_map(
            m.connections,
        ).insert(address_text(a@), "Connected"@),
{
    let t = address_text(a@);
    let line = connected_line_spec(t);
    reveal_strlit("CONN:Connected to ");
    reveal_strlit("CONN:");
    reveal_strlit("Connected to ");
    reveal_strlit("DEVICE:");
    reveal_strlit("PROMPT:");
    assert(!has_prefix(line, "PROMPT:"@)) by {
        assert(line.subrange(0, 7)[0] == 'C');
    }
    assert(!has_prefix(line, "DEVICE:"@)) by {
        assert(line.subrange(0, 7)[0] == 'C');
    }
    assert(line.subrange(0, 5) =~= "CONN:"@);
    assert(after_prefix(line, "CONN:"@) =~= "Connected to "@ + t);
    lemma_address_is_named(a, "Connected to "@);
    lemma_table_insert(m.connections, t, "Connected"@);
}

/// `DISCONN:Disconnected from <addr>` forgets the device's connection status.
pub proof fn lemma_disconnected_line_understood(m: ModelV, a: Address)
    requires
        keys_unique(m.connections),
    ensures
        message_step(m, disconnected_line_spec(address_text(a@))).1 is None,
        as_map(message_step(m, disconnected_line_spec(address_text(a@))).0.connections) == as_map(
            m.connections,
        ).remove(address_text(a@)),
{
    let t = address_text(a@);
    let line = disconnected_line_spec(t);
    reveal_strlit("DISCONN:Disconnected from ");
    reveal_strlit("DISCONN:");
    reveal_strlit("Disconnected from ");
    reveal_strlit("CONN:");
    reveal_strlit("CONN_FAIL:");
    reveal_strlit("DEVICE:");
    reveal_strlit("PROMPT:");
    assert(!has_prefix(line, "PROMPT:"@)) by {
        assert(line.subrange(0, 7)[0] == 'D');
    }
    assert(!has_prefix(line, "DEVICE:"@)) by {
        assert(line.subrange(0, 7)[1] == 'I');
    }
    assert(!has_prefix(line, "CONN:"@)) by {
        assert(line.subrange(0, 5)[0] == 'D');
    }
    assert(!has_prefix(line, "CONN_FAIL:"@)) by {
        assert(line.subrange(0, 10)[0] == 'D');
    }
    assert(line.subrange(0, 8) =~= "DISCONN:"@);
    assert(after_prefix(line, "DISCONN:"@) =~= "Disconnected from "@ + t);
    lemma_address_is_named(a, "Disconnected from "@);
    lemma_table_remove(m.connections, t);
}

/// The command the UI sends to connect a listed device is read back with that device's address.
pub proof fn lemma_connect_command_understood(a: Address)
    ensures
        command_spec("connect "@ + address_text(a@)) == CommandV::Connect(address_text(a@)),
{
    let t = address_text(a@);
    let c = "connect "@ + t;
    lemma_address_chars_plain(a);
    reveal_strlit("connect ");
    reveal_strlit("refresh");
    assert(c.len() != "refresh"@.len());
    assert(c.subrange(0, 8) =~= "connect "@);
    assert(after_prefix(c, "connect "@) =~= t);
    assert(!has_prefix(t, "connect "@)) by {
        assert(t.subrange(0, 8)[0] == t[0]);
    }
    assert(trim_start_matches_seq(t, "connect "@) == t);
    assert(trim_start_matches_seq(c, "connect "@) == t);
    assert(trim_start_seq(t) == t);
    assert(trim_end_seq(t) == t);
}

/// The command the UI sends to disconnect a listed device is read back with that device's address.
pub proof fn lemma_disconnect_command_understood(a: Address)
    ensures
        command_spec("disconnect "@ + address_text(a@)) == CommandV::Disconnect(address_text(a@)),
{
    let t = address_text(a@);
    let c = "disconnect "@ + t;
    lemma_address_chars_plain(a);
    reveal_strlit("disconnect ");
    reveal_strlit("connect ");
    reveal_strlit("refresh");
    assert(c.len() != "refresh"@.len());
    assert(!has_prefix(c, "connect "@)) by {
        assert(c.subrange(0, 8)[0] == 'd');
    }
    assert(c.subrange(0, 11) =~= "disconnect "@);
    assert(after_prefix(c, "disconnect "@) =~= t);
    assert(!has_prefix(t, "disconnect "@)) by {
        assert(t.subrange(0, 11)[0] == t[0]);
    }
    assert(trim_start_matches_seq(t, "disconnect "@) == t);
    assert(trim_start_matches_seq(c, "disconnect "@) == t);
    assert(trim_start_seq(t) == t);
    assert(trim_end_seq(t) == t);
}

/// The Bluetooth task starts connecting to exactly the device whose address the UI's command names.
pub proof fn lemma_connect_command_planned(a: Address)
    ensures
        ({
            let c = command_spec("connect "@ + address_text(a@));
            plan_spec(c, parsed_address(command_argument(c))) == PlanV::Start {
                op: Op::Connect,
                addr: a@,
                notice: request_notice(Op::Connect, a@),
            }
        }),
{
    lemma_connect_command_understood(a);
    lemma_address_round_trip(a);
}

/// The Bluetooth task starts disconnecting exactly the device whose address the UI's command names.
pub proof fn lemma_disconnect_command_planned(a: Address)
    ensures
        ({
            let c = command_spec("disconnect "@ + address_text(a@));
            plan_spec(c, parsed_address(command_argument(c))) == PlanV::Start {
                op: Op::Disconnect,
                addr: a@,
                notice: request_notice(Op::Disconnect, a@),
            }
        }),
{
    lemma_disconnect_command_understood(a);
    lemma_address_round_trip(a);
}

} // verus!
