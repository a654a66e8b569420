//! Pairing prompts: the questions the pairing agent forwards and how answers are read.
use vstd::prelude::*;
use crate::text::{parse_u32_seq, trim_seq, decimal_digits, decimal_value, all_digits, is_ascii_digit, is_ws, digit_char, trim, parse_u32, concat2, lemma_decimal_value_push, trim_start_seq, trim_end_seq};

verus! {

/// What the device asks for during pairing.
#[derive(Clone, Copy, PartialEq, Eq, Structural, Debug)]
pub enum PromptKind {
    /// A PIN code, any text.
    Pin,
    /// A numeric passkey.
    Passkey,
}

/// The question shown for a request, `request` being the request as the agent prints it.
pub open spec fn prompt_text_spec(kind: PromptKind, request: Seq<char>) -> Seq<char> {
    match kind {
        PromptKind::Pin => "Device "@ + request + " is requesting a PIN."@,
        PromptKind::Passkey => "Device "@ + request + " is requesting a Passkey (numeric PIN)."@,
    }
}

/// The question forwarded to the user.
pub fn prompt_text(kind: PromptKind, request: &str) -> (s: String)
    ensures
        s@ == prompt_text_spec(kind, request@),
{
    let head = concat2("Device ", request);
    match kind {
        PromptKind::Pin => concat2(head.as_str(), " is requesting a PIN."),
        PromptKind::Passkey => concat2(head.as_str(), " is requesting a Passkey (numeric PIN)."),
    }
}

/// The line asking the UI to prompt the user: `PROMPT:<question>`.
pub fn prompt_line(question: &str) -> (s: String)
    ensures
        s@ == "PROMPT:"@ + question@,
{
    concat2("PROMPT:", question)
}

/// The PIN sent to the device: the answer, trimmed.
pub fn pin_from_answer(answer: &str) -> (pin: String)
    ensures
        pin@ == trim_seq(answer@),
{
    trim(answer)
}

/// The passkey in an answer: the trimmed answer read as a `u32`.
pub fn passkey_from_answer(answer: &str) -> (pk: Option<u32>)
    ensures
        pk == parse_u32_seq(trim_seq(answer@)),
{
    let t = trim(answer);
    parse_u32(t.as_str())
}

/// The passkey typed at the terminal; `0` when the line is not a number.
pub fn passkey_or_zero(line: &str) -> (pk: u32)
    ensures
        pk == match parse_u32_seq(trim_seq(line@)) {
            Some(v) => v,
            None => 0,
        },
{
    match passkey_from_answer(line) {
        Some(v) => v,
        None => 0,
    }
}

proof fn lemma_decimal_digits(n: nat)
    ensures
        decimal_digits(n).len() > 0,
        all_digits(decimal_digits(n)),
        decimal_value(decimal_digits(n)) == n,
    decreases n,
{
    if n >= 10 {
        lemma_decimal_digits(n / 10);
        let d = decimal_digits(n / 10);
        let c = digit_char(n % 10);
        assert((c as u32) == n % 10 + 0x30);
        lemma_decimal_value_push(d, c);
        assert(n == (n / 10) * 10 + n % 10) by (nonlinear_arith);
        assert(decimal_digits(n) == d.push(c));
        assert(decimal_value(d.push(c)) == decimal_value(d) * 10 + ((c as u32) - 0x30) as nat);
        assert(decimal_value(d.push(c)) == n);
        assert forall|i: int| 0 <= i < d.push(c).len() implies is_ascii_digit(#[trigger] d.push(c)[i]) by {
            if i < d.len() {
                assert(d.push(c)[i] == d[i]);
            }
        }
    } else {
        let s = decimal_digits(n);
        assert((digit_char(n) as u32) == n + 0x30);
        assert(s.drop_last() =~= Seq::<char>::empty());
        assert(decimal_value(s.drop_last()) == 0);
        assert(decimal_value(s) == n);
    }
}

/// A passkey typed as its decimal digits is read back as that passkey.
pub proof fn lemma_passkey_roundtrip(n: u32)
    ensures
        parse_u32_seq(trim_seq(decimal_digits(n as nat))) == Some(n),
{
    let s = decimal_digits(n as nat);
    lemma_decimal_digits(n as nat);
    assert(is_ascii_digit(s[0]));
    assert(!is_ws(s[0]));
    assert(trim_start_seq(s) == s);
    assert(is_ascii_digit(s.last()));
    assert(trim_end_seq(s) == s);
}

} // verus!
