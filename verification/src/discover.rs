//! Keeping payloads as they come, to see what they look like.

use vstd::prelude::*;
use vstd::string::StringExecFns;

use crate::feed::{decode_lossy, text_of_bytes};
use crate::json::{Json, JsonView};
use crate::state::text_view;
use crate::text::{decimal, push_decimal};
use crate::wire::{parse_bytes, pretty, pretty_text, read_view, slice_reads};

verus! {

/// A payload to keep.
pub struct Dump {
    /// The event that it reports.
    pub event: String,
    /// What to keep of it.
    pub text: String,
    /// Why it is no JSON, where it is none.
    pub problem: Option<String>,
}

/// The event to file a payload under that reads so.
pub open spec fn dump_event(read: Result<JsonView, Seq<char>>) -> Seq<char> {
    match read {
        Ok(v) => match v.at("hook_event_name"@).as_str() {
            Some(s) => s,
            None => "unknown"@,
        },
        Err(_) => "invalid"@,
    }
}

/// What to keep of a payload that reads so: the indented JSON, or the bytes as they are.
pub open spec fn dump_text(read: Result<JsonView, Seq<char>>, raw: Seq<char>) -> Seq<char> {
    match read {
        Ok(v) => pretty_text(v),
        Err(_) => raw,
    }
}

/// Why a payload that reads so is no JSON.
pub open spec fn dump_problem(read: Result<JsonView, Seq<char>>) -> Option<Seq<char>> {
    match read {
        Ok(_) => None,
        Err(e) => Some(e),
    }
}

/// What to keep of a payload, from what reading it gave and from its bytes as text.
pub fn dump_of(read: Result<Json, String>, raw: String) -> (r: Dump)
    ensures
        r.event@ == dump_event(read_view(read)),
        r.text@ == dump_text(read_view(read), raw@),
        text_view(r.problem) == dump_problem(read_view(read)),
{
    match read {
        Ok(v) => {
            let event: String = match v.get("hook_event_name") {
                Some(m) => match m.as_str() {
                    Some(s) => s.to_owned(),
                    None => "unknown".to_owned(),
                },
                None => "unknown".to_owned(),
            };
            let text: String = match pretty(v) {
                Ok(s) => s,
                Err(_) => String::new(),
            };
            Dump { event, text, problem: None }
        },
        Err(e) => Dump { event: "invalid".to_owned(), text: raw, problem: Some(e) },
    }
}

/// What to keep of the body of a hook request.
pub fn dump(body: &[u8]) -> (r: Dump)
    ensures
        r.event@ == dump_event(slice_reads(body@)),
        r.text@ == dump_text(slice_reads(body@), text_of_bytes(body@)),
        text_view(r.problem) == dump_problem(slice_reads(body@)),
{
    dump_of(parse_bytes(body), decode_lossy(body))
}

/// A number with at least four digits.
pub open spec fn four_digits(n: nat) -> Seq<char> {
    if n < 10 {
        "000"@ + decimal(n)
    } else if n < 100 {
        "00"@ + decimal(n)
    } else if n < 1000 {
        "0"@ + decimal(n)
    } else {
        decimal(n)
    }
}

/// The name of the file that keeps a payload.
pub open spec fn file_name(event: Seq<char>, n: nat) -> Seq<char> {
    event + "-"@ + four_digits(n) + ".json"@
}

/// The name of the file that keeps a payload.
pub fn dump_file(event: &str, seq: u64) -> (r: String)
    ensures
        r@ == file_name(event@, seq as nat),
        r@ == event@ + "-"@ + four_digits(seq as nat) + ".json"@,
{
    let mut name: String = event.to_owned();
    name.append("-");
    if seq < 10 {
        name.append("000");
    } else if seq < 100 {
        name.append("00");
    } else if seq < 1000 {
        name.append("0");
    }
    push_decimal(&mut name, seq);
    name.append(".json");
    assert(name@ =~= event@ + "-"@ + four_digits(seq as nat) + ".json"@);
    name
}

} // verus!
