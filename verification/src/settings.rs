//! The hook entries in the coding agent's settings file.

use vstd::prelude::*;
use vstd::string::StringExecFns;

use crate::json::{
    add_member, array_view, lemma_array_push, lemma_array_view, number_from, object_view,
    take_member, Json, JsonView,
};
use crate::text::{contains_str, occurs};
use crate::wire::{
    lemma_plain_deeper, lemma_plain_insert, lemma_plain_member, lemma_plain_name, parse_text, plain,
    plain_name, pretty, pretty_text, read_view, reads_as, str_reads,
};

verus! {

/// Where the daemon takes hook events.
pub const HOOK_URL: &'static str = "http://127.0.0.1:4747/hook";

/// A hook that reports to the daemon, by its address or in its command.
pub open spec fn reports_to_us(hook: JsonView) -> bool {
    ||| hook.at("url"@).as_str() matches Some(url) && occurs(url, HOOK_URL@)
    ||| hook.at("command"@).as_str() matches Some(command) && occurs(command, HOOK_URL@)
}

/// An entry with a hook that reports to the daemon.
pub open spec fn is_ours(entry: JsonView) -> bool {
    entry.at("hooks"@).as_array() matches Some(hooks) && exists|i: int|
        0 <= i < hooks.len() && reports_to_us(#[trigger] hooks[i])
}

/// The hooks of other tools, in their order.
pub open spec fn others(hooks: Seq<JsonView>) -> Seq<JsonView> {
    hooks.filter(|hook: JsonView| !reports_to_us(hook))
}

/// What stays of an entry: all of it where it has no hook of ours; otherwise its other hooks, with
/// its other members, and nothing where there are no other hooks.
pub open spec fn kept(entry: JsonView) -> Option<JsonView> {
    if is_ours(entry) {
        let left = others(entry.at("hooks"@)->Array_0);
        if left.len() == 0 {
            None
        } else {
            Some(JsonView::Object(entry->Object_0.insert("hooks"@, JsonView::Array(left))))
        }
    } else {
        Some(entry)
    }
}

/// What stays of the entries, in their order.
pub open spec fn foreign(entries: Seq<JsonView>) -> Seq<JsonView>
    decreases entries.len(),
{
    if entries.len() == 0 {
        entries
    } else {
        let before = foreign(entries.drop_last());
        match kept(entries.last()) {
            Some(entry) => before.push(entry),
            None => before,
        }
    }
}

/// How many events there are entries for.
pub open spec fn event_count() -> int {
    10
}

/// The events that there are entries for, in the order of their installation.
pub open spec fn event_name(i: int) -> Seq<char> {
    if i == 0 {
        "SubagentStart"@
    } else if i == 1 {
        "SubagentStop"@
    } else if i == 2 {
        "UserPromptSubmit"@
    } else if i == 3 {
        "Stop"@
    } else if i == 4 {
        "StopFailure"@
    } else if i == 5 {
        "Notification"@
    } else if i == 6 {
        "PostToolUse"@
    } else if i == 7 {
        "PreToolUse"@
    } else if i == 8 {
        "SessionEnd"@
    } else {
        "SessionStart"@
    }
}

/// The two events of tools are wanted for the tool that launches subagents alone.
pub open spec fn event_matcher(i: int) -> Option<Seq<char>> {
    if i == 6 || i == 7 {
        Some("Agent"@)
    } else {
        None
    }
}

/// The command that passes the start of a session on, which no address can be given for.
pub open spec fn start_command() -> Seq<char> {
    "curl -s --max-time 1 -X POST -H 'Content-Type: application/json' --data-binary @- "@ + HOOK_URL@
        + " > /dev/null 2>&1; exit 0"@
}

/// The hook of an event.
pub open spec fn event_hook(i: int) -> JsonView {
    let timeout = JsonView::Number(number_from(5));
    JsonView::Object(
        if i < 9 {
            Map::empty().insert("type"@, JsonView::Str("http"@)).insert(
                "url"@,
                JsonView::Str(HOOK_URL@),
            ).insert("timeout"@, timeout)
        } else {
            Map::empty().insert("type"@, JsonView::Str("command"@)).insert(
                "command"@,
                JsonView::Str(start_command()),
            ).insert("timeout"@, timeout)
        },
    )
}

/// The entry of an event.
pub open spec fn event_entry(i: int) -> JsonView {
    let plain = Map::empty().insert("hooks"@, JsonView::Array(seq![event_hook(i)]));
    JsonView::Object(
        match event_matcher(i) {
            Some(m) => plain.insert("matcher"@, JsonView::Str(m)),
            None => plain,
        },
    )
}

/// The entries of an event, where they are a list or there are none yet.
pub open spec fn entries_of(hooks: Map<Seq<char>, JsonView>, event: Seq<char>) -> Option<
    Seq<JsonView>,
> {
    if hooks.contains_key(event) {
        hooks[event].as_array()
    } else {
        Some(Seq::empty())
    }
}

/// The hooks once the entry of an event is in: what stays of its entries, then ours.
pub open spec fn with_event(hooks: Map<Seq<char>, JsonView>, i: int) -> Map<Seq<char>, JsonView> {
    hooks.insert(
        event_name(i),
        JsonView::Array(foreign(entries_of(hooks, event_name(i))->0).push(event_entry(i))),
    )
}

/// The hooks once the entries of the first `n` events are in.
pub open spec fn with_events(hooks: Map<Seq<char>, JsonView>, n: int) -> Map<Seq<char>, JsonView>
    decreases n,
{
    if n <= 0 {
        hooks
    } else {
        with_event(with_events(hooks, n - 1), n - 1)
    }
}

/// The first `n` events have lists of entries, or none yet.
pub open spec fn lists_upto(hooks: Map<Seq<char>, JsonView>, n: int) -> bool {
    forall|i: int| 0 <= i < n ==> entries_of(hooks, #[trigger] event_name(i)) is Some
}

/// The hooks that a settings object has, none where it does not say.
pub open spec fn hooks_of(settings: Map<Seq<char>, JsonView>) -> JsonView {
    if settings.contains_key("hooks"@) {
        settings["hooks"@]
    } else {
        JsonView::Object(Map::empty())
    }
}

/// The settings with the first `n` entries in.
pub open spec fn settings_with(settings: Map<Seq<char>, JsonView>, n: int) -> JsonView {
    JsonView::Object(
        settings.insert("hooks"@, JsonView::Object(with_events(hooks_of(settings)->Object_0, n))),
    )
}

/// What is said of an event whose entries are no list.
pub open spec fn no_list(event: Seq<char>) -> Seq<char> {
    "hooks."@ + event + " is not an array"@
}

/// What the installation makes of the settings, and how it ends. It stops at the first event
/// whose entries are no list; the events before that one have their entry by then.
pub open spec fn merges(
    before: JsonView,
    after: JsonView,
    result: Result<(), Seq<char>>,
) -> bool {
    match before {
        JsonView::Object(settings) => match hooks_of(settings) {
            JsonView::Object(hooks) => if lists_upto(hooks, event_count()) {
                after == settings_with(settings, event_count()) && result == Ok::<(), Seq<char>>(())
            } else {
                exists|n: int|
                    {
                        &&& 0 <= n < event_count()
                        &&& lists_upto(hooks, n)
                        &&& entries_of(hooks, #[trigger] event_name(n)) is None
                        &&& after == settings_with(settings, n)
                        &&& result == Err::<(), Seq<char>>(no_list(event_name(n)))
                    }
            },
            _ => after == before && result == Err::<(), Seq<char>>(
                "settings.json \"hooks\" is not an object"@,
            ),
        },
        _ => after == before && result == Err::<(), Seq<char>>(
            "settings.json is not a JSON object"@,
        ),
    }
}

/// Each event is listed once.
pub proof fn lemma_event_names_differ(i: int, j: int)
    requires
        0 <= i < event_count(),
        0 <= j < event_count(),
        i != j,
    ensures
        event_name(i) != event_name(j),
{
    reveal_strlit("SubagentStart");
    reveal_strlit("SubagentStop");
    reveal_strlit("UserPromptSubmit");
    reveal_strlit("Stop");
    reveal_strlit("StopFailure");
    reveal_strlit("Notification");
    reveal_strlit("PostToolUse");
    reveal_strlit("PreToolUse");
    reveal_strlit("SessionEnd");
    reveal_strlit("SessionStart");
    assert("SubagentStart"@.len() == 13 && "SubagentStop"@.len() == 12);
    assert("UserPromptSubmit"@.len() == 16 && "Stop"@.len() == 4);
    assert("StopFailure"@.len() == 11 && "Notification"@.len() == 12);
    assert("PostToolUse"@.len() == 11 && "PreToolUse"@.len() == 10);
    assert("SessionEnd"@.len() == 10 && "SessionStart"@.len() == 12);
    assert("SubagentStop"@[1] == 'u' && "SessionStart"@[1] == 'e' && "Notification"@[0] == 'N');
    assert("SubagentStop"@[0] == 'S' && "SessionStart"@[0] == 'S');
    assert("StopFailure"@[0] == 'S' && "PostToolUse"@[0] == 'P');
    assert("PreToolUse"@[0] == 'P' && "SessionEnd"@[0] == 'S');
}

/// The entries of an event are as they were as long as its turn has not come.
pub proof fn lemma_entries_wait(hooks: Map<Seq<char>, JsonView>, n: int, k: int)
    requires
        0 <= n <= k < event_count(),
    ensures
        entries_of(with_events(hooks, n), event_name(k)) == entries_of(hooks, event_name(k)),
    decreases n,
{
    if n > 0 {
        lemma_entries_wait(hooks, n - 1, k);
        lemma_event_names_differ(n - 1, k);
    }
}

/// The names of the events and of what an entry is made of are plain.
proof fn lemma_names_are_plain(i: int)
    ensures
        plain_name(event_name(i)),
        plain_name("type"@),
        plain_name("url"@),
        plain_name("command"@),
        plain_name("timeout"@),
        plain_name("hooks"@),
        plain_name("matcher"@),
{
    reveal_strlit("SubagentStart");
    reveal_strlit("SubagentStop");
    reveal_strlit("UserPromptSubmit");
    reveal_strlit("Stop");
    reveal_strlit("StopFailure");
    reveal_strlit("Notification");
    reveal_strlit("PostToolUse");
    reveal_strlit("PreToolUse");
    reveal_strlit("SessionEnd");
    reveal_strlit("SessionStart");
    reveal_strlit("type");
    reveal_strlit("url");
    reveal_strlit("command");
    reveal_strlit("timeout");
    reveal_strlit("hooks");
    reveal_strlit("matcher");
    lemma_plain_name(event_name(i));
    lemma_plain_name("type"@);
    lemma_plain_name("url"@);
    lemma_plain_name("command"@);
    lemma_plain_name("timeout"@);
    lemma_plain_name("hooks"@);
    lemma_plain_name("matcher"@);
}

/// What stays of an entry is as plain as the entry.
proof fn lemma_kept_plain(entry: JsonView, d: nat)
    requires
        plain(entry, d),
        kept(entry) is Some,
    ensures
        plain(kept(entry)->0, d),
{
    if is_ours(entry) {
        let members = entry->Object_0;
        let hooks = entry.at("hooks"@)->Array_0;
        let left = others(hooks);
        reveal_with_fuel(plain, 3);
        lemma_names_are_plain(0);
        assert(members.contains_key("hooks"@));
        assert(plain(members["hooks"@], (d - 1) as nat));
        assert forall|i: int| 0 <= i < left.len() implies plain(
            #[trigger] left[i],
            (d - 2) as nat,
        ) by {
            assert(left.contains(left[i]));
            hooks.lemma_filter_contains_rev(|hook: JsonView| !reports_to_us(hook), left[i]);
            let k = choose|k: int| 0 <= k < hooks.len() && hooks[k] == left[i];
            assert(plain(hooks[k], (d - 2) as nat));
        }
        assert(plain(JsonView::Array(left), (d - 1) as nat));
    }
}

/// What stays of the entries is as plain as the entries.
proof fn lemma_foreign_plain(entries: Seq<JsonView>, d: nat)
    requires
        forall|i: int| 0 <= i < entries.len() ==> plain(#[trigger] entries[i], d),
    ensures
        forall|i: int|
            0 <= i < foreign(entries).len() ==> plain(#[trigger] foreign(entries)[i], d),
    decreases entries.len(),
{
    if entries.len() > 0 {
        let rest = entries.drop_last();
        assert forall|i: int| 0 <= i < rest.len() implies plain(#[trigger] rest[i], d) by {
            assert(rest[i] == entries[i]);
        }
        lemma_foreign_plain(rest, d);
        assert(plain(entries[entries.len() - 1], d));
        if kept(entries.last()) is Some {
            lemma_kept_plain(entries.last(), d);
        }
        let before = foreign(rest);
        assert forall|i: int| 0 <= i < foreign(entries).len() implies plain(
            #[trigger] foreign(entries)[i],
            d,
        ) by {
            if i < before.len() {
                assert(foreign(entries)[i] == before[i]);
            }
        }
    }
}

/// Plain hooks stay plain when entries go in.
proof fn lemma_events_plain(hooks: Map<Seq<char>, JsonView>, n: int, d: nat)
    requires
        0 <= n <= event_count(),
        d >= 5,
        plain(JsonView::Object(hooks), d),
        lists_upto(hooks, n),
        forall|i: int| 0 <= i < n ==> plain(#[trigger] event_entry(i), 3),
    ensures
        plain(JsonView::Object(with_events(hooks, n)), d),
    decreases n,
{
    if n > 0 {
        let name = event_name(n - 1);
        let had = entries_of(hooks, name)->0;
        lemma_events_plain(hooks, n - 1, d);
        lemma_entries_wait(hooks, n - 1, n - 1);
        lemma_names_are_plain(n - 1);
        assert(entries_of(hooks, name) is Some);
        if hooks.contains_key(name) {
            lemma_plain_member(JsonView::Object(hooks), name, d);
        }
        assert forall|i: int| 0 <= i < had.len() implies plain(#[trigger] had[i], (d - 2) as nat) by {
            assert(hooks[name] == JsonView::Array(had));
        }
        lemma_foreign_plain(had, (d - 2) as nat);
        assert(plain(event_entry(n - 1), 3));
        lemma_plain_deeper(event_entry(n - 1), 3, (d - 2) as nat);
        let list = foreign(had).push(event_entry(n - 1));
        assert forall|i: int| 0 <= i < list.len() implies plain(
            #[trigger] list[i],
            (d - 2) as nat,
        ) by {
            if i < foreign(had).len() {
                assert(list[i] == foreign(had)[i]);
            }
        }
        assert(plain(JsonView::Array(list), (d - 1) as nat));
        lemma_plain_insert(
            JsonView::Object(with_events(hooks, n - 1)),
            name,
            JsonView::Array(list),
            d,
        );
    }
}

/// Plain settings stay plain when entries go in.
proof fn lemma_settings_plain(settings: Map<Seq<char>, JsonView>, n: int, d: nat)
    requires
        0 <= n <= event_count(),
        d >= 6,
        plain(JsonView::Object(settings), d),
        hooks_of(settings) is Object,
        lists_upto(hooks_of(settings)->Object_0, n),
        forall|i: int| 0 <= i < n ==> plain(#[trigger] event_entry(i), 3),
    ensures
        plain(settings_with(settings, n), d),
{
    if settings.contains_key("hooks"@) {
        lemma_plain_member(JsonView::Object(settings), "hooks"@, d);
    }
    let hooks = hooks_of(settings)->Object_0;
    lemma_events_plain(hooks, n, (d - 1) as nat);
    lemma_names_are_plain(0);
    lemma_plain_insert(
        JsonView::Object(settings),
        "hooks"@,
        JsonView::Object(with_events(hooks, n)),
        d,
    );
}

fn name_of_event(i: usize) -> (r: &'static str)
    ensures
        r@ == event_name(i as int),
{
    if i == 0 {
        "SubagentStart"
    } else if i == 1 {
        "SubagentStop"
    } else if i == 2 {
        "UserPromptSubmit"
    } else if i == 3 {
        "Stop"
    } else if i == 4 {
        "StopFailure"
    } else if i == 5 {
        "Notification"
    } else if i == 6 {
        "PostToolUse"
    } else if i == 7 {
        "PreToolUse"
    } else if i == 8 {
        "SessionEnd"
    } else {
        "SessionStart"
    }
}

/// Whether a member of a hook is a text that names the daemon's address.
fn names_us(hook: &Json, key: &str) -> (r: bool)
    ensures
        r == (hook@.at(key@).as_str() matches Some(s) && occurs(s, HOOK_URL@)),
{
    match hook.get(key) {
        Some(v) => match v.as_str() {
            Some(s) => contains_str(s, HOOK_URL),
            None => false,
        },
        None => false,
    }
}

/// Whether an entry has a hook that reports to the daemon.
fn entry_is_ours(entry: &Json) -> (r: bool)
    ensures
        r == is_ours(entry@),
{
    let hooks = match entry.get("hooks") {
        Some(v) => match v.as_array() {
            Some(hooks) => hooks,
            None => {
                return false;
            },
        },
        None => {
            return false;
        },
    };
    proof {
        lemma_array_view(hooks@);
    }
    let mut i: usize = 0;
    while i < hooks.len()
        invariant
            i <= hooks@.len(),
            entry@.at("hooks"@).as_array() == Some(array_view(hooks@)),
            array_view(hooks@).len() == hooks@.len(),
            forall|k: int| 0 <= k < hooks@.len() ==> #[trigger] array_view(hooks@)[k] == hooks@[k]@,
            forall|k: int| 0 <= k < i ==> !reports_to_us(#[trigger] array_view(hooks@)[k]),
        decreases hooks@.len() - i,
    {
        assert(array_view(hooks@)[i as int] == hooks@[i as int]@);
        if names_us(&hooks[i], "url") || names_us(&hooks[i], "command") {
            assert(reports_to_us(entry@.at("hooks"@).as_array()->0[i as int]));
            assert(is_ours(entry@));
            return true;
        }
        i = i + 1;
    }
    false
}

/// The hooks of other tools, in their order.
fn keep_others(hooks: Vec<Json>) -> (r: Vec<Json>)
    ensures
        array_view(r@) == others(array_view(hooks@)),
{
    let mut out: Vec<Json> = Vec::new();
    let ghost all = hooks@;
    let ghost shown = array_view(all);
    proof {
        reveal(Seq::filter);
        lemma_array_view(all);
        lemma_array_view(out@);
        assert(array_view(out@) =~= others(shown.take(0)));
    }
    for hook in it: hooks
        invariant
            it.seq() == all,
            shown.len() == all.len(),
            forall|k: int| 0 <= k < all.len() ==> #[trigger] shown[k] == all[k]@,
            array_view(out@) == others(shown.take(it.index())),
    {
        proof {
            reveal(Seq::filter);
            let k = it.index();
            assert(shown[k] == hook@);
            assert(shown.take(k + 1).drop_last() == shown.take(k));
            lemma_array_push(out@, hook);
        }
        if !names_us(&hook, "url") && !names_us(&hook, "command") {
            out.push(hook);
        }
    }
    assert(shown.take(all.len() as int) == shown);
    out
}

/// What stays of an entry.
fn keep_of_entry(entry: Json) -> (r: Option<Json>)
    ensures
        match r {
            Some(j) => kept(entry@) == Some(j@),
            None => kept(entry@) is None,
        },
{
    if !entry_is_ours(&entry) {
        return Some(entry);
    }
    let mut fields = match entry {
        Json::Object(fields) => fields,
        _ => Vec::new(),
    };
    let ghost all = object_view(fields@);
    let hooks = match take_member(&mut fields, "hooks") {
        Some(Json::Array(hooks)) => hooks,
        _ => Vec::new(),
    };
    let left = keep_others(hooks);
    proof {
        lemma_array_view(left@);
    }
    if left.len() == 0 {
        None
    } else {
        proof {
            let shown = JsonView::Array(array_view(left@));
            assert(all.remove("hooks"@).insert("hooks"@, shown) =~= all.insert("hooks"@, shown));
        }
        add_member(&mut fields, "hooks", Json::Array(left));
        Some(Json::Object(fields))
    }
}

/// What stays of the entries, in their order.
fn keep_foreign(entries: Vec<Json>) -> (r: Vec<Json>)
    ensures
        array_view(r@) == foreign(array_view(entries@)),
{
    let mut out: Vec<Json> = Vec::new();
    let ghost all = entries@;
    proof {
        lemma_array_view(all);
        lemma_array_view(out@);
        assert(array_view(out@) =~= foreign(array_view(all).take(0)));
    }
    for entry in it: entries
        invariant
            it.seq() == all,
            array_view(all).len() == all.len(),
            forall|k: int| 0 <= k < all.len() ==> #[trigger] array_view(all)[k] == all[k]@,
            array_view(out@) == foreign(array_view(all).take(it.index())),
    {
        proof {
            let k = it.index();
            assert(array_view(all)[k] == entry@);
            assert(array_view(all).take(k + 1).drop_last() == array_view(all).take(k));
        }
        if let Some(left) = keep_of_entry(entry) {
            proof {
                lemma_array_push(out@, left);
            }
            out.push(left);
        }
    }
    assert(array_view(all).take(all.len() as int) == array_view(all));
    out
}

/// The entry of an event.
fn entry_of_event(i: usize) -> (r: Json)
    ensures
        r@ == event_entry(i as int),
        plain(r@, 3),
{
    let mut hook: Vec<(String, Json)> = Vec::new();
    if i < 9 {
        add_member(&mut hook, "type", Json::from_str("http"));
        add_member(&mut hook, "url", Json::from_str(HOOK_URL));
    } else {
        let mut command: String =
            "curl -s --max-time 1 -X POST -H 'Content-Type: application/json' --data-binary @- ".to_owned();
        command.append(HOOK_URL);
        command.append(" > /dev/null 2>&1; exit 0");
        add_member(&mut hook, "type", Json::from_str("command"));
        add_member(&mut hook, "command", Json::Str(command));
    }
    add_member(&mut hook, "timeout", Json::from_u64(5));
    let mut hooks: Vec<Json> = Vec::new();
    proof {
        lemma_array_view(hooks@);
        lemma_array_push(hooks@, Json::Object(hook));
        assert(array_view(hooks@).push(event_hook(i as int)) =~= seq![event_hook(i as int)]);
    }
    hooks.push(Json::Object(hook));
    let mut entry: Vec<(String, Json)> = Vec::new();
    add_member(&mut entry, "hooks", Json::Array(hooks));
    if i == 6 || i == 7 {
        add_member(&mut entry, "matcher", Json::from_str("Agent"));
    }
    proof {
        reveal_with_fuel(plain, 4);
        lemma_names_are_plain(0);
        assert(plain(event_hook(i as int), 1));
        assert(plain(JsonView::Array(seq![event_hook(i as int)]), 2));
    }
    Json::Object(entry)
}

/// Puts the entry of an event among the hooks, in the place of an earlier one of ours.
fn install_event(hooks: &mut Vec<(String, Json)>, i: usize) -> (r: bool)
    requires
        i < event_count(),
    ensures
        r == entries_of(object_view(old(hooks)@), event_name(i as int)) is Some,
        r ==> plain(event_entry(i as int), 3),
        object_view(final(hooks)@) == if r {
            with_event(object_view(old(hooks)@), i as int)
        } else {
            object_view(old(hooks)@)
        },
{
    let name = name_of_event(i);
    let ghost before = object_view(hooks@);
    let entries = match take_member(hooks, name) {
        Some(Json::Array(entries)) => entries,
        Some(other) => {
            add_member(hooks, name, other);
            assert(before.insert(name@, before[name@]) =~= before);
            return false;
        },
        None => Vec::new(),
    };
    proof {
        lemma_array_view(entries@);
        assert(entries_of(before, name@) is Some);
        assert(entries_of(before, name@)->0 =~= array_view(entries@));
    }
    let mut list = keep_foreign(entries);
    let entry = entry_of_event(i);
    proof {
        lemma_array_push(list@, entry);
    }
    list.push(entry);
    add_member(hooks, name, Json::Array(list));
    true
}

/// An outcome, with its message taken by its view.
pub open spec fn outcome(r: Result<(), String>) -> Result<(), Seq<char>> {
    match r {
        Ok(_) => Ok(()),
        Err(e) => Err(e@),
    }
}

/// Puts the daemon's hook entries into a settings value and leaves all else in it alone. Hooks of
/// ours that are there already are known by the address and replaced; hooks of other tools stay,
/// also beside one of ours.
pub fn merge_hooks(settings: &mut Json) -> (r: Result<(), String>)
    ensures
        merges(old(settings)@, final(settings)@, outcome(r)),
        plain(old(settings)@, 127) ==> plain(final(settings)@, 127),
{
    let mut taken = Json::Null;
    std::mem::swap(&mut taken, settings);
    let mut fields = match taken {
        Json::Object(fields) => fields,
        other => {
            *settings = other;
            return Err("settings.json is not a JSON object".to_owned());
        },
    };
    let ghost all = object_view(fields@);
    let mut hooks: Vec<(String, Json)> = match take_member(&mut fields, "hooks") {
        Some(Json::Object(hooks)) => hooks,
        Some(other) => {
            add_member(&mut fields, "hooks", other);
            assert(all.remove("hooks"@).insert("hooks"@, all["hooks"@]) =~= all);
            *settings = Json::Object(fields);
            return Err("settings.json \"hooks\" is not an object".to_owned());
        },
        None => Vec::new(),
    };
    let ghost old_hooks = object_view(hooks@);
    assert(hooks_of(all) == JsonView::Object(old_hooks));
    let mut i: usize = 0;
    let mut failed: Option<String> = None;
    while i < 10 && failed.is_none()
        invariant
            i <= 10,
            hooks_of(all) == JsonView::Object(old_hooks),
            lists_upto(old_hooks, i as int),
            forall|k: int| 0 <= k < i ==> plain(#[trigger] event_entry(k), 3),
            object_view(hooks@) == with_events(old_hooks, i as int),
            failed matches Some(m) ==> {
                &&& i < 10
                &&& entries_of(old_hooks, event_name(i as int)) is None
                &&& m@ == no_list(event_name(i as int))
            },
        decreases
            10 - i,
            if failed is None {
                1int
            } else {
                0
            },
    {
        proof {
            lemma_entries_wait(old_hooks, i as int, i as int);
        }
        if install_event(&mut hooks, i) {
            i = i + 1;
        } else {
            let mut message: String = "hooks.".to_owned();
            message.append(name_of_event(i));
            message.append(" is not an array");
            failed = Some(message);
        }
    }
    add_member(&mut fields, "hooks", Json::Object(hooks));
    *settings = Json::Object(fields);
    proof {
        let merged = JsonView::Object(with_events(old_hooks, i as int));
        assert(all.remove("hooks"@).insert("hooks"@, merged) =~= all.insert("hooks"@, merged));
    }
    assert(settings@ == settings_with(all, i as int));
    proof {
        if plain(old(settings)@, 127) {
            lemma_settings_plain(all, i as int, 127);
        }
    }
    match failed {
        Some(m) => {
            assert(entries_of(old_hooks, event_name(i as int)) is None);
            Err(m)
        },
        None => Ok(()),
    }
}

/// What a settings file that reads so gives.
pub open spec fn settings_read(read: Result<JsonView, Seq<char>>) -> Result<JsonView, Seq<char>> {
    match read {
        Ok(v) => Ok(v),
        Err(e) => Err("settings.json is not valid JSON: "@ + e),
    }
}

/// Reads a settings file.
pub fn read_settings(text: &str) -> (r: Result<Json, String>)
    ensures
        read_view(r) == settings_read(str_reads(text@)),
        match str_reads(text@) {
            Ok(v) => r matches Ok(j) && j@ == v,
            Err(e) => r matches Err(m) && m@ == "settings.json is not valid JSON: "@ + e,
        },
{
    match parse_text(text) {
        Ok(j) => Ok(j),
        Err(e) => {
            let mut message: String = "settings.json is not valid JSON: ".to_owned();
            message.append(e.as_str());
            Err(message)
        },
    }
}

/// What is written for settings: the text with the daemon's entries in, which reads back as those
/// settings where they are plain, or why there is none.
pub open spec fn writes(settings: JsonView, r: Result<String, String>) -> bool {
    exists|merged: JsonView, result: Result<(), Seq<char>>|
        #[trigger] merges(settings, merged, result) && match result {
            Ok(_) => r matches Ok(text) && text@ == pretty_text(merged) + "\n"@ && (plain(
                settings,
                127,
            ) ==> reads_as(text@, merged)),
            Err(e) => r matches Err(m) && m@ == e,
        }
}

/// The text of a settings file with the daemon's hook entries in.
pub fn installed_text(settings: Json) -> (r: Result<String, String>)
    ensures
        writes(settings@, r),
{
    let mut merged = settings;
    let done = merge_hooks(&mut merged);
    let ghost result = outcome(done);
    let ghost after = merged@;
    assert(merges(settings@, after, result));
    match done {
        Ok(_) => match pretty(merged) {
            Ok(s) => {
                let mut text: String = s;
                text.append("\n");
                Ok(text)
            },
            Err(e) => Err(e),
        },
        Err(e) => Err(e),
    }
}

} // verus!
