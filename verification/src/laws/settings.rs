//! Laws of the installation of hook entries.

use vstd::prelude::*;

use crate::json::{number_from, JsonView};
use crate::settings::{
    entries_of, event_count, event_entry, event_hook, event_name, foreign, hooks_of, is_ours, kept,
    lemma_entries_wait, lemma_event_names_differ, lists_upto, merges, others, reports_to_us,
    settings_read, settings_with, start_command, with_events, writes, HOOK_URL,
};
use crate::text::{occurs, occurs_at};
use crate::wire::{plain, pretty_text, reads_as, str_reads};

verus! {

/// What stays of a list has no hook of ours.
pub proof fn law_foreign_has_none_of_ours(entries: Seq<JsonView>)
    ensures
        forall|i: int| 0 <= i < foreign(entries).len() ==> !is_ours(#[trigger] foreign(entries)[i]),
    decreases entries.len(),
{
    if entries.len() > 0 {
        let rest = foreign(entries.drop_last());
        law_foreign_has_none_of_ours(entries.drop_last());
        assert forall|i: int| 0 <= i < foreign(entries).len() implies !is_ours(
            #[trigger] foreign(entries)[i],
        ) by {
            if i < rest.len() {
                assert(foreign(entries)[i] == rest[i]);
            }
        }
    }
}

/// A list without hooks of ours stays as it is.
pub proof fn law_foreign_keeps_others(entries: Seq<JsonView>)
    requires
        forall|i: int| 0 <= i < entries.len() ==> !is_ours(#[trigger] entries[i]),
    ensures
        foreign(entries) == entries,
    decreases entries.len(),
{
    if entries.len() > 0 {
        let rest = entries.drop_last();
        assert forall|i: int| 0 <= i < rest.len() implies !is_ours(#[trigger] rest[i]) by {
            assert(rest[i] == entries[i]);
        }
        law_foreign_keeps_others(rest);
        assert(rest.push(entries.last()) =~= entries);
    }
}

/// Every hook of another tool stays, also where it shares an entry with one of ours.
pub proof fn law_other_hooks_survive(entries: Seq<JsonView>, i: int, k: int)
    requires
        0 <= i < entries.len(),
        entries[i].at("hooks"@) is Array,
        0 <= k < entries[i].at("hooks"@)->Array_0.len(),
        !reports_to_us(entries[i].at("hooks"@)->Array_0[k]),
    ensures
        exists|j: int|
            {
                &&& 0 <= j < foreign(entries).len()
                &&& (#[trigger] foreign(entries)[j]).at("hooks"@) is Array
                &&& foreign(entries)[j].at("hooks"@)->Array_0.contains(
                    entries[i].at("hooks"@)->Array_0[k],
                )
            },
    decreases entries.len(),
{
    let rest = entries.drop_last();
    let hook = entries[i].at("hooks"@)->Array_0[k];
    let all = foreign(entries);
    if i < rest.len() {
        law_other_hooks_survive(rest, i, k);
        let before = foreign(rest);
        let j = choose|j: int|
            {
                &&& 0 <= j < before.len()
                &&& (#[trigger] before[j]).at("hooks"@) is Array
                &&& before[j].at("hooks"@)->Array_0.contains(hook)
            };
        assert(all[j] == before[j]);
    } else {
        let hooks = entries[i].at("hooks"@)->Array_0;
        hooks.lemma_filter_contains(|h: JsonView| !reports_to_us(h), k);
        assert(others(hooks).contains(hook));
        let entry = kept(entries[i])->0;
        assert(kept(entries[i]) is Some);
        assert(hooks.contains(hook));
        assert(entry.at("hooks"@)->Array_0.contains(hook));
        assert(all[all.len() - 1] == entry);
    }
}

/// What stays of an entry has its other members as they were, and of its hooks just those of other
/// tools, in their order.
pub proof fn law_entry_keeps_the_rest(entry: JsonView, name: Seq<char>)
    requires
        kept(entry) is Some,
    ensures
        name != "hooks"@ ==> kept(entry)->0.get(name) == entry.get(name),
        is_ours(entry) ==> kept(entry)->0.at("hooks"@) == JsonView::Array(
            others(entry.at("hooks"@)->Array_0),
        ),
        !is_ours(entry) ==> kept(entry)->0 == entry,
{
}

/// Each entry that is installed is recognised as ours, and nothing of it stays.
pub proof fn law_our_entries_are_ours(i: int)
    requires
        0 <= i < event_count(),
    ensures
        is_ours(event_entry(i)),
        kept(event_entry(i)) is None,
{
    reveal_strlit("hooks");
    reveal_strlit("matcher");
    reveal_strlit("type");
    reveal_strlit("url");
    reveal_strlit("command");
    reveal_strlit("timeout");
    assert("hooks"@.len() == 5 && "matcher"@.len() == 7);
    assert("type"@.len() == 4 && "url"@.len() == 3);
    assert("command"@[0] == 'c' && "timeout"@[0] == 't' && "type"@[0] == 't');
    let hook = event_hook(i);
    if i < 9 {
        assert(hook.at("url"@).as_str() == Some(HOOK_URL@));
        assert(HOOK_URL@.subrange(0, HOOK_URL@.len() as int) =~= HOOK_URL@);
        assert(occurs_at(HOOK_URL@, HOOK_URL@, 0));
    } else {
        assert(hook.at("command"@).as_str() == Some(start_command()));
        let head =
            "curl -s --max-time 1 -X POST -H 'Content-Type: application/json' --data-binary @- "@;
        let n = head.len() as int;
        assert(start_command().subrange(n, n + HOOK_URL@.len()) =~= HOOK_URL@);
        assert(occurs_at(start_command(), HOOK_URL@, n));
    }
    assert(event_entry(i).at("hooks"@).as_array() == Some(seq![hook]));
    let hooks = event_entry(i).at("hooks"@).as_array()->0;
    assert(reports_to_us(hooks[0]));
    reveal(Seq::filter);
    assert(hooks.drop_last() =~= Seq::<JsonView>::empty());
    assert(others(hooks.drop_last()).len() == 0);
    assert(others(hooks).len() == 0);
}

proof fn lemma_foreign_push(entries: Seq<JsonView>, entry: JsonView)
    ensures
        foreign(entries.push(entry)) == match kept(entry) {
            Some(left) => foreign(entries).push(left),
            None => foreign(entries),
        },
{
    assert(entries.push(entry).drop_last() =~= entries);
}

/// What becomes of each event's entries and of the other members.
proof fn lemma_with_events(hooks: Map<Seq<char>, JsonView>, n: int, k: int)
    requires
        0 <= k < n <= event_count(),
    ensures
        with_events(hooks, n).contains_key(event_name(k)),
        with_events(hooks, n)[event_name(k)] == JsonView::Array(
            foreign(entries_of(hooks, event_name(k))->0).push(event_entry(k)),
        ),
    decreases n,
{
    if k < n - 1 {
        lemma_with_events(hooks, n - 1, k);
        lemma_event_names_differ(k, n - 1);
    } else {
        lemma_entries_wait(hooks, k, k);
    }
}

proof fn lemma_others_wait(hooks: Map<Seq<char>, JsonView>, n: int, name: Seq<char>)
    requires
        0 <= n <= event_count(),
        forall|i: int| 0 <= i < event_count() ==> #[trigger] event_name(i) != name,
    ensures
        with_events(hooks, n).contains_key(name) == hooks.contains_key(name),
        with_events(hooks, n)[name] == hooks[name],
    decreases n,
{
    if n > 0 {
        lemma_others_wait(hooks, n - 1, name);
        assert(event_name(n - 1) != name);
    }
}

/// After the installation each event's list is what stays of it, in its order, and then one entry
/// of ours; nothing in it but that entry has a hook of ours.
pub proof fn law_installed_entries(before: JsonView, after: JsonView, k: int)
    requires
        merges(before, after, Ok(())),
        0 <= k < event_count(),
    ensures
        ({
            let old_hooks = hooks_of(before->Object_0)->Object_0;
            let new_hooks = after.at("hooks"@)->Object_0;
            let had = entries_of(old_hooks, event_name(k))->0;
            &&& after.at("hooks"@) is Object
            &&& entries_of(old_hooks, event_name(k)) is Some
            &&& new_hooks.contains_key(event_name(k))
            &&& entries_of(new_hooks, event_name(k)) == Some(foreign(had).push(event_entry(k)))
            &&& foreign(foreign(had).push(event_entry(k))) == foreign(had)
            &&& is_ours(event_entry(k))
            &&& forall|i: int| 0 <= i < foreign(had).len() ==> !is_ours(#[trigger] foreign(had)[i])
        }),
{
    let hooks = hooks_of(before->Object_0)->Object_0;
    let had = entries_of(hooks, event_name(k))->0;
    lemma_with_events(hooks, event_count(), k);
    law_our_entries_are_ours(k);
    lemma_foreign_push(foreign(had), event_entry(k));
    law_foreign_has_none_of_ours(had);
    law_foreign_keeps_others(foreign(had));
}

/// The installation leaves all other settings and the hooks of all other events as they were,
/// also where it stops halfway.
pub proof fn law_merge_preserves_the_rest(
    before: JsonView,
    after: JsonView,
    result: Result<(), Seq<char>>,
    name: Seq<char>,
    event: Seq<char>,
)
    requires
        merges(before, after, result),
        name != "hooks"@,
        forall|i: int| 0 <= i < event_count() ==> #[trigger] event_name(i) != event,
    ensures
        before.get(name) == after.get(name),
        before.at("hooks"@).get(event) == after.at("hooks"@).get(event),
{
    if let JsonView::Object(settings) = before {
        if let JsonView::Object(hooks) = hooks_of(settings) {
            if lists_upto(hooks, event_count()) {
                lemma_others_wait(hooks, event_count(), event);
            } else {
                let n = choose|n: int|
                    {
                        &&& 0 <= n < event_count()
                        &&& lists_upto(hooks, n)
                        &&& entries_of(hooks, #[trigger] event_name(n)) is None
                        &&& after == settings_with(settings, n)
                    };
                lemma_others_wait(hooks, n, event);
            }
        }
    }
}

/// A second installation changes nothing and succeeds.
pub proof fn law_merge_is_idempotent(
    before: JsonView,
    once: JsonView,
    twice: JsonView,
    result: Result<(), Seq<char>>,
)
    requires
        merges(before, once, Ok(())),
        merges(once, twice, result),
    ensures
        twice == once,
        result is Ok,
{
    let settings = before->Object_0;
    let hooks = hooks_of(settings)->Object_0;
    let merged = with_events(hooks, event_count());
    assert(once->Object_0["hooks"@] == JsonView::Object(merged));
    assert(hooks_of(once->Object_0) == JsonView::Object(merged));
    assert forall|k: int| 0 <= k < event_count() implies entries_of(
        merged,
        #[trigger] event_name(k),
    ) == Some(foreign(entries_of(hooks, event_name(k))->0).push(event_entry(k))) by {
        lemma_with_events(hooks, event_count(), k);
    }
    assert(lists_upto(merged, event_count()));
    lemma_nothing_new(hooks, merged, event_count());
    assert(once->Object_0.insert("hooks"@, JsonView::Object(merged)) =~= once->Object_0);
}

/// Installing once more into the settings that an installation made writes the same text.
pub proof fn law_reinstalling_changes_nothing(
    settings: JsonView,
    merged: JsonView,
    text: String,
    again: Result<String, String>,
)
    requires
        writes(settings, Ok(text)),
        merges(settings, merged, Ok(())),
        writes(merged, again),
    ensures
        again matches Ok(s) && s@ == text@,
{
    let (m, r) = choose|m: JsonView, r: Result<(), Seq<char>>|
        #[trigger] merges(merged, m, r) && match r {
            Ok(_) => again matches Ok(s) && s@ == pretty_text(m) + "\n"@,
            Err(e) => again matches Err(s) && s@ == e,
        };
    law_merge_is_idempotent(settings, merged, m, r);
    let (first, done) = choose|first: JsonView, done: Result<(), Seq<char>>|
        #[trigger] merges(settings, first, done) && match done {
            Ok(_) => text@ == pretty_text(first) + "\n"@,
            Err(e) => false,
        };
    assert(first == merged);
}

/// What is installed into plain settings reads back, and a second installation leaves the file as
/// the first one left it.
pub proof fn law_second_install_leaves_the_file(
    settings: JsonView,
    text: String,
    again: Result<String, String>,
)
    requires
        plain(settings, 127),
        writes(settings, Ok(text)),
    ensures
        str_reads(text@) is Ok,
        merges(settings, str_reads(text@)->Ok_0, Ok(())),
        writes(str_reads(text@)->Ok_0, again) ==> (again matches Ok(s) && s@ == text@),
{
    let (merged, done) = choose|merged: JsonView, done: Result<(), Seq<char>>|
        #[trigger] merges(settings, merged, done) && match done {
            Ok(_) => text@ == pretty_text(merged) + "\n"@ && reads_as(text@, merged),
            Err(e) => false,
        };
    assert(str_reads(text@)->Ok_0 == merged);
    if writes(merged, again) {
        law_reinstalling_changes_nothing(settings, merged, text, again);
    }
}

proof fn lemma_nothing_new(
    hooks: Map<Seq<char>, JsonView>,
    merged: Map<Seq<char>, JsonView>,
    n: int,
)
    requires
        merged == with_events(hooks, event_count()),
        0 <= n <= event_count(),
    ensures
        with_events(merged, n) == merged,
    decreases n,
{
    if n > 0 {
        let k = n - 1;
        lemma_nothing_new(hooks, merged, k);
        lemma_with_events(hooks, event_count(), k);
        let had = entries_of(hooks, event_name(k))->0;
        law_our_entries_are_ours(k);
        lemma_foreign_push(foreign(had), event_entry(k));
        law_foreign_has_none_of_ours(had);
        law_foreign_keeps_others(foreign(had));
        assert(merged.insert(event_name(k), merged[event_name(k)]) =~= merged);
    }
}

/// One of the ten events that there are entries for.
pub open spec fn is_event(event: Seq<char>) -> bool {
    ||| event == "SubagentStart"@
    ||| event == "SubagentStop"@
    ||| event == "UserPromptSubmit"@
    ||| event == "Stop"@
    ||| event == "StopFailure"@
    ||| event == "Notification"@
    ||| event == "PostToolUse"@
    ||| event == "PreToolUse"@
    ||| event == "SessionEnd"@
    ||| event == "SessionStart"@
}

/// When an event's turn comes in an installation.
pub open spec fn turn(event: Seq<char>) -> int {
    if event == "SubagentStart"@ {
        1
    } else if event == "SubagentStop"@ {
        2
    } else if event == "UserPromptSubmit"@ {
        3
    } else if event == "Stop"@ {
        4
    } else if event == "StopFailure"@ {
        5
    } else if event == "Notification"@ {
        6
    } else if event == "PostToolUse"@ {
        7
    } else if event == "PreToolUse"@ {
        8
    } else if event == "SessionEnd"@ {
        9
    } else {
        10
    }
}

proof fn lemma_index_of(event: Seq<char>) -> (k: int)
    requires
        is_event(event),
    ensures
        0 <= k < event_count(),
        event_name(k) == event,
        turn(event) == k + 1,
        k == 9 <==> event == "SessionStart"@,
        k == 6 || k == 7 <==> event == "PostToolUse"@ || event == "PreToolUse"@,
{
    let k: int = if event == "SubagentStart"@ {
        0
    } else if event == "SubagentStop"@ {
        1
    } else if event == "UserPromptSubmit"@ {
        2
    } else if event == "Stop"@ {
        3
    } else if event == "StopFailure"@ {
        4
    } else if event == "Notification"@ {
        5
    } else if event == "PostToolUse"@ {
        6
    } else if event == "PreToolUse"@ {
        7
    } else if event == "SessionEnd"@ {
        8
    } else {
        9
    };
    assert(event_name(k) == event);
    if k != 9 {
        lemma_event_names_differ(k, 9);
    }
    if k != 6 {
        lemma_event_names_differ(k, 6);
    }
    if k != 7 {
        lemma_event_names_differ(k, 7);
    }
    k
}

proof fn lemma_no_index(event: Seq<char>, k: int)
    requires
        !is_event(event),
        0 <= k < event_count(),
    ensures
        event_name(k) != event,
{
}

/// The entries of an event in a settings value, none where it does not say.
pub open spec fn list_of(settings: JsonView, event: Seq<char>) -> Seq<JsonView> {
    match settings.at("hooks"@).at(event) {
        JsonView::Array(list) => list,
        _ => Seq::empty(),
    }
}

/// A hook names the daemon's address, as where to send to or in what to run.
pub open spec fn names_the_daemon(hook: JsonView) -> bool {
    ||| hook.at("url"@) matches JsonView::Str(s) && occurs(s, "http://127.0.0.1:4747/hook"@)
    ||| hook.at("command"@) matches JsonView::Str(s) && occurs(s, "http://127.0.0.1:4747/hook"@)
}

/// The hook stands in the entry.
pub open spec fn has_hook(entry: JsonView, hook: JsonView) -> bool {
    entry.at("hooks"@) matches JsonView::Array(hooks) && hooks.contains(hook)
}

/// Some hook of the entry names the daemon's address.
pub open spec fn has_our_hook(entry: JsonView) -> bool {
    exists|hook: JsonView| #[trigger] has_hook(entry, hook) && names_the_daemon(hook)
}

proof fn lemma_is_ours(entry: JsonView)
    ensures
        is_ours(entry) == has_our_hook(entry),
{
    if is_ours(entry) {
        let hooks = entry.at("hooks"@)->Array_0;
        let i = choose|i: int| 0 <= i < hooks.len() && reports_to_us(#[trigger] hooks[i]);
        assert(hooks.contains(hooks[i]));
        assert(has_hook(entry, hooks[i]) && names_the_daemon(hooks[i]));
    }
    if has_our_hook(entry) {
        let hook = choose|hook: JsonView| #[trigger]
            has_hook(entry, hook) && names_the_daemon(hook);
        let hooks = entry.at("hooks"@)->Array_0;
        let i = choose|i: int| 0 <= i < hooks.len() && hooks[i] == hook;
        assert(reports_to_us(entry.at("hooks"@).as_array()->0[i]));
    }
}

/// The hook that is installed for an event: it sends to the daemon's address with a limit of five
/// seconds; that of the start of a session, which cannot be sent, runs a command that does so.
pub open spec fn hook_for(event: Seq<char>) -> JsonView {
    let five = JsonView::Number(number_from(5));
    JsonView::Object(
        if event == "SessionStart"@ {
            map![
                "type"@ => JsonView::Str("command"@),
                "command"@ => JsonView::Str(
                    "curl -s --max-time 1 -X POST -H 'Content-Type: application/json' --data-binary @- http://127.0.0.1:4747/hook > /dev/null 2>&1; exit 0"@,
                ),
                "timeout"@ => five
            ]
        } else {
            map![
                "type"@ => JsonView::Str("http"@),
                "url"@ => JsonView::Str("http://127.0.0.1:4747/hook"@),
                "timeout"@ => five
            ]
        },
    )
}

proof fn lemma_command()
    ensures
        start_command()
            == "curl -s --max-time 1 -X POST -H 'Content-Type: application/json' --data-binary @- http://127.0.0.1:4747/hook > /dev/null 2>&1; exit 0"@,
{
    reveal_strlit(
        "curl -s --max-time 1 -X POST -H 'Content-Type: application/json' --data-binary @- http://127.0.0.1:4747/hook > /dev/null 2>&1; exit 0",
    );
    reveal_strlit(
        "curl -s --max-time 1 -X POST -H 'Content-Type: application/json' --data-binary @- ",
    );
    reveal_strlit("http://127.0.0.1:4747/hook");
    reveal_strlit(" > /dev/null 2>&1; exit 0");
    assert(start_command()
        =~= "curl -s --max-time 1 -X POST -H 'Content-Type: application/json' --data-binary @- http://127.0.0.1:4747/hook > /dev/null 2>&1; exit 0"@);
}

proof fn lemma_hook_for(event: Seq<char>, k: int)
    requires
        0 <= k < event_count(),
        k == 9 <==> event == "SessionStart"@,
    ensures
        event_hook(k) == hook_for(event),
{
    if k == 9 {
        lemma_command();
    }
    assert(event_hook(k)->Object_0 =~= hook_for(event)->Object_0);
}

/// After an installation the list of each event ends with one entry that has just the hook for it.
/// For the two events of tool use the entry matches the tool that launches subagents; for every
/// other event it has no matcher, so that all of them are reported.
pub proof fn law_each_event_is_reported(before: JsonView, after: JsonView, event: Seq<char>)
    requires
        merges(before, after, Ok(())),
        is_event(event),
    ensures
        ({
            let list = list_of(after, event);
            let entry = list.last();
            &&& list.len() > 0
            &&& entry is Object
            &&& entry.at("hooks"@) == JsonView::Array(seq![hook_for(event)])
            &&& event == "PostToolUse"@ || event == "PreToolUse"@ ==> entry.at("matcher"@)
                == JsonView::Str("Agent"@) && entry->Object_0.dom() == set!["hooks"@, "matcher"@]
            &&& event != "PostToolUse"@ && event != "PreToolUse"@ ==> entry->Object_0.dom()
                == set!["hooks"@]
        }),
{
    let k = lemma_index_of(event);
    law_installed_entries(before, after, k);
    lemma_hook_for(event, k);
    reveal_strlit("hooks");
    reveal_strlit("matcher");
    assert("hooks"@.len() == 5 && "matcher"@.len() == 7);
    assert(list_of(after, event).last() == event_entry(k));
    if k == 6 || k == 7 {
        assert(event_entry(k)->Object_0.dom() =~= set!["hooks"@, "matcher"@]);
    } else {
        assert(event_entry(k)->Object_0.dom() =~= set!["hooks"@]);
    }
}

proof fn lemma_lists(before: JsonView, after: JsonView, event: Seq<char>)
    requires
        merges(before, after, Ok(())),
        is_event(event),
    ensures
        list_of(after, event).len() > 0,
        list_of(after, event).drop_last() == foreign(list_of(before, event)),
        has_our_hook(list_of(after, event).last()),
{
    let k = lemma_index_of(event);
    law_installed_entries(before, after, k);
    let had = entries_of(hooks_of(before->Object_0)->Object_0, event)->0;
    assert(list_of(before, event) =~= had);
    assert(list_of(after, event) == foreign(had).push(event_entry(k)));
    assert(foreign(had).push(event_entry(k)).drop_last() =~= foreign(had));
    lemma_is_ours(event_entry(k));
}

/// After an installation each event has one entry with a hook that names the daemon, the last one:
/// what was there of such hooks is gone.
pub proof fn law_one_entry_names_the_daemon(
    before: JsonView,
    after: JsonView,
    event: Seq<char>,
    i: int,
)
    requires
        merges(before, after, Ok(())),
        is_event(event),
        0 <= i < list_of(after, event).len(),
    ensures
        has_our_hook(list_of(after, event)[i]) <==> i == list_of(after, event).len() - 1,
{
    lemma_lists(before, after, event);
    let left = foreign(list_of(before, event));
    law_foreign_has_none_of_ours(list_of(before, event));
    if i < left.len() {
        assert(list_of(after, event).drop_last()[i] == left[i]);
        lemma_is_ours(left[i]);
    }
}

/// Every hook that does not name the daemon is there after the installation as it was before, in
/// some entry of the same event.
pub proof fn law_hooks_of_others_outlive_the_merge(
    before: JsonView,
    after: JsonView,
    event: Seq<char>,
    i: int,
    hook: JsonView,
)
    requires
        merges(before, after, Ok(())),
        is_event(event),
        0 <= i < list_of(before, event).len(),
        has_hook(list_of(before, event)[i], hook),
        !names_the_daemon(hook),
    ensures
        exists|j: int|
            0 <= j < list_of(after, event).len() && has_hook(
                #[trigger] list_of(after, event)[j],
                hook,
            ),
{
    lemma_lists(before, after, event);
    let had = list_of(before, event);
    let hooks = had[i].at("hooks"@)->Array_0;
    let k = choose|k: int| 0 <= k < hooks.len() && hooks[k] == hook;
    law_other_hooks_survive(had, i, k);
    let left = foreign(had);
    let j = choose|j: int|
        {
            &&& 0 <= j < left.len()
            &&& (#[trigger] left[j]).at("hooks"@) is Array
            &&& left[j].at("hooks"@)->Array_0.contains(hook)
        };
    assert(list_of(after, event).drop_last()[j] == left[j]);
    assert(has_hook(list_of(after, event)[j], hook));
}

/// No hook comes up by the installation but the one for the event: any other was there before.
pub proof fn law_no_other_hook_comes_up(
    before: JsonView,
    after: JsonView,
    event: Seq<char>,
    j: int,
    hook: JsonView,
)
    requires
        merges(before, after, Ok(())),
        is_event(event),
        0 <= j < list_of(after, event).len() - 1,
        has_hook(list_of(after, event)[j], hook),
    ensures
        !names_the_daemon(hook),
        exists|i: int|
            0 <= i < list_of(before, event).len() && has_hook(
                #[trigger] list_of(before, event)[i],
                hook,
            ),
{
    lemma_lists(before, after, event);
    law_one_entry_names_the_daemon(before, after, event, j);
    let left = foreign(list_of(before, event));
    assert(list_of(after, event).drop_last()[j] == left[j]);
    lemma_kept_was_there(list_of(before, event), j, hook);
}

proof fn lemma_kept_was_there(entries: Seq<JsonView>, j: int, hook: JsonView)
    requires
        0 <= j < foreign(entries).len(),
        has_hook(foreign(entries)[j], hook),
    ensures
        exists|i: int| 0 <= i < entries.len() && has_hook(#[trigger] entries[i], hook),
    decreases entries.len(),
{
    let rest = entries.drop_last();
    let before = foreign(rest);
    if j < before.len() {
        assert(foreign(entries)[j] == before[j]);
        lemma_kept_was_there(rest, j, hook);
        let i = choose|i: int| 0 <= i < rest.len() && has_hook(#[trigger] rest[i], hook);
        assert(has_hook(entries[i], hook));
    } else {
        let last = entries[entries.len() - 1];
        if is_ours(last) {
            let hooks = last.at("hooks"@)->Array_0;
            hooks.lemma_filter_contains_rev(|h: JsonView| !reports_to_us(h), hook);
        }
        assert(has_hook(last, hook));
    }
}

/// Entries without a hook that names the daemon stay as they are, in their order.
pub proof fn law_foreign_entries_stay_as_they_are(
    before: JsonView,
    after: JsonView,
    event: Seq<char>,
)
    requires
        merges(before, after, Ok(())),
        is_event(event),
        forall|i: int|
            0 <= i < list_of(before, event).len() ==> !has_our_hook(
                #[trigger] list_of(before, event)[i],
            ),
    ensures
        list_of(after, event).drop_last() == list_of(before, event),
{
    lemma_lists(before, after, event);
    let had = list_of(before, event);
    assert forall|i: int| 0 <= i < had.len() implies !is_ours(#[trigger] had[i]) by {
        lemma_is_ours(had[i]);
    }
    law_foreign_keeps_others(had);
}

/// An entry with hooks of others beside ours keeps them, in their order, and its other members.
pub proof fn law_shared_entries_keep_the_rest(
    entry: JsonView,
    name: Seq<char>,
    hooks: Seq<JsonView>,
)
    requires
        entry.at("hooks"@) == JsonView::Array(hooks),
    ensures
        ({
            let left = hooks.filter(|h: JsonView| !names_the_daemon(h));
            &&& left.len() == 0 && hooks.len() > 0 ==> foreign(seq![entry]).len() == 0
            &&& left.len() > 0 || hooks.len() == 0 ==> foreign(seq![entry]).len() == 1
                && foreign(seq![entry])[0].at("hooks"@) == JsonView::Array(left)
            &&& foreign(seq![entry]).len() == 1 && name != "hooks"@ ==> foreign(seq![entry])[0].get(
                name,
            ) == entry.get(name)
        }),
{
    assert(seq![entry].drop_last() =~= Seq::<JsonView>::empty());
    assert(foreign(seq![entry].drop_last()).len() == 0);
    lemma_same_filter(hooks);
    if !is_ours(entry) {
        assert forall|i: int| 0 <= i < hooks.len() implies !reports_to_us(#[trigger] hooks[i]) by {
            if reports_to_us(hooks[i]) {
                assert(reports_to_us(entry.at("hooks"@).as_array()->0[i]));
            }
        }
        lemma_filter_all(hooks);
    }
    if hooks.len() == 0 {
        reveal(Seq::filter);
    }
}

/// Entries are kept one by one, in their order; one whose hooks are no list stays as it is.
pub proof fn law_entries_are_kept_one_by_one(a: Seq<JsonView>, b: Seq<JsonView>, entry: JsonView)
    ensures
        foreign(a + b) == foreign(a) + foreign(b),
        foreign(Seq::empty()) == Seq::<JsonView>::empty(),
        !(entry.at("hooks"@) is Array) ==> foreign(seq![entry]) == seq![entry],
    decreases b.len(),
{
    if b.len() == 0 {
        assert(a + b =~= a);
        assert(foreign(a) + foreign(b) =~= foreign(a));
    } else {
        let rest = b.drop_last();
        assert((a + b).drop_last() =~= a + rest);
        law_entries_are_kept_one_by_one(a, rest, entry);
        assert(foreign(a + b) =~= foreign(a) + foreign(b));
    }
    assert(seq![entry].drop_last() =~= Seq::<JsonView>::empty());
    assert(foreign(seq![entry].drop_last()).len() == 0);
    if !(entry.at("hooks"@) is Array) {
        assert(foreign(seq![entry]) =~= seq![entry]);
    }
}

/// What stays of each event's list stands before the entry that is installed.
pub proof fn law_what_stays_comes_first(before: JsonView, after: JsonView, event: Seq<char>)
    requires
        merges(before, after, Ok(())),
        is_event(event),
    ensures
        list_of(after, event).drop_last() == foreign(list_of(before, event)),
{
    lemma_lists(before, after, event);
}

proof fn lemma_same_filter(hooks: Seq<JsonView>)
    ensures
        others(hooks) == hooks.filter(|h: JsonView| !names_the_daemon(h)),
    decreases hooks.len(),
{
    reveal(Seq::filter);
    if hooks.len() > 0 {
        lemma_same_filter(hooks.drop_last());
    }
}

proof fn lemma_filter_all(hooks: Seq<JsonView>)
    requires
        forall|i: int| 0 <= i < hooks.len() ==> !reports_to_us(#[trigger] hooks[i]),
    ensures
        others(hooks) == hooks,
    decreases hooks.len(),
{
    reveal(Seq::filter);
    if hooks.len() > 0 {
        let rest = hooks.drop_last();
        assert forall|i: int| 0 <= i < rest.len() implies !reports_to_us(#[trigger] rest[i]) by {
            assert(rest[i] == hooks[i]);
        }
        lemma_filter_all(rest);
        assert(!reports_to_us(hooks[hooks.len() - 1]));
        assert(rest.push(hooks.last()) =~= hooks);
    }
}

proof fn lemma_waits(hooks: Map<Seq<char>, JsonView>, n: int, k: int)
    requires
        0 <= n <= k < event_count(),
    ensures
        with_events(hooks, n).contains_key(event_name(k)) == hooks.contains_key(event_name(k)),
        with_events(hooks, n)[event_name(k)] == hooks[event_name(k)],
    decreases n,
{
    if n > 0 {
        lemma_waits(hooks, n - 1, k);
        lemma_event_names_differ(n - 1, k);
    }
}

/// An installation succeeds exactly on an object whose hooks are an object, or are not there, and
/// in which the entries of each of the ten events are a list, or are not there. Otherwise it says
/// what is wrong: of the events it is the first in the order of their installation, and those whose
/// turn has not come are as they were.
pub proof fn law_what_can_be_installed_into(
    before: JsonView,
    after: JsonView,
    result: Result<(), Seq<char>>,
    event: Seq<char>,
)
    requires
        merges(before, after, result),
    ensures
        result is Ok ==> before is Object && after is Object && (before.get("hooks"@) is None
            || before.at("hooks"@) is Object) && (is_event(event) ==> before.at("hooks"@).get(event)
            is None || before.at("hooks"@).at(event) is Array),
        !(before is Object) ==> result == Err::<(), Seq<char>>(
            "settings.json is not a JSON object"@,
        ) && after == before,
        before is Object && before.get("hooks"@) is Some && !(before.at("hooks"@) is Object)
            ==> result == Err::<(), Seq<char>>("settings.json \"hooks\" is not an object"@) && after
            == before,
        before is Object && (before.get("hooks"@) is None || before.at("hooks"@) is Object) && result
            is Err ==> exists|e: Seq<char>|
            {
                &&& #[trigger] is_event(e)
                &&& before.at("hooks"@).get(e) is Some && !(before.at("hooks"@).at(e) is Array)
                &&& result == Err::<(), Seq<char>>("hooks."@ + e + " is not an array"@)
                &&& is_event(event) && turn(event) < turn(e) ==> before.at("hooks"@).get(event)
                    is None || before.at("hooks"@).at(event) is Array
                &&& is_event(event) && turn(event) >= turn(e) ==> after.at("hooks"@).get(event)
                    == before.at("hooks"@).get(event)
            },
{
    if before is Object {
        let settings = before->Object_0;
        if hooks_of(settings) is Object {
            let hooks = hooks_of(settings)->Object_0;
            if lists_upto(hooks, event_count()) {
                if is_event(event) {
                    let k = lemma_index_of(event);
                    assert(entries_of(hooks, event_name(k)) is Some);
                }
            } else {
                let n = choose|n: int|
                    {
                        &&& 0 <= n < event_count()
                        &&& lists_upto(hooks, n)
                        &&& entries_of(hooks, #[trigger] event_name(n)) is None
                        &&& after == settings_with(settings, n)
                        &&& result == Err::<(), Seq<char>>(
                            crate::settings::no_list(event_name(n)),
                        )
                    };
                assert(is_event(event_name(n)));
                let e = lemma_index_of(event_name(n));
                if e != n {
                    lemma_event_names_differ(e, n);
                }
                if is_event(event) {
                    let k = lemma_index_of(event);
                    if k < n {
                        assert(entries_of(hooks, event_name(k)) is Some);
                    } else {
                        lemma_waits(hooks, n, k);
                    }
                }
            }
        }
    }
}

/// The installation touches no member of the settings but the hooks, and there no event but the
/// ten.
pub proof fn law_nothing_else_is_touched(
    before: JsonView,
    after: JsonView,
    result: Result<(), Seq<char>>,
    name: Seq<char>,
    event: Seq<char>,
)
    requires
        merges(before, after, result),
    ensures
        name != "hooks"@ ==> after.get(name) == before.get(name),
        !is_event(event) ==> after.at("hooks"@).get(event) == before.at("hooks"@).get(event),
{
    reveal_strlit("hooks");
    reveal_strlit("");
    if name != "hooks"@ {
        if !is_event(event) {
            assert forall|i: int| 0 <= i < event_count() implies #[trigger] event_name(i)
                != event by {
                lemma_no_index(event, i);
            }
            law_merge_preserves_the_rest(before, after, result, name, event);
        } else {
            let none = lemma_no_event();
            law_merge_preserves_the_rest(before, after, result, name, none);
        }
    } else if !is_event(event) {
        assert forall|i: int| 0 <= i < event_count() implies #[trigger] event_name(i) != event by {
            lemma_no_index(event, i);
        }
        assert(""@.len() != "hooks"@.len());
        law_merge_preserves_the_rest(before, after, result, ""@, event);
    }
}

/// Some name that is no event's.
proof fn lemma_no_event() -> (e: Seq<char>)
    ensures
        forall|i: int| 0 <= i < event_count() ==> #[trigger] event_name(i) != e,
{
    reveal_strlit("SubagentStart");
    reveal_strlit("SubagentStop");
    reveal_strlit("UserPromptSubmit");
    reveal_strlit("Stop");
    reveal_strlit("StopFailure");
    reveal_strlit("Notification");
    reveal_strlit("PostToolUse");
    reveal_strlit("PreToolUse");
    reveal_strlit("SessionEnd");
    reveal_strlit("SessionStart");
    assert("SubagentStart"@.len() == 13 && "SubagentStop"@.len() == 12);
    assert("UserPromptSubmit"@.len() == 16 && "Stop"@.len() == 4);
    assert("StopFailure"@.len() == 11 && "Notification"@.len() == 12);
    assert("PostToolUse"@.len() == 11 && "PreToolUse"@.len() == 10);
    assert("SessionEnd"@.len() == 10 && "SessionStart"@.len() == 12);
    Seq::empty()
}

/// A settings file that is JSON is read as what it is; of any other the reason is told.
pub proof fn law_settings_are_read_as_they_are(read: Result<JsonView, Seq<char>>)
    ensures
        read is Ok ==> settings_read(read) == read,
        read matches Err(e) ==> settings_read(read) == Err::<JsonView, Seq<char>>(
            "settings.json is not valid JSON: "@ + e,
        ),
{
}

/// The text that is written is the pretty text of the settings with the entries in and a line
/// feed; where the entries cannot go in, nothing is written, and the reason is that of the
/// installation.
pub proof fn law_written_text_is_the_merge(settings: JsonView, r: Result<String, String>)
    requires
        writes(settings, r),
    ensures
        r matches Ok(text) ==> exists|merged: JsonView|
            #[trigger] merges(settings, merged, Ok(())) && text@ == pretty_text(merged) + "\n"@,
        r matches Err(e) ==> exists|merged: JsonView| #[trigger]
            merges(settings, merged, Err(e@)),
{
}

} // verus!
