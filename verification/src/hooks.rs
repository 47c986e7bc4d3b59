//! The agent's settings file, read as JSON: whether this tool's hook
//! command is registered for an event, and registering it for each event
//! that lacks it. This tool's hook commands are told apart by a marker
//! text that they carry: the program's own name.
use vstd::prelude::*;
use crate::json::{
    Json, JsonV, member_of, set_member, members_view, items_view, lemma_member_pos,
    lemma_object_view, lemma_array_view, find_member, set_member_vec, lemma_set_member,
    json_parse, json_pretty, parse_json, pretty_text,
};
use crate::text::{contains_text, has_substring, chars_of, owned, push_char};

verus! {

/// A hook whose `command` contains the marker.
pub open spec fn hook_mentions(h: JsonV, marker: Seq<char>) -> bool {
    match h.str_at("command"@) {
        Some(c) => contains_text(c, marker),
        None => false,
    }
}

/// Some hook of `items` contains the marker.
pub open spec fn any_hook_mentions(items: Seq<JsonV>, marker: Seq<char>) -> bool {
    exists|i: int| 0 <= i < items.len() && hook_mentions(#[trigger] items[i], marker)
}

/// A hook group whose `hooks` array holds a hook with the marker.
pub open spec fn group_mentions(g: JsonV, marker: Seq<char>) -> bool {
    match g.get("hooks"@) {
        Some(hs) => match hs.as_array() {
            Some(items) => any_hook_mentions(items, marker),
            None => false,
        },
        None => false,
    }
}

/// Some group of `groups` holds a hook with the marker.
pub open spec fn any_group_mentions(groups: Seq<JsonV>, marker: Seq<char>) -> bool {
    exists|i: int| 0 <= i < groups.len() && group_mentions(#[trigger] groups[i], marker)
}

/// `settings.hooks[event]` is an array holding a group with a hook whose
/// command contains the marker.
pub open spec fn event_registered(s: JsonV, event: Seq<char>, marker: Seq<char>) -> bool {
    match s.get("hooks"@) {
        Some(h) => match h.get(event) {
            Some(a) => match a.as_array() {
                Some(groups) => any_group_mentions(groups, marker),
                None => false,
            },
            None => false,
        },
        None => false,
    }
}

fn mentions_marker(cmd: &String, marker: &str) -> (r: bool)
    ensures
        r == contains_text(cmd@, marker@),
{
    let cs = chars_of(cmd.as_str());
    let m = chars_of(marker);
    has_substring(&cs, &m)
}

fn hook_mentions_exec(h: &Json, marker: &str) -> (r: bool)
    ensures
        r == hook_mentions(h@, marker@),
{
    match h.str_at("command") {
        Some(c) => mentions_marker(c, marker),
        None => false,
    }
}

fn group_mentions_exec(g: &Json, marker: &str) -> (r: bool)
    ensures
        r == group_mentions(g@, marker@),
{
    match g.get("hooks") {
        Some(hs) => match hs.as_array() {
            Some(items) => {
                let ghost iv = hs@.as_array()->0;
                let mut i: usize = 0;
                while i < items.len()
                    invariant
                        g@.get("hooks"@) == Some(hs@),
                        hs@.as_array() == Some(iv),
                        iv.len() == items.len(),
                        forall|k: int| 0 <= k < items.len() ==> #[trigger] iv[k] == items@[k]@,
                        i <= items.len(),
                        forall|k: int| 0 <= k < i ==> !hook_mentions(#[trigger] iv[k], marker@),
                    decreases items.len() - i,
                {
                    if hook_mentions_exec(&items[i], marker) {
                        assert(hook_mentions(iv[i as int], marker@));
                        assert(hs@.as_array()->0 == iv);
                        return true;
                    }
                    i = i + 1;
                }
                false
            },
            None => false,
        },
        None => false,
    }
}

/// Whether a hook whose command contains `marker` is registered for
/// `event` in `settings`.
pub fn event_registered_in(settings: &Json, event: &str, marker: &str) -> (r: bool)
    ensures
        r == event_registered(settings@, event@, marker@),
{
    match settings.get("hooks") {
        Some(h) => match h.get(event) {
            Some(a) => match a.as_array() {
                Some(groups) => {
                    let ghost gv = a@.as_array()->0;
                    let mut i: usize = 0;
                    while i < groups.len()
                        invariant
                            settings@.get("hooks"@) == Some(h@),
                            h@.get(event@) == Some(a@),
                            a@.as_array() == Some(gv),
                            gv.len() == groups.len(),
                            forall|k: int|
                                0 <= k < groups.len() ==> #[trigger] gv[k] == groups@[k]@,
                            i <= groups.len(),
                            forall|k: int| 0 <= k < i ==> !group_mentions(#[trigger] gv[k], marker@),
                        decreases groups.len() - i,
                    {
                        if group_mentions_exec(&groups[i], marker) {
                            assert(group_mentions(gv[i as int], marker@));
                            assert(a@.as_array()->0 == gv);
                            return true;
                        }
                        i = i + 1;
                    }
                    false
                },
                None => false,
            },
            None => false,
        },
        None => false,
    }
}

/// Whether the hooks are installed: the settings, when they could be read
/// and parsed, register a hook whose command contains `marker` for
/// `PreToolUse`.
pub fn hooks_installed(settings: Option<&Json>, marker: &str) -> (r: bool)
    ensures
        r == match settings {
            Some(j) => event_registered(j@, "PreToolUse"@, marker@),
            None => false,
        },
{
    match settings {
        Some(j) => event_registered_in(j, "PreToolUse", marker),
        None => false,
    }
}

/// The events this tool hooks, in the order they are registered.
pub open spec fn hook_events() -> Seq<Seq<char>> {
    seq![
        "SessionStart"@,
        "SessionEnd"@,
        "UserPromptSubmit"@,
        "PreToolUse"@,
        "PostToolUse"@,
        "Stop"@,
        "Notification"@,
        "PermissionRequest"@,
        "PreCompact"@,
        "SubagentStop"@,
    ]
}

/// The names of the hooked events, as `hook_events` lists them.
pub fn hook_event_names() -> (r: Vec<String>)
    ensures
        r.len() == hook_events().len(),
        forall|i: int| 0 <= i < r.len() ==> #[trigger] r[i]@ == hook_events()[i],
{
    let mut r: Vec<String> = Vec::new();
    r.push(owned("SessionStart"));
    r.push(owned("SessionEnd"));
    r.push(owned("UserPromptSubmit"));
    r.push(owned("PreToolUse"));
    r.push(owned("PostToolUse"));
    r.push(owned("Stop"));
    r.push(owned("Notification"));
    r.push(owned("PermissionRequest"));
    r.push(owned("PreCompact"));
    r.push(owned("SubagentStop"));
    r
}

/// The group registered for an event: one hook of type `command` that
/// runs `cmd`.
pub open spec fn hook_entry(cmd: Seq<char>) -> JsonV {
    JsonV::Object(
        seq![
            (
                "hooks"@,
                JsonV::Array(
                    seq![
                        JsonV::Object(
                            seq![("type"@, JsonV::Str("command"@)), ("command"@, JsonV::Str(cmd))],
                        ),
                    ],
                ),
            ),
        ],
    )
}

/// Registering a hook for `event` reaches into the settings without
/// failing: they are an object, its `hooks` member is absent or an
/// object, and that object's member for `event` is absent or an array.
pub open spec fn can_add_hook(s: JsonV, event: Seq<char>) -> bool {
    match s {
        JsonV::Object(ms) => match member_of(ms, "hooks"@) {
            None => true,
            Some(JsonV::Object(hs)) => match member_of(hs, event) {
                None => true,
                Some(a) => a is Array,
            },
            Some(_) => false,
        },
        _ => false,
    }
}

/// The settings with `hook_entry(cmd)` appended to `hooks[event]`, the
/// `hooks` object and the event's array made when missing.
pub open spec fn add_hook(s: JsonV, event: Seq<char>, cmd: Seq<char>) -> JsonV {
    match s {
        JsonV::Object(ms) => {
            let hs = match member_of(ms, "hooks"@) {
                Some(JsonV::Object(hs)) => hs,
                _ => Seq::empty(),
            };
            let groups = match member_of(hs, event) {
                Some(JsonV::Array(gs)) => gs,
                _ => Seq::empty(),
            };
            JsonV::Object(
                set_member(
                    ms,
                    "hooks"@,
                    JsonV::Object(set_member(hs, event, JsonV::Array(groups.push(hook_entry(cmd))))),
                ),
            )
        },
        _ => s,
    }
}

/// One step of the installation: an event already registered is left
/// alone (`false`), any other gets the hook (`true`).
pub open spec fn register_one(s: JsonV, event: Seq<char>, cmd: Seq<char>, marker: Seq<char>) -> (JsonV, bool) {
    if event_registered(s, event, marker) {
        (s, false)
    } else {
        (add_hook(s, event, cmd), true)
    }
}

/// The installation over `events` in turn: the final settings, and for
/// each event whether it was registered now.
pub open spec fn register_all(s: JsonV, events: Seq<Seq<char>>, cmd: Seq<char>, marker: Seq<char>) -> (
    JsonV,
    Seq<bool>,
)
    decreases events.len(),
{
    if events.len() == 0 {
        (s, Seq::empty())
    } else {
        let (s1, b) = register_one(s, events[0], cmd, marker);
        let (s2, bs) = register_all(s1, events.drop_first(), cmd, marker);
        (s2, seq![b] + bs)
    }
}

/// Every step of the installation over `events` that has to add a hook
/// can.
pub open spec fn can_register_all(s: JsonV, events: Seq<Seq<char>>, cmd: Seq<char>, marker: Seq<char>) -> bool
    decreases events.len(),
{
    events.len() == 0 || ((event_registered(s, events[0], marker) || can_add_hook(s, events[0]))
        && can_register_all(register_one(s, events[0], cmd, marker).0, events.drop_first(), cmd, marker))
}

fn hook_entry_exec(cmd: &str) -> (r: Json)
    ensures
        r@ == hook_entry(cmd@),
{
    let mut hook: Vec<(String, Json)> = Vec::new();
    hook.push((owned("type"), Json::Str(owned("command"))));
    hook.push((owned("command"), Json::Str(owned(cmd))));
    let mut hooks: Vec<Json> = Vec::new();
    hooks.push(Json::Object(hook));
    let mut group: Vec<(String, Json)> = Vec::new();
    group.push((owned("hooks"), Json::Array(hooks)));
    let r = Json::Object(group);
    proof {
        lemma_object_view(hook);
        lemma_array_view(hooks);
        lemma_object_view(group);
        assert(members_view(hook@) =~= seq![
            ("type"@, JsonV::Str("command"@)),
            ("command"@, JsonV::Str(cmd@)),
        ]);
        assert(items_view(hooks@) =~= seq![JsonV::Object(members_view(hook@))]);
        assert(members_view(group@) =~= seq![("hooks"@, JsonV::Array(items_view(hooks@)))]);
    }
    r
}

/// A copy of the members of `v` when it is an object, none otherwise.
fn object_members(v: &Json) -> (r: Vec<(String, Json)>)
    ensures
        members_view(r@) == match v@ {
            JsonV::Object(ms) => ms,
            _ => Seq::empty(),
        },
{
    match v.duplicate() {
        Json::Object(ms) => {
            proof {
                lemma_object_view(ms);
            }
            ms
        },
        _ => {
            let r: Vec<(String, Json)> = Vec::new();
            assert(members_view(r@) =~= Seq::empty());
            r
        },
    }
}

/// A copy of the items of `v` when it is an array, none otherwise.
fn array_items(v: &Json) -> (r: Vec<Json>)
    ensures
        items_view(r@) == match v@ {
            JsonV::Array(items) => items,
            _ => Seq::empty(),
        },
{
    match v.duplicate() {
        Json::Array(items) => {
            proof {
                lemma_array_view(items);
            }
            items
        },
        _ => {
            let r: Vec<Json> = Vec::new();
            assert(items_view(r@) =~= Seq::empty());
            r
        },
    }
}

/// Appends this tool's hook group to `settings.hooks[event]`.
fn add_hook_exec(settings: Json, event: &str, cmd: &str) -> (r: Json)
    requires
        can_add_hook(settings@, event@),
    ensures
        r@ == add_hook(settings@, event@, cmd@),
{
    match settings {
        Json::Object(ms) => {
            let mut ms = ms;
            let ghost mv = members_view(ms@);
            proof {
                lemma_object_view(ms);
                lemma_member_pos(mv, "hooks"@);
            }
            let mut hs: Vec<(String, Json)> = match find_member(&ms, "hooks") {
                Some(i) => object_members(&ms[i].1),
                None => Vec::new(),
            };
            let ghost hv = members_view(hs@);
            proof {
                assert(hv =~= match member_of(mv, "hooks"@) {
                    Some(JsonV::Object(h)) => h,
                    _ => Seq::empty(),
                });
                lemma_member_pos(hv, event@);
            }
            let mut groups: Vec<Json> = match find_member(&hs, event) {
                Some(j) => array_items(&hs[j].1),
                None => Vec::new(),
            };
            let ghost gv = items_view(groups@);
            assert(gv =~= match member_of(hv, event@) {
                Some(JsonV::Array(g)) => g,
                _ => Seq::empty(),
            });
            let entry = hook_entry_exec(cmd);
            groups.push(entry);
            assert(items_view(groups@) =~= gv.push(hook_entry(cmd@)));
            let arr = Json::Array(groups);
            proof {
                lemma_array_view(groups);
            }
            set_member_vec(&mut hs, event, arr);
            let obj = Json::Object(hs);
            proof {
                lemma_object_view(hs);
            }
            set_member_vec(&mut ms, "hooks", obj);
            let r = Json::Object(ms);
            proof {
                lemma_object_view(ms);
            }
            r
        },
        other => other,
    }
}

fn can_add_hook_exec(s: &Json, event: &str) -> (r: bool)
    ensures
        r == can_add_hook(s@, event@),
{
    match s {
        Json::Object(ms) => {
            proof {
                lemma_object_view(*ms);
                lemma_member_pos(members_view(ms@), "hooks"@);
            }
            match find_member(ms, "hooks") {
                None => true,
                Some(i) => match &ms[i].1 {
                    Json::Object(hs) => {
                        proof {
                            lemma_object_view(*hs);
                            lemma_member_pos(members_view(hs@), event@);
                        }
                        match find_member(hs, event) {
                            None => true,
                            Some(j) => match &hs[j].1 {
                                Json::Array(_) => true,
                                _ => false,
                            },
                        }
                    },
                    _ => false,
                },
            }
        },
        _ => false,
    }
}

/// Whether `register_hooks` can run on these settings: every event it has
/// to add a hook for finds the settings shaped as `can_add_hook` asks.
pub fn can_register_hooks(settings: &Json, hook_command: &str, marker: &str) -> (r: bool)
    ensures
        r == can_register_all(settings@, hook_events(), hook_command@, marker@),
{
    let events = hook_event_names();
    let ghost evs = hook_events();
    let mut cur = settings.duplicate();
    let mut i: usize = 0;
    assert(evs.skip(0) =~= evs);
    while i < events.len()
        invariant
            evs == hook_events(),
            events.len() == evs.len(),
            forall|k: int| 0 <= k < events.len() ==> #[trigger] events[k]@ == evs[k],
            i <= events.len(),
            can_register_all(settings@, evs, hook_command@, marker@) == can_register_all(
                cur@,
                evs.skip(i as int),
                hook_command@,
                marker@,
            ),
        decreases events.len() - i,
    {
        let ghost rest = evs.skip(i as int);
        assert(rest[0] == evs[i as int]);
        assert(rest.drop_first() =~= evs.skip(i + 1));
        if !event_registered_in(&cur, events[i].as_str(), marker) {
            if !can_add_hook_exec(&cur, events[i].as_str()) {
                assert(rest.len() > 0);
                assert(!can_register_all(cur@, rest, hook_command@, marker@));
                return false;
            }
            cur = add_hook_exec(cur, events[i].as_str(), hook_command);
        }
        i = i + 1;
    }
    assert(evs.skip(i as int) =~= Seq::<Seq<char>>::empty());
    true
}

/// Registers the hook command `hook_command` for every hooked event that
/// has no hook with `marker` yet. Gives the new settings and, for each
/// event of `hook_events` in turn, whether it was registered now (`false`
/// when it was already present).
pub fn register_hooks(settings: Json, hook_command: &str, marker: &str) -> (r: (Json, Vec<bool>))
    requires
        can_register_all(settings@, hook_events(), hook_command@, marker@),
    ensures
        (r.0@, r.1@) == register_all(settings@, hook_events(), hook_command@, marker@),
{
    let events = hook_event_names();
    let ghost evs = hook_events();
    let ghost fin = register_all(settings@, evs, hook_command@, marker@);
    let mut cur = settings;
    let mut done: Vec<bool> = Vec::new();
    let mut i: usize = 0;
    assert(evs.skip(0) =~= evs);
    assert(done@ + fin.1 =~= fin.1);
    while i < events.len()
        invariant
            events.len() == evs.len(),
            forall|k: int| 0 <= k < events.len() ==> #[trigger] events[k]@ == evs[k],
            i <= events.len(),
            register_all(cur@, evs.skip(i as int), hook_command@, marker@).0 == fin.0,
            done@ + register_all(cur@, evs.skip(i as int), hook_command@, marker@).1 == fin.1,
            can_register_all(cur@, evs.skip(i as int), hook_command@, marker@),
        decreases events.len() - i,
    {
        let ghost rest = evs.skip(i as int);
        assert(rest[0] == evs[i as int]);
        assert(rest.drop_first() =~= evs.skip(i + 1));
        let ghost before = cur@;
        let ghost tail = register_all(register_one(before, rest[0], hook_command@, marker@).0, rest.drop_first(), hook_command@, marker@);
        if event_registered_in(&cur, events[i].as_str(), marker) {
            done.push(false);
        } else {
            cur = add_hook_exec(cur, events[i].as_str(), hook_command);
            done.push(true);
        }
        assert(done@ + tail.1 =~= done@.drop_last() + (seq![done@.last()] + tail.1));
        i = i + 1;
    }
    assert(evs.skip(i as int) =~= Seq::<Seq<char>>::empty());
    assert(done@ + Seq::<bool>::empty() =~= done@);
    (cur, done)
}

/// A text given or not, as its characters.
pub open spec fn opt_text(o: Option<&str>) -> Option<Seq<char>> {
    match o {
        Some(t) => Some(t@),
        None => None,
    }
}

/// The settings an install starts from: the settings file's text parsed
/// as JSON, or an empty object when there is no file or it does not parse.
pub open spec fn install_base(existing: Option<Seq<char>>) -> JsonV {
    match existing {
        Some(t) => match json_parse(t) {
            Some(v) => v,
            None => JsonV::Object(Seq::empty()),
        },
        None => JsonV::Object(Seq::empty()),
    }
}

/// Whether the hooks are installed, given the settings file's text
/// (`None` when it could not be read): the text parses as JSON and
/// registers a hook whose command contains `marker` for `PreToolUse`.
pub fn hooks_installed_in_text(content: Option<&str>, marker: &str) -> (r: bool)
    ensures
        r == match opt_text(content) {
            Some(t) => match json_parse(t) {
                Some(v) => event_registered(v, "PreToolUse"@, marker@),
                None => false,
            },
            None => false,
        },
{
    match content {
        Some(t) => match parse_json(t) {
            Some(j) => hooks_installed(Some(&j), marker),
            None => false,
        },
        None => false,
    }
}

/// Installs the hook command `hook_command` into the settings whose file
/// text is `existing` (`None` when there is no file). Gives the text to
/// write back, pretty-printed JSON and a line break, and for each event of
/// `hook_events` whether it was registered now (an event that already has
/// a hook whose command contains `marker` is left alone); `None` when the
/// settings are not shaped so that the hooks can be added.
pub fn install_settings(existing: Option<&str>, hook_command: &str, marker: &str) -> (r: Option<
    (String, Vec<bool>),
>)
    ensures
        ({
            let base = install_base(opt_text(existing));
            let fin = register_all(base, hook_events(), hook_command@, marker@);
            match r {
                Some(out) => {
                    &&& can_register_all(base, hook_events(), hook_command@, marker@)
                    &&& out.0@ == json_pretty(fin.0).push('\n')
                    &&& out.1@ == fin.1
                },
                None => !can_register_all(base, hook_events(), hook_command@, marker@),
            }
        }),
{
    let empty: Vec<(String, Json)> = Vec::new();
    proof {
        lemma_object_view(empty);
        assert(members_view(empty@) =~= Seq::<(Seq<char>, JsonV)>::empty());
    }
    let settings = match existing {
        Some(t) => match parse_json(t) {
            Some(j) => j,
            None => Json::Object(empty),
        },
        None => Json::Object(empty),
    };
    if !can_register_hooks(&settings, hook_command, marker) {
        return None;
    }
    let (out, added) = register_hooks(settings, hook_command, marker);
    let mut text = pretty_text(&out);
    push_char(&mut text, '\n');
    Some((text, added))
}

/// The added group carries the hook command it was made with.
proof fn lemma_entry_mentions(cmd: Seq<char>, marker: Seq<char>)
    requires
        contains_text(cmd, marker),
    ensures
        group_mentions(hook_entry(cmd), marker),
{
    reveal_strlit("type");
    reveal_strlit("command");
    let hm = seq![("type"@, JsonV::Str("command"@)), ("command"@, JsonV::Str(cmd))];
    let hook = JsonV::Object(hm);
    assert("type"@.len() == 4 && "command"@.len() == 7);
    crate::json::lemma_member_of_first(hm, "command"@, 1);
    assert(hook.str_at("command"@) == Some(cmd));
    assert(hook_mentions(hook, marker));
    let items = seq![hook];
    assert(hook_mentions(items[0], marker));
    let gm = seq![("hooks"@, JsonV::Array(items))];
    crate::json::lemma_member_of_first(gm, "hooks"@, 0);
    assert(JsonV::Object(gm).get("hooks"@) == Some(JsonV::Array(items)));
    assert(JsonV::Array(items).as_array() == Some(items));
    assert(any_hook_mentions(items, marker));
    assert(hook_entry(cmd) == JsonV::Object(gm));
}

/// Adding the hook for `event` registers it.
proof fn lemma_add_hook_registers(s: JsonV, event: Seq<char>, cmd: Seq<char>, marker: Seq<char>)
    requires
        can_add_hook(s, event),
        contains_text(cmd, marker),
    ensures
        event_registered(add_hook(s, event, cmd), event, marker),
{
    let ms = s->Object_0;
    let hs = match member_of(ms, "hooks"@) {
        Some(JsonV::Object(hs)) => hs,
        _ => Seq::empty(),
    };
    let groups = match member_of(hs, event) {
        Some(JsonV::Array(gs)) => gs,
        _ => Seq::empty(),
    };
    let ng = groups.push(hook_entry(cmd));
    let nh = JsonV::Object(set_member(hs, event, JsonV::Array(ng)));
    lemma_set_member(ms, "hooks"@, nh, "hooks"@);
    lemma_set_member(hs, event, JsonV::Array(ng), event);
    lemma_entry_mentions(cmd, marker);
    assert(group_mentions(ng[groups.len() as int], marker));
    assert(any_group_mentions(ng, marker));
    let r = add_hook(s, event, cmd);
    assert(r == JsonV::Object(set_member(ms, "hooks"@, nh)));
    assert(r.get("hooks"@) == Some(nh));
    assert(nh.get(event) == Some(JsonV::Array(ng)));
}

/// Adding the hook for `event` keeps every other event's registration.
proof fn lemma_add_hook_keeps(s: JsonV, event: Seq<char>, cmd: Seq<char>, other: Seq<char>, marker: Seq<char>)
    requires
        can_add_hook(s, event),
        event_registered(s, other, marker),
        other != event,
    ensures
        event_registered(add_hook(s, event, cmd), other, marker),
{
    let ms = s->Object_0;
    let hs = match member_of(ms, "hooks"@) {
        Some(JsonV::Object(hs)) => hs,
        _ => Seq::empty(),
    };
    let groups = match member_of(hs, event) {
        Some(JsonV::Array(gs)) => gs,
        _ => Seq::empty(),
    };
    let nh = JsonV::Object(set_member(hs, event, JsonV::Array(groups.push(hook_entry(cmd)))));
    lemma_set_member(ms, "hooks"@, nh, "hooks"@);
    lemma_set_member(hs, event, JsonV::Array(groups.push(hook_entry(cmd))), other);
}

/// One installation step keeps every registration already there, and
/// leaves its own event registered when the command carries the marker.
proof fn lemma_register_one(s: JsonV, event: Seq<char>, cmd: Seq<char>, other: Seq<char>, marker: Seq<char>)
    requires
        event_registered(s, event, marker) || can_add_hook(s, event),
    ensures
        event_registered(s, other, marker) ==> event_registered(register_one(s, event, cmd, marker).0, other, marker),
        contains_text(cmd, marker) ==> event_registered(register_one(s, event, cmd, marker).0, event, marker),
{
    if !event_registered(s, event, marker) {
        if event_registered(s, other, marker) && other != event {
            lemma_add_hook_keeps(s, event, cmd, other, marker);
        }
        if contains_text(cmd, marker) {
            lemma_add_hook_registers(s, event, cmd, marker);
        }
    }
}

/// The installation keeps what was registered and, with a command that
/// carries the marker, registers every event it went over.
proof fn lemma_register_all(s: JsonV, events: Seq<Seq<char>>, cmd: Seq<char>, other: Seq<char>, marker: Seq<char>)
    requires
        can_register_all(s, events, cmd, marker),
    ensures
        event_registered(s, other, marker) ==> event_registered(register_all(s, events, cmd, marker).0, other, marker),
        contains_text(cmd, marker) ==> forall|k: int|
            0 <= k < events.len() ==> event_registered(
                register_all(s, events, cmd, marker).0,
                #[trigger] events[k],
                marker,
            ),
    decreases events.len(),
{
    if events.len() > 0 {
        let s1 = register_one(s, events[0], cmd, marker).0;
        let rest = events.drop_first();
        lemma_register_one(s, events[0], cmd, other, marker);
        lemma_register_all(s1, rest, cmd, other, marker);
        lemma_register_one(s, events[0], cmd, events[0], marker);
        lemma_register_all(s1, rest, cmd, events[0], marker);
        if contains_text(cmd, marker) {
            assert forall|k: int| 0 <= k < events.len() implies event_registered(
                register_all(s, events, cmd, marker).0,
                #[trigger] events[k],
                marker,
            ) by {
                if k > 0 {
                    assert(events[k] == rest[k - 1]);
                }
            }
        }
    }
}

/// With every event already registered, the installation changes
/// nothing and registers nothing.
proof fn lemma_register_none(s: JsonV, events: Seq<Seq<char>>, cmd: Seq<char>, marker: Seq<char>)
    requires
        forall|k: int| 0 <= k < events.len() ==> event_registered(s, #[trigger] events[k], marker),
    ensures
        can_register_all(s, events, cmd, marker),
        register_all(s, events, cmd, marker) == (s, Seq::new(events.len(), |k: int| false)),
    decreases events.len(),
{
    if events.len() > 0 {
        let rest = events.drop_first();
        assert(event_registered(s, events[0], marker));
        assert forall|k: int| 0 <= k < rest.len() implies event_registered(s, #[trigger] rest[k], marker) by {
            assert(rest[k] == events[k + 1]);
        }
        lemma_register_none(s, rest, cmd, marker);
        assert(seq![false] + Seq::new(rest.len(), |k: int| false) =~= Seq::new(
            events.len(),
            |k: int| false,
        ));
    }
}

/// Installing the hooks, with a hook command that carries the marker, leaves every hooked event registered (so the dashboard sees the
/// hooks as installed), and installing again then registers nothing and
/// leaves the settings as they were.
pub proof fn install_is_idempotent(settings: JsonV, hook_command: Seq<char>, marker: Seq<char>)
    requires
        can_register_all(settings, hook_events(), hook_command, marker),
        contains_text(hook_command, marker),
    ensures
        ({
            let installed = register_all(settings, hook_events(), hook_command, marker).0;
            &&& forall|k: int|
                0 <= k < hook_events().len() ==> event_registered(
                    installed,
                    #[trigger] hook_events()[k],
                    marker,
                )
            &&& event_registered(installed, "PreToolUse"@, marker)
            &&& can_register_all(installed, hook_events(), hook_command, marker)
            &&& register_all(installed, hook_events(), hook_command, marker) == (
                installed,
                Seq::new(hook_events().len(), |k: int| false),
            )
        }),
{
    let evs = hook_events();
    lemma_register_all(settings, evs, hook_command, evs[0], marker);
    let installed = register_all(settings, evs, hook_command, marker).0;
    assert(event_registered(installed, evs[3], marker));
    lemma_register_none(installed, evs, hook_command, marker);
}

/// The groups under `hooks[event]` in the settings: none when either is
/// missing or not of its kind.
pub open spec fn event_groups(s: JsonV, event: Seq<char>) -> Seq<JsonV> {
    match s.get("hooks"@) {
        Some(h) => match h.get(event) {
            Some(JsonV::Array(gs)) => gs,
            _ => Seq::empty(),
        },
        None => Seq::empty(),
    }
}

/// An installation step on an event that has no hook with the marker yet
/// appends exactly one group to `hooks[event]`, after the groups already
/// there: `{"hooks": [{"type": "command", "command": cmd}]}`, a command
/// hook that runs `cmd`. An event that has one is left as it was.
pub proof fn install_adds_command_hook(
    s: JsonV,
    event: Seq<char>,
    cmd: Seq<char>,
    marker: Seq<char>,
)
    requires
        can_add_hook(s, event) || event_registered(s, event, marker),
    ensures
        ({
            let (t, added) = register_one(s, event, cmd, marker);
            let group = JsonV::Object(
                seq![
                    (
                        "hooks"@,
                        JsonV::Array(
                            seq![
                                JsonV::Object(
                                    seq![
                                        ("type"@, JsonV::Str("command"@)),
                                        ("command"@, JsonV::Str(cmd)),
                                    ],
                                ),
                            ],
                        ),
                    ),
                ],
            );
            &&& added == !event_registered(s, event, marker)
            &&& !added ==> t == s
            &&& added ==> (t.get("hooks"@) matches Some(h) && h.get(event) == Some(
                JsonV::Array(event_groups(s, event).push(group)),
            ))
        }),
{
    if !event_registered(s, event, marker) {
        let ms = s->Object_0;
        let hs = match member_of(ms, "hooks"@) {
            Some(JsonV::Object(hs)) => hs,
            _ => Seq::empty(),
        };
        let groups = match member_of(hs, event) {
            Some(JsonV::Array(gs)) => gs,
            _ => Seq::empty(),
        };
        assert(groups == event_groups(s, event));
        let ng = groups.push(hook_entry(cmd));
        let nh = JsonV::Object(set_member(hs, event, JsonV::Array(ng)));
        lemma_set_member(ms, "hooks"@, nh, "hooks"@);
        lemma_set_member(hs, event, JsonV::Array(ng), event);
        let t = add_hook(s, event, cmd);
        assert(t == JsonV::Object(set_member(ms, "hooks"@, nh)));
        assert(t.get("hooks"@) == Some(nh));
        assert(nh.get(event) == Some(JsonV::Array(ng)));
    }
}

/// Registration keeps every event that was registered before it.
pub proof fn install_keeps_registrations(settings: JsonV, hook_command: Seq<char>, event: Seq<char>, marker: Seq<char>)
    requires
        can_register_all(settings, hook_events(), hook_command, marker),
        event_registered(settings, event, marker),
    ensures
        event_registered(register_all(settings, hook_events(), hook_command, marker).0, event, marker),
{
    lemma_register_all(settings, hook_events(), hook_command, event, marker);
}

} // verus!
