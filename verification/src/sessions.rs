//! Gateway sessions and their messages, read from what the gateway answers.
use vstd::prelude::*;
use vstd::string::*;

use crate::json::{field, field_trees, items_in, or_else, text_in, trees, u64_in, Json, JsonTree};
use crate::text::{
    concat, concat3, decimal, decimal_injective, decimal_string, join, joined, optional_text, owned,
    same_text, trim, trimmed, trimming_leaves_the_middle, views, white_space,
};

verus! {

/// The text, or the empty text where there is none.
pub open spec fn text_or_empty(s: Option<Seq<char>>) -> Seq<char> {
    match s {
        Some(t) => t,
        None => Seq::empty(),
    }
}

// ---------------------------------------------------------------------------
// Session summaries
// ---------------------------------------------------------------------------
/// A session that the gateway lists.
#[derive(Debug, Clone)]
pub struct SessionSummary {
    pub key: String,
    pub title: Option<String>,
}

/// What a session summary holds.
pub struct SummaryModel {
    pub key: Seq<char>,
    pub title: Option<Seq<char>>,
}

impl View for SessionSummary {
    type V = SummaryModel;

    open spec fn view(&self) -> SummaryModel {
        SummaryModel { key: self.key@, title: optional_text(self.title) }
    }
}

/// What a sequence of session summaries holds.
pub open spec fn summaries(sessions: Seq<SessionSummary>) -> Seq<SummaryModel> {
    sessions.map_values(|s: SessionSummary| s@)
}

impl SessionSummary {
    /// A copy of the summary.
    pub fn duplicate(&self) -> (r: SessionSummary)
        ensures
            r@ == self@,
    {
        SessionSummary {
            key: owned(self.key.as_str()),
            title: match &self.title {
                Some(title) => Some(owned(title.as_str())),
                None => None,
            },
        }
    }
}

/// The session that an object describes itself, if it has a key.
pub open spec fn own_summary(tree: JsonTree) -> Seq<SummaryModel> {
    match text_in(or_else(field(tree, "sessionKey"@), field(tree, "key"@))) {
        Some(key) => seq![
            SummaryModel {
                key,
                title: text_in(
                    or_else(
                        or_else(field(tree, "title"@), field(tree, "name"@)),
                        field(tree, "label"@),
                    ),
                ),
            },
        ],
        None => Seq::empty(),
    }
}

/// The number of documents that stand directly in a document.
pub open spec fn child_count(tree: JsonTree) -> nat {
    match tree {
        JsonTree::Array(items) => items.len(),
        JsonTree::Object(fields) => fields.len(),
        _ => 0,
    }
}

/// The sessions that a document describes: an object first describes itself, then
/// come the sessions of what stands in the document, in document order.
pub open spec fn described_sessions(tree: JsonTree) -> Seq<SummaryModel>
    decreases tree, child_count(tree) + 1,
{
    own_summary(tree) + sessions_in_children(tree, child_count(tree))
}

/// The sessions that the first `n` documents directly in a document describe.
pub open spec fn sessions_in_children(tree: JsonTree, n: nat) -> Seq<SummaryModel>
    decreases tree, n,
{
    if n == 0 || n > child_count(tree) {
        Seq::empty()
    } else {
        match tree {
            JsonTree::Array(items) => sessions_in_children(tree, (n - 1) as nat)
                + described_sessions(items[n - 1]),
            JsonTree::Object(fields) => sessions_in_children(tree, (n - 1) as nat)
                + described_sessions(fields[n - 1].1),
            _ => Seq::empty(),
        }
    }
}

/// A session of that key is among them.
pub open spec fn lists_key(sessions: Seq<SummaryModel>, key: Seq<char>) -> bool {
    exists|i: int| 0 <= i < sessions.len() && (#[trigger] sessions[i]).key == key
}

/// The first session of each key.
pub open spec fn first_of_each_key(sessions: Seq<SummaryModel>) -> Seq<SummaryModel>
    decreases sessions.len(),
{
    if sessions.len() == 0 {
        sessions
    } else {
        let kept = first_of_each_key(sessions.drop_last());
        if lists_key(kept, sessions.last().key) {
            kept
        } else {
            kept.push(sessions.last())
        }
    }
}

fn collect_session_summaries(value: &Json, output: &mut Vec<SessionSummary>)
    ensures
        summaries(final(output)@) == summaries(old(output)@) + described_sessions(value@),
    decreases value@,
{
    let ghost tree = value@;
    match value {
        Json::Object(fields) => {
            assert(tree->Object_0 =~= field_trees(fields@));
            let key = match value.get_either("sessionKey", "key") {
                Some(json) => json.as_str(),
                None => None,
            };
            match key {
                Some(key) => {
                    let title = match value.get_either("title", "name") {
                        Some(json) => Some(json),
                        None => value.get("label"),
                    };
                    let title = match title {
                        Some(json) => match json.as_str() {
                            Some(s) => Some(owned(s)),
                            None => None,
                        },
                        None => None,
                    };
                    let summary = SessionSummary { key: owned(key), title };
                    assert(own_summary(tree) =~= seq![summary@]);
                    output.push(summary);
                    assert(summaries(output@) =~= summaries(old(output)@) + own_summary(tree));
                },
                None => {
                    assert(summaries(output@) =~= summaries(old(output)@) + own_summary(tree));
                },
            }
            let mut i: usize = 0;
            assert(sessions_in_children(tree, 0) =~= Seq::empty());
            while i < fields.len()
                invariant
                    i <= fields@.len(),
                    tree == value@,
                    tree == JsonTree::Object(field_trees(fields@)),
                    summaries(output@) =~= summaries(old(output)@) + own_summary(tree)
                        + sessions_in_children(tree, i as nat),
                decreases fields@.len() - i,
            {
                assert(tree->Object_0[i as int].1 == fields@[i as int].1@);
                assert(decreases_to!(tree => tree->Object_0[i as int].1));
                collect_session_summaries(&fields[i].1, output);
                i += 1;
            }
        },
        Json::Array(items) => {
            assert(tree->Array_0 =~= trees(items@));
            let mut i: usize = 0;
            assert(own_summary(tree) =~= Seq::empty());
            assert(sessions_in_children(tree, 0) =~= Seq::empty());
            while i < items.len()
                invariant
                    i <= items@.len(),
                    tree == value@,
                    tree == JsonTree::Array(trees(items@)),
                    summaries(output@) =~= summaries(old(output)@) + sessions_in_children(
                        tree,
                        i as nat,
                    ),
                decreases items@.len() - i,
            {
                assert(tree->Array_0[i as int] == items@[i as int]@);
                collect_session_summaries(&items[i], output);
                i += 1;
            }
        },
        _ => {
            assert(own_summary(tree) =~= Seq::empty());
        },
    }
    assert(summaries(output@) =~= summaries(old(output)@) + described_sessions(value@));
}

/// Whether a session of that key is among them.
fn key_is_listed(sessions: &Vec<SessionSummary>, key: &str) -> (r: bool)
    ensures
        r == lists_key(summaries(sessions@), key@),
{
    let mut i: usize = 0;
    while i < sessions.len()
        invariant
            i <= sessions@.len(),
            forall|k: int| 0 <= k < i ==> (#[trigger] summaries(sessions@)[k]).key != key@,
        decreases sessions@.len() - i,
    {
        assert(summaries(sessions@)[i as int] == sessions@[i as int]@);
        if same_text(sessions[i].key.as_str(), key) {
            return true;
        }
        i += 1;
    }
    false
}

/// The sessions that a document describes, the first of each key.
pub fn extract_session_summaries(value: &Json) -> (sessions: Vec<SessionSummary>)
    ensures
        summaries(sessions@) == first_of_each_key(described_sessions(value@)),
{
    let mut found: Vec<SessionSummary> = Vec::new();
    collect_session_summaries(value, &mut found);
    let ghost all = summaries(found@);
    assert(all =~= described_sessions(value@));
    let ghost given = found@;
    let mut kept: Vec<SessionSummary> = Vec::new();
    for summary in iter: found
        invariant
            iter.seq() == given,
            all == summaries(given),
            summaries(kept@) =~= first_of_each_key(all.take(iter.index())),
    {
        let ghost longer = all.take(iter.index() + 1);
        assert(longer.drop_last() =~= all.take(iter.index()));
        assert(longer.last() == summary@);
        if !key_is_listed(&kept, summary.key.as_str()) {
            let ghost before = summaries(kept@);
            kept.push(summary);
            assert(summaries(kept@) =~= before.push(summary@));
        }
    }
    assert(all.take(all.len() as int) =~= all);
    kept
}

// ---------------------------------------------------------------------------
// Session messages
// ---------------------------------------------------------------------------
/// A message of a session.
#[derive(Debug, Clone)]
pub struct SessionMessage {
    pub role: Option<String>,
    pub text: Option<String>,
    pub id: Option<String>,
    pub seq: Option<u64>,
    pub created_at: Option<String>,
}

/// What a message holds.
pub struct MessageModel {
    pub role: Option<Seq<char>>,
    pub text: Option<Seq<char>>,
    pub id: Option<Seq<char>>,
    pub seq: Option<u64>,
    pub created_at: Option<Seq<char>>,
}

impl View for SessionMessage {
    type V = MessageModel;

    open spec fn view(&self) -> MessageModel {
        MessageModel {
            role: optional_text(self.role),
            text: optional_text(self.text),
            id: optional_text(self.id),
            seq: self.seq,
            created_at: optional_text(self.created_at),
        }
    }
}

/// What a sequence of messages holds.
pub open spec fn message_views(messages: Seq<SessionMessage>) -> Seq<MessageModel> {
    messages.map_values(|m: SessionMessage| m@)
}

/// The mark by which a message is recognised: its identifier, else its sequence
/// number, else its role, time and text.
pub open spec fn message_fingerprint(message: MessageModel) -> Seq<char> {
    match message.id {
        Some(id) => "id:"@ + id,
        None => match message.seq {
            Some(seq) => "seq:"@ + decimal(seq as nat),
            None => "role:"@ + text_or_empty(message.role) + "|at:"@ + text_or_empty(
                message.created_at,
            ) + "|text:"@ + text_or_empty(message.text),
        },
    }
}

/// The contents of an optional string, or the empty text.
fn str_or_empty(s: &Option<String>) -> (r: &str)
    ensures
        r@ == text_or_empty(optional_text(*s)),
{
    match s {
        Some(t) => t.as_str(),
        None => {
            proof {
                reveal_strlit("");
                assert(""@ =~= Seq::empty());
            }
            ""
        },
    }
}

impl SessionMessage {
    /// The mark by which the message is recognised.
    pub fn fingerprint(&self) -> (r: String)
        ensures
            r@ == message_fingerprint(self@),
    {
        if let Some(id) = &self.id {
            return concat("id:", id.as_str());
        }
        if let Some(seq) = self.seq {
            let number = decimal_string(seq);
            return concat("seq:", number.as_str());
        }
        let mut r = concat3("role:", str_or_empty(&self.role), "|at:");
        r.append(str_or_empty(&self.created_at));
        r.append("|text:");
        r.append(str_or_empty(&self.text));
        r
    }
}

/// A text without surrounding white space, unless nothing is left.
pub open spec fn nonblank(text: Option<Seq<char>>) -> Option<Seq<char>> {
    match text {
        Some(t) => if trimmed(t).len() > 0 {
            Some(trimmed(t))
        } else {
            None
        },
        None => None,
    }
}

/// The text under a name in a document, unless it is blank.
pub open spec fn nonblank_field(tree: JsonTree, name: Seq<char>) -> Option<Seq<char>> {
    nonblank(text_in(field(tree, name)))
}

/// The one text, or no text, as a sequence.
pub open spec fn as_list(text: Option<Seq<char>>) -> Seq<Seq<char>> {
    match text {
        Some(t) => seq![t],
        None => Seq::empty(),
    }
}

/// The texts of one part of a message.
pub open spec fn part_texts(part: JsonTree) -> Seq<Seq<char>> {
    as_list(nonblank_field(part, "text"@)) + as_list(nonblank_field(part, "content"@)) + as_list(
        nonblank_field(part, "value"@),
    )
}

/// The texts of the parts of a message, in order.
pub open spec fn parts_texts(parts: Seq<JsonTree>) -> Seq<Seq<char>>
    decreases parts.len(),
{
    if parts.len() == 0 {
        Seq::empty()
    } else {
        parts_texts(parts.drop_last()) + part_texts(parts.last())
    }
}

/// The text that a message carries in one of its fields.
pub open spec fn direct_text(tree: JsonTree) -> Option<Seq<char>> {
    if nonblank_field(tree, "text"@) is Some {
        nonblank_field(tree, "text"@)
    } else if nonblank_field(tree, "content"@) is Some {
        nonblank_field(tree, "content"@)
    } else if nonblank_field(tree, "body"@) is Some {
        nonblank_field(tree, "body"@)
    } else if nonblank_field(tree, "message"@) is Some {
        nonblank_field(tree, "message"@)
    } else {
        nonblank_field(tree, "value"@)
    }
}

/// The text of a message: that of one of its fields, else the texts of its
/// content parts, one on each line.
pub open spec fn text_of_message(tree: JsonTree) -> Option<Seq<char>> {
    if direct_text(tree) is Some {
        direct_text(tree)
    } else {
        match items_in(field(tree, "content"@)) {
            Some(parts) => if parts_texts(parts).len() > 0 {
                Some(joined(parts_texts(parts), "\n"@))
            } else {
                None
            },
            None => None,
        }
    }
}

/// The message that a document describes.
pub open spec fn described_message(tree: JsonTree) -> MessageModel {
    MessageModel {
        role: text_in(field(tree, "role"@)),
        text: text_of_message(tree),
        id: text_in(
            or_else(
                or_else(field(tree, "id"@), field(tree, "messageId"@)),
                field(tree, "message_id"@),
            ),
        ),
        seq: u64_in(
            or_else(
                or_else(
                    or_else(field(tree, "seq"@), field(tree, "sequence"@)),
                    field(tree, "messageSeq"@),
                ),
                field(tree, "message_seq"@),
            ),
        ),
        created_at: text_in(
            or_else(
                or_else(field(tree, "createdAt"@), field(tree, "created_at"@)),
                field(tree, "timestamp"@),
            ),
        ),
    }
}

/// The messages that an answer lists, none where it lists none.
pub open spec fn listed_messages(tree: JsonTree) -> Seq<MessageModel> {
    match items_in(field(tree, "messages"@)) {
        Some(items) => items.map_values(|item: JsonTree| described_message(item)),
        None => Seq::empty(),
    }
}

/// The text under a name, unless it is blank.
fn nonblank_text(value: &Json, name: &str) -> (r: Option<String>)
    ensures
        optional_text(r) == nonblank_field(value@, name@),
{
    match value.get(name) {
        Some(json) => match json.as_str() {
            Some(text) => {
                let body = trim(text);
                if body.is_empty() {
                    None
                } else {
                    Some(owned(body))
                }
            },
            None => None,
        },
        None => None,
    }
}

/// Adds the text under a name, unless it is blank.
fn collect_text(value: &Json, name: &str, out: &mut Vec<String>)
    ensures
        views(final(out)@) == views(old(out)@) + as_list(nonblank_field(value@, name@)),
{
    if let Some(text) = nonblank_text(value, name) {
        out.push(text);
    }
    assert(views(out@) =~= views(old(out)@) + as_list(nonblank_field(value@, name@)));
}

/// The text of a message.
pub fn extract_text_from_value(value: &Json) -> (r: Option<String>)
    ensures
        optional_text(r) == text_of_message(value@),
{
    if let Some(text) = nonblank_text(value, "text") {
        return Some(text);
    }
    if let Some(text) = nonblank_text(value, "content") {
        return Some(text);
    }
    if let Some(text) = nonblank_text(value, "body") {
        return Some(text);
    }
    if let Some(text) = nonblank_text(value, "message") {
        return Some(text);
    }
    if let Some(text) = nonblank_text(value, "value") {
        return Some(text);
    }
    let parts = match value.get("content") {
        Some(content) => content.as_array(),
        None => None,
    };
    match parts {
        Some(parts) => {
            let ghost all = trees(parts@);
            let mut collected: Vec<String> = Vec::new();
            let mut i: usize = 0;
            assert(views(collected@) =~= parts_texts(all.take(0)));
            while i < parts.len()
                invariant
                    i <= parts@.len(),
                    all == trees(parts@),
                    views(collected@) == parts_texts(all.take(i as int)),
                decreases parts@.len() - i,
            {
                assert(all.take(i + 1).drop_last() =~= all.take(i as int));
                assert(all.take(i + 1).last() == parts@[i as int]@);
                let ghost before = views(collected@);
                let part = &parts[i];
                collect_text(part, "text", &mut collected);
                collect_text(part, "content", &mut collected);
                collect_text(part, "value", &mut collected);
                assert(views(collected@) =~= before + part_texts(part@));
                i += 1;
            }
            assert(all.take(all.len() as int) =~= all);
            if collected.len() > 0 {
                Some(join(&collected, "\n"))
            } else {
                None
            }
        },
        None => None,
    }
}

/// The text in a document, if there is one.
fn text_of(value: Option<&Json>) -> (r: Option<String>)
    ensures
        optional_text(r) == text_in(
            match value {
                Some(json) => Some(json@),
                None => None,
            },
        ),
{
    match value {
        Some(json) => match json.as_str() {
            Some(s) => Some(owned(s)),
            None => None,
        },
        None => None,
    }
}

/// The message that a document describes.
pub fn session_message_from_value(message: &Json) -> (r: SessionMessage)
    ensures
        r@ == described_message(message@),
{
    let id = match message.get_either("id", "messageId") {
        Some(json) => Some(json),
        None => message.get("message_id"),
    };
    let seq = match message.get_either("seq", "sequence") {
        Some(json) => Some(json),
        None => message.get_either("messageSeq", "message_seq"),
    };
    let created_at = match message.get_either("createdAt", "created_at") {
        Some(json) => Some(json),
        None => message.get("timestamp"),
    };
    SessionMessage {
        role: text_of(message.get("role")),
        text: extract_text_from_value(message),
        id: text_of(id),
        seq: match seq {
            Some(json) => json.as_u64(),
            None => None,
        },
        created_at: text_of(created_at),
    }
}

/// The messages that an answer lists.
pub fn messages_from_payload(payload: &Json) -> (messages: Vec<SessionMessage>)
    ensures
        message_views(messages@) == listed_messages(payload@),
        match field(payload@, "messages"@) {
            Some(JsonTree::Array(items)) => {
                &&& messages@.len() == items.len()
                &&& forall|i: int|
                    0 <= i < items.len() ==> (#[trigger] messages@[i])@ == described_message(
                        items[i],
                    )
            },
            _ => messages@.len() == 0,
        },
{
    let mut messages: Vec<SessionMessage> = Vec::new();
    let items = match payload.get("messages") {
        Some(json) => json.as_array(),
        None => None,
    };
    if let Some(items) = items {
        let mut i: usize = 0;
        while i < items.len()
            invariant
                i <= items@.len(),
                messages@.len() == i,
                forall|k: int|
                    0 <= k < i ==> (#[trigger] messages@[k])@ == described_message(items@[k]@),
            decreases items@.len() - i,
        {
            messages.push(session_message_from_value(&items[i]));
            i += 1;
        }
        assert(message_views(messages@) =~= listed_messages(payload@));
    } else {
        assert(message_views(messages@) =~= listed_messages(payload@));
    }
    messages
}

// ---------------------------------------------------------------------------
// Laws
// ---------------------------------------------------------------------------
/// No two of the sessions that are kept share a key, each of them is one of those
/// described, and no described key is lost.
pub proof fn kept_sessions_are_distinct(sessions: Seq<SummaryModel>)
    ensures
        forall|i: int, j: int|
            0 <= i < j < first_of_each_key(sessions).len() ==> (#[trigger] first_of_each_key(
                sessions,
            )[i]).key != (#[trigger] first_of_each_key(sessions)[j]).key,
        forall|i: int|
            0 <= i < first_of_each_key(sessions).len() ==> sessions.contains(
                #[trigger] first_of_each_key(sessions)[i],
            ),
        forall|key: Seq<char>| #[trigger]
            lists_key(first_of_each_key(sessions), key) <==> lists_key(sessions, key),
    decreases sessions.len(),
{
    if sessions.len() > 0 {
        let shorter = sessions.drop_last();
        kept_sessions_are_distinct(shorter);
        let kept = first_of_each_key(shorter);
        let all = first_of_each_key(sessions);
        assert forall|i: int| 0 <= i < all.len() implies sessions.contains(#[trigger] all[i]) by {
            if i < kept.len() {
                assert(shorter.contains(kept[i]));
                let k = choose|k: int| 0 <= k < shorter.len() && shorter[k] == kept[i];
                assert(sessions[k] == kept[i]);
            } else {
                assert(sessions[sessions.len() - 1] == all[i]);
            }
        }
        assert forall|key: Seq<char>| #[trigger] lists_key(all, key) <==> lists_key(
            sessions,
            key,
        ) by {
            if lists_key(all, key) {
                let i = choose|i: int| 0 <= i < all.len() && (#[trigger] all[i]).key == key;
                let k = choose|k: int| 0 <= k < sessions.len() && sessions[k] == all[i];
                assert(sessions[k].key == key);
            }
            if lists_key(sessions, key) {
                let i = choose|i: int| 0 <= i < sessions.len() && (#[trigger] sessions[i]).key == key;
                if i < shorter.len() {
                    assert(shorter[i].key == key);
                    assert(lists_key(kept, key));
                    let k = choose|k: int| 0 <= k < kept.len() && (#[trigger] kept[k]).key == key;
                    assert(all[k] == kept[k]);
                } else if lists_key(kept, key) {
                    let k = choose|k: int| 0 <= k < kept.len() && (#[trigger] kept[k]).key == key;
                    assert(all[k] == kept[k]);
                } else {
                    assert(all[all.len() - 1].key == key);
                }
            }
        }
    }
}

/// Of the described sessions with a key, the first one is kept.
pub proof fn first_session_of_key_is_kept(sessions: Seq<SummaryModel>, at: int)
    requires
        0 <= at < sessions.len(),
        !lists_key(sessions.take(at), sessions[at].key),
    ensures
        first_of_each_key(sessions).contains(sessions[at]),
    decreases sessions.len(),
{
    let shorter = sessions.drop_last();
    if at < shorter.len() {
        assert(shorter.take(at) =~= sessions.take(at));
        first_session_of_key_is_kept(shorter, at);
        let kept = first_of_each_key(shorter);
        let k = choose|k: int| 0 <= k < kept.len() && kept[k] == sessions[at];
        assert(first_of_each_key(sessions)[k] == sessions[at]);
    } else {
        kept_sessions_are_distinct(shorter);
        assert(shorter =~= sessions.take(at));
        let all = first_of_each_key(sessions);
        assert(all[all.len() - 1] == sessions[at]);
    }
}

/// Fingerprints tell messages apart by identifier, then by sequence number, and a
/// message recognised one way is never mistaken for one recognised another way.
pub proof fn fingerprint_distinguishes(a: MessageModel, b: MessageModel)
    requires
        message_fingerprint(a) == message_fingerprint(b),
    ensures
        a.id == b.id,
        a.id is None ==> a.seq == b.seq,
{
    reveal_strlit("id:");
    reveal_strlit("seq:");
    reveal_strlit("role:");
    let f = message_fingerprint(a);
    assert(a.id is Some ==> f[0] == 'i');
    assert(b.id is Some ==> f[0] == 'i');
    assert(a.id is None && a.seq is Some ==> f[0] == 's');
    assert(b.id is None && b.seq is Some ==> f[0] == 's');
    assert(a.id is None && a.seq is None ==> f[0] == 'r');
    assert(b.id is None && b.seq is None ==> f[0] == 'r');
    if a.id is Some {
        assert(f.skip(3) =~= a.id->Some_0);
        assert(f.skip(3) =~= b.id->Some_0);
    } else if a.seq is Some {
        assert(f.skip(4) =~= decimal(a.seq->Some_0 as nat));
        assert(f.skip(4) =~= decimal(b.seq->Some_0 as nat));
        decimal_injective(a.seq->Some_0 as nat, b.seq->Some_0 as nat);
    }
}

/// Every item that an answer lists is a message, in the order of the items and none of
/// them left out. An answer that lists nothing has no messages.
pub proof fn every_item_is_a_message(payload: JsonTree, items: Seq<JsonTree>)
    ensures
        field(payload, "messages"@) == Some(JsonTree::Array(items)) ==> {
            &&& listed_messages(payload).len() == items.len()
            &&& forall|i: int|
                0 <= i < items.len() ==> #[trigger] listed_messages(payload)[i]
                    == described_message(items[i])
        },
        !(field(payload, "messages"@) matches Some(JsonTree::Array(_))) ==> listed_messages(
            payload,
        ).len() == 0,
{
}

/// Longer answers list more messages: what is listed behind others does not change how
/// those are read, and is read after them.
pub proof fn lists_of_messages_add_up(first: Seq<JsonTree>, second: Seq<JsonTree>)
    ensures
        ({
            let list = |items: Seq<JsonTree>|
                JsonTree::Object(seq![("messages"@, JsonTree::Array(items))]);
            listed_messages(list(first + second)) == listed_messages(list(first))
                + listed_messages(list(second))
        }),
{
    let list = |items: Seq<JsonTree>|
        JsonTree::Object(seq![("messages"@, JsonTree::Array(items))]);
    assert forall|items: Seq<JsonTree>| field(#[trigger] list(items), "messages"@) == Some(
        JsonTree::Array(items),
    ) by {
        assert(list(items)->Object_0.first() == ("messages"@, JsonTree::Array(items)));
    }
    let whole = first + second;
    every_item_is_a_message(list(whole), whole);
    every_item_is_a_message(list(first), first);
    every_item_is_a_message(list(second), second);
    assert(listed_messages(list(whole)) =~= listed_messages(list(first)) + listed_messages(
        list(second),
    ));
}

/// A message has the role, the identifier, the sequence number and the time that its
/// document gives under one of the names for it. The names are tried in order, and the
/// first that is there counts.
pub proof fn messages_have_their_fields(tree: JsonTree)
    ensures
        ({
            let message = described_message(tree);
            &&& message.role == text_in(field(tree, "role"@))
            &&& field(tree, "id"@) is Some ==> message.id == text_in(field(tree, "id"@))
            &&& field(tree, "id"@) is None && field(tree, "messageId"@) is Some ==> message.id
                == text_in(field(tree, "messageId"@))
            &&& field(tree, "id"@) is None && field(tree, "messageId"@) is None ==> message.id
                == text_in(field(tree, "message_id"@))
            &&& field(tree, "seq"@) is Some ==> message.seq == u64_in(field(tree, "seq"@))
            &&& field(tree, "seq"@) is None && field(tree, "sequence"@) is Some ==> message.seq
                == u64_in(field(tree, "sequence"@))
            &&& field(tree, "seq"@) is None && field(tree, "sequence"@) is None && field(
                tree,
                "messageSeq"@,
            ) is Some ==> message.seq == u64_in(field(tree, "messageSeq"@))
            &&& field(tree, "seq"@) is None && field(tree, "sequence"@) is None && field(
                tree,
                "messageSeq"@,
            ) is None ==> message.seq == u64_in(field(tree, "message_seq"@))
            &&& field(tree, "createdAt"@) is Some ==> message.created_at == text_in(
                field(tree, "createdAt"@),
            )
            &&& field(tree, "createdAt"@) is None && field(tree, "created_at"@) is Some
                ==> message.created_at == text_in(field(tree, "created_at"@))
            &&& field(tree, "createdAt"@) is None && field(tree, "created_at"@) is None
                ==> message.created_at == text_in(field(tree, "timestamp"@))
        }),
{
}

/// A document has no text under that name, or a blank one.
pub open spec fn says_nothing(tree: JsonTree, name: Seq<char>) -> bool {
    match field(tree, name) {
        Some(JsonTree::Text(text)) => trimmed(text).len() == 0,
        _ => true,
    }
}

/// The text under that name without surrounding white space, where there is one.
pub open spec fn said(tree: JsonTree, name: Seq<char>) -> Option<Seq<char>> {
    match field(tree, name) {
        Some(JsonTree::Text(text)) => Some(trimmed(text)),
        _ => None,
    }
}

/// The text of a message is the first that stands in its document and is not blank,
/// without surrounding white space. Where there is none it is made of the parts of the
/// content, one line for each text.
pub proof fn messages_say_what_stands_first(tree: JsonTree)
    ensures
        ({
            let text = described_message(tree).text;
            let none_direct = says_nothing(tree, "text"@) && says_nothing(tree, "content"@)
                && says_nothing(tree, "body"@) && says_nothing(tree, "message"@) && says_nothing(
                tree,
                "value"@,
            );
            &&& !says_nothing(tree, "text"@) ==> text == said(tree, "text"@)
            &&& says_nothing(tree, "text"@) && !says_nothing(tree, "content"@) ==> text == said(
                tree,
                "content"@,
            )
            &&& says_nothing(tree, "text"@) && says_nothing(tree, "content"@) && !says_nothing(
                tree,
                "body"@,
            ) ==> text == said(tree, "body"@)
            &&& says_nothing(tree, "text"@) && says_nothing(tree, "content"@) && says_nothing(
                tree,
                "body"@,
            ) && !says_nothing(tree, "message"@) ==> text == said(tree, "message"@)
            &&& says_nothing(tree, "text"@) && says_nothing(tree, "content"@) && says_nothing(
                tree,
                "body"@,
            ) && says_nothing(tree, "message"@) && !says_nothing(tree, "value"@) ==> text
                == said(tree, "value"@)
            &&& none_direct ==> match field(tree, "content"@) {
                Some(JsonTree::Array(parts)) => if parts_texts(parts).len() > 0 {
                    text == Some(joined(parts_texts(parts), seq!['\n']))
                } else {
                    text is None
                },
                _ => text is None,
            }
        }),
{
    reveal_strlit("\n");
    assert("\n"@ =~= seq!['\n']);
}

/// The parts of a content add up, and one part says what stands in it as text, as
/// content and as value, as far as that is not blank.
pub proof fn parts_of_content_add_up(first: Seq<JsonTree>, second: Seq<JsonTree>, part: JsonTree)
    ensures
        parts_texts(first + second) == parts_texts(first) + parts_texts(second),
        ({
            let texts = if says_nothing(part, "text"@) {
                Seq::empty()
            } else {
                seq![said(part, "text"@)->Some_0]
            };
            let contents = if says_nothing(part, "content"@) {
                Seq::empty()
            } else {
                seq![said(part, "content"@)->Some_0]
            };
            let values = if says_nothing(part, "value"@) {
                Seq::empty()
            } else {
                seq![said(part, "value"@)->Some_0]
            };
            parts_texts(seq![part]) == texts + contents + values
        }),
        parts_texts(Seq::empty()).len() == 0,
    decreases second.len(),
{
    assert(seq![part].drop_last() =~= Seq::empty());
    assert(parts_texts(Seq::empty()) =~= Seq::empty());
    assert(parts_texts(seq![part]) == parts_texts(Seq::empty()) + part_texts(part));
    assert(parts_texts(seq![part]) =~= part_texts(part));
    if second.len() > 0 {
        let whole = first + second;
        parts_of_content_add_up(first, second.drop_last(), part);
        assert(whole.drop_last() =~= first + second.drop_last());
        assert(parts_texts(whole) =~= parts_texts(first) + parts_texts(second));
    } else {
        assert(first + second =~= first);
        assert(parts_texts(first) + parts_texts(second) =~= parts_texts(first));
    }
}

/// An object describes a session exactly if it holds a text under `sessionKey`, or
/// where there is no such field, under `key`; that text is the key. The title is the
/// first of `title`, `name` and `label` that is there, if that is a text.
pub proof fn sessions_are_described_by_their_key(tree: JsonTree)
    ensures
        ({
            let key = if field(tree, "sessionKey"@) is Some {
                text_in(field(tree, "sessionKey"@))
            } else {
                text_in(field(tree, "key"@))
            };
            let title = if field(tree, "title"@) is Some {
                text_in(field(tree, "title"@))
            } else if field(tree, "name"@) is Some {
                text_in(field(tree, "name"@))
            } else {
                text_in(field(tree, "label"@))
            };
            &&& key is None ==> own_summary(tree).len() == 0
            &&& key matches Some(named) ==> own_summary(tree) == seq![
                SummaryModel { key: named, title },
            ]
        }),
{
}

/// Sessions are found at any depth: a document describes its own session, if it has
/// one, and then all those of what stands in it, in order.
pub proof fn sessions_are_found_at_any_depth(
    tree: JsonTree,
    items: Seq<JsonTree>,
    fields: Seq<(Seq<char>, JsonTree)>,
)
    ensures
        described_sessions(JsonTree::Array(items)) == items.map_values(
            |item: JsonTree| described_sessions(item),
        ).flatten(),
        described_sessions(JsonTree::Object(fields)) == own_summary(JsonTree::Object(fields))
            + fields.map_values(
            |inner: (Seq<char>, JsonTree)| described_sessions(inner.1),
        ).flatten(),
        !(tree is Array) && !(tree is Object) ==> described_sessions(tree).len() == 0,
{
    lemma_children_of_array(items, items.len());
    assert(items.take(items.len() as int) =~= items);
    assert(own_summary(JsonTree::Array(items)) =~= Seq::empty());
    assert(described_sessions(JsonTree::Array(items)) =~= sessions_in_children(
        JsonTree::Array(items),
        items.len(),
    ));
    lemma_children_of_object(fields, fields.len());
    assert(fields.take(fields.len() as int) =~= fields);
}

proof fn lemma_children_of_array(items: Seq<JsonTree>, n: nat)
    requires
        n <= items.len(),
    ensures
        sessions_in_children(JsonTree::Array(items), n) == items.take(n as int).map_values(
            |item: JsonTree| described_sessions(item),
        ).flatten(),
    decreases n,
{
    let described = |item: JsonTree| described_sessions(item);
    let all = items.take(n as int).map_values(described);
    if n > 0 {
        let shorter = items.take(n - 1).map_values(described);
        lemma_children_of_array(items, (n - 1) as nat);
        assert(all =~= shorter.push(described_sessions(items[n - 1])));
        shorter.lemma_flatten_push(described_sessions(items[n - 1]));
    } else {
        assert(all =~= Seq::empty());
        assert(sessions_in_children(JsonTree::Array(items), n) =~= all.flatten());
    }
}

proof fn lemma_children_of_object(fields: Seq<(Seq<char>, JsonTree)>, n: nat)
    requires
        n <= fields.len(),
    ensures
        sessions_in_children(JsonTree::Object(fields), n) == fields.take(n as int).map_values(
            |inner: (Seq<char>, JsonTree)| described_sessions(inner.1),
        ).flatten(),
    decreases n,
{
    let described = |inner: (Seq<char>, JsonTree)| described_sessions(inner.1);
    let all = fields.take(n as int).map_values(described);
    if n > 0 {
        let shorter = fields.take(n - 1).map_values(described);
        lemma_children_of_object(fields, (n - 1) as nat);
        assert(all =~= shorter.push(described_sessions(fields[n - 1].1)));
        shorter.lemma_flatten_push(described_sessions(fields[n - 1].1));
    } else {
        assert(all =~= Seq::empty());
        assert(sessions_in_children(JsonTree::Object(fields), n) =~= all.flatten());
    }
}

/// The sessions that are kept stand in the order in which they are described: each is
/// found behind those kept before it.
pub proof fn kept_sessions_keep_their_order(sessions: Seq<SummaryModel>) -> (places: Seq<int>)
    ensures
        places.len() == first_of_each_key(sessions).len(),
        forall|i: int|
            0 <= i < places.len() ==> 0 <= #[trigger] places[i] < sessions.len()
                && first_of_each_key(sessions)[i] == sessions[places[i]],
        forall|i: int, j: int|
            0 <= i < j < places.len() ==> #[trigger] places[i] < #[trigger] places[j],
    decreases sessions.len(),
{
    if sessions.len() == 0 {
        Seq::empty()
    } else {
        let shorter = sessions.drop_last();
        let places = kept_sessions_keep_their_order(shorter);
        let kept = first_of_each_key(shorter);
        if lists_key(kept, sessions.last().key) {
            places
        } else {
            places.push(sessions.len() - 1)
        }
    }
}

/// Messages without identifier and sequence number are told apart by their role, their
/// time and their text: two that agree in two of these and share a fingerprint agree in
/// the third.
pub proof fn fingerprint_tells_contents_apart(a: MessageModel, b: MessageModel)
    requires
        a.id is None,
        b.id is None,
        a.seq is None,
        b.seq is None,
        message_fingerprint(a) == message_fingerprint(b),
    ensures
        a.role == b.role && a.created_at == b.created_at ==> text_or_empty(a.text)
            == text_or_empty(b.text),
        a.role == b.role && a.text == b.text ==> text_or_empty(a.created_at) == text_or_empty(
            b.created_at,
        ),
        a.created_at == b.created_at && a.text == b.text ==> text_or_empty(a.role)
            == text_or_empty(b.role),
{
    reveal_strlit("role:");
    reveal_strlit("|at:");
    reveal_strlit("|text:");
    let f = message_fingerprint(a);
    let (r, t, x) = (text_or_empty(a.role), text_or_empty(a.created_at), text_or_empty(a.text));
    let (s, u, y) = (text_or_empty(b.role), text_or_empty(b.created_at), text_or_empty(b.text));
    assert(f.len() == 15 + r.len() + t.len() + x.len());
    assert(f.len() == 15 + s.len() + u.len() + y.len());
    if r == s && t == u {
        assert(x =~= f.skip(15 + r.len() as int + t.len()));
        assert(y =~= f.skip(15 + r.len() as int + t.len()));
    }
    if r == s && x == y {
        assert(t =~= f.subrange(9 + r.len() as int, 9 + r.len() as int + t.len()));
        assert(u =~= f.subrange(9 + r.len() as int, 9 + r.len() as int + t.len()));
    }
    if t == u && x == y {
        assert(r =~= f.subrange(5, 5 + r.len() as int));
        assert(s =~= f.subrange(5, 5 + r.len() as int));
    }
}

/// A text that is not blank is taken without the white space around it, and a blank or
/// missing one is none.
pub proof fn blank_texts_are_none(before: Seq<char>, middle: Seq<char>, after: Seq<char>)
    requires
        forall|i: int| 0 <= i < before.len() ==> white_space(#[trigger] before[i]),
        forall|i: int| 0 <= i < after.len() ==> white_space(#[trigger] after[i]),
        middle.len() > 0 ==> !white_space(middle[0]) && !white_space(middle[middle.len() - 1]),
    ensures
        middle.len() > 0 ==> nonblank(Some(before + middle + after)) == Some(middle),
        middle.len() == 0 ==> nonblank(Some(before + middle + after)) is None,
        nonblank(None) is None,
        text_or_empty(Some(middle)) == middle,
        text_or_empty(None).len() == 0,
{
    trimming_leaves_the_middle(before, middle, after);
}

/// A message is recognised by its identifier alone where it has one, and else by its
/// sequence number alone: whatever else changes, it stays the same message.
pub proof fn identified_messages_stay_the_same(a: MessageModel, b: MessageModel)
    ensures
        a.id is Some && a.id == b.id ==> message_fingerprint(a) == message_fingerprint(b),
        a.id is None && b.id is None && a.seq is Some && a.seq == b.seq ==> message_fingerprint(a)
            == message_fingerprint(b),
        a.id is None && b.id is None && a.seq is None && b.seq is None && a.role == b.role
            && a.created_at == b.created_at && a.text == b.text ==> message_fingerprint(a)
            == message_fingerprint(b),
{
}

/// A summary holds the key and the title of its session, and a list of summaries those
/// of every session in it, in order.
pub proof fn summaries_hold_every_session(sessions: Seq<SessionSummary>, session: SessionSummary)
    ensures
        session@.key == session.key@,
        session.title matches Some(title) ==> session@.title == Some(title@),
        session.title is None ==> session@.title is None,
        summaries(sessions).len() == sessions.len(),
        forall|i: int|
            0 <= i < sessions.len() ==> #[trigger] summaries(sessions)[i] == sessions[i]@,
{
}

/// A message holds its role, its text, its identifier, its sequence number and its time,
/// and a list of messages those of every message in it, in order.
pub proof fn lists_hold_every_message(messages: Seq<SessionMessage>, message: SessionMessage)
    ensures
        message.role matches Some(role) ==> message@.role == Some(role@),
        message.role is None ==> message@.role is None,
        message.text matches Some(text) ==> message@.text == Some(text@),
        message.text is None ==> message@.text is None,
        message.id matches Some(id) ==> message@.id == Some(id@),
        message.id is None ==> message@.id is None,
        message@.seq == message.seq,
        message.created_at matches Some(time) ==> message@.created_at == Some(time@),
        message.created_at is None ==> message@.created_at is None,
        message_views(messages).len() == messages.len(),
        forall|i: int|
            0 <= i < messages.len() ==> #[trigger] message_views(messages)[i] == messages[i]@,
{
}

} // verus!
