//! The transcript log: one JSON document on each line.
use vstd::prelude::*;
use vstd::string::*;

use crate::json::{
    distinct_names, field, field_is_found, json_parse, json_text, marked,
    marks_tell_names_apart, plain_within, render, text_in, u64_in, Json, JsonTree, NumberModel,
    ObjectBuilder,
};
use crate::text::concat;

verus! {

/// An entry of the log.
pub open spec fn entry_tree(
    timestamp_unix_ms: u64,
    session_key: Seq<char>,
    role: Seq<char>,
    text: Seq<char>,
) -> JsonTree {
    JsonTree::Object(
        seq![
            ("timestamp_unix_ms"@, JsonTree::Number(NumberModel::Unsigned(timestamp_unix_ms))),
            ("session_key"@, JsonTree::Text(session_key)),
            ("role"@, JsonTree::Text(role)),
            ("text"@, JsonTree::Text(text)),
        ],
    )
}

/// The text is one line: a line feed ends it and stands nowhere else.
pub open spec fn is_line(s: Seq<char>) -> bool {
    s.len() > 0 && s.last() == '\n' && !s.drop_last().contains('\n')
}

/// An entry of the log.
pub fn log_entry(timestamp_unix_ms: u64, session_key: &str, role: &str, text: &str) -> (json: Json)
    ensures
        json@ == entry_tree(timestamp_unix_ms, session_key@, role@, text@),
        distinct_names(json@),
{
    proof {
        reveal_strlit("timestamp_unix_ms");
        reveal_strlit("session_key");
        reveal_strlit("role");
        reveal_strlit("text");
        marked("timestamp_unix_ms"@);
        marked("session_key"@);
        marked("role"@);
        marked("text"@);
    }
    let mut builder = ObjectBuilder::new();
    builder.put("timestamp_unix_ms", Json::unsigned(timestamp_unix_ms));
    builder.put_text("session_key", session_key);
    builder.put_text("role", role);
    builder.put_text("text", text);
    let json = builder.build();
    assert(json@->Object_0 =~= entry_tree(
        timestamp_unix_ms,
        session_key@,
        role@,
        text@,
    )->Object_0);
    json
}

/// The line that is appended to the log for an entry. The entry reads back from
/// it.
pub fn log_line(timestamp_unix_ms: u64, session_key: &str, role: &str, text: &str) -> (line: String)
    ensures
        line@ == json_text(entry_tree(timestamp_unix_ms, session_key@, role@, text@)) + "\n"@,
        is_line(line@),
        json_parse(line@.drop_last()) == Some(
            entry_tree(timestamp_unix_ms, session_key@, role@, text@),
        ),
        json_parse(line@.drop_last()) matches Some(entry) && u64_in(
            field(entry, "timestamp_unix_ms"@),
        ) == Some(timestamp_unix_ms) && text_in(field(entry, "session_key"@)) == Some(session_key@)
            && text_in(field(entry, "role"@)) == Some(role@) && text_in(field(entry, "text"@))
            == Some(text@),
{
    let entry = log_entry(timestamp_unix_ms, session_key, role, text);
    assert forall|i: int| 0 <= i < 4 implies plain_within(
        (#[trigger] entry@->Object_0[i]).1,
        126,
    ) by {}
    assert(plain_within(entry@, 127));
    proof {
        entries_hold_what_was_said(timestamp_unix_ms, session_key@, role@, text@);
    }
    let body = render(entry);
    let line = concat(body.as_str(), "\n");
    proof {
        reveal_strlit("\n");
        assert("\n"@ =~= seq!['\n']);
        assert(line@.drop_last() =~= body@);
    }
    line
}

// ---------------------------------------------------------------------------
// Laws
// ---------------------------------------------------------------------------
/// The lines one after another.
pub open spec fn log_of(lines: Seq<Seq<char>>) -> Seq<char>
    decreases lines.len(),
{
    if lines.len() == 0 {
        Seq::empty()
    } else {
        lines.first() + log_of(lines.drop_first())
    }
}

/// A log can be taken apart again: two sequences of lines that make the same log
/// are the same.
pub proof fn log_determines_its_lines(a: Seq<Seq<char>>, b: Seq<Seq<char>>)
    requires
        forall|i: int| 0 <= i < a.len() ==> is_line(#[trigger] a[i]),
        forall|i: int| 0 <= i < b.len() ==> is_line(#[trigger] b[i]),
        log_of(a) == log_of(b),
    ensures
        a == b,
    decreases a.len(),
{
    let whole = log_of(a);
    if a.len() == 0 {
        if b.len() > 0 {
            assert(is_line(b[0]));
            assert(whole.len() >= b[0].len());
        }
        assert(a =~= b);
    } else if b.len() == 0 {
        assert(is_line(a[0]));
        assert(whole.len() >= a[0].len());
    } else {
        let x = a.first();
        let y = b.first();
        assert(is_line(a[0]));
        assert(is_line(b[0]));
        let rest_a = log_of(a.drop_first());
        let rest_b = log_of(b.drop_first());
        assert(whole == x + rest_a);
        assert(whole == y + rest_b);
        if x.len() < y.len() {
            let at = x.len() - 1;
            assert(whole[at] == '\n');
            assert(y.drop_last()[at] == '\n');
        }
        if y.len() < x.len() {
            let at = y.len() - 1;
            assert(whole[at] == '\n');
            assert(x.drop_last()[at] == '\n');
        }
        assert(x =~= whole.take(x.len() as int));
        assert(y =~= whole.take(y.len() as int));
        assert(rest_a =~= whole.skip(x.len() as int));
        assert(rest_b =~= whole.skip(y.len() as int));
        assert forall|i: int| 0 <= i < a.drop_first().len() implies is_line(
            #[trigger] a.drop_first()[i],
        ) by {
            assert(a.drop_first()[i] == a[i + 1]);
        }
        assert forall|i: int| 0 <= i < b.drop_first().len() implies is_line(
            #[trigger] b.drop_first()[i],
        ) by {
            assert(b.drop_first()[i] == b[i + 1]);
        }
        log_determines_its_lines(a.drop_first(), b.drop_first());
        assert(a =~= seq![x] + a.drop_first());
        assert(b =~= seq![y] + b.drop_first());
    }
}

/// An entry holds the time, the session, the role and the text as they were given.
pub proof fn entries_hold_what_was_said(
    timestamp_unix_ms: u64,
    session_key: Seq<char>,
    role: Seq<char>,
    text: Seq<char>,
)
    ensures
        ({
            let entry = entry_tree(timestamp_unix_ms, session_key, role, text);
            &&& u64_in(field(entry, "timestamp_unix_ms"@)) == Some(timestamp_unix_ms)
            &&& text_in(field(entry, "session_key"@)) == Some(session_key)
            &&& text_in(field(entry, "role"@)) == Some(role)
            &&& text_in(field(entry, "text"@)) == Some(text)
        }),
{
    reveal_strlit("timestamp_unix_ms");
    reveal_strlit("session_key");
    reveal_strlit("role");
    reveal_strlit("text");
    let fields = entry_tree(timestamp_unix_ms, session_key, role, text)->Object_0;
    marks_tell_names_apart(fields);
    field_is_found(fields, 0);
    field_is_found(fields, 1);
    field_is_found(fields, 2);
    field_is_found(fields, 3);
}

} // verus!
