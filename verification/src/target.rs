//! Choosing the session that receives transcripts.
use vstd::prelude::*;
use vstd::string::*;

use crate::config::OpenClawConfig;
use crate::gateway::slice_view;
use crate::sessions::{nonblank, summaries, SessionSummary, SummaryModel};
use crate::text::{
    closes, concat3, contains, decimal, decimal_string, ends_with, eq_ignore_ascii_case, lower,
    occurring_up_to_case, occurs, owned, same_letter, spelled_at, stands_at, to_ascii_lowercase,
    trim, trimmed,
};

verus! {

// ---------------------------------------------------------------------------
// Settings and sessions
// ---------------------------------------------------------------------------
/// The text without surrounding white space, unless nothing is left.
pub fn non_empty(value: &str) -> (r: Option<&str>)
    ensures
        nonblank(Some(value@)) == slice_view(r),
{
    let body = trim(value);
    if body.is_empty() {
        None
    } else {
        Some(body)
    }
}

/// The filter stands somewhere in the key or the title, up to ASCII case.
pub open spec fn matches_filter(filter: Seq<char>, session: SummaryModel) -> bool {
    ||| occurs(lower(session.key), lower(filter))
    ||| session.title matches Some(title) && occurs(lower(title), lower(filter))
}

/// Whether a session matches a filter.
pub fn session_matches_filter(filter: &str, session: &SessionSummary) -> (r: bool)
    ensures
        r == matches_filter(filter@, session@),
{
    let wanted = to_ascii_lowercase(filter);
    let key = to_ascii_lowercase(session.key.as_str());
    if contains(key.as_str(), wanted.as_str()) {
        return true;
    }
    match &session.title {
        Some(title) => {
            let title = to_ascii_lowercase(title.as_str());
            contains(title.as_str(), wanted.as_str())
        },
        None => false,
    }
}

/// The key is `main` or ends with `:main`, up to ASCII case.
pub open spec fn main_key(key: Seq<char>) -> bool {
    lower(key) == "main"@ || closes(lower(key), ":main"@)
}

/// Whether a key is that of a main session.
pub fn is_main_session(key: &str) -> (r: bool)
    ensures
        r == main_key(key@),
{
    proof {
        reveal_strlit("main");
        assert(lower("main"@) =~= "main"@);
    }
    if eq_ignore_ascii_case(key, "main") {
        return true;
    }
    let folded = to_ascii_lowercase(key);
    ends_with(folded.as_str(), ":main")
}

/// The key, with the title in brackets where there is one.
pub open spec fn session_text(session: SummaryModel) -> Seq<char> {
    match session.title {
        Some(title) => if title.len() > 0 {
            session.key + " ("@ + title + ")"@
        } else {
            session.key
        },
        None => session.key,
    }
}

/// How a session is shown.
pub fn describe_session(session: &SessionSummary) -> (r: String)
    ensures
        r@ == session_text(session@),
{
    match &session.title {
        Some(title) => {
            if title.as_str().is_empty() {
                owned(session.key.as_str())
            } else {
                let mut r = concat3(session.key.as_str(), " (", title.as_str());
                r.append(")");
                r
            }
        },
        None => owned(session.key.as_str()),
    }
}

// ---------------------------------------------------------------------------
// The choice
// ---------------------------------------------------------------------------
/// Why no session could be chosen.
#[derive(Debug)]
pub enum TargetError {
    NoSessions,
    NoMatch { filter: String },
    SeveralMatches { filter: String, count: u64 },
    Ambiguous,
}

/// Why no session could be chosen.
pub enum TargetErrorModel {
    NoSessions,
    NoMatch { filter: Seq<char> },
    SeveralMatches { filter: Seq<char>, count: nat },
    Ambiguous,
}

impl View for TargetError {
    type V = TargetErrorModel;

    open spec fn view(&self) -> TargetErrorModel {
        match self {
            TargetError::NoSessions => TargetErrorModel::NoSessions,
            TargetError::NoMatch { filter } => TargetErrorModel::NoMatch { filter: filter@ },
            TargetError::SeveralMatches {
                filter,
                count,
            } => TargetErrorModel::SeveralMatches { filter: filter@, count: *count as nat },
            TargetError::Ambiguous => TargetErrorModel::Ambiguous,
        }
    }
}

impl TargetErrorModel {
    /// The text of the error.
    pub open spec fn text(self) -> Seq<char> {
        match self {
            TargetErrorModel::NoSessions => "no OpenClaw sessions were found"@,
            TargetErrorModel::NoMatch { filter } => "no sessions matched OPENCLAW_SESSION_FILTER='"@
                + filter + "'"@,
            TargetErrorModel::SeveralMatches { filter, count } => "OPENCLAW_SESSION_FILTER='"@
                + filter + "' matched "@ + decimal(count)
                + " sessions; set OPENCLAW_SESSION_KEY for an exact target"@,
            TargetErrorModel::Ambiguous =>
                "multiple sessions are available; set OPENCLAW_SESSION_KEY or OPENCLAW_SESSION_FILTER to choose a target"@,
        }
    }
}

impl TargetError {
    /// The text of the error.
    pub fn message(&self) -> (r: String)
        ensures
            r@ == self@.text(),
    {
        match self {
            TargetError::NoSessions => owned("no OpenClaw sessions were found"),
            TargetError::NoMatch { filter } => concat3(
                "no sessions matched OPENCLAW_SESSION_FILTER='",
                filter.as_str(),
                "'",
            ),
            TargetError::SeveralMatches { filter, count } => {
                let numeral = decimal_string(*count);
                let mut r = concat3("OPENCLAW_SESSION_FILTER='", filter.as_str(), "' matched ");
                r.append(numeral.as_str());
                r.append(" sessions; set OPENCLAW_SESSION_KEY for an exact target");
                r
            },
            TargetError::Ambiguous => owned(
                "multiple sessions are available; set OPENCLAW_SESSION_KEY or OPENCLAW_SESSION_FILTER to choose a target",
            ),
        }
    }
}

/// The session is a candidate: it matches the filter, or where there is none, it is
/// a main session.
pub open spec fn candidate(filter: Option<Seq<char>>, session: SummaryModel) -> bool {
    match filter {
        Some(wanted) => matches_filter(wanted, session),
        None => main_key(session.key),
    }
}

/// The candidates, in order.
pub open spec fn candidates(
    filter: Option<Seq<char>>,
    sessions: Seq<SummaryModel>,
) -> Seq<SummaryModel>
    decreases sessions.len(),
{
    if sessions.len() == 0 {
        sessions
    } else {
        let earlier = candidates(filter, sessions.drop_last());
        if candidate(filter, sessions.last()) {
            earlier.push(sessions.last())
        } else {
            earlier
        }
    }
}

/// The session that is chosen among those listed, under a filter that may be blank:
/// the only candidate, or without a filter and without a main session, the only
/// session there is.
pub open spec fn target_choice(filter: Seq<char>, sessions: Seq<SummaryModel>) -> Result<
    SummaryModel,
    TargetErrorModel,
> {
    let found = candidates(nonblank(Some(filter)), sessions);
    if sessions.len() == 0 {
        Err(TargetErrorModel::NoSessions)
    } else if found.len() == 1 {
        Ok(found[0])
    } else {
        match nonblank(Some(filter)) {
            Some(wanted) => if found.len() == 0 {
                Err(TargetErrorModel::NoMatch { filter: wanted })
            } else {
                Err(TargetErrorModel::SeveralMatches { filter: wanted, count: found.len() })
            },
            None => if found.len() == 0 && sessions.len() == 1 {
                Ok(sessions[0])
            } else {
                Err(TargetErrorModel::Ambiguous)
            },
        }
    }
}

/// The session that the settings name, if they name one. No session needs to be
/// listed for it.
pub fn explicit_target(config: &OpenClawConfig) -> (r: Option<SessionSummary>)
    ensures
        match (r, nonblank(Some(config.session_key@))) {
            (Some(session), Some(key)) => session@ == (SummaryModel { key, title: None }),
            (None, None) => true,
            _ => false,
        },
{
    match non_empty(config.session_key.as_str()) {
        Some(key) => Some(SessionSummary { key: owned(key), title: None }),
        None => None,
    }
}

/// Whether a session is a candidate.
fn is_candidate(filter: Option<&str>, session: &SessionSummary) -> (r: bool)
    ensures
        r == candidate(slice_view(filter), session@),
{
    match filter {
        Some(wanted) => session_matches_filter(wanted, session),
        None => is_main_session(session.key.as_str()),
    }
}

/// The number of candidates, and the position of the first.
fn find_candidates(filter: Option<&str>, sessions: &Vec<SessionSummary>) -> (r: (
    usize,
    Option<usize>,
))
    ensures
        r.0 == candidates(slice_view(filter), summaries(sessions@)).len(),
        match r.1 {
            Some(at) => {
                &&& at < sessions@.len()
                &&& r.0 > 0
                &&& candidates(slice_view(filter), summaries(sessions@))[0]
                    == sessions@[at as int]@
            },
            None => r.0 == 0,
        },
{
    let ghost all = summaries(sessions@);
    let ghost wanted = slice_view(filter);
    let mut count: usize = 0;
    let mut first: Option<usize> = None;
    let mut i: usize = 0;
    while i < sessions.len()
        invariant
            i <= sessions@.len(),
            count <= i,
            all == summaries(sessions@),
            wanted == slice_view(filter),
            count == candidates(wanted, all.take(i as int)).len(),
            match first {
                Some(at) => {
                    &&& at < sessions@.len()
                    &&& count > 0
                    &&& candidates(wanted, all.take(i as int))[0] == sessions@[at as int]@
                },
                None => count == 0,
            },
        decreases sessions@.len() - i,
    {
        assert(all.take(i + 1).drop_last() =~= all.take(i as int));
        assert(all.take(i + 1).last() == sessions@[i as int]@);
        if is_candidate(filter, &sessions[i]) {
            if count == 0 {
                first = Some(i);
            }
            count += 1;
        }
        i += 1;
    }
    assert(all.take(all.len() as int) =~= all);
    (count, first)
}

/// The session that is chosen among those listed.
pub fn choose_target(config: &OpenClawConfig, sessions: &Vec<SessionSummary>) -> (r: Result<
    SessionSummary,
    TargetError,
>)
    ensures
        target_choice(config.session_filter@, summaries(sessions@)) == (match r {
            Ok(session) => Ok(session@),
            Err(error) => Err(error@),
        }),
{
    if sessions.len() == 0 {
        return Err(TargetError::NoSessions);
    }
    let filter = non_empty(config.session_filter.as_str());
    let (count, first) = find_candidates(filter, sessions);
    if let Some(at) = first {
        if count == 1 {
            return Ok(sessions[at].duplicate());
        }
    }
    match filter {
        Some(wanted) => if count == 0 {
            Err(TargetError::NoMatch { filter: owned(wanted) })
        } else {
            Err(TargetError::SeveralMatches { filter: owned(wanted), count: count as u64 })
        },
        None => if count == 0 && sessions.len() == 1 {
            Ok(sessions[0].duplicate())
        } else {
            Err(TargetError::Ambiguous)
        },
    }
}

// ---------------------------------------------------------------------------
// Laws
// ---------------------------------------------------------------------------
proof fn lemma_candidates(filter: Option<Seq<char>>, sessions: Seq<SummaryModel>)
    ensures
        forall|k: int|
            0 <= k < candidates(filter, sessions).len() ==> {
                &&& sessions.contains(#[trigger] candidates(filter, sessions)[k])
                &&& candidate(filter, candidates(filter, sessions)[k])
            },
        forall|i: int|
            0 <= i < sessions.len() && candidate(filter, #[trigger] sessions[i]) ==> candidates(
                filter,
                sessions,
            ).contains(sessions[i]),
        forall|i: int, j: int|
            0 <= i < j < sessions.len() && candidate(filter, #[trigger] sessions[i]) && candidate(
                filter,
                #[trigger] sessions[j],
            ) ==> candidates(filter, sessions).len() >= 2,
    decreases sessions.len(),
{
    if sessions.len() > 0 {
        let shorter = sessions.drop_last();
        lemma_candidates(filter, shorter);
        let found = candidates(filter, sessions);
        let earlier = candidates(filter, shorter);
        assert forall|k: int| 0 <= k < found.len() implies {
            &&& sessions.contains(#[trigger] found[k])
            &&& candidate(filter, found[k])
        } by {
            if k < earlier.len() {
                assert(found[k] == earlier[k]);
                let i = choose|i: int| 0 <= i < shorter.len() && shorter[i] == earlier[k];
                assert(sessions[i] == found[k]);
            } else {
                assert(sessions[sessions.len() - 1] == found[k]);
            }
        }
        assert forall|i: int|
            0 <= i < sessions.len() && candidate(
                filter,
                #[trigger] sessions[i],
            ) implies found.contains(sessions[i]) by {
            if i < shorter.len() {
                assert(shorter[i] == sessions[i]);
                let k = choose|k: int| 0 <= k < earlier.len() && earlier[k] == sessions[i];
                assert(found[k] == sessions[i]);
            } else {
                assert(found[found.len() - 1] == sessions[i]);
            }
        }
        assert forall|i: int, j: int|
            0 <= i < j < sessions.len() && candidate(filter, #[trigger] sessions[i]) && candidate(
                filter,
                #[trigger] sessions[j],
            ) implies found.len() >= 2 by {
            assert(shorter[i] == sessions[i]);
            assert(earlier.contains(sessions[i]));
            if j < shorter.len() {
                assert(shorter[j] == sessions[j]);
            }
        }
    }
}

proof fn lemma_single_candidate(
    filter: Option<Seq<char>>,
    sessions: Seq<SummaryModel>,
    at: int,
)
    requires
        0 <= at < sessions.len(),
        candidate(filter, sessions[at]),
        forall|k: int|
            0 <= k < sessions.len() && k != at ==> !candidate(filter, #[trigger] sessions[k]),
    ensures
        candidates(filter, sessions) == seq![sessions[at]],
    decreases sessions.len(),
{
    let shorter = sessions.drop_last();
    if at < shorter.len() {
        assert(shorter[at] == sessions[at]);
        assert forall|k: int| 0 <= k < shorter.len() && k != at implies !candidate(
            filter,
            #[trigger] shorter[k],
        ) by {
            assert(shorter[k] == sessions[k]);
        }
        lemma_single_candidate(filter, shorter, at);
    } else {
        lemma_no_candidate(filter, shorter);
    }
    assert(candidates(filter, sessions) =~= seq![sessions[at]]);
}

proof fn lemma_no_candidate(filter: Option<Seq<char>>, sessions: Seq<SummaryModel>)
    requires
        forall|k: int| 0 <= k < sessions.len() ==> !candidate(filter, #[trigger] sessions[k]),
    ensures
        candidates(filter, sessions).len() == 0,
    decreases sessions.len(),
{
    if sessions.len() > 0 {
        let shorter = sessions.drop_last();
        assert forall|k: int| 0 <= k < shorter.len() implies !candidate(
            filter,
            #[trigger] shorter[k],
        ) by {
            assert(shorter[k] == sessions[k]);
        }
        lemma_no_candidate(filter, shorter);
    }
}

/// The session at that position is a candidate, and no other is.
pub open spec fn only_candidate(
    filter: Option<Seq<char>>,
    sessions: Seq<SummaryModel>,
    at: int,
) -> bool {
    &&& 0 <= at < sessions.len()
    &&& candidate(filter, sessions[at])
    &&& forall|k: int|
        0 <= k < sessions.len() && k != at ==> !candidate(filter, #[trigger] sessions[k])
}

proof fn lemma_one_candidate(filter: Option<Seq<char>>, sessions: Seq<SummaryModel>)
    ensures
        candidates(filter, sessions).len() == 1 <==> exists|at: int|
            #[trigger] only_candidate(filter, sessions, at),
{
    lemma_candidates(filter, sessions);
    let found = candidates(filter, sessions);
    if found.len() == 1 {
        assert(sessions.contains(found[0]));
        let at = choose|at: int| 0 <= at < sessions.len() && sessions[at] == found[0];
        assert forall|k: int| 0 <= k < sessions.len() && k != at implies !candidate(
            filter,
            #[trigger] sessions[k],
        ) by {
            if candidate(filter, sessions[k]) {
                assert(candidate(filter, sessions[at]));
            }
        }
        assert(only_candidate(filter, sessions, at));
    }
    if exists|at: int| #[trigger] only_candidate(filter, sessions, at) {
        let at = choose|at: int| #[trigger] only_candidate(filter, sessions, at);
        lemma_single_candidate(filter, sessions, at);
    }
}

/// The chosen session is always one of those listed.
pub proof fn choice_is_listed(filter: Seq<char>, sessions: Seq<SummaryModel>)
    ensures
        target_choice(filter, sessions) matches Ok(session) ==> sessions.contains(session),
{
    lemma_candidates(nonblank(Some(filter)), sessions);
    if sessions.len() == 1 {
        assert(sessions.contains(sessions[0]));
    }
}

/// Under a filter a session is chosen exactly if one listed session, and no other,
/// matches it; and that one is chosen.
pub proof fn filter_needs_one_match(
    filter: Seq<char>,
    sessions: Seq<SummaryModel>,
    wanted: Seq<char>,
)
    requires
        nonblank(Some(filter)) == Some(wanted),
    ensures
        target_choice(filter, sessions) is Ok <==> exists|at: int|
            #[trigger] only_candidate(Some(wanted), sessions, at),
        forall|at: int| #[trigger]
            only_candidate(Some(wanted), sessions, at) ==> target_choice(filter, sessions) == Ok::<
                SummaryModel,
                TargetErrorModel,
            >(sessions[at]),
{
    lemma_one_candidate(Some(wanted), sessions);
    assert forall|at: int| #[trigger]
        only_candidate(Some(wanted), sessions, at) implies target_choice(filter, sessions) == Ok::<
        SummaryModel,
        TargetErrorModel,
    >(sessions[at]) by {
        lemma_single_candidate(Some(wanted), sessions, at);
    }
}

/// Without a filter the main session is chosen where one, and no other, is listed.
pub proof fn main_session_comes_first(filter: Seq<char>, sessions: Seq<SummaryModel>, at: int)
    requires
        nonblank(Some(filter)) is None,
        0 <= at < sessions.len(),
        main_key(sessions[at].key),
        forall|k: int|
            0 <= k < sessions.len() && k != at ==> !main_key((#[trigger] sessions[k]).key),
    ensures
        target_choice(filter, sessions) == Ok::<SummaryModel, TargetErrorModel>(sessions[at]),
{
    assert forall|k: int| 0 <= k < sessions.len() && k != at implies !candidate(
        None,
        #[trigger] sessions[k],
    ) by {
        assert(!main_key(sessions[k].key));
    }
    lemma_single_candidate(None, sessions, at);
}

/// Without a filter nothing is chosen by accident: where two main sessions are
/// listed, or several sessions and no main one, the choice is ambiguous.
pub proof fn ambiguity_is_reported(filter: Seq<char>, sessions: Seq<SummaryModel>)
    requires
        nonblank(Some(filter)) is None,
        sessions.len() > 1,
    ensures
        target_choice(filter, sessions) == Err::<SummaryModel, TargetErrorModel>(
            TargetErrorModel::Ambiguous,
        ) <==> !exists|at: int| #[trigger] only_candidate(None, sessions, at),
{
    lemma_one_candidate(None, sessions);
}

/// The case of a filter does not matter.
pub proof fn filter_ignores_case(a: Seq<char>, b: Seq<char>, session: SummaryModel)
    requires
        lower(a) == lower(b),
    ensures
        matches_filter(a, session) == matches_filter(b, session),
{
}

/// A session matches a filter exactly if the filter's letters stand, in either case, at
/// some place of its key or of its title.
pub proof fn filter_is_found_anywhere(filter: Seq<char>, session: SummaryModel)
    ensures
        matches_filter(filter, session) <==> (exists|at: int| #[trigger]
            spelled_at(session.key, filter, at)) || (session.title is Some && exists|at: int|
         #[trigger]
            spelled_at(session.title->Some_0, filter, at)),
{
    occurring_up_to_case(session.key, filter);
    if let Some(title) = session.title {
        occurring_up_to_case(title, filter);
    }
}

/// A session matches whatever is a part of its title or of its key.
pub proof fn parts_of_a_session_match(
    before: Seq<char>,
    filter: Seq<char>,
    after: Seq<char>,
    other: Seq<char>,
    title: Option<Seq<char>>,
)
    ensures
        matches_filter(
            filter,
            (SummaryModel { key: other, title: Some(before + filter + after) }),
        ),
        matches_filter(filter, (SummaryModel { key: before + filter + after, title })),
{
    let whole = before + filter + after;
    let at = before.len() as int;
    assert forall|i: int| 0 <= i < filter.len() implies same_letter(
        #[trigger] whole[at + i],
        filter[i],
    ) by {}
    assert(spelled_at(whole, filter, at));
    filter_is_found_anywhere(filter, SummaryModel { key: other, title: Some(whole) });
    filter_is_found_anywhere(filter, SummaryModel { key: whole, title });
}

/// A key is that of a main session exactly if it spells `main`, or ends with a colon
/// and `main`, in either case.
pub proof fn main_keys_end_with_main(key: Seq<char>)
    ensures
        main_key(key) <==> (key.len() == 4 && spelled_at(key, seq!['m', 'a', 'i', 'n'], 0))
            || spelled_at(key, seq![':', 'm', 'a', 'i', 'n'], key.len() - 5),
{
    reveal_strlit("main");
    reveal_strlit(":main");
    let word = seq!['m', 'a', 'i', 'n'];
    let ending = seq![':', 'm', 'a', 'i', 'n'];
    assert("main"@ =~= word);
    assert(":main"@ =~= ending);
    assert(lower(word) =~= word);
    assert(lower(ending) =~= ending);
    occurring_up_to_case(key, word);
    occurring_up_to_case(key, ending);
    if key.len() == 4 {
        assert(lower(key).subrange(0, 4) =~= lower(key));
    }
}

/// The candidates are the sessions that are one, in the order in which they are listed.
pub proof fn candidates_keep_their_order(
    filter: Option<Seq<char>>,
    sessions: Seq<SummaryModel>,
)
    ensures
        candidates(filter, sessions) == sessions.filter(
            |session: SummaryModel| candidate(filter, session),
        ),
        forall|session: SummaryModel| #[trigger]
            candidate(filter, session) <==> match filter {
                Some(wanted) => matches_filter(wanted, session),
                None => main_key(session.key),
            },
    decreases sessions.len(),
{
    let wanted = |session: SummaryModel| candidate(filter, session);
    reveal(Seq::filter);
    if sessions.len() > 0 {
        candidates_keep_their_order(filter, sessions.drop_last());
    } else {
        assert(candidates(filter, sessions) =~= sessions.filter(wanted));
    }
}

/// Where no session is chosen the error says why: none is listed; under a filter none
/// matches it, or as many match as the error counts; without a filter the choice is
/// open. The filter is named as it is set, without surrounding white space.
pub proof fn refusals_say_why(filter: Seq<char>, sessions: Seq<SummaryModel>)
    ensures
        sessions.len() == 0 <==> target_choice(filter, sessions) == Err::<
            SummaryModel,
            TargetErrorModel,
        >(TargetErrorModel::NoSessions),
        sessions.len() > 0 && trimmed(filter).len() > 0 ==> ({
            let matching = sessions.filter(
                |session: SummaryModel| matches_filter(trimmed(filter), session),
            );
            &&& matching.len() == 0 ==> target_choice(filter, sessions) == Err::<
                SummaryModel,
                TargetErrorModel,
            >(TargetErrorModel::NoMatch { filter: trimmed(filter) })
            &&& matching.len() == 1 ==> target_choice(filter, sessions) == Ok::<
                SummaryModel,
                TargetErrorModel,
            >(matching[0])
            &&& matching.len() > 1 ==> target_choice(filter, sessions) == Err::<
                SummaryModel,
                TargetErrorModel,
            >(
                TargetErrorModel::SeveralMatches {
                    filter: trimmed(filter),
                    count: matching.len(),
                },
            )
        }),
        sessions.len() > 0 && trimmed(filter).len() == 0 ==> ({
            let mains = sessions.filter(|session: SummaryModel| main_key(session.key));
            &&& mains.len() == 1 ==> target_choice(filter, sessions) == Ok::<
                SummaryModel,
                TargetErrorModel,
            >(mains[0])
            &&& mains.len() == 0 && sessions.len() == 1 ==> target_choice(filter, sessions)
                == Ok::<SummaryModel, TargetErrorModel>(sessions[0])
            &&& mains.len() > 1 || (mains.len() == 0 && sessions.len() > 1) ==> target_choice(
                filter,
                sessions,
            ) == Err::<SummaryModel, TargetErrorModel>(TargetErrorModel::Ambiguous)
        }),
{
    let wanted = nonblank(Some(filter));
    candidates_keep_their_order(wanted, sessions);
    let chosen = |session: SummaryModel| candidate(wanted, session);
    if trimmed(filter).len() > 0 {
        assert(chosen =~= |session: SummaryModel| matches_filter(trimmed(filter), session));
    } else {
        assert(chosen =~= |session: SummaryModel| main_key(session.key));
    }
}

/// The text of an error names what it is about: the filter that was set and the number
/// of sessions that match it.
pub proof fn refusals_name_the_filter(filter: Seq<char>, count: nat)
    ensures
        occurs(TargetErrorModel::NoMatch { filter }.text(), "'"@ + filter + "'"@),
        occurs(TargetErrorModel::SeveralMatches { filter, count }.text(), "'"@ + filter + "'"@),
        occurs(
            TargetErrorModel::SeveralMatches { filter, count }.text(),
            " matched "@ + decimal(count) + " sessions"@,
        ),
{
    reveal_strlit("no sessions matched OPENCLAW_SESSION_FILTER='");
    reveal_strlit("OPENCLAW_SESSION_FILTER='");
    reveal_strlit("' matched ");
    reveal_strlit(" matched ");
    reveal_strlit("'");
    reveal_strlit(" sessions; set OPENCLAW_SESSION_KEY for an exact target");
    reveal_strlit(" sessions");
    let none = TargetErrorModel::NoMatch { filter }.text();
    let quoted = "'"@ + filter + "'"@;
    assert(none.subrange(44, 44int + quoted.len()) =~= quoted);
    assert(stands_at(none, quoted, 44));
    let several = TargetErrorModel::SeveralMatches { filter, count }.text();
    assert(several.subrange(24, 24int + quoted.len()) =~= quoted);
    assert(stands_at(several, quoted, 24));
    let counted = " matched "@ + decimal(count) + " sessions"@;
    let at = 24 + quoted.len() as int;
    assert(several.subrange(at, at + counted.len()) =~= counted);
    assert(stands_at(several, counted, at));
}

/// A session is shown by its key, and behind it in brackets by its title, where it has
/// one that is not empty.
pub proof fn sessions_are_shown_by_key_and_title(session: SummaryModel)
    ensures
        session.title is None || session.title->Some_0.len() == 0 ==> session_text(session)
            == session.key,
        session.title matches Some(title) ==> (title.len() > 0 ==> {
            let text = session_text(session);
            &&& text.len() == session.key.len() + title.len() + 3
            &&& text.take(session.key.len() as int) == session.key
            &&& text.skip(session.key.len() as int) == seq![' ', '('] + title + seq![')']
        }),
{
    reveal_strlit(" (");
    reveal_strlit(")");
    if let Some(title) = session.title {
        if title.len() > 0 {
            let text = session_text(session);
            assert(text.take(session.key.len() as int) =~= session.key);
            assert(text.skip(session.key.len() as int) =~= seq![' ', '('] + title + seq![')']);
        }
    }
}

} // verus!
