//! Watching a session for the replies of the agent.
use vstd::prelude::*;
use vstd::string::*;

use crate::sessions::{
    message_fingerprint, message_views, MessageModel, SessionMessage,
};
use crate::text::{owned, same_text, views};

verus! {

/// How many messages are fetched at a time.
pub const RESPONSE_HISTORY_LIMIT: u64 = 50;

/// The seconds between two looks at the session.
pub const RESPONSE_POLL_INTERVAL_SECS: u64 = 2;

/// The seconds after which a reply is no longer awaited.
pub const RESPONSE_WAIT_TIMEOUT_SECS: u64 = 45;

/// The message comes from the agent.
pub open spec fn from_assistant(message: MessageModel) -> bool {
    message.role == Some("assistant"@)
}

/// Whether a message comes from the agent.
pub fn is_assistant_message(message: &SessionMessage) -> (r: bool)
    ensures
        r == from_assistant(message@),
{
    match &message.role {
        Some(role) => same_text(role.as_str(), "assistant"),
        None => false,
    }
}

/// The fingerprints that are known after some more messages.
pub open spec fn known_after(known: Set<Seq<char>>, messages: Seq<MessageModel>) -> Set<Seq<char>>
    decreases messages.len(),
{
    if messages.len() == 0 {
        known
    } else {
        known_after(known, messages.drop_last()).insert(message_fingerprint(messages.last()))
    }
}

/// The text to log for a message, where `known` holds the fingerprints of those
/// before it: that of a new message from the agent, unless it is empty.
pub open spec fn reply_text(known: Set<Seq<char>>, message: MessageModel) -> Option<Seq<char>> {
    if known.contains(message_fingerprint(message)) || !from_assistant(message) {
        None
    } else {
        match message.text {
            Some(text) => if text.len() > 0 {
                Some(text)
            } else {
                None
            },
            None => None,
        }
    }
}

/// The texts to log for some messages, in order.
pub open spec fn replies(known: Set<Seq<char>>, messages: Seq<MessageModel>) -> Seq<Seq<char>>
    decreases messages.len(),
{
    if messages.len() == 0 {
        Seq::empty()
    } else {
        let earlier = messages.drop_last();
        match reply_text(known_after(known, earlier), messages.last()) {
            Some(text) => replies(known, earlier).push(text),
            None => replies(known, earlier),
        }
    }
}

/// What is known of a session while a reply is awaited.
pub struct ResponseWatch {
    known: Vec<String>,
}

impl View for ResponseWatch {
    type V = Set<Seq<char>>;

    /// The fingerprints of the messages seen so far.
    closed spec fn view(&self) -> Set<Seq<char>> {
        views(self.known@).to_set()
    }
}

impl ResponseWatch {
    /// No fingerprint is held twice.
    pub closed spec fn wf(&self) -> bool {
        views(self.known@).no_duplicates()
    }

    /// Nothing is known.
    pub fn new() -> (watch: Self)
        ensures
            watch.wf(),
            watch@ == Set::<Seq<char>>::empty(),
    {
        let watch = ResponseWatch { known: Vec::new() };
        assert(views(watch.known@) =~= Seq::empty());
        assert(watch@ =~= Set::empty());
        watch
    }

    /// The messages that a session already holds are known.
    pub fn from_history(messages: &Vec<SessionMessage>) -> (watch: Self)
        ensures
            watch.wf(),
            watch@ == known_after(Set::empty(), message_views(messages@)),
    {
        let mut watch = ResponseWatch::new();
        watch.observe(messages);
        watch
    }

    /// Adds a fingerprint; returns whether it is new.
    fn insert(&mut self, fingerprint: String) -> (new: bool)
        requires
            old(self).wf(),
        ensures
            final(self).wf(),
            new == !old(self)@.contains(fingerprint@),
            final(self)@ == old(self)@.insert(fingerprint@),
    {
        let ghost before = views(self.known@);
        let mut i: usize = 0;
        while i < self.known.len()
            invariant
                i <= self.known@.len(),
                before == views(self.known@),
                *self == *old(self),
                old(self).wf(),
                forall|k: int| 0 <= k < i ==> before[k] != fingerprint@,
            decreases self.known@.len() - i,
        {
            if same_text(self.known[i].as_str(), fingerprint.as_str()) {
                assert(before[i as int] == fingerprint@);
                assert(self@.contains(fingerprint@));
                assert(self@ =~= self@.insert(fingerprint@));
                return false;
            }
            i += 1;
        }
        assert(!before.contains(fingerprint@));
        self.known.push(fingerprint);
        let ghost after = views(self.known@);
        assert(after =~= before.push(fingerprint@));
        assert(self@ =~= old(self)@.insert(fingerprint@)) by {
            assert forall|f: Seq<char>| after.contains(f) <==> before.contains(f) || f
                == fingerprint@ by {
                if before.contains(f) {
                    let k = choose|k: int| 0 <= k < before.len() && before[k] == f;
                    assert(after[k] == f);
                }
                if f == fingerprint@ {
                    assert(after[before.len() as int] == f);
                }
            }
        }
        true
    }

    /// Takes in the messages of a session and returns the texts to log.
    pub fn observe(&mut self, messages: &Vec<SessionMessage>) -> (texts: Vec<String>)
        requires
            old(self).wf(),
        ensures
            final(self).wf(),
            final(self)@ == known_after(old(self)@, message_views(messages@)),
            views(texts@) == replies(old(self)@, message_views(messages@)),
    {
        let ghost all = message_views(messages@);
        let mut texts: Vec<String> = Vec::new();
        let mut i: usize = 0;
        assert(views(texts@) =~= replies(old(self)@, all.take(0)));
        while i < messages.len()
            invariant
                i <= messages@.len(),
                all == message_views(messages@),
                self.wf(),
                self@ == known_after(old(self)@, all.take(i as int)),
                views(texts@) == replies(old(self)@, all.take(i as int)),
            decreases messages@.len() - i,
        {
            let message = &messages[i];
            let ghost earlier = all.take(i as int);
            assert(all.take(i + 1).drop_last() =~= earlier);
            assert(all.take(i + 1).last() == message@);
            let ghost before = views(texts@);
            let new = self.insert(message.fingerprint());
            if new && is_assistant_message(message) {
                if let Some(text) = &message.text {
                    if !text.as_str().is_empty() {
                        texts.push(owned(text.as_str()));
                        assert(views(texts@) =~= before.push(text@));
                    }
                }
            }
            i += 1;
        }
        assert(all.take(all.len() as int) =~= all);
        texts
    }
}

// ---------------------------------------------------------------------------
// Sending
// ---------------------------------------------------------------------------
/// A step of sending a transcript.
#[derive(Debug, Clone, Copy, PartialEq, Eq, Structural)]
pub enum SendStep {
    /// Fetch the messages that the session already holds.
    FetchHistory,
    /// Log what was said.
    LogTranscript,
    /// Send it.
    Send,
    /// Watch the session and log the reply.
    AwaitReply,
}

/// The steps of sending a transcript, by whether the conversation is logged.
pub open spec fn sending_steps(logged: bool) -> Seq<SendStep> {
    if logged {
        seq![
            SendStep::FetchHistory,
            SendStep::LogTranscript,
            SendStep::Send,
            SendStep::AwaitReply,
        ]
    } else {
        seq![SendStep::Send]
    }
}

/// The steps of sending a transcript, in order, by whether the conversation is
/// logged.
pub fn send_steps(logged: bool) -> (steps: Vec<SendStep>)
    ensures
        steps@ == sending_steps(logged),
{
    let mut steps: Vec<SendStep> = Vec::new();
    if logged {
        steps.push(SendStep::FetchHistory);
        steps.push(SendStep::LogTranscript);
    }
    steps.push(SendStep::Send);
    if logged {
        steps.push(SendStep::AwaitReply);
    }
    assert(steps@ =~= sending_steps(logged));
    steps
}

/// What to do after a look at the session.
#[derive(Debug, Clone, Copy, PartialEq, Eq, Structural)]
pub enum PollOutcome {
    /// A reply was logged.
    Logged,
    /// No reply came in time.
    TimedOut,
    /// Look again after the poll interval.
    Wait,
}

/// What to do after a look that logged some replies, by whether the time to wait
/// is over.
pub fn poll_outcome(logged: usize, deadline_passed: bool) -> (outcome: PollOutcome)
    ensures
        outcome == PollOutcome::Logged <==> logged > 0,
        outcome == PollOutcome::TimedOut <==> logged == 0 && deadline_passed,
        outcome == PollOutcome::Wait <==> logged == 0 && !deadline_passed,
{
    if logged > 0 {
        PollOutcome::Logged
    } else if deadline_passed {
        PollOutcome::TimedOut
    } else {
        PollOutcome::Wait
    }
}

// ---------------------------------------------------------------------------
// Laws
// ---------------------------------------------------------------------------
/// What is known stays known, and each message is known once it was seen.
pub proof fn knowledge_grows(known: Set<Seq<char>>, messages: Seq<MessageModel>)
    ensures
        known.subset_of(known_after(known, messages)),
        forall|i: int|
            0 <= i < messages.len() ==> known_after(known, messages).contains(
                message_fingerprint(#[trigger] messages[i]),
            ),
    decreases messages.len(),
{
    if messages.len() > 0 {
        let earlier = messages.drop_last();
        knowledge_grows(known, earlier);
        assert forall|i: int| 0 <= i < messages.len() implies known_after(
            known,
            messages,
        ).contains(message_fingerprint(#[trigger] messages[i])) by {
            if i < earlier.len() {
                assert(earlier[i] == messages[i]);
            }
        }
    }
}

/// Messages that are all known already leave nothing to log.
pub proof fn known_messages_are_silent(known: Set<Seq<char>>, messages: Seq<MessageModel>)
    requires
        forall|i: int|
            0 <= i < messages.len() ==> known.contains(
                message_fingerprint(#[trigger] messages[i]),
            ),
    ensures
        replies(known, messages).len() == 0,
    decreases messages.len(),
{
    if messages.len() > 0 {
        let earlier = messages.drop_last();
        assert forall|i: int| 0 <= i < earlier.len() implies known.contains(
            message_fingerprint(#[trigger] earlier[i]),
        ) by {
            assert(earlier[i] == messages[i]);
        }
        known_messages_are_silent(known, earlier);
        knowledge_grows(known, earlier);
        assert(messages.last() == messages[messages.len() - 1]);
    }
}

/// No message is logged twice: one that was seen is silent ever after, whatever is
/// seen in between. In particular the messages that a session held before a
/// transcript was sent are never logged.
pub proof fn seen_messages_stay_silent(
    known: Set<Seq<char>>,
    seen: Seq<MessageModel>,
    between: Seq<MessageModel>,
)
    ensures
        replies(known_after(known_after(known, seen), between), seen).len() == 0,
{
    knowledge_grows(known, seen);
    knowledge_grows(known_after(known, seen), between);
    known_messages_are_silent(known_after(known_after(known, seen), between), seen);
}

/// A new message from the agent is logged, unless its text is empty or an earlier
/// one bears the same fingerprint.
pub proof fn new_reply_is_logged(
    known: Set<Seq<char>>,
    messages: Seq<MessageModel>,
    at: int,
    text: Seq<char>,
)
    requires
        0 <= at < messages.len(),
        from_assistant(messages[at]),
        messages[at].text == Some(text),
        text.len() > 0,
        !known_after(known, messages.take(at)).contains(message_fingerprint(messages[at])),
    ensures
        replies(known, messages).contains(text),
    decreases messages.len(),
{
    let earlier = messages.drop_last();
    if at < earlier.len() {
        assert(earlier.take(at) =~= messages.take(at));
        new_reply_is_logged(known, earlier, at, text);
        let k = choose|k: int|
            0 <= k < replies(known, earlier).len() && replies(known, earlier)[k] == text;
        assert(replies(known, messages)[k] == text);
    } else {
        assert(earlier =~= messages.take(at));
        let all = replies(known, messages);
        assert(all[all.len() - 1] == text);
    }
}

/// Whatever is logged is the text of a message from the agent that was not known
/// before.
pub proof fn replies_come_from_the_agent(
    known: Set<Seq<char>>,
    messages: Seq<MessageModel>,
    at: int,
)
    requires
        0 <= at < replies(known, messages).len(),
    ensures
        exists|i: int|
            0 <= i < messages.len() && from_assistant(#[trigger] messages[i]) && messages[i].text
                == Some(replies(known, messages)[at]) && !known.contains(
                message_fingerprint(messages[i]),
            ),
        replies(known, messages)[at].len() > 0,
    decreases messages.len(),
{
    let earlier = messages.drop_last();
    knowledge_grows(known, earlier);
    if at < replies(known, earlier).len() {
        replies_come_from_the_agent(known, earlier, at);
        let i = choose|i: int|
            0 <= i < earlier.len() && from_assistant(#[trigger] earlier[i]) && earlier[i].text
                == Some(replies(known, earlier)[at]) && !known.contains(
                message_fingerprint(earlier[i]),
            );
        assert(messages[i] == earlier[i]);
        assert(replies(known, messages)[at] == replies(known, earlier)[at]);
    } else {
        let last = messages[messages.len() - 1];
        assert(last == messages.last());
        assert(reply_text(known_after(known, earlier), last) is Some);
    }
}

/// What is known after some messages is what was known and the fingerprints of all of
/// them, and of nothing else.
pub proof fn messages_seen_are_known(
    known: Set<Seq<char>>,
    messages: Seq<MessageModel>,
    fingerprint: Seq<char>,
)
    ensures
        known_after(known, messages).contains(fingerprint) <==> {
            ||| known.contains(fingerprint)
            ||| exists|i: int|
                0 <= i < messages.len() && #[trigger] message_fingerprint(messages[i])
                    == fingerprint
        },
    decreases messages.len(),
{
    if messages.len() > 0 {
        let earlier = messages.drop_last();
        messages_seen_are_known(known, earlier, fingerprint);
        if known_after(known, messages).contains(fingerprint) && !known.contains(fingerprint) {
            if message_fingerprint(messages.last()) == fingerprint {
                assert(message_fingerprint(messages[messages.len() - 1]) == fingerprint);
            } else {
                let i = choose|i: int|
                    0 <= i < earlier.len() && #[trigger] message_fingerprint(earlier[i])
                        == fingerprint;
                assert(message_fingerprint(messages[i]) == fingerprint);
            }
        }
        if exists|i: int|
            0 <= i < messages.len() && #[trigger] message_fingerprint(messages[i]) == fingerprint {
            let i = choose|i: int|
                0 <= i < messages.len() && #[trigger] message_fingerprint(messages[i])
                    == fingerprint;
            if i < earlier.len() {
                assert(message_fingerprint(earlier[i]) == fingerprint);
            }
        }
    }
}

/// Replies are logged once each and in order. Looking at messages in two goes logs what
/// looking at them in one go does, and of one message the text is logged, as it stands,
/// exactly if the message is new, comes from the agent and has a text that is not empty.
pub proof fn replies_are_logged_in_order(
    known: Set<Seq<char>>,
    first: Seq<MessageModel>,
    second: Seq<MessageModel>,
    message: MessageModel,
)
    ensures
        known_after(known, first + second) == known_after(known_after(known, first), second),
        replies(known, first + second) == replies(known, first) + replies(
            known_after(known, first),
            second,
        ),
        ({
            let new = !known.contains(message_fingerprint(message));
            let from_agent = message.role == Some(
                seq!['a', 's', 's', 'i', 's', 't', 'a', 'n', 't'],
            );
            replies(known, seq![message]) == (if new && from_agent && message.text is Some
                && message.text->Some_0.len() > 0 {
                seq![message.text->Some_0]
            } else {
                Seq::empty()
            })
        }),
        replies(known, Seq::empty()).len() == 0,
    decreases second.len(),
{
    reveal_strlit("assistant");
    assert("assistant"@ =~= seq!['a', 's', 's', 'i', 's', 't', 'a', 'n', 't']);
    let none = Seq::<MessageModel>::empty();
    assert(seq![message].drop_last() =~= none);
    assert(known_after(known, none) == known);
    assert(replies(known, none) =~= Seq::empty());
    assert(replies(known, seq![message]) =~= match reply_text(known, message) {
        Some(text) => seq![text],
        None => Seq::empty(),
    });
    if second.len() > 0 {
        let whole = first + second;
        replies_are_logged_in_order(known, first, second.drop_last(), message);
        assert(whole.drop_last() =~= first + second.drop_last());
        assert(whole.last() == second.last());
        assert(replies(known, whole) =~= replies(known, first) + replies(
            known_after(known, first),
            second,
        ));
    } else {
        assert(first + second =~= first);
        assert(replies(known, first) + replies(known_after(known, first), second) =~= replies(
            known,
            first,
        ));
    }
}

/// A transcript is sent once. Where the conversation is logged, what the session already
/// holds is fetched and what was said is logged before it is sent, and the reply is
/// awaited after that; where it is not, nothing else is done.
pub proof fn sending_goes_in_order(logged: bool)
    ensures
        ({
            let steps = sending_steps(logged);
            &&& !logged ==> steps == seq![SendStep::Send]
            &&& logged ==> steps.len() == 4 && steps[0] == SendStep::FetchHistory && steps[1]
                == SendStep::LogTranscript && steps[2] == SendStep::Send && steps[3]
                == SendStep::AwaitReply
        }),
{
}

} // verus!
