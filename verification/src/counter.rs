//! The session counter and its record in the medium.

use vstd::prelude::*;
use crate::decimal::{decimal_text, encode_count, parse_count, read_count};
use crate::medium::{Command, CommandView, Medium, Reply};
use crate::persist::Persistent;
use crate::unit1;

verus! {

/// The key under which the counter keeps its record in the medium.
pub const RECORD_KEY: &'static str = "sessions";

/// Why a counter could not be persisted or rebuilt.
#[derive(Clone, Copy, Debug, PartialEq, Eq)]
pub enum PersistError {
    /// The medium could not be reached: the command or its reply was lost on
    /// the way.
    MediumUnreachable,
    /// The medium answered a write with anything but an acknowledgement: the
    /// write was not taken.
    WriteRefused,
    /// The medium answered that nothing is stored under the key.
    RecordAbsent,
    /// The medium answered, but not with a record that reads as a count: the
    /// reply has another shape, its bytes are not UTF-8, or its text is not
    /// an unsigned decimal numeral of at most `u32::MAX`.
    MalformedRecord,
}

/// The number of sessions served since the counter was created or rebuilt.
///
/// The count moves only through [`SessionCounter::increment_and_read`], which
/// takes the counter by exclusive reference: each call is one indivisible
/// step, and callers that share a counter reach it through one lock.
#[derive(Clone, Copy, Debug, PartialEq, Eq)]
pub struct SessionCounter {
    sessions: u32,
}

impl View for SessionCounter {
    type V = nat;

    closed spec fn view(&self) -> nat {
        self.sessions as nat
    }
}

/// The count that follows `count`.
pub open spec fn next_count(count: nat) -> nat {
    count + 1
}

/// The command that persists a counter at `count`.
pub open spec fn persist_request(count: nat) -> CommandView {
    CommandView::Store { key: RECORD_KEY@, value: decimal_text(count) }
}

/// The command that fetches the record to rebuild from.
pub open spec fn rebuild_request() -> CommandView {
    CommandView::Fetch { key: RECORD_KEY@ }
}

/// What persisting comes to, given how sending the command went: it succeeds
/// exactly when the medium was reached and acknowledged the write.
pub open spec fn persist_result<E>(sent: Result<Reply, E>) -> Result<(), PersistError> {
    match sent {
        Ok(reply) => if reply.acknowledges() {
            Ok(())
        } else {
            Err(PersistError::WriteRefused)
        },
        Err(_) => Err(PersistError::MediumUnreachable),
    }
}

/// The count to rebuild from a reply, or the reason why there is none.
pub open spec fn reply_count(reply: Reply) -> Result<u32, PersistError> {
    match reply {
        Reply::Nil => Err(PersistError::RecordAbsent),
        _ => match reply.record_text() {
            Some(text) => match parse_count(text) {
                Some(count) => Ok(count),
                None => Err(PersistError::MalformedRecord),
            },
            None => Err(PersistError::MalformedRecord),
        },
    }
}

/// The count to rebuild from, given how fetching the record went.
pub open spec fn rebuild_count<E>(received: Result<Reply, E>) -> Result<u32, PersistError> {
    match received {
        Ok(reply) => reply_count(reply),
        Err(_) => Err(PersistError::MediumUnreachable),
    }
}

impl SessionCounter {
    /// A counter that has served no session yet.
    pub fn new() -> (counter: Self)
        ensures
            counter@ == 0,
    {
        SessionCounter { sessions: 0 }
    }

    /// A counter that has served `sessions` sessions.
    pub fn starting_at(sessions: u32) -> (counter: Self)
        ensures
            counter@ == sessions,
    {
        SessionCounter { sessions }
    }

    /// The number of sessions served so far.
    pub fn current(&self) -> (sessions: u32)
        ensures
            sessions == self@,
    {
        self.sessions
    }

    /// Counts one more session and returns the new count.
    pub fn increment_and_read(&mut self) -> (served: u32)
        requires
            old(self)@ < u32::MAX,
        ensures
            final(self)@ == next_count(old(self)@),
            served == final(self)@,
    {
        self.sessions = self.sessions + 1;
        self.sessions
    }

    /// The command that writes the current count to the medium.
    pub fn persist_command(&self) -> (command: Command)
        ensures
            command@ == persist_request(self@),
    {
        Command::Store { key: RECORD_KEY.to_owned(), value: encode_count(self.sessions) }
    }

    /// The command that asks the medium for the persisted count.
    pub fn rebuild_command() -> (command: Command)
        ensures
            command@ == rebuild_request(),
    {
        Command::Fetch { key: RECORD_KEY.to_owned() }
    }

    /// Turns the outcome of sending the persist command into the outcome of
    /// persisting: the reply decides, not the delivery alone.
    pub fn persist_outcome<E>(sent: Result<Reply, E>) -> (outcome: Result<(), PersistError>)
        ensures
            outcome == persist_result(sent),
    {
        match sent {
            Ok(Reply::SimpleString(acknowledgement)) => Ok(unit1(acknowledgement)),
            Ok(Reply::BulkString(acknowledgement)) => Ok(unit1(acknowledgement)),
            Ok(Reply::Nil) => Err(PersistError::WriteRefused),
            Ok(Reply::Unrecognized) => Err(PersistError::WriteRefused),
            Err(failure) => {
                unit1(failure);
                Err(PersistError::MediumUnreachable)
            },
        }
    }

    /// Constructs a counter from the reply to the rebuild command.
    pub fn rebuild_from_reply(reply: &Reply) -> (outcome: Result<Self, PersistError>)
        ensures
            match reply_count(*reply) {
                Ok(count) => outcome matches Ok(counter) && counter@ == count,
                Err(error) => outcome == Err::<Self, PersistError>(error),
            },
    {
        match reply {
            Reply::SimpleString(text) => {
                proof {
                    vstd::utf8::encode_utf8_valid_utf8(text@);
                    vstd::utf8::encode_utf8_decode_utf8(text@);
                }
                Self::counter_of(read_count(text.as_str().as_bytes()))
            },
            Reply::BulkString(bytes) => Self::counter_of(read_count(bytes.as_slice())),
            Reply::Nil => Err(PersistError::RecordAbsent),
            Reply::Unrecognized => Err(PersistError::MalformedRecord),
        }
    }

    /// A counter at the count that was read, if one was read.
    fn counter_of(count: Option<u32>) -> (outcome: Result<Self, PersistError>)
        ensures
            match count {
                Some(sessions) => outcome matches Ok(counter) && counter@ == sessions,
                None => outcome == Err::<Self, PersistError>(PersistError::MalformedRecord),
            },
    {
        match count {
            Some(sessions) => Ok(SessionCounter { sessions }),
            None => Err(PersistError::MalformedRecord),
        }
    }

    /// Turns the outcome of fetching the record into the outcome of
    /// rebuilding.
    pub fn rebuild_outcome<E>(received: Result<Reply, E>) -> (outcome: Result<Self, PersistError>)
        ensures
            match rebuild_count(received) {
                Ok(count) => outcome matches Ok(counter) && counter@ == count,
                Err(error) => outcome == Err::<Self, PersistError>(error),
            },
    {
        match received {
            Ok(reply) => Self::rebuild_from_reply(&reply),
            Err(failure) => {
                unit1(failure);
                Err(PersistError::MediumUnreachable)
            },
        }
    }
}

impl<M: Medium> Persistent<M> for SessionCounter {
    type Error = PersistError;

    /// Sends the persist command through `medium`. The counter is read once,
    /// before the round trip, and is not touched by it. The write counts as
    /// made only when the medium was reached and acknowledged it.
    fn persist(&self, medium: &M) -> (outcome: Result<(), PersistError>)
        ensures
            persisted_through(medium, self@, outcome),
            outcome matches Err(error) ==> error == PersistError::MediumUnreachable || error
                == PersistError::WriteRefused,
    {
        let command = self.persist_command();
        let ghost handed = command;
        let sent = medium.request(command);
        let ghost answer = sent;
        let outcome = Self::persist_outcome(sent);
        assert(call_ensures(M::request, (medium, handed), answer));
        outcome
    }

    /// Sends the rebuild command through `medium` and constructs a counter
    /// from the reply.
    fn rebuild(medium: &M) -> (outcome: Result<Self, PersistError>)
        ensures
            rebuilt_through(medium, outcome),
    {
        let command = Self::rebuild_command();
        let ghost handed = command;
        let received = medium.request(command);
        let ghost answer = received;
        let outcome = Self::rebuild_outcome(received);
        assert(call_ensures(M::request, (medium, handed), answer));
        outcome
    }
}

/// True when `outcome` is how persisting a counter at `count` through
/// `medium` can end: the medium was handed the persist command for that
/// count, and `outcome` is what the answer that it gave comes to. Nothing is
/// said of which answer a medium gives: that is the medium's to decide.
pub open spec fn persisted_through<M: Medium>(
    medium: &M,
    count: nat,
    outcome: Result<(), PersistError>,
) -> bool {
    exists|command: Command, sent: Result<Reply, M::Failure>|
        command@ == persist_request(count) && #[trigger] call_ensures(
            M::request,
            (medium, command),
            sent,
        ) && outcome == persist_result(sent)
}

/// True when `outcome` is how rebuilding through `medium` can end: the medium
/// was handed the rebuild command, and `outcome` is the counter at the count
/// in the answer that it gave, or the reason why that answer holds none.
pub open spec fn rebuilt_through<M: Medium>(
    medium: &M,
    outcome: Result<SessionCounter, PersistError>,
) -> bool {
    exists|command: Command, received: Result<Reply, M::Failure>|
        command@ == rebuild_request() && #[trigger] call_ensures(
            M::request,
            (medium, command),
            received,
        ) && match rebuild_count(received) {
            Ok(count) => outcome matches Ok(counter) && counter@ == count,
            Err(error) => outcome == Err::<SessionCounter, PersistError>(error),
        }
}

/// The count of a counter that started at `start` and was incremented `n`
/// times.
pub open spec fn count_after(start: nat, n: nat) -> nat
    decreases n,
{
    if n == 0 {
        start
    } else {
        next_count(count_after(start, (n - 1) as nat))
    }
}

/// The counts handed out by `n` increments of a counter that started at
/// `start`, in the order in which the increments took effect.
pub open spec fn served_counts(start: nat, n: nat) -> Seq<nat>
    decreases n,
{
    if n == 0 {
        Seq::empty()
    } else {
        served_counts(start, (n - 1) as nat).push(count_after(start, n))
    }
}

/// However `n` callers of `increment_and_read` are ordered by the lock that
/// they share, the counter ends `n` above where it started, no increment finds
/// the counter at its limit, and the counts handed out are the `n` counts
/// above the start, each handed out once.
pub proof fn lemma_increments_serve_each_count_once(start: nat, n: nat)
    requires
        start + n <= u32::MAX,
    ensures
        count_after(start, n) == start + n,
        forall|k: nat| k < n ==> #[trigger] count_after(start, k) < u32::MAX,
        served_counts(start, n).len() == n,
        forall|k: int| 0 <= k < n ==> #[trigger] served_counts(start, n)[k] == start + 1 + k,
        forall|count: nat| #[trigger]
            served_counts(start, n).to_multiset().count(count) == (if start < count <= start + n {
                1nat
            } else {
                0nat
            }),
    decreases n,
{
    if n == 0 {
        assert(served_counts(start, n).to_multiset() =~= vstd::multiset::Multiset::<nat>::empty())
            by {
            served_counts(start, n).to_multiset_ensures();
        }
    } else {
        let before = (n - 1) as nat;
        lemma_increments_serve_each_count_once(start, before);
        let earlier = served_counts(start, before);
        let last = count_after(start, n);
        vstd::seq_lib::to_multiset_build(earlier, last);
        assert forall|k: nat| k < n implies #[trigger] count_after(start, k) < u32::MAX by {
            if k == before {
                assert(count_after(start, before) == start + before);
            }
        }
        assert forall|count: nat| #[trigger]
            served_counts(start, n).to_multiset().count(count) == (if start < count <= start + n {
                1nat
            } else {
                0nat
            }) by {
            assert(earlier.to_multiset().insert(last).count(count) == earlier.to_multiset().count(
                count,
            ) + (if count == last {
                1nat
            } else {
                0nat
            }));
        }
    }
}

/// A reply that hands back the text `stored`, in either of the two shapes in
/// which a medium sends a string: as a simple string, or as a bulk string of
/// its UTF-8 bytes.
pub open spec fn hands_back(reply: Reply, stored: Seq<char>) -> bool {
    match reply {
        Reply::SimpleString(text) => text@ == stored,
        Reply::BulkString(bytes) => bytes@ == vstd::utf8::encode_utf8(stored),
        Reply::Nil => false,
        Reply::Unrecognized => false,
    }
}

/// Persisting and rebuilding name the same key, and a counter rebuilt from
/// a reply that hands back the text that `persist` stored has the count that
/// was persisted, whatever that count and whichever shape the reply has.
pub proof fn lemma_rebuild_after_persist(counter: SessionCounter, reply: Reply)
    requires
        hands_back(reply, decimal_text(counter@)),
    ensures
        persist_request(counter@) == (CommandView::Store {
            key: RECORD_KEY@,
            value: decimal_text(counter@),
        }),
        rebuild_request() == (CommandView::Fetch { key: RECORD_KEY@ }),
        reply_count(reply) matches Ok(count) && count == counter@,
{
    let stored = decimal_text(counter@);
    crate::decimal::lemma_parse_decimal_text(counter.sessions);
    vstd::utf8::encode_utf8_valid_utf8(stored);
    vstd::utf8::encode_utf8_decode_utf8(stored);
}

/// Persisting succeeds if and only if the medium was reached and acknowledged
/// the write: a command that was not delivered is reported as an unreachable
/// medium, a reply that acknowledges nothing as a refused write.
pub proof fn lemma_persist_succeeds_iff_acknowledged<E>(sent: Result<Reply, E>)
    ensures
        persist_result(sent) is Ok <==> (sent matches Ok(reply) && reply.acknowledges()),
        sent is Err ==> persist_result(sent) == Err::<(), PersistError>(
            PersistError::MediumUnreachable,
        ),
        sent matches Ok(reply) && !reply.acknowledges() ==> persist_result(sent) == Err::<
            (),
            PersistError,
        >(PersistError::WriteRefused),
{
}

/// A persist that fails, for either reason, reports the failure. The count
/// that it read is still the count of the counter: the next increment hands
/// out the count that follows it.
pub proof fn lemma_failed_persist_keeps_sequence<E>(count: nat, sent: Result<Reply, E>)
    requires
        !(sent matches Ok(reply) && reply.acknowledges()),
    ensures
        persist_result(sent) is Err,
        sent is Err ==> persist_result(sent) == Err::<(), PersistError>(
            PersistError::MediumUnreachable,
        ),
        served_counts(count, 1) == seq![count + 1],
{
    reveal_with_fuel(served_counts, 2);
    reveal_with_fuel(count_after, 2);
    assert(served_counts(count, 1) =~= seq![count + 1]);
}

impl Default for SessionCounter {
    fn default() -> (counter: Self)
        ensures
            counter@ == 0,
    {
        SessionCounter::new()
    }
}

} // verus!
