//! What the readers report and what the collector does about it.
//!
//! Each child has a reader, which turns what it reads into messages: a line,
//! or the end of the child's output. The collector owns the set of running
//! children. A line is printed behind the prefix of its child; at the end of
//! a child's output the child leaves the set and its reader is waited for.
//! When the set is empty the run is over.

use std::collections::HashMap;
use vstd::prelude::*;
use vstd::string::StringExecFns;

verus! {

broadcast use vstd::std_specs::hash::group_hash_axioms;

/// What a reader reports about the child with the given key.
#[derive(Debug, Clone, PartialEq, Eq)]
pub enum Message {
    /// One line of output, with its terminator.
    Line(u32, String),
    /// The child's output has ended.
    Terminated(u32),
}

impl Message {
    /// The key of the child that the message is about.
    pub open spec fn spec_key(&self) -> u32 {
        match *self {
            Message::Line(key, _) => key,
            Message::Terminated(key) => key,
        }
    }

    /// The key of the child that the message is about.
    #[verifier::when_used_as_spec(spec_key)]
    pub fn key(&self) -> (key: u32)
        ensures
            key == self.spec_key(),
    {
        match self {
            Message::Line(key, _) => *key,
            Message::Terminated(key) => *key,
        }
    }

    /// Whether the reader that sent this message has stopped.
    pub fn ends_reader(&self) -> (ended: bool)
        ensures
            ended == (self is Terminated),
    {
        match self {
            Message::Line(_, _) => false,
            Message::Terminated(_) => true,
        }
    }
}

/// The message for one attempt to read a line from the child with `key`.
/// `read` is `None` where the read failed, and else what was read, which is
/// empty at the end of the stream. Only a line that holds something is
/// passed on; anything else ends the child's output.
pub fn message_for(key: u32, read: Option<String>) -> (message: Message)
    ensures
        message.spec_key() == key,
        match read {
            Some(line) => if line@.len() > 0 {
                message == Message::Line(key, line)
            } else {
                message == Message::Terminated(key)
            },
            None => message == Message::Terminated(key),
        },
{
    match read {
        Some(line) => if line.as_str().is_empty() {
            Message::Terminated(key)
        } else {
            Message::Line(key, line)
        },
        None => Message::Terminated(key),
    }
}

/// What the collector has to do for a message.
#[derive(Debug, Clone, PartialEq, Eq)]
pub enum Action {
    /// Write this text to the output.
    Print(String),
    /// Wait for the reader of the child with this key; the child has left
    /// the set.
    Retire(u32),
}

/// What an `Action` holds.
pub enum ActionModel {
    Print(Seq<char>),
    Retire(u32),
}

impl View for Action {
    type V = ActionModel;

    open spec fn view(&self) -> ActionModel {
        match self {
            Action::Print(text) => ActionModel::Print(text@),
            Action::Retire(key) => ActionModel::Retire(*key),
        }
    }
}

/// What one message does to the running children, and what is to be done
/// for it. A line leaves the children as they are and is printed behind
/// the prefix of its child; the end of a child's output removes the child.
pub open spec fn step(running: Map<u32, Seq<char>>, message: Message) -> (
    Map<u32, Seq<char>>,
    ActionModel,
) {
    match message {
        Message::Line(key, text) => (running, ActionModel::Print(running[key] + text@)),
        Message::Terminated(key) => (running.remove(key), ActionModel::Retire(key)),
    }
}

/// The children that are running after the messages were taken in order.
pub open spec fn running_after(start: Map<u32, Seq<char>>, messages: Seq<Message>) -> Map<
    u32,
    Seq<char>,
>
    decreases messages.len(),
{
    if messages.len() == 0 {
        start
    } else {
        step(running_after(start, messages.drop_last()), messages.last()).0
    }
}

/// What is to be done for the messages, one action for each, in order.
pub open spec fn actions_for(start: Map<u32, Seq<char>>, messages: Seq<Message>) -> Seq<
    ActionModel,
>
    decreases messages.len(),
{
    if messages.len() == 0 {
        Seq::empty()
    } else {
        actions_for(start, messages.drop_last()).push(
            step(running_after(start, messages.drop_last()), messages.last()).1,
        )
    }
}

/// Whether the messages can be taken in order: each is about a child that
/// is running when its turn comes.
pub open spec fn admissible(start: Map<u32, Seq<char>>, messages: Seq<Message>) -> bool
    decreases messages.len(),
{
    messages.len() == 0 || (admissible(start, messages.drop_last()) && running_after(
        start,
        messages.drop_last(),
    ).contains_key(messages.last().spec_key()))
}

/// Whether the end of the output of the child with `key` is among the
/// messages.
pub open spec fn ended(messages: Seq<Message>, key: u32) -> bool {
    exists|i: int| 0 <= i < messages.len() && #[trigger] messages[i] == Message::Terminated(key)
}

/// The text that the actions print, in order.
pub open spec fn output_of(actions: Seq<ActionModel>) -> Seq<char>
    decreases actions.len(),
{
    if actions.len() == 0 {
        Seq::empty()
    } else {
        match actions.last() {
            ActionModel::Print(text) => output_of(actions.drop_last()) + text,
            ActionModel::Retire(_) => output_of(actions.drop_last()),
        }
    }
}

/// The lines among the messages, in order, each behind the prefix that its
/// child has in `start`.
pub open spec fn lines_behind_prefixes(start: Map<u32, Seq<char>>, messages: Seq<Message>) -> Seq<
    char,
>
    decreases messages.len(),
{
    if messages.len() == 0 {
        Seq::empty()
    } else {
        match messages.last() {
            Message::Line(key, text) => lines_behind_prefixes(start, messages.drop_last())
                + start[key] + text@,
            Message::Terminated(_) => lines_behind_prefixes(start, messages.drop_last()),
        }
    }
}

/// The children that are running after a run of messages are those of the
/// start whose output has not ended, and each still has its prefix.
pub proof fn lemma_running_after(start: Map<u32, Seq<char>>, messages: Seq<Message>)
    ensures
        forall|key: u32| #[trigger]
            running_after(start, messages).contains_key(key) <==> start.contains_key(key)
                && !ended(messages, key),
        forall|key: u32|
            running_after(start, messages).contains_key(key) ==> #[trigger] running_after(
                start,
                messages,
            )[key] == start[key],
    decreases messages.len(),
{
    let now = running_after(start, messages);
    if messages.len() > 0 {
        let before = messages.drop_last();
        let last = messages.last();
        let earlier = running_after(start, before);
        lemma_running_after(start, before);
        assert(now == step(earlier, last).0);
        assert forall|key: u32| #[trigger]
            now.contains_key(key) <==> start.contains_key(key) && !ended(messages, key) by {
            lemma_ended_by_last(messages, key);
            assert(earlier.contains_key(key) <==> start.contains_key(key) && !ended(before, key));
        }
        assert forall|key: u32| now.contains_key(key) implies #[trigger] now[key]
            == start[key] by {
            assert(earlier.contains_key(key));
            assert(earlier[key] == start[key]);
        }
    } else {
        assert forall|key: u32| !ended(messages, key) by {}
    }
}

/// The end of a child's output is among the messages when it is the last
/// of them or among those before it.
proof fn lemma_ended_by_last(messages: Seq<Message>, key: u32)
    requires
        messages.len() > 0,
    ensures
        ended(messages, key) <==> ended(messages.drop_last(), key) || messages.last()
            == Message::Terminated(key),
{
    let before = messages.drop_last();
    if ended(messages, key) {
        let i = choose|i: int|
            0 <= i < messages.len() && #[trigger] messages[i] == Message::Terminated(key);
        if i < before.len() {
            assert(before[i] == messages[i]);
        }
    }
    if ended(before, key) {
        let i = choose|i: int|
            0 <= i < before.len() && #[trigger] before[i] == Message::Terminated(key);
        assert(messages[i] == before[i]);
    }
    if messages.last() == Message::Terminated(key) {
        assert(messages[messages.len() - 1] == Message::Terminated(key));
    }
}

/// The run is over exactly when the output of every child of the start has
/// ended: the set of running children is empty then, and not before.
pub proof fn lemma_empty_when_all_ended(start: Map<u32, Seq<char>>, messages: Seq<Message>)
    ensures
        running_after(start, messages) == Map::<u32, Seq<char>>::empty() <==> forall|key: u32|
            start.contains_key(key) ==> ended(messages, key),
{
    lemma_running_after(start, messages);
    let rest = running_after(start, messages);
    if forall|key: u32| start.contains_key(key) ==> ended(messages, key) {
        assert forall|key: u32| !rest.contains_key(key) by {
            if rest.contains_key(key) {
                assert(start.contains_key(key) && !ended(messages, key));
            }
        }
        assert(rest =~= Map::<u32, Seq<char>>::empty());
    }
    if rest == Map::<u32, Seq<char>>::empty() {
        assert forall|key: u32| start.contains_key(key) implies ended(messages, key) by {
            assert(!rest.contains_key(key));
        }
    }
}

/// Messages about children of the start, none of them about a child whose
/// output has ended before, can be taken in order.
pub proof fn lemma_ordered_is_admissible(start: Map<u32, Seq<char>>, messages: Seq<Message>)
    requires
        forall|i: int|
            0 <= i < messages.len() ==> start.contains_key((#[trigger] messages[i]).spec_key()),
        forall|i: int, j: int|
            0 <= i < j < messages.len() && (#[trigger] messages[i]) is Terminated
                ==> (#[trigger] messages[j]).spec_key() != messages[i].spec_key(),
    ensures
        admissible(start, messages),
    decreases messages.len(),
{
    if messages.len() > 0 {
        let before = messages.drop_last();
        let last = messages.last();
        assert forall|i: int| 0 <= i < before.len() implies start.contains_key(
            (#[trigger] before[i]).spec_key(),
        ) by {
            assert(before[i] == messages[i]);
        }
        assert forall|i: int, j: int|
            0 <= i < j < before.len() && (#[trigger] before[i]) is Terminated implies (
        #[trigger] before[j]).spec_key() != before[i].spec_key() by {
            assert(before[i] == messages[i]);
            assert(before[j] == messages[j]);
        }
        lemma_ordered_is_admissible(start, before);
        lemma_running_after(start, before);
        let key = last.spec_key();
        assert(messages[messages.len() - 1] == last);
        if ended(before, key) {
            let i = choose|i: int|
                0 <= i < before.len() && #[trigger] before[i] == Message::Terminated(key);
            assert(messages[i] == before[i]);
            assert(messages[i] is Terminated);
            assert(false);
        }
        assert(running_after(start, before).contains_key(key));
    }
}

/// There is one action for each message: for a line, to print it whole
/// behind the prefix that its child has in the start; for the end of a
/// child's output, to retire that child.
pub proof fn lemma_action_per_message(start: Map<u32, Seq<char>>, messages: Seq<Message>)
    requires
        admissible(start, messages),
    ensures
        actions_for(start, messages).len() == messages.len(),
        forall|i: int|
            0 <= i < messages.len() ==> #[trigger] actions_for(start, messages)[i] == (
            match messages[i] {
                Message::Line(key, text) => ActionModel::Print(start[key] + text@),
                Message::Terminated(key) => ActionModel::Retire(key),
            }),
    decreases messages.len(),
{
    if messages.len() > 0 {
        let before = messages.drop_last();
        lemma_action_per_message(start, before);
        lemma_running_after(start, before);
        let actions = actions_for(start, messages);
        assert forall|i: int| 0 <= i < messages.len() implies #[trigger] actions[i] == (
        match messages[i] {
            Message::Line(key, text) => ActionModel::Print(start[key] + text@),
            Message::Terminated(key) => ActionModel::Retire(key),
        }) by {
            if i < before.len() {
                assert(actions[i] == actions_for(start, before)[i]);
                assert(before[i] == messages[i]);
            }
        }
    }
}

/// What a run prints is its lines in the order of their arrival, each
/// whole and directly behind the prefix of its own child.
pub proof fn lemma_output_is_lines_behind_prefixes(
    start: Map<u32, Seq<char>>,
    messages: Seq<Message>,
)
    requires
        admissible(start, messages),
    ensures
        output_of(actions_for(start, messages)) == lines_behind_prefixes(start, messages),
    decreases messages.len(),
{
    if messages.len() > 0 {
        let before = messages.drop_last();
        lemma_output_is_lines_behind_prefixes(start, before);
        lemma_running_after(start, before);
        let actions = actions_for(start, messages);
        assert(actions.drop_last() =~= actions_for(start, before));
        match messages.last() {
            Message::Line(key, text) => {
                assert(output_of(actions) =~= lines_behind_prefixes(start, messages));
            },
            Message::Terminated(_) => {},
        }
    }
}

/// The children that are still running, each with its prefix.
pub struct ProgramSet {
    prefixes: HashMap<u32, String>,
}

impl View for ProgramSet {
    type V = Map<u32, Seq<char>>;

    closed spec fn view(&self) -> Map<u32, Seq<char>> {
        self.prefixes@.map_values(|prefix: String| prefix@)
    }
}

impl ProgramSet {
    /// A set without children.
    pub fn new() -> (set: ProgramSet)
        ensures
            set@ == Map::<u32, Seq<char>>::empty(),
    {
        let set = ProgramSet { prefixes: HashMap::new() };
        proof {
            assert(set@ =~= Map::<u32, Seq<char>>::empty());
        }
        set
    }

    /// Records a running child. A child that was recorded under the same key
    /// is replaced.
    pub fn insert(&mut self, key: u32, prefix: String)
        ensures
            final(self)@ == old(self)@.insert(key, prefix@),
    {
        self.prefixes.insert(key, prefix);
        proof {
            assert(final(self)@ =~= old(self)@.insert(key, prefix@));
        }
    }

    /// How many children are running.
    pub fn len(&self) -> (n: usize)
        ensures
            n == self@.len(),
            self@.dom().finite(),
    {
        proof {
            assert(self@.dom() =~= self.prefixes@.dom());
        }
        self.prefixes.len()
    }

    /// Whether no child is running, which is when the run is over.
    pub fn is_empty(&self) -> (empty: bool)
        ensures
            empty == (self@ == Map::<u32, Seq<char>>::empty()),
    {
        proof {
            assert(self@.dom() =~= self.prefixes@.dom());
            if self.prefixes@.len() == 0 {
                assert(self@ =~= Map::<u32, Seq<char>>::empty());
            }
        }
        self.prefixes.len() == 0
    }

    /// Whether the child with `key` is running.
    pub fn contains(&self, key: u32) -> (running: bool)
        ensures
            running == self@.contains_key(key),
    {
        self.prefixes.contains_key(&key)
    }

    /// Takes one message. A line becomes the text to print: the prefix of
    /// its child, then the line. The end of a child's output removes the
    /// child and asks for its reader to be waited for.
    pub fn handle(&mut self, message: Message) -> (action: Action)
        requires
            old(self)@.contains_key(message.spec_key()),
        ensures
            (final(self)@, action@) == step(old(self)@, message),
    {
        match message {
            Message::Line(key, text) => {
                let prefix = self.prefixes.get(&key).unwrap();
                let mut shown = prefix.clone();
                shown.append(text.as_str());
                Action::Print(shown)
            },
            Message::Terminated(key) => {
                self.prefixes.remove(&key);
                proof {
                    assert(final(self)@ =~= old(self)@.remove(key));
                }
                Action::Retire(key)
            },
        }
    }
}

} // verus!
