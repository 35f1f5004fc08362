//! The messages exchanged with the Studio plugin, and the queue that holds
//! them until the plugin polls.

use vstd::prelude::*;

verus! {

/// What the server tells the Studio plugin.
#[derive(Clone, Debug)]
pub enum Event {
    /// A local script was saved: the plugin sets the instance's source.
    ScriptPushed { name: String, kind: String, roblox_path: String, source: String },
    /// The answer to a pull: each script sent from Studio, with whether it
    /// differs from the local file.
    PullReady { files: Vec<PullFile> },
    /// All mapped Roblox paths exist.
    StructureOk,
    /// Some mapped Roblox paths do not exist yet.
    StructureMissing { paths: Vec<String> },
    /// Something failed on the server's side.
    Error { message: String },
}

/// A script sent from Studio, checked against the local file.
#[derive(Clone, Debug)]
pub struct PullFile {
    pub roblox_path: String,
    pub name: String,
    pub kind: String,
    pub source: String,
    /// The local file exists and differs from `source` beyond leading and
    /// trailing white space.
    pub conflict: bool,
}

/// The body of a pull request: the scripts that Studio sends.
#[derive(Clone, Debug)]
pub struct PullRequest {
    pub files: Vec<IncomingScript>,
}

/// A script as Studio sends it.
#[derive(Clone, Debug)]
pub struct IncomingScript {
    pub roblox_path: String,
    pub name: String,
    pub kind: String,
    pub source: String,
}

/// An incoming script with its strings seen as character sequences.
pub struct IncomingView {
    pub roblox_path: Seq<char>,
    pub name: Seq<char>,
    pub kind: Seq<char>,
    pub source: Seq<char>,
}

impl View for IncomingScript {
    type V = IncomingView;

    open spec fn view(&self) -> IncomingView {
        IncomingView {
            roblox_path: self.roblox_path@,
            name: self.name@,
            kind: self.kind@,
            source: self.source@,
        }
    }
}

/// A checked script with its strings seen as character sequences.
pub struct PullFileView {
    pub roblox_path: Seq<char>,
    pub name: Seq<char>,
    pub kind: Seq<char>,
    pub source: Seq<char>,
    pub conflict: bool,
}

impl View for PullFile {
    type V = PullFileView;

    open spec fn view(&self) -> PullFileView {
        PullFileView {
            roblox_path: self.roblox_path@,
            name: self.name@,
            kind: self.kind@,
            source: self.source@,
            conflict: self.conflict,
        }
    }
}

/// The events waiting for the plugin's next poll, oldest first.
#[derive(Debug)]
pub struct PollQueue {
    events: Vec<Event>,
}

impl View for PollQueue {
    type V = Seq<Event>;

    closed spec fn view(&self) -> Seq<Event> {
        self.events@
    }
}

impl PollQueue {
    /// A queue with no event.
    pub fn new() -> (q: Self)
        ensures
            q@ == Seq::<Event>::empty(),
    {
        PollQueue { events: Vec::new() }
    }

    /// The number of waiting events.
    pub fn len(&self) -> (n: usize)
        ensures
            n == self@.len(),
    {
        self.events.len()
    }

    /// Queues `event` behind the waiting ones.
    pub fn push(&mut self, event: Event)
        ensures
            final(self)@ == old(self)@.push(event),
    {
        self.events.push(event);
    }

    /// Hands out every waiting event, oldest first, and empties the queue.
    pub fn drain(&mut self) -> (events: Vec<Event>)
        ensures
            events@ == old(self)@,
            final(self)@ == Seq::<Event>::empty(),
    {
        let mut events = Vec::new();
        std::mem::swap(&mut events, &mut self.events);
        events
    }
}

/// The queue's contents after pushing `events`, in order, onto `start`.
pub open spec fn after_pushes(start: Seq<Event>, events: Seq<Event>) -> Seq<Event>
    decreases events.len(),
{
    if events.len() == 0 {
        start
    } else {
        after_pushes(start, events.drop_last()).push(events.last())
    }
}

/// Pushing events one by one onto a queue appends them in order: a poll after
/// the pushes that follow a poll hands out exactly those events, oldest first.
pub proof fn law_poll_returns_pushed_in_order(start: Seq<Event>, events: Seq<Event>)
    ensures
        after_pushes(start, events) == start + events,
        after_pushes(Seq::empty(), events) == events,
    decreases events.len(),
{
    if events.len() > 0 {
        law_poll_returns_pushed_in_order(start, events.drop_last());
        assert(start + events =~= (start + events.drop_last()).push(events.last()));
        assert(Seq::<Event>::empty() + events =~= events);
    } else {
        assert(start + events =~= start);
    }
    assert(Seq::<Event>::empty() + events =~= events);
}

} // verus!
