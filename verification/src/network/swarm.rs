//! Handle of the background swarm task.
use vstd::prelude::*;
use vstd::string::*;

verus! {

/// Handle of the swarm task of a peer: its id and whether the task runs.
pub struct SwarmHandle {
    peer_id: String,
    running: bool,
}

impl View for SwarmHandle {
    type V = (Seq<char>, bool);

    closed spec fn view(&self) -> (Seq<char>, bool) {
        (self.peer_id@, self.running)
    }
}

impl SwarmHandle {
    /// A stopped handle for `peer_id`.
    pub fn new(peer_id: &str) -> (r: Self)
        ensures
            r@ == (peer_id@, false),
    {
        SwarmHandle { peer_id: String::from_str(peer_id), running: false }
    }

    /// The peer id.
    pub fn peer_id(&self) -> (r: &str)
        ensures
            r@ == self@.0,
    {
        self.peer_id.as_str()
    }

    /// Whether the swarm runs.
    pub fn is_running(&self) -> (r: bool)
        ensures
            r == self@.1,
    {
        self.running
    }

    /// Starts the swarm; always succeeds.
    pub fn start(&mut self) -> (r: Result<(), String>)
        ensures
            r is Ok,
            final(self)@ == (old(self)@.0, true),
    {
        self.running = true;
        Ok(())
    }

    /// Stops the swarm.
    pub fn stop(&mut self)
        ensures
            final(self)@ == (old(self)@.0, false),
    {
        self.running = false;
    }
}

/// The handle's view after a sequence of calls, each `start` (true) or `stop` (false).
pub open spec fn swarm_after(v: (Seq<char>, bool), calls: Seq<bool>) -> (Seq<char>, bool)
    decreases calls.len(),
{
    if calls.len() == 0 {
        v
    } else {
        (swarm_after(v, calls.drop_last()).0, calls.last())
    }
}

/// After any sequence of `start` and `stop` calls the swarm runs exactly when the last call was
/// `start` (as it was before when there was none), and the peer id never changes.
pub proof fn law_swarm_running(v: (Seq<char>, bool), calls: Seq<bool>)
    ensures
        swarm_after(v, calls).0 == v.0,
        swarm_after(v, calls).1 == (if calls.len() == 0 {
            v.1
        } else {
            calls.last()
        }),
    decreases calls.len(),
{
    if calls.len() > 0 {
        law_swarm_running(v, calls.drop_last());
    }
}

} // verus!
