//! The decisions around the directory watcher: which watcher is live,
//! which of its events lead to a reconciliation, and what a scope switch
//! asks the host to stop and start.
//!
//! The host runs the watchers. Each watcher is started under a generation
//! number and tags its events with it; only events of the live generation
//! are acted on, so a watcher bound to an earlier root is never heard once
//! it has been replaced.

use vstd::prelude::*;

verus! {

#[derive(Clone, Copy, Debug, PartialEq, Eq, Structural)]
pub enum WatchState {
    Stopped,
    Watching { generation: u64 },
}

/// What the host is asked to do, in order.
#[derive(Clone, Copy, Debug, PartialEq, Eq, Structural)]
pub enum WatchCommand {
    /// Stop and drop the watcher of this generation.
    Stop { generation: u64 },
    /// Start a watcher on the supervisor's root; its events carry `generation`.
    Start { generation: u64 },
}

#[derive(Debug)]
pub struct WatchSupervisor {
    pub state: WatchState,
    /// The watched root of the active scope.
    pub root: String,
    /// The generation that the next watcher gets.
    pub next_generation: u64,
}

/// An event of watcher `generation`, on a path that is a directory when
/// `path_is_dir`, is acted on.
pub open spec fn accepts(state: WatchState, generation: u64, path_is_dir: bool) -> bool {
    state == (WatchState::Watching { generation }) && path_is_dir
}

/// The commands that stop the live watcher, if any.
pub open spec fn stop_commands(state: WatchState) -> Seq<WatchCommand> {
    match state {
        WatchState::Stopped => Seq::empty(),
        WatchState::Watching { generation } => seq![WatchCommand::Stop { generation }],
    }
}

/// `after` is `before` once the scope has moved to `root`: the live watcher,
/// if any, is stopped and a new one is started on `root`.
pub open spec fn switched(before: WatchSupervisor, after: WatchSupervisor, root: Seq<char>) -> bool {
    &&& after.root@ == root
    &&& after.state == (WatchState::Watching { generation: before.next_generation })
    &&& after.next_generation == before.next_generation + 1
}

impl WatchSupervisor {
    /// The live watcher's generation was handed out before the next one.
    pub open spec fn well_formed(&self) -> bool {
        self.state matches WatchState::Watching { generation } ==> generation < self.next_generation
    }

    /// A supervisor for `root` with no watcher running.
    pub fn new(root: String) -> (r: WatchSupervisor)
        ensures
            r.state == WatchState::Stopped,
            r.root@ == root@,
            r.next_generation == 0,
            r.well_formed(),
    {
        WatchSupervisor { state: WatchState::Stopped, root, next_generation: 0 }
    }

    /// Starts a watcher on the current root unless one is running.
    pub fn start(&mut self) -> (cmds: Vec<WatchCommand>)
        requires
            old(self).state == WatchState::Stopped ==> old(self).next_generation < u64::MAX,
        ensures
            old(self).well_formed() ==> final(self).well_formed(),
            final(self).root == old(self).root,
            old(self).state == WatchState::Stopped ==> {
                &&& final(self).state == (WatchState::Watching {
                    generation: old(self).next_generation,
                })
                &&& final(self).next_generation == old(self).next_generation + 1
                &&& cmds@ == seq![WatchCommand::Start { generation: old(self).next_generation }]
            },
            old(self).state != WatchState::Stopped ==> *final(self) == *old(self) && cmds@.len()
                == 0,
    {
        let mut cmds: Vec<WatchCommand> = Vec::new();
        if self.state == WatchState::Stopped {
            let generation = self.next_generation;
            self.state = WatchState::Watching { generation };
            self.next_generation = generation + 1;
            cmds.push(WatchCommand::Start { generation });
        }
        cmds
    }

    /// Stops the running watcher, if any.
    pub fn stop(&mut self) -> (cmds: Vec<WatchCommand>)
        ensures
            final(self).well_formed(),
            final(self).state == WatchState::Stopped,
            final(self).root == old(self).root,
            final(self).next_generation == old(self).next_generation,
            cmds@ == stop_commands(old(self).state),
    {
        let mut cmds: Vec<WatchCommand> = Vec::new();
        match self.state {
            WatchState::Watching { generation } => {
                cmds.push(WatchCommand::Stop { generation });
            },
            WatchState::Stopped => {},
        }
        self.state = WatchState::Stopped;
        proof {
            assert(cmds@ =~= stop_commands(old(self).state));
        }
        cmds
    }

    /// Moves the active scope to `root`: the running watcher, if any, is
    /// stopped first, then a watcher is started on the new root.
    pub fn switch_scope(&mut self, root: String) -> (cmds: Vec<WatchCommand>)
        requires
            old(self).next_generation < u64::MAX,
        ensures
            final(self).well_formed(),
            switched(*old(self), *final(self), root@),
            forall|generation: u64, path_is_dir: bool|
                generation < old(self).next_generation ==> !accepts(
                    final(self).state,
                    generation,
                    path_is_dir,
                ),
            cmds@ == stop_commands(old(self).state).push(
                WatchCommand::Start { generation: old(self).next_generation },
            ),
    {
        let mut cmds = self.stop();
        self.root = root;
        let generation = self.next_generation;
        self.state = WatchState::Watching { generation };
        self.next_generation = generation + 1;
        cmds.push(WatchCommand::Start { generation });
        cmds
    }

    /// The watcher of `generation` could not be set up: no watcher is live
    /// until the next start or switch.
    pub fn start_failed(&mut self, generation: u64)
        ensures
            old(self).well_formed() ==> final(self).well_formed(),
            old(self).state == (WatchState::Watching { generation }) ==> final(self).state
                == WatchState::Stopped,
            old(self).state != (WatchState::Watching { generation }) ==> final(self).state
                == old(self).state,
            final(self).root == old(self).root,
            final(self).next_generation == old(self).next_generation,
    {
        if self.state == (WatchState::Watching { generation }) {
            self.state = WatchState::Stopped;
        }
    }

    /// Whether an event of watcher `generation` leads to a reconciliation:
    /// only events of the live watcher on a directory do.
    pub fn accepts_event(&self, generation: u64, path_is_dir: bool) -> (r: bool)
        ensures
            r == accepts(self.state, generation, path_is_dir),
    {
        self.state == (WatchState::Watching { generation }) && path_is_dir
    }
}

/// What listeners are told once an event has been handled: the folder's
/// base name, when reconciliation succeeded and the name is known.
pub fn observed_folder<E>(outcome: &Result<(), E>, folder: Option<String>) -> (r: Option<String>)
    ensures
        r == (if outcome is Ok {
            folder
        } else {
            None
        }),
{
    match outcome {
        Ok(()) => folder,
        Err(_) => None,
    }
}

/// After a scope switch, no event from a watcher started before it leads to
/// a reconciliation: only the watcher that the switch started is heard.
pub proof fn lemma_switch_silences_earlier_watchers(
    before: WatchSupervisor,
    after: WatchSupervisor,
    root: Seq<char>,
    generation: u64,
    path_is_dir: bool,
)
    requires
        switched(before, after, root),
        generation < before.next_generation,
    ensures
        !accepts(after.state, generation, path_is_dir),
{
}

} // verus!
