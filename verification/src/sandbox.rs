use vstd::prelude::*;

verus! {

/// How far the start of a container has come. The states follow one
/// another in the order in which they are written.
#[derive(Clone, Copy, Debug, PartialEq, Eq, Structural)]
pub enum SandboxState {
    /// Nothing has been done: the process shares every namespace with its
    /// parent.
    Unisolated,
    /// The process has left the namespaces of its parent; what it forks
    /// starts in the new ones.
    NamespacesCreated,
    /// The child exists and has not yet replaced its image.
    ChildForking,
    /// The child has taken the sandbox directory for its root and stands
    /// in it.
    ChildConfined,
    /// The child runs the command.
    Running,
    /// The child has ended.
    Exited,
}

/// What is to be done in a state to reach the next one.
#[derive(Clone, Copy, Debug, PartialEq, Eq, Structural)]
pub enum SandboxStep {
    /// Leave the namespaces of the parent: the flags say which.
    CreateNamespaces(i32),
    /// Fork the child, with its streams those of this process and with no
    /// environment.
    ForkChild,
    /// In the child: change the root to the sandbox directory, then the
    /// working directory to `/`.
    ConfineChild,
    /// In the child: replace the image with the command.
    StartCommand,
    /// Wait for the child to end.
    AwaitExit,
}

/// What has happened since the last step was handed out.
#[derive(Clone, Copy, Debug, PartialEq, Eq, Structural)]
pub enum SandboxEvent {
    /// The request for new namespaces has returned this value.
    Unshared(i32),
    /// The child has been forked.
    Forked,
    /// The child has changed its root and then its working directory.
    Confined,
    /// The child has replaced its image with the command.
    Started,
    /// The child has ended.
    Ended,
}

/// The flag of the cgroup namespace.
pub open spec fn newcgroup() -> i32 {
    0x0200_0000
}

/// The flag of the IPC namespace.
pub open spec fn newipc() -> i32 {
    0x0800_0000
}

/// The flag of the mount namespace.
pub open spec fn newns() -> i32 {
    0x0002_0000
}

/// The flag of the PID namespace.
pub open spec fn newpid() -> i32 {
    0x2000_0000
}

/// The flag of the UTS namespace.
pub open spec fn newuts() -> i32 {
    0x0400_0000
}

/// The flags of the namespaces that a container gets for itself: cgroup,
/// IPC, mount, PID and UTS, and no other.
pub open spec fn namespaces_spec() -> i32 {
    newcgroup() | newipc() | newns() | newpid() | newuts()
}

/// `libc::CLONE_NEWCGROUP`, which libc defines as `0x02000000` for Linux.
#[verifier::external_body]
fn clone_newcgroup() -> (flag: i32)
    ensures
        flag == newcgroup(),
{
    libc::CLONE_NEWCGROUP
}

/// `libc::CLONE_NEWIPC`, which libc defines as `0x08000000` for Linux.
#[verifier::external_body]
fn clone_newipc() -> (flag: i32)
    ensures
        flag == newipc(),
{
    libc::CLONE_NEWIPC
}

/// `libc::CLONE_NEWNS`, which libc defines as `0x20000` for Linux.
#[verifier::external_body]
fn clone_newns() -> (flag: i32)
    ensures
        flag == newns(),
{
    libc::CLONE_NEWNS
}

/// `libc::CLONE_NEWPID`, which libc defines as `0x20000000` for Linux.
#[verifier::external_body]
fn clone_newpid() -> (flag: i32)
    ensures
        flag == newpid(),
{
    libc::CLONE_NEWPID
}

/// `libc::CLONE_NEWUTS`, which libc defines as `0x04000000` for Linux.
#[verifier::external_body]
fn clone_newuts() -> (flag: i32)
    ensures
        flag == newuts(),
{
    libc::CLONE_NEWUTS
}

/// The flags with which new namespaces are asked for.
pub fn namespaces() -> (flags: i32)
    ensures
        flags == namespaces_spec(),
{
    clone_newcgroup() | clone_newipc() | clone_newns() | clone_newpid() | clone_newuts()
}

impl SandboxState {
    /// How many steps lie between the first state and this one.
    pub open spec fn rank(self) -> nat {
        match self {
            SandboxState::Unisolated => 0,
            SandboxState::NamespacesCreated => 1,
            SandboxState::ChildForking => 2,
            SandboxState::ChildConfined => 3,
            SandboxState::Running => 4,
            SandboxState::Exited => 5,
        }
    }

    /// The step that leads on from this state; none from the last.
    pub open spec fn next_step_spec(self) -> Option<SandboxStep> {
        match self {
            SandboxState::Unisolated => Some(SandboxStep::CreateNamespaces(namespaces_spec())),
            SandboxState::NamespacesCreated => Some(SandboxStep::ForkChild),
            SandboxState::ChildForking => Some(SandboxStep::ConfineChild),
            SandboxState::ChildConfined => Some(SandboxStep::StartCommand),
            SandboxState::Running => Some(SandboxStep::AwaitExit),
            SandboxState::Exited => None,
        }
    }

    /// The state that `event` leads to from this one: the next one, where
    /// `event` reports that the step of this state was taken and went well;
    /// none otherwise. A request for namespaces went well where it returned 0.
    pub open spec fn advance_spec(self, event: SandboxEvent) -> Option<SandboxState> {
        match (self, event) {
            (SandboxState::Unisolated, SandboxEvent::Unshared(returned)) => if returned == 0 {
                Some(SandboxState::NamespacesCreated)
            } else {
                None
            },
            (SandboxState::NamespacesCreated, SandboxEvent::Forked) => Some(
                SandboxState::ChildForking,
            ),
            (SandboxState::ChildForking, SandboxEvent::Confined) => Some(
                SandboxState::ChildConfined,
            ),
            (SandboxState::ChildConfined, SandboxEvent::Started) => Some(SandboxState::Running),
            (SandboxState::Running, SandboxEvent::Ended) => Some(SandboxState::Exited),
            _ => None,
        }
    }

    /// Tells what is to be done next.
    pub fn next_step(self) -> (step: Option<SandboxStep>)
        ensures
            step == self.next_step_spec(),
    {
        match self {
            SandboxState::Unisolated => Some(SandboxStep::CreateNamespaces(namespaces())),
            SandboxState::NamespacesCreated => Some(SandboxStep::ForkChild),
            SandboxState::ChildForking => Some(SandboxStep::ConfineChild),
            SandboxState::ChildConfined => Some(SandboxStep::StartCommand),
            SandboxState::Running => Some(SandboxStep::AwaitExit),
            SandboxState::Exited => None,
        }
    }

    /// Moves on to the next state on the event that belongs to this one,
    /// and refuses every other event.
    pub fn advance(self, event: SandboxEvent) -> (next: Option<SandboxState>)
        ensures
            next == self.advance_spec(event),
    {
        match (self, event) {
            (SandboxState::Unisolated, SandboxEvent::Unshared(returned)) => if returned == 0 {
                Some(SandboxState::NamespacesCreated)
            } else {
                None
            },
            (SandboxState::NamespacesCreated, SandboxEvent::Forked) => Some(
                SandboxState::ChildForking,
            ),
            (SandboxState::ChildForking, SandboxEvent::Confined) => Some(
                SandboxState::ChildConfined,
            ),
            (SandboxState::ChildConfined, SandboxEvent::Started) => Some(SandboxState::Running),
            (SandboxState::Running, SandboxEvent::Ended) => Some(SandboxState::Exited),
            _ => None,
        }
    }
}

/// The state that a run of events leads to from `start`; none where one of
/// the events is refused.
pub open spec fn run(start: SandboxState, events: Seq<SandboxEvent>) -> Option<SandboxState>
    decreases events.len(),
{
    if events.len() == 0 {
        Some(start)
    } else {
        match run(start, events.drop_last()) {
            Some(state) => state.advance_spec(events.last()),
            None => None,
        }
    }
}

/// The one run of events that leads through every state.
pub open spec fn full_run() -> Seq<SandboxEvent> {
    seq![
        SandboxEvent::Unshared(0),
        SandboxEvent::Forked,
        SandboxEvent::Confined,
        SandboxEvent::Started,
        SandboxEvent::Ended,
    ]
}

/// An event that is accepted leads exactly one state further: no state is
/// left out and none is come back to.
pub proof fn lemma_one_state_at_a_time(state: SandboxState, event: SandboxEvent)
    requires
        state.advance_spec(event) is Some,
    ensures
        state.advance_spec(event)->0.rank() == state.rank() + 1,
{
}

/// The steps are taken in one order only: whatever run of events is
/// accepted from the first state is the beginning of the full run. So a
/// command runs only in a child that was confined, and a child is forked
/// only after the namespaces were created.
pub proof fn lemma_order_is_fixed(events: Seq<SandboxEvent>)
    requires
        run(SandboxState::Unisolated, events) is Some,
    ensures
        events.len() <= 5,
        events == full_run().take(events.len() as int),
        run(SandboxState::Unisolated, events)->0.rank() == events.len(),
    decreases events.len(),
{
    if events.len() > 0 {
        let before = events.drop_last();
        lemma_order_is_fixed(before);
        let state = run(SandboxState::Unisolated, before)->0;
        lemma_one_state_at_a_time(state, events.last());
        assert(events.last() == full_run()[events.len() - 1]);
        assert(events =~= full_run().take(events.len() as int));
    } else {
        assert(events =~= full_run().take(0));
    }
}

/// The code that the launcher ends with once the child has ended: the
/// child's own, or 1 where a signal ended the child, which then has none.
pub open spec fn exit_code_spec(code: Option<i32>) -> i32 {
    match code {
        Some(own) => own,
        None => 1,
    }
}

/// Tells the code that the launcher ends with.
pub fn exit_code(code: Option<i32>) -> (r: i32)
    ensures
        r == exit_code_spec(code),
{
    match code {
        Some(own) => own,
        None => 1,
    }
}

} // verus!
