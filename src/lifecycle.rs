//! Decisions of the interface lifecycle: how the link service's answers are
//! read, which request an update makes, and the order of the setup steps.
use vstd::prelude::*;
use crate::error::WgError;

verus! {

/// What an interface update does: bring the link up, or add an address.
#[derive(Debug, Clone, Copy, PartialEq, Eq, Structural)]
pub enum Operation {
    Enable,
    Update,
}

/// The link service's answer to a request to add a tunnel link.
#[derive(Debug, Clone, Copy, PartialEq, Eq, Structural)]
pub enum AddLinkOutcome {
    Added,
    /// A link of that name exists already.
    AlreadyExists,
    /// Any other failure, with the service's status.
    Failed(i32),
}

/// One request to the link service, for the link with index `index`.
#[derive(Debug, Clone, Copy)]
pub enum LinkRequest {
    /// Add the IPv4 address `address/prefix` to the link.
    AddAddress { index: u32, address: [u8; 4], prefix: u8 },
    /// Set the link administratively up.
    SetUp { index: u32 },
}

/// Reads the answer to an add-link request. A link that exists already
/// counts as created, so that setup can be run again on a host where it
/// ran before.
pub fn create_result(outcome: AddLinkOutcome) -> (r: Result<(), WgError>)
    ensures
        match outcome {
            AddLinkOutcome::Added => r is Ok,
            AddLinkOutcome::AlreadyExists => r is Ok,
            AddLinkOutcome::Failed(code) => r == Err::<(), WgError>(WgError::LinkCallFailed(code)),
        },
{
    match outcome {
        AddLinkOutcome::Added => Ok(()),
        AddLinkOutcome::AlreadyExists => Ok(()),
        AddLinkOutcome::Failed(code) => Err(WgError::LinkCallFailed(code)),
    }
}

/// The request that an interface update makes, given the index of the link
/// found under the interface's name (if any).
pub fn plan_link_update(
    link_index: Option<u32>,
    address: Option<[u8; 4]>,
    prefix: Option<u8>,
    op: Operation,
) -> (r: Result<LinkRequest, WgError>)
    ensures
        match link_index {
            None => r == Err::<LinkRequest, WgError>(WgError::InterfaceNotFound),
            Some(index) => match op {
                Operation::Enable => r matches Ok(LinkRequest::SetUp { index: i }) && i == index,
                Operation::Update => match (address, prefix) {
                    (Some(a), Some(p)) => r matches Ok(
                        LinkRequest::AddAddress { index: i, address: b, prefix: q },
                    ) && i == index && b == a && q == p,
                    _ => r == Err::<LinkRequest, WgError>(WgError::MissingAddress),
                },
            },
        },
{
    let index = match link_index {
        Some(i) => i,
        None => {
            return Err(WgError::InterfaceNotFound);
        },
    };
    match op {
        Operation::Enable => Ok(LinkRequest::SetUp { index }),
        Operation::Update => match (address, prefix) {
            (Some(a), Some(p)) => Ok(LinkRequest::AddAddress { index, address: a, prefix: p }),
            _ => Err(WgError::MissingAddress),
        },
    }
}

/// The steps of one setup run, in the order they are taken.
#[derive(Debug, Clone, Copy, PartialEq, Eq, Structural)]
pub enum SetupStep {
    CreateInterface,
    ConfigureDevice,
    AssignAddress,
    Activate,
    /// Every step was attempted.
    Finished,
    /// The interface could not be created; nothing else was attempted.
    Aborted,
}

/// The step after `step` once its outcome is known (`succeeded`). Nothing
/// runs before the interface exists: a failed creation ends the run. The
/// later steps each report their own outcome and do not stop the run.
pub open spec fn step_after(step: SetupStep, succeeded: bool) -> SetupStep {
    match step {
        SetupStep::CreateInterface => if succeeded {
            SetupStep::ConfigureDevice
        } else {
            SetupStep::Aborted
        },
        SetupStep::ConfigureDevice => SetupStep::AssignAddress,
        SetupStep::AssignAddress => SetupStep::Activate,
        SetupStep::Activate => SetupStep::Finished,
        SetupStep::Finished => SetupStep::Finished,
        SetupStep::Aborted => SetupStep::Aborted,
    }
}

/// The step reached from `step` after the outcomes `outcomes`, in order.
pub open spec fn run_steps(step: SetupStep, outcomes: Seq<bool>) -> SetupStep
    decreases outcomes.len(),
{
    if outcomes.len() == 0 {
        step
    } else {
        run_steps(step_after(step, outcomes[0]), outcomes.subrange(1, outcomes.len() as int))
    }
}

impl SetupStep {
    /// Whether the run is over.
    pub fn is_done(&self) -> (r: bool)
        ensures
            r == (*self == SetupStep::Finished || *self == SetupStep::Aborted),
    {
        match *self {
            SetupStep::Finished => true,
            SetupStep::Aborted => true,
            _ => false,
        }
    }

    /// The step to take once this one has given `outcome`.
    pub fn next(&self, outcome: &Result<(), WgError>) -> (r: SetupStep)
        ensures
            r == step_after(*self, outcome is Ok),
    {
        match *self {
            SetupStep::CreateInterface => if outcome.is_ok() {
                SetupStep::ConfigureDevice
            } else {
                SetupStep::Aborted
            },
            SetupStep::ConfigureDevice => SetupStep::AssignAddress,
            SetupStep::AssignAddress => SetupStep::Activate,
            SetupStep::Activate => SetupStep::Finished,
            SetupStep::Finished => SetupStep::Finished,
            SetupStep::Aborted => SetupStep::Aborted,
        }
    }
}

proof fn lemma_done_stays(step: SetupStep, outcomes: Seq<bool>)
    requires
        step == SetupStep::Finished || step == SetupStep::Aborted,
    ensures
        run_steps(step, outcomes) == step,
    decreases outcomes.len(),
{
    if outcomes.len() > 0 {
        lemma_done_stays(step, outcomes.subrange(1, outcomes.len() as int));
    }
}

proof fn lemma_run_one(step: SetupStep, outcomes: Seq<bool>)
    requires
        outcomes.len() >= 1,
    ensures
        run_steps(step, outcomes) == run_steps(
            step_after(step, outcomes[0]),
            outcomes.subrange(1, outcomes.len() as int),
        ),
{
}

/// Whatever the outcomes, a run that starts by creating the interface ends
/// after at most four steps; it takes every step, in order, exactly when the
/// creation succeeds, and nothing else when it fails.
pub proof fn lemma_setup_order(outcomes: Seq<bool>)
    requires
        outcomes.len() >= 1,
    ensures
        outcomes[0] ==> run_steps(SetupStep::CreateInterface, outcomes.subrange(0, 1))
            == SetupStep::ConfigureDevice,
        outcomes[0] && outcomes.len() >= 2 ==> run_steps(
            SetupStep::CreateInterface,
            outcomes.subrange(0, 2),
        ) == SetupStep::AssignAddress,
        outcomes[0] && outcomes.len() >= 3 ==> run_steps(
            SetupStep::CreateInterface,
            outcomes.subrange(0, 3),
        ) == SetupStep::Activate,
        outcomes.len() >= 4 ==> run_steps(SetupStep::CreateInterface, outcomes) == if outcomes[0] {
            SetupStep::Finished
        } else {
            SetupStep::Aborted
        },
        !outcomes[0] ==> run_steps(SetupStep::CreateInterface, outcomes) == SetupStep::Aborted,
{
    let n = outcomes.len() as int;
    let s1 = step_after(SetupStep::CreateInterface, outcomes[0]);
    if !outcomes[0] {
        lemma_done_stays(SetupStep::Aborted, outcomes.subrange(1, n));
    }
    let first_one = outcomes.subrange(0, 1);
    assert(first_one.subrange(1, 1).len() == 0);
    lemma_run_one(SetupStep::CreateInterface, first_one);
    if n >= 2 {
        let first_two = outcomes.subrange(0, 2);
        assert(first_two.subrange(1, 2) =~= outcomes.subrange(1, 2));
        lemma_run_one(SetupStep::CreateInterface, first_two);
        lemma_run_one(s1, outcomes.subrange(1, 2));
        assert(outcomes.subrange(1, 2).subrange(1, 1).len() == 0);
    }
    if n >= 3 {
        let first_three = outcomes.subrange(0, 3);
        assert(first_three.subrange(1, 3) =~= outcomes.subrange(1, 3));
        assert(outcomes.subrange(1, 3).subrange(1, 2) =~= outcomes.subrange(2, 3));
        lemma_run_one(SetupStep::CreateInterface, first_three);
        lemma_run_one(s1, outcomes.subrange(1, 3));
        let s2 = step_after(s1, outcomes[1]);
        lemma_run_one(s2, outcomes.subrange(2, 3));
        assert(outcomes.subrange(2, 3).subrange(1, 1).len() == 0);
    }
    if n >= 4 {
        assert(outcomes.subrange(1, n).subrange(1, n - 1) =~= outcomes.subrange(2, n));
        assert(outcomes.subrange(2, n).subrange(1, n - 2) =~= outcomes.subrange(3, n));
        assert(outcomes.subrange(3, n).subrange(1, n - 3) =~= outcomes.subrange(4, n));
        lemma_run_one(SetupStep::CreateInterface, outcomes);
        lemma_run_one(s1, outcomes.subrange(1, n));
        let s2 = step_after(s1, outcomes[1]);
        lemma_run_one(s2, outcomes.subrange(2, n));
        let s3 = step_after(s2, outcomes[2]);
        lemma_run_one(s3, outcomes.subrange(3, n));
        let s4 = step_after(s3, outcomes[3]);
        lemma_done_stays(s4, outcomes.subrange(4, n));
    }
}

} // verus!
