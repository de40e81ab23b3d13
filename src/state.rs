use vstd::prelude::*;

use crate::error::JobsDomainError;

verus! {

/// Job-level state machine.
#[derive(Debug, Clone, Copy, PartialEq, Eq, Structural)]
pub enum JobState {
    Pending,
    Running,
    Completed,
    Failed,
    Cancelled,
}

/// The job transition table: Pending -> {Running, Cancelled};
/// Running -> {Completed, Failed, Cancelled}.
pub open spec fn job_edge(from: JobState, to: JobState) -> bool {
    ||| from == JobState::Pending && to == JobState::Running
    ||| from == JobState::Pending && to == JobState::Cancelled
    ||| from == JobState::Running && to == JobState::Completed
    ||| from == JobState::Running && to == JobState::Failed
    ||| from == JobState::Running && to == JobState::Cancelled
}

impl JobState {
    pub open spec fn terminal(self) -> bool {
        self == JobState::Completed || self == JobState::Failed || self == JobState::Cancelled
    }

    /// Lower-case wire name.
    pub open spec fn name(self) -> Seq<char> {
        match self {
            JobState::Pending => "pending"@,
            JobState::Running => "running"@,
            JobState::Completed => "completed"@,
            JobState::Failed => "failed"@,
            JobState::Cancelled => "cancelled"@,
        }
    }

    /// Variant name, as it appears in a transition error.
    pub open spec fn variant_name(self) -> Seq<char> {
        match self {
            JobState::Pending => "Pending"@,
            JobState::Running => "Running"@,
            JobState::Completed => "Completed"@,
            JobState::Failed => "Failed"@,
            JobState::Cancelled => "Cancelled"@,
        }
    }

    pub fn can_transition_to(self, next: Self) -> (r: bool)
        ensures
            r == job_edge(self, next),
    {
        match (self, next) {
            (JobState::Pending, JobState::Running) => true,
            (JobState::Pending, JobState::Cancelled) => true,
            (JobState::Running, JobState::Completed) => true,
            (JobState::Running, JobState::Failed) => true,
            (JobState::Running, JobState::Cancelled) => true,
            _ => false,
        }
    }

    pub fn is_terminal(self) -> (r: bool)
        ensures
            r == self.terminal(),
    {
        match self {
            JobState::Completed | JobState::Failed | JobState::Cancelled => true,
            _ => false,
        }
    }

    /// The next state if the table allows it; otherwise an `InvalidTransition`
    /// error naming both states, and no change.
    pub fn transition_to(self, next: Self) -> (r: Result<Self, JobsDomainError>)
        ensures
            job_edge(self, next) ==> r == Ok::<Self, JobsDomainError>(next),
            !job_edge(self, next) ==> (r matches Err(JobsDomainError::InvalidTransition { from, to })
                && from@ == self.variant_name() && to@ == next.variant_name()),
    {
        if self.can_transition_to(next) {
            Ok(next)
        } else {
            Err(JobsDomainError::InvalidTransition { from: self.debug_name(), to: next.debug_name() })
        }
    }

    fn debug_name(self) -> (r: String)
        ensures
            r@ == self.variant_name(),
    {
        let s = match self {
            JobState::Pending => "Pending",
            JobState::Running => "Running",
            JobState::Completed => "Completed",
            JobState::Failed => "Failed",
            JobState::Cancelled => "Cancelled",
        };
        s.to_string()
    }

    pub fn as_str(self) -> (r: &'static str)
        ensures
            r@ == self.name(),
    {
        match self {
            JobState::Pending => "pending",
            JobState::Running => "running",
            JobState::Completed => "completed",
            JobState::Failed => "failed",
            JobState::Cancelled => "cancelled",
        }
    }
}

/// Task-level state machine.
#[derive(Debug, Clone, Copy, PartialEq, Eq, Structural)]
pub enum TaskState {
    Blocked,
    Pending,
    Claimed,
    Running,
    Completed,
    Failed,
    Cancelled,
}

/// The task transition table: Blocked -> {Pending, Cancelled};
/// Pending -> {Claimed, Cancelled}; Claimed -> {Running, Pending, Cancelled};
/// Running -> {Completed, Failed, Pending, Cancelled}.
pub open spec fn task_edge(from: TaskState, to: TaskState) -> bool {
    ||| from == TaskState::Blocked && to == TaskState::Pending
    ||| from == TaskState::Blocked && to == TaskState::Cancelled
    ||| from == TaskState::Pending && to == TaskState::Claimed
    ||| from == TaskState::Pending && to == TaskState::Cancelled
    ||| from == TaskState::Claimed && to == TaskState::Running
    ||| from == TaskState::Claimed && to == TaskState::Pending
    ||| from == TaskState::Claimed && to == TaskState::Cancelled
    ||| from == TaskState::Running && to == TaskState::Completed
    ||| from == TaskState::Running && to == TaskState::Failed
    ||| from == TaskState::Running && to == TaskState::Pending
    ||| from == TaskState::Running && to == TaskState::Cancelled
}

impl TaskState {
    pub open spec fn terminal(self) -> bool {
        self == TaskState::Completed || self == TaskState::Failed || self == TaskState::Cancelled
    }

    /// Lower-case wire name.
    pub open spec fn name(self) -> Seq<char> {
        match self {
            TaskState::Blocked => "blocked"@,
            TaskState::Pending => "pending"@,
            TaskState::Claimed => "claimed"@,
            TaskState::Running => "running"@,
            TaskState::Completed => "completed"@,
            TaskState::Failed => "failed"@,
            TaskState::Cancelled => "cancelled"@,
        }
    }

    /// Variant name, as it appears in a transition error.
    pub open spec fn variant_name(self) -> Seq<char> {
        match self {
            TaskState::Blocked => "Blocked"@,
            TaskState::Pending => "Pending"@,
            TaskState::Claimed => "Claimed"@,
            TaskState::Running => "Running"@,
            TaskState::Completed => "Completed"@,
            TaskState::Failed => "Failed"@,
            TaskState::Cancelled => "Cancelled"@,
        }
    }

    pub fn can_transition_to(self, next: Self) -> (r: bool)
        ensures
            r == task_edge(self, next),
    {
        match (self, next) {
            (TaskState::Blocked, TaskState::Pending) => true,
            (TaskState::Pending, TaskState::Claimed) => true,
            (TaskState::Claimed, TaskState::Running) => true,
            (TaskState::Running, TaskState::Completed) => true,
            (TaskState::Running, TaskState::Failed) => true,
            (TaskState::Claimed, TaskState::Pending) => true,
            (TaskState::Running, TaskState::Pending) => true,
            (TaskState::Blocked, TaskState::Cancelled) => true,
            (TaskState::Pending, TaskState::Cancelled) => true,
            (TaskState::Claimed, TaskState::Cancelled) => true,
            (TaskState::Running, TaskState::Cancelled) => true,
            _ => false,
        }
    }

    pub fn is_terminal(self) -> (r: bool)
        ensures
            r == self.terminal(),
    {
        match self {
            TaskState::Completed | TaskState::Failed | TaskState::Cancelled => true,
            _ => false,
        }
    }

    /// The next state if the table allows it; otherwise an `InvalidTransition`
    /// error naming both states, and no change.
    pub fn transition_to(self, next: Self) -> (r: Result<Self, JobsDomainError>)
        ensures
            task_edge(self, next) ==> r == Ok::<Self, JobsDomainError>(next),
            !task_edge(self, next) ==> (r matches Err(JobsDomainError::InvalidTransition { from, to })
                && from@ == self.variant_name() && to@ == next.variant_name()),
    {
        if self.can_transition_to(next) {
            Ok(next)
        } else {
            Err(JobsDomainError::InvalidTransition { from: self.debug_name(), to: next.debug_name() })
        }
    }

    fn debug_name(self) -> (r: String)
        ensures
            r@ == self.variant_name(),
    {
        let s = match self {
            TaskState::Blocked => "Blocked",
            TaskState::Pending => "Pending",
            TaskState::Claimed => "Claimed",
            TaskState::Running => "Running",
            TaskState::Completed => "Completed",
            TaskState::Failed => "Failed",
            TaskState::Cancelled => "Cancelled",
        };
        s.to_string()
    }

    pub fn as_str(self) -> (r: &'static str)
        ensures
            r@ == self.name(),
    {
        match self {
            TaskState::Blocked => "blocked",
            TaskState::Pending => "pending",
            TaskState::Claimed => "claimed",
            TaskState::Running => "running",
            TaskState::Completed => "completed",
            TaskState::Failed => "failed",
            TaskState::Cancelled => "cancelled",
        }
    }
}

/// No job transition leaves a terminal state.
pub proof fn lemma_job_terminal_is_final(from: JobState, to: JobState)
    requires
        from.terminal(),
    ensures
        !job_edge(from, to),
{
}

/// No task transition leaves a terminal state.
pub proof fn lemma_task_terminal_is_final(from: TaskState, to: TaskState)
    requires
        from.terminal(),
    ensures
        !task_edge(from, to),
{
}

} // verus!
