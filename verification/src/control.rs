use std::sync::atomic::AtomicU8;
use std::sync::atomic::Ordering;
use vstd::prelude::*;

verus! {

/// The flag value of a running task.
pub const RUN: u8 = 0;

/// The flag value of a paused task.
pub const PAUSE: u8 = 1;

/// The flag value of a stopped task.
pub const STOP: u8 = 2;

/// What a worker is told to do.
#[derive(Clone, Copy, Debug, PartialEq, Eq, Structural)]
pub enum TaskState {
    Running,
    Paused,
    Stopped,
}

impl TaskState {
    /// The flag byte that stands for this state.
    pub open spec fn flag_of(self) -> u8 {
        match self {
            TaskState::Running => RUN,
            TaskState::Paused => PAUSE,
            TaskState::Stopped => STOP,
        }
    }

    /// The state that a flag byte stands for; bytes other than the paused and stopped ones
    /// read as running.
    pub open spec fn state_of(flag: u8) -> TaskState {
        if flag == STOP {
            TaskState::Stopped
        } else if flag == PAUSE {
            TaskState::Paused
        } else {
            TaskState::Running
        }
    }

    pub fn to_flag(&self) -> (r: u8)
        ensures
            r == self.flag_of(),
    {
        match self {
            TaskState::Running => RUN,
            TaskState::Paused => PAUSE,
            TaskState::Stopped => STOP,
        }
    }

    pub fn from_flag(flag: u8) -> (r: TaskState)
        ensures
            r == TaskState::state_of(flag),
    {
        if flag == STOP {
            TaskState::Stopped
        } else if flag == PAUSE {
            TaskState::Paused
        } else {
            TaskState::Running
        }
    }

    /// The state of an enabled feed is running, that of a disabled one paused.
    pub fn for_enabled(enabled: bool) -> (r: TaskState)
        ensures
            r == (if enabled {
                TaskState::Running
            } else {
                TaskState::Paused
            }),
    {
        if enabled {
            TaskState::Running
        } else {
            TaskState::Paused
        }
    }
}

/// Reading a flag back gives the state that was written.
pub proof fn lemma_flag_round_trip(s: TaskState)
    ensures
        TaskState::state_of(s.flag_of()) == s,
{
}

/// A run/pause/stop switch that several threads share.
pub struct Control {
    flag: AtomicU8,
}

impl Control {
    /// A switch that starts out running.
    pub fn new() -> (r: Control) {
        Control { flag: AtomicU8::new(RUN) }
    }

    /// Whether the flag, as it reads now, stands for a stopped task (see `TaskState::state_of`).
    pub fn is_stopped(&self) -> bool {
        let flag = self.flag.load(Ordering::Relaxed);
        TaskState::from_flag(flag) == TaskState::Stopped
    }

    /// Whether the flag, as it reads now, stands for a paused task (see `TaskState::state_of`).
    pub fn is_paused(&self) -> bool {
        let flag = self.flag.load(Ordering::Relaxed);
        TaskState::from_flag(flag) == TaskState::Paused
    }

    pub fn stop(&self) {
        self.flag.store(STOP, Ordering::SeqCst)
    }

    pub fn pause(&self) {
        self.flag.store(PAUSE, Ordering::SeqCst)
    }
}

} // verus!
