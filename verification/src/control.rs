//! Commands that wait to be carried out, in the order in which they came.

use std::collections::VecDeque;

use vstd::prelude::*;

use crate::message::FloatBits;
use crate::qso::{QsoCommand, QueueRetryDelayKind};
use crate::rig::{Band, RigPowerRequest};
use crate::slots::{DecoderMode, SlotFamily};

verus! {

/// What the rig is told to do.
#[derive(Debug)]
pub enum RigCommand {
    Configure { band: Band, power: Option<RigPowerRequest>, app_mode: DecoderMode },
    Tune10s,
}

/// What the queue is told to do.
#[derive(Debug)]
pub enum QueueCommand {
    Add { callsign: String },
    Remove { callsign: String },
    Clear,
    SetAuto { enabled: bool },
    SetTxFreq { slot_family: SlotFamily, tx_freq_hz: FloatBits },
    SetRetryDelay { kind: QueueRetryDelayKind, retry_delay_seconds: u64 },
    SetAutoAddAllDecodedCalls { enabled: bool },
    SetAutoAddDecodedMinCount5m { count: u32 },
    SetAutoAddDirect { enabled: bool },
    SetIgnoreDirectWorked { enabled: bool },
    SetCqEnabled { enabled: bool },
    SetCqPercent { percent: u8 },
    SetPauseCqWhenFewUniqueCalls { enabled: bool },
    SetCqPauseMinUniqueCalls5m { count: u32 },
    SetCompoundRr73Handoff { enabled: bool },
    SetCompound73OnceHandoff { enabled: bool },
    SetCompoundForDirectSignalCallers { enabled: bool },
    ToggleNextCqParity,
}

/// Takes everything out of a queue, the first first.
fn take_all<T>(commands: &mut VecDeque<T>) -> (r: Vec<T>)
    ensures
        r@ == old(commands)@,
        final(commands)@ == Seq::<T>::empty(),
{
    let ghost all = commands@;
    let mut r: Vec<T> = Vec::new();
    while commands.len() > 0
        invariant
            r@ + commands@ == all,
        decreases commands@.len(),
    {
        let ghost before = commands@;
        let ghost taken = r@;
        if let Some(command) = commands.pop_front() {
            r.push(command);
            assert(r@ + commands@ =~= taken + before);
        }
    }
    assert(r@ =~= all);
    assert(commands@ =~= Seq::<T>::empty());
    r
}

#[derive(Debug)]
pub struct QsoControlPlane {
    commands: VecDeque<QsoCommand>,
}

impl View for QsoControlPlane {
    type V = Seq<QsoCommand>;

    closed spec fn view(&self) -> Seq<QsoCommand> {
        self.commands@
    }
}

impl QsoControlPlane {
    pub fn new() -> (r: Self)
        ensures
            r@ == Seq::<QsoCommand>::empty(),
    {
        QsoControlPlane { commands: VecDeque::new() }
    }

    pub fn enqueue(&mut self, command: QsoCommand)
        ensures
            final(self)@ == old(self)@.push(command),
    {
        self.commands.push_back(command);
    }

    pub fn drain(&mut self) -> (r: Vec<QsoCommand>)
        ensures
            r@ == old(self)@,
            final(self)@ == Seq::<QsoCommand>::empty(),
    {
        take_all(&mut self.commands)
    }
}

#[derive(Debug)]
pub struct RigControlPlane {
    commands: VecDeque<RigCommand>,
}

impl View for RigControlPlane {
    type V = Seq<RigCommand>;

    closed spec fn view(&self) -> Seq<RigCommand> {
        self.commands@
    }
}

impl RigControlPlane {
    pub fn new() -> (r: Self)
        ensures
            r@ == Seq::<RigCommand>::empty(),
    {
        RigControlPlane { commands: VecDeque::new() }
    }

    pub fn enqueue(&mut self, command: RigCommand)
        ensures
            final(self)@ == old(self)@.push(command),
    {
        self.commands.push_back(command);
    }

    pub fn drain(&mut self) -> (r: Vec<RigCommand>)
        ensures
            r@ == old(self)@,
            final(self)@ == Seq::<RigCommand>::empty(),
    {
        take_all(&mut self.commands)
    }
}

#[derive(Debug)]
pub struct QueueControlPlane {
    commands: VecDeque<QueueCommand>,
}

impl View for QueueControlPlane {
    type V = Seq<QueueCommand>;

    closed spec fn view(&self) -> Seq<QueueCommand> {
        self.commands@
    }
}

impl QueueControlPlane {
    pub fn new() -> (r: Self)
        ensures
            r@ == Seq::<QueueCommand>::empty(),
    {
        QueueControlPlane { commands: VecDeque::new() }
    }

    pub fn enqueue(&mut self, command: QueueCommand)
        ensures
            final(self)@ == old(self)@.push(command),
    {
        self.commands.push_back(command);
    }

    pub fn drain(&mut self) -> (r: Vec<QueueCommand>)
        ensures
            r@ == old(self)@,
            final(self)@ == Seq::<QueueCommand>::empty(),
    {
        take_all(&mut self.commands)
    }
}

} // verus!
