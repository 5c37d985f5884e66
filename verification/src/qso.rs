//! The terms in which a contact is started, stopped and reported.

use vstd::prelude::*;
use vstd::string::*;

use crate::clock::Timestamp;
use crate::message::FloatBits;
use crate::slots::SlotFamily;
use crate::text;

verus! {

/// What the transmitter has to say in a contact.
#[derive(Clone, Copy, Debug, PartialEq, Eq, Structural)]
pub enum QsoState {
    Idle,
    SendCq,
    SendGrid,
    SendSig,
    SendSigAck,
    SendRR73,
    SendRRR,
    Send73,
    Send73Once,
}

impl QsoState {
    pub open spec fn name(self) -> Seq<char> {
        match self {
            QsoState::Idle => "idle"@,
            QsoState::SendCq => "send_cq"@,
            QsoState::SendGrid => "send_grid"@,
            QsoState::SendSig => "send_sig"@,
            QsoState::SendSigAck => "send_sig_ack"@,
            QsoState::SendRR73 => "send_rr73"@,
            QsoState::SendRRR => "send_rrr"@,
            QsoState::Send73 => "send_73"@,
            QsoState::Send73Once => "send_73_once"@,
        }
    }

    pub fn as_str(self) -> (r: &'static str)
        ensures
            r@ == self.name(),
    {
        match self {
            QsoState::Idle => "idle",
            QsoState::SendCq => "send_cq",
            QsoState::SendGrid => "send_grid",
            QsoState::SendSig => "send_sig",
            QsoState::SendSigAck => "send_sig_ack",
            QsoState::SendRR73 => "send_rr73",
            QsoState::SendRRR => "send_rrr",
            QsoState::Send73 => "send_73",
            QsoState::Send73Once => "send_73_once",
        }
    }
}

/// How a contact came about: called cold, in answer to a direct call, or by calling CQ.
#[derive(Clone, Copy, Debug, PartialEq, Eq, Structural)]
pub enum QsoStartMode {
    Normal,
    Direct,
    Cq,
}

#[derive(Debug)]
pub enum QsoCommand {
    Start {
        partner_call: String,
        tx_freq_hz: FloatBits,
        initial_state: QsoState,
        start_mode: QsoStartMode,
        tx_slot_family_override: Option<SlotFamily>,
    },
    Stop { reason: String },
}

pub enum CommandModel {
    Start {
        partner: Seq<char>,
        freq: FloatBits,
        state: QsoState,
        mode: QsoStartMode,
        family: Option<SlotFamily>,
    },
    Stop { reason: Seq<char> },
}

impl View for QsoCommand {
    type V = CommandModel;

    open spec fn view(&self) -> CommandModel {
        match self {
            QsoCommand::Start {
                partner_call,
                tx_freq_hz,
                initial_state,
                start_mode,
                tx_slot_family_override,
            } => CommandModel::Start {
                partner: partner_call@,
                freq: *tx_freq_hz,
                state: *initial_state,
                mode: *start_mode,
                family: *tx_slot_family_override,
            },
            QsoCommand::Stop { reason } => CommandModel::Stop { reason: reason@ },
        }
    }
}

/// How a contact ended.
#[derive(Debug)]
pub struct QsoOutcome {
    pub partner_call: String,
    pub exit_reason: String,
    pub finished_at: Timestamp,
    pub rig_band: Option<String>,
    pub sent_terminal_73: bool,
}

/// Why a contact that did not get far is tried again later.
#[derive(Clone, Copy, Debug, PartialEq, Eq, Structural)]
pub enum QueueRetryDelayKind {
    NoMessage,
    NoForward,
}

impl QueueRetryDelayKind {
    pub open spec fn name(self) -> Seq<char> {
        match self {
            QueueRetryDelayKind::NoMessage => "no_message"@,
            QueueRetryDelayKind::NoForward => "no_forward"@,
        }
    }

    pub fn as_str(self) -> (r: &'static str)
        ensures
            r@ == self.name(),
    {
        match self {
            QueueRetryDelayKind::NoMessage => "no_message",
            QueueRetryDelayKind::NoForward => "no_forward",
        }
    }
}

/// Which retry delay the reason for leaving a contact calls for, if any.
pub open spec fn retry_kind(exit_reason: Seq<char>) -> Option<QueueRetryDelayKind> {
    if exit_reason == "send_grid_no_msg_limit"@ || exit_reason == "send_sig_no_msg_limit"@ {
        Some(QueueRetryDelayKind::NoMessage)
    } else if exit_reason == "send_grid_no_fwd_limit"@ || exit_reason == "send_sig_no_fwd_limit"@ {
        Some(QueueRetryDelayKind::NoForward)
    } else {
        None
    }
}

pub fn retry_kind_of(exit_reason: &str) -> (r: Option<QueueRetryDelayKind>)
    ensures
        r == retry_kind(exit_reason@),
{
    if text::str_eq(exit_reason, "send_grid_no_msg_limit") || text::str_eq(
        exit_reason,
        "send_sig_no_msg_limit",
    ) {
        Some(QueueRetryDelayKind::NoMessage)
    } else if text::str_eq(exit_reason, "send_grid_no_fwd_limit") || text::str_eq(
        exit_reason,
        "send_sig_no_fwd_limit",
    ) {
        Some(QueueRetryDelayKind::NoForward)
    } else {
        None
    }
}

} // verus!
