use vstd::prelude::*;

verus! {

/// Display colour of a status, an icon or a label.
#[derive(Clone, Copy, Debug, PartialEq, Eq, Structural)]
pub enum Tint {
    Cyan,
    Yellow,
    DarkGray,
    Gray,
    Blue,
    Red,
    Green,
    Magenta,
    White,
    Rgb(u8, u8, u8),
}

/// Lifecycle state of one agent session.
#[derive(Clone, Copy, Debug, PartialEq, Eq, Structural)]
pub enum SessionStatus {
    WaitingForInput,
    Processing,
    RunningTool,
    WaitingForApproval,
    Compacting,
    Ended,
}

pub open spec fn spec_is_active(s: SessionStatus) -> bool {
    match s {
        SessionStatus::Processing | SessionStatus::RunningTool | SessionStatus::WaitingForApproval
        | SessionStatus::Compacting => true,
        _ => false,
    }
}

/// Rank used to group sessions: approval first, then busy, then idle, then ended.
pub open spec fn spec_sort_priority(s: SessionStatus) -> u8 {
    match s {
        SessionStatus::WaitingForApproval => 0,
        SessionStatus::Processing | SessionStatus::RunningTool | SessionStatus::Compacting => 1,
        SessionStatus::WaitingForInput => 2,
        SessionStatus::Ended => 3,
    }
}

pub open spec fn spec_tint(s: SessionStatus) -> Tint {
    match s {
        SessionStatus::Processing => Tint::Cyan,
        SessionStatus::RunningTool => Tint::Yellow,
        SessionStatus::WaitingForInput => Tint::DarkGray,
        SessionStatus::WaitingForApproval => Tint::Yellow,
        SessionStatus::Compacting => Tint::Blue,
        SessionStatus::Ended => Tint::Red,
    }
}

/// The icon shown for a status.
pub open spec fn spec_icon(s: SessionStatus) -> Seq<char> {
    match s {
        SessionStatus::Processing => "●"@,
        SessionStatus::RunningTool => "◆"@,
        SessionStatus::WaitingForInput => "○"@,
        SessionStatus::WaitingForApproval => "⚠"@,
        SessionStatus::Compacting => "⊘"@,
        SessionStatus::Ended => "✗"@,
    }
}

/// The word shown for a status.
pub open spec fn spec_label(s: SessionStatus) -> Seq<char> {
    match s {
        SessionStatus::Processing => "processing"@,
        SessionStatus::RunningTool => "running"@,
        SessionStatus::WaitingForInput => "idle"@,
        SessionStatus::WaitingForApproval => "approval"@,
        SessionStatus::Compacting => "compacting"@,
        SessionStatus::Ended => "ended"@,
    }
}

impl SessionStatus {
    pub fn icon(&self) -> (r: &'static str)
        ensures
            r@ == spec_icon(*self),
    {
        match self {
            SessionStatus::Processing => "●",
            SessionStatus::RunningTool => "◆",
            SessionStatus::WaitingForInput => "○",
            SessionStatus::WaitingForApproval => "⚠",
            SessionStatus::Compacting => "⊘",
            SessionStatus::Ended => "✗",
        }
    }

    pub fn label(&self) -> (r: &'static str)
        ensures
            r@ == spec_label(*self),
    {
        match self {
            SessionStatus::Processing => "processing",
            SessionStatus::RunningTool => "running",
            SessionStatus::WaitingForInput => "idle",
            SessionStatus::WaitingForApproval => "approval",
            SessionStatus::Compacting => "compacting",
            SessionStatus::Ended => "ended",
        }
    }

    pub fn color(&self) -> (r: Tint)
        ensures
            r == spec_tint(*self),
    {
        match self {
            SessionStatus::Processing => Tint::Cyan,
            SessionStatus::RunningTool => Tint::Yellow,
            SessionStatus::WaitingForInput => Tint::DarkGray,
            SessionStatus::WaitingForApproval => Tint::Yellow,
            SessionStatus::Compacting => Tint::Blue,
            SessionStatus::Ended => Tint::Red,
        }
    }

    pub fn is_active(&self) -> (r: bool)
        ensures
            r == spec_is_active(*self),
    {
        match self {
            SessionStatus::Processing | SessionStatus::RunningTool
            | SessionStatus::WaitingForApproval | SessionStatus::Compacting => true,
            _ => false,
        }
    }

    pub fn sort_priority(&self) -> (r: u8)
        ensures
            r == spec_sort_priority(*self),
    {
        match self {
            SessionStatus::WaitingForApproval => 0,
            SessionStatus::Processing | SessionStatus::RunningTool | SessionStatus::Compacting => 1,
            SessionStatus::WaitingForInput => 2,
            SessionStatus::Ended => 3,
        }
    }
}

/// Every active status ranks before idle and ended sessions.
pub proof fn active_ranks_first(s: SessionStatus)
    ensures
        spec_is_active(s) <==> spec_sort_priority(s) <= 1,
{
}

} // verus!
