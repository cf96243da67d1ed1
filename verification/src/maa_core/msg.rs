//! The message ids of MaaCore callbacks (`AsstMsg.h`) and their names.

use vstd::prelude::*;
use crate::maa_core::AsstMsgId;

verus! {

// Global info
pub const INTERNAL_ERROR: AsstMsgId = 0;
pub const INIT_FAILED: AsstMsgId = 1;
pub const CONNECTION_INFO: AsstMsgId = 2;
pub const ALL_TASKS_COMPLETED: AsstMsgId = 3;
pub const ASYNC_CALL_INFO: AsstMsgId = 4;
pub const DESTROYED: AsstMsgId = 5;

// Task chain info
pub const TASK_CHAIN_ERROR: AsstMsgId = 10000;
pub const TASK_CHAIN_START: AsstMsgId = 10001;
pub const TASK_CHAIN_COMPLETED: AsstMsgId = 10002;
pub const TASK_CHAIN_EXTRA_INFO: AsstMsgId = 10003;
pub const TASK_CHAIN_STOPPED: AsstMsgId = 10004;

// Sub-task info
pub const SUB_TASK_ERROR: AsstMsgId = 20000;
pub const SUB_TASK_START: AsstMsgId = 20001;
pub const SUB_TASK_COMPLETED: AsstMsgId = 20002;
pub const SUB_TASK_EXTRA_INFO: AsstMsgId = 20003;
pub const SUB_TASK_STOPPED: AsstMsgId = 20004;

// Web request
pub const REPORT_REQUEST: AsstMsgId = 30000;

/// The name of a message kind; `Unknown` for an id that `AsstMsg.h` does not define.
pub open spec fn msg_name(id: AsstMsgId) -> Seq<char> {
    if id == INTERNAL_ERROR {
        "InternalError"@
    } else if id == INIT_FAILED {
        "InitFailed"@
    } else if id == CONNECTION_INFO {
        "ConnectionInfo"@
    } else if id == ALL_TASKS_COMPLETED {
        "AllTasksCompleted"@
    } else if id == ASYNC_CALL_INFO {
        "AsyncCallInfo"@
    } else if id == DESTROYED {
        "Destroyed"@
    } else if id == TASK_CHAIN_ERROR {
        "TaskChainError"@
    } else if id == TASK_CHAIN_START {
        "TaskChainStart"@
    } else if id == TASK_CHAIN_COMPLETED {
        "TaskChainCompleted"@
    } else if id == TASK_CHAIN_EXTRA_INFO {
        "TaskChainExtraInfo"@
    } else if id == TASK_CHAIN_STOPPED {
        "TaskChainStopped"@
    } else if id == SUB_TASK_ERROR {
        "SubTaskError"@
    } else if id == SUB_TASK_START {
        "SubTaskStart"@
    } else if id == SUB_TASK_COMPLETED {
        "SubTaskCompleted"@
    } else if id == SUB_TASK_EXTRA_INFO {
        "SubTaskExtraInfo"@
    } else if id == SUB_TASK_STOPPED {
        "SubTaskStopped"@
    } else if id == REPORT_REQUEST {
        "ReportRequest"@
    } else {
        "Unknown"@
    }
}

/// Human-readable name for a message id.
pub fn name(id: AsstMsgId) -> (res: &'static str)
    ensures
        res@ == msg_name(id),
{
    match id {
        INTERNAL_ERROR => "InternalError",
        INIT_FAILED => "InitFailed",
        CONNECTION_INFO => "ConnectionInfo",
        ALL_TASKS_COMPLETED => "AllTasksCompleted",
        ASYNC_CALL_INFO => "AsyncCallInfo",
        DESTROYED => "Destroyed",
        TASK_CHAIN_ERROR => "TaskChainError",
        TASK_CHAIN_START => "TaskChainStart",
        TASK_CHAIN_COMPLETED => "TaskChainCompleted",
        TASK_CHAIN_EXTRA_INFO => "TaskChainExtraInfo",
        TASK_CHAIN_STOPPED => "TaskChainStopped",
        SUB_TASK_ERROR => "SubTaskError",
        SUB_TASK_START => "SubTaskStart",
        SUB_TASK_COMPLETED => "SubTaskCompleted",
        SUB_TASK_EXTRA_INFO => "SubTaskExtraInfo",
        SUB_TASK_STOPPED => "SubTaskStopped",
        REPORT_REQUEST => "ReportRequest",
        _ => "Unknown",
    }
}


/// Each message id defined by `AsstMsg.h` is named as that header names it,
/// and every other id is `Unknown`.
pub proof fn law_message_names()
    ensures
        msg_name(0) == "InternalError"@,
        msg_name(1) == "InitFailed"@,
        msg_name(2) == "ConnectionInfo"@,
        msg_name(3) == "AllTasksCompleted"@,
        msg_name(4) == "AsyncCallInfo"@,
        msg_name(5) == "Destroyed"@,
        msg_name(10000) == "TaskChainError"@,
        msg_name(10001) == "TaskChainStart"@,
        msg_name(10002) == "TaskChainCompleted"@,
        msg_name(10003) == "TaskChainExtraInfo"@,
        msg_name(10004) == "TaskChainStopped"@,
        msg_name(20000) == "SubTaskError"@,
        msg_name(20001) == "SubTaskStart"@,
        msg_name(20002) == "SubTaskCompleted"@,
        msg_name(20003) == "SubTaskExtraInfo"@,
        msg_name(20004) == "SubTaskStopped"@,
        msg_name(30000) == "ReportRequest"@,
        forall|id: AsstMsgId|
            !(0 <= id <= 5 || 10000 <= id <= 10004 || 20000 <= id <= 20004 || id == 30000)
                ==> #[trigger] msg_name(id) == "Unknown"@,
{
}

} // verus!
