//! The JSON events the runtime writes for its host application, one per
//! line.

use vstd::prelude::*;

verus! {

/// An event about a Wine process or the runtime's state.
#[derive(Debug)]
pub struct RuntimeEvent<'a> {
    pub kind: &'a str,
    pub stream: Option<&'a str>,
    pub message: Option<&'a str>,
    pub pid: Option<u32>,
    pub exit_code: Option<i32>,
    pub prefix: Option<&'a str>,
}

impl<'a> RuntimeEvent<'a> {
    /// A Wine process started in `prefix`.
    pub fn started(pid: u32, prefix: &'a str) -> (r: RuntimeEvent<'a>)
        ensures
            r.kind@ == "started"@,
            r.stream is None,
            r.message is None,
            r.pid == Some(pid),
            r.exit_code is None,
            r.prefix == Some(prefix),
    {
        RuntimeEvent {
            kind: "started",
            stream: None,
            message: None,
            pid: Some(pid),
            exit_code: None,
            prefix: Some(prefix),
        }
    }

    /// A line a Wine process wrote to `stream`.
    pub fn log(stream: &'a str, message: &'a str) -> (r: RuntimeEvent<'a>)
        ensures
            r.kind@ == "log"@,
            r.stream == Some(stream),
            r.message == Some(message),
            r.pid is None,
            r.exit_code is None,
            r.prefix is None,
    {
        RuntimeEvent {
            kind: "log",
            stream: Some(stream),
            message: Some(message),
            pid: None,
            exit_code: None,
            prefix: None,
        }
    }

    /// A Wine process exited.
    pub fn exited(exit_code: i32) -> (r: RuntimeEvent<'a>)
        ensures
            r.kind@ == "exited"@,
            r.stream is None,
            r.message is None,
            r.pid is None,
            r.exit_code == Some(exit_code),
            r.prefix is None,
    {
        RuntimeEvent {
            kind: "exited",
            stream: None,
            message: None,
            pid: None,
            exit_code: Some(exit_code),
            prefix: None,
        }
    }

    /// A state change of the runtime, such as Steam restarting.
    pub fn state(kind: &'a str, message: &'a str) -> (r: RuntimeEvent<'a>)
        ensures
            r.kind == kind,
            r.stream is None,
            r.message == Some(message),
            r.pid is None,
            r.exit_code is None,
            r.prefix is None,
    {
        RuntimeEvent {
            kind,
            stream: None,
            message: Some(message),
            pid: None,
            exit_code: None,
            prefix: None,
        }
    }
}

} // verus!
