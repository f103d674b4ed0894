//! The log record that rules are evaluated against.
use crate::text::{decimal, text_eq, u64_text};
use vstd::prelude::*;

verus! {

/// One entry of a unified log, with the fields that rules can name.
pub struct LogRecord {
    /// Time of the entry, in nanoseconds since the Unix epoch.
    pub time: u64,
    pub event_type: String,
    pub log_type: String,
    pub subsystem: String,
    pub thread_id: u64,
    pub pid: u64,
    pub euid: u32,
    pub library: String,
    pub library_uuid: String,
    pub activity_id: u64,
    pub category: String,
    pub process: String,
    pub process_uuid: String,
    pub message: String,
    pub raw_message: String,
    pub boot_uuid: String,
    pub timezone_name: String,
}

impl LogRecord {
    /// A copy of the record.
    pub fn copy(&self) -> (r: LogRecord)
        ensures
            r == *self,
    {
        LogRecord {
            time: self.time,
            event_type: self.event_type.clone(),
            log_type: self.log_type.clone(),
            subsystem: self.subsystem.clone(),
            thread_id: self.thread_id,
            pid: self.pid,
            euid: self.euid,
            library: self.library.clone(),
            library_uuid: self.library_uuid.clone(),
            activity_id: self.activity_id,
            category: self.category.clone(),
            process: self.process.clone(),
            process_uuid: self.process_uuid.clone(),
            message: self.message.clone(),
            raw_message: self.raw_message.clone(),
            boot_uuid: self.boot_uuid.clone(),
            timezone_name: self.timezone_name.clone(),
        }
    }

    /// The text of the field called `name` (case-sensitive); integers read as decimal text.
    pub open spec fn field_spec(&self, name: Seq<char>) -> Option<Seq<char>> {
        if name == "time"@ {
            Some(decimal(self.time as int))
        } else if name == "event_type"@ {
            Some(self.event_type@)
        } else if name == "log_type"@ {
            Some(self.log_type@)
        } else if name == "subsystem"@ {
            Some(self.subsystem@)
        } else if name == "thread_id"@ {
            Some(decimal(self.thread_id as int))
        } else if name == "pid"@ {
            Some(decimal(self.pid as int))
        } else if name == "euid"@ {
            Some(decimal(self.euid as int))
        } else if name == "library"@ {
            Some(self.library@)
        } else if name == "library_uuid"@ {
            Some(self.library_uuid@)
        } else if name == "activity_id"@ {
            Some(decimal(self.activity_id as int))
        } else if name == "category"@ {
            Some(self.category@)
        } else if name == "process"@ {
            Some(self.process@)
        } else if name == "process_uuid"@ {
            Some(self.process_uuid@)
        } else if name == "message"@ {
            Some(self.message@)
        } else if name == "raw_message"@ {
            Some(self.raw_message@)
        } else if name == "boot_uuid"@ {
            Some(self.boot_uuid@)
        } else if name == "timezone_name"@ {
            Some(self.timezone_name@)
        } else {
            None
        }
    }

    /// Looks up a field by its name.
    pub fn field(&self, name: &str) -> (r: Option<String>)
        ensures
            r matches Some(v) ==> self.field_spec(name@) == Some(v@),
            r is None ==> self.field_spec(name@) is None,
    {
        if text_eq(name, "time") {
            Some(u64_text(self.time))
        } else if text_eq(name, "event_type") {
            Some(self.event_type.clone())
        } else if text_eq(name, "log_type") {
            Some(self.log_type.clone())
        } else if text_eq(name, "subsystem") {
            Some(self.subsystem.clone())
        } else if text_eq(name, "thread_id") {
            Some(u64_text(self.thread_id))
        } else if text_eq(name, "pid") {
            Some(u64_text(self.pid))
        } else if text_eq(name, "euid") {
            Some(u64_text(self.euid as u64))
        } else if text_eq(name, "library") {
            Some(self.library.clone())
        } else if text_eq(name, "library_uuid") {
            Some(self.library_uuid.clone())
        } else if text_eq(name, "activity_id") {
            Some(u64_text(self.activity_id))
        } else if text_eq(name, "category") {
            Some(self.category.clone())
        } else if text_eq(name, "process") {
            Some(self.process.clone())
        } else if text_eq(name, "process_uuid") {
            Some(self.process_uuid.clone())
        } else if text_eq(name, "message") {
            Some(self.message.clone())
        } else if text_eq(name, "raw_message") {
            Some(self.raw_message.clone())
        } else if text_eq(name, "boot_uuid") {
            Some(self.boot_uuid.clone())
        } else if text_eq(name, "timezone_name") {
            Some(self.timezone_name.clone())
        } else {
            None
        }
    }
}

} // verus!
