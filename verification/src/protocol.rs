//! The wire record model: plain data shapes for a log record, its metadata,
//! and the initial session-descriptor message, together with their
//! mathematical views.

use vstd::prelude::*;
use vstd::string::StringExecFns;

verus! {

/// Severity of a log record, ordered from most severe (`Error`) to most
/// verbose (`Trace`).
#[derive(Clone, Copy, Debug, PartialEq, Eq, Structural)]
pub enum Level {
    Error,
    Warn,
    Info,
    Debug,
    Trace,
}

impl Level {
    /// Position of this level in the severity order: `Error` is 0, `Trace` is 4.
    pub open spec fn rank(self) -> nat {
        match self {
            Level::Error => 0,
            Level::Warn => 1,
            Level::Info => 2,
            Level::Debug => 3,
            Level::Trace => 4,
        }
    }
}

/// Metadata of a log record: its severity and the origin tag naming the
/// subsystem that emitted it.
pub struct Metadata {
    pub level: Level,
    pub target: String,
}

/// Mathematical view of a [`Metadata`].
pub ghost struct MetadataV {
    pub level: Level,
    pub target: Seq<char>,
}

impl View for Metadata {
    type V = MetadataV;

    open spec fn view(&self) -> MetadataV {
        MetadataV { level: self.level, target: self.target@ }
    }
}

impl Metadata {
    /// Field-for-field copy of this metadata.
    pub fn duplicate(&self) -> (r: Metadata)
        ensures
            r@ == self@,
    {
        Metadata { level: self.level, target: String::from_str(self.target.as_str()) }
    }
}

/// One log event: metadata, the formatted message text, and an optional
/// source location (module path, file path, line number). Immutable once
/// constructed.
pub struct Record {
    pub metadata: Metadata,
    pub message: String,
    pub module: Option<String>,
    pub file: Option<String>,
    pub line: Option<u32>,
}

/// Mathematical view of a [`Record`].
pub ghost struct RecordV {
    pub metadata: MetadataV,
    pub message: Seq<char>,
    pub module: Option<Seq<char>>,
    pub file: Option<Seq<char>>,
    pub line: Option<u32>,
}

impl View for Record {
    type V = RecordV;

    open spec fn view(&self) -> RecordV {
        RecordV {
            metadata: self.metadata@,
            message: self.message@,
            module: self.module.deep_view(),
            file: self.file.deep_view(),
            line: self.line,
        }
    }
}

impl DeepView for Record {
    type V = RecordV;

    open spec fn deep_view(&self) -> RecordV {
        self.view()
    }
}

/// Field-for-field copy of an optional string.
fn duplicate_opt_string(s: &Option<String>) -> (r: Option<String>)
    ensures
        r.deep_view() == s.deep_view(),
{
    match s {
        Option::Some(x) => Option::Some(String::from_str(x.as_str())),
        Option::None => Option::None,
    }
}

impl Record {
    /// Field-for-field copy of this record: the sink adapter builds an owned
    /// record out of the borrowed input it is handed.
    pub fn duplicate(&self) -> (r: Record)
        ensures
            r@ == self@,
    {
        Record {
            metadata: self.metadata.duplicate(),
            message: String::from_str(self.message.as_str()),
            module: duplicate_opt_string(&self.module),
            file: duplicate_opt_string(&self.file),
            line: self.line,
        }
    }
}

/// Snapshot of the host process, captured exactly once at handshake time:
/// command-line arguments, environment entries rendered as `KEY=VALUE`
/// strings, the working directory if one could be read, and the process id.
pub struct ProcessInfo {
    pub args: Vec<String>,
    pub env: Vec<String>,
    pub cwd: Option<String>,
    pub id: u64,
}

/// Mathematical view of a [`ProcessInfo`].
pub ghost struct ProcessInfoV {
    pub args: Seq<Seq<char>>,
    pub env: Seq<Seq<char>>,
    pub cwd: Option<Seq<char>>,
    pub id: u64,
}

impl View for ProcessInfo {
    type V = ProcessInfoV;

    open spec fn view(&self) -> ProcessInfoV {
        ProcessInfoV {
            args: self.args.deep_view(),
            env: self.env.deep_view(),
            cwd: self.cwd.deep_view(),
            id: self.id,
        }
    }
}

/// The session descriptor ("hello"): wraps the process snapshot and is the
/// first and only message of its kind sent on a connection.
pub struct Hello {
    pub process_info: ProcessInfo,
}

/// Mathematical view of a [`Hello`].
pub ghost struct HelloV {
    pub process_info: ProcessInfoV,
}

impl View for Hello {
    type V = HelloV;

    open spec fn view(&self) -> HelloV {
        HelloV { process_info: self.process_info@ }
    }
}

/// Renders one environment variable as the `KEY=VALUE` form carried in the
/// process snapshot.
pub fn env_entry(key: &str, value: &str) -> (r: String)
    ensures
        r@ == key@ + seq!['='] + value@,
{
    proof {
        reveal_strlit("=");
    }
    let mut s = String::from_str(key);
    s.append("=");
    s.append(value);
    proof {
        assert(s@ =~= key@ + seq!['='] + value@);
    }
    s
}

} // verus!
