//! The records that the host hands over, as plain data.

use vstd::prelude::*;
use crate::text::str_eq;

verus! {

/// What happened to a key.
#[derive(Clone, Copy, Debug, PartialEq, Eq, Hash, PartialOrd, Ord, Structural)]
pub enum Operation {
    Unset,
    Create,
    Update,
    Delete,
}

impl Operation {
    /// The operation that the wire code `code` stands for.
    pub open spec fn of_code(code: i32) -> Option<Operation> {
        if code == 0 {
            Some(Operation::Unset)
        } else if code == 1 {
            Some(Operation::Create)
        } else if code == 2 {
            Some(Operation::Update)
        } else if code == 3 {
            Some(Operation::Delete)
        } else {
            None
        }
    }

    /// The wire code of an operation.
    pub open spec fn code(self) -> i32 {
        match self {
            Operation::Unset => 0,
            Operation::Create => 1,
            Operation::Update => 2,
            Operation::Delete => 3,
        }
    }

    /// The name of an operation in the protocol definition.
    pub open spec fn name(self) -> Seq<char> {
        match self {
            Operation::Unset => "UNSET"@,
            Operation::Create => "CREATE"@,
            Operation::Update => "UPDATE"@,
            Operation::Delete => "DELETE"@,
        }
    }

    /// The operation that is called `name` in the protocol definition.
    pub open spec fn of_name(name: Seq<char>) -> Option<Operation> {
        if name == "UNSET"@ {
            Some(Operation::Unset)
        } else if name == "CREATE"@ {
            Some(Operation::Create)
        } else if name == "UPDATE"@ {
            Some(Operation::Update)
        } else if name == "DELETE"@ {
            Some(Operation::Delete)
        } else {
            None
        }
    }

    /// The operation with wire code `code`, if it is one of the four.
    pub fn from_i32(code: i32) -> (out: Option<Operation>)
        ensures
            out == Operation::of_code(code),
    {
        if code == 0 {
            Some(Operation::Unset)
        } else if code == 1 {
            Some(Operation::Create)
        } else if code == 2 {
            Some(Operation::Update)
        } else if code == 3 {
            Some(Operation::Delete)
        } else {
            None
        }
    }

    /// The wire code of this operation.
    pub fn as_i32(&self) -> (code: i32)
        ensures
            code == self.code(),
            Operation::of_code(code) == Some(*self),
    {
        match self {
            Operation::Unset => 0,
            Operation::Create => 1,
            Operation::Update => 2,
            Operation::Delete => 3,
        }
    }

    /// The name of this operation in the protocol definition.
    pub fn as_str_name(&self) -> (name: &'static str)
        ensures
            name@ == self.name(),
    {
        match self {
            Operation::Unset => "UNSET",
            Operation::Create => "CREATE",
            Operation::Update => "UPDATE",
            Operation::Delete => "DELETE",
        }
    }

    /// The operation called `value`, if there is one. Names are matched
    /// exactly, in upper case.
    pub fn from_str_name(value: &str) -> (out: Option<Operation>)
        ensures
            out == Operation::of_name(value@),
    {
        if str_eq(value, "UNSET") {
            Some(Operation::Unset)
        } else if str_eq(value, "CREATE") {
            Some(Operation::Create)
        } else if str_eq(value, "UPDATE") {
            Some(Operation::Update)
        } else if str_eq(value, "DELETE") {
            Some(Operation::Delete)
        } else {
            None
        }
    }
}

/// Every operation is found again from its name.
pub proof fn lemma_operation_name_round_trip(op: Operation)
    ensures
        Operation::of_name(op.name()) == Some(op),
{
    reveal_strlit("UNSET");
    reveal_strlit("CREATE");
    reveal_strlit("UPDATE");
    reveal_strlit("DELETE");
    assert("UNSET"@.len() == 5);
    assert("CREATE"@.len() == 6);
    assert("UPDATE"@[0] == 'U');
    assert("CREATE"@[0] == 'C');
    assert("DELETE"@[0] == 'D');
}

/// One change to one key of a store, as the host reports it: the values are
/// still undecoded bytes and the operation is still a wire code.
#[derive(Clone, Debug, PartialEq)]
pub struct StoreDelta {
    pub operation: i32,
    pub ordinal: u64,
    pub key: String,
    pub old_value: Vec<u8>,
    pub new_value: Vec<u8>,
}

/// The changes that one block made to a store, in the order they were made.
#[derive(Clone, Debug, PartialEq)]
pub struct StoreDeltas {
    pub store_deltas: Vec<StoreDelta>,
}

/// A message of any type: the name of its type and its encoded bytes.
#[derive(Clone, Debug, PartialEq)]
pub struct Any {
    pub type_url: String,
    pub value: Vec<u8>,
}

/// What a module produced for one block.
#[derive(Clone, Debug, PartialEq)]
pub struct ModuleOutput {
    pub module_name: String,
    pub logs: Vec<String>,
    pub debug_logs_truncated: bool,
    pub cached: bool,
    pub data: Option<Data>,
}

/// The output of a module: of a map module its message, of a store module
/// the deltas of its store.
#[derive(Clone, Debug, PartialEq)]
pub enum Data {
    MapOutput(Any),
    StoreDeltas(StoreDeltas),
}

/// How the processing of a range of blocks went.
#[derive(Clone, Debug, PartialEq)]
pub struct ProcessRangeResponse {
    pub kind: Option<Type>,
}

/// The kinds of answer to a request to process a range of blocks.
#[derive(Clone, Debug, PartialEq)]
pub enum Type {
    Failed(Failed),
    Completed(Completed),
    Update(Update),
}

/// Progress of a range that is being processed.
#[derive(Clone, Debug, PartialEq)]
pub struct Update {
    pub duration_ms: u64,
    pub processed_blocks: u64,
    pub total_bytes_read: u64,
    pub total_bytes_written: u64,
    pub modules_stats: Vec<ModuleStats>,
}

/// What one module cost while a range was processed. The store counts are
/// zero for a map module.
#[derive(Clone, Debug, PartialEq)]
pub struct ModuleStats {
    pub name: String,
    pub processing_time_ms: u64,
    pub store_operation_time_ms: u64,
    pub store_read_count: u64,
    pub external_call_metrics: Vec<ExternalCallMetric>,
    pub store_write_count: u64,
    pub store_deleteprefix_count: u64,
    pub store_size_bytes: u64,
}

/// How often a module called out, and how long that took.
#[derive(Clone, Debug, PartialEq)]
pub struct ExternalCallMetric {
    pub name: String,
    pub count: u64,
    pub time_ms: u64,
}

/// A range that was processed to its end. The trace id names the producer of
/// the partial files; it is empty where the producer gives none.
#[derive(Clone, Debug, PartialEq)]
pub struct Completed {
    pub all_processed_ranges: Vec<BlockRange>,
    pub trace_id: String,
}

/// A range that could not be processed.
#[derive(Clone, Debug, PartialEq)]
pub struct Failed {
    pub reason: String,
    pub logs: Vec<String>,
    pub logs_truncated: bool,
}

/// A range of blocks.
#[derive(Clone, Debug, PartialEq)]
pub struct BlockRange {
    pub start_block: u64,
    pub end_block: u64,
}

} // verus!
