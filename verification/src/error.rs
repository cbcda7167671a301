use vstd::prelude::*;
use vstd::string::StringExecFns;
use crate::host::{decimal_text, number_text};

verus! {

/// Why an operation on a node failed.
#[derive(Debug)]
pub enum NodeError {
    /// The node could not be asked: the request did not go through or its
    /// answer could not be read. The text says what went wrong.
    InfoFailed(String),
    /// The answer to the info request lacks the node's name.
    MissingNodeName,
    /// The node answered under another name than the one it was created with.
    NodeNameChanged { expected: String, actual: String },
    /// The answer to the info request lacks the list of peer services.
    MissingServices,
    /// A peer in the services list has a port that is not a number in the
    /// range of `u16`.
    InvalidPort,
    /// The answer to the info request lacks the partition generation.
    MissingPartitionGeneration,
    /// The partition generation is not a number in the range of `isize`.
    InvalidPartitionGeneration,
    /// The node already has as many connections as its pool allows; the
    /// value is that limit.
    PoolExhausted(usize),
    /// A connection could not be opened or set up. The text says why.
    ConnectionFailed(String),
    /// A step of refreshing the node failed; `cause` says how.
    RefreshFailed { step: RefreshStep, cause: Box<NodeError> },
}

/// The steps of refreshing a node.
#[derive(Debug)]
pub enum RefreshStep {
    /// Asking the node for its name, partition generation and peers.
    Info,
    /// Checking that the node still has its name.
    VerifyNodeName,
    /// Reading the node's peers.
    AddFriends,
    /// Recording the node's partition generation.
    UpdatePartitions,
}

impl RefreshStep {
    /// The context under which an error of this step is reported.
    pub open spec fn context_text(&self) -> Seq<char> {
        match self {
            RefreshStep::Info => "Info command failed"@,
            RefreshStep::VerifyNodeName => "Failed to verify node name"@,
            RefreshStep::AddFriends => "Failed to add friends"@,
            RefreshStep::UpdatePartitions => "Failed to update partitions"@,
        }
    }

    /// The context under which an error of this step is reported.
    pub fn context(&self) -> (r: &'static str)
        ensures
            r@ == self.context_text(),
    {
        match self {
            RefreshStep::Info => "Info command failed",
            RefreshStep::VerifyNodeName => "Failed to verify node name",
            RefreshStep::AddFriends => "Failed to add friends",
            RefreshStep::UpdatePartitions => "Failed to update partitions",
        }
    }
}

impl NodeError {
    /// The text that describes the error. A failed refresh step is described
    /// by its context; its cause is kept in `cause`.
    pub open spec fn message_text(&self) -> Seq<char> {
        match self {
            NodeError::InfoFailed(text) => text@,
            NodeError::MissingNodeName => "Missing node name"@,
            NodeError::NodeNameChanged { expected, actual } => "Node name has changed: '"@
                + expected@ + "' => '"@ + actual@ + "'"@,
            NodeError::MissingServices => "Missing services list"@,
            NodeError::InvalidPort => "Invalid port number"@,
            NodeError::MissingPartitionGeneration => "Missing partition generation"@,
            NodeError::InvalidPartitionGeneration => "Invalid partition generation"@,
            NodeError::PoolExhausted(limit) => "Exceeded max. connection pool size of "@
                + decimal_text(*limit as nat),
            NodeError::ConnectionFailed(text) => text@,
            NodeError::RefreshFailed { step, cause } => step.context_text(),
        }
    }

    /// The text that describes the error (see `message_text`).
    pub fn message(&self) -> (r: String)
        ensures
            r@ == self.message_text(),
    {
        match self {
            NodeError::InfoFailed(text) => text.clone(),
            NodeError::MissingNodeName => "Missing node name".to_string(),
            NodeError::NodeNameChanged { expected, actual } => {
                let mut r = "Node name has changed: '".to_string();
                r.append(expected.as_str());
                r.append("' => '");
                r.append(actual.as_str());
                r.append("'");
                r
            },
            NodeError::MissingServices => "Missing services list".to_string(),
            NodeError::InvalidPort => "Invalid port number".to_string(),
            NodeError::MissingPartitionGeneration => "Missing partition generation".to_string(),
            NodeError::InvalidPartitionGeneration => "Invalid partition generation".to_string(),
            NodeError::PoolExhausted(limit) => {
                let mut r = "Exceeded max. connection pool size of ".to_string();
                let number = number_text(*limit);
                r.append(number.as_str());
                r
            },
            NodeError::ConnectionFailed(text) => text.clone(),
            NodeError::RefreshFailed { step, cause: _ } => step.context().to_string(),
        }
    }
}

} // verus!
