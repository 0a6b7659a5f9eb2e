//! The tool's command surface, as plain data.
//!
//! Argument parsing itself happens outside the library; what a parsed
//! invocation means is carried by these types, which every command
//! handler consumes.

use vstd::prelude::*;

verus! {

/// A parsed invocation of the tool.
#[derive(Debug)]
pub struct Cli {
    pub command: Command,
}

/// The top-level commands.
#[derive(Debug)]
pub enum Command {
    Config(ConfigArgs),
    Topics(TopicArgs),
    Brokers(BrokerCommandArgs),
    Consumer(ConsumerCommandArgs),
    Admin(AdminArgs),
    Completion(CompletionArgs),
}

/// Arguments of the configuration command.
#[derive(Debug)]
pub struct ConfigArgs {
    /// Name of the environment to activate, when given.
    pub activate: Option<String>,
}

/// Arguments of the topics command.
#[derive(Debug)]
pub struct TopicArgs {
    pub command: TopicCommand,
}

/// The topic subcommands.
#[derive(Debug)]
pub enum TopicCommand {
    List,
    Details(TopicCommandArgs),
    Tail(TailArgs),
}

/// A subcommand that names one topic.
#[derive(Debug)]
pub struct TopicCommandArgs {
    pub topic: String,
}

/// Arguments of the administration command.
#[derive(Debug)]
pub struct AdminArgs {
    pub command: AdminCommand,
}

/// The administration subcommands.
#[derive(Debug)]
pub enum AdminCommand {
    CreateTopic(CreateTopicArgs),
    DeleteTopic(TopicCommandArgs),
    AddPartitions(AddPartitionsArgs),
}

/// Arguments for creating a topic.
#[derive(Debug)]
pub struct CreateTopicArgs {
    /// Name of the topic to create.
    pub topic: String,
    /// Number of partitions the topic should start with.
    pub partitions: i32,
    /// Replication factor for the new topic.
    pub replication: i32,
    /// Optional topic configuration overrides (`key=value`).
    pub configs: Vec<String>,
}

/// Arguments for growing a topic's partition count.
#[derive(Debug)]
pub struct AddPartitionsArgs {
    /// Name of the topic to update.
    pub topic: String,
    /// New total partition count for the topic.
    pub total: i32,
}

/// Arguments for tailing a topic.
#[derive(Debug)]
pub struct TailArgs {
    /// Name of the topic to tail.
    pub topic: String,
    /// Start the tail this many messages before the current offset.
    pub before: Option<usize>,
    /// Apply the given filter to the tail.
    pub filter: Option<String>,
}

/// Arguments of the consumer command.
#[derive(Debug)]
pub struct ConsumerCommandArgs {
    /// List all consumer groups.
    pub list: bool,
    /// Get details of a consumer group.
    pub consumer: Option<String>,
    /// Include the lag in the consumer details.
    pub pending: bool,
}

/// Arguments of the brokers command.
#[derive(Debug)]
pub struct BrokerCommandArgs {
    pub list: bool,
}

/// The shells that completions can be generated for.
#[derive(Debug, Clone)]
pub enum Shell {
    Bash,
    Zsh,
}

/// Arguments of the completion command.
#[derive(Debug)]
pub struct CompletionArgs {
    pub shell: Shell,
}

} // verus!
