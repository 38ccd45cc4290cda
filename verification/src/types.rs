//! Canonical record shape shared by the index, the vector store and the
//! session aggregator.

use vstd::prelude::*;

verus! {

/// Which assistant produced a transcript.
#[derive(Clone, Copy, Debug, PartialEq, Eq, Structural)]
pub enum SourceKind {
    Chat,
    CodexSession,
    CodexHistory,
}

impl SourceKind {
    /// Short tag shown beside a session in the UI.
    pub fn label(self) -> (r: &'static str)
        ensures
            self is Chat ==> r@ == "chat"@,
            self is CodexSession ==> r@ == "codex"@,
            self is CodexHistory ==> r@ == "codex-history"@,
    {
        match self {
            SourceKind::Chat => "chat",
            SourceKind::CodexSession => "codex",
            SourceKind::CodexHistory => "codex-history",
        }
    }
}

/// Restriction of a query to one family of sources.
#[derive(Clone, Copy, Debug, PartialEq, Eq, Structural)]
pub enum SourceFilter {
    Chat,
    Codex,
}

impl SourceFilter {
    /// Whether a record of kind `kind` passes this filter: the Codex filter
    /// accepts both Codex transcript flavours.
    pub fn matches(self, kind: SourceKind) -> (r: bool)
        ensures
            r == self.spec_matches(kind),
    {
        match self {
            SourceFilter::Chat => matches!(kind, SourceKind::Chat),
            SourceFilter::Codex => matches!(kind, SourceKind::CodexSession | SourceKind::CodexHistory),
        }
    }

    pub open spec fn spec_matches(self, kind: SourceKind) -> bool {
        match self {
            SourceFilter::Chat => kind is Chat,
            SourceFilter::Codex => kind is CodexSession || kind is CodexHistory,
        }
    }
}

/// One indexed conversational turn.
#[derive(Debug)]
pub struct Record {
    /// Monotonic primary key assigned at insertion.
    pub doc_id: u64,
    /// Groups records into a conversation.
    pub session_id: String,
    /// Ordered key within a session.
    pub turn_id: u64,
    /// Milliseconds since the epoch.
    pub ts: u64,
    pub source: SourceKind,
    /// Absolute path of the originating transcript file.
    pub source_path: String,
    /// Derived project tag; empty when unknown.
    pub project: String,
    /// Free-form role string; `tool_use` and `tool_result` count as tool roles.
    pub role: String,
    /// Full canonical message text.
    pub text: String,
}

impl Clone for Record {
    fn clone(&self) -> (r: Self)
        ensures
            r == *self,
    {
        Record {
            doc_id: self.doc_id,
            session_id: self.session_id.clone(),
            turn_id: self.turn_id,
            ts: self.ts,
            source: self.source,
            source_path: self.source_path.clone(),
            project: self.project.clone(),
            role: self.role.clone(),
            text: self.text.clone(),
        }
    }
}

/// A record as it arrives from a transcript reader, before a document id
/// has been assigned.
#[derive(Debug)]
pub struct RecordInput {
    pub session_id: String,
    pub turn_id: u64,
    pub ts: u64,
    pub source: SourceKind,
    pub source_path: String,
    pub project: String,
    pub role: String,
    pub text: String,
}

impl Clone for RecordInput {
    fn clone(&self) -> (r: Self)
        ensures
            r == *self,
    {
        RecordInput {
            session_id: self.session_id.clone(),
            turn_id: self.turn_id,
            ts: self.ts,
            source: self.source,
            source_path: self.source_path.clone(),
            project: self.project.clone(),
            role: self.role.clone(),
            text: self.text.clone(),
        }
    }
}

impl RecordInput {
    /// The record obtained by stamping this input with a document id.
    pub open spec fn spec_with_doc_id(self, doc_id: u64) -> Record {
        Record {
            doc_id,
            session_id: self.session_id,
            turn_id: self.turn_id,
            ts: self.ts,
            source: self.source,
            source_path: self.source_path,
            project: self.project,
            role: self.role,
            text: self.text,
        }
    }

    pub fn with_doc_id(self, doc_id: u64) -> (r: Record)
        ensures
            r == self.spec_with_doc_id(doc_id),
    {
        Record {
            doc_id,
            session_id: self.session_id,
            turn_id: self.turn_id,
            ts: self.ts,
            source: self.source,
            source_path: self.source_path,
            project: self.project,
            role: self.role,
            text: self.text,
        }
    }
}

/// Whether a role string names a tool interaction.
pub open spec fn spec_is_tool_role(role: Seq<char>) -> bool {
    role == "tool_use"@ || role == "tool_result"@
}

/// Records with role `tool_use` or `tool_result` are hidden from previews
/// by default and addressed by the `tool` query filter.
pub fn is_tool_role(role: &str) -> (r: bool)
    ensures
        r == spec_is_tool_role(role@),
{
    let owned = role.to_owned();
    let tool_use = String::from_str("tool_use");
    let tool_result = String::from_str("tool_result");
    owned == tool_use || owned == tool_result
}

} // verus!
