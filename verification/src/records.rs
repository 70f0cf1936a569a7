//! Domain records held by the state machine store.
//!
//! A `Task` is a unit of extraction work assigned to exactly one executor;
//! `ExecutorMetadata` is the liveness record of a worker; `ContentMetadata`
//! describes one stored content item.  Each record has a mathematical view
//! over character sequences, which the canonical encoding and the store
//! contracts speak of.

use vstd::prelude::*;

verus! {

/// Mathematical value of a [`Task`].
pub ghost struct TaskV {
    pub id: Seq<char>,
    pub executor_id: Seq<char>,
    pub extractor_name: Seq<char>,
    pub status: Seq<char>,
    pub payload_ref: Seq<char>,
}

/// A unit of extraction work.  Immutable once created except for status
/// transitions; its id is unique within the store.
#[derive(Debug, Clone)]
pub struct Task {
    pub id: String,
    pub executor_id: String,
    pub extractor_name: String,
    pub status: String,
    pub payload_ref: String,
}

impl View for Task {
    type V = TaskV;

    open spec fn view(&self) -> TaskV {
        TaskV {
            id: self.id@,
            executor_id: self.executor_id@,
            extractor_name: self.extractor_name@,
            status: self.status@,
            payload_ref: self.payload_ref@,
        }
    }
}

/// Mathematical value of an [`ExecutorMetadata`].
pub ghost struct ExecutorMetadataV {
    pub id: Seq<char>,
    pub addr: Seq<char>,
    pub labels: Seq<Seq<char>>,
}

/// Liveness record of one executor: one live record per executor id,
/// overwritten on each registration or heartbeat.
#[derive(Debug, Clone)]
pub struct ExecutorMetadata {
    pub id: String,
    pub addr: String,
    pub labels: Vec<String>,
}

impl View for ExecutorMetadata {
    type V = ExecutorMetadataV;

    open spec fn view(&self) -> ExecutorMetadataV {
        ExecutorMetadataV { id: self.id@, addr: self.addr@, labels: self.labels.deep_view() }
    }
}

/// Mathematical value of a [`ContentMetadata`].
pub ghost struct ContentMetadataV {
    pub id: Seq<char>,
    pub parent_id: Option<Seq<char>>,
    pub content_type: Seq<char>,
    pub storage_ptr: Seq<char>,
}

/// Description of one stored content item.
#[derive(Debug, Clone)]
pub struct ContentMetadata {
    pub id: String,
    pub parent_id: Option<String>,
    pub content_type: String,
    pub storage_ptr: String,
}

impl View for ContentMetadata {
    type V = ContentMetadataV;

    open spec fn view(&self) -> ContentMetadataV {
        ContentMetadataV {
            id: self.id@,
            parent_id: match self.parent_id {
                Some(p) => Some(p@),
                None => None,
            },
            content_type: self.content_type@,
            storage_ptr: self.storage_ptr@,
        }
    }
}

} // verus!
