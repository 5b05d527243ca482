//! Errors shared by every layer of the library.

use vstd::prelude::*;

use crate::text::{owned, push_str};

verus! {

/// Domain and storage errors.
#[derive(Debug, Clone, PartialEq, Eq)]
pub enum Error {
    KBNotFound,
    GetKBError(String),
    CreateKBError(String),
    UpdateKBError(String),
    KBWasNotUpdatedError,
    DeleteKBError(String),
    DuplicateKBError,
    SearchError(String),
    ListError(String),
    DatabaseQueryError(String),
    StorageInitError(String),
    EmbeddingError(String),
    VectorSearchError(String),
    VectorStoreInitError(String),
    ReindexError(String),
    ImportFileError(String),
    ParseImportFileError(String),
    WriteFailedItemsError(String),
    ExportError(String),
    QuoteNotFound,
    QuoteError(String),
    RandomNotFound(String),
    RandomError(String),
    MissingRequiredField(String),
    InteractiveInputError(String),
    ParentKBNotFound,
    KBHasChildrenError(String),
    InvalidPathError(String),
    MediaDownloadError(String),
    MediaFileNotFoundError(String),
    MediaCopyError(String),
    MediaDeleteError(String),
    MediaUrlRequired(String),
    MediaPathUpdateNotAllowed(String),
    DuplicateEdgeError,
    EdgeNotFound,
    SelfLoopNotAllowed,
    AddEdgeError(String),
    RemoveEdgeError(String),
    GraphQueryError(String),
    InvalidJsonInput(String),
    InvalidTagError(String),
    InvalidMetadataError(String),
    DuplicateMetadataKeyError(String),
    ConflictingAddFlags(String),
}

impl Error {
    /// The human-readable text of the error.
    pub open spec fn message_view(&self) -> Seq<char> {
        match self {
            Error::KBNotFound => "KB not found"@,
            Error::GetKBError(s) => "unable to get KB: "@ + s@,
            Error::CreateKBError(s) => "unable to create KB: "@ + s@,
            Error::UpdateKBError(s) => "unable to update KB: "@ + s@,
            Error::KBWasNotUpdatedError => "KB was not updated"@,
            Error::DeleteKBError(s) => "unable to delete KB: "@ + s@,
            Error::DuplicateKBError => "KB already exists"@,
            Error::SearchError(s) => "unable to search: "@ + s@,
            Error::ListError(s) => "unable to list entries: "@ + s@,
            Error::DatabaseQueryError(s) => "repository query failed: "@ + s@,
            Error::StorageInitError(s) => "storage init failed: "@ + s@,
            Error::EmbeddingError(s) => "embedding error: "@ + s@,
            Error::VectorSearchError(s) => "vector search failed: "@ + s@,
            Error::VectorStoreInitError(s) => "vector store init failed: "@ + s@,
            Error::ReindexError(s) => "reindex failed: "@ + s@,
            Error::ImportFileError(s) => "failed to read import file: "@ + s@,
            Error::ParseImportFileError(s) => "failed to parse import file: "@ + s@,
            Error::WriteFailedItemsError(s) => "failed to write failed items file: "@ + s@,
            Error::ExportError(s) => "export failed: "@ + s@,
            Error::QuoteNotFound => "no quotes found in the knowledge base"@,
            Error::QuoteError(s) => "quote error: "@ + s@,
            Error::RandomNotFound(s) => "no entries found in category: "@ + s@,
            Error::RandomError(s) => "random lookup failed: "@ + s@,
            Error::MissingRequiredField(s) => "missing required field: "@ + s@,
            Error::InteractiveInputError(s) => "interactive input error: "@ + s@,
            Error::ParentKBNotFound => "parent KB not found"@,
            Error::KBHasChildrenError(s) => "KB has children, delete them first: "@ + s@,
            Error::InvalidPathError(s) => "invalid path: "@ + s@,
            Error::MediaDownloadError(s) => "media download failed: "@ + s@,
            Error::MediaFileNotFoundError(s) => "media file not found: "@ + s@,
            Error::MediaCopyError(s) => "media copy failed: "@ + s@,
            Error::MediaDeleteError(s) => "media delete failed: "@ + s@,
            Error::MediaUrlRequired(s) => "media URL is required: "@ + s@,
            Error::MediaPathUpdateNotAllowed(s) => "path update not allowed for media entries: "@ + s@,
            Error::DuplicateEdgeError => "edge already exists between these entries"@,
            Error::EdgeNotFound => "edge not found"@,
            Error::SelfLoopNotAllowed => "an entry cannot be linked to itself"@,
            Error::AddEdgeError(s) => "unable to add edge: "@ + s@,
            Error::RemoveEdgeError(s) => "unable to remove edge: "@ + s@,
            Error::GraphQueryError(s) => "graph query failed: "@ + s@,
            Error::InvalidJsonInput(s) => "invalid JSON input: "@ + s@,
            Error::InvalidTagError(s) => "invalid tag: "@ + s@,
            Error::InvalidMetadataError(s) => "invalid metadata: "@ + s@,
            Error::DuplicateMetadataKeyError(s) => "duplicate metadata key: "@ + s@,
            Error::ConflictingAddFlags(s) => "conflicting add flags: "@ + s@,
        }
    }

    /// The human-readable text of the error (what `Display` prints).
    pub fn message(&self) -> (res: String)
        ensures
            res@ == self.message_view(),
    {
        match self {
            Error::KBNotFound => owned("KB not found"),
            Error::GetKBError(s) => {
                let mut r = owned("unable to get KB: ");
                push_str(&mut r, s.as_str());
                r
            },
            Error::CreateKBError(s) => {
                let mut r = owned("unable to create KB: ");
                push_str(&mut r, s.as_str());
                r
            },
            Error::UpdateKBError(s) => {
                let mut r = owned("unable to update KB: ");
                push_str(&mut r, s.as_str());
                r
            },
            Error::KBWasNotUpdatedError => owned("KB was not updated"),
            Error::DeleteKBError(s) => {
                let mut r = owned("unable to delete KB: ");
                push_str(&mut r, s.as_str());
                r
            },
            Error::DuplicateKBError => owned("KB already exists"),
            Error::SearchError(s) => {
                let mut r = owned("unable to search: ");
                push_str(&mut r, s.as_str());
                r
            },
            Error::ListError(s) => {
                let mut r = owned("unable to list entries: ");
                push_str(&mut r, s.as_str());
                r
            },
            Error::DatabaseQueryError(s) => {
                let mut r = owned("repository query failed: ");
                push_str(&mut r, s.as_str());
                r
            },
            Error::StorageInitError(s) => {
                let mut r = owned("storage init failed: ");
                push_str(&mut r, s.as_str());
                r
            },
            Error::EmbeddingError(s) => {
                let mut r = owned("embedding error: ");
                push_str(&mut r, s.as_str());
                r
            },
            Error::VectorSearchError(s) => {
                let mut r = owned("vector search failed: ");
                push_str(&mut r, s.as_str());
                r
            },
            Error::VectorStoreInitError(s) => {
                let mut r = owned("vector store init failed: ");
                push_str(&mut r, s.as_str());
                r
            },
            Error::ReindexError(s) => {
                let mut r = owned("reindex failed: ");
                push_str(&mut r, s.as_str());
                r
            },
            Error::ImportFileError(s) => {
                let mut r = owned("failed to read import file: ");
                push_str(&mut r, s.as_str());
                r
            },
            Error::ParseImportFileError(s) => {
                let mut r = owned("failed to parse import file: ");
                push_str(&mut r, s.as_str());
                r
            },
            Error::WriteFailedItemsError(s) => {
                let mut r = owned("failed to write failed items file: ");
                push_str(&mut r, s.as_str());
                r
            },
            Error::ExportError(s) => {
                let mut r = owned("export failed: ");
                push_str(&mut r, s.as_str());
                r
            },
            Error::QuoteNotFound => owned("no quotes found in the knowledge base"),
            Error::QuoteError(s) => {
                let mut r = owned("quote error: ");
                push_str(&mut r, s.as_str());
                r
            },
            Error::RandomNotFound(s) => {
                let mut r = owned("no entries found in category: ");
                push_str(&mut r, s.as_str());
                r
            },
            Error::RandomError(s) => {
                let mut r = owned("random lookup failed: ");
                push_str(&mut r, s.as_str());
                r
            },
            Error::MissingRequiredField(s) => {
                let mut r = owned("missing required field: ");
                push_str(&mut r, s.as_str());
                r
            },
            Error::InteractiveInputError(s) => {
                let mut r = owned("interactive input error: ");
                push_str(&mut r, s.as_str());
                r
            },
            Error::ParentKBNotFound => owned("parent KB not found"),
            Error::KBHasChildrenError(s) => {
                let mut r = owned("KB has children, delete them first: ");
                push_str(&mut r, s.as_str());
                r
            },
            Error::InvalidPathError(s) => {
                let mut r = owned("invalid path: ");
                push_str(&mut r, s.as_str());
                r
            },
            Error::MediaDownloadError(s) => {
                let mut r = owned("media download failed: ");
                push_str(&mut r, s.as_str());
                r
            },
            Error::MediaFileNotFoundError(s) => {
                let mut r = owned("media file not found: ");
                push_str(&mut r, s.as_str());
                r
            },
            Error::MediaCopyError(s) => {
                let mut r = owned("media copy failed: ");
                push_str(&mut r, s.as_str());
                r
            },
            Error::MediaDeleteError(s) => {
                let mut r = owned("media delete failed: ");
                push_str(&mut r, s.as_str());
                r
            },
            Error::MediaUrlRequired(s) => {
                let mut r = owned("media URL is required: ");
                push_str(&mut r, s.as_str());
                r
            },
            Error::MediaPathUpdateNotAllowed(s) => {
                let mut r = owned("path update not allowed for media entries: ");
                push_str(&mut r, s.as_str());
                r
            },
            Error::DuplicateEdgeError => owned("edge already exists between these entries"),
            Error::EdgeNotFound => owned("edge not found"),
            Error::SelfLoopNotAllowed => owned("an entry cannot be linked to itself"),
            Error::AddEdgeError(s) => {
                let mut r = owned("unable to add edge: ");
                push_str(&mut r, s.as_str());
                r
            },
            Error::RemoveEdgeError(s) => {
                let mut r = owned("unable to remove edge: ");
                push_str(&mut r, s.as_str());
                r
            },
            Error::GraphQueryError(s) => {
                let mut r = owned("graph query failed: ");
                push_str(&mut r, s.as_str());
                r
            },
            Error::InvalidJsonInput(s) => {
                let mut r = owned("invalid JSON input: ");
                push_str(&mut r, s.as_str());
                r
            },
            Error::InvalidTagError(s) => {
                let mut r = owned("invalid tag: ");
                push_str(&mut r, s.as_str());
                r
            },
            Error::InvalidMetadataError(s) => {
                let mut r = owned("invalid metadata: ");
                push_str(&mut r, s.as_str());
                r
            },
            Error::DuplicateMetadataKeyError(s) => {
                let mut r = owned("duplicate metadata key: ");
                push_str(&mut r, s.as_str());
                r
            },
            Error::ConflictingAddFlags(s) => {
                let mut r = owned("conflicting add flags: ");
                push_str(&mut r, s.as_str());
                r
            },
        }
    }
}

/// Application-level startup / configuration errors.
#[derive(Debug)]
pub enum AppError {
    ConfigError(String),
    StorageError(String),
    EmbeddingSetupError(String),
    CommandError(Error),
}

impl AppError {
    pub open spec fn message_view(&self) -> Seq<char> {
        match self {
            AppError::ConfigError(s) => "config error: "@ + s@,
            AppError::StorageError(s) => "storage error: "@ + s@,
            AppError::EmbeddingSetupError(s) => "embedding setup error: "@ + s@,
            AppError::CommandError(e) => "command failed: "@ + e.message_view(),
        }
    }

    /// The human-readable text of the error.
    pub fn message(&self) -> (res: String)
        ensures
            res@ == self.message_view(),
    {
        let (prefix, rest) = match self {
            AppError::ConfigError(s) => ("config error: ", s.clone()),
            AppError::StorageError(s) => ("storage error: ", s.clone()),
            AppError::EmbeddingSetupError(s) => ("embedding setup error: ", s.clone()),
            AppError::CommandError(e) => ("command failed: ", e.message()),
        };
        let mut r = owned(prefix);
        push_str(&mut r, rest.as_str());
        r
    }
}

} // verus!
