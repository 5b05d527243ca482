//! Core data types and the pure rules over them: entries, paths, metadata,
//! tags and graph relationships.

pub mod graph;
pub mod kb;
pub mod metadata;
pub mod paths;
pub mod tag_suggestion;
pub mod unicode;

pub use graph::{
    EdgeDirection, ExportDocument, ExportEdgeItem, FailedImportEdgeItem, GraphExport,
    GraphExportEdge, GraphExportNode, GraphNode, GraphViewParams, ImportDocument,
    ImportEdgeBatchResult, ImportEdgeItem, IncomingEdge, KbEdge, LinkParams, NewKbEdge,
    OutgoingEdge, RelatedEdges, RelatedQuery, RelatedResult, RemoveEdgeParams, TreeNode,
    TreeQuery, TreeResult, TreeRoot, TreeWalkParams,
};
pub use kb::{
    AddJsonInput, EmbeddingInput, ExportKbItem, ExportMediaParams, FailedImportItem,
    ImportBatchResult, ImportKbItem, Kb, KbFilter, KbItem, KbUpdate, NewKb, OutputFormat,
    ReindexResult, StoreMediaParams, dedup_tags,
};
pub use metadata::{Metadata, build_metadata, format_metadata, parse_metadata_input};
pub use paths::{MediaPathParams, file_extension, is_media_category, media_file_path, normalize_path};
pub use tag_suggestion::{TagSuggestionInput, suggest_tags};
