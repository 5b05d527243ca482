//! The inputs of the command-line operations, as parsed from the arguments.

use vstd::prelude::*;

use crate::domain::kb::KbUpdate;

verus! {

/// `kb get`: by key or by id, an output format and which relationships to
/// show.
pub struct GetParams {
    pub key: Option<String>,
    pub id: Option<String>,
    pub base_dir: String,
    pub out: Option<String>,
    pub with_out_connections: bool,
    pub with_in_connections: bool,
    pub with_all_connections: bool,
}

/// `kb update`: the update and an output format.
pub struct UpdateParams {
    pub update: KbUpdate,
    pub out: Option<String>,
}

/// `kb delete`: the id and an output format.
pub struct DeleteParams {
    pub id: String,
    pub out: Option<String>,
}

/// `kb categories`: an optional namespace and an output format.
pub struct CategoriesParams {
    pub namespace: Option<String>,
    pub out: Option<String>,
}

/// `kb import`: the file to read and where to write what failed.
pub struct ImportParams {
    pub file: String,
    pub failed_items_file: String,
    pub failed_edges_file: String,
}

/// `kb search`: the filters, the page and an output format.
pub struct SearchParams {
    pub keyword: Option<String>,
    pub category: Option<String>,
    pub namespace: Option<String>,
    pub tags: Vec<String>,
    pub reference: Option<String>,
    pub limit: i64,
    pub offset: i64,
    pub out: Option<String>,
}

/// `kb add`: the fields given as flags, or a whole entry as JSON.
pub struct AddParams {
    pub key: Option<String>,
    pub value: Option<String>,
    pub notes: String,
    pub category: String,
    pub namespace: String,
    pub reference: String,
    pub tags: Vec<String>,
    pub metadata: Vec<(String, String)>,
    pub interactive: bool,
    pub parent: Option<String>,
    pub path: Option<String>,
    pub media_url: Option<String>,
    pub json: Option<String>,
}

/// `kb export`: where to write and which entries.
pub struct ExportParams {
    pub file_name: Option<String>,
    pub folder_output: String,
    pub category: Option<String>,
    pub namespace: Option<String>,
    pub limit: Option<i64>,
    pub offset: Option<i64>,
}

/// `kb unlink`: both ends, as key or id.
pub struct UnlinkParams {
    pub from: String,
    pub to: String,
}

/// `kb related`: the entry, the direction and whether to print JSON.
pub struct RelatedParams {
    pub key_or_id: String,
    pub direction: String,
    pub json: bool,
}

/// `kb tree`: the root, the direction, the depth and whether to print JSON.
pub struct TreeParams {
    pub key_or_id: String,
    pub direction: String,
    pub depth: i64,
    pub json: bool,
}

/// `kb graph`: the root, the direction and the depth of the view.
pub struct GraphViewCliParams {
    pub key_or_id: String,
    pub direction: String,
    pub depth: i64,
}

} // verus!
