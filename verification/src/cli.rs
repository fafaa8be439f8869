//! The command line, as plain data: which subcommand runs with which arguments.

use vstd::prelude::*;

verus! {

/// The global options and the subcommand of one invocation.
#[derive(Debug)]
pub struct Cli {
    pub command: Command,
    pub format: Format,
    /// Compact JSON output (no-op for YAML). JSON is pretty by default.
    pub compact: bool,
    /// JSON: top-level array on multiple lines, each element on one line.
    pub lines: bool,
    /// Resolve $ref inline (default).
    pub resolve_refs: bool,
    pub no_resolve_refs: bool,
    pub max_depth: Option<usize>,
    /// Emit `null` for expected-but-absent fields instead of omitting the key.
    pub show_null: bool,
}

impl Cli {
    pub fn should_resolve_refs(&self) -> (r: bool)
        ensures
            r == !self.no_resolve_refs,
    {
        !self.no_resolve_refs
    }
}

/// Output format.
#[derive(Debug, Clone, Copy, PartialEq, Eq, Structural)]
pub enum Format {
    Json,
    Yaml,
}

/// Extra fields of an `operations` entry.
#[derive(Debug, Clone, Copy, PartialEq, Eq, Structural)]
pub enum OperationField {
    Summary,
    Description,
    Tags,
    Parameters,
    Request,
    Response,
    Security,
    Deprecated,
    OperationId,
    /// Expands to every other field.
    All,
}

/// Fields of a `statuses` record.
#[derive(Debug, Clone, Copy, PartialEq, Eq, Structural)]
pub enum StatusField {
    Description,
    Headers,
    Schema,
    Content,
    /// Expands to every other field.
    All,
}

/// Fields of a `search` hit.
#[derive(Debug, Clone, Copy, PartialEq, Eq, Structural)]
pub enum SearchField {
    Pointer,
    JsonPath,
    Path,
    OperationRef,
    At,
    Value,
    /// Expands to every other field.
    All,
}

/// The subcommands.
#[derive(Debug)]
pub enum Command {
    /// Emit the spec version string (openapi 3.x or swagger 2.0).
    Spec { file: String },
    /// Show title, version, description, contact, license.
    Info { file: String },
    /// Show counts: paths, operations, schemas, tags, methods.
    Stats { file: String },
    /// Combined info + stats + operations.
    Overview { file: String },
    /// List path strings (keys of the `paths` object).
    Paths { file: String, filters: Vec<String> },
    /// List operations (method + path, with configurable extras).
    Operations { file: String, filters: Vec<String>, op_show: Vec<OperationField>, op_hide: Vec<OperationField> },
    /// Show a single operation with every field, $refs resolved.
    Operation { args: Vec<String>, method: Option<String>, path: Option<String> },
    /// List requestBodies of operations that have one.
    Requests { file: String },
    /// Show the requestBody of a single operation, $refs resolved.
    Request { args: Vec<String>, method: Option<String>, path: Option<String> },
    /// List responses of every operation. Optionally narrow to one status.
    Responses { file: String, status: Option<String> },
    /// Show the responses of a single operation, $refs resolved.
    Response { args: Vec<String>, method: Option<String>, path: Option<String>, status: Option<String> },
    /// List unique status codes used across the spec with a description.
    Statuses { file: String, status_show: Vec<StatusField>, status_hide: Vec<StatusField> },
    /// Search string values in the spec for a keyword.
    Search {
        keyword: String,
        file: String,
        regex: bool,
        case_sensitive: bool,
        hit_show: Vec<SearchField>,
        hit_hide: Vec<SearchField>,
    },
    /// List declared and referenced tags with operation counts.
    Tags { file: String },
    /// Show component sections and the names defined in each.
    Components { file: String },
    /// List component schema names.
    Schemas { file: String },
    /// Show a single component schema definition.
    Schema { name: String, file: String },
    /// Validate a spec against the OpenAPI 3.x schema.
    Validate { file: String },
    /// Convert a spec to a target version.
    Convert { target: String, file: String },
}

} // verus!
