//! Plain descriptions of the entry points the surrounding transport
//! offers — a tool with an input schema — the typed error it reports,
//! and the transport's static configuration.

use vstd::prelude::*;

use crate::annotations::ToolAnnotations;
use crate::strings::spec_views;
use vstd::string::StringExecFns;

verus! {

/// The standard error codes of the surrounding protocol.
pub const ERROR_CODE_NOT_FOUND: i32 = -32000;

pub const ERROR_CODE_NOT_ALLOWED: i32 = -32001;

pub const ERROR_CODE_VALIDATION: i32 = -32002;

pub const ERROR_CODE_AUTHENTICATION: i32 = -32003;

/// One entry point as offered to a client.
#[derive(Debug, Clone)]
pub struct Tool {
    pub name: String,
    pub description: String,
    pub input_schema: InputSchema,
    pub annotations: Option<ToolAnnotations>,
}

/// The shape of an entry point's input object.
#[derive(Debug, Clone)]
pub struct InputSchema {
    pub schema_type: String,
    pub properties: Vec<(String, Property)>,
    pub required: Vec<String>,
}

#[derive(Debug, Clone)]
pub struct Property {
    pub property_type: String,
    pub description: String,
}

/// A typed error: its kind, protocol code, message and optional data
/// payload (as text).
#[derive(Debug, Clone)]
pub struct McpError {
    pub error_type: String,
    pub code: i32,
    pub message: String,
    pub data: Option<String>,
}

impl McpError {
    pub fn new(error_type: &str, code: i32, message: &str) -> (r: Self)
        ensures
            r.error_type@ == error_type@,
            r.code == code,
            r.message@ == message@,
            r.data is None,
    {
        McpError {
            error_type: String::from_str(error_type),
            code,
            message: String::from_str(message),
            data: None,
        }
    }

    pub fn with_data(self, data: &str) -> (r: Self)
        ensures
            r.error_type == self.error_type,
            r.code == self.code,
            r.message == self.message,
            (match r.data {
                Some(d) => d@ == data@,
                None => false,
            }),
    {
        let mut e = self;
        e.data = Some(String::from_str(data));
        e
    }
}

pub fn not_found_error(message: &str) -> (r: McpError)
    ensures
        r.error_type@ == "NotFoundError"@,
        r.code == ERROR_CODE_NOT_FOUND,
        r.message@ == message@,
        r.data is None,
{
    McpError::new("NotFoundError", ERROR_CODE_NOT_FOUND, message)
}

pub fn not_allowed_error(message: &str) -> (r: McpError)
    ensures
        r.error_type@ == "NotAllowedError"@,
        r.code == ERROR_CODE_NOT_ALLOWED,
        r.message@ == message@,
        r.data is None,
{
    McpError::new("NotAllowedError", ERROR_CODE_NOT_ALLOWED, message)
}

pub fn validation_error(message: &str) -> (r: McpError)
    ensures
        r.error_type@ == "ValidationError"@,
        r.code == ERROR_CODE_VALIDATION,
        r.message@ == message@,
        r.data is None,
{
    McpError::new("ValidationError", ERROR_CODE_VALIDATION, message)
}

pub fn authentication_error(message: &str) -> (r: McpError)
    ensures
        r.error_type@ == "AuthenticationError"@,
        r.code == ERROR_CODE_AUTHENTICATION,
        r.message@ == message@,
        r.data is None,
{
    McpError::new("AuthenticationError", ERROR_CODE_AUTHENTICATION, message)
}

/// The transport's static configuration.
#[derive(Debug, Clone)]
pub struct HttpConfig {
    pub port: u16,
    pub host: String,
    pub base_path: String,
    pub cors_origins: Vec<String>,
}

impl Default for HttpConfig {
    fn default() -> (r: Self)
        ensures
            r.port == 3000u16,
            r.host@ == "127.0.0.1"@,
            r.base_path@ == "/api/mcp"@,
            spec_views(r.cors_origins@) == seq!["*"@],
    {
        let mut cors_origins: Vec<String> = Vec::new();
        cors_origins.push(String::from_str("*"));
        assert(spec_views(cors_origins@) =~= seq!["*"@]);
        HttpConfig {
            port: 3000,
            host: String::from_str("127.0.0.1"),
            base_path: String::from_str("/api/mcp"),
            cors_origins,
        }
    }
}

/// The one-parameter input schema shared by the analysis entry points: a
/// required project-root path.
pub fn repo_path_tool(name: &str, description: &str) -> (r: Tool)
    ensures
        r.name@ == name@,
        r.description@ == description@,
        r.input_schema.schema_type@ == "object"@,
        r.input_schema.properties@.len() == 1,
        r.input_schema.properties@[0].0@ == "repo_path"@,
        r.input_schema.properties@[0].1.property_type@ == "string"@,
        r.input_schema.properties@[0].1.description@ == "Absolute path to PHP repository"@,
        spec_views(r.input_schema.required@) == seq!["repo_path"@],
        r.annotations is None,
{
    let mut properties: Vec<(String, Property)> = Vec::new();
    properties.push(
        (
            String::from_str("repo_path"),
            Property {
                property_type: String::from_str("string"),
                description: String::from_str("Absolute path to PHP repository"),
            },
        ),
    );
    let mut required: Vec<String> = Vec::new();
    required.push(String::from_str("repo_path"));
    assert(spec_views(required@) =~= seq!["repo_path"@]);
    Tool {
        name: String::from_str(name),
        description: String::from_str(description),
        input_schema: InputSchema {
            schema_type: String::from_str("object"),
            properties,
            required,
        },
        annotations: None,
    }
}

} // verus!
