//! MCP wire types: what travels in the `result`/`params` of JSON-RPC. The
//! camelCase wire form is the transport's concern; here are the values.

use vstd::prelude::*;
use crate::text::{push_str, string_of};

verus! {

/// The MCP protocol revision the server announces in its `initialize` answer.
pub const MCP_PROTOCOL_VERSION: &'static str = "2024-11-05";

/// Name of the tool that reports the server's build. The same on every server.
pub const SERVER_INFO_TOOL: &'static str = "server_info";

/// Client information sent with `initialize`.
#[derive(Debug, Clone)]
pub struct ClientInfo {
    pub name: String,
    pub version: String,
}

/// Server information returned from `initialize`.
#[derive(Debug, Clone)]
pub struct ServerInfo {
    pub name: String,
    pub version: String,
    /// A one-line summary of the data the server actually sees.
    pub data: Option<String>,
}

#[derive(Debug, Clone)]
pub struct ToolsCapability {
    pub list_changed: bool,
}

#[derive(Debug, Clone)]
pub struct ResourcesCapability {
    pub subscribe: bool,
    pub list_changed: bool,
}

#[derive(Debug, Clone)]
pub struct PromptsCapability {
    pub list_changed: bool,
}

/// Server capabilities; an undeclared section is `None`.
#[derive(Debug, Clone)]
pub struct ServerCapabilities {
    pub tools: Option<ToolsCapability>,
    pub resources: Option<ResourcesCapability>,
    pub prompts: Option<PromptsCapability>,
}

impl Default for ToolsCapability {
    fn default() -> (res: Self)
        ensures
            !res.list_changed,
    {
        ToolsCapability { list_changed: false }
    }
}

impl Default for ResourcesCapability {
    fn default() -> (res: Self)
        ensures
            !res.subscribe && !res.list_changed,
    {
        ResourcesCapability { subscribe: false, list_changed: false }
    }
}

impl Default for PromptsCapability {
    fn default() -> (res: Self)
        ensures
            !res.list_changed,
    {
        PromptsCapability { list_changed: false }
    }
}

impl Default for ServerCapabilities {
    fn default() -> (res: Self)
        ensures
            res.tools is None && res.resources is None && res.prompts is None,
    {
        ServerCapabilities { tools: None, resources: None, prompts: None }
    }
}

/// The `initialize` result.
#[derive(Debug, Clone)]
pub struct InitializeResult {
    pub protocol_version: String,
    pub capabilities: ServerCapabilities,
    pub server_info: ServerInfo,
}

/// A block of a tool's or a prompt's answer.
#[derive(Debug, Clone)]
pub enum Content {
    Text { text: String },
    Image { data: String, mime_type: String },
}

impl Content {
    /// A text block.
    pub fn text(text: &str) -> (res: Content)
        ensures
            res matches Content::Text { text: t } && t@ == text@,
    {
        Content::Text { text: String::from_str(text) }
    }
}

/// The `tools/call` result. `result_count` is the machine-readable number of
/// found items; an empty answer is not a failure.
#[derive(Debug, Clone)]
pub struct ToolCallResult {
    pub content: Vec<Content>,
    pub is_error: Option<bool>,
    pub result_count: Option<usize>,
}

impl ToolCallResult {
    /// A result of a single text block, with no error flag and no count.
    pub fn text(text: &str) -> (res: Self)
        ensures
            res.content@.len() == 1,
            res.content@[0] matches Content::Text { text: t } && t@ == text@,
            res.is_error is None,
            res.result_count is None,
    {
        let mut content: Vec<Content> = Vec::new();
        content.push(Content::text(text));
        ToolCallResult { content, is_error: None, result_count: None }
    }

    /// A successful answer of an enumerating tool: the text and the number of
    /// found items. Zero is the regular "not found" answer, not a failure.
    pub fn found(text: &str, count: usize) -> (res: Self)
        ensures
            res.content@.len() == 1,
            res.content@[0] matches Content::Text { text: t } && t@ == text@,
            res.is_error == Some(false),
            res.result_count == Some(count),
    {
        let mut content: Vec<Content> = Vec::new();
        content.push(Content::text(text));
        ToolCallResult { content, is_error: Some(false), result_count: Some(count) }
    }
}

/// A resource for `resources/list`.
#[derive(Debug, Clone)]
pub struct Resource {
    pub uri: String,
    pub name: String,
    pub description: Option<String>,
    pub mime_type: Option<String>,
}

/// The `resources/list` result.
#[derive(Debug, Clone)]
pub struct ResourcesListResult {
    pub resources: Vec<Resource>,
}

/// The `resources/read` parameters.
#[derive(Debug, Clone)]
pub struct ResourceReadParams {
    pub uri: String,
}

/// The contents of one resource.
#[derive(Debug, Clone)]
pub struct ResourceContents {
    pub uri: String,
    pub mime_type: String,
    pub text: String,
}

/// The `resources/read` result.
#[derive(Debug, Clone)]
pub struct ResourceReadResult {
    pub contents: Vec<ResourceContents>,
}

/// A prompt for `prompts/list`.
#[derive(Debug, Clone)]
pub struct Prompt {
    pub name: String,
    pub description: Option<String>,
    pub arguments: Option<Vec<PromptArgument>>,
}

/// An argument of a listed prompt.
#[derive(Debug, Clone)]
pub struct PromptArgument {
    pub name: String,
    pub description: Option<String>,
    pub required: bool,
}

/// The `prompts/get` parameters; the arguments as name–value pairs with
/// distinct names.
#[derive(Debug, Clone)]
pub struct GetPromptParams {
    pub name: String,
    pub arguments: Vec<(String, String)>,
}

/// The `prompts/get` result.
#[derive(Debug, Clone)]
pub struct GetPromptResult {
    pub description: Option<String>,
    pub messages: Vec<PromptMessage>,
}

#[derive(Debug, Clone)]
pub struct PromptMessage {
    pub role: String,
    pub content: Content,
}

/// The answer of the `server_info` tool: the version line and, when the
/// server has something to say about its data, a second line with it.
pub open spec fn server_info_line(name: Seq<char>, version: Seq<char>, data: Option<Seq<char>>) -> Seq<char> {
    match data {
        Some(d) => name + " "@ + version + "\nданные: "@ + d,
        None => name + " "@ + version,
    }
}

/// The text of the `server_info` tool's answer.
pub fn server_info_text(name: &str, version: &str, data: Option<&str>) -> (res: String)
    ensures
        res@ == server_info_line(name@, version@, match data { Some(d) => Some(d@), None => None }),
{
    let mut out: Vec<char> = Vec::new();
    push_str(&mut out, name);
    push_str(&mut out, " ");
    push_str(&mut out, version);
    match data {
        Some(d) => {
            push_str(&mut out, "\nданные: ");
            push_str(&mut out, d);
        },
        None => {},
    }
    string_of(&out)
}

} // verus!
