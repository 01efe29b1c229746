//! The sections of the server configuration that the logic reads, with their
//! defaults; every section is optional in the file.

use vstd::prelude::*;

verus! {

/// The transport. There is one, `stdio`: the key stays so that a configuration
/// carried over with `http` or `both` is refused at start instead of being
/// silently run over stdio.
#[derive(Debug, Clone)]
pub struct ServerConfig {
    pub mode: String,
}

/// The knowledge base: a ready index under `data_dir`, or a build from the help
/// of the platform.
#[derive(Debug, Clone)]
pub struct KnowledgeConfig {
    pub data_dir: String,
    /// The `bin` directory of the platform; none means searching the standard
    /// places.
    pub platform_dir: Option<String>,
    /// The help language: `ru` or `en`.
    pub help_language: String,
    /// The platform version when the path does not show it.
    pub platform_version: Option<String>,
}

#[derive(Debug, Clone)]
pub struct PromptsConfig {
    pub template_file: String,
}

#[derive(Debug, Clone)]
pub struct LoggingConfig {
    pub level: String,
    pub format: String,
}

/// The default result limit of a search (`[search] max_results`).
pub const DEFAULT_MAX_RESULTS: usize = 10;

impl Default for ServerConfig {
    fn default() -> (res: Self)
        ensures
            res.mode@ == "stdio"@,
    {
        ServerConfig { mode: String::from_str("stdio") }
    }
}

impl Default for KnowledgeConfig {
    fn default() -> (res: Self)
        ensures
            res.data_dir@ == "./data"@,
            res.platform_dir is None,
            res.help_language@ == "ru"@,
            res.platform_version is None,
    {
        KnowledgeConfig {
            data_dir: String::from_str("./data"),
            platform_dir: None,
            help_language: String::from_str("ru"),
            platform_version: None,
        }
    }
}

impl Default for PromptsConfig {
    fn default() -> (res: Self)
        ensures
            res.template_file@ == "./prompts.json"@,
    {
        PromptsConfig { template_file: String::from_str("./prompts.json") }
    }
}

impl Default for LoggingConfig {
    fn default() -> (res: Self)
        ensures
            res.level@ == "info"@,
            res.format@ == "pretty"@,
    {
        LoggingConfig { level: String::from_str("info"), format: String::from_str("pretty") }
    }
}

} // verus!
