use itcoolmcplang1c::capabilities::{get_server_capabilities, get_tools, server_info_tool};
use itcoolmcplang1c::protocol::SERVER_INFO_TOOL;

#[test]
fn test_capabilities() {
    let caps = get_server_capabilities(true);
    assert!(caps.tools.is_some());
    assert!(caps.prompts.is_some());
}

#[test]
fn resources_capability_is_not_advertised() {
    assert!(get_server_capabilities(true).resources.is_none());
}

#[test]
fn prompts_capability_follows_loaded_prompts() {
    assert!(get_server_capabilities(false).prompts.is_none());
    assert!(get_server_capabilities(false).tools.is_some());
}

#[test]
fn test_tools_list() {
    let tools = get_tools();
    let names: Vec<&str> = tools.iter().map(|t| t.name.as_str()).collect();

    assert_eq!(
        names,
        vec![
            "search_1c_docs",
            "get_method_details",
            "find_usage_examples",
            "list_versions",
            "server_info",
        ]
    );
}

#[test]
fn tool_declares_no_arguments() {
    let tool = server_info_tool();

    assert_eq!(tool.name, SERVER_INFO_TOOL);
    assert!(tool.input_schema.properties.is_empty());
    assert!(tool.input_schema.required.is_empty());
}

#[test]
fn search_schema_bounds_the_limit() {
    let tools = get_tools();
    let max = tools[0].input_schema.properties.iter().find(|p| p.name == "max_results").unwrap();
    assert_eq!(max.minimum, Some(1));
    assert_eq!(max.maximum, Some(500));
    assert_eq!(tools[0].input_schema.required, vec!["query"]);
}
