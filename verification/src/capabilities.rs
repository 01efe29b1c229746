//! What the server declares: its capabilities and its tools with their input
//! schemas.

use vstd::prelude::*;
use crate::handler::{tool_step, StepModel};
use crate::protocol::{PromptsCapability, ServerCapabilities, ToolsCapability, SERVER_INFO_TOOL};

verus! {

/// Capabilities of the server for whether prompts are loaded.
pub open spec fn get_server_capabilities_spec(has_prompts: bool) -> ServerCapabilities {
    ServerCapabilities {
        tools: Some(ToolsCapability { list_changed: false }),
        resources: None,
        prompts: if has_prompts { Some(PromptsCapability { list_changed: false }) } else { None },
    }
}

/// Capabilities of the server. Tools are always there (the list never
/// changes); resources are never declared, as `resources/read` is not served;
/// prompts are declared only when prompts are loaded.
pub fn get_server_capabilities(has_prompts: bool) -> (res: ServerCapabilities)
    ensures
        res.tools == Some(ToolsCapability { list_changed: false }),
        res.resources is None,
        res.prompts == (if has_prompts { Some(PromptsCapability { list_changed: false }) } else { None }),
        res == get_server_capabilities_spec(has_prompts),
{
    ServerCapabilities {
        tools: Some(ToolsCapability { list_changed: false }),
        resources: None,
        prompts: if has_prompts { Some(PromptsCapability { list_changed: false }) } else { None },
    }
}

/// The default of a schema property.
#[derive(Debug, Clone, Copy)]
pub enum PropertyDefault {
    Text(&'static str),
    Flag(bool),
    Number(u64),
}

/// A property of a tool's input schema.
#[derive(Debug, Clone)]
pub struct SchemaProperty {
    pub name: &'static str,
    /// The JSON type: `string`, `boolean`, `integer`.
    pub kind: &'static str,
    pub description: &'static str,
    pub default: Option<PropertyDefault>,
    /// The allowed values, when the property is an enumeration.
    pub choices: Vec<&'static str>,
    pub minimum: Option<u64>,
    pub maximum: Option<u64>,
}

/// The input schema of a tool: an object with these properties.
#[derive(Debug, Clone)]
pub struct InputSchema {
    pub properties: Vec<SchemaProperty>,
    pub required: Vec<&'static str>,
}

/// A tool for `tools/list`.
#[derive(Debug, Clone)]
pub struct Tool {
    pub name: String,
    pub description: String,
    pub input_schema: InputSchema,
}

/// A property as text: name, type, description, default, choices, bounds.
pub open spec fn property_view(p: SchemaProperty) -> (Seq<char>, Seq<char>, Seq<char>, Option<PropertyDefault>, Seq<Seq<char>>, Option<u64>, Option<u64>) {
    (p.name@, p.kind@, p.description@, p.default, p.choices@.map_values(|c: &'static str| c@), p.minimum, p.maximum)
}

/// A tool as text: name, description, properties, required properties.
pub open spec fn tool_view(t: Tool) -> (Seq<char>, Seq<char>, Seq<(Seq<char>, Seq<char>, Seq<char>, Option<PropertyDefault>, Seq<Seq<char>>, Option<u64>, Option<u64>)>, Seq<Seq<char>>) {
    (
        t.name@,
        t.description@,
        t.input_schema.properties@.map_values(|p: SchemaProperty| property_view(p)),
        t.input_schema.required@.map_values(|r: &'static str| r@),
    )
}

fn property(
    name: &'static str,
    kind: &'static str,
    description: &'static str,
    default: Option<PropertyDefault>,
    choices: Vec<&'static str>,
    minimum: Option<u64>,
    maximum: Option<u64>,
) -> (res: SchemaProperty)
    ensures
        property_view(res) == (name@, kind@, description@, default, choices@.map_values(|c: &'static str| c@), minimum, maximum),
{
    SchemaProperty { name, kind, description, default, choices, minimum, maximum }
}

/// The schema property of the `version` argument.
pub open spec fn version_property(description: Seq<char>) -> (Seq<char>, Seq<char>, Seq<char>, Option<PropertyDefault>, Seq<Seq<char>>, Option<u64>, Option<u64>) {
    ("version"@, "string"@, description, Some(PropertyDefault::Text("latest")), Seq::empty(), None, None)
}

/// The tools the server declares, in order.
pub open spec fn declared_tools() -> Seq<(Seq<char>, Seq<char>, Seq<(Seq<char>, Seq<char>, Seq<char>, Option<PropertyDefault>, Seq<Seq<char>>, Option<u64>, Option<u64>)>, Seq<Seq<char>>)> {
    seq![
        (
            "search_1c_docs"@,
            "Поиск по документации 1С:Предприятие с учётом версии, контекста выполнения и связей между объектами"@,
            seq![
                ("query"@, "string"@, "Поисковый запрос (русский/английский)"@, None, Seq::empty(), None, None),
                version_property("Версия платформы (например, '8.3.25'); 'latest' — старшая загруженная. Состав базы знаний показывает list_versions"@),
                ("context"@, "string"@, "Контекст выполнения кода"@, None, seq!["client"@, "server"@, "both"@], None, None),
                ("include_related"@, "boolean"@, "Включить связанные объекты в граф"@, Some(PropertyDefault::Flag(true)), Seq::empty(), None, None),
                ("max_results"@, "integer"@, "Максимальное количество результатов; по умолчанию — значение [search] max_results из конфига сервера"@, None, Seq::empty(), Some(1u64), Some(500u64)),
            ],
            seq!["query"@],
        ),
        (
            "get_method_details"@,
            "Получение подробной информации о методе API 1С, включая параметры, возвращаемые значения и примеры использования"@,
            seq![
                ("method_name"@, "string"@, "Имя метода API"@, None, Seq::empty(), None, None),
                version_property("Версия платформы; 'latest' — старшая загруженная. Состав базы знаний показывает list_versions"@),
                ("include_examples"@, "boolean"@, "Включить примеры использования"@, Some(PropertyDefault::Flag(true)), Seq::empty(), None, None),
            ],
            seq!["method_name"@],
        ),
        (
            "find_usage_examples"@,
            "Поиск примеров использования конкретного API объекта или метода в документации"@,
            seq![
                ("entity_name"@, "string"@, "Имя API объекта или метода"@, None, Seq::empty(), None, None),
                version_property("Версия платформы; 'latest' — старшая загруженная. Состав базы знаний показывает list_versions"@),
                ("max_examples"@, "integer"@, "Максимальное количество примеров"@, Some(PropertyDefault::Number(5u64)), Seq::empty(), Some(1u64), Some(20u64)),
            ],
            seq!["entity_name"@],
        ),
        (
            "list_versions"@,
            "Версии документации 1С, загруженные в базу знаний, с наполнением каждой"@,
            Seq::empty(),
            Seq::empty(),
        ),
        (
            "server_info"@,
            "Имя сервера, версия с меткой сборки и сводка о загруженных данных. Этим отвечают на вопрос «какая версия инструмента» — версию называет сам сервер, а не файл на диске."@,
            Seq::empty(),
            Seq::empty(),
        ),
    ]
}

/// The `server_info` tool: no arguments.
pub fn server_info_tool() -> (res: Tool)
    ensures
        tool_view(res) == declared_tools()[4],
{
    let t = Tool {
        name: String::from_str(SERVER_INFO_TOOL),
        description: String::from_str("Имя сервера, версия с меткой сборки и сводка о загруженных данных. Этим отвечают на вопрос «какая версия инструмента» — версию называет сам сервер, а не файл на диске."),
        input_schema: InputSchema { properties: Vec::new(), required: Vec::new() },
    };
    proof {
        assert(t.input_schema.properties@.map_values(|p: SchemaProperty| property_view(p)) =~= Seq::empty());
        assert(t.input_schema.required@.map_values(|r: &'static str| r@) =~= Seq::empty());
    }
    t
}

/// The tools of the server, in order.
pub fn get_tools() -> (res: Vec<Tool>)
    ensures
        res@.map_values(|t: Tool| tool_view(t)) == declared_tools(),
{
    let version_search = "Версия платформы (например, '8.3.25'); 'latest' — старшая загруженная. Состав базы знаний показывает list_versions";
    let version_other = "Версия платформы; 'latest' — старшая загруженная. Состав базы знаний показывает list_versions";

    let mut search_props: Vec<SchemaProperty> = Vec::new();
    search_props.push(property("query", "string", "Поисковый запрос (русский/английский)", None, Vec::new(), None, None));
    search_props.push(property("version", "string", version_search, Some(PropertyDefault::Text("latest")), Vec::new(), None, None));
    let mut contexts: Vec<&'static str> = Vec::new();
    contexts.push("client");
    contexts.push("server");
    contexts.push("both");
    assert(contexts@.map_values(|c: &'static str| c@) =~= seq!["client"@, "server"@, "both"@]);
    search_props.push(property("context", "string", "Контекст выполнения кода", None, contexts, None, None));
    search_props.push(property("include_related", "boolean", "Включить связанные объекты в граф", Some(PropertyDefault::Flag(true)), Vec::new(), None, None));
    search_props.push(property("max_results", "integer", "Максимальное количество результатов; по умолчанию — значение [search] max_results из конфига сервера", None, Vec::new(), Some(1), Some(500)));

    let mut details_props: Vec<SchemaProperty> = Vec::new();
    details_props.push(property("method_name", "string", "Имя метода API", None, Vec::new(), None, None));
    details_props.push(property("version", "string", version_other, Some(PropertyDefault::Text("latest")), Vec::new(), None, None));
    details_props.push(property("include_examples", "boolean", "Включить примеры использования", Some(PropertyDefault::Flag(true)), Vec::new(), None, None));

    let mut usage_props: Vec<SchemaProperty> = Vec::new();
    usage_props.push(property("entity_name", "string", "Имя API объекта или метода", None, Vec::new(), None, None));
    usage_props.push(property("version", "string", version_other, Some(PropertyDefault::Text("latest")), Vec::new(), None, None));
    usage_props.push(property("max_examples", "integer", "Максимальное количество примеров", Some(PropertyDefault::Number(5)), Vec::new(), Some(1), Some(20)));

    let mut tools: Vec<Tool> = Vec::new();
    tools.push(Tool {
        name: String::from_str("search_1c_docs"),
        description: String::from_str("Поиск по документации 1С:Предприятие с учётом версии, контекста выполнения и связей между объектами"),
        input_schema: InputSchema { properties: search_props, required: vec!["query"] },
    });
    tools.push(Tool {
        name: String::from_str("get_method_details"),
        description: String::from_str("Получение подробной информации о методе API 1С, включая параметры, возвращаемые значения и примеры использования"),
        input_schema: InputSchema { properties: details_props, required: vec!["method_name"] },
    });
    tools.push(Tool {
        name: String::from_str("find_usage_examples"),
        description: String::from_str("Поиск примеров использования конкретного API объекта или метода в документации"),
        input_schema: InputSchema { properties: usage_props, required: vec!["entity_name"] },
    });
    tools.push(Tool {
        name: String::from_str("list_versions"),
        description: String::from_str("Версии документации 1С, загруженные в базу знаний, с наполнением каждой"),
        input_schema: InputSchema { properties: Vec::new(), required: Vec::new() },
    });
    tools.push(server_info_tool());
    proof {
        let views = tools@.map_values(|t: Tool| tool_view(t));
        assert(views[0] == declared_tools()[0]) by {
            let pv = tools@[0].input_schema.properties@.map_values(|p: SchemaProperty| property_view(p));
            assert(pv[0] == declared_tools()[0].2[0]);
            assert(pv[1] == declared_tools()[0].2[1]);
            assert(pv[2] == declared_tools()[0].2[2]);
            assert(pv[3] == declared_tools()[0].2[3]);
            assert(pv[4] == declared_tools()[0].2[4]);
            assert(tools@[0].input_schema.properties@.map_values(|p: SchemaProperty| property_view(p)) =~= declared_tools()[0].2);
            assert(tools@[0].input_schema.required@.map_values(|r: &'static str| r@) =~= declared_tools()[0].3);
        }
        assert(views[1] == declared_tools()[1]) by {
            assert(tools@[1].input_schema.properties@.map_values(|p: SchemaProperty| property_view(p)) =~= declared_tools()[1].2);
            assert(tools@[1].input_schema.required@.map_values(|r: &'static str| r@) =~= declared_tools()[1].3);
        }
        assert(views[2] == declared_tools()[2]) by {
            assert(tools@[2].input_schema.properties@.map_values(|p: SchemaProperty| property_view(p)) =~= declared_tools()[2].2);
            assert(tools@[2].input_schema.required@.map_values(|r: &'static str| r@) =~= declared_tools()[2].3);
        }
        assert(views[3] == declared_tools()[3]) by {
            assert(tools@[3].input_schema.properties@.map_values(|p: SchemaProperty| property_view(p)) =~= declared_tools()[3].2);
            assert(tools@[3].input_schema.required@.map_values(|r: &'static str| r@) =~= declared_tools()[3].3);
        }
        assert(views =~= declared_tools());
    }
    tools
}

/// Every declared tool is known to `tools/call`: whatever the base holds and
/// whatever the arguments, a call of a declared tool is answered, or refused
/// only for a missing required argument, never as an unknown tool.
pub proof fn declared_tools_are_dispatched(
    docs: Seq<crate::schema::Document>,
    vs: Seq<Seq<char>>,
    hint: Option<Seq<char>>,
    server_name: Seq<char>,
    server_version: Seq<char>,
    default_max: nat,
    k: int,
    args: Seq<(String, crate::handler::ArgValue)>,
)
    requires
        0 <= k < declared_tools().len(),
    ensures
        ({
            let step = tool_step(docs, vs, hint, server_name, server_version, default_max, declared_tools()[k].0, args);
            ||| step is Ok
            ||| step == Err::<StepModel, Seq<char>>("ru: Отсутствует query, en: Missing query parameter"@)
            ||| step == Err::<StepModel, Seq<char>>("ru: Отсутствует method_name, en: Missing method_name parameter"@)
            ||| step == Err::<StepModel, Seq<char>>("ru: Отсутствует entity_name, en: Missing entity_name parameter"@)
        }),
{
    reveal_strlit("search_1c_docs");
    reveal_strlit("get_method_details");
    reveal_strlit("find_usage_examples");
    reveal_strlit("list_versions");
    reveal_strlit("server_info");
}

} // verus!
