use itcoolmcplang1c::capabilities::get_tools;
use itcoolmcplang1c::handler::{
    context_label, finish_search, format_method_details, format_usage_examples, handle_prompts_get,
    handle_prompts_list, handle_tools_call, knowledge_summary, parse_context, route, ArgValue, Failure,
    Route, ToolCallParams, ToolStep,
};
use itcoolmcplang1c::knowledge::{Hit, KnowledgeBase, UsageExample};
use itcoolmcplang1c::progress::{Outcome, Progress};
use itcoolmcplang1c::prompts::{PromptArgument, PromptTemplate, PromptsCollection, PromptsEngine};
use itcoolmcplang1c::protocol::{Content, GetPromptParams, ServerInfo, ToolCallResult};
use itcoolmcplang1c::schema::{ApiMethod, Document, Example, ExecutionContext, Parameter};

fn doc(version: &str, method: ApiMethod) -> Document {
    Document {
        version: version.to_string(),
        platform: "1С:Предприятие".to_string(),
        release_date: None,
        sections: vec![],
        api_methods: vec![method],
        api_objects: vec![],
        relationships: vec![],
    }
}

fn method_with_everything() -> ApiMethod {
    ApiMethod {
        name: "ЗначениеЗаполнено".to_string(),
        description: "Проверяет заполненность значения.".to_string(),
        context: ExecutionContext::Both,
        parameters: vec![Parameter {
            name: "Значение".to_string(),
            param_type: "Произвольный".to_string(),
            required: true,
            description: "Значение для проверки.".to_string(),
        }],
        return_type: Some("Булево".to_string()),
        examples: vec![Example {
            title: None,
            code: "Если ЗначениеЗаполнено(Товар) Тогда".to_string(),
            description: None,
        }],
        notes: vec!["Для неопределённых типов возвращает Ложь.".to_string()],
    }
}

fn bare_method() -> ApiMethod {
    ApiMethod {
        name: "ТекущаяДата".to_string(),
        description: "Возвращает дату сеанса.".to_string(),
        context: ExecutionContext::Server,
        parameters: vec![],
        return_type: None,
        examples: vec![],
        notes: vec![],
    }
}

fn kb_with(docs: Vec<Document>) -> KnowledgeBase {
    let mut kb = KnowledgeBase::new();
    for d in docs {
        kb.add_document(d).unwrap();
    }
    kb
}

fn server() -> ServerInfo {
    ServerInfo { name: "itcoolmcplang1c".to_string(), version: "0.7.0".to_string(), data: None }
}

fn params(name: &str, args: Vec<(&str, ArgValue)>) -> ToolCallParams {
    ToolCallParams {
        name: name.to_string(),
        arguments: args.into_iter().map(|(k, v)| (k.to_string(), v)).collect(),
    }
}

fn s(v: &str) -> ArgValue {
    ArgValue::Str(v.to_string())
}

fn text_of(result: &ToolCallResult) -> String {
    match &result.content[0] {
        Content::Text { text } => text.clone(),
        other => panic!("{:?}", other),
    }
}

fn answer(kb: &KnowledgeBase, name: &str, args: Vec<(&str, ArgValue)>) -> ToolCallResult {
    match handle_tools_call(kb, &Progress::new(), &server(), 10, &params(name, args)).unwrap() {
        ToolStep::Answer(r) => r,
        ToolStep::Search(req) => {
            let hits: Vec<Hit> = kb
                .versions()
                .iter()
                .flat_map(|v| {
                    (0..20).map(move |i| Hit {
                        doc_id: v.clone(),
                        section_id: format!("method_Сообщить{i}"),
                        score: "1.00".to_string(),
                    })
                })
                .collect();
            finish_search(kb, &req, &hits)
        }
    }
}

#[test]
fn missing_version_is_reported_not_silently_empty() {
    let kb = kb_with(vec![doc("8.3.27", method_with_everything())]);

    let text = text_of(&answer(&kb, "search_1c_docs", vec![("query", s("ЗначениеЗаполнено")), ("version", s("8.3.14"))]));

    assert!(text.contains("8.3.14"), "нет запрошенной версии: {}", text);
    assert!(text.contains("8.3.27"), "нет состава базы: {}", text);
    assert!(!text.contains("не найдены") && !text.contains("Результаты не найдены"), "{}", text);
    assert_eq!(text, "Версия 8.3.14 в базе знаний отсутствует. Загружены: 8.3.27.");
}

#[test]
fn list_versions_reports_loaded_versions() {
    let kb = kb_with(vec![doc("8.3.9", bare_method()), doc("8.3.27", method_with_everything())]);

    let result = answer(&kb, "list_versions", vec![]);
    let text = text_of(&result);

    assert!(text.contains("8.3.27"), "{}", text);
    assert!(text.contains("8.3.9"), "{}", text);
    assert!(text.contains("методов: 1"), "нет наполнения версии: {}", text);
    let latest_line = text.lines().find(|l| l.contains("(latest)")).unwrap_or("");
    assert!(latest_line.contains("8.3.27"), "latest не та: {}", text);
    assert_eq!(result.result_count, Some(2));
}

fn kb_with_methods(count: usize) -> KnowledgeBase {
    let mut kb = KnowledgeBase::new();
    kb.add_document(Document {
        version: "8.3.27".to_string(),
        platform: "1С:Предприятие".to_string(),
        release_date: None,
        sections: vec![],
        api_methods: (0..count)
            .map(|i| ApiMethod {
                name: format!("Сообщить{i}"),
                description: "Выводит сообщение пользователю.".to_string(),
                context: ExecutionContext::Both,
                parameters: vec![],
                return_type: None,
                examples: vec![],
                notes: vec![],
            })
            .collect(),
        api_objects: vec![],
        relationships: vec![],
    })
    .unwrap();
    kb
}

#[test]
fn search_max_results_argument_overrides_config() {
    let kb = kb_with_methods(5);

    let unbounded = answer(&kb, "search_1c_docs", vec![("query", s("сообщение"))]);
    let bounded = answer(&kb, "search_1c_docs", vec![("query", s("сообщение")), ("max_results", ArgValue::UInt(2))]);

    assert!(unbounded.result_count.unwrap() >= 3, "{:?}", unbounded);
    assert_eq!(bounded.result_count, Some(2));
    let huge = answer(&kb, "search_1c_docs", vec![("query", s("сообщение")), ("max_results", ArgValue::UInt(100000))]);
    assert_eq!(huge.result_count, Some(5));
}

#[test]
fn empty_search_reports_zero_result_count() {
    let kb = kb_with_methods(3);
    let req = match handle_tools_call(&kb, &Progress::new(), &server(), 10, &params("search_1c_docs", vec![("query", s("ЗаведомоНетТакогоМетода12345"))])).unwrap() {
        ToolStep::Search(r) => r,
        other => panic!("{:?}", other),
    };

    let result = finish_search(&kb, &req, &[]);

    assert_eq!(result.is_error, Some(false));
    assert_eq!(result.result_count, Some(0));
    assert_eq!(
        text_of(&result),
        "ru: Результаты не найдены для запроса 'ЗаведомоНетТакогоМетода12345', en: No results found for query 'ЗаведомоНетТакогоМетода12345'"
    );
}

#[test]
fn search_request_carries_the_arguments() {
    let kb = kb_with_methods(1);
    let step = handle_tools_call(
        &kb,
        &Progress::new(),
        &server(),
        7,
        &params(
            "search_1c_docs",
            vec![("query", s("q")), ("context", s("server")), ("include_related", ArgValue::Bool(false)), ("version", s("latest"))],
        ),
    )
    .unwrap();
    match step {
        ToolStep::Search(req) => {
            assert_eq!(req.query, "q");
            assert_eq!(req.version, "8.3.27");
            assert_eq!(req.context, Some(ExecutionContext::Server));
            assert!(!req.include_related);
            assert_eq!(req.max_results, 7);
        }
        other => panic!("{:?}", other),
    }
}

#[test]
fn server_info_reports_build_stamp_and_knowledge() {
    let kb = kb_with(vec![doc("8.3.27", method_with_everything())]);

    let result = answer(&kb, "server_info", vec![]);
    let text = text_of(&result);

    assert!(text.contains("itcoolmcplang1c"), "{}", text);
    assert!(text.contains("0.7.0"), "{}", text);
    assert!(text.contains("8.3.27"), "{}", text);
    assert_eq!(text, "itcoolmcplang1c 0.7.0\nданные: 8.3.27: 1 методов, 0 объектов");
    assert_eq!(result.result_count, None);
}

#[test]
fn method_details_are_rendered_as_markdown() {
    let kb = kb_with(vec![doc("8.3.27", method_with_everything())]);

    let result = answer(&kb, "get_method_details", vec![("method_name", s("ЗначениеЗаполнено"))]);
    let text = text_of(&result);

    assert!(!text.contains("Parameter {"), "{}", text);
    assert!(!text.contains("Both"), "{}", text);
    assert!(text.contains("**Значение** (`Произвольный`, обязательный)"), "{}", text);
    assert!(text.contains("клиент и сервер"), "{}", text);
    assert!(text.contains("Булево"), "{}", text);
    assert!(text.contains("```bsl"), "{}", text);
    assert!(text.contains("Примечания"), "{}", text);
    assert_eq!(result.result_count, Some(1));
    assert_eq!(result.is_error, Some(false));
}

#[test]
fn method_details_omit_empty_sections() {
    let kb = kb_with(vec![doc("8.3.27", bare_method())]);

    let text = text_of(&answer(&kb, "get_method_details", vec![("method_name", s("ТекущаяДата"))]));

    assert!(!text.contains("## Параметры"), "{}", text);
    assert!(!text.contains("## Примеры"), "{}", text);
    assert!(!text.contains("## Примечания"), "{}", text);
    assert_eq!(
        text,
        "# Метод: ТекущаяДата\n\nВозвращает дату сеанса.\n\n**Версия:** 8.3.27\n**Контекст:** сервер\n"
    );
}

#[test]
fn include_examples_false_drops_examples() {
    let kb = kb_with(vec![doc("8.3.27", method_with_everything())]);

    let text = text_of(&answer(
        &kb,
        "get_method_details",
        vec![("method_name", s("ЗначениеЗаполнено")), ("include_examples", ArgValue::Bool(false))],
    ));

    assert!(!text.contains("## Примеры"), "{}", text);
    assert!(text.contains("## Параметры"), "{}", text);
}

#[test]
fn unknown_method_details_are_an_error_answer() {
    let kb = kb_with(vec![doc("8.3.27", bare_method())]);
    let result = answer(&kb, "get_method_details", vec![("method_name", s("Нет"))]);
    assert_eq!(result.is_error, Some(true));
    assert_eq!(result.result_count, Some(0));
    assert_eq!(
        text_of(&result),
        "ru: Метод 'Нет' не найден в версии 8.3.27, en: Method 'Нет' not found in version 8.3.27"
    );
}

#[test]
fn every_declared_tool_is_dispatched() {
    let kb = KnowledgeBase::new();

    for tool in get_tools() {
        let result = handle_tools_call(&kb, &Progress::new(), &server(), 10, &params(&tool.name, vec![]));
        if let Err(message) = result {
            assert!(!message.contains("Неизвестный инструмент"), "инструмент {} объявлен, но не реализован", tool.name);
        }
    }
}

#[test]
fn ping_returns_empty_result() {
    assert_eq!(route("ping", false), Route::Ping);
}

#[test]
fn notification_is_not_an_error() {
    assert_eq!(route("notifications/initialized", true), Route::Notification);
}

#[test]
fn missing_tool_argument_is_invalid_params() {
    let kb = KnowledgeBase::new();
    let err = handle_tools_call(&kb, &Progress::new(), &server(), 10, &params("search_1c_docs", vec![])).unwrap_err();
    assert_eq!(Failure::InvalidParams(err.clone()).code(), -32602);
    assert_eq!(err, "ru: Отсутствует query, en: Missing query parameter");
}

#[test]
fn unknown_tool_is_invalid_params() {
    let kb = KnowledgeBase::new();
    let err = handle_tools_call(&kb, &Progress::new(), &server(), 10, &params("no_such_tool", vec![])).unwrap_err();
    assert_eq!(err, "ru: Неизвестный инструмент: no_such_tool, en: Unknown tool: no_such_tool");
}

#[test]
fn unknown_prompt_is_invalid_params() {
    let engine = PromptsEngine::new();
    let failure = handle_prompts_get(&engine, &GetPromptParams { name: "no_such_prompt".to_string(), arguments: vec![] }).unwrap_err();
    assert_eq!(failure.code(), -32602);
    assert_eq!(failure.message(), "ru: Промпт 'no_such_prompt' не найден, en: Prompt 'no_such_prompt' not found");
}

#[test]
fn unknown_method_reports_method_not_found() {
    match route("totally/unknown", false) {
        Route::NotFound(message) => {
            assert_eq!(Failure::MethodNotFound(message.clone()).code(), -32601);
            assert_eq!(message, "ru: Метод не поддерживается: totally/unknown, en: Method not found: totally/unknown");
        }
        other => panic!("{:?}", other),
    }
    assert!(matches!(route("notifications/initialized", false), Route::NotFound(_)));
}

#[test]
fn resources_list_is_not_served() {
    assert!(matches!(route("resources/list", false), Route::NotFound(_)));
    assert_eq!(route("tools/call", false), Route::ToolsCall);
    assert_eq!(route("initialize", false), Route::Initialize);
}

#[test]
fn usage_examples_report_missing_entity() {
    let kb = kb_with(vec![doc("8.3.27", bare_method())]);

    let text = text_of(&answer(&kb, "find_usage_examples", vec![("entity_name", s("ТаблицаЗначений"))]));

    assert!(text.contains("не найдены"), "{}", text);
}

#[test]
fn empty_knowledge_base_is_reported() {
    let kb = KnowledgeBase::new();

    let text = text_of(&answer(&kb, "search_1c_docs", vec![("query", s("СтрНайти"))]));

    assert!(text.contains("пуста"), "{}", text);
}

#[test]
fn building_base_answers_with_progress() {
    let kb = KnowledgeBase::new();
    let mut progress = Progress::new();
    progress.set_outcome(Outcome::Building);
    progress.stage_percent("objects", 1, 4, 0, 100);
    let step = handle_tools_call(&kb, &progress, &server(), 10, &params("list_versions", vec![])).unwrap();
    match step {
        ToolStep::Answer(r) => assert!(text_of(&r).contains("25% (objects)")),
        other => panic!("{:?}", other),
    }
}

#[test]
fn small_helpers() {
    assert_eq!(parse_context("client"), Some(ExecutionContext::Client));
    assert_eq!(parse_context("Client"), None);
    assert_eq!(context_label(&ExecutionContext::Server), "сервер");
    assert_eq!(knowledge_summary(&KnowledgeBase::new()), "база знаний пуста");
    let m = method_with_everything();
    let card = format_method_details(&m, "8.3.27", true);
    assert!(card.starts_with("# Метод: ЗначениеЗаполнено\n\nПроверяет заполненность значения.\n\n**Версия:** 8.3.27\n"));
    let examples = vec![UsageExample {
        entity: "E".to_string(),
        version: "8.3".to_string(),
        code: "x".to_string(),
        description: Some("d".to_string()),
    }];
    assert_eq!(
        format_usage_examples("E", &examples),
        "# Примеры использования: E\n\n## Пример 1\n\n**Источник:** E\n**Версия:** 8.3\n\nd\n\n```bsl\nx\n```\n"
    );
}

#[test]
fn prompts_are_listed_and_rendered() {
    let engine = PromptsEngine {
        collection: PromptsCollection {
            prompts: vec![PromptTemplate {
                name: "p".to_string(),
                description: "desc".to_string(),
                arguments: vec![PromptArgument {
                    name: "query".to_string(),
                    description: "q".to_string(),
                    required: true,
                    choices: None,
                }],
                template: "Search for: {{ query }}".to_string(),
            }],
        },
        renderer: Default::default(),
    };
    let listed = handle_prompts_list(&engine);
    assert_eq!(listed.len(), 1);
    assert_eq!(listed[0].name, "p");
    assert_eq!(listed[0].arguments.as_ref().unwrap()[0].required, true);

    let ok = handle_prompts_get(&engine, &GetPromptParams { name: "p".to_string(), arguments: vec![("query".to_string(), "синтез речи".to_string())] }).unwrap();
    assert_eq!(ok.description.as_deref(), Some("Промпт: p"));
    match &ok.messages[0].content {
        Content::Text { text } => assert_eq!(text, "Search for: синтез речи"),
        other => panic!("{:?}", other),
    }

    let missing = handle_prompts_get(&engine, &GetPromptParams { name: "p".to_string(), arguments: vec![] }).unwrap_err();
    assert_eq!(missing.code(), -32603);
}
