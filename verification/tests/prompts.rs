use itcoolmcplang1c::prompts::{PromptArgument, PromptTemplate, PromptsEngine, PromptsLoader, PromptsRenderer};

fn template() -> PromptTemplate {
    PromptTemplate {
        name: "test".to_string(),
        description: "Test".to_string(),
        arguments: vec![
            PromptArgument {
                name: "required_arg".to_string(),
                description: "Required".to_string(),
                required: true,
                choices: None,
            },
            PromptArgument {
                name: "optional_arg".to_string(),
                description: "Optional".to_string(),
                required: false,
                choices: Some(vec!["a".to_string(), "b".to_string()]),
            },
        ],
        template: "Test".to_string(),
    }
}

fn set(args: &mut Vec<(String, String)>, key: &str, value: &str) {
    args.retain(|(k, _)| k != key);
    args.push((key.to_string(), value.to_string()));
}

#[test]
fn test_validate_arguments() {
    let template = template();

    let mut args: Vec<(String, String)> = Vec::new();
    assert!(template.validate_arguments(&args).is_err());

    set(&mut args, "required_arg", "value");
    assert!(template.validate_arguments(&args).is_ok());

    set(&mut args, "optional_arg", "c");
    assert!(template.validate_arguments(&args).is_err());

    set(&mut args, "optional_arg", "a");
    assert!(template.validate_arguments(&args).is_ok());
}

#[test]
fn validation_messages_name_the_argument_and_choices() {
    let template = template();
    assert_eq!(
        template.validate_arguments(&[]).unwrap_err(),
        "ru: Отсутствует обязательный аргумент 'required_arg', en: Missing required argument 'required_arg'"
    );
    let args = vec![
        ("required_arg".to_string(), "v".to_string()),
        ("optional_arg".to_string(), "c".to_string()),
    ];
    assert_eq!(
        template.validate_arguments(&args).unwrap_err(),
        "ru: Недопустимое значение 'c' для аргумента 'optional_arg', допустимые: [\"a\", \"b\"], en: Invalid value 'c' for argument 'optional_arg', allowed: [\"a\", \"b\"]"
    );
}

#[test]
fn test_empty_engine() {
    let engine = PromptsEngine::new();
    assert_eq!(engine.list_prompts().len(), 0);
    assert!(engine.get_prompt("x").is_none());
}

#[test]
fn test_simple_render() {
    let renderer = PromptsRenderer::new();
    let template = PromptTemplate {
        name: "test".to_string(),
        description: "Test prompt".to_string(),
        arguments: vec![PromptArgument {
            name: "query".to_string(),
            description: "Query text".to_string(),
            required: true,
            choices: None,
        }],
        template: "Search for: {{ query }}".to_string(),
    };
    let args = vec![("query".to_string(), "синтез речи".to_string())];

    let result = renderer.render(&template, &args, None).unwrap();

    assert_eq!(result, "Search for: синтез речи");
}

#[test]
fn test_render_with_docs() {
    let renderer = PromptsRenderer::new();
    let template = PromptTemplate {
        name: "test".to_string(),
        description: "Test".to_string(),
        arguments: vec![],
        template: "Docs: {{ related_docs }}".to_string(),
    };

    let result = renderer.render(&template, &[], Some("Документация".to_string())).unwrap();

    assert_eq!(result, "Docs: Документация");
}

#[test]
fn test_conditional_rendering() {
    let renderer = PromptsRenderer::new();
    let template = PromptTemplate {
        name: "test".to_string(),
        description: "Test".to_string(),
        arguments: vec![],
        template: "{% if related_docs %}Has docs{% else %}No docs{% endif %}".to_string(),
    };

    assert_eq!(renderer.render(&template, &[], Some("x".to_string())).unwrap(), "Has docs");
    assert_eq!(renderer.render(&template, &[], None).unwrap(), "No docs");
}

#[test]
fn broken_template_is_a_render_failure() {
    let renderer = PromptsRenderer::new();
    let mut template = template();
    template.arguments.clear();
    template.template = "{% if %}".to_string();
    assert_eq!(
        renderer.render(&template, &[], None).unwrap_err(),
        "ru: Ошибка рендеринга промпта 'test', en: Failed to render prompt 'test'"
    );
}

#[test]
fn loader_keeps_its_path() {
    assert_eq!(PromptsLoader::new("./prompts.json").template_file, "./prompts.json");
}

#[test]
fn finish_takes_the_rendered_text_or_names_the_prompt() {
    let renderer = PromptsRenderer::new();
    let template = PromptTemplate {
        name: "demo".to_string(),
        description: String::new(),
        arguments: vec![],
        template: "{{ x }}".to_string(),
    };
    assert_eq!(renderer.finish(&template, Some("готово".to_string())).unwrap(), "готово");
    assert_eq!(
        renderer.finish(&template, None).unwrap_err(),
        "ru: Ошибка рендеринга промпта 'demo', en: Failed to render prompt 'demo'"
    );
    let context = renderer.context(&template, &[("x".to_string(), "1".to_string())], Some("docs".to_string())).unwrap();
    assert_eq!(context, vec![("x".to_string(), "1".to_string()), ("related_docs".to_string(), "docs".to_string())]);
}
