use itcoolmcplang1c::knowledge::{hit_budget, relationship_label, matches_context, Hit, KnowledgeBase, SearchQuery};
use itcoolmcplang1c::schema::{
    ApiMethod, ApiObject, Document, Example, ExecutionContext, Relationship, RelationshipType, SearchSource,
    Section, SectionType,
};

fn doc_with_method(version: &str, method_name: &str, code: &str) -> Document {
    Document {
        version: version.to_string(),
        platform: "1С".to_string(),
        release_date: None,
        sections: vec![],
        api_methods: vec![ApiMethod {
            name: method_name.to_string(),
            description: format!("Метод {}", method_name),
            context: ExecutionContext::Both,
            parameters: vec![],
            return_type: None,
            examples: vec![Example {
                title: None,
                code: code.to_string(),
                description: None,
            }],
            notes: vec![],
        }],
        api_objects: vec![],
        relationships: vec![],
    }
}

fn query<'a>(text: &'a str, version: Option<&'a str>) -> SearchQuery<'a> {
    SearchQuery {
        query: text,
        version,
        context: None,
        include_related: false,
        max_results: 10,
    }
}

fn hit(doc: &str, unit: &str) -> Hit {
    Hit { doc_id: doc.to_string(), section_id: unit.to_string(), score: "1.00".to_string() }
}

#[test]
fn search_filters_by_exact_version() {
    let mut kb = KnowledgeBase::new();
    kb.add_document(doc_with_method("8.3.25", "СтрНайти", "СтрНайти(х, у)")).unwrap();
    kb.add_document(doc_with_method("8.3.26", "СтрНайти", "СтрНайти(х, у)")).unwrap();
    let hits = vec![hit("8.3.26", "method_СтрНайти"), hit("8.3.25", "method_СтрНайти")];

    let results = kb.search(&query("СтрНайти", Some("8.3.25")), &hits);

    assert!(!results.is_empty());
    for r in &results {
        match &r.source {
            SearchSource::ApiMethod { version, .. } => assert_eq!(version, "8.3.25"),
            other => panic!("неожиданный источник: {:?}", other),
        }
    }
}

#[test]
fn latest_version_compares_numerically() {
    let mut kb = KnowledgeBase::new();
    kb.add_document(doc_with_method("8.3.9", "СтрНайти", "СтрНайти(х, у)")).unwrap();
    kb.add_document(doc_with_method("8.3.27", "СтрНайти", "СтрНайти(х, у)")).unwrap();

    assert_eq!(kb.latest_version(), Some("8.3.27".to_string()));
    assert_eq!(kb.versions(), vec!["8.3.27", "8.3.9"]);
}

#[test]
fn search_filters_by_execution_context() {
    let mut kb = KnowledgeBase::new();
    let mut doc = doc_with_method("8.3.27", "УстановитьПривилегированныйРежим", "код");
    doc.api_methods[0].context = ExecutionContext::Server;
    kb.add_document(doc).unwrap();
    let hits = vec![hit("8.3.27", "method_УстановитьПривилегированныйРежим")];

    let mut client = query("УстановитьПривилегированныйРежим", Some("8.3.27"));
    client.context = Some(ExecutionContext::Client);
    let mut server = query("УстановитьПривилегированныйРежим", Some("8.3.27"));
    server.context = Some(ExecutionContext::Server);

    assert!(kb.search(&client, &hits).is_empty(), "серверный метод попал в клиентскую выдачу");
    assert!(!kb.search(&server, &hits).is_empty());
}

#[test]
fn method_details_come_from_requested_version() {
    let mut kb = KnowledgeBase::new();
    let mut old = doc_with_method("8.3.25", "СтрНайти", "код");
    old.api_methods[0].description = "старое описание".to_string();
    kb.add_document(old).unwrap();
    kb.add_document(doc_with_method("8.3.27", "СтрНайти", "код")).unwrap();

    let method = kb.get_method_details("СтрНайти", Some("8.3.25")).unwrap();

    assert_eq!(method.description, "старое описание");
}

#[test]
fn own_examples_come_before_mentions() {
    let mut kb = KnowledgeBase::new();
    let mut doc = doc_with_method("8.3.25", "ЧужойМетод", "х = ТаблицаЗначений.Скопировать()");
    doc.api_methods.push(ApiMethod {
        name: "ТаблицаЗначений.Добавить".to_string(),
        description: "Собственный метод".to_string(),
        context: ExecutionContext::Both,
        parameters: vec![],
        return_type: None,
        examples: vec![Example {
            title: None,
            code: "ТЗ.Добавить()".to_string(),
            description: None,
        }],
        notes: vec![],
    });
    kb.add_document(doc).unwrap();

    let examples = kb.find_usage_examples("ТаблицаЗначений", None, 10);
    assert_eq!(examples.len(), 2);
    assert_eq!(examples[0].entity, "ТаблицаЗначений.Добавить");
    assert_eq!(examples[1].entity, "ЧужойМетод");
}

#[test]
fn a_document_of_the_same_version_replaces_the_old_one() {
    let mut kb = KnowledgeBase::new();
    kb.add_document(doc_with_method("8.3.25", "А", "а")).unwrap();
    kb.add_document(doc_with_method("8.3.25", "Б", "б")).unwrap();

    assert_eq!(kb.versions(), vec!["8.3.25"]);
    assert!(kb.get_method_details("А", None).is_none());
    assert!(kb.get_method_details("Б", None).is_some());
    assert_eq!(kb.statistics().total_documents, 1);
}

#[test]
fn search_takes_sections_objects_related_and_respects_the_limit() {
    let mut kb = KnowledgeBase::new();
    let mut doc = doc_with_method("8.3.27", "Запрос.Выполнить", "код");
    doc.sections = vec![Section {
        id: "lang".to_string(),
        title: "Язык".to_string(),
        section_type: SectionType::Category,
        content: "c".to_string(),
        keywords: vec![],
        subsections: vec![Section {
            id: "lang_if".to_string(),
            title: "Если".to_string(),
            section_type: SectionType::Text,
            content: "Если ... Тогда".to_string(),
            keywords: vec![],
            subsections: vec![],
        }],
    }];
    doc.api_objects = vec![ApiObject {
        name: "Запрос".to_string(),
        description: "Объект запроса".to_string(),
        properties: vec![],
        methods: vec!["Выполнить".to_string()],
    }];
    doc.relationships = vec![Relationship {
        from: "Запрос".to_string(),
        to: "РезультатЗапроса".to_string(),
        rel_type: RelationshipType::Returns,
        description: None,
    }];
    kb.add_document(doc).unwrap();

    let hits = vec![
        hit("8.3.27", "lang_if"),
        hit("8.3.27", "object_Запрос"),
        hit("8.3.27", "nothing"),
        hit("8.3.27", "method_Запрос.Выполнить"),
    ];
    let mut q = query("x", Some("8.3.27"));
    q.include_related = true;
    let results = kb.search(&q, &hits);
    assert_eq!(results.len(), 3);
    match &results[0].source {
        SearchSource::Section { title, .. } => assert_eq!(title, "Если"),
        other => panic!("{:?}", other),
    }
    assert!(results[0].related.is_none());
    let related = results[1].related.as_ref().unwrap();
    assert_eq!(related[0].name, "РезультатЗапроса");
    assert_eq!(related[0].relationship, "возвращает");
    assert_eq!(related[0].description, "");

    q.max_results = 2;
    assert_eq!(kb.search(&q, &hits).len(), 2);
    q.max_results = 0;
    assert_eq!(kb.search(&q, &hits).len(), 1);
}

#[test]
fn labels_and_context_filter() {
    assert_eq!(relationship_label(&RelationshipType::Uses), "использует");
    assert_eq!(relationship_label(&RelationshipType::Extends), "расширяет");
    let m = SearchSource::ApiMethod {
        version: "v".to_string(),
        name: "n".to_string(),
        description: "d".to_string(),
        context: ExecutionContext::Both,
    };
    assert!(matches_context(&m, Some(&ExecutionContext::Client)));
    assert!(matches_context(&m, None));
}

#[test]
fn usage_examples_cap_and_version_filter() {
    let mut kb = KnowledgeBase::new();
    kb.add_document(doc_with_method("8.3.25", "Новый Массив", "М = Новый Массив")).unwrap();
    kb.add_document(doc_with_method("8.3.27", "Новый Массив", "М = Новый Массив")).unwrap();

    assert_eq!(kb.find_usage_examples(" Массив ", None, 10).len(), 2);
    assert_eq!(kb.find_usage_examples("Массив", Some("8.3.27"), 10).len(), 1);
    assert_eq!(kb.find_usage_examples("Массив", None, 1).len(), 1);
    assert_eq!(kb.version_statistics("8.3.27").api_methods, 1);
    assert_eq!(kb.version_statistics("1.0").api_methods, 0);
}

#[test]
fn relationships_go_into_the_graph_without_harm() {
    let mut kb = KnowledgeBase::new();
    let mut doc = doc_with_method("8.3.27", "Запрос.Выполнить", "Запрос.Выполнить()");
    let rel = |from: &str, to: &str, rel_type: RelationshipType| Relationship {
        from: from.to_string(),
        to: to.to_string(),
        rel_type,
        description: None,
    };
    doc.relationships = vec![
        rel("Запрос.Выполнить", "РезультатЗапроса", RelationshipType::Returns),
        rel("Запрос.Выполнить", "Запрос", RelationshipType::Uses),
        rel("Запрос.Выполнить", "Запрос.Выполнить", RelationshipType::Uses),
    ];

    kb.add_document(doc).unwrap();
    kb.add_document(doc_with_method("8.3.27", "Запрос.Выполнить", "Запрос.Выполнить()")).unwrap();

    assert_eq!(kb.versions(), vec!["8.3.27"]);
}

#[test]
fn hit_budget_doubles_and_caps() {
    assert_eq!(hit_budget(0), 0);
    assert_eq!(hit_budget(10), 20);
    assert_eq!(hit_budget(usize::MAX / 2), usize::MAX - 1);
    assert_eq!(hit_budget(usize::MAX / 2 + 1), usize::MAX);
}

#[test]
fn adding_a_version_leaves_the_others_in_place() {
    let mut kb = KnowledgeBase::new();
    kb.add_document(doc_with_method("8.3.24", "Старый", "с")).unwrap();
    kb.add_document(doc_with_method("8.3.25", "А", "а")).unwrap();
    assert_eq!(kb.statistics().total_documents, 2);

    kb.add_document(doc_with_method("8.3.25", "Б", "б")).unwrap();
    assert_eq!(kb.statistics().total_documents, 2);
    assert!(kb.get_method_details("Старый", Some("8.3.24")).is_some());
    assert!(kb.get_method_details("Б", Some("8.3.25")).is_some());
    assert!(kb.get_method_details("А", Some("8.3.25")).is_none());
    assert!(!kb.has_version("8.3.26"));
}

#[test]
fn latest_version_is_the_first_of_the_listing() {
    let mut kb = KnowledgeBase::new();
    kb.add_document(doc_with_method("8.3.09", "А", "а")).unwrap();
    kb.add_document(doc_with_method("8.3.9", "Б", "б")).unwrap();
    kb.add_document(doc_with_method("8.3.1", "В", "в")).unwrap();

    assert_eq!(kb.versions(), vec!["8.3.09", "8.3.9", "8.3.1"]);
    assert_eq!(kb.latest_version(), kb.versions().first().cloned());
}
