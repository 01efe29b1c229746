use itcoolmcplang1c::schema::{Document, Section, SectionType};

fn doc(version: &str, platform: &str, sections: Vec<Section>) -> Document {
    Document {
        version: version.to_string(),
        platform: platform.to_string(),
        release_date: None,
        sections,
        api_methods: vec![],
        api_objects: vec![],
        relationships: vec![],
    }
}

fn section(id: &str) -> Section {
    Section {
        id: id.to_string(),
        title: "T".to_string(),
        section_type: SectionType::Text,
        content: String::new(),
        keywords: vec![],
        subsections: vec![],
    }
}

#[test]
fn test_document_validation() {
    let doc = doc("8.3.25", "1С:Предприятие", vec![]);

    assert!(doc.validate().is_ok());
}

#[test]
fn test_empty_version() {
    let doc = doc("", "1С:Предприятие", vec![]);

    assert!(doc.validate().is_err());
}

#[test]
fn validation_messages() {
    assert_eq!(
        doc("8.3", "", vec![]).validate().unwrap_err(),
        "ru: Платформа не может быть пустой, en: Platform cannot be empty"
    );
    assert_eq!(
        doc("8.3", "1С", vec![section("a"), section("b"), section("a")]).validate().unwrap_err(),
        "ru: Дублирующийся ID секции: a, en: Duplicate section ID: a"
    );
    assert!(doc("8.3", "1С", vec![section("a"), section("b")]).validate().is_ok());
}
