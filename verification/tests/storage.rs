use std::io::Write;
use itcoolmcplang1c::container::{EMPTY, HDR};
use itcoolmcplang1c::extract::{build, BuildError, Extractor};
use itcoolmcplang1c::lang::HelpLang;
use itcoolmcplang1c::platform::Platform;
use itcoolmcplang1c::progress::{Outcome, Progress};
use itcoolmcplang1c::schema::ExecutionContext;
use itcoolmcplang1c::storage::{open_storage, StorageError};

fn block(data: &[u8], next: u32) -> Vec<u8> {
    let mut out = Vec::new();
    out.extend_from_slice(b"\r\n");
    out.extend_from_slice(format!("{:08x} {:08x} {:08x} ", data.len(), data.len(), next).as_bytes());
    out.extend_from_slice(b"\r\n");
    out.extend_from_slice(data);
    out
}

fn element_header(name: &str) -> Vec<u8> {
    let mut out = vec![0u8; 20];
    for unit in name.encode_utf16() {
        out.extend_from_slice(&unit.to_le_bytes());
    }
    out.extend_from_slice(&[0, 0, 0, 0]);
    out
}

fn container(items: &[(&str, &[u8])]) -> Vec<u8> {
    let mut heads = Vec::new();
    let mut bodies = Vec::new();
    for (name, data) in items {
        heads.push(block(&element_header(name), EMPTY));
        bodies.push(block(data, EMPTY));
    }
    let toc_len = items.len() * 12;
    let mut addr = 16 + HDR + toc_len;
    let mut toc = Vec::new();
    for i in 0..items.len() {
        let h_addr = addr as u32;
        addr += heads[i].len();
        let d_addr = addr as u32;
        addr += bodies[i].len();
        toc.extend_from_slice(&h_addr.to_le_bytes());
        toc.extend_from_slice(&d_addr.to_le_bytes());
        toc.extend_from_slice(&EMPTY.to_le_bytes());
    }
    let mut out = Vec::new();
    out.extend_from_slice(&EMPTY.to_le_bytes());
    out.extend_from_slice(&[0u8; 12]);
    out.extend_from_slice(&block(&toc, EMPTY));
    for i in 0..items.len() {
        out.extend_from_slice(&heads[i]);
        out.extend_from_slice(&bodies[i]);
    }
    out
}

fn zip_of(pages: &[(&str, &[u8])]) -> Vec<u8> {
    let mut buf = std::io::Cursor::new(Vec::new());
    {
        let mut w = zip::ZipWriter::new(&mut buf);
        let opts = zip::write::SimpleFileOptions::default().compression_method(zip::CompressionMethod::Stored);
        for (name, body) in pages {
            w.start_file(*name, opts).unwrap();
            w.write_all(body).unwrap();
        }
        w.finish().unwrap();
    }
    buf.into_inner()
}

fn book(pages: &[(&str, &[u8])]) -> Vec<u8> {
    let archive = zip_of(pages);
    container(&[("FileStorage", archive.as_slice())])
}

fn context_book() -> Vec<u8> {
    book(&[
        ("objects/Catalog.html", "<h1 class=\"V8SH_pagetitle\">Прикладные объекты</h1>".as_bytes()),
        (
            "objects/Query.html",
            "<h1 class=\"V8SH_pagetitle\">Запрос (Query)</h1><p class=\"V8SH_chapter\">Описание:</p>Запрос к базе.".as_bytes(),
        ),
        ("objects/Global context.html", "<h1 class=\"V8SH_pagetitle\">Глобальный контекст</h1>".as_bytes()),
        (
            "objects/Query/methods/Execute.html",
            [
                "<h1 class=\"V8SH_pagetitle\">Запрос.Выполнить</h1>",
                "<p class=\"V8SH_title\">Запрос (Query)</p>",
                "<p class=\"V8SH_heading\">Выполнить (Execute)</p>",
                "<p class=\"V8SH_chapter\">Описание:</p>Выполняет запрос.",
                "<p class=\"V8SH_chapter\">Доступность:</p>Сервер."
            ].concat()
            .as_bytes(),
        ),
        (
            "objects/Query/methods/Execute2.html",
            "<h1 class=\"V8SH_pagetitle\">Запрос.Выполнить</h1><p class=\"V8SH_heading\">Выполнить (Execute)</p>".as_bytes(),
        ),
        (
            "objects/Query/properties/Text.html",
            [
                "<h1 class=\"V8SH_pagetitle\">Запрос.Текст</h1>",
                "<p class=\"V8SH_heading\">Текст (Text)</p>",
                "<p class=\"V8SH_chapter\">Использование:</p>Чтение и запись.",
                "<p class=\"V8SH_chapter\">Описание:</p>Тип: Строка.<br>Текст запроса."
            ].concat()
            .as_bytes(),
        ),
        (
            "objects/Global context/methods/Message.html",
            "<h1 class=\"V8SH_pagetitle\">Сообщить</h1><p class=\"V8SH_heading\">Сообщить (Message)</p>".as_bytes(),
        ),
        (
            "objects/Orphan/methods/X.html",
            "<h1 class=\"V8SH_pagetitle\">X</h1><p class=\"V8SH_heading\">X</p>".as_bytes(),
        ),
        ("objects/picture.gif", b"GIF89a\xff"),
    ])
}

fn language_book() -> Vec<u8> {
    book(&[
        ("If.html", "<h1>Если</h1>Условный оператор.<hr>Методическая информация".as_bytes()),
        ("Empty.html", "<h1>Пусто</h1>   ".as_bytes()),
        ("index", "<h1>Оглавление</h1>Всё".as_bytes()),
        ("If.st", "{структура}".as_bytes()),
        ("Broken.html", b"<h1>\xff</h1>text"),
    ])
}

#[test]
fn context_book_gives_objects_and_methods() {
    let extractor = Extractor::new(HelpLang::from_code("ru").unwrap()).unwrap();
    let mut storage = open_storage(&context_book()).unwrap();
    let mut progress = Progress::new();

    let (doc, skipped) = extractor.extract(&mut storage, "8.3.27", &mut progress).unwrap();

    assert_eq!(doc.version, "8.3.27");
    assert_eq!(doc.platform, "1С:Предприятие");
    let names: Vec<&str> = doc.api_methods.iter().map(|m| m.name.as_str()).collect();
    assert_eq!(names, vec!["Запрос.Выполнить", "Сообщить"]);
    assert_eq!(doc.api_methods[0].description, "Выполняет запрос. (Query.Execute)");
    assert_eq!(doc.api_methods[0].context, ExecutionContext::Server);
    assert_eq!(doc.api_methods[1].description, "(Message)");

    assert_eq!(doc.api_objects.len(), 2);
    assert_eq!(doc.api_objects[0].name, "Запрос");
    assert_eq!(doc.api_objects[0].description, "Запрос к базе. (Query)");
    assert_eq!(doc.api_objects[0].methods, vec!["Выполнить"]);
    assert_eq!(doc.api_objects[0].properties.len(), 1);
    assert_eq!(doc.api_objects[0].properties[0].name, "Текст");
    assert_eq!(doc.api_objects[0].properties[0].property_type, "Строка");
    assert_eq!(doc.api_objects[0].properties[0].description, "Текст запроса. (Text)");
    assert!(!doc.api_objects[0].properties[0].readonly);
    assert_eq!(doc.api_objects[1].name, "Глобальный контекст");
    assert_eq!(doc.api_objects[1].methods, vec!["Сообщить"]);

    assert_eq!(skipped.category, 1);
    assert_eq!(skipped.dup_method, 1);
    assert_eq!(skipped.no_owner, 1);
}

#[test]
fn build_joins_api_and_language_sections() {
    let platform = Platform { bin_dir: "/opt/1cv8/x86_64/8.3.27.1936/bin".to_string(), version: "8.3.27.1936".to_string() };
    let books = vec![Some(language_book()), None, None];
    let mut progress = Progress::new();

    let (doc, report) = build(&platform, HelpLang::from_code("ru").unwrap(), &context_book(), &books, &mut progress).unwrap();

    assert_eq!(doc.version, "8.3.27");
    assert_eq!(report.version, "8.3.27");
    assert_eq!(report.methods, 2);
    assert_eq!(report.objects, 2);
    assert_eq!(report.properties, 1);
    assert_eq!(report.root_sections, 1);
    assert_eq!(report.subsections, 1);
    assert_eq!(doc.sections[0].id, "lang");
    assert_eq!(doc.sections[0].title, "Встроенный язык");
    assert_eq!(doc.sections[0].content, "Встроенный язык: справка платформы (shlang_ru.hbk).");
    let leaf = &doc.sections[0].subsections[0];
    assert_eq!(leaf.id, "lang_If");
    assert_eq!(leaf.title, "Если");
    assert_eq!(leaf.content, "Условный оператор.");
    assert_eq!(leaf.keywords, vec!["Если", "If"]);
    assert_eq!(report.books.len(), 1);
    assert_eq!(report.books[0].book, "shlang_ru.hbk");
    assert_eq!(report.books[0].taken, 1);
    assert_eq!(report.books[0].skipped, 4);
    assert_eq!(progress.hint(), None);
    progress.set_outcome(Outcome::Building);
    assert!(progress.hint().unwrap().contains("100%"));
}

#[test]
fn missing_file_storage_and_broken_zip_are_refused() {
    let no_storage = container(&[("MainData", b"xyz")]);
    assert!(matches!(open_storage(&no_storage), Err(StorageError::NoFileStorage)));

    let not_zip = container(&[("FileStorage", b"not a zip at all")]);
    assert!(matches!(open_storage(&not_zip), Err(StorageError::NotZip)));

    assert!(matches!(open_storage(b"garbage"), Err(StorageError::Container(_))));
}

#[test]
fn broken_context_book_is_a_build_error() {
    let platform = Platform { bin_dir: "/x/bin".to_string(), version: "8.3.27.1".to_string() };
    let books = vec![None, None, None];
    let mut progress = Progress::new();

    let result = build(&platform, HelpLang::from_code("ru").unwrap(), b"garbage", &books, &mut progress);

    assert!(matches!(result, Err(BuildError::ContextBook(StorageError::Container(_)))));
}

#[test]
fn storage_error_names_the_book() {
    let text = StorageError::NotZip.message("/x/shcntx_ru.hbk");

    assert_eq!(text, "ru: FileStorage в \"/x/shcntx_ru.hbk\" не ZIP, en: FileStorage in \"/x/shcntx_ru.hbk\" is not a ZIP");
}
