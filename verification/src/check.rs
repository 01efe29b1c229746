//! The self-check of an installation (`--check`): which source of the base is
//! checked, and the lines of the report. Each item is reported as a fact; a
//! failed one with its reason and what to do, and the verdict names what was
//! checked.

use vstd::prelude::*;
use crate::text::capped;
use crate::lang::HelpLang;
use crate::progress::BookStats;
use crate::schema::{ApiObject, Document, SearchSource};
use crate::text::{decimal, push_decimal, push_str, string_of};

verus! {

/// Where the checked base comes from.
#[derive(Debug, Clone, Copy, PartialEq, Eq, Structural)]
pub enum CheckSource {
    /// The ready index in the knowledge directory: the platform is not needed
    /// while it is there.
    ReadyIndex,
    /// A build from the installed platform (or its cache).
    Platform,
    /// Neither: the base has nowhere to come from.
    Nowhere,
}

/// The ready index wins, as it does in the server; without it the platform is
/// needed.
pub fn check_source(ready_documents: usize, platform_found: bool) -> (res: CheckSource)
    ensures
        res == (if ready_documents > 0 {
            CheckSource::ReadyIndex
        } else if platform_found {
            CheckSource::Platform
        } else {
            CheckSource::Nowhere
        }),
{
    if ready_documents > 0 {
        CheckSource::ReadyIndex
    } else if platform_found {
        CheckSource::Platform
    } else {
        CheckSource::Nowhere
    }
}

/// The report of a failed item: the item with its reason, what to do, and the
/// verdict.
pub fn fail_report(item: &str, reason: &str, hint: &str) -> (res: Vec<String>)
    ensures
        res@.len() == 3,
        res@[0]@ == item@ + ": ОТКАЗ — "@ + reason@,
        res@[1]@ == "   что делать: "@ + hint@,
        res@[2]@ == "вердикт: сервер неработоспособен"@,
{
    let mut first: Vec<char> = Vec::new();
    push_str(&mut first, item);
    push_str(&mut first, ": ОТКАЗ — ");
    push_str(&mut first, reason);
    let mut second: Vec<char> = Vec::new();
    push_str(&mut second, "   что делать: ");
    push_str(&mut second, hint);
    let mut lines: Vec<String> = Vec::new();
    lines.push(string_of(&first));
    lines.push(string_of(&second));
    lines.push(String::from_str("вердикт: сервер неработоспособен"));
    lines
}

/// The test query goes in the language of the help: a base built from the
/// English help has no Russian method names.
pub fn probe_query(lang: &HelpLang) -> (res: &'static str)
    ensures
        res@ == (if lang.code@ == "ru"@ { "ЗначениеЗаполнено"@ } else { "ValueIsFilled"@ }),
{
    if crate::text::same_text(lang.code, "ru") {
        "ЗначениеЗаполнено"
    } else {
        "ValueIsFilled"
    }
}

/// The name of what a search found, for the report line.
pub open spec fn source_name(source: SearchSource) -> Seq<char> {
    match source {
        SearchSource::Section { title, .. } => title@,
        SearchSource::ApiMethod { name, .. } => name@,
        SearchSource::ApiObject { name, .. } => name@,
    }
}

/// The name of what a search found.
pub fn result_name(source: &SearchSource) -> (res: &str)
    ensures
        res@ == source_name(*source),
{
    match source {
        SearchSource::Section { title, .. } => title.as_str(),
        SearchSource::ApiMethod { name, .. } => name.as_str(),
        SearchSource::ApiObject { name, .. } => name.as_str(),
    }
}

/// The number of properties of the objects.
pub open spec fn property_count(objects: Seq<ApiObject>) -> nat
    decreases objects.len(),
{
    if objects.len() == 0 { 0 } else { property_count(objects.drop_last()) + objects.last().properties@.len() }
}

/// The line with the numbers of the base: objects, methods, properties.
pub fn numbers_line(doc: &Document) -> (res: String)
    ensures
        res@ == "числа: объектов "@ + decimal(doc.api_objects@.len()) + ", методов "@
            + decimal(doc.api_methods@.len()) + ", свойств "@ + decimal(capped(property_count(doc.api_objects@))),
{
    let mut properties: usize = 0;
    let mut i: usize = 0;
    while i < doc.api_objects.len()
        invariant
            0 <= i <= doc.api_objects@.len(),
            properties as nat == capped(property_count(doc.api_objects@.take(i as int))),
        decreases doc.api_objects@.len() - i,
    {
        assert(doc.api_objects@.take(i + 1).drop_last() =~= doc.api_objects@.take(i as int));
        properties = properties.saturating_add(doc.api_objects[i].properties.len());
        i = i + 1;
    }
    assert(doc.api_objects@.take(doc.api_objects@.len() as int) =~= doc.api_objects@);
    let mut out: Vec<char> = Vec::new();
    push_str(&mut out, "числа: объектов ");
    push_decimal(&mut out, doc.api_objects.len() as u64);
    push_str(&mut out, ", методов ");
    push_decimal(&mut out, doc.api_methods.len() as u64);
    push_str(&mut out, ", свойств ");
    push_decimal(&mut out, properties as u64);
    string_of(&out)
}

/// One language book in the help line: its file and how many sections it gave.
pub open spec fn book_part(b: BookStats) -> Seq<char> {
    b.book@ + " — "@ + decimal(b.taken as nat) + " разделов"@
}

/// The language books, each by `book_part`, joined with `, `.
pub open spec fn books_joined(books: Seq<BookStats>) -> Seq<char>
    decreases books.len(),
{
    if books.len() == 0 {
        Seq::empty()
    } else if books.len() == 1 {
        book_part(books[0])
    } else {
        books_joined(books.drop_last()) + ", "@ + book_part(books.last())
    }
}

/// The line on the help read by a fresh build: the entry book gives objects
/// and methods, then each language book with its sections, or a note that no
/// language section was found.
pub fn help_line(lang: &HelpLang, books: &[BookStats]) -> (res: String)
    ensures
        res@ == "справка: "@ + "shcntx_"@ + lang.suffix@ + ".hbk"@ + " — объекты и методы; "@
            + (if books@.len() == 0 { "разделов языка не найдено"@ } else { books_joined(books@) }),
{
    let mut out: Vec<char> = Vec::new();
    push_str(&mut out, "справка: ");
    let entry = lang.context_book();
    push_str(&mut out, entry.as_str());
    push_str(&mut out, " — объекты и методы; ");
    let ghost start = out@;
    if books.len() == 0 {
        push_str(&mut out, "разделов языка не найдено");
    } else {
        let mut i: usize = 0;
        while i < books.len()
            invariant
                0 <= i <= books@.len(),
                books@.len() > 0,
                out@ == start + books_joined(books@.take(i as int)),
            decreases books@.len() - i,
        {
            assert(books@.take(i + 1).drop_last() =~= books@.take(i as int));
            if i > 0 {
                push_str(&mut out, ", ");
            }
            push_str(&mut out, books[i].book.as_str());
            push_str(&mut out, " — ");
            push_decimal(&mut out, books[i].taken as u64);
            push_str(&mut out, " разделов");
            proof {
                let t = books@.take(i + 1);
                assert(t.last() == books@[i as int]);
                if i == 0 {
                    assert(t.len() == 1);
                    assert(t[0] == books@[0]);
                }
            }
            i = i + 1;
        }
        assert(books@.take(books@.len() as int) =~= books@);
    }
    string_of(&out)
}

/// The reason for an unknown help language code.
pub fn unknown_code_reason(code: &str) -> (res: String)
    ensures
        res@ == "неизвестный код «"@ + code@ + "»"@,
{
    let mut out: Vec<char> = Vec::new();
    push_str(&mut out, "неизвестный код «");
    push_str(&mut out, code);
    push_str(&mut out, "»");
    string_of(&out)
}

/// What to do about an unknown help language: name a known code.
pub fn help_lang_hint() -> (res: String)
    ensures
        res@ == "укажите --help-lang ru или en"@,
{
    String::from_str("укажите --help-lang ru или en")
}

/// The reason when the base has no source: no ready index in the knowledge
/// directory, and the platform not found (with why).
pub fn no_source_reason(data_dir: &str, platform_error: &str) -> (res: String)
    ensures
        res@ == "нет ни готового индекса в "@ + data_dir@ + ", ни установленной платформы ("@ + platform_error@ + ")"@,
{
    let mut out: Vec<char> = Vec::new();
    push_str(&mut out, "нет ни готового индекса в ");
    push_str(&mut out, data_dir);
    push_str(&mut out, ", ни установленной платформы (");
    push_str(&mut out, platform_error);
    push_str(&mut out, ")");
    string_of(&out)
}

/// The reason when the help could not be taken apart.
pub fn parse_failed_reason(error: &str) -> (res: String)
    ensures
        res@ == "разбор не удался: "@ + error@,
{
    let mut out: Vec<char> = Vec::new();
    push_str(&mut out, "разбор не удался: ");
    push_str(&mut out, error);
    string_of(&out)
}

/// The reason when the base refused the built document.
pub fn rejected_reason(error: &str) -> (res: String)
    ensures
        res@ == "база знаний не приняла документ: "@ + error@,
{
    let mut out: Vec<char> = Vec::new();
    push_str(&mut out, "база знаний не приняла документ: ");
    push_str(&mut out, error);
    string_of(&out)
}

/// The reason when the test query finds nothing.
pub fn probe_missing_reason(probe: &str) -> (res: String)
    ensures
        res@ == "«"@ + probe@ + "» в собранной базе не найден"@,
{
    let mut out: Vec<char> = Vec::new();
    push_str(&mut out, "«");
    push_str(&mut out, probe);
    push_str(&mut out, "» в собранной базе не найден");
    string_of(&out)
}

/// The verdict of a check that passed, naming what was checked.
pub fn verdict_line(checked: &str) -> (res: String)
    ensures
        res@ == "вердикт: Сервер работоспособен — проверено: "@ + checked@,
{
    let mut out: Vec<char> = Vec::new();
    push_str(&mut out, "вердикт: Сервер работоспособен — проверено: ");
    push_str(&mut out, checked);
    string_of(&out)
}

} // verus!
