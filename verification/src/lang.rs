//! The language of the platform help: book file names and the markers by which
//! help pages are taken apart.
//!
//! The chapters of a page are recognised by their headings, which are written
//! in the language of the help; choosing a language therefore chooses the whole
//! marker table, not only the file suffix (`_ru` / `_root`).

use vstd::prelude::*;
use crate::schema::SectionType;
use crate::text::{chars_of, push_str, replace_str, string_of, trim, trim_bounds};

verus! {

/// A language book next to `shcntx`: file stem, id prefix, title of the root
/// section and the type of its subsections.
#[derive(Debug, Clone, Copy)]
pub struct Book {
    pub stem: &'static str,
    pub prefix: &'static str,
    pub title: &'static str,
    pub kind: SectionType,
}

impl Book {
    /// The book's file for a language: `shlang` + `ru` → `shlang_ru.hbk`.
    pub fn file_name(&self, lang: &HelpLang) -> (res: String)
        ensures
            res@ == self.stem@ + "_"@ + lang.suffix@ + ".hbk"@,
    {
        let mut out: Vec<char> = Vec::new();
        push_str(&mut out, self.stem);
        push_str(&mut out, "_");
        push_str(&mut out, lang.suffix);
        push_str(&mut out, ".hbk");
        string_of(&out)
    }
}

/// The marker table of one help language.
#[derive(Debug, Clone, Copy)]
pub struct HelpLang {
    /// The language code as the user gives it: `ru` / `en`.
    pub code: &'static str,
    /// The suffix of help file names: `ru` / `root`.
    pub suffix: &'static str,
    pub ch_syntax_variant: &'static str,
    pub ch_syntax: &'static str,
    pub ch_parameters: &'static str,
    pub ch_returns: &'static str,
    pub ch_description: &'static str,
    pub ch_description_variant: &'static str,
    pub ch_availability: &'static str,
    pub ch_example: &'static str,
    pub ch_note: &'static str,
    pub ch_usage: &'static str,
    pub ch_properties: &'static str,
    pub ch_methods: &'static str,
    /// The word before the type in a line such as `Тип: Число.`.
    pub type_word: &'static str,
    /// How the mark of a required parameter begins.
    pub required: &'static str,
    /// The read-only mark of a property (lower case).
    pub read_only: &'static str,
    /// The availability word that means the client (lower case).
    pub client: &'static str,
    /// The availability words that mean the server (lower case).
    pub server: [&'static str; 3],
    /// How a constructor call is written: `Новый Объект` / `New Object`.
    pub ctor_word: &'static str,
    pub note_syntax: &'static str,
    pub note_returns: &'static str,
    pub note_note: &'static str,
    /// Template of the syntax-variant note, with `{name}` and `{syntax}`.
    pub note_variant: &'static str,
    /// Template of a book's root section, with `{title}` and `{book}`.
    pub section_blurb: &'static str,
    pub books: [Book; 3],
}

/// The Russian marker table.
pub open spec fn ru_table() -> HelpLang {
    HelpLang {
        code: "ru",
        suffix: "ru",
        ch_syntax_variant: "Вариант синтаксиса",
        ch_syntax: "Синтаксис",
        ch_parameters: "Параметры",
        ch_returns: "Возвращаемое значение",
        ch_description: "Описание",
        ch_description_variant: "Описание варианта метода",
        ch_availability: "Доступность",
        ch_example: "Пример",
        ch_note: "Примечание",
        ch_usage: "Использование",
        ch_properties: "Свойства",
        ch_methods: "Методы",
        type_word: "Тип",
        required: "обязательный",
        read_only: "только чтение",
        client: "клиент",
        server: ["сервер", "внешнее соединение", "интеграция"],
        ctor_word: "Новый",
        note_syntax: "Синтаксис: ",
        note_returns: "Возвращает: ",
        note_note: "Примечание: ",
        note_variant: "Вариант синтаксиса «{name}»: {syntax}",
        section_blurb: "{title}: справка платформы ({book}).",
        books: [
            Book { stem: "shlang", prefix: "lang", title: "Встроенный язык", kind: SectionType::Text },
            Book { stem: "shclang", prefix: "clang", title: "Общие правила языка", kind: SectionType::Text },
            Book { stem: "shquery", prefix: "query", title: "Язык запросов", kind: SectionType::QueryLanguage },
        ],
    }
}

/// The English marker table.
pub open spec fn en_table() -> HelpLang {
    HelpLang {
        code: "en",
        suffix: "root",
        ch_syntax_variant: "Syntax variant",
        ch_syntax: "Syntax",
        ch_parameters: "Parameters",
        ch_returns: "Returned value",
        ch_description: "Description",
        ch_description_variant: "Description of method variant",
        ch_availability: "Availability",
        ch_example: "Example",
        ch_note: "Note",
        ch_usage: "Usage",
        ch_properties: "Properties",
        ch_methods: "Methods",
        type_word: "Type",
        required: "required",
        read_only: "read only",
        client: "client",
        server: ["server", "external connection", "integration"],
        ctor_word: "New",
        note_syntax: "Syntax: ",
        note_returns: "Returns: ",
        note_note: "Note: ",
        note_variant: "Syntax variant \"{name}\": {syntax}",
        section_blurb: "{title}: platform help ({book}).",
        books: [
            Book { stem: "shlang", prefix: "lang", title: "Built-in language", kind: SectionType::Text },
            Book { stem: "shclang", prefix: "clang", title: "General language rules", kind: SectionType::Text },
            Book { stem: "shquery", prefix: "query", title: "Query language", kind: SectionType::QueryLanguage },
        ],
    }
}

/// `c` lower-cases to the ASCII lower-case letter `l`.
pub open spec fn folds_to(c: char, l: char) -> bool {
    c == l || ('a' <= l && l <= 'z' && c as u32 == l as u32 - 32)
}

/// `s`, lower-cased, is the ASCII lower-case word `word`.
pub open spec fn folds_to_word(s: Seq<char>, word: Seq<char>) -> bool {
    s.len() == word.len() && forall|i: int| 0 <= i < s.len() ==> folds_to(#[trigger] s[i], word[i])
}

/// The language a code names, after trimming and lower-casing.
pub open spec fn lang_of_code(code: Seq<char>) -> Option<HelpLang> {
    if folds_to_word(trim(code), "ru"@) {
        Some(ru_table())
    } else if folds_to_word(trim(code), "en"@) {
        Some(en_table())
    } else {
        None
    }
}

fn folds(c: char, l: char) -> (res: bool)
    ensures
        res == folds_to(c, l),
{
    c == l || ('a' <= l && l <= 'z' && (c as u32) + 32 == (l as u32))
}

fn folds_word(v: &[char], from: usize, to: usize, word: &str) -> (res: bool)
    requires
        from <= to <= v@.len(),
    ensures
        res == folds_to_word(v@.subrange(from as int, to as int), word@),
{
    let w = chars_of(word);
    if to - from != w.len() {
        return false;
    }
    let mut i: usize = 0;
    while i < w.len()
        invariant
            0 <= i <= w@.len(),
            w@ == word@,
            to - from == w@.len(),
            from <= to <= v@.len(),
            forall|k: int| 0 <= k < i ==> folds_to(#[trigger] v@.subrange(from as int, to as int)[k], w@[k]),
        decreases w@.len() - i,
    {
        if !folds(v[from + i], w[i]) {
            assert(!folds_to(v@.subrange(from as int, to as int)[i as int], w@[i as int]));
            return false;
        }
        i = i + 1;
    }
    true
}

impl HelpLang {
    /// The Russian table.
    pub fn ru() -> (res: HelpLang)
        ensures
            res == ru_table(),
    {
        HelpLang {
            code: "ru",
            suffix: "ru",
            ch_syntax_variant: "Вариант синтаксиса",
            ch_syntax: "Синтаксис",
            ch_parameters: "Параметры",
            ch_returns: "Возвращаемое значение",
            ch_description: "Описание",
            ch_description_variant: "Описание варианта метода",
            ch_availability: "Доступность",
            ch_example: "Пример",
            ch_note: "Примечание",
            ch_usage: "Использование",
            ch_properties: "Свойства",
            ch_methods: "Методы",
            type_word: "Тип",
            required: "обязательный",
            read_only: "только чтение",
            client: "клиент",
            server: ["сервер", "внешнее соединение", "интеграция"],
            ctor_word: "Новый",
            note_syntax: "Синтаксис: ",
            note_returns: "Возвращает: ",
            note_note: "Примечание: ",
            note_variant: "Вариант синтаксиса «{name}»: {syntax}",
            section_blurb: "{title}: справка платформы ({book}).",
            books: [
                Book { stem: "shlang", prefix: "lang", title: "Встроенный язык", kind: SectionType::Text },
                Book { stem: "shclang", prefix: "clang", title: "Общие правила языка", kind: SectionType::Text },
                Book { stem: "shquery", prefix: "query", title: "Язык запросов", kind: SectionType::QueryLanguage },
            ],
        }
    }

    /// The English table.
    pub fn en() -> (res: HelpLang)
        ensures
            res == en_table(),
    {
        HelpLang {
            code: "en",
            suffix: "root",
            ch_syntax_variant: "Syntax variant",
            ch_syntax: "Syntax",
            ch_parameters: "Parameters",
            ch_returns: "Returned value",
            ch_description: "Description",
            ch_description_variant: "Description of method variant",
            ch_availability: "Availability",
            ch_example: "Example",
            ch_note: "Note",
            ch_usage: "Usage",
            ch_properties: "Properties",
            ch_methods: "Methods",
            type_word: "Type",
            required: "required",
            read_only: "read only",
            client: "client",
            server: ["server", "external connection", "integration"],
            ctor_word: "New",
            note_syntax: "Syntax: ",
            note_returns: "Returns: ",
            note_note: "Note: ",
            note_variant: "Syntax variant \"{name}\": {syntax}",
            section_blurb: "{title}: platform help ({book}).",
            books: [
                Book { stem: "shlang", prefix: "lang", title: "Built-in language", kind: SectionType::Text },
                Book { stem: "shclang", prefix: "clang", title: "General language rules", kind: SectionType::Text },
                Book { stem: "shquery", prefix: "query", title: "Query language", kind: SectionType::QueryLanguage },
            ],
        }
    }

    /// The language of a code; `None` when the code is unknown.
    pub fn from_code(code: &str) -> (res: Option<HelpLang>)
        ensures
            res == lang_of_code(code@),
    {
        let v = chars_of(code);
        let (from, to) = trim_bounds(&v);
        proof {
            assert(v@.subrange(from as int, to as int) == trim(code@));
        }
        if folds_word(&v, from, to, "ru") {
            Some(HelpLang::ru())
        } else if folds_word(&v, from, to, "en") {
            Some(HelpLang::en())
        } else {
            None
        }
    }

    /// The entry book: `shcntx_ru.hbk` / `shcntx_root.hbk`.
    pub fn context_book(&self) -> (res: String)
        ensures
            res@ == "shcntx_"@ + self.suffix@ + ".hbk"@,
    {
        let mut out: Vec<char> = Vec::new();
        push_str(&mut out, "shcntx_");
        push_str(&mut out, self.suffix);
        push_str(&mut out, ".hbk");
        string_of(&out)
    }

    /// The note on a syntax variant: the template with `{name}` and then
    /// `{syntax}` replaced.
    pub fn variant_note(&self, name: &str, syntax: &str) -> (res: String)
        ensures
            res@ == crate::text::replaced(
                crate::text::replaced(self.note_variant@, "{name}"@, name@),
                "{syntax}"@,
                syntax@,
            ),
    {
        proof {
            reveal_strlit("{name}");
            reveal_strlit("{syntax}");
        }
        let first = replace_str(self.note_variant, "{name}", name);
        replace_str(first.as_str(), "{syntax}", syntax)
    }

    /// The content of a book's root section: the template with `{title}` and
    /// then `{book}` replaced.
    pub fn blurb(&self, title: &str, book: &str) -> (res: String)
        ensures
            res@ == crate::text::replaced(
                crate::text::replaced(self.section_blurb@, "{title}"@, title@),
                "{book}"@,
                book@,
            ),
    {
        proof {
            reveal_strlit("{title}");
            reveal_strlit("{book}");
        }
        let first = replace_str(self.section_blurb, "{title}", title);
        replace_str(first.as_str(), "{book}", book)
    }
}

/// The supported language codes, for help texts and error messages.
pub fn codes() -> (res: [&'static str; 2])
    ensures
        res@ == seq!["ru", "en"],
{
    ["ru", "en"]
}

} // verus!
