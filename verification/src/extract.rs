//! The syntax assistant of the platform (`.hbk` help books) taken apart into
//! a knowledge-base [`Document`]: objects and methods of the context help, and
//! the sections of the language books next to it.

use vstd::prelude::*;
use vstd::utf8::{decode_utf8, valid_utf8};
use crate::html::{clipped, text_of, TextRx};
use crate::lang::{Book, HelpLang};
use crate::pattern::{rx_captures, rx_captures_all, rx_compiles, rx_escaped, rx_find, rx_is_match, Pattern};
use crate::keyed::{keyed_at, keyed_entries, keyed_get, keyed_insert, keyed_len, keyed_new, values_below};
use crate::progress::{Reporter, Skipped};
use crate::container::container_items;
use crate::progress::{BookStats, BuildReport};
use crate::platform::{three_components, Platform};
use crate::storage::{file_storage, open_refusal, zip_listing, archive_entries, entry_bytes, entry_count, entry_name, lossy_text, utf8_lossy, Storage, StorageError};
use crate::schema::{ApiMethod, ApiObject, Document, Example, ExecutionContext, Parameter, Property, Section, SectionType};
use crate::text::{
    capped,
    chars_of, find_first, find_from, lowercase, push_chars, push_str, same_chars, same_text,
    starts_with_chars, string_of, strip_trailing, strip_trailing_chars, to_lowercase, trim, trimmed,
};

verus! {

/// The directories of an object's members inside `objects/…`. Events are in
/// the list so that an event page is known as a member, though members of this
/// kind are not taken.
pub open spec fn member_dirs() -> Seq<Seq<char>> {
    seq!["/methods/"@, "/properties/"@, "/ctors/"@, "/events/"@]
}

/// The owner of a member page: the path before the first member directory, by
/// the order of the list: `objects/a/Obj/methods/X.html` → `objects/a/Obj`.
pub open spec fn owner_in(path: Seq<char>, dirs: Seq<Seq<char>>) -> Option<Seq<char>>
    decreases dirs.len(),
{
    if dirs.len() == 0 {
        None
    } else {
        match find_first(path, dirs[0]) {
            Some(i) => Some(path.take(i)),
            None => owner_in(path, dirs.skip(1)),
        }
    }
}

/// The owner of a member page.
pub fn owner_of(path: &str) -> (res: Option<String>)
    ensures
        crate::platform::string_opt(res) == owner_in(path@, member_dirs()),
{
    let p = chars_of(path);
    let dirs: [&str; 4] = ["/methods/", "/properties/", "/ctors/", "/events/"];
    proof {
        reveal_strlit("/methods/");
        reveal_strlit("/properties/");
        reveal_strlit("/ctors/");
        reveal_strlit("/events/");
        assert(member_dirs().skip(0) =~= member_dirs());
    }
    let mut k: usize = 0;
    while k < 4
        invariant
            0 <= k <= 4,
            p@ == path@,
            dirs@ == seq!["/methods/", "/properties/", "/ctors/", "/events/"],
            owner_in(path@, member_dirs()) == owner_in(path@, member_dirs().skip(k as int)),
        decreases 4 - k,
    {
        let d = chars_of(dirs[k]);
        assert(member_dirs().skip(k as int)[0] == d@);
        assert(member_dirs().skip(k as int).skip(1) =~= member_dirs().skip(k + 1));
        match crate::text::find_chars_from(&p, &d, 0) {
            Some(i) => {
                let mut out: Vec<char> = Vec::new();
                push_chars(&mut out, &p[0..i]);
                assert(out@ =~= path@.take(i as int));
                return Some(string_of(&out));
            },
            None => {},
        }
        k = k + 1;
    }
    None
}

/// The English name in the tail of a description: `description (Name)`.
pub open spec fn with_english(description: Seq<char>, english: Seq<char>) -> Seq<char> {
    if description.len() == 0 {
        "("@ + english + ")"@
    } else {
        description + " ("@ + english + ")"@
    }
}

/// The English name in the tail of a description.
pub fn append_english(description: &str, english: &str) -> (res: String)
    ensures
        res@ == with_english(description@, english@),
{
    let mut out: Vec<char> = Vec::new();
    if description.unicode_len() == 0 {
        push_str(&mut out, "(");
    } else {
        push_str(&mut out, description);
        push_str(&mut out, " (");
    }
    push_str(&mut out, english);
    push_str(&mut out, ")");
    string_of(&out)
}

pub open spec fn pagetitle_pattern() -> Seq<char> { "(?s)V8SH_pagetitle\">(.*?)</h1>"@ }
pub open spec fn title_pattern() -> Seq<char> { "(?s)V8SH_title\">(.*?)</p>"@ }
pub open spec fn heading_pattern() -> Seq<char> { "(?s)V8SH_heading\">(.*?)</p>"@ }
pub open spec fn chapter_pattern() -> Seq<char> { "(?s)<p class=\"V8SH_chapter\">\\s*(.*?)\\s*</p>"@ }
pub open spec fn type_line_pattern(word: Seq<char>) -> Seq<char> {
    "(?si)"@ + rx_escaped(word) + ":\\s*(.*?)\\.\\s*(?:<br>|<br/>|$)"@
}
pub open spec fn name_en_pattern() -> Seq<char> { "^(.*?)\\s*\\((.*?)\\)\\s*$"@ }
/// The optional leading `<`, `&lt;` and trailing `>` are vestigial: the input
/// reaches this expression with its angle brackets removed already.
pub open spec fn param_head_pattern() -> Seq<char> { "^<?&?l?t?;?\\s*(.*?)\\s*>?\\s*\\((.*?)\\)\\s*$"@ }
/// Any `<h1>`, whatever its class.
pub open spec fn h1_pattern() -> Seq<char> { "(?is)<h1[^>]*>(.*?)</h1>"@ }
pub open spec fn latin_pattern() -> Seq<char> { "^[A-Za-z][A-Za-z0-9]*$"@ }
pub open spec fn hr_pattern() -> Seq<char> { "(?i)<hr\\s*/?>"@ }

/// Whether `regex` compiles every expression the extractor for `lang` uses.
pub open spec fn extractor_patterns_compile(lang: HelpLang) -> bool {
    &&& crate::html::text_patterns_compile()
    &&& rx_compiles(pagetitle_pattern())
    &&& rx_compiles(title_pattern())
    &&& rx_compiles(heading_pattern())
    &&& rx_compiles(chapter_pattern())
    &&& rx_compiles(type_line_pattern(lang.type_word@))
    &&& rx_compiles(name_en_pattern())
    &&& rx_compiles(param_head_pattern())
    &&& rx_compiles(h1_pattern())
    &&& rx_compiles(latin_pattern())
    &&& rx_compiles(hr_pattern())
}

/// The extractor: the help language and the expressions, compiled once.
pub struct Extractor {
    lang: HelpLang,
    text: TextRx,
    pagetitle: Pattern,
    title: Pattern,
    heading: Pattern,
    chapter: Pattern,
    type_line: Pattern,
    name_en: Pattern,
    param_head: Pattern,
    h1: Pattern,
    latin: Pattern,
    hr: Pattern,
}

/// The page up to its footer, which begins at the first `<hr>`.
pub open spec fn before_footer_of(body: Seq<char>) -> Seq<char> {
    match rx_find(hr_pattern(), body) {
        Some((s, _)) => body.take(s),
        None => body,
    }
}

/// The chapter headings of a page: start and end of each heading's markup and
/// its text, for the matches whose heading group is there.
pub open spec fn marks_of(caps: Seq<Seq<Option<(int, int)>>>, b: Seq<char>) -> Seq<(int, int, Seq<char>)>
    decreases caps.len(),
{
    if caps.len() == 0 {
        Seq::empty()
    } else {
        let g = caps.last();
        marks_of(caps.drop_last(), b) + if g.len() > 1 && g[0] is Some && g[1] is Some {
            seq![(g[0].unwrap().0, g[0].unwrap().1, text_of(b.subrange(g[1].unwrap().0, g[1].unwrap().1), false))]
        } else {
            Seq::empty()
        }
    }
}

/// The chapters of a page, in order: the heading without its trailing colons
/// and spaces, and the markup up to the next heading (or the footer).
pub open spec fn chapters_of(body: Seq<char>) -> Seq<(Seq<char>, Seq<char>)> {
    let b = before_footer_of(body);
    let marks = marks_of(rx_captures_all(chapter_pattern(), b), b);
    Seq::new(marks.len(), |i: int| (
        trim(strip_trailing(marks[i].2, ':')),
        b.subrange(marks[i].1, if i + 1 < marks.len() { marks[i + 1].0 } else { b.len() as int }),
    ))
}

/// The block of the last chapter with that heading (as a dictionary built
/// from the chapter list would keep).
pub open spec fn chapter_block(chapters: Seq<(Seq<char>, Seq<char>)>, title: Seq<char>) -> Option<Seq<char>>
    decreases chapters.len(),
{
    if chapters.len() == 0 {
        None
    } else if chapters.last().0 == title {
        Some(chapters.last().1)
    } else {
        chapter_block(chapters.drop_last(), title)
    }
}

/// `Name (EnglishName)` → (`Name`, `EnglishName`), from the plain text of the
/// markup; without parentheses the English name is empty.
pub open spec fn names_of(raw: Seq<char>) -> (Seq<char>, Seq<char>) {
    let plain = text_of(raw, false);
    match rx_captures(name_en_pattern(), plain) {
        Some(c) => if c.len() > 2 && c[1] is Some && c[2] is Some {
            (trim(plain.subrange(c[1].unwrap().0, c[1].unwrap().1)), trim(plain.subrange(c[2].unwrap().0, c[2].unwrap().1)))
        } else {
            (plain, Seq::empty())
        },
        None => (plain, Seq::empty()),
    }
}

/// The block of the last chapter with that heading.
pub fn chapter_of<'a>(chapters: &'a [(String, String)], title: &str) -> (res: Option<&'a String>)
    ensures
        crate::platform::string_opt(match res { Some(s) => Some(*s), None => None })
            == chapter_block(chapters@.map_values(|c: (String, String)| (c.0@, c.1@)), title@),
{
    let ghost views = chapters@.map_values(|c: (String, String)| (c.0@, c.1@));
    let mut found: Option<&'a String> = None;
    let mut i: usize = 0;
    while i < chapters.len()
        invariant
            0 <= i <= chapters@.len(),
            views == chapters@.map_values(|c: (String, String)| (c.0@, c.1@)),
            crate::platform::string_opt(match found { Some(s) => Some(*s), None => None })
                == chapter_block(views.take(i as int), title@),
        decreases chapters@.len() - i,
    {
        assert(views.take(i + 1).drop_last() =~= views.take(i as int));
        if same_text(chapters[i].0.as_str(), title) {
            found = Some(&chapters[i].1);
        }
        i = i + 1;
    }
    assert(views.take(chapters@.len() as int) =~= views);
    found
}

/// The chapter headings as model values.
pub open spec fn mark_view(m: (usize, usize, String)) -> (int, int, Seq<char>) {
    (m.0 as int, m.1 as int, m.2@)
}

/// The characters from `a` to `b` as a string.
fn substring(v: &[char], a: usize, b: usize) -> (res: String)
    requires
        a <= b <= v@.len(),
    ensures
        res@ == v@.subrange(a as int, b as int),
{
    string_of(&v[a..b])
}

impl Extractor {
    #[verifier::type_invariant]
    spec fn wf(&self) -> bool {
        &&& self.pagetitle.source() == pagetitle_pattern()
        &&& self.title.source() == title_pattern()
        &&& self.heading.source() == heading_pattern()
        &&& self.chapter.source() == chapter_pattern()
        &&& self.type_line.source() == type_line_pattern(self.lang.type_word@)
        &&& self.name_en.source() == name_en_pattern()
        &&& self.param_head.source() == param_head_pattern()
        &&& self.h1.source() == h1_pattern()
        &&& self.latin.source() == latin_pattern()
        &&& self.hr.source() == hr_pattern()
    }

    /// The help language of the extractor.
    pub closed spec fn language(&self) -> HelpLang {
        self.lang
    }

    /// An extractor for a help language; `None` when `regex` refuses an
    /// expression.
    pub fn new(lang: HelpLang) -> (res: Option<Self>)
        ensures
            res is Some <==> extractor_patterns_compile(lang),
            res matches Some(e) ==> e.language() == lang,
    {
        let text = TextRx::new()?;
        let pagetitle = Pattern::new("(?s)V8SH_pagetitle\">(.*?)</h1>")?;
        let title = Pattern::new("(?s)V8SH_title\">(.*?)</p>")?;
        let heading = Pattern::new("(?s)V8SH_heading\">(.*?)</p>")?;
        let chapter = Pattern::new("(?s)<p class=\"V8SH_chapter\">\\s*(.*?)\\s*</p>")?;
        let word = crate::pattern::escape(lang.type_word);
        let mut source: Vec<char> = Vec::new();
        push_str(&mut source, "(?si)");
        push_str(&mut source, word.as_str());
        push_str(&mut source, ":\\s*(.*?)\\.\\s*(?:<br>|<br/>|$)");
        let type_source = string_of(&source);
        let type_line = Pattern::new(type_source.as_str())?;
        let name_en = Pattern::new("^(.*?)\\s*\\((.*?)\\)\\s*$")?;
        let param_head = Pattern::new("^<?&?l?t?;?\\s*(.*?)\\s*>?\\s*\\((.*?)\\)\\s*$")?;
        // Any <h1> is a heading: shcntx, shlang, shquery and shclang mark it
        // with different classes, or none.
        let h1 = Pattern::new("(?is)<h1[^>]*>(.*?)</h1>")?;
        let latin = Pattern::new("^[A-Za-z][A-Za-z0-9]*$")?;
        let hr = Pattern::new("(?i)<hr\\s*/?>")?;
        Some(Extractor { lang, text, pagetitle, title, heading, chapter, type_line, name_en, param_head, h1, latin, hr })
    }

    /// A page up to its footer.
    pub fn before_footer(&self, body: &str) -> (res: String)
        ensures
            res@ == before_footer_of(body@),
    {
        proof {
            use_type_invariant(self);
        }
        match self.hr.find(body) {
            Some((s, _)) => {
                let v = chars_of(body);
                let r = substring(&v, 0, s);
                assert(r@ =~= body@.take(s as int));
                r
            },
            None => String::from_str(body),
        }
    }

    fn chapter_marks(&self, b: &str) -> (res: Vec<(usize, usize, String)>)
        ensures
            res@.map_values(|m: (usize, usize, String)| mark_view(m)) == marks_of(rx_captures_all(chapter_pattern(), b@), b@),
            forall|i: int| 0 <= i < res@.len() ==> (#[trigger] res@[i]).0 <= res@[i].1 <= b@.len(),
            forall|i: int| 0 <= i < res@.len() - 1 ==> (#[trigger] res@[i]).1 <= res@[i + 1].0,
    {
        proof {
            use_type_invariant(self);
        }
        let bc = chars_of(b);
        let caps = self.chapter.captures_all(b);
        let ghost cv = rx_captures_all(chapter_pattern(), b@);
        let mut marks: Vec<(usize, usize, String)> = Vec::new();
        let mut k: usize = 0;
        while k < caps.len()
            invariant
                0 <= k <= caps@.len(),
                bc@ == b@,
                cv == rx_captures_all(chapter_pattern(), b@),
                caps@.len() == cv.len(),
                forall|i: int| 0 <= i < caps@.len() ==> #[trigger] crate::pattern::ranges(caps@[i]@) == cv[i],
                forall|i: int| 0 <= i < caps@.len() ==> crate::pattern::groups_in_text(#[trigger] cv[i], b@.len() as int),
                forall|i: int| 0 <= i < caps@.len() - 1 ==> (#[trigger] cv[i])[0].unwrap().1 <= cv[i + 1][0].unwrap().0,
                marks@.map_values(|m: (usize, usize, String)| mark_view(m)) == marks_of(cv.take(k as int), b@),
                forall|i: int| 0 <= i < marks@.len() ==> (#[trigger] marks@[i]).0 <= marks@[i].1 <= b@.len(),
                forall|i: int| 0 <= i < marks@.len() - 1 ==> (#[trigger] marks@[i]).1 <= marks@[i + 1].0,
                marks@.len() > 0 && k < caps@.len() ==> marks@.last().1 <= cv[k as int][0].unwrap().0,
            decreases caps@.len() - k,
        {
            let g = &caps[k];
            assert(cv.take(k + 1).drop_last() =~= cv.take(k as int));
            assert(cv.take(k + 1).last() == cv[k as int]);
            assert(crate::pattern::groups_in_text(cv[k as int], b@.len() as int));
            assert(cv[k as int][0] is Some);
            assert(crate::pattern::ranges(g@)[0] == cv[k as int][0]);
            let ghost before = marks@;
            if g.len() > 1 {
                match (g[0], g[1]) {
                    (Some((s0, e0)), Some((s1, e1))) => {
                        assert(crate::pattern::ranges(g@)[1] == cv[k as int][1]);
                        assert(crate::pattern::in_text(cv[k as int][1], b@.len() as int));
                        let inner = substring(&bc, s1, e1);
                        let t = self.text.text(inner.as_str(), false);
                        marks.push((s0, e0, t));
                        assert(marks@.map_values(|m: (usize, usize, String)| mark_view(m))
                            =~= before.map_values(|m: (usize, usize, String)| mark_view(m)).push(mark_view((s0, e0, t))));
                    },
                    _ => {},
                }
            }
            proof {
                if k + 1 < caps@.len() {
                    assert(cv[k as int][0].unwrap().1 <= cv[k + 1][0].unwrap().0);
                }
            }
            k = k + 1;
        }
        assert(cv.take(caps@.len() as int) =~= cv);
        marks
    }

    /// The chapters of a page: heading and markup, in order.
    pub fn chapters(&self, body: &str) -> (res: Vec<(String, String)>)
        ensures
            res@.len() == chapters_of(body@).len(),
            forall|i: int| 0 <= i < res@.len() ==> (#[trigger] res@[i]).0@ == chapters_of(body@)[i].0 && res@[i].1@ == chapters_of(body@)[i].1,
    {
        let b = self.before_footer(body);
        let bc = chars_of(b.as_str());
        let marks = self.chapter_marks(b.as_str());
        let ghost marks_model = marks_of(rx_captures_all(chapter_pattern(), b@), b@);
        let mut out: Vec<(String, String)> = Vec::new();
        let mut i: usize = 0;
        while i < marks.len()
            invariant
                0 <= i <= marks@.len(),
                bc@ == b@,
                b@ == before_footer_of(body@),
                marks_model == marks_of(rx_captures_all(chapter_pattern(), b@), b@),
                marks@.map_values(|m: (usize, usize, String)| mark_view(m)) == marks_model,
                forall|j: int| 0 <= j < marks@.len() ==> (#[trigger] marks@[j]).0 <= marks@[j].1 <= b@.len(),
                forall|j: int| 0 <= j < marks@.len() - 1 ==> (#[trigger] marks@[j]).1 <= marks@[j + 1].0,
                out@.len() == i,
                forall|j: int| 0 <= j < i ==> (#[trigger] out@[j]).0@ == chapters_of(body@)[j].0 && out@[j].1@ == chapters_of(body@)[j].1,
            decreases marks@.len() - i,
        {
            let stop = if i + 1 < marks.len() { marks[i + 1].0 } else { bc.len() };
            let tc = chars_of(marks[i].2.as_str());
            let stripped = strip_trailing_chars(&tc, ':');
            let title = string_of(&trimmed(&stripped));
            let block = substring(&bc, marks[i].1, stop);
            proof {
                assert(mark_view(marks@[i as int]) == marks_model[i as int]);
                if i + 1 < marks@.len() {
                    assert(mark_view(marks@[i + 1]) == marks_model[i + 1]);
                }
            }
            out.push((title, block));
            i = i + 1;
        }
        out
    }

    /// `СхемаЗапроса (QuerySchema)` → (`СхемаЗапроса`, `QuerySchema`).
    pub fn split_names(&self, raw: &str) -> (res: (String, String))
        ensures
            (res.0@, res.1@) == names_of(raw@),
    {
        proof {
            use_type_invariant(self);
        }
        let plain = self.text.text(raw, false);
        match self.name_en.captures(plain.as_str()) {
            Some(c) => {
                if c.len() > 2 {
                    match (c[1], c[2]) {
                        (Some((a0, a1)), Some((b0, b1))) => {
                            let pc = chars_of(plain.as_str());
                            proof {
                                let m = rx_captures(name_en_pattern(), plain@).unwrap();
                                assert(crate::pattern::ranges(c@)[1] == m[1]);
                                assert(crate::pattern::ranges(c@)[2] == m[2]);
                                assert(crate::pattern::in_text(m[1], plain@.len() as int));
                                assert(crate::pattern::in_text(m[2], plain@.len() as int));
                            }
                            let first = substring(&pc, a0, a1);
                            let second = substring(&pc, b0, b1);
                            let fc = chars_of(first.as_str());
                            let sc = chars_of(second.as_str());
                            return (string_of(&trimmed(&fc)), string_of(&trimmed(&sc)));
                        },
                        _ => {
                            proof {
                                let m = rx_captures(name_en_pattern(), plain@).unwrap();
                                assert(crate::pattern::ranges(c@)[1] == m[1]);
                                assert(crate::pattern::ranges(c@)[2] == m[2]);
                            }
                        },
                    }
                }
                (plain, String::new())
            },
            None => (plain, String::new()),
        }
    }
}

/// The opening of a parameter rubric.
pub open spec fn rubric_open() -> Seq<char> { "<div class=\"V8SH_rubric\">"@ }

/// The rubrics of a parameter block from position `pos` on: the rubric's markup
/// up to the first `</div>`, and the tail up to the next rubric or the end. A
/// rubric that is never closed ends the list.
pub open spec fn rubrics_from(b: Seq<char>, pos: int) -> Seq<(Seq<char>, Seq<char>)>
    decreases b.len() - pos,
{
    if pos < 0 || pos > b.len() {
        Seq::empty()
    } else {
        match find_from(b, rubric_open(), pos) {
            None => Seq::empty(),
            Some(open) => {
                let cs = open + rubric_open().len();
                match find_from(b, "</div>"@, cs) {
                    None => Seq::empty(),
                    Some(close) => {
                        let ts = close + 6;
                        let te = match find_from(b, rubric_open(), ts) {
                            Some(r) => r,
                            None => b.len() as int,
                        };
                        proof {
                            crate::text::lemma_find_from_bounds(b, rubric_open(), pos);
                            crate::text::lemma_find_from_bounds(b, "</div>"@, cs);
                            crate::text::lemma_find_from_bounds(b, rubric_open(), ts);
                            reveal_strlit("</div>");
                            reveal_strlit("<div class=\"V8SH_rubric\">");
                        }
                        if te <= pos {
                            Seq::empty()
                        } else {
                            seq![(b.subrange(cs, close), b.subrange(ts, te))] + rubrics_from(b, te)
                        }
                    },
                }
            },
        }
    }
}

/// A parameter as text: name, type, required, description.
pub open spec fn param_view(p: Parameter) -> (Seq<char>, Seq<char>, bool, Seq<char>) {
    (p.name@, p.param_type@, p.required, p.description@)
}

/// The type and the rest of a block that starts with a type line
/// (`Тип: Число.`): the type as text and the text after the line; without the
/// line, no type and the whole block as text.
pub open spec fn typed_text(lang: HelpLang, block: Seq<char>) -> (Seq<char>, Seq<char>) {
    match rx_captures(type_line_pattern(lang.type_word@), block) {
        Some(t) => (
            if t.len() > 1 && t[1] is Some { text_of(block.subrange(t[1].unwrap().0, t[1].unwrap().1), false) } else { Seq::empty() },
            text_of(block.skip(t[0].unwrap().1), false),
        ),
        None => (Seq::empty(), text_of(block, false)),
    }
}

/// The parameter a rubric describes, if its heading reads as `<Name> (flag)`.
pub open spec fn param_of(lang: HelpLang, rubric: Seq<char>, tail: Seq<char>) -> Option<(Seq<char>, Seq<char>, bool, Seq<char>)> {
    let head = crate::text::without_two(text_of(rubric, false), '<', '>');
    match rx_captures(param_head_pattern(), head) {
        Some(c) => if c.len() > 2 && c[1] is Some && c[2] is Some {
            let name = trim(head.subrange(c[1].unwrap().0, c[1].unwrap().1));
            let flag = head.subrange(c[2].unwrap().0, c[2].unwrap().1);
            let (ptype, desc) = typed_text(lang, tail);
            Some((name, ptype, lang.required@.is_prefix_of(lowercase(trim(flag))), clipped(desc, 400)))
        } else {
            None
        },
        None => None,
    }
}

/// The parameters of a block, rubric by rubric.
pub open spec fn params_of(lang: HelpLang, rubrics: Seq<(Seq<char>, Seq<char>)>) -> Seq<(Seq<char>, Seq<char>, bool, Seq<char>)>
    decreases rubrics.len(),
{
    if rubrics.len() == 0 {
        Seq::empty()
    } else {
        params_of(lang, rubrics.drop_last()) + match param_of(lang, rubrics.last().0, rubrics.last().1) {
            Some(p) => seq![p],
            None => Seq::empty(),
        }
    }
}

/// Whether some word of a list occurs in the text.
pub open spec fn any_occurs(s: Seq<char>, words: Seq<Seq<char>>) -> bool {
    exists|k: int| 0 <= k < words.len() && find_first(s, #[trigger] words[k]) is Some
}

/// The execution context an availability text names: client and server words
/// both or neither mean both.
pub open spec fn availability_of(lang: HelpLang, raw: Seq<char>) -> ExecutionContext {
    let s = lowercase(raw);
    let client = find_first(s, lang.client@) is Some;
    let server = any_occurs(s, lang.server@.map_values(|w: &'static str| w@));
    if client && !server {
        ExecutionContext::Client
    } else if !client && server {
        ExecutionContext::Server
    } else {
        ExecutionContext::Both
    }
}

/// The names by which a section must be found: the Russian title, the English
/// one when it is Latin (spaces aside), and the page name when it is Latin and
/// not already there.
pub open spec fn keywords_of(title_ru: Seq<char>, title_en: Seq<char>, page: Seq<char>) -> Seq<Seq<char>> {
    let w1: Seq<Seq<char>> = if title_ru.len() > 0 { seq![title_ru] } else { Seq::empty() };
    let w2 = if title_en.len() > 0 && rx_is_match(latin_pattern(), crate::text::replaced(title_en, " "@, Seq::empty())) {
        w1.push(title_en)
    } else {
        w1
    };
    let stem = stem_of(page);
    if rx_is_match(latin_pattern(), stem) && !w2.contains(stem) { w2.push(stem) } else { w2 }
}

/// A property read from its page: type, description, read-only — chapter by
/// chapter, later chapters overriding earlier ones.
pub open spec fn property_of(lang: HelpLang, chapters: Seq<(Seq<char>, Seq<char>)>) -> (Seq<char>, Seq<char>, bool)
    decreases chapters.len(),
{
    if chapters.len() == 0 {
        (Seq::empty(), Seq::empty(), false)
    } else {
        let (t, d, r) = property_of(lang, chapters.drop_last());
        let (title, block) = chapters.last();
        if title == lang.ch_usage@ {
            (t, d, find_first(lowercase(text_of(block, false)), lang.read_only@) is Some)
        } else if title == lang.ch_description@ {
            let (pt, desc) = typed_text(lang, block);
            (pt, desc, r)
        } else {
            (t, d, r)
        }
    }
}

/// A page name without `.html`.
pub open spec fn stem_of(page: Seq<char>) -> Seq<char> {
    if ".html"@.is_suffix_of(page) { page.take(page.len() - 5) } else { page }
}

fn page_stem(page: &str) -> (res: String)
    ensures
        res@ == stem_of(page@),
{
    proof {
        reveal_strlit(".html");
    }
    let pc = chars_of(page);
    let suffix = chars_of(".html");
    if crate::text::ends_with_chars(&pc, &suffix) {
        proof {
            assert(page@.skip(page@.len() - 5) == ".html"@);
            assert(page@.subrange(page@.len() - 5, page@.len() as int) =~= page@.skip(page@.len() - 5));
        }
        let r = substring(&pc, 0, pc.len() - 5);
        assert(r@ =~= page@.take(page@.len() - 5));
        r
    } else {
        proof {
            if ".html"@.is_suffix_of(page@) {
                assert(page@.subrange(page@.len() - 5, page@.len() as int) =~= page@.skip(page@.len() - 5));
            }
        }
        String::from_str(page)
    }
}

impl Extractor {
    /// The rubrics of a parameter block, without lookahead: each rubric runs to
    /// the first `</div>`, its tail to the next rubric or the end of the block.
    pub fn rubrics(&self, block: &str) -> (res: Vec<(String, String)>)
        ensures
            res@.map_values(|r: (String, String)| (r.0@, r.1@)) == rubrics_from(block@, 0),
    {
        let b = chars_of(block);
        let open = chars_of("<div class=\"V8SH_rubric\">");
        let close = chars_of("</div>");
        proof {
            reveal_strlit("<div class=\"V8SH_rubric\">");
            reveal_strlit("</div>");
        }
        let mut out: Vec<(String, String)> = Vec::new();
        let mut pos: usize = 0;
        assert(rubrics_from(block@, 0) =~= Seq::<(String, String)>::empty().map_values(|r: (String, String)| (r.0@, r.1@)) + rubrics_from(block@, 0));
        loop
            invariant
                0 <= pos <= b@.len(),
                b@ == block@,
                open@ == rubric_open(),
                close@ == "</div>"@,
                out@.map_values(|r: (String, String)| (r.0@, r.1@)) + rubrics_from(block@, pos as int) == rubrics_from(block@, 0),
            ensures
                out@.map_values(|r: (String, String)| (r.0@, r.1@)) == rubrics_from(block@, 0),
            decreases b@.len() - pos,
        {
            proof {
                reveal_strlit("<div class=\"V8SH_rubric\">");
                reveal_strlit("</div>");
            }
            let ghost before = out@;
            let found_open = crate::text::find_chars_from(&b, &open, pos);
            if found_open.is_none() {
                assert(rubrics_from(block@, pos as int) =~= Seq::empty());
                assert(out@.map_values(|r: (String, String)| (r.0@, r.1@)) + Seq::empty() =~= out@.map_values(|r: (String, String)| (r.0@, r.1@)));
                break;
            }
            let open_at = found_open.unwrap();
            assert(open_at + open@.len() <= b@.len());
            assert(b@.len() == b.len());
            assert(open@.len() == open.len());
            let content_start = open_at + open.len();
            let found_close = crate::text::find_chars_from(&b, &close, content_start);
            if found_close.is_none() {
                assert(rubrics_from(block@, pos as int) =~= Seq::empty());
                assert(out@.map_values(|r: (String, String)| (r.0@, r.1@)) + Seq::empty() =~= out@.map_values(|r: (String, String)| (r.0@, r.1@)));
                break;
            }
            let close_at = found_close.unwrap();
            assert(close_at + close@.len() <= b@.len());
            assert(close@.len() == close.len());
            proof {
                crate::text::lemma_find_from_bounds(b@, close@, content_start as int);
            }
            let tail_start = close_at + close.len();
            let tail_end = match crate::text::find_chars_from(&b, &open, tail_start) {
                Some(r) => r,
                None => b.len(),
            };
            proof {
                crate::text::lemma_find_from_bounds(b@, open@, tail_start as int);
                crate::text::lemma_find_from_bounds(b@, open@, pos as int);
            }
            let rubric = substring(&b, content_start, close_at);
            let tail = substring(&b, tail_start, tail_end);
            out.push((rubric, tail));
            proof {
                crate::text::lemma_find_from_bounds(b@, open@, pos as int);
                assert(open@.len() > 0);
                assert(close@.len() == 6);
                assert(open_at >= pos);
                assert(close_at >= content_start);
                assert(tail_end >= tail_start);
                assert(tail_end > pos);
                assert(rubrics_from(block@, pos as int) == seq![(rubric@, tail@)] + rubrics_from(block@, tail_end as int));
                assert(out@.map_values(|r: (String, String)| (r.0@, r.1@)) =~= before.map_values(|r: (String, String)| (r.0@, r.1@)).push((rubric@, tail@)));
                assert(out@.map_values(|r: (String, String)| (r.0@, r.1@)) + rubrics_from(block@, tail_end as int)
                    =~= before.map_values(|r: (String, String)| (r.0@, r.1@)) + rubrics_from(block@, pos as int));
            }
            pos = tail_end;
        }
        out
    }

    fn typed(&self, block: &str) -> (res: (String, String))
        ensures
            (res.0@, res.1@) == typed_text(self.language(), block@),
    {
        proof {
            use_type_invariant(self);
        }
        match self.type_line.captures(block) {
            Some(t) => {
                let bc = chars_of(block);
                proof {
                    let m = rx_captures(type_line_pattern(self.lang.type_word@), block@).unwrap();
                    assert(crate::pattern::ranges(t@)[0] == m[0]);
                    assert(crate::pattern::in_text(m[0], block@.len() as int));
                    if t@.len() > 1 {
                        assert(crate::pattern::ranges(t@)[1] == m[1]);
                        assert(crate::pattern::in_text(m[1], block@.len() as int));
                    }
                }
                let value = if t.len() > 1 {
                    match t[1] {
                        Some((a, b)) => {
                            let inner = substring(&bc, a, b);
                            self.text.text(inner.as_str(), false)
                        },
                        None => String::new(),
                    }
                } else {
                    String::new()
                };
                let end = match t[0] {
                    Some((_, e)) => e,
                    None => 0,
                };
                let rest = substring(&bc, end, bc.len());
                assert(rest@ =~= block@.skip(end as int));
                (value, self.text.text(rest.as_str(), false))
            },
            None => (String::new(), self.text.text(block, false)),
        }
    }

    /// The parameters of a block, rubric by rubric: a rubric whose heading does
    /// not read as `<Name> (flag)` is passed over.
    pub fn parse_params(&self, block: &str) -> (res: Vec<Parameter>)
        ensures
            res@.map_values(|p: Parameter| param_view(p)) == params_of(self.language(), rubrics_from(block@, 0)),
    {
        proof {
            use_type_invariant(self);
        }
        let rubrics = self.rubrics(block);
        let ghost rv = rubrics@.map_values(|r: (String, String)| (r.0@, r.1@));
        let mut params: Vec<Parameter> = Vec::new();
        let mut i: usize = 0;
        while i < rubrics.len()
            invariant
                0 <= i <= rubrics@.len(),
                rv == rubrics@.map_values(|r: (String, String)| (r.0@, r.1@)),
                rv == rubrics_from(block@, 0),
                params@.map_values(|p: Parameter| param_view(p)) == params_of(self.language(), rv.take(i as int)),
            decreases rubrics@.len() - i,
        {
            assert(rv.take(i + 1).drop_last() =~= rv.take(i as int));
            assert(rv.take(i + 1).last() == (rubrics@[i as int].0@, rubrics@[i as int].1@));
            let ghost before = params@;
            match self.param_of_rubric(rubrics[i].0.as_str(), rubrics[i].1.as_str()) {
                Some(p) => {
                    params.push(p);
                    assert(params@.map_values(|p: Parameter| param_view(p)) =~= before.map_values(|p: Parameter| param_view(p)).push(param_view(p)));
                },
                None => {},
            }
            i = i + 1;
        }
        assert(rv.take(rubrics@.len() as int) =~= rv);
        params
    }

    fn param_of_rubric(&self, rubric: &str, tail: &str) -> (res: Option<Parameter>)
        ensures
            match res {
                Some(p) => param_of(self.language(), rubric@, tail@) == Some(param_view(p)),
                None => param_of(self.language(), rubric@, tail@) is None,
            },
    {
        proof {
            use_type_invariant(self);
        }
        let plain = self.text.text(rubric, false);
        let pc = chars_of(plain.as_str());
        let head_chars = crate::text::remove_two(&pc, '<', '>');
        let head = string_of(&head_chars);
        let c = match self.param_head.captures(head.as_str()) {
            Some(c) => c,
            None => {
                return None;
            },
        };
        if c.len() <= 2 {
            return None;
        }
        proof {
            let m = rx_captures(param_head_pattern(), head@).unwrap();
            assert(crate::pattern::ranges(c@)[1] == m[1]);
            assert(crate::pattern::ranges(c@)[2] == m[2]);
            assert(crate::pattern::in_text(m[1], head@.len() as int));
            assert(crate::pattern::in_text(m[2], head@.len() as int));
        }
        let (n0, n1, f0, f1) = match (c[1], c[2]) {
            (Some((n0, n1)), Some((f0, f1))) => (n0, n1, f0, f1),
            _ => {
                return None;
            },
        };
        let name_raw = chars_of(substring(&head_chars, n0, n1).as_str());
        let name = string_of(&trimmed(&name_raw));
        let flag_raw = chars_of(substring(&head_chars, f0, f1).as_str());
        let flag_trimmed = string_of(&trimmed(&flag_raw));
        let flag_lower = to_lowercase(flag_trimmed.as_str());
        let fl = chars_of(flag_lower.as_str());
        let req = chars_of(self.lang.required);
        let required = starts_with_chars(&fl, &req);
        proof {
            assert(required == self.lang.required@.is_prefix_of(lowercase(trim(flag_raw@))));
        }
        let (param_type, description) = self.typed(tail);
        let clipped_description = crate::html::clip(description.as_str(), 400);
        Some(Parameter { name, param_type, required, description: clipped_description })
    }

    /// The execution context from the "Availability" chapter: client and server
    /// both, or neither recognised, mean both.
    pub fn availability(&self, raw: &str) -> (res: ExecutionContext)
        ensures
            res == availability_of(self.language(), raw@),
    {
        let lower = to_lowercase(raw);
        let s = chars_of(lower.as_str());
        let client_word = chars_of(self.lang.client);
        let client = crate::text::contains_chars(&s, &client_word);
        let mut server = false;
        let mut k: usize = 0;
        let ghost words = self.lang.server@.map_values(|w: &'static str| w@);
        while k < 3
            invariant
                0 <= k <= 3,
                s@ == lowercase(raw@),
                words == self.lang.server@.map_values(|w: &'static str| w@),
                words.len() == 3,
                server == (exists|j: int| 0 <= j < k && find_first(s@, #[trigger] words[j]) is Some),
            decreases 3 - k,
        {
            let w = chars_of(self.lang.server[k]);
            assert(words[k as int] == w@);
            if crate::text::contains_chars(&s, &w) {
                server = true;
            }
            k = k + 1;
        }
        if client && !server {
            ExecutionContext::Client
        } else if !client && server {
            ExecutionContext::Server
        } else {
            ExecutionContext::Both
        }
    }

    /// The names a section is found by (weighted in the index).
    pub fn page_keywords(&self, title_ru: &str, title_en: &str, page: &str) -> (res: Vec<String>)
        ensures
            res@.map_values(|w: String| w@) == keywords_of(title_ru@, title_en@, page@),
    {
        proof {
            use_type_invariant(self);
            reveal_strlit(" ");
            reveal_strlit("");
            reveal_strlit(".html");
        }
        let mut words: Vec<String> = Vec::new();
        if title_ru.unicode_len() > 0 {
            words.push(String::from_str(title_ru));
        }
        let ghost w1 = words@.map_values(|w: String| w@);
        assert(w1 =~= (if title_ru@.len() > 0 { seq![title_ru@] } else { Seq::<Seq<char>>::empty() }));
        assert(""@ =~= Seq::<char>::empty());
        if title_en.unicode_len() > 0 {
            let squeezed = crate::text::replace_str(title_en, " ", "");
            if self.latin.is_match(squeezed.as_str()) {
                words.push(String::from_str(title_en));
                assert(words@.map_values(|w: String| w@) =~= w1.push(title_en@));
            }
        }
        let ghost w2 = words@.map_values(|w: String| w@);
        assert(w2 == (if title_en@.len() > 0 && rx_is_match(latin_pattern(), crate::text::replaced(title_en@, " "@, Seq::empty())) {
            w1.push(title_en@)
        } else {
            w1
        }));
        let stem = page_stem(page);
        if self.latin.is_match(stem.as_str()) {
            let mut present = false;
            let mut i: usize = 0;
            while i < words.len()
                invariant
                    0 <= i <= words@.len(),
                    w2 == words@.map_values(|w: String| w@),
                    present == (exists|j: int| 0 <= j < i && w2[j] == stem@),
                decreases words@.len() - i,
            {
                if same_text(words[i].as_str(), stem.as_str()) {
                    assert(w2[i as int] == stem@);
                    present = true;
                } else {
                    assert(w2[i as int] != stem@);
                }
                i = i + 1;
            }
            proof {
                if w2.contains(stem@) {
                    let j = choose|j: int| 0 <= j < w2.len() && w2[j] == stem@;
                    assert(present);
                }
            }
            if !present {
                words.push(stem);
                assert(words@.map_values(|w: String| w@) =~= w2.push(stem@));
            }
        }
        words
    }

    /// A property page: its type, description and whether it is read-only.
    pub fn parse_property(&self, body: &str) -> (res: (String, String, bool))
        ensures
            (res.0@, res.1@, res.2) == property_of(self.language(), chapters_of(body@)),
    {
        let chapters = self.chapters(body);
        let ghost cv = chapters_of(body@);
        let mut property_type = String::new();
        let mut description = String::new();
        let mut readonly = false;
        let mut i: usize = 0;
        while i < chapters.len()
            invariant
                0 <= i <= chapters@.len(),
                cv == chapters_of(body@),
                chapters@.len() == cv.len(),
                forall|j: int| 0 <= j < chapters@.len() ==> (#[trigger] chapters@[j]).0@ == cv[j].0 && chapters@[j].1@ == cv[j].1,
                (property_type@, description@, readonly) == property_of(self.language(), cv.take(i as int)),
            decreases chapters@.len() - i,
        {
            assert(cv.take(i + 1).drop_last() =~= cv.take(i as int));
            assert(cv.take(i + 1).last() == cv[i as int]);
            let title = chapters[i].0.as_str();
            let block = chapters[i].1.as_str();
            if same_text(title, self.lang.ch_usage) {
                let t = self.text.text(block, false);
                let lower = to_lowercase(t.as_str());
                let lc = chars_of(lower.as_str());
                let mark = chars_of(self.lang.read_only);
                readonly = crate::text::contains_chars(&lc, &mark);
            } else if same_text(title, self.lang.ch_description) {
                let (pt, d) = self.typed(block);
                property_type = pt;
                description = d;
            }
            i = i + 1;
        }
        assert(cv.take(chapters@.len() as int) =~= cv);
        (property_type, description, readonly)
    }
}

/// A member page taken apart: description, execution context, returned type,
/// parameters, examples and notes.
#[derive(Debug, Clone)]
pub struct Member {
    pub description: String,
    pub context: ExecutionContext,
    pub return_type: Option<String>,
    pub parameters: Vec<Parameter>,
    pub examples: Vec<Example>,
    pub notes: Vec<String>,
}

/// A parameter model.
pub type ParamModel = (Seq<char>, Seq<char>, bool, Seq<char>);

/// The state of reading a member page: description, context, returned type,
/// parameters, example code, notes, and the syntax variants met (name,
/// signature, parameters).
pub type MemberState = (
    Seq<char>,
    ExecutionContext,
    Option<Seq<char>>,
    Seq<ParamModel>,
    Seq<Seq<char>>,
    Seq<Seq<char>>,
    Seq<(Seq<char>, Seq<char>, Seq<ParamModel>)>,
);

/// The name of a syntax variant: the heading after its first colon, trimmed,
/// or the whole heading.
pub open spec fn variant_name(title: Seq<char>) -> Seq<char> {
    match find_first(title, ":"@) {
        Some(i) => trim(title.skip(i + 1)),
        None => trim(title),
    }
}

/// One chapter read into the state.
pub open spec fn member_step(lang: HelpLang, st: MemberState, title: Seq<char>, block: Seq<char>) -> MemberState {
    let (desc, ctx, ret, params, examples, notes, variants) = st;
    if lang.ch_syntax_variant@.is_prefix_of(title) {
        (desc, ctx, ret, params, examples, notes, variants.push((variant_name(title), Seq::empty(), Seq::empty())))
    } else if title == lang.ch_syntax@ {
        let signature = text_of(block, false);
        if variants.len() > 0 {
            let last = variants.last();
            (desc, ctx, ret, params, examples, notes, variants.drop_last().push((last.0, signature, last.2)))
        } else if signature.len() > 0 {
            (desc, ctx, ret, params, examples, seq![lang.note_syntax@ + signature] + notes, variants)
        } else {
            st
        }
    } else if title == lang.ch_parameters@ {
        let parsed = params_of(lang, rubrics_from(block, 0));
        if variants.len() > 0 {
            let last = variants.last();
            (desc, ctx, ret, params, examples, notes, variants.drop_last().push((last.0, last.1, parsed)))
        } else if params.len() == 0 {
            (desc, ctx, ret, parsed, examples, notes, variants)
        } else {
            st
        }
    } else if title == lang.ch_returns@ {
        match rx_captures(type_line_pattern(lang.type_word@), block) {
            Some(t) => {
                let r = if t.len() > 1 && t[1] is Some {
                    Some(text_of(block.subrange(t[1].unwrap().0, t[1].unwrap().1), false))
                } else {
                    None
                };
                let tail = text_of(block.skip(t[0].unwrap().1), false);
                let notes2 = if tail.len() > 0 { notes.push(lang.note_returns@ + clipped(tail, 300)) } else { notes };
                (desc, ctx, r, params, examples, notes2, variants)
            },
            None => st,
        }
    } else if title == lang.ch_description@ || title == lang.ch_description_variant@ {
        let piece = text_of(block, false);
        let d = if desc.len() == 0 { piece } else { desc + " "@ + piece };
        (d, ctx, ret, params, examples, notes, variants)
    } else if title == lang.ch_availability@ {
        (desc, availability_of(lang, text_of(block, false)), ret, params, examples, notes, variants)
    } else if title == lang.ch_example@ && examples.len() < 2 {
        let code = text_of(block, true);
        if code.len() > 0 {
            (desc, ctx, ret, params, examples.push(clipped(code, 800)), notes, variants)
        } else {
            st
        }
    } else if title == lang.ch_note@ {
        (desc, ctx, ret, params, examples, notes.push(lang.note_note@ + clipped(text_of(block, false), 300)), variants)
    } else {
        st
    }
}

/// The chapters of a member page read one after another.
pub open spec fn member_fold(lang: HelpLang, chapters: Seq<(Seq<char>, Seq<char>)>) -> MemberState
    decreases chapters.len(),
{
    if chapters.len() == 0 {
        (Seq::empty(), ExecutionContext::Both, None, Seq::empty(), Seq::empty(), Seq::empty(), Seq::empty())
    } else {
        member_step(lang, member_fold(lang, chapters.drop_last()), chapters.last().0, chapters.last().1)
    }
}

/// The parameters of the first variant that has any.
pub open spec fn first_variant_params(variants: Seq<(Seq<char>, Seq<char>, Seq<ParamModel>)>) -> Seq<ParamModel>
    decreases variants.len(),
{
    if variants.len() == 0 {
        Seq::empty()
    } else if variants[0].2.len() > 0 {
        variants[0].2
    } else {
        first_variant_params(variants.skip(1))
    }
}

/// The notes on syntax variants, the last variant first.
pub open spec fn variant_notes(lang: HelpLang, variants: Seq<(Seq<char>, Seq<char>, Seq<ParamModel>)>) -> Seq<Seq<char>>
    decreases variants.len(),
{
    if variants.len() == 0 {
        Seq::empty()
    } else {
        seq![crate::text::replaced(crate::text::replaced(lang.note_variant@, "{name}"@, variants.last().0), "{syntax}"@, variants.last().1)]
            + variant_notes(lang, variants.drop_last())
    }
}

/// A member page: its chapters read in order; with syntax variants, the
/// parameters come from the first variant that has any (unless a parameters
/// chapter came before any variant), and a note on each variant goes first,
/// the last variant first.
pub open spec fn member_of(lang: HelpLang, chapters: Seq<(Seq<char>, Seq<char>)>) -> (Seq<char>, ExecutionContext, Option<Seq<char>>, Seq<ParamModel>, Seq<Seq<char>>, Seq<Seq<char>>) {
    let (desc, ctx, ret, params, examples, notes, variants) = member_fold(lang, chapters);
    if variants.len() > 0 {
        (desc, ctx, ret, if params.len() == 0 { first_variant_params(variants) } else { params }, examples, variant_notes(lang, variants) + notes)
    } else {
        (desc, ctx, ret, params, examples, notes)
    }
}

/// The returned-value chapter title of a help language is told apart from
/// the titles read before it: it is no syntax-variant title, nor the syntax
/// or parameters title.
proof fn lemma_returns_title_apart(lang: HelpLang)
    requires
        lang == crate::lang::ru_table() || lang == crate::lang::en_table(),
    ensures
        !lang.ch_syntax_variant@.is_prefix_of(lang.ch_returns@),
        lang.ch_returns@ != lang.ch_syntax@,
        lang.ch_returns@ != lang.ch_parameters@,
{
    reveal_strlit("Вариант синтаксиса");
    reveal_strlit("Синтаксис");
    reveal_strlit("Параметры");
    reveal_strlit("Возвращаемое значение");
    reveal_strlit("Syntax variant");
    reveal_strlit("Syntax");
    reveal_strlit("Parameters");
    reveal_strlit("Returned value");
    let r = lang.ch_returns@;
    let v = lang.ch_syntax_variant@;
    if lang == crate::lang::ru_table() {
        assert(v.len() <= r.len() ==> r.subrange(0, v.len() as int)[1] != v[1]);
        assert(r[1] != lang.ch_syntax@[1]);
        assert(r[0] != lang.ch_parameters@[0]);
    } else {
        assert(v.len() <= r.len() ==> r.subrange(0, v.len() as int)[0] != v[0]);
        assert(r[0] != lang.ch_syntax@[0]);
        assert(r[0] != lang.ch_parameters@[0]);
    }
}

/// A chapter of any other title leaves the returned value as it was.
proof fn lemma_step_keeps_return(lang: HelpLang, st: MemberState, title: Seq<char>, block: Seq<char>)
    requires
        title != lang.ch_returns@,
    ensures
        member_step(lang, st, title, block).2 == st.2,
{
}

/// With no returned-value chapter, no returned value.
proof fn lemma_fold_no_return(lang: HelpLang, chapters: Seq<(Seq<char>, Seq<char>)>)
    requires
        forall|j: int| 0 <= j < chapters.len() ==> (#[trigger] chapters[j]).0 != lang.ch_returns@,
    ensures
        member_fold(lang, chapters).2 is None,
    decreases chapters.len(),
{
    if chapters.len() > 0 {
        let init = chapters.drop_last();
        assert forall|j: int| 0 <= j < init.len() implies (#[trigger] init[j]).0 != lang.ch_returns@ by {
            assert(init[j] == chapters[j]);
        }
        lemma_fold_no_return(lang, init);
        lemma_step_keeps_return(lang, member_fold(lang, init), chapters.last().0, chapters.last().1);
    }
}

/// The returned value after the chapters up to `n` is the one the last
/// returned-value chapter `k` before `n` left.
proof fn lemma_fold_return(lang: HelpLang, chapters: Seq<(Seq<char>, Seq<char>)>, k: int, n: int)
    requires
        0 <= k < n <= chapters.len(),
        chapters[k].0 == lang.ch_returns@,
        forall|j: int| k < j < n ==> (#[trigger] chapters[j]).0 != lang.ch_returns@,
    ensures
        member_fold(lang, chapters.take(n)).2
            == member_step(lang, member_fold(lang, chapters.take(k)), chapters[k].0, chapters[k].1).2,
    decreases n - k,
{
    assert(chapters.take(n).drop_last() =~= chapters.take(n - 1));
    assert(chapters.take(n).last() == chapters[n - 1]);
    if n > k + 1 {
        lemma_fold_return(lang, chapters, k, n - 1);
        lemma_step_keeps_return(lang, member_fold(lang, chapters.take(n - 1)), chapters[n - 1].0, chapters[n - 1].1);
    }
}

/// The returned value of a member page comes from its returned-value
/// chapter: when the last such chapter starts with a type line (`Тип: T.`),
/// the return type is the text of `T`; a page without such a chapter has no
/// return type.
pub proof fn return_type_comes_from_type_line(lang: HelpLang, chapters: Seq<(Seq<char>, Seq<char>)>, k: int)
    requires
        lang == crate::lang::ru_table() || lang == crate::lang::en_table(),
    ensures
        (forall|j: int| 0 <= j < chapters.len() ==> (#[trigger] chapters[j]).0 != lang.ch_returns@)
            ==> member_of(lang, chapters).2 is None,
        ({
            &&& 0 <= k < chapters.len()
            &&& chapters[k].0 == lang.ch_returns@
            &&& forall|j: int| k < j < chapters.len() ==> (#[trigger] chapters[j]).0 != lang.ch_returns@
            &&& rx_captures(type_line_pattern(lang.type_word@), chapters[k].1) matches Some(t)
            &&& t.len() > 1 && t[1] is Some
        }) ==> ({
            let block = chapters[k].1;
            let t = rx_captures(type_line_pattern(lang.type_word@), block).unwrap();
            member_of(lang, chapters).2 == Some(text_of(block.subrange(t[1].unwrap().0, t[1].unwrap().1), false))
        }),
{
    if forall|j: int| 0 <= j < chapters.len() ==> (#[trigger] chapters[j]).0 != lang.ch_returns@ {
        lemma_fold_no_return(lang, chapters);
    }
    if 0 <= k < chapters.len() && chapters[k].0 == lang.ch_returns@
        && (forall|j: int| k < j < chapters.len() ==> (#[trigger] chapters[j]).0 != lang.ch_returns@) {
        lemma_returns_title_apart(lang);
        lemma_fold_return(lang, chapters, k, chapters.len() as int);
        assert(chapters.take(chapters.len() as int) =~= chapters);
    }
}

/// A member as the model sees it.
pub open spec fn member_view(m: Member) -> (Seq<char>, ExecutionContext, Option<Seq<char>>, Seq<ParamModel>, Seq<Seq<char>>, Seq<Seq<char>>) {
    (
        m.description@,
        m.context,
        crate::platform::string_opt(m.return_type),
        m.parameters@.map_values(|p: Parameter| param_view(p)),
        m.examples@.map_values(|e: Example| e.code@),
        m.notes@.map_values(|n: String| n@),
    )
}

fn copy_param(p: &Parameter) -> (res: Parameter)
    ensures
        param_view(res) == param_view(*p),
{
    Parameter { name: p.name.clone(), param_type: p.param_type.clone(), required: p.required, description: p.description.clone() }
}

fn copy_params(ps: &Vec<Parameter>) -> (res: Vec<Parameter>)
    ensures
        res@.map_values(|p: Parameter| param_view(p)) == ps@.map_values(|p: Parameter| param_view(p)),
{
    let mut out: Vec<Parameter> = Vec::new();
    let mut i: usize = 0;
    while i < ps.len()
        invariant
            0 <= i <= ps@.len(),
            out@.map_values(|p: Parameter| param_view(p)) == ps@.take(i as int).map_values(|p: Parameter| param_view(p)),
        decreases ps@.len() - i,
    {
        let ghost before = out@;
        let c = copy_param(&ps[i]);
        out.push(c);
        assert(ps@.take(i + 1) =~= ps@.take(i as int).push(ps@[i as int]));
        assert(out@ =~= before.push(c));
        assert(out@.map_values(|p: Parameter| param_view(p)) =~= before.map_values(|p: Parameter| param_view(p)).push(param_view(c)));
        assert(ps@.take(i as int).push(ps@[i as int]).map_values(|p: Parameter| param_view(p))
            =~= ps@.take(i as int).map_values(|p: Parameter| param_view(p)).push(param_view(ps@[i as int])));
        i = i + 1;
    }
    assert(ps@.take(ps@.len() as int) =~= ps@);
    out
}

/// Examples carry only their code.
pub open spec fn bare_examples(es: Seq<Example>) -> bool {
    forall|i: int| 0 <= i < es.len() ==> (#[trigger] es[i]).title is None && es[i].description is None
}

/// The exec state of reading a member page.
struct MemberDraft {
    description: String,
    context: ExecutionContext,
    return_type: Option<String>,
    parameters: Vec<Parameter>,
    examples: Vec<Example>,
    notes: Vec<String>,
    variants: Vec<(String, String, Vec<Parameter>)>,
}

/// A draft as the model sees it.
spec fn draft_view(d: MemberDraft) -> MemberState {
    (
        d.description@,
        d.context,
        crate::platform::string_opt(d.return_type),
        d.parameters@.map_values(|p: Parameter| param_view(p)),
        d.examples@.map_values(|e: Example| e.code@),
        d.notes@.map_values(|n: String| n@),
        d.variants@.map_values(|v: (String, String, Vec<Parameter>)| (v.0@, v.1@, v.2@.map_values(|p: Parameter| param_view(p)))),
    )
}

impl Extractor {
    fn member_chapter(&self, draft: &mut MemberDraft, title: &str, block: &str)
        requires
            bare_examples(old(draft).examples@),
        ensures
            draft_view(*final(draft)) == member_step(self.language(), draft_view(*old(draft)), title@, block@),
            bare_examples(final(draft).examples@),
    {
        proof {
            use_type_invariant(self);
        }
        let l = &self.lang;
        let tc = chars_of(title);
        let prefix = chars_of(l.ch_syntax_variant);
        let ghost st = draft_view(*draft);
        if starts_with_chars(&tc, &prefix) {
            let colon = chars_of(":");
            proof {
                reveal_strlit(":");
                assert(prefix@.is_prefix_of(tc@) == (prefix@.len() <= tc@.len() && tc@.take(prefix@.len() as int) == prefix@));
            }
            let name = match crate::text::find_chars_from(&tc, &colon, 0) {
                Some(i) => {
                    assert(tc@.len() == tc.len());
                    assert(colon@.len() == 1);
                    let rest = substring(&tc, i + 1, tc.len());
                    let rc = chars_of(rest.as_str());
                    assert(rest@ =~= title@.skip(i + 1));
                    string_of(&trimmed(&rc))
                },
                None => string_of(&trimmed(&tc)),
            };
            let ghost before = draft.variants@;
            let no_signature = String::new();
            let no_params: Vec<Parameter> = Vec::new();
            assert(no_signature@ =~= Seq::<char>::empty());
            assert(no_params@.map_values(|p: Parameter| param_view(p)) =~= Seq::<ParamModel>::empty());
            let entry = (name, no_signature, no_params);
            draft.variants.push(entry);
            proof {
                let f = |v: (String, String, Vec<Parameter>)| (v.0@, v.1@, v.2@.map_values(|p: Parameter| param_view(p)));
                assert(draft.variants@ =~= before.push(entry));
                assert(draft.variants@.map_values(f) =~= before.map_values(f).push(f(entry)));
            }
            return;
        }
        proof {
            assert(!l.ch_syntax_variant@.is_prefix_of(title@)) by {
                if l.ch_syntax_variant@.is_prefix_of(title@) {
                    assert(tc@.take(prefix@.len() as int) =~= prefix@);
                }
            }
        }
        if same_text(title, l.ch_syntax) {
            let signature = self.text.text(block, false);
            if draft.variants.len() > 0 {
                let ghost before = draft.variants@;
                let last = draft.variants.pop().unwrap();
                let (name, _, ps) = last;
                draft.variants.push((name, signature, ps));
                proof {
                    let f = |v: (String, String, Vec<Parameter>)| (v.0@, v.1@, v.2@.map_values(|p: Parameter| param_view(p)));
                    assert(draft.variants@.map_values(f) =~= before.map_values(f).drop_last().push((name@, signature@, ps@.map_values(|p: Parameter| param_view(p)))));
                }
            } else if signature.as_str().unicode_len() > 0 {
                let mut note: Vec<char> = Vec::new();
                push_str(&mut note, l.note_syntax);
                push_str(&mut note, signature.as_str());
                let ghost before = draft.notes@;
                draft.notes.insert(0, string_of(&note));
                assert(draft.notes@.map_values(|n: String| n@) =~= seq![note@] + before.map_values(|n: String| n@));
            }
        } else if same_text(title, l.ch_parameters) {
            let parsed = self.parse_params(block);
            if draft.variants.len() > 0 {
                let ghost before = draft.variants@;
                let last = draft.variants.pop().unwrap();
                let (name, sig, _) = last;
                draft.variants.push((name, sig, parsed));
                proof {
                    let f = |v: (String, String, Vec<Parameter>)| (v.0@, v.1@, v.2@.map_values(|p: Parameter| param_view(p)));
                    assert(draft.variants@.map_values(f) =~= before.map_values(f).drop_last().push((name@, sig@, parsed@.map_values(|p: Parameter| param_view(p)))));
                }
            } else if draft.parameters.len() == 0 {
                draft.parameters = parsed;
            }
        } else if same_text(title, l.ch_returns) {
            match self.type_line.captures(block) {
                Some(t) => {
                    let bc = chars_of(block);
                    proof {
                        let m = rx_captures(type_line_pattern(self.lang.type_word@), block@).unwrap();
                        assert(crate::pattern::ranges(t@)[0] == m[0]);
                        assert(crate::pattern::in_text(m[0], block@.len() as int));
                        if t@.len() > 1 {
                            assert(crate::pattern::ranges(t@)[1] == m[1]);
                            assert(crate::pattern::in_text(m[1], block@.len() as int));
                        }
                    }
                    let value = if t.len() > 1 {
                        match t[1] {
                            Some((a, b)) => {
                                let inner = substring(&bc, a, b);
                                Some(self.text.text(inner.as_str(), false))
                            },
                            None => None,
                        }
                    } else {
                        None
                    };
                    draft.return_type = value;
                    let end = match t[0] {
                        Some((_, e)) => e,
                        None => 0,
                    };
                    let rest = substring(&bc, end, bc.len());
                    assert(rest@ =~= block@.skip(end as int));
                    let tail = self.text.text(rest.as_str(), false);
                    if tail.as_str().unicode_len() > 0 {
                        let clipped_tail = crate::html::clip(tail.as_str(), 300);
                        let mut note: Vec<char> = Vec::new();
                        push_str(&mut note, l.note_returns);
                        push_str(&mut note, clipped_tail.as_str());
                        let ghost before = draft.notes@;
                        draft.notes.push(string_of(&note));
                        assert(draft.notes@.map_values(|n: String| n@) =~= before.map_values(|n: String| n@).push(note@));
                    }
                },
                None => {},
            }
        } else if same_text(title, l.ch_description) || same_text(title, l.ch_description_variant) {
            let piece = self.text.text(block, false);
            if draft.description.as_str().unicode_len() == 0 {
                draft.description = piece;
            } else {
                let mut d: Vec<char> = Vec::new();
                push_str(&mut d, draft.description.as_str());
                push_str(&mut d, " ");
                push_str(&mut d, piece.as_str());
                draft.description = string_of(&d);
            }
        } else if same_text(title, l.ch_availability) {
            let t = self.text.text(block, false);
            draft.context = self.availability(t.as_str());
        } else if same_text(title, l.ch_example) && draft.examples.len() < 2 {
            let code = self.text.text(block, true);
            if code.as_str().unicode_len() > 0 {
                let ghost before = draft.examples@;
                draft.examples.push(Example { title: None, code: crate::html::clip(code.as_str(), 800), description: None });
                assert(draft.examples@.map_values(|e: Example| e.code@) =~= before.map_values(|e: Example| e.code@).push(clipped(code@, 800)));
            }
        } else if same_text(title, l.ch_note) {
            let t = self.text.text(block, false);
            let clipped_note = crate::html::clip(t.as_str(), 300);
            let mut note: Vec<char> = Vec::new();
            push_str(&mut note, l.note_note);
            push_str(&mut note, clipped_note.as_str());
            let ghost before = draft.notes@;
            draft.notes.push(string_of(&note));
            assert(draft.notes@.map_values(|n: String| n@) =~= before.map_values(|n: String| n@).push(note@));
        }
    }

    /// A method or function page: description, context, parameters, returned
    /// value, examples (at most two) and notes.
    pub fn parse_member(&self, body: &str) -> (res: Member)
        ensures
            member_view(res) == member_of(self.language(), chapters_of(body@)),
            bare_examples(res.examples@),
    {
        let chapters = self.chapters(body);
        let ghost cv = chapters_of(body@);
        let mut draft = MemberDraft {
            description: String::new(),
            context: ExecutionContext::Both,
            return_type: None,
            parameters: Vec::new(),
            examples: Vec::new(),
            notes: Vec::new(),
            variants: Vec::new(),
        };
        proof {
            assert(draft_view(draft) =~~= member_fold(self.language(), cv.take(0)));
        }
        let mut i: usize = 0;
        while i < chapters.len()
            invariant
                0 <= i <= chapters@.len(),
                cv == chapters_of(body@),
                chapters@.len() == cv.len(),
                forall|j: int| 0 <= j < chapters@.len() ==> (#[trigger] chapters@[j]).0@ == cv[j].0 && chapters@[j].1@ == cv[j].1,
                draft_view(draft) == member_fold(self.language(), cv.take(i as int)),
                bare_examples(draft.examples@),
            decreases chapters@.len() - i,
        {
            assert(cv.take(i + 1).drop_last() =~= cv.take(i as int));
            assert(cv.take(i + 1).last() == cv[i as int]);
            self.member_chapter(&mut draft, chapters[i].0.as_str(), chapters[i].1.as_str());
            i = i + 1;
        }
        assert(cv.take(chapters@.len() as int) =~= cv);
        let MemberDraft { description, context, return_type, mut parameters, examples, mut notes, variants } = draft;
        let ghost fv = variants@.map_values(|v: (String, String, Vec<Parameter>)| (v.0@, v.1@, v.2@.map_values(|p: Parameter| param_view(p))));
        let ghost notes0 = notes@.map_values(|n: String| n@);
        if variants.len() > 0 {
            if parameters.len() == 0 {
                let mut found: Option<usize> = None;
                let mut k: usize = 0;
                assert(fv.skip(0) =~= fv);
                while k < variants.len() && found.is_none()
                    invariant
                        0 <= k <= variants@.len(),
                        fv == variants@.map_values(|v: (String, String, Vec<Parameter>)| (v.0@, v.1@, v.2@.map_values(|p: Parameter| param_view(p)))),
                        found is None ==> first_variant_params(fv) == first_variant_params(fv.skip(k as int)),
                        found matches Some(f) ==> f < variants@.len() && first_variant_params(fv) == fv[f as int].2,
                    decreases variants@.len() - k + (if found is None { 1int } else { 0int }),
                {
                    assert(fv.skip(k as int)[0] == fv[k as int]);
                    assert(fv.skip(k as int).skip(1) =~= fv.skip(k + 1));
                    if variants[k].2.len() > 0 {
                        found = Some(k);
                    } else {
                        k = k + 1;
                    }
                }
                match found {
                    Some(f) => {
                        parameters = copy_params(&variants[f].2);
                    },
                    None => {
                        assert(fv.skip(variants@.len() as int) =~= Seq::empty());
                    },
                }
            }
            let mut k: usize = 0;
            while k < variants.len()
                invariant
                    0 <= k <= variants@.len(),
                    fv == variants@.map_values(|v: (String, String, Vec<Parameter>)| (v.0@, v.1@, v.2@.map_values(|p: Parameter| param_view(p)))),
                    notes@.map_values(|n: String| n@) == variant_notes(self.language(), fv.take(k as int)) + notes0,
                decreases variants@.len() - k,
            {
                let note = self.lang.variant_note(variants[k].0.as_str(), variants[k].1.as_str());
                let ghost before = notes@;
                notes.insert(0, note);
                proof {
                    assert(fv.take(k + 1).drop_last() =~= fv.take(k as int));
                    assert(fv.take(k + 1).last() == fv[k as int]);
                    assert(notes@.map_values(|n: String| n@) =~= seq![note@] + before.map_values(|n: String| n@));
                }
                k = k + 1;
            }
            assert(fv.take(variants@.len() as int) =~= fv);
        } else {
            assert(fv =~= Seq::empty());
        }
        Member { description, context, return_type, parameters, examples, notes }
    }
}

// ── the pages of an archive ────────────────────────────────────────────────

/// The entries of an archive: name (when the entry opens) and bytes (when it
/// also reads to the end).
pub type Entries = Seq<(Option<Seq<char>>, Option<Seq<u8>>)>;

/// Every entry that opens, as (place, name), in the order of the archive.
/// The order is that of the archive, not of the names: with "first wins" the
/// contents of the base depend on it.
pub open spec fn pages_of(entries: Entries) -> Seq<(int, Seq<char>)>
    decreases entries.len(),
{
    if entries.len() == 0 {
        Seq::empty()
    } else {
        let rest = pages_of(entries.drop_last());
        match entries.last().0 {
            Some(name) => rest.push((entries.len() - 1, name)),
            None => rest,
        }
    }
}

/// The pages whose names end in `.html`.
pub open spec fn html_only(pages: Seq<(int, Seq<char>)>) -> Seq<(int, Seq<char>)>
    decreases pages.len(),
{
    if pages.len() == 0 {
        Seq::empty()
    } else {
        let rest = html_only(pages.drop_last());
        if ".html"@.is_suffix_of(pages.last().1) { rest.push(pages.last()) } else { rest }
    }
}

/// Pages as model values.
pub open spec fn pages_view(v: Seq<(usize, String)>) -> Seq<(int, Seq<char>)> {
    v.map_values(|p: (usize, String)| (p.0 as int, p.1@))
}

/// The text of entry `i`, invalid UTF-8 replaced; `None` when it cannot be read.
pub open spec fn page_lossy(entries: Entries, i: int) -> Option<Seq<char>> {
    match entries[i].1 {
        Some(b) => Some(utf8_lossy(b)),
        None => None,
    }
}

/// The text of entry `i` strictly decoded: `Some(None)` when it is not UTF-8,
/// `None` when it cannot be read.
pub open spec fn page_strict(entries: Entries, i: int) -> Option<Option<Seq<char>>> {
    match entries[i].1 {
        Some(b) => Some(if valid_utf8(b) { Some(decode_utf8(b)) } else { None }),
        None => None,
    }
}

/// Every entry that opens, in the order of the archive.
pub fn all_pages(storage: &mut Storage) -> (res: Vec<(usize, String)>)
    ensures
        archive_entries(*final(storage)) == archive_entries(*old(storage)),
        pages_view(res@) == pages_of(archive_entries(*old(storage))),
        forall|j: int| 0 <= j < res@.len() ==> (#[trigger] res@[j]).0 < archive_entries(*old(storage)).len(),
{
    let ghost e = archive_entries(*storage);
    let n = entry_count(storage);
    let mut out: Vec<(usize, String)> = Vec::new();
    let mut i: usize = 0;
    while i < n
        invariant
            0 <= i <= n,
            n == e.len(),
            archive_entries(*storage) == e,
            pages_view(out@) == pages_of(e.take(i as int)),
            forall|j: int| 0 <= j < out@.len() ==> (#[trigger] out@[j]).0 < i,
        decreases n - i,
    {
        assert(e.take(i + 1).drop_last() =~= e.take(i as int));
        let name = entry_name(storage, i);
        match name {
            Some(nm) => {
                let ghost before = out@;
                out.push((i, nm));
                assert(pages_view(out@) =~= pages_view(before).push((i as int, nm@)));
            },
            None => {},
        }
        i = i + 1;
    }
    assert(e.take(n as int) =~= e);
    out
}

/// The `.html` pages, in the order of the archive.
pub fn html_pages(storage: &mut Storage) -> (res: Vec<(usize, String)>)
    ensures
        archive_entries(*final(storage)) == archive_entries(*old(storage)),
        pages_view(res@) == html_only(pages_of(archive_entries(*old(storage)))),
        forall|j: int| 0 <= j < res@.len() ==> (#[trigger] res@[j]).0 < archive_entries(*old(storage)).len(),
{
    let all = all_pages(storage);
    let ghost pv = pages_view(all@);
    let suffix = chars_of(".html");
    let mut out: Vec<(usize, String)> = Vec::new();
    let mut i: usize = 0;
    while i < all.len()
        invariant
            0 <= i <= all@.len(),
            pv == pages_view(all@),
            suffix@ == ".html"@,
            pages_view(out@) == html_only(pv.take(i as int)),
            forall|j: int| 0 <= j < all@.len() ==> (#[trigger] all@[j]).0 < archive_entries(*old(storage)).len(),
            forall|j: int| 0 <= j < out@.len() ==> (#[trigger] out@[j]).0 < archive_entries(*old(storage)).len(),
        decreases all@.len() - i,
    {
        assert(pv.take(i + 1).drop_last() =~= pv.take(i as int));
        assert(pv.take(i + 1).last() == pv[i as int]);
        let nc = chars_of(all[i].1.as_str());
        if crate::text::ends_with_chars(&nc, &suffix) {
            let ghost before = out@;
            out.push((all[i].0, all[i].1.clone()));
            assert(pages_view(out@) =~= pages_view(before).push(pv[i as int]));
        }
        i = i + 1;
    }
    assert(pv.take(all@.len() as int) =~= pv);
    out
}

/// The text of entry `index`, invalid UTF-8 replaced.
pub fn read_lossy(storage: &mut Storage, index: usize) -> (res: Result<String, StorageError>)
    requires
        index < archive_entries(*old(storage)).len(),
    ensures
        archive_entries(*final(storage)) == archive_entries(*old(storage)),
        match res {
            Ok(t) => page_lossy(archive_entries(*old(storage)), index as int) == Some(t@),
            Err(e) => page_lossy(archive_entries(*old(storage)), index as int) is None
                && e == StorageError::Unreadable(index),
        },
{
    match entry_bytes(storage, index) {
        Some(b) => Ok(lossy_text(&b)),
        None => Err(StorageError::Unreadable(index)),
    }
}

/// The text of entry `index` strictly decoded: `Ok(None)` when it is not
/// UTF-8, and the page is then skipped.
pub fn read_strict(storage: &mut Storage, index: usize) -> (res: Result<Option<String>, StorageError>)
    requires
        index < archive_entries(*old(storage)).len(),
    ensures
        archive_entries(*final(storage)) == archive_entries(*old(storage)),
        match res {
            Ok(t) => page_strict(archive_entries(*old(storage)), index as int) == Some(crate::platform::string_opt(t)),
            Err(e) => page_strict(archive_entries(*old(storage)), index as int) is None
                && e == StorageError::Unreadable(index),
        },
{
    match entry_bytes(storage, index) {
        Some(b) => Ok(crate::container::utf8_text(&b)),
        None => Err(StorageError::Unreadable(index)),
    }
}

// ── objects and methods of the context help ────────────────────────────────

/// The text of group `k` of a match, when the match and the group are there.
pub open spec fn group_text(caps: Option<Seq<Option<(int, int)>>>, hay: Seq<char>, k: int) -> Option<Seq<char>> {
    match caps {
        Some(c) => if 0 <= k < c.len() && c[k] is Some {
            Some(hay.subrange(c[k].unwrap().0, c[k].unwrap().1))
        } else {
            None
        },
        None => None,
    }
}

/// The page of the global context: its methods are named without an object.
pub open spec fn global_context_page() -> Seq<char> { "objects/Global context.html"@ }

/// A path with every trailing `.html` removed.
pub open spec fn without_html(path: Seq<char>) -> Seq<char>
    decreases path.len(),
{
    if path.len() >= 5 && ".html"@.is_suffix_of(path) {
        without_html(path.take(path.len() - 5))
    } else {
        path
    }
}

/// A property: name, type, description, read-only.
pub type PropModel = (Seq<char>, Seq<char>, Seq<char>, bool);

/// An object being built: name, description, the names of its methods,
/// whether it is the global context, its properties.
pub type DraftModel = (Seq<char>, Seq<char>, Seq<Seq<char>>, bool, Seq<PropModel>);

/// A method: name, description, context, parameters, returned type, example
/// code, notes.
pub type MethodModel = (Seq<char>, Seq<char>, ExecutionContext, Seq<ParamModel>, Option<Seq<char>>, Seq<Seq<char>>, Seq<Seq<char>>);

/// An object as it goes out: name, description, properties, method names.
pub type ObjModel = (Seq<char>, Seq<char>, Seq<PropModel>, Seq<Seq<char>>);

pub open spec fn prop_view(p: Property) -> PropModel {
    (p.name@, p.property_type@, p.description@, p.readonly)
}

pub open spec fn method_view(m: ApiMethod) -> MethodModel {
    (
        m.name@,
        m.description@,
        m.context,
        m.parameters@.map_values(|p: Parameter| param_view(p)),
        crate::platform::string_opt(m.return_type),
        m.examples@.map_values(|e: Example| e.code@),
        m.notes@.map_values(|n: String| n@),
    )
}

pub open spec fn object_view(o: ApiObject) -> ObjModel {
    (o.name@, o.description@, o.properties@.map_values(|p: Property| prop_view(p)), o.methods@.map_values(|m: String| m@))
}

/// What the first pass makes of a page that is not a member page: `None` when
/// it has no title; `Some(None)` for a category of the catalogue (no English
/// name and no properties or methods chapter); otherwise the object's name,
/// its description (with the English name, clipped) and whether it is the
/// global context.
pub open spec fn object_page_of(lang: HelpLang, body: Seq<char>, path: Seq<char>) -> Option<Option<(Seq<char>, Seq<char>, bool)>> {
    match group_text(rx_captures(pagetitle_pattern(), body), body, 1) {
        None => None,
        Some(raw) => {
            let (ru, en) = names_of(raw);
            let chapters = chapters_of(body);
            let is_global = path == global_context_page();
            if !is_global && en.len() == 0 && chapter_block(chapters, lang.ch_properties@) is None
                && chapter_block(chapters, lang.ch_methods@) is None {
                Some(None)
            } else {
                let d = text_of(
                    match chapter_block(chapters, lang.ch_description@) {
                        Some(b) => b,
                        None => Seq::empty(),
                    },
                    false,
                );
                let d2 = if en.len() > 0 { with_english(d, en) } else { d };
                Some(Some((ru, clipped(d2, 700), is_global)))
            }
        },
    }
}

/// The first pass: objects keyed by their page path without `.html`, their
/// drafts, and the number of categories skipped; `None` when a page that had
/// to be read could not be.
pub type ObjectsState = (Seq<(Seq<char>, usize)>, Seq<DraftModel>, nat);

pub open spec fn objects_step(lang: HelpLang, entries: Entries, st: Option<ObjectsState>, page: (int, Seq<char>)) -> Option<ObjectsState> {
    match st {
        None => None,
        Some((keys, drafts, category)) => {
            if owner_in(page.1, member_dirs()) is Some {
                st
            } else {
                match page_lossy(entries, page.0) {
                    None => None,
                    Some(body) => match object_page_of(lang, body, page.1) {
                        None => st,
                        Some(None) => Some((keys, drafts, category + 1)),
                        Some(Some((name, description, is_global))) => Some((
                            crate::keyed::inserted(keys, without_html(page.1), drafts.len() as usize),
                            drafts.push((name, description, Seq::empty(), is_global, Seq::empty())),
                            category,
                        )),
                    },
                }
            }
        },
    }
}

pub open spec fn objects_pass(lang: HelpLang, entries: Entries, pages: Seq<(int, Seq<char>)>) -> Option<ObjectsState>
    decreases pages.len(),
{
    if pages.len() == 0 {
        Some((Seq::empty(), Seq::empty(), 0))
    } else {
        objects_step(lang, entries, objects_pass(lang, entries, pages.drop_last()), pages.last())
    }
}

/// The name and English name in the heading of a member page; `None` when the
/// page has no title or no heading.
pub open spec fn member_heading_of(body: Seq<char>) -> Option<(Seq<char>, Seq<char>)> {
    if rx_find(pagetitle_pattern(), body) is None {
        None
    } else {
        match group_text(rx_captures(heading_pattern(), body), body, 1) {
            Some(h) => Some(names_of(h)),
            None => None,
        }
    }
}

/// A property taken from its page.
pub open spec fn property_entry_of(lang: HelpLang, body: Seq<char>, name: Seq<char>, english: Seq<char>) -> PropModel {
    let (t, d, readonly) = property_of(lang, chapters_of(body));
    (name, t, clipped(if english.len() > 0 { with_english(d, english) } else { d }, 400), readonly)
}

/// A method taken from its page: the member read from its chapters, the
/// English `Object.Member` appended to the description (clipped), at most four
/// notes.
pub open spec fn method_entry_of(lang: HelpLang, body: Seq<char>, name: Seq<char>, english: Seq<char>) -> MethodModel {
    let (desc, ctx, ret, params, examples, notes) = member_of(lang, chapters_of(body));
    let en_full = match group_text(rx_captures(title_pattern(), body), body, 1) {
        Some(t) => if english.len() > 0 { names_of(t).1 + "."@ + english } else { english },
        None => english,
    };
    let d = if en_full.len() > 0 { with_english(desc, en_full) } else { desc };
    (name, clipped(d, 700), ctx, params, ret, examples, notes.take(if notes.len() < 4 { notes.len() as int } else { 4 }))
}

/// The name a method goes under: `Object.Member`, the member alone in the
/// global context; a constructor is `New Object`, and a second constructor of
/// the object adds ` — Variant`.
pub open spec fn method_name_of(lang: HelpLang, method_keys: Seq<(Seq<char>, usize)>, path: Seq<char>, owner: DraftModel, member: Seq<char>) -> Seq<char> {
    if find_first(path, "/ctors/"@) is Some {
        let c = lang.ctor_word@ + " "@ + owner.0;
        if crate::keyed::value_of(method_keys, c) is Some { c + " — "@ + member } else { c }
    } else if owner.3 {
        member
    } else {
        owner.0 + "."@ + member
    }
}

/// The second pass: drafts with their members, methods keyed by name, the
/// methods in order, duplicate methods and members without an owner skipped.
pub type MembersState = (Seq<DraftModel>, Seq<(Seq<char>, usize)>, Seq<MethodModel>, nat, nat);

/// A member page whose owner is the draft at `k`, read.
pub open spec fn member_page_step(lang: HelpLang, w: MembersState, path: Seq<char>, k: int, body: Seq<char>) -> MembersState {
    let (drafts, method_keys, methods, dup, no_owner) = w;
    match member_heading_of(body) {
        None => w,
        Some((member, english)) => {
            let d = drafts[k];
            if find_first(path, "/properties/"@) is Some {
                let prop = property_entry_of(lang, body, member, english);
                (drafts.update(k, (d.0, d.1, d.2, d.3, d.4.push(prop))), method_keys, methods, dup, no_owner)
            } else if find_first(path, "/methods/"@) is None && find_first(path, "/ctors/"@) is None {
                w
            } else {
                let full = method_name_of(lang, method_keys, path, d, member);
                if crate::keyed::value_of(method_keys, full) is Some {
                    (drafts, method_keys, methods, dup + 1, no_owner)
                } else {
                    (
                        drafts.update(k, (d.0, d.1, d.2.push(member), d.3, d.4)),
                        crate::keyed::inserted(method_keys, full, methods.len() as usize),
                        methods.push(method_entry_of(lang, body, full, english)),
                        dup,
                        no_owner,
                    )
                }
            }
        },
    }
}

pub open spec fn members_step(lang: HelpLang, entries: Entries, keys: Seq<(Seq<char>, usize)>, st: Option<MembersState>, page: (int, Seq<char>)) -> Option<MembersState> {
    match st {
        None => None,
        Some(w) => match owner_in(page.1, member_dirs()) {
            None => st,
            Some(owner) => match crate::keyed::value_of(keys, owner) {
                None => Some((w.0, w.1, w.2, w.3, w.4 + 1)),
                Some(k) => match page_lossy(entries, page.0) {
                    None => None,
                    Some(body) => Some(member_page_step(lang, w, page.1, k as int, body)),
                },
            },
        },
    }
}

pub open spec fn members_pass(lang: HelpLang, entries: Entries, keys: Seq<(Seq<char>, usize)>, drafts: Seq<DraftModel>, pages: Seq<(int, Seq<char>)>) -> Option<MembersState>
    decreases pages.len(),
{
    if pages.len() == 0 {
        Some((drafts, Seq::empty(), Seq::empty(), 0, 0))
    } else {
        members_step(lang, entries, keys, members_pass(lang, entries, keys, drafts, pages.drop_last()), pages.last())
    }
}

/// The objects that go out, in the order of their first insertion, each from
/// its latest draft: one with no properties, no methods and no description is
/// left out, and of several with one name the first stays.
pub open spec fn objects_out(keys: Seq<(Seq<char>, usize)>, drafts: Seq<DraftModel>) -> Seq<ObjModel>
    decreases keys.len(),
{
    if keys.len() == 0 {
        Seq::empty()
    } else {
        let rest = objects_out(keys.drop_last(), drafts);
        let d = drafts[keys.last().1 as int];
        if d.4.len() == 0 && d.2.len() == 0 && d.1.len() == 0 {
            rest
        } else if rest.map_values(|o: ObjModel| o.0).contains(d.0) {
            rest
        } else {
            rest.push((d.0, d.1, d.4, d.2))
        }
    }
}

/// The objects and methods of the context help in an archive, and what was
/// skipped (categories, duplicate methods, members without an owner); `None`
/// when a page that had to be read could not be.
pub open spec fn api_of(lang: HelpLang, entries: Entries) -> Option<(Seq<MethodModel>, Seq<ObjModel>, (nat, nat, nat))> {
    let pages = html_only(pages_of(entries));
    match objects_pass(lang, entries, pages) {
        None => None,
        Some((keys, drafts, category)) => match members_pass(lang, entries, keys, drafts, pages) {
            None => None,
            Some((drafts2, _, methods, dup, no_owner)) => Some((methods, objects_out(keys, drafts2), (category, dup, no_owner))),
        },
    }
}

/// The text of group `k` of the first match of `p` in `hay`.
fn first_group(p: &Pattern, hay: &str, k: usize) -> (res: Option<String>)
    ensures
        crate::platform::string_opt(res) == group_text(rx_captures(p.source(), hay@), hay@, k as int),
{
    match p.captures(hay) {
        Some(c) => {
            proof {
                let m = rx_captures(p.source(), hay@).unwrap();
                assert(m.len() == c@.len());
                if k < c@.len() {
                    assert(crate::pattern::ranges(c@)[k as int] == m[k as int]);
                    assert(crate::pattern::in_text(m[k as int], hay@.len() as int));
                }
            }
            if k < c.len() {
                match c[k] {
                    Some((a, b)) => {
                        let hc = chars_of(hay);
                        Some(substring(&hc, a, b))
                    },
                    None => None,
                }
            } else {
                None
            }
        },
        None => None,
    }
}

/// A path with every trailing `.html` removed.
fn strip_html(path: &str) -> (res: String)
    ensures
        res@ == without_html(path@),
{
    proof {
        reveal_strlit(".html");
    }
    let pc = chars_of(path);
    let suffix = chars_of(".html");
    let mut end: usize = pc.len();
    assert(path@.take(end as int) =~= path@);
    while end >= 5 && crate::text::ends_with_chars(&pc[0..end], &suffix)
        invariant
            end <= pc@.len(),
            pc@ == path@,
            suffix@ == ".html"@,
            without_html(path@) == without_html(path@.take(end as int)),
        decreases end,
    {
        assert(pc@.subrange(0, end as int) =~= path@.take(end as int));
        assert(path@.take(end as int).take(end - 5) =~= path@.take(end - 5));
        end = end - 5;
    }
    proof {
        assert(pc@.subrange(0, end as int) =~= path@.take(end as int));
    }
    substring(&pc, 0, end)
}

/// An object being built; its methods and properties come in the second pass.
struct ObjectDraft {
    name: String,
    description: String,
    methods: Vec<String>,
    is_global: bool,
    properties: Vec<Property>,
}

spec fn draft_model(d: ObjectDraft) -> DraftModel {
    (d.name@, d.description@, d.methods@.map_values(|m: String| m@), d.is_global, d.properties@.map_values(|p: Property| prop_view(p)))
}

spec fn drafts_model(ds: Seq<ObjectDraft>) -> Seq<DraftModel> {
    ds.map_values(|d: ObjectDraft| draft_model(d))
}

fn copy_property(p: &Property) -> (res: Property)
    ensures
        prop_view(res) == prop_view(*p),
{
    Property { name: p.name.clone(), property_type: p.property_type.clone(), description: p.description.clone(), readonly: p.readonly }
}

fn copy_properties(ps: &Vec<Property>) -> (res: Vec<Property>)
    ensures
        res@.map_values(|p: Property| prop_view(p)) == ps@.map_values(|p: Property| prop_view(p)),
{
    let mut out: Vec<Property> = Vec::new();
    let mut i: usize = 0;
    while i < ps.len()
        invariant
            0 <= i <= ps@.len(),
            out@.map_values(|p: Property| prop_view(p)) == ps@.take(i as int).map_values(|p: Property| prop_view(p)),
        decreases ps@.len() - i,
    {
        let ghost before = out@;
        let c = copy_property(&ps[i]);
        out.push(c);
        assert(out@.map_values(|p: Property| prop_view(p)) =~= before.map_values(|p: Property| prop_view(p)).push(prop_view(c)));
        assert(ps@.take(i + 1).map_values(|p: Property| prop_view(p))
            =~= ps@.take(i as int).map_values(|p: Property| prop_view(p)).push(prop_view(ps@[i as int])));
        i = i + 1;
    }
    assert(ps@.take(ps@.len() as int) =~= ps@);
    out
}

fn copy_strings(v: &Vec<String>) -> (res: Vec<String>)
    ensures
        res@.map_values(|s: String| s@) == v@.map_values(|s: String| s@),
{
    let mut out: Vec<String> = Vec::new();
    let mut i: usize = 0;
    while i < v.len()
        invariant
            0 <= i <= v@.len(),
            out@.map_values(|s: String| s@) == v@.take(i as int).map_values(|s: String| s@),
        decreases v@.len() - i,
    {
        let ghost before = out@;
        let c = v[i].clone();
        out.push(c);
        assert(out@.map_values(|s: String| s@) =~= before.map_values(|s: String| s@).push(c@));
        assert(v@.take(i + 1).map_values(|s: String| s@) =~= v@.take(i as int).map_values(|s: String| s@).push(v@[i as int]@));
        i = i + 1;
    }
    assert(v@.take(v@.len() as int) =~= v@);
    out
}

impl Extractor {
    /// What the first pass makes of a page that is not a member page.
    fn object_page(&self, body: &str, path: &str) -> (res: Option<Option<(String, String, bool)>>)
        ensures
            match res {
                None => object_page_of(self.language(), body@, path@) is None,
                Some(None) => object_page_of(self.language(), body@, path@) == Some(None::<(Seq<char>, Seq<char>, bool)>),
                Some(Some((n, d, g))) => object_page_of(self.language(), body@, path@) == Some(Some((n@, d@, g))),
            },
    {
        proof {
            use_type_invariant(self);
            reveal_strlit("objects/Global context.html");
        }
        let raw = match first_group(&self.pagetitle, body, 1) {
            Some(r) => r,
            None => { return None; },
        };
        let (ru, en) = self.split_names(raw.as_str());
        let chapters = self.chapters(body);
        let ghost cv = chapters_of(body@);
        proof {
            assert(chapters@.map_values(|c: (String, String)| (c.0@, c.1@)) =~= cv);
        }
        let is_global = same_text(path, "objects/Global context.html");
        let l = &self.lang;
        if !is_global && en.as_str().unicode_len() == 0 && chapter_of(chapters.as_slice(), l.ch_properties).is_none()
            && chapter_of(chapters.as_slice(), l.ch_methods).is_none() {
            return Some(None);
        }
        let d = match chapter_of(chapters.as_slice(), l.ch_description) {
            Some(b) => self.text.text(b.as_str(), false),
            None => {
                let empty = String::new();
                assert(empty@ =~= Seq::<char>::empty());
                self.text.text(empty.as_str(), false)
            },
        };
        let d2 = if en.as_str().unicode_len() > 0 { append_english(d.as_str(), en.as_str()) } else { d };
        Some(Some((ru, crate::html::clip(d2.as_str(), 700), is_global)))
    }

    /// The name and English name in the heading of a member page.
    fn member_heading(&self, body: &str) -> (res: Option<(String, String)>)
        ensures
            match res {
                Some((a, b)) => member_heading_of(body@) == Some((a@, b@)),
                None => member_heading_of(body@) is None,
            },
    {
        proof {
            use_type_invariant(self);
        }
        let heading = first_group(&self.heading, body, 1);
        match (self.pagetitle.find(body), heading) {
            (Some(_), Some(h)) => Some(self.split_names(h.as_str())),
            _ => None,
        }
    }

    /// A property taken from its page.
    fn property_entry(&self, body: &str, name: String, english: &str) -> (res: Property)
        ensures
            prop_view(res) == property_entry_of(self.language(), body@, name@, english@),
    {
        let (property_type, description, readonly) = self.parse_property(body);
        let d = if english.unicode_len() > 0 { append_english(description.as_str(), english) } else { description };
        Property { name, property_type, description: crate::html::clip(d.as_str(), 400), readonly }
    }

    /// A method taken from its page.
    fn method_entry(&self, body: &str, name: String, english: &str) -> (res: ApiMethod)
        ensures
            method_view(res) == method_entry_of(self.language(), body@, name@, english@),
            bare_examples(res.examples@),
    {
        proof {
            use_type_invariant(self);
        }
        let member = self.parse_member(body);
        let page_en = first_group(&self.title, body, 1);
        let en_full = match page_en {
            Some(t) => {
                if english.unicode_len() > 0 {
                    let (_, owner_en) = self.split_names(t.as_str());
                    let mut out: Vec<char> = Vec::new();
                    push_str(&mut out, owner_en.as_str());
                    push_str(&mut out, ".");
                    push_str(&mut out, english);
                    string_of(&out)
                } else {
                    String::from_str(english)
                }
            },
            None => String::from_str(english),
        };
        let Member { description, context, return_type, parameters, examples, mut notes } = member;
        let d = if en_full.as_str().unicode_len() > 0 { append_english(description.as_str(), en_full.as_str()) } else { description };
        let ghost before = notes@;
        if notes.len() > 4 {
            notes.truncate(4);
        }
        assert(notes@.map_values(|n: String| n@) =~= before.map_values(|n: String| n@).take(
            if before.len() < 4 { before.len() as int } else { 4 }));
        ApiMethod {
            name,
            description: crate::html::clip(d.as_str(), 700),
            context,
            parameters,
            return_type,
            examples,
            notes,
        }
    }
}

/// The archive place of the page at which [`objects_pass`] fails: the first
/// page it reads that cannot be read.
pub open spec fn objects_failure(lang: HelpLang, entries: Entries, pages: Seq<(int, Seq<char>)>) -> int
    decreases pages.len(),
{
    if pages.len() == 0 {
        0
    } else if objects_pass(lang, entries, pages.drop_last()) is None {
        objects_failure(lang, entries, pages.drop_last())
    } else {
        pages.last().0
    }
}

/// The archive place of the page at which [`members_pass`] fails.
pub open spec fn members_failure(lang: HelpLang, entries: Entries, keys: Seq<(Seq<char>, usize)>, drafts: Seq<DraftModel>, pages: Seq<(int, Seq<char>)>) -> int
    decreases pages.len(),
{
    if pages.len() == 0 {
        0
    } else if members_pass(lang, entries, keys, drafts, pages.drop_last()) is None {
        members_failure(lang, entries, keys, drafts, pages.drop_last())
    } else {
        pages.last().0
    }
}

/// The archive place of the page that [`api_of`] could not read, where it is
/// `None`.
pub open spec fn api_failure(lang: HelpLang, entries: Entries) -> int {
    let pages = html_only(pages_of(entries));
    match objects_pass(lang, entries, pages) {
        None => objects_failure(lang, entries, pages),
        Some((keys, drafts, _)) => members_failure(lang, entries, keys, drafts, pages),
    }
}

proof fn lemma_objects_none(lang: HelpLang, entries: Entries, pages: Seq<(int, Seq<char>)>, k: int)
    requires
        0 <= k <= pages.len(),
        objects_pass(lang, entries, pages.take(k)) is None,
    ensures
        objects_pass(lang, entries, pages) is None,
        objects_failure(lang, entries, pages) == objects_failure(lang, entries, pages.take(k)),
    decreases pages.len() - k,
{
    if k < pages.len() {
        assert(pages.take(k + 1).drop_last() =~= pages.take(k));
        lemma_objects_none(lang, entries, pages, k + 1);
    } else {
        assert(pages.take(k) =~= pages);
    }
}

proof fn lemma_members_none(lang: HelpLang, entries: Entries, keys: Seq<(Seq<char>, usize)>, drafts: Seq<DraftModel>, pages: Seq<(int, Seq<char>)>, k: int)
    requires
        0 <= k <= pages.len(),
        members_pass(lang, entries, keys, drafts, pages.take(k)) is None,
    ensures
        members_pass(lang, entries, keys, drafts, pages) is None,
        members_failure(lang, entries, keys, drafts, pages) == members_failure(lang, entries, keys, drafts, pages.take(k)),
    decreases pages.len() - k,
{
    if k < pages.len() {
        assert(pages.take(k + 1).drop_last() =~= pages.take(k));
        lemma_members_none(lang, entries, keys, drafts, pages, k + 1);
    } else {
        assert(pages.take(k) =~= pages);
    }
}

impl Extractor {
    /// The objects and methods of the context help: a first pass over the
    /// pages takes the objects, so that the second knows the owners of the
    /// members.
    pub fn extract<R: Reporter>(&self, storage: &mut Storage, version: &str, progress: &mut R) -> (res: Result<(Document, Skipped), StorageError>)
        ensures
            archive_entries(*final(storage)) == archive_entries(*old(storage)),
            match res {
                Ok((doc, skipped)) => api_of(self.language(), archive_entries(*old(storage))) == Some((
                        doc.api_methods@.map_values(|m: ApiMethod| method_view(m)),
                        doc.api_objects@.map_values(|o: ApiObject| object_view(o)),
                        (skipped.category as nat, skipped.dup_method as nat, skipped.no_owner as nat),
                    ))
                    && doc.version@ == version@
                    && doc.platform@ == "1С:Предприятие"@
                    && doc.release_date is None
                    && doc.sections@.len() == 0
                    && doc.relationships@.len() == 0
                    && forall|i: int| 0 <= i < doc.api_methods@.len() ==> bare_examples((#[trigger] doc.api_methods@[i]).examples@),
                Err(e) => api_of(self.language(), archive_entries(*old(storage))) is None
                    && e == StorageError::Unreadable(api_failure(self.language(), archive_entries(*old(storage))) as usize),
            },
    {
        let ghost e = archive_entries(*old(storage));
        let ghost lang = self.language();
        let pages = html_pages(storage);
        let ghost pv = pages_view(pages@);
        let mut obj_keys = keyed_new();
        let mut drafts: Vec<ObjectDraft> = Vec::new();
        let mut category: usize = 0;
        let mut n: usize = 0;
        proof {
            assert(drafts_model(drafts@) =~= Seq::<DraftModel>::empty());
            assert(pv.take(0) =~= Seq::<(int, Seq<char>)>::empty());
        }
        while n < pages.len()
            invariant
                0 <= n <= pages@.len(),
                lang == self.language(),
                archive_entries(*storage) == e,
                e == archive_entries(*old(storage)),
                pv == pages_view(pages@),
                pv == html_only(pages_of(e)),
                forall|j: int| 0 <= j < pages@.len() ==> (#[trigger] pages@[j]).0 < e.len(),
                objects_pass(lang, e, pv.take(n as int)) == Some((keyed_entries(obj_keys), drafts_model(drafts@), category as nat)),
                values_below(keyed_entries(obj_keys), drafts@.len() as int),
                category <= n,
            decreases pages@.len() - n,
        {
            progress.stage_percent("objects", n, pages.len(), 2, 35);
            proof {
                assert(pv.take(n + 1).drop_last() =~= pv.take(n as int));
                assert(pv.take(n + 1).last() == pv[n as int]);
                assert(pv[n as int] == (pages@[n as int].0 as int, pages@[n as int].1@));
            }
            let index = pages[n].0;
            let path = pages[n].1.as_str();
            if owner_of(path).is_some() {
                n = n + 1;
                continue;
            }
            let read = read_lossy(storage, index);
            proof {
                assert(archive_entries(*storage) == e);
            }
            let body = match read {
                Ok(b) => b,
                Err(err) => {
                    proof {
                        lemma_objects_none(lang, e, pv, n + 1);
                    }
                    return Err(err);
                },
            };
            match self.object_page(body.as_str(), path) {
                None => {},
                Some(None) => {
                    category = category + 1;
                },
                Some(Some((name, description, is_global))) => {
                    let base = strip_html(path);
                    let idx = drafts.len();
                    let ghost before = drafts@;
                    let ghost keys_before = keyed_entries(obj_keys);
                    proof {
                        crate::keyed::lemma_values_below(keys_before, base@, idx, idx + 1);
                    }
                    keyed_insert(&mut obj_keys, base, idx);
                    let draft = ObjectDraft { name, description, methods: Vec::new(), is_global, properties: Vec::new() };
                    drafts.push(draft);
                    proof {
                        assert(draft.methods@.map_values(|m: String| m@) =~= Seq::<Seq<char>>::empty());
                        assert(draft.properties@.map_values(|p: Property| prop_view(p)) =~= Seq::<PropModel>::empty());
                        assert(drafts_model(drafts@) =~= drafts_model(before).push(draft_model(draft)));
                    }
                },
            }
            n = n + 1;
        }
        proof {
            assert(pv.take(pages@.len() as int) =~= pv);
        }
        let ghost keys = keyed_entries(obj_keys);
        let ghost drafts0 = drafts_model(drafts@);

        let mut method_keys = keyed_new();
        let mut methods: Vec<ApiMethod> = Vec::new();
        let mut dup: usize = 0;
        let mut no_owner: usize = 0;
        proof {
            assert(methods@.map_values(|m: ApiMethod| method_view(m)) =~= Seq::<MethodModel>::empty());
        }
        n = 0;
        while n < pages.len()
            invariant
                0 <= n <= pages@.len(),
                lang == self.language(),
                archive_entries(*storage) == e,
                e == archive_entries(*old(storage)),
                pv == pages_view(pages@),
                forall|j: int| 0 <= j < pages@.len() ==> (#[trigger] pages@[j]).0 < e.len(),
                keyed_entries(obj_keys) == keys,
                pv == html_only(pages_of(e)),
                objects_pass(lang, e, pv) == Some((keys, drafts0, category as nat)),
                values_below(keys, drafts@.len() as int),
                members_pass(lang, e, keys, drafts0, pv.take(n as int)) == Some((
                    drafts_model(drafts@),
                    keyed_entries(method_keys),
                    methods@.map_values(|m: ApiMethod| method_view(m)),
                    dup as nat,
                    no_owner as nat,
                )),
                dup + no_owner <= n,
                forall|i: int| 0 <= i < methods@.len() ==> bare_examples((#[trigger] methods@[i]).examples@),
            decreases pages@.len() - n,
        {
            progress.stage_percent("members", n, pages.len(), 35, 85);
            proof {
                assert(pv.take(n + 1).drop_last() =~= pv.take(n as int));
                assert(pv.take(n + 1).last() == pv[n as int]);
                assert(pv[n as int] == (pages@[n as int].0 as int, pages@[n as int].1@));
            }
            let index = pages[n].0;
            let path = pages[n].1.as_str();
            let owner = match owner_of(path) {
                Some(o) => o,
                None => {
                    n = n + 1;
                    continue;
                },
            };
            let k = match keyed_get(&obj_keys, owner.as_str()) {
                Some(k) => k,
                None => {
                    no_owner = no_owner + 1;
                    n = n + 1;
                    continue;
                },
            };
            proof {
                crate::keyed::lemma_values_below(keys, owner@, 0, drafts@.len() as int);
            }
            let read = read_lossy(storage, index);
            proof {
                assert(archive_entries(*storage) == e);
            }
            let body = match read {
                Ok(b) => b,
                Err(err) => {
                    proof {
                        lemma_members_none(lang, e, keys, drafts0, pv, n + 1);
                    }
                    return Err(err);
                },
            };
            let ghost w0 = (drafts_model(drafts@), keyed_entries(method_keys), methods@.map_values(|m: ApiMethod| method_view(m)), dup as nat, no_owner as nat);
            self.member_page(&mut drafts, &mut method_keys, &mut methods, &mut dup, Ghost(no_owner as nat), path, k, body.as_str());
            proof {
                assert(member_page_step(lang, w0, path@, k as int, body@) == (
                    drafts_model(drafts@),
                    keyed_entries(method_keys),
                    methods@.map_values(|m: ApiMethod| method_view(m)),
                    dup as nat,
                    no_owner as nat,
                ));
            }
            n = n + 1;
        }
        proof {
            assert(pv.take(pages@.len() as int) =~= pv);
        }
        let ghost final_drafts = drafts_model(drafts@);

        let count = keyed_len(&obj_keys);
        let mut api_objects: Vec<ApiObject> = Vec::new();
        let mut seen: Vec<String> = Vec::new();
        let mut i: usize = 0;
        proof {
            assert(keys.take(0) =~= Seq::<(Seq<char>, usize)>::empty());
            assert(api_objects@.map_values(|o: ApiObject| object_view(o)) =~= Seq::<ObjModel>::empty());
        }
        while i < count
            invariant
                0 <= i <= count,
                count == keys.len(),
                keyed_entries(obj_keys) == keys,
                values_below(keys, drafts@.len() as int),
                final_drafts == drafts_model(drafts@),
                api_objects@.map_values(|o: ApiObject| object_view(o)) == objects_out(keys.take(i as int), final_drafts),
                seen@.map_values(|s: String| s@) == objects_out(keys.take(i as int), final_drafts).map_values(|o: ObjModel| o.0),
            decreases count - i,
        {
            proof {
                assert(keys.take(i + 1).drop_last() =~= keys.take(i as int));
                assert(keys.take(i + 1).last() == keys[i as int]);
            }
            let (_, v) = keyed_at(&obj_keys, i);
            let d = &drafts[v];
            proof {
                assert(final_drafts[v as int] == draft_model(*d));
            }
            if d.properties.len() == 0 && d.methods.len() == 0 && d.description.as_str().unicode_len() == 0 {
                i = i + 1;
                continue;
            }
            let ghost names = seen@.map_values(|s: String| s@);
            let mut found = false;
            let mut j: usize = 0;
            while j < seen.len() && !found
                invariant
                    0 <= j <= seen@.len(),
                    names == seen@.map_values(|s: String| s@),
                    found ==> names.contains(d.name@),
                    !found ==> forall|q: int| 0 <= q < j ==> names[q] != d.name@,
                decreases seen@.len() - j + (if found { 0int } else { 1int }),
            {
                if same_text(seen[j].as_str(), d.name.as_str()) {
                    assert(names[j as int] == d.name@);
                    found = true;
                } else {
                    j = j + 1;
                }
            }
            if found {
                i = i + 1;
                continue;
            }
            proof {
                assert(!names.contains(d.name@)) by {
                    if names.contains(d.name@) {
                        let q = choose|q: int| 0 <= q < names.len() && names[q] == d.name@;
                        assert(names[q] != d.name@);
                    }
                }
            }
            let object = ApiObject {
                name: d.name.clone(),
                description: d.description.clone(),
                properties: copy_properties(&d.properties),
                methods: copy_strings(&d.methods),
            };
            let ghost objects_before = api_objects@;
            let ghost seen_before = seen@;
            seen.push(d.name.clone());
            api_objects.push(object);
            proof {
                assert(api_objects@.map_values(|o: ApiObject| object_view(o)) =~= objects_before.map_values(|o: ApiObject| object_view(o)).push(object_view(object)));
                assert(seen@.map_values(|s: String| s@) =~= seen_before.map_values(|s: String| s@).push(d.name@));
            }
            i = i + 1;
        }
        proof {
            assert(keys.take(count as int) =~= keys);
        }
        let doc = Document {
            version: String::from_str(version),
            platform: String::from_str("1С:Предприятие"),
            release_date: None,
            sections: Vec::new(),
            api_methods: methods,
            api_objects,
            relationships: Vec::new(),
        };
        Ok((doc, Skipped { category, dup_method: dup, no_owner }))
    }
}

impl Extractor {
    /// A member page whose owner is the draft at `k`: a property joins its
    /// object, a method or constructor goes in under its name unless a method
    /// of that name is there already.
    fn member_page(
        &self,
        drafts: &mut Vec<ObjectDraft>,
        method_keys: &mut crate::keyed::Keyed,
        methods: &mut Vec<ApiMethod>,
        dup: &mut usize,
        Ghost(no_owner): Ghost<nat>,
        path: &str,
        k: usize,
        body: &str,
    )
        requires
            k < old(drafts)@.len(),
            *old(dup) < usize::MAX,
            forall|i: int| 0 <= i < old(methods)@.len() ==> bare_examples((#[trigger] old(methods)@[i]).examples@),
        ensures
            member_page_step(self.language(), (
                drafts_model(old(drafts)@),
                keyed_entries(*old(method_keys)),
                old(methods)@.map_values(|m: ApiMethod| method_view(m)),
                *old(dup) as nat,
                no_owner,
            ), path@, k as int, body@) == (
                drafts_model(final(drafts)@),
                keyed_entries(*final(method_keys)),
                final(methods)@.map_values(|m: ApiMethod| method_view(m)),
                *final(dup) as nat,
                no_owner,
            ),
            final(drafts)@.len() == old(drafts)@.len(),
            forall|i: int| 0 <= i < final(methods)@.len() ==> bare_examples((#[trigger] final(methods)@[i]).examples@),
    {
        proof {
            use_type_invariant(self);
            reveal_strlit("/properties/");
            reveal_strlit("/methods/");
            reveal_strlit("/ctors/");
        }
        let ghost lang = self.language();
        let properties_dir = chars_of("/properties/");
        let methods_dir = chars_of("/methods/");
        let ctors_dir = chars_of("/ctors/");
        let (member, english) = match self.member_heading(body) {
            Some(h) => h,
            None => {
                return;
            },
        };
        let pc = chars_of(path);
        let ghost dm = drafts_model(drafts@);
        if crate::text::contains_chars(&pc, &properties_dir) {
            let prop = self.property_entry(body, member, english.as_str());
            let ghost old_draft = drafts@[k as int];
            drafts[k].properties.push(prop);
            proof {
                assert(drafts@[k as int].properties@ =~= old_draft.properties@.push(prop));
                assert(draft_model(drafts@[k as int]).4 =~= draft_model(old_draft).4.push(prop_view(prop)));
                assert(drafts_model(drafts@) =~= dm.update(k as int, (dm[k as int].0, dm[k as int].1, dm[k as int].2, dm[k as int].3, dm[k as int].4.push(prop_view(prop)))));
            }
            return;
        }
        if !crate::text::contains_chars(&pc, &methods_dir) && !crate::text::contains_chars(&pc, &ctors_dir) {
            return;
        }
        let full = {
            let d = &drafts[k];
            let mut out: Vec<char> = Vec::new();
            if crate::text::contains_chars(&pc, &ctors_dir) {
                push_str(&mut out, self.lang.ctor_word);
                push_str(&mut out, " ");
                push_str(&mut out, d.name.as_str());
                let c = string_of(&out);
                if keyed_get(method_keys, c.as_str()).is_some() {
                    push_str(&mut out, " — ");
                    push_str(&mut out, member.as_str());
                    string_of(&out)
                } else {
                    c
                }
            } else if d.is_global {
                member.clone()
            } else {
                push_str(&mut out, d.name.as_str());
                push_str(&mut out, ".");
                push_str(&mut out, member.as_str());
                string_of(&out)
            }
        };
        proof {
            assert(full@ == method_name_of(lang, keyed_entries(*method_keys), path@, dm[k as int], member@));
        }
        if keyed_get(method_keys, full.as_str()).is_some() {
            *dup = *dup + 1;
            return;
        }
        let method = self.method_entry(body, full.clone(), english.as_str());
        let ghost methods_before = methods@;
        keyed_insert(method_keys, full, methods.len());
        methods.push(method);
        let ghost old_draft = drafts@[k as int];
        drafts[k].methods.push(member);
        proof {
            assert(methods@.map_values(|m: ApiMethod| method_view(m)) =~= methods_before.map_values(|m: ApiMethod| method_view(m)).push(method_view(method)));
            assert(drafts@[k as int].methods@ =~= old_draft.methods@.push(member));
            assert(draft_model(drafts@[k as int]).2 =~= draft_model(old_draft).2.push(member@));
            assert(drafts_model(drafts@) =~= dm.update(k as int, (dm[k as int].0, dm[k as int].1, dm[k as int].2.push(member@), dm[k as int].3, dm[k as int].4)));
        }
    }
}

// ── sections of the language books ─────────────────────────────────────────

/// A subsection: id, title, type, content, keywords.
pub type LeafModel = (Seq<char>, Seq<char>, SectionType, Seq<char>, Seq<Seq<char>>);

/// A root section: id, title, type, content, keywords, its subsections.
pub type RootModel = (Seq<char>, Seq<char>, SectionType, Seq<char>, Seq<Seq<char>>, Seq<LeafModel>);

pub open spec fn leaf_view(s: Section) -> LeafModel {
    (s.id@, s.title@, s.section_type, s.content@, s.keywords@.map_values(|w: String| w@))
}

pub open spec fn root_view(s: Section) -> RootModel {
    (s.id@, s.title@, s.section_type, s.content@, s.keywords@.map_values(|w: String| w@), s.subsections@.map_values(|c: Section| leaf_view(c)))
}

/// A leaf section holds no subsections.
pub open spec fn is_leaf(s: Section) -> bool {
    s.subsections@.len() == 0
}

/// The pages of a book that are no sections: the syntax boxes (`.st`, which
/// repeat the syntax chapter of the describing page), images, and the service
/// pages (contents, the tree of sections).
pub open spec fn service_page(page: Seq<char>) -> bool {
    ||| ".st"@.is_suffix_of(page)
    ||| ".gif"@.is_suffix_of(page)
    ||| page == "index"@
    ||| page == "__categories__"@
    ||| page == "root.html"@
    ||| "_CONTENTS_NODE_"@.is_prefix_of(page)
}

/// A page of a language book, read: `None` when it gives no section (no
/// `<h1>`, or nothing after it); otherwise the section. The heading is taken
/// from any `<h1>`, whatever its class; the content runs from the heading to
/// the footer.
pub open spec fn section_of(lang: HelpLang, book: Book, page: Seq<char>, body: Seq<char>) -> Option<LeafModel> {
    match h1_of(body) {
        None => None,
        Some((end, inner)) => {
            let page_title = text_of(inner, false);
            let (ru, en) = names_of(page_title);
            let content = text_of(before_footer_of(body.skip(end)), true);
            if content.len() == 0 {
                None
            } else {
                Some((
                    book.prefix@ + "_"@ + stem_of(page),
                    page_title,
                    book.kind,
                    clipped(content, 4000),
                    keywords_of(ru, en, page),
                ))
            }
        },
    }
}

/// The first `<h1>` of a page, whatever its class: where its markup ends, and
/// the markup inside it.
pub open spec fn h1_of(body: Seq<char>) -> Option<(int, Seq<char>)> {
    match rx_captures(h1_pattern(), body) {
        None => None,
        Some(c) => if c.len() > 1 && c[0] is Some && c[1] is Some {
            Some((c[0].unwrap().1, body.subrange(c[1].unwrap().0, c[1].unwrap().1)))
        } else {
            None
        },
    }
}

/// The sections of a book so far and the number of pages skipped; `None` when
/// a page could not be read.
pub open spec fn book_step(lang: HelpLang, book: Book, entries: Entries, st: Option<(Seq<LeafModel>, nat)>, page: (int, Seq<char>)) -> Option<(Seq<LeafModel>, nat)> {
    match st {
        None => None,
        Some((taken, skipped)) => if service_page(page.1) {
            Some((taken, skipped + 1))
        } else {
            match page_strict(entries, page.0) {
                None => None,
                Some(None) => Some((taken, skipped + 1)),
                Some(Some(body)) => match section_of(lang, book, page.1, body) {
                    None => Some((taken, skipped + 1)),
                    Some(leaf) => Some((taken.push(leaf), skipped)),
                },
            }
        },
    }
}

pub open spec fn book_pass(lang: HelpLang, book: Book, entries: Entries, pages: Seq<(int, Seq<char>)>) -> Option<(Seq<LeafModel>, nat)>
    decreases pages.len(),
{
    if pages.len() == 0 {
        Some((Seq::empty(), 0))
    } else {
        book_step(lang, book, entries, book_pass(lang, book, entries, pages.drop_last()), pages.last())
    }
}

/// The root section of a book with its subsections.
pub open spec fn book_root(lang: HelpLang, book: Book, leaves: Seq<LeafModel>) -> RootModel {
    let file = book.stem@ + "_"@ + lang.suffix@ + ".hbk"@;
    (
        book.prefix@,
        book.title@,
        SectionType::Category,
        crate::text::replaced(crate::text::replaced(lang.section_blurb@, "{title}"@, book.title@), "{book}"@, file),
        Seq::empty(),
        leaves,
    )
}

/// The archive place of the page at which [`book_pass`] fails: the first
/// page it reads that cannot be read.
pub open spec fn book_failure(lang: HelpLang, book: Book, entries: Entries, pages: Seq<(int, Seq<char>)>) -> int
    decreases pages.len(),
{
    if pages.len() == 0 {
        0
    } else if book_pass(lang, book, entries, pages.drop_last()) is None {
        book_failure(lang, book, entries, pages.drop_last())
    } else {
        pages.last().0
    }
}

proof fn lemma_book_none(lang: HelpLang, book: Book, entries: Entries, pages: Seq<(int, Seq<char>)>, k: int)
    requires
        0 <= k <= pages.len(),
        book_pass(lang, book, entries, pages.take(k)) is None,
    ensures
        book_pass(lang, book, entries, pages) is None,
        book_failure(lang, book, entries, pages) == book_failure(lang, book, entries, pages.take(k)),
    decreases pages.len() - k,
{
    if k < pages.len() {
        assert(pages.take(k + 1).drop_last() =~= pages.take(k));
        lemma_book_none(lang, book, entries, pages, k + 1);
    } else {
        assert(pages.take(k) =~= pages);
    }
}

fn is_service_page(page: &str) -> (res: bool)
    ensures
        res == service_page(page@),
{
    let pc = chars_of(page);
    let st = chars_of(".st");
    let gif = chars_of(".gif");
    let node = chars_of("_CONTENTS_NODE_");
    crate::text::ends_with_chars(&pc, &st)
        || crate::text::ends_with_chars(&pc, &gif)
        || same_text(page, "index")
        || same_text(page, "__categories__")
        || same_text(page, "root.html")
        || starts_with_chars(&pc, &node)
}

impl Extractor {
    /// The first `<h1>` of a page, whatever its class: where its markup ends,
    /// and the markup inside it.
    pub fn h1_title(&self, body: &str) -> (res: Option<(usize, String)>)
        ensures
            match res {
                Some((end, inner)) => h1_of(body@) == Some((end as int, inner@)) && end <= body@.len(),
                None => h1_of(body@) is None,
            },
    {
        proof {
            use_type_invariant(self);
        }
        let c = match self.h1.captures(body) {
            Some(c) => c,
            None => { return None; },
        };
        proof {
            let m = rx_captures(h1_pattern(), body@).unwrap();
            assert(m.len() == c@.len());
            if c@.len() > 1 {
                assert(crate::pattern::ranges(c@)[0] == m[0]);
                assert(crate::pattern::ranges(c@)[1] == m[1]);
                assert(crate::pattern::in_text(m[0], body@.len() as int));
                assert(crate::pattern::in_text(m[1], body@.len() as int));
            }
        }
        if c.len() <= 1 {
            return None;
        }
        match (c[0], c[1]) {
            (Some((_, e0)), Some((s1, e1))) => {
                let bc = chars_of(body);
                Some((e0, substring(&bc, s1, e1)))
            },
            _ => None,
        }
    }

    /// A page of a language book as a section.
    fn section_page(&self, book: &Book, page: &str, body: &str) -> (res: Option<Section>)
        ensures
            match res {
                Some(s) => section_of(self.language(), *book, page@, body@) == Some(leaf_view(s)) && is_leaf(s),
                None => section_of(self.language(), *book, page@, body@) is None,
            },
    {
        let (whole_end, inner_text) = match self.h1_title(body) {
            Some(h) => h,
            None => { return None; },
        };
        let bc = chars_of(body);
        let page_title = self.text.text(inner_text.as_str(), false);
        let (ru, en) = self.split_names(page_title.as_str());
        let after = substring(&bc, whole_end, bc.len());
        assert(after@ =~= body@.skip(whole_end as int));
        let before = self.before_footer(after.as_str());
        let content = self.text.text(before.as_str(), true);
        if content.as_str().unicode_len() == 0 {
            return None;
        }
        let mut id: Vec<char> = Vec::new();
        push_str(&mut id, book.prefix);
        push_str(&mut id, "_");
        let stem = page_stem(page);
        push_str(&mut id, stem.as_str());
        let keywords = self.page_keywords(ru.as_str(), en.as_str(), page);
        let section = Section {
            id: string_of(&id),
            title: page_title,
            section_type: book.kind,
            content: crate::html::clip(content.as_str(), 4000),
            keywords,
            subsections: Vec::new(),
        };
        Some(section)
    }

    /// The sections of one book, and how many of its pages were skipped.
    fn book_sections<R: Reporter>(&self, book_index: usize, storage: &mut Storage, progress: &mut R) -> (res: Result<(Vec<Section>, usize), StorageError>)
        requires
            book_index < 3,
        ensures
            archive_entries(*final(storage)) == archive_entries(*old(storage)),
            match res {
                Ok((leaves, skipped)) => book_pass(self.language(), self.language().books[book_index as int], archive_entries(*old(storage)), pages_of(archive_entries(*old(storage))))
                        == Some((leaves@.map_values(|c: Section| leaf_view(c)), skipped as nat))
                    && forall|i: int| 0 <= i < leaves@.len() ==> is_leaf(#[trigger] leaves@[i]),
                Err(e) => book_pass(self.language(), self.language().books[book_index as int], archive_entries(*old(storage)), pages_of(archive_entries(*old(storage)))) is None
                    && e == StorageError::Unreadable(book_failure(self.language(), self.language().books[book_index as int],
                        archive_entries(*old(storage)), pages_of(archive_entries(*old(storage)))) as usize),
            },
    {
        let ghost e = archive_entries(*old(storage));
        let ghost lang = self.language();
        let book = &self.lang.books[book_index];
        let pages = all_pages(storage);
        let ghost pv = pages_view(pages@);
        let mut taken: Vec<Section> = Vec::new();
        let mut skipped: usize = 0;
        let base: usize = 85 + book_index * 5;
        let mut n: usize = 0;
        proof {
            assert(pv.take(0) =~= Seq::<(int, Seq<char>)>::empty());
            assert(taken@.map_values(|c: Section| leaf_view(c)) =~= Seq::<LeafModel>::empty());
        }
        while n < pages.len()
            invariant
                0 <= n <= pages@.len(),
                lang == self.language(),
                *book == lang.books[book_index as int],
                archive_entries(*storage) == e,
                e == archive_entries(*old(storage)),
                pv == pages_view(pages@),
                pv == pages_of(e),
                forall|j: int| 0 <= j < pages@.len() ==> (#[trigger] pages@[j]).0 < e.len(),
                book_pass(lang, *book, e, pv.take(n as int)) == Some((taken@.map_values(|c: Section| leaf_view(c)), skipped as nat)),
                forall|i: int| 0 <= i < taken@.len() ==> is_leaf(#[trigger] taken@[i]),
                skipped <= n,
                base + 5 <= usize::MAX,
            decreases pages@.len() - n,
        {
            progress.stage_percent("sections", n, pages.len(), base, base + 5);
            proof {
                assert(pv.take(n + 1).drop_last() =~= pv.take(n as int));
                assert(pv.take(n + 1).last() == pv[n as int]);
                assert(pv[n as int] == (pages@[n as int].0 as int, pages@[n as int].1@));
            }
            let index = pages[n].0;
            let page = pages[n].1.as_str();
            if is_service_page(page) {
                skipped = skipped + 1;
                n = n + 1;
                continue;
            }
            let read = read_strict(storage, index);
            proof {
                assert(archive_entries(*storage) == e);
            }
            let body = match read {
                Ok(Some(b)) => b,
                Ok(None) => {
                    skipped = skipped + 1;
                    n = n + 1;
                    continue;
                },
                Err(err) => {
                    proof {
                        lemma_book_none(lang, *book, e, pv, n + 1);
                    }
                    return Err(err);
                },
            };
            match self.section_page(book, page, body.as_str()) {
                Some(section) => {
                    let ghost before = taken@;
                    taken.push(section);
                    proof {
                        assert(taken@.map_values(|c: Section| leaf_view(c)) =~= before.map_values(|c: Section| leaf_view(c)).push(leaf_view(section)));
                    }
                },
                None => {
                    skipped = skipped + 1;
                },
            }
            n = n + 1;
        }
        proof {
            assert(pv.take(pages@.len() as int) =~= pv);
        }
        Ok((taken, skipped))
    }
}

/// The entries of the page archive inside a help book; `None` when the book
/// gives none.
pub open spec fn storage_entries(raw: Seq<u8>) -> Option<Entries> {
    match container_items(raw) {
        Some(items) => match file_storage(items) {
            Some(data) => zip_listing(data),
            None => None,
        },
        None => None,
    }
}

/// The counts of a book: its file, sections taken, pages skipped.
pub type StatsModel = (Seq<char>, nat, nat);

pub open spec fn stats_view(b: BookStats) -> StatsModel {
    (b.book@, b.taken as nat, b.skipped as nat)
}

/// One book read into the sections so far: a missing book is passed over; a
/// book with no sections gives its counts but no root section.
pub open spec fn sections_step(lang: HelpLang, book: Book, raw: Option<Seq<u8>>, st: Option<(Seq<RootModel>, Seq<StatsModel>)>) -> Option<(Seq<RootModel>, Seq<StatsModel>)> {
    match st {
        None => None,
        Some((roots, stats)) => match raw {
            None => st,
            Some(bytes) => match storage_entries(bytes) {
                None => None,
                Some(e) => match book_pass(lang, book, e, pages_of(e)) {
                    None => None,
                    Some((leaves, skipped)) => {
                        let file = book.stem@ + "_"@ + lang.suffix@ + ".hbk"@;
                        Some((
                            if leaves.len() > 0 { roots.push(book_root(lang, book, leaves)) } else { roots },
                            stats.push((file, leaves.len(), skipped)),
                        ))
                    },
                },
            },
        },
    }
}

/// The sections of the language books (`raws[i]` is the `i`-th book's file,
/// `None` when it is missing); `None` when a book cannot be read.
pub open spec fn sections_of(lang: HelpLang, raws: Seq<Option<Seq<u8>>>, k: int) -> Option<(Seq<RootModel>, Seq<StatsModel>)>
    decreases k,
{
    if k <= 0 {
        Some((Seq::empty(), Seq::empty()))
    } else {
        sections_step(lang, lang.books[k - 1], raws[k - 1], sections_of(lang, raws, k - 1))
    }
}

pub open spec fn raws_view(books: Seq<Option<Vec<u8>>>) -> Seq<Option<Seq<u8>>> {
    books.map_values(|b: Option<Vec<u8>>| match b {
        Some(v) => Some(v@),
        None => None,
    })
}

proof fn lemma_sections_none(lang: HelpLang, raws: Seq<Option<Seq<u8>>>, k: int, n: int)
    requires
        0 <= k <= n,
        sections_of(lang, raws, k) is None,
    ensures
        sections_of(lang, raws, n) is None,
    decreases n - k,
{
    if k < n {
        lemma_sections_none(lang, raws, k + 1, n);
    }
}

/// `e` is what the present help book `book`, the `i`-th of the language,
/// failed with: opening it (see [`open_refusal`]), or reading the page named
/// by [`book_failure`].
pub open spec fn book_refused(lang: HelpLang, i: int, book: Option<Vec<u8>>, e: StorageError) -> bool {
    match book {
        None => false,
        Some(raw) => match storage_entries(raw@) {
            None => open_refusal(raw@, e),
            Some(entries) => e == StorageError::Unreadable(book_failure(lang, lang.books[i], entries, pages_of(entries)) as usize),
        },
    }
}

impl Extractor {
    /// The sections of the language books next to the context book: one root
    /// section for each book that gave any. `books[i]` holds the file of the
    /// `i`-th book of the help language, `None` when it is missing: a missing
    /// book is no failure, the base is built from what there is.
    pub fn extract_sections<R: Reporter>(&self, books: &Vec<Option<Vec<u8>>>, progress: &mut R) -> (res: Result<(Vec<Section>, Vec<BookStats>), (usize, StorageError)>)
        requires
            books@.len() == 3,
        ensures
            match res {
                Ok((sections, stats)) => sections_of(self.language(), raws_view(books@), 3) == Some((
                        sections@.map_values(|s: Section| root_view(s)),
                        stats@.map_values(|b: BookStats| stats_view(b)),
                    ))
                    && forall|i: int| 0 <= i < sections@.len() ==> forall|j: int| 0 <= j < (#[trigger] sections@[i]).subsections@.len()
                        ==> is_leaf(#[trigger] sections@[i].subsections@[j]),
                Err((i, e)) => sections_of(self.language(), raws_view(books@), 3) is None
                    && i < 3
                    && sections_of(self.language(), raws_view(books@), i as int) is Some
                    && sections_of(self.language(), raws_view(books@), i + 1) is None
                    && book_refused(self.language(), i as int, books@[i as int], e),
            },
    {
        let ghost lang = self.language();
        let ghost raws = raws_view(books@);
        let mut sections: Vec<Section> = Vec::new();
        let mut stats: Vec<BookStats> = Vec::new();
        let mut i: usize = 0;
        proof {
            assert(sections@.map_values(|s: Section| root_view(s)) =~= Seq::<RootModel>::empty());
            assert(stats@.map_values(|b: BookStats| stats_view(b)) =~= Seq::<StatsModel>::empty());
        }
        while i < 3
            invariant
                0 <= i <= 3,
                books@.len() == 3,
                lang == self.language(),
                raws == raws_view(books@),
                sections_of(lang, raws, i as int) == Some((
                    sections@.map_values(|s: Section| root_view(s)),
                    stats@.map_values(|b: BookStats| stats_view(b)),
                )),
                forall|q: int| 0 <= q < sections@.len() ==> forall|j: int| 0 <= j < (#[trigger] sections@[q]).subsections@.len()
                    ==> is_leaf(#[trigger] sections@[q].subsections@[j]),
            decreases 3 - i,
        {
            proof {
                use_type_invariant(self);
            }
            let book = &self.lang.books[i];
            let raw = match &books[i] {
                Some(r) => r,
                None => {
                    i = i + 1;
                    continue;
                },
            };
            let mut storage = match crate::storage::open_storage(raw.as_slice()) {
                Ok(st) => st,
                Err(e) => {
                    proof {
                        lemma_sections_none(lang, raws, i + 1, 3);
                    }
                    return Err((i, e));
                },
            };
            let (leaves, skipped) = match self.book_sections(i, &mut storage, progress) {
                Ok(r) => r,
                Err(e) => {
                    proof {
                        lemma_sections_none(lang, raws, i + 1, 3);
                    }
                    return Err((i, e));
                },
            };
            let file = book.file_name(&self.lang);
            let ghost stats_before = stats@;
            let ghost sections_before = sections@;
            let stat = BookStats { book: file.clone(), taken: leaves.len(), skipped };
            stats.push(stat);
            proof {
                assert(stats@.map_values(|b: BookStats| stats_view(b)) =~= stats_before.map_values(|b: BookStats| stats_view(b)).push(stats_view(stat)));
            }
            if leaves.len() > 0 {
                let root = Section {
                    id: String::from_str(book.prefix),
                    title: String::from_str(book.title),
                    section_type: SectionType::Category,
                    content: self.lang.blurb(book.title, file.as_str()),
                    keywords: Vec::new(),
                    subsections: leaves,
                };
                sections.push(root);
                proof {
                    assert(root.keywords@.map_values(|w: String| w@) =~= Seq::<Seq<char>>::empty());
                    assert(sections@.map_values(|s: Section| root_view(s)) =~= sections_before.map_values(|s: Section| root_view(s)).push(root_view(root)));
                }
            }
            i = i + 1;
        }
        Ok((sections, stats))
    }
}

// ── the whole build ────────────────────────────────────────────────────────

/// Why the knowledge base could not be built from the help.
#[derive(Debug)]
pub enum BuildError {
    /// `regex` refused one of the extractor's expressions.
    Patterns,
    /// The context book gave no pages.
    ContextBook(StorageError),
    /// The language book at this place of the help language's list could not
    /// be read.
    LanguageBook(usize, StorageError),
}

/// The sum of the property counts of the objects.
pub open spec fn properties_total(objects: Seq<ObjModel>) -> nat
    decreases objects.len(),
{
    if objects.len() == 0 { 0 } else { properties_total(objects.drop_last()) + objects.last().2.len() }
}

/// The sum of the subsection counts of the root sections.
pub open spec fn subsections_total(roots: Seq<RootModel>) -> nat
    decreases roots.len(),
{
    if roots.len() == 0 { 0 } else { subsections_total(roots.drop_last()) + roots.last().5.len() }
}


/// The knowledge base built from the help of a platform: the objects and
/// methods of the context book (`context` is its file), the sections of the
/// language books (`books[i]` is the file of the `i`-th book, `None` when it
/// is missing), all in one document — a second document of the same version
/// would replace the first, since the base keys documents by version.
#[verifier::spinoff_prover]
#[verifier::rlimit(40)]
pub fn build<R: Reporter>(platform: &Platform, help_lang: HelpLang, context: &[u8], books: &Vec<Option<Vec<u8>>>, progress: &mut R) -> (res: Result<(Document, BuildReport), BuildError>)
    requires
        books@.len() == 3,
    ensures
        match res {
            Ok((doc, report)) => {
                &&& storage_entries(context@) matches Some(e)
                &&& api_of(help_lang, e) == Some((
                    doc.api_methods@.map_values(|m: ApiMethod| method_view(m)),
                    doc.api_objects@.map_values(|o: ApiObject| object_view(o)),
                    (report.skipped.category as nat, report.skipped.dup_method as nat, report.skipped.no_owner as nat),
                ))
                &&& sections_of(help_lang, raws_view(books@), 3) == Some((
                    doc.sections@.map_values(|s: Section| root_view(s)),
                    report.books@.map_values(|b: BookStats| stats_view(b)),
                ))
                &&& doc.version@ == three_components(platform.version@)
                &&& report.version@ == doc.version@
                &&& doc.platform@ == "1С:Предприятие"@
                &&& doc.release_date is None
                &&& doc.relationships@.len() == 0
                &&& report.objects == doc.api_objects@.len()
                &&& report.methods == doc.api_methods@.len()
                &&& report.properties as nat == capped(properties_total(doc.api_objects@.map_values(|o: ApiObject| object_view(o))))
                &&& report.root_sections == doc.sections@.len()
                &&& report.subsections as nat == capped(subsections_total(doc.sections@.map_values(|s: Section| root_view(s))))
                &&& forall|i: int| 0 <= i < doc.api_methods@.len() ==> bare_examples((#[trigger] doc.api_methods@[i]).examples@)
                &&& forall|i: int| 0 <= i < doc.sections@.len() ==> forall|j: int| 0 <= j < (#[trigger] doc.sections@[i]).subsections@.len()
                    ==> is_leaf(#[trigger] doc.sections@[i].subsections@[j])
                &&& extractor_patterns_compile(help_lang)
                &&& R::keeps_percent() ==> final(progress).reported_percent() == 100
            },
            Err(BuildError::Patterns) => !extractor_patterns_compile(help_lang),
            Err(BuildError::ContextBook(err)) => match storage_entries(context@) {
                None => open_refusal(context@, err),
                Some(e) => api_of(help_lang, e) is None && err == StorageError::Unreadable(api_failure(help_lang, e) as usize),
            },
            Err(BuildError::LanguageBook(i, err)) => storage_entries(context@) matches Some(e)
                && api_of(help_lang, e) is Some
                && sections_of(help_lang, raws_view(books@), 3) is None
                && i < 3
                && sections_of(help_lang, raws_view(books@), i as int) is Some
                && sections_of(help_lang, raws_view(books@), i + 1) is None
                && book_refused(help_lang, i as int, books@[i as int], err),
        },
{
    let version = platform.document_version();
    let extractor = match Extractor::new(help_lang) {
        Some(x) => x,
        None => { return Err(BuildError::Patterns); },
    };
    let mut storage = match crate::storage::open_storage(context) {
        Ok(st) => st,
        Err(e) => { return Err(BuildError::ContextBook(e)); },
    };
    let (mut document, skipped) = match extractor.extract(&mut storage, version.as_str(), progress) {
        Ok(r) => r,
        Err(e) => { return Err(BuildError::ContextBook(e)); },
    };
    let (sections, book_stats) = match extractor.extract_sections(books, progress) {
        Ok(r) => r,
        Err((i, e)) => { return Err(BuildError::LanguageBook(i, e)); },
    };
    document.sections = sections;
    progress.stage_percent("done", 1, 1, 100, 100);

    let ghost objects = document.api_objects@.map_values(|o: ApiObject| object_view(o));
    let mut properties: usize = 0;
    let mut i: usize = 0;
    while i < document.api_objects.len()
        invariant
            0 <= i <= document.api_objects@.len(),
            objects == document.api_objects@.map_values(|o: ApiObject| object_view(o)),
            properties as nat == capped(properties_total(objects.take(i as int))),
        decreases document.api_objects@.len() - i,
    {
        assert(objects.take(i + 1).drop_last() =~= objects.take(i as int));
        assert(objects[i as int].2.len() == document.api_objects@[i as int].properties@.len());
        properties = properties.saturating_add(document.api_objects[i].properties.len());
        i = i + 1;
    }
    assert(objects.take(document.api_objects@.len() as int) =~= objects);

    let ghost roots = document.sections@.map_values(|s: Section| root_view(s));
    let mut subsections: usize = 0;
    let mut j: usize = 0;
    while j < document.sections.len()
        invariant
            0 <= j <= document.sections@.len(),
            roots == document.sections@.map_values(|s: Section| root_view(s)),
            subsections as nat == capped(subsections_total(roots.take(j as int))),
        decreases document.sections@.len() - j,
    {
        assert(roots.take(j + 1).drop_last() =~= roots.take(j as int));
        assert(roots[j as int].5.len() == document.sections@[j as int].subsections@.len());
        subsections = subsections.saturating_add(document.sections[j].subsections.len());
        j = j + 1;
    }
    assert(roots.take(document.sections@.len() as int) =~= roots);

    let report = BuildReport {
        version,
        objects: document.api_objects.len(),
        methods: document.api_methods.len(),
        properties,
        root_sections: document.sections.len(),
        subsections,
        skipped,
        books: book_stats,
    };
    Ok((document, report))
}

// ── what every extraction keeps ────────────────────────────────────────────

/// The method keys name the methods, one key per method, no key twice.
pub open spec fn keys_name_methods(keys: Seq<(Seq<char>, usize)>, methods: Seq<MethodModel>) -> bool {
    &&& keys.len() == methods.len()
    &&& forall|i: int| 0 <= i < keys.len() ==> (#[trigger] keys[i]).0 == methods[i].0
    &&& crate::keyed::keys_distinct(keys)
}

proof fn lemma_members_keys(lang: HelpLang, entries: Entries, okeys: Seq<(Seq<char>, usize)>, drafts: Seq<DraftModel>, pages: Seq<(int, Seq<char>)>)
    ensures
        members_pass(lang, entries, okeys, drafts, pages) matches Some(w) ==> keys_name_methods(w.1, w.2),
    decreases pages.len(),
{
    if pages.len() > 0 {
        lemma_members_keys(lang, entries, okeys, drafts, pages.drop_last());
        let prev = members_pass(lang, entries, okeys, drafts, pages.drop_last());
        let page = pages.last();
        if let Some(w) = prev {
            if let Some(owner) = owner_in(page.1, member_dirs()) {
                if let Some(k) = crate::keyed::value_of(okeys, owner) {
                    if let Some(body) = page_lossy(entries, page.0) {
                        if let Some((member, english)) = member_heading_of(body) {
                            let d = w.0[k as int];
                            let full = method_name_of(lang, w.1, page.1, d, member);
                            if find_first(page.1, "/properties/"@) is None
                                && !(find_first(page.1, "/methods/"@) is None && find_first(page.1, "/ctors/"@) is None)
                                && crate::keyed::value_of(w.1, full) is None {
                                crate::keyed::lemma_key_place(w.1, full);
                                crate::keyed::lemma_inserted_distinct(w.1, full, w.2.len() as usize);
                                let nk = crate::keyed::inserted(w.1, full, w.2.len() as usize);
                                let nm = w.2.push(method_entry_of(lang, body, full, english));
                                assert(nk == w.1.push((full, w.2.len() as usize)));
                                assert forall|i: int| 0 <= i < nk.len() implies (#[trigger] nk[i]).0 == nm[i].0 by {
                                    if i < w.1.len() {
                                        assert(nk[i] == w.1[i]);
                                        assert(nm[i] == w.2[i]);
                                    }
                                }
                            }
                        }
                    }
                }
            }
        }
    }
}

/// No two methods of the base share a name: a member whose name is taken
/// already is counted as a duplicate and left out.
pub proof fn methods_are_unique(lang: HelpLang, entries: Entries)
    ensures
        api_of(lang, entries) matches Some((methods, _, _)) ==>
            forall|i: int, j: int| 0 <= i < j < methods.len() ==> (#[trigger] methods[i]).0 != (#[trigger] methods[j]).0,
{
    let pages = html_only(pages_of(entries));
    if let Some((okeys, drafts, _)) = objects_pass(lang, entries, pages) {
        lemma_members_keys(lang, entries, okeys, drafts, pages);
        if let Some(w) = members_pass(lang, entries, okeys, drafts, pages) {
            assert forall|i: int, j: int| 0 <= i < j < w.2.len() implies (#[trigger] w.2[i]).0 != (#[trigger] w.2[j]).0 by {
                assert(w.1[i].0 == w.2[i].0);
                assert(w.1[j].0 == w.2[j].0);
            }
        }
    }
}

proof fn lemma_objects_out(keys: Seq<(Seq<char>, usize)>, drafts: Seq<DraftModel>)
    ensures
        forall|i: int, j: int| 0 <= i < j < objects_out(keys, drafts).len() ==>
            (#[trigger] objects_out(keys, drafts)[i]).0 != (#[trigger] objects_out(keys, drafts)[j]).0,
        forall|i: int| 0 <= i < objects_out(keys, drafts).len() ==> {
            let o = #[trigger] objects_out(keys, drafts)[i];
            o.2.len() > 0 || o.3.len() > 0 || o.1.len() > 0
        },
    decreases keys.len(),
{
    if keys.len() > 0 {
        lemma_objects_out(keys.drop_last(), drafts);
        let rest = objects_out(keys.drop_last(), drafts);
        let out = objects_out(keys, drafts);
        let d = drafts[keys.last().1 as int];
        if !(d.4.len() == 0 && d.2.len() == 0 && d.1.len() == 0) && !rest.map_values(|o: ObjModel| o.0).contains(d.0) {
            assert(out == rest.push((d.0, d.1, d.4, d.2)));
            assert forall|i: int, j: int| 0 <= i < j < out.len() implies (#[trigger] out[i]).0 != (#[trigger] out[j]).0 by {
                if j == rest.len() {
                    assert(rest.map_values(|o: ObjModel| o.0)[i] == rest[i].0);
                } else {
                    assert(out[i] == rest[i] && out[j] == rest[j]);
                }
            }
            assert forall|i: int| 0 <= i < out.len() implies {
                let o = #[trigger] out[i];
                o.2.len() > 0 || o.3.len() > 0 || o.1.len() > 0
            } by {
                if i < rest.len() {
                    assert(out[i] == rest[i]);
                }
            }
        }
    }
}

/// Of several objects with one name the first stays, so no two objects of the
/// base share a name; and an object with no properties, no methods and no
/// description does not get in.
pub proof fn objects_are_unique_and_filled(lang: HelpLang, entries: Entries)
    ensures
        api_of(lang, entries) matches Some((_, objects, _)) ==> {
            &&& forall|i: int, j: int| 0 <= i < j < objects.len() ==> (#[trigger] objects[i]).0 != (#[trigger] objects[j]).0
            &&& forall|i: int| 0 <= i < objects.len() ==> {
                let o = #[trigger] objects[i];
                o.2.len() > 0 || o.3.len() > 0 || o.1.len() > 0
            }
        },
{
    let pages = html_only(pages_of(entries));
    if let Some((okeys, drafts, _)) = objects_pass(lang, entries, pages) {
        if let Some(w) = members_pass(lang, entries, okeys, drafts, pages) {
            lemma_objects_out(okeys, w.0);
        }
    }
}

} // verus!
