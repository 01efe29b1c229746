//! Help-page markup to plain text, and clipping of long text.

use vstd::prelude::*;
use crate::pattern::{rx_compiles, rx_replace_all, Pattern};
use crate::platform::joined_with;
use crate::text::{
    chars_of, find_last, prefix_chars, push_chars, push_str, replace_str, replaced, rfind_chars,
    split_chars, split_on, string_of, trim, trim_end, trimmed,
};

verus! {

/// Position of the last occurrence of `needle` in `haystack`, counted in
/// characters (as Python's `str.rfind`).
pub fn char_rfind(haystack: &str, needle: &str) -> (res: Option<usize>)
    ensures
        match res {
            Some(i) => find_last(haystack@, needle@) == Some(i as int),
            None => find_last(haystack@, needle@) is None,
        },
{
    let h = chars_of(haystack);
    let n = chars_of(needle);
    rfind_chars(&h, &n)
}

/// The text clipped to `limit` characters: unchanged when it fits; otherwise
/// the first `limit` characters, cut after the last ". " when that lies past
/// half the limit, stripped of trailing whitespace, with ` …` appended.
pub open spec fn clipped(s: Seq<char>, limit: nat) -> Seq<char> {
    if s.len() <= limit {
        s
    } else {
        let cut = s.take(limit as int);
        let head = match find_last(cut, ". "@) {
            Some(dot) => if dot > limit / 2 { cut.take(dot + 1) } else { cut },
            None => cut,
        };
        trim_end(head) + " …"@
    }
}

proof fn lemma_trim_end_prefix(s: Seq<char>)
    ensures
        trim_end(s).len() <= s.len(),
        trim_end(s) == s.take(trim_end(s).len() as int),
    decreases s.len(),
{
    if s.len() > 0 && crate::text::is_white(s.last()) {
        lemma_trim_end_prefix(s.drop_last());
        assert(s.drop_last().take(trim_end(s).len() as int) =~= s.take(trim_end(s).len() as int));
    } else {
        assert(s.take(s.len() as int) =~= s);
    }
}

proof fn lemma_rfind_in_range(h: Seq<char>, n: Seq<char>, i: int)
    ensures
        rfind_in(h, n, i),
    decreases i + 1,
{
    if i >= 0 && !crate::text::occurs_at(h, n, i) {
        lemma_rfind_in_range(h, n, i - 1);
    }
}

spec fn rfind_in(h: Seq<char>, n: Seq<char>, i: int) -> bool {
    match crate::text::rfind_from(h, n, i) {
        Some(k) => 0 <= k <= i && k + n.len() <= h.len(),
        None => true,
    }
}

/// Clipping never yields more than `limit + 2` characters, and what it keeps
/// is a prefix of the text.
pub proof fn clip_is_bounded_prefix(s: Seq<char>, limit: nat)
    ensures
        clipped(s, limit).len() <= limit + 2,
        s.len() <= limit ==> clipped(s, limit) == s,
        s.len() > limit ==> clipped(s, limit).take(clipped(s, limit).len() - 2)
            == s.take(clipped(s, limit).len() - 2),
{
    reveal_strlit(". ");
    reveal_strlit(" …");
    if s.len() > limit {
        let cut = s.take(limit as int);
        lemma_rfind_in_range(cut, ". "@, cut.len() - ". "@.len());
        let head = match find_last(cut, ". "@) {
            Some(dot) => if dot > limit / 2 { cut.take(dot + 1) } else { cut },
            None => cut,
        };
        assert(head.len() <= limit);
        assert(head == s.take(head.len() as int));
        lemma_trim_end_prefix(head);
        let t = trim_end(head);
        assert(clipped(s, limit) == t + " …"@);
        assert((t + " …"@).take(t.len() as int) =~= t);
        assert(s.take(t.len() as int) =~= head.take(t.len() as int));
    }
}

/// Clips text to `limit` characters, preferring to end on a sentence.
pub fn clip(s: &str, limit: usize) -> (res: String)
    ensures
        res@ == clipped(s@, limit as nat),
{
    let cs = chars_of(s);
    if cs.len() <= limit {
        return String::from_str(s);
    }
    let cut = prefix_chars(&cs, limit);
    proof {
        reveal_strlit(". ");
    }
    let sep = chars_of(". ");
    let head = match rfind_chars(&cut, &sep) {
        Some(dot) => if dot > limit / 2 { prefix_chars(&cut, dot + 1) } else { cut },
        None => cut,
    };
    let b = crate::text::trim_end_len(&head);
    let mut out: Vec<char> = Vec::new();
    push_chars(&mut out, &head[0..b]);
    assert(head@.subrange(0, b as int) =~= head@.take(b as int));
    push_str(&mut out, " …");
    string_of(&out)
}

/// Markup tags.
pub open spec fn tag_pattern() -> Seq<char> { "<[^>]+>"@ }
/// Runs of spaces, tabs and no-break spaces (U+00A0).
pub open spec fn ws_pattern() -> Seq<char> { "[ \t\u{00A0}]+"@ }
/// Line breaks of the markup: `<br>`, `<br/>`, `</tr>`, `</p>`, any case.
pub open spec fn line_break_pattern() -> Seq<char> { "(?i)<br\\s*/?>|</tr>|</p>"@ }
/// Three or more line feeds.
pub open spec fn blank_lines_pattern() -> Seq<char> { "\\n{3,}"@ }
/// Whitespace before a punctuation mark.
pub open spec fn space_before_punct_pattern() -> Seq<char> { "\\s+([.,;:])"@ }

/// Named and numeric HTML entities decoded (`&laquo;`, `&nbsp;`, `&amp;`).
pub uninterp spec fn html_unescaped(s: Seq<char>) -> Seq<char>;

/// `html_escape::decode_html_entities`.
///
/// Trusted: the decoded text depends on the input alone and is named, not
/// restated.
#[verifier::external_body]
fn unescape(s: &str) -> (res: String)
    ensures
        res@ == html_unescaped(s@),
{
    html_escape::decode_html_entities(s).into_owned()
}

/// The lines of a code example, each with its runs of spaces collapsed and
/// trimmed.
pub open spec fn code_lines(lines: Seq<Seq<char>>) -> Seq<Seq<char>> {
    lines.map_values(|line: Seq<char>| trim(rx_replace_all(ws_pattern(), line, " "@)))
}

/// A markup fragment as text.
///
/// With `keep_lines` (a code example) tags are removed without a trace, line
/// breaks kept, runs of spaces collapsed per line and runs of blank lines cut
/// to one; otherwise (a description) a tag becomes a space, the text becomes
/// one line, and a space before punctuation goes. Tags are removed before
/// entities are decoded, so that an escaped `&lt;b&gt;` stays text; the
/// no-break space becomes a space before spaces are collapsed.
pub open spec fn text_of(fragment: Seq<char>, keep_lines: bool) -> Seq<char> {
    let stripped = if keep_lines {
        html_unescaped(rx_replace_all(tag_pattern(), rx_replace_all(line_break_pattern(), fragment, "\n"@), Seq::empty()))
    } else {
        html_unescaped(rx_replace_all(tag_pattern(), fragment, " "@))
    };
    let s = replaced(stripped, seq!['\u{a0}'], " "@);
    if keep_lines {
        trim(rx_replace_all(blank_lines_pattern(), joined_with(code_lines(split_on(s, '\n')), "\n"@), "\n\n"@))
    } else {
        rx_replace_all(space_before_punct_pattern(), trim(rx_replace_all(ws_pattern(), replaced(s, "\n"@, " "@), " "@)), "$1"@)
    }
}

/// Whether `regex` compiles every expression of the text layer.
pub open spec fn text_patterns_compile() -> bool {
    &&& rx_compiles(tag_pattern())
    &&& rx_compiles(ws_pattern())
    &&& rx_compiles(line_break_pattern())
    &&& rx_compiles(blank_lines_pattern())
    &&& rx_compiles(space_before_punct_pattern())
}

/// The regular expressions of the text layer, compiled once.
pub struct TextRx {
    tag: Pattern,
    ws: Pattern,
    line_break: Pattern,
    blank_lines: Pattern,
    space_before_punct: Pattern,
}

impl TextRx {
    #[verifier::type_invariant]
    spec fn wf(&self) -> bool {
        &&& self.tag.source() == tag_pattern()
        &&& self.ws.source() == ws_pattern()
        &&& self.line_break.source() == line_break_pattern()
        &&& self.blank_lines.source() == blank_lines_pattern()
        &&& self.space_before_punct.source() == space_before_punct_pattern()
    }

    /// Compiles the expressions; `None` when `regex` refuses one.
    pub fn new() -> (res: Option<Self>)
        ensures
            res is Some <==> text_patterns_compile(),
    {
        let tag = Pattern::new("<[^>]+>")?;
        // The third character of the class is the no-break space U+00A0.
        let ws = Pattern::new("[ \t\u{00A0}]+")?;
        let line_break = Pattern::new("(?i)<br\\s*/?>|</tr>|</p>")?;
        let blank_lines = Pattern::new("\\n{3,}")?;
        let space_before_punct = Pattern::new("\\s+([.,;:])")?;
        Some(TextRx { tag, ws, line_break, blank_lines, space_before_punct })
    }

    /// A markup fragment as text; see [`text_of`].
    pub fn text(&self, fragment: &str, keep_lines: bool) -> (res: String)
        ensures
            res@ == text_of(fragment@, keep_lines),
    {
        proof {
            use_type_invariant(self);
            reveal_strlit("");
            reveal_strlit("\n");
            reveal_strlit(" ");
            reveal_strlit("\u{a0}");
        }
        let stripped = if keep_lines {
            let broken = self.line_break.replace_all(fragment, "\n");
            let untagged = self.tag.replace_all(broken.as_str(), "");
            unescape(untagged.as_str())
        } else {
            let untagged = self.tag.replace_all(fragment, " ");
            unescape(untagged.as_str())
        };
        let s = replace_str(stripped.as_str(), "\u{a0}", " ");
        assert("\u{a0}"@ =~= seq!['\u{a0}']);
        assert(""@ =~= Seq::<char>::empty());
        assert(stripped@ == (if keep_lines {
            html_unescaped(rx_replace_all(tag_pattern(), rx_replace_all(line_break_pattern(), fragment@, "\n"@), Seq::empty()))
        } else {
            html_unescaped(rx_replace_all(tag_pattern(), fragment@, " "@))
        }));
        if keep_lines {
            let sc = chars_of(s.as_str());
            let lines = split_chars(&sc, '\n');
            let ghost parts = split_on(s@, '\n');
            let mut cleaned: Vec<String> = Vec::new();
            let mut i: usize = 0;
            while i < lines.len()
                invariant
                    0 <= i <= lines@.len(),
                    sc@ == s@,
                    parts == split_on(s@, '\n'),
                    lines@.len() == parts.len(),
                    forall|k: int| 0 <= k < lines@.len() ==> #[trigger] lines@[k]@ == parts[k],
                    self.ws.source() == ws_pattern(),
                    cleaned@.map_values(|c: String| c@) == code_lines(parts).take(i as int),
                decreases lines@.len() - i,
            {
                let line = string_of(&lines[i]);
                let collapsed = self.ws.replace_all(line.as_str(), " ");
                let cc = chars_of(collapsed.as_str());
                let t = trimmed(&cc);
                let ghost before = cleaned@;
                cleaned.push(string_of(&t));
                assert(cleaned@.map_values(|c: String| c@) =~= before.map_values(|c: String| c@).push(t@));
                assert(code_lines(parts).take(i + 1) =~= code_lines(parts).take(i as int).push(code_lines(parts)[i as int]));
                i = i + 1;
            }
            assert(code_lines(parts).take(lines@.len() as int) =~= code_lines(parts));
            let joined = crate::platform::join_strings(cleaned.as_slice(), "\n");
            let squeezed = self.blank_lines.replace_all(joined.as_str(), "\n\n");
            let qc = chars_of(squeezed.as_str());
            assert(joined@ == joined_with(code_lines(split_on(s@, '\n')), "\n"@));
            string_of(&trimmed(&qc))
        } else {
            let one_line = replace_str(s.as_str(), "\n", " ");
            let collapsed = self.ws.replace_all(one_line.as_str(), " ");
            let cc = chars_of(collapsed.as_str());
            let t = string_of(&trimmed(&cc));
            self.space_before_punct.replace_all(t.as_str(), "$1")
        }
    }
}

} // verus!
