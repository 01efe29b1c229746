//! The answers of the MCP tools: which version a request means, and the
//! Markdown texts built from the knowledge base.

use vstd::prelude::*;
use crate::knowledge::{
    doc_index, version_order, versions_of, KnowledgeBase, UsageExample,
};
use crate::progress::{hint_of, Progress};
use crate::schema::{ApiMethod, Example, ExecutionContext, Parameter, RelatedItem, SearchResult, SearchSource};
use crate::text::{decimal, occurs_at, push_decimal, push_str, string_of};
use crate::platform::joined_with;

verus! {

/// How an execution context reads in an answer.
pub open spec fn context_text(c: ExecutionContext) -> Seq<char> {
    match c {
        ExecutionContext::Client => "клиент"@,
        ExecutionContext::Server => "сервер"@,
        ExecutionContext::Both => "клиент и сервер"@,
    }
}

/// An execution context in Russian.
pub fn context_label(context: &ExecutionContext) -> (res: &'static str)
    ensures
        res@ == context_text(*context),
{
    match context {
        ExecutionContext::Client => "клиент",
        ExecutionContext::Server => "сервер",
        ExecutionContext::Both => "клиент и сервер",
    }
}

/// The execution context named by a tool argument.
pub open spec fn context_named(value: Seq<char>) -> Option<ExecutionContext> {
    if value == "client"@ {
        Some(ExecutionContext::Client)
    } else if value == "server"@ {
        Some(ExecutionContext::Server)
    } else if value == "both"@ {
        Some(ExecutionContext::Both)
    } else {
        None
    }
}

/// The execution context named by a tool argument: `client`, `server`, `both`.
pub fn parse_context(value: &str) -> (res: Option<ExecutionContext>)
    ensures
        res == context_named(value@),
{
    if crate::text::same_text(value, "client") {
        Some(ExecutionContext::Client)
    } else if crate::text::same_text(value, "server") {
        Some(ExecutionContext::Server)
    } else if crate::text::same_text(value, "both") {
        Some(ExecutionContext::Both)
    } else {
        None
    }
}

/// The answer when the base has nothing to answer from.
pub open spec fn empty_base_text(hint: Option<Seq<char>>) -> Seq<char> {
    match hint {
        Some(h) => h,
        None => "База знаний пуста: не загружено ни одной версии документации."@,
    }
}

/// Why the base is empty, with the build progress when a build is running.
pub fn empty_base_message(progress: &Progress) -> (res: String)
    ensures
        res@ == empty_base_text(hint_of(progress.current(), progress.percent(), progress.stage()@)),
{
    match progress.hint() {
        Some(hint) => hint,
        None => String::from_str("База знаний пуста: не загружено ни одной версии документации."),
    }
}

/// The answer of a tool that could not pick a version: not a failure, and no
/// context for the host.
pub fn version_message(text: String) -> (res: crate::protocol::ToolCallResult)
    ensures
        res.content@.len() == 1,
        res.content@[0] matches crate::protocol::Content::Text { text: t } && t@ == text@,
        res.is_error == Some(false),
        res.result_count == Some(0usize),
{
    crate::protocol::ToolCallResult::found(text.as_str(), 0)
}

/// The version a tool's `version` argument resolves to: absent or `latest`
/// means the highest loaded; a loaded version means itself; any other version,
/// or an empty base, is answered with a text.
pub open spec fn resolved_version(
    docs: Seq<crate::schema::Document>,
    vs: Seq<Seq<char>>,
    hint: Option<Seq<char>>,
    arg: Option<Seq<char>>,
) -> Result<Seq<char>, Seq<char>> {
    if vs.len() == 0 {
        Err(empty_base_text(hint))
    } else {
        match arg {
            None => Ok(vs[0]),
            Some(v) => if v == "latest"@ {
                Ok(vs[0])
            } else if doc_index(docs, v) is Some {
                Ok(v)
            } else {
                Err("Версия "@ + v + " в базе знаний отсутствует. Загружены: "@ + joined_with(vs, ", "@) + "."@)
            },
        }
    }
}

/// With a version loaded, an absent or `latest` version argument resolves to
/// a loaded version whose numeric key no other loaded version's key exceeds.
pub proof fn latest_means_highest(
    docs: Seq<crate::schema::Document>,
    vs: Seq<Seq<char>>,
    hint: Option<Seq<char>>,
    arg: Option<Seq<char>>,
)
    requires
        version_order(docs, vs),
        docs.len() > 0,
        arg is None || arg == Some("latest"@),
    ensures
        resolved_version(docs, vs, hint, arg) matches Ok(v) && versions_of(docs).contains(v)
            && forall|d: int| 0 <= d < docs.len()
                ==> !crate::knowledge::key_less(crate::knowledge::version_numbers(v), #[trigger] crate::knowledge::version_numbers(docs[d].version@)),
{
    assert(vs.len() > 0);
    let v = vs[0];
    assert(resolved_version(docs, vs, hint, arg) == Ok::<Seq<char>, Seq<char>>(v));
    assert(versions_of(docs).contains(v));
    assert forall|d: int| 0 <= d < docs.len() implies
        !crate::knowledge::key_less(crate::knowledge::version_numbers(v), #[trigger] crate::knowledge::version_numbers(docs[d].version@)) by {
        assert(vs.contains(docs[d].version@));
        let k = choose|k: int| 0 <= k < vs.len() && vs[k] == docs[d].version@;
        if k == 0 {
            crate::knowledge::lemma_key_less_irreflexive(crate::knowledge::version_numbers(v));
        }
    }
}

/// Which loaded version a request means. `Err` is the text for the client:
/// a missing version must read differently from an empty result.
pub fn resolve_version(kb: &KnowledgeBase, version: Option<&str>, progress: &Progress) -> (res: Result<String, String>)
    ensures
        exists|vs: Seq<Seq<char>>| #[trigger] version_order(kb.docs(), vs) && match res {
            Ok(v) => resolved_version(kb.docs(), vs, hint_of(progress.current(), progress.percent(), progress.stage()@), crate::platform::str_opt(version)) == Ok::<Seq<char>, Seq<char>>(v@),
            Err(m) => resolved_version(kb.docs(), vs, hint_of(progress.current(), progress.percent(), progress.stage()@), crate::platform::str_opt(version)) == Err::<Seq<char>, Seq<char>>(m@),
        },
{
    let versions = kb.versions();
    resolve_version_in(kb, &versions, version, progress)
}

fn resolve_version_in(kb: &KnowledgeBase, versions: &Vec<String>, version: Option<&str>, progress: &Progress) -> (res: Result<String, String>)
    requires
        version_order(kb.docs(), versions@.map_values(|v: String| v@)),
    ensures
        match res {
            Ok(v) => resolved_version(kb.docs(), versions@.map_values(|v: String| v@), hint_of(progress.current(), progress.percent(), progress.stage()@), crate::platform::str_opt(version)) == Ok::<Seq<char>, Seq<char>>(v@),
            Err(m) => resolved_version(kb.docs(), versions@.map_values(|v: String| v@), hint_of(progress.current(), progress.percent(), progress.stage()@), crate::platform::str_opt(version)) == Err::<Seq<char>, Seq<char>>(m@),
        },
{
    let ghost vs = versions@.map_values(|v: String| v@);
    if versions.len() == 0 {
        return Err(empty_base_message(progress));
    }
    assert(vs[0] == versions@[0]@);
    match version {
        None => Ok(versions[0].clone()),
        Some(v) => {
            proof {
                reveal_strlit("latest");
            }
            if crate::text::same_text(v, "latest") {
                Ok(versions[0].clone())
            } else if kb.has_version(v) {
                Ok(String::from_str(v))
            } else {
                let listed = crate::platform::join_strings(versions.as_slice(), ", ");
                let mut out: Vec<char> = Vec::new();
                push_str(&mut out, "Версия ");
                push_str(&mut out, v);
                push_str(&mut out, " в базе знаний отсутствует. Загружены: ");
                push_str(&mut out, listed.as_str());
                push_str(&mut out, ".");
                Err(string_of(&out))
            }
        },
    }
}

/// A parameter line of a method card.
pub open spec fn parameter_line(p: Parameter) -> Seq<char> {
    "- **"@ + p.name@ + "** (`"@ + p.param_type@ + "`, "@
        + (if p.required { "обязательный"@ } else { "необязательный"@ }) + ") — "@ + p.description@ + "\n"@
}

pub open spec fn parameter_lines(ps: Seq<Parameter>) -> Seq<char>
    decreases ps.len(),
{
    if ps.len() == 0 { Seq::empty() } else { parameter_lines(ps.drop_last()) + parameter_line(ps.last()) }
}

/// An example block of a method card.
pub open spec fn example_block(e: Example) -> Seq<char> {
    (match e.title { Some(t) => "\n**"@ + t@ + "**\n"@, None => Seq::empty() })
        + "\n```bsl\n"@ + e.code@ + "\n```\n"@
        + (match e.description { Some(d) => "\n"@ + d@ + "\n"@, None => Seq::empty() })
}

pub open spec fn example_blocks(es: Seq<Example>) -> Seq<char>
    decreases es.len(),
{
    if es.len() == 0 { Seq::empty() } else { example_blocks(es.drop_last()) + example_block(es.last()) }
}

/// Lines of a bulleted list.
pub open spec fn bullet_lines(items: Seq<Seq<char>>) -> Seq<char>
    decreases items.len(),
{
    if items.len() == 0 { Seq::empty() } else { bullet_lines(items.drop_last()) + "- "@ + items.last() + "\n"@ }
}

/// The whole card of a method: parameters, returned value, examples and
/// notes; empty parts are left out.
pub open spec fn method_card(m: ApiMethod, version: Seq<char>, include_examples: bool) -> Seq<char> {
    "# Метод: "@ + m.name@ + "\n\n"@ + m.description@ + "\n\n"@
        + "**Версия:** "@ + version + "\n"@
        + "**Контекст:** "@ + context_text(m.context) + "\n"@
        + (match m.return_type { Some(r) => "**Возвращает:** `"@ + r@ + "`\n"@, None => Seq::empty() })
        + (if m.parameters@.len() > 0 { "\n## Параметры\n\n"@ + parameter_lines(m.parameters@) } else { Seq::empty() })
        + (if include_examples && m.examples@.len() > 0 { "\n## Примеры\n"@ + example_blocks(m.examples@) } else { Seq::empty() })
        + (if m.notes@.len() > 0 {
            "\n## Примечания\n\n"@ + bullet_lines(m.notes@.map_values(|n: String| n@))
        } else {
            Seq::empty()
        })
}

/// A text found inside a part is found inside the whole, shifted by what
/// comes before the part.
proof fn lemma_occurs_within(x: Seq<char>, a: Seq<char>, y: Seq<char>, n: Seq<char>, i: int)
    requires
        occurs_at(a, n, i),
    ensures
        occurs_at(x + a + y, n, x.len() + i),
{
    assert((x + a + y).subrange(x.len() + i, x.len() + i + n.len()) =~= a.subrange(i, i + n.len()));
}

/// Each parameter's line is among the parameter lines.
proof fn lemma_line_in_lines(ps: Seq<Parameter>, k: int) -> (i: int)
    requires
        0 <= k < ps.len(),
    ensures
        occurs_at(parameter_lines(ps), parameter_line(ps[k]), i),
    decreases ps.len(),
{
    let init = ps.drop_last();
    if k == ps.len() - 1 {
        let i = parameter_lines(init).len() as int;
        assert(parameter_line(ps[k]).subrange(0, parameter_line(ps[k]).len() as int) =~= parameter_line(ps[k]));
        lemma_occurs_within(parameter_lines(init), parameter_line(ps[k]), Seq::empty(), parameter_line(ps[k]), 0);
        assert(parameter_lines(init) + parameter_line(ps[k]) + Seq::<char>::empty() =~= parameter_lines(ps));
        i
    } else {
        assert(init[k] == ps[k]);
        let i = lemma_line_in_lines(init, k);
        lemma_occurs_within(Seq::empty(), parameter_lines(init), parameter_line(ps.last()), parameter_line(ps[k]), i);
        assert(Seq::<char>::empty() + parameter_lines(init) + parameter_line(ps.last()) =~= parameter_lines(ps));
        i
    }
}

/// A method card tells of each parameter whether it must be given: its line
/// reads `обязательный` for a required parameter and `необязательный` for
/// one that is not, after its name and type and before its description.
pub proof fn card_tells_required_parameters(m: ApiMethod, version: Seq<char>, include_examples: bool, k: int)
    requires
        0 <= k < m.parameters@.len(),
    ensures
        ({
            let p = m.parameters@[k];
            let card = method_card(m, version, include_examples);
            &&& !p.required ==> exists|i: int| #[trigger] occurs_at(card,
                "- **"@ + p.name@ + "** (`"@ + p.param_type@ + "`, необязательный) — "@ + p.description@ + "\n"@, i)
            &&& p.required ==> exists|i: int| #[trigger] occurs_at(card,
                "- **"@ + p.name@ + "** (`"@ + p.param_type@ + "`, обязательный) — "@ + p.description@ + "\n"@, i)
        }),
{
    let p = m.parameters@[k];
    let ps = m.parameters@;
    let line = parameter_line(p);
    reveal_strlit("`, необязательный) — ");
    reveal_strlit("`, обязательный) — ");
    reveal_strlit("`, ");
    reveal_strlit(") — ");
    reveal_strlit("обязательный");
    reveal_strlit("необязательный");
    if p.required {
        assert(line =~= "- **"@ + p.name@ + "** (`"@ + p.param_type@ + "`, обязательный) — "@ + p.description@ + "\n"@);
    } else {
        assert(line =~= "- **"@ + p.name@ + "** (`"@ + p.param_type@ + "`, необязательный) — "@ + p.description@ + "\n"@);
    }
    let i = lemma_line_in_lines(ps, k);
    let pre = "# Метод: "@ + m.name@ + "\n\n"@ + m.description@ + "\n\n"@
        + "**Версия:** "@ + version + "\n"@
        + "**Контекст:** "@ + context_text(m.context) + "\n"@
        + (match m.return_type { Some(r) => "**Возвращает:** `"@ + r@ + "`\n"@, None => Seq::empty() })
        + "\n## Параметры\n\n"@;
    let post = (if include_examples && m.examples@.len() > 0 { "\n## Примеры\n"@ + example_blocks(m.examples@) } else { Seq::empty() })
        + (if m.notes@.len() > 0 {
            "\n## Примечания\n\n"@ + bullet_lines(m.notes@.map_values(|n: String| n@))
        } else {
            Seq::empty()
        });
    assert(method_card(m, version, include_examples) =~= pre + parameter_lines(ps) + post);
    lemma_occurs_within(pre, parameter_lines(ps), post, line, i);
}

fn push_parameters(out: &mut Vec<char>, ps: &Vec<Parameter>)
    ensures
        final(out)@ == old(out)@ + parameter_lines(ps@),
{
    let ghost start = out@;
    let mut i: usize = 0;
    while i < ps.len()
        invariant
            0 <= i <= ps@.len(),
            out@ == start + parameter_lines(ps@.take(i as int)),
        decreases ps@.len() - i,
    {
        let p = &ps[i];
        assert(ps@.take(i + 1).drop_last() =~= ps@.take(i as int));
        let ghost before = out@;
        push_str(out, "- **");
        push_str(out, p.name.as_str());
        push_str(out, "** (`");
        push_str(out, p.param_type.as_str());
        push_str(out, "`, ");
        if p.required {
            push_str(out, "обязательный");
        } else {
            push_str(out, "необязательный");
        }
        push_str(out, ") — ");
        push_str(out, p.description.as_str());
        push_str(out, "\n");
        assert(out@ =~= before + parameter_line(*p));
        i = i + 1;
    }
    assert(ps@.take(ps@.len() as int) =~= ps@);
}

fn push_example(out: &mut Vec<char>, e: &Example)
    ensures
        final(out)@ == old(out)@ + example_block(*e),
{
    let ghost before = out@;
    match &e.title {
        Some(t) => {
            push_str(out, "\n**");
            push_str(out, t.as_str());
            push_str(out, "**\n");
        },
        None => {},
    }
    push_str(out, "\n```bsl\n");
    push_str(out, e.code.as_str());
    push_str(out, "\n```\n");
    match &e.description {
        Some(d) => {
            push_str(out, "\n");
            push_str(out, d.as_str());
            push_str(out, "\n");
        },
        None => {},
    }
    assert(out@ =~= before + example_block(*e));
}

fn push_examples(out: &mut Vec<char>, es: &Vec<Example>)
    ensures
        final(out)@ == old(out)@ + example_blocks(es@),
{
    let ghost start = out@;
    let mut i: usize = 0;
    while i < es.len()
        invariant
            0 <= i <= es@.len(),
            out@ == start + example_blocks(es@.take(i as int)),
        decreases es@.len() - i,
    {
        assert(es@.take(i + 1).drop_last() =~= es@.take(i as int));
        push_example(out, &es[i]);
        i = i + 1;
    }
    assert(es@.take(es@.len() as int) =~= es@);
}

/// The card of a method in Markdown.
#[verifier::spinoff_prover]
#[verifier::rlimit(40)]
pub fn format_method_details(method: &ApiMethod, version: &str, include_examples: bool) -> (res: String)
    ensures
        res@ == method_card(*method, version@, include_examples),
{
    let mut out: Vec<char> = Vec::new();
    push_str(&mut out, "# Метод: ");
    push_str(&mut out, method.name.as_str());
    push_str(&mut out, "\n\n");
    push_str(&mut out, method.description.as_str());
    push_str(&mut out, "\n\n");
    push_str(&mut out, "**Версия:** ");
    push_str(&mut out, version);
    push_str(&mut out, "\n");
    push_str(&mut out, "**Контекст:** ");
    push_str(&mut out, context_label(&method.context));
    push_str(&mut out, "\n");
    let ghost head = out@;
    match &method.return_type {
        Some(r) => {
            push_str(&mut out, "**Возвращает:** `");
            push_str(&mut out, r.as_str());
            push_str(&mut out, "`\n");
        },
        None => {},
    }
    let ghost with_return = out@;
    if method.parameters.len() > 0 {
        push_str(&mut out, "\n## Параметры\n\n");
        push_parameters(&mut out, &method.parameters);
    }
    let ghost with_params = out@;
    if include_examples && method.examples.len() > 0 {
        push_str(&mut out, "\n## Примеры\n");
        push_examples(&mut out, &method.examples);
    }
    let ghost with_examples = out@;
    if method.notes.len() > 0 {
        push_str(&mut out, "\n## Примечания\n\n");
        push_lines(&mut out, &method.notes);
    }
    proof {
        assert(out@ =~= method_card(*method, version@, include_examples));
    }
    string_of(&out)
}

/// One version in the summary: `8.3.27: 12 методов, 3 объектов`.
pub open spec fn summary_item(docs: Seq<crate::schema::Document>, v: Seq<char>) -> Seq<char> {
    v + ": "@ + decimal(methods_in(docs, v)) + " методов, "@ + decimal(objects_in(docs, v)) + " объектов"@
}

/// The number of methods of a version (0 when it is not loaded).
pub open spec fn methods_in(docs: Seq<crate::schema::Document>, v: Seq<char>) -> nat {
    match doc_index(docs, v) { Some(d) => docs[d].api_methods@.len(), None => 0 }
}

/// The number of objects of a version (0 when it is not loaded).
pub open spec fn objects_in(docs: Seq<crate::schema::Document>, v: Seq<char>) -> nat {
    match doc_index(docs, v) { Some(d) => docs[d].api_objects@.len(), None => 0 }
}

/// The one-line summary of the base, over its versions in order.
pub open spec fn summary_text(docs: Seq<crate::schema::Document>, vs: Seq<Seq<char>>) -> Seq<char> {
    if vs.len() == 0 {
        "база знаний пуста"@
    } else {
        joined_with(vs.map_values(|v: Seq<char>| summary_item(docs, v)), "; "@)
    }
}

/// A one-line summary of the base, for `serverInfo.data` and the start-up
/// record: an empty base is visible to the host at the handshake.
pub fn knowledge_summary(kb: &KnowledgeBase) -> (res: String)
    ensures
        exists|vs: Seq<Seq<char>>| #[trigger] version_order(kb.docs(), vs) && res@ == summary_text(kb.docs(), vs),
{
    let versions = kb.versions();
    knowledge_summary_in(kb, &versions)
}

fn knowledge_summary_in(kb: &KnowledgeBase, versions: &Vec<String>) -> (res: String)
    ensures
        res@ == summary_text(kb.docs(), versions@.map_values(|v: String| v@)),
{
    let ghost vs = versions@.map_values(|v: String| v@);
    if versions.len() == 0 {
        return String::from_str("база знаний пуста");
    }
    let ghost items = vs.map_values(|v: Seq<char>| summary_item(kb.docs(), v));
    let mut out: Vec<char> = Vec::new();
    let mut i: usize = 0;
    while i < versions.len()
        invariant
            0 <= i <= versions@.len(),
            vs == versions@.map_values(|v: String| v@),
            items == vs.map_values(|v: Seq<char>| summary_item(kb.docs(), v)),
            out@ == joined_with(items.take(i as int), "; "@),
        decreases versions@.len() - i,
    {
        let stats = kb.version_statistics(versions[i].as_str());
        if i > 0 {
            push_str(&mut out, "; ");
        }
        push_str(&mut out, versions[i].as_str());
        push_str(&mut out, ": ");
        push_decimal(&mut out, stats.api_methods as u64);
        push_str(&mut out, " методов, ");
        push_decimal(&mut out, stats.api_objects as u64);
        push_str(&mut out, " объектов");
        assert(items.take(i + 1).drop_last() =~= items.take(i as int));
        assert(items[i as int] == summary_item(kb.docs(), versions@[i as int]@));
        i = i + 1;
    }
    assert(items.take(versions@.len() as int) =~= items);
    string_of(&out)
}

/// A line of the version list; the first (highest) version is marked latest.
pub open spec fn version_line(docs: Seq<crate::schema::Document>, v: Seq<char>, first: bool) -> Seq<char> {
    "- **"@ + v + "**"@ + (if first { " (latest)"@ } else { Seq::empty() }) + " — методов: "@
        + decimal(methods_in(docs, v)) + ", объектов: "@ + decimal(objects_in(docs, v)) + "\n"@
}

pub open spec fn version_lines(docs: Seq<crate::schema::Document>, vs: Seq<Seq<char>>) -> Seq<char>
    decreases vs.len(),
{
    if vs.len() == 0 {
        Seq::empty()
    } else {
        version_lines(docs, vs.drop_last()) + version_line(docs, vs.last(), vs.len() == 1)
    }
}

/// The content of the base for `list_versions`.
pub open spec fn versions_text(docs: Seq<crate::schema::Document>, vs: Seq<Seq<char>>, hint: Option<Seq<char>>) -> Seq<char> {
    if vs.len() == 0 {
        empty_base_text(hint)
    } else {
        "# Загруженные версии ("@ + decimal(vs.len()) + ")\n\n"@ + version_lines(docs, vs)
    }
}

/// What the base holds: without it a client learns the loaded versions only
/// by trial, from empty answers.
pub fn format_versions(kb: &KnowledgeBase, progress: &Progress) -> (res: String)
    ensures
        exists|vs: Seq<Seq<char>>| #[trigger] version_order(kb.docs(), vs)
            && res@ == versions_text(kb.docs(), vs, hint_of(progress.current(), progress.percent(), progress.stage()@)),
{
    let versions = kb.versions();
    format_versions_in(kb, &versions, progress)
}

#[verifier::spinoff_prover]
#[verifier::rlimit(40)]
fn format_versions_in(kb: &KnowledgeBase, versions: &Vec<String>, progress: &Progress) -> (res: String)
    ensures
        res@ == versions_text(kb.docs(), versions@.map_values(|v: String| v@), hint_of(progress.current(), progress.percent(), progress.stage()@)),
{
    let ghost vs = versions@.map_values(|v: String| v@);
    if versions.len() == 0 {
        return empty_base_message(progress);
    }
    let mut out: Vec<char> = Vec::new();
    push_str(&mut out, "# Загруженные версии (");
    push_decimal(&mut out, versions.len() as u64);
    push_str(&mut out, ")\n\n");
    let ghost start = out@;
    let mut i: usize = 0;
    while i < versions.len()
        invariant
            0 <= i <= versions@.len(),
            vs == versions@.map_values(|v: String| v@),
            out@ == start + version_lines(kb.docs(), vs.take(i as int)),
        decreases versions@.len() - i,
    {
        let stats = kb.version_statistics(versions[i].as_str());
        push_str(&mut out, "- **");
        push_str(&mut out, versions[i].as_str());
        push_str(&mut out, "**");
        if i == 0 {
            push_str(&mut out, " (latest)");
        }
        push_str(&mut out, " — методов: ");
        push_decimal(&mut out, stats.api_methods as u64);
        push_str(&mut out, ", объектов: ");
        push_decimal(&mut out, stats.api_objects as u64);
        push_str(&mut out, "\n");
        assert(vs.take(i + 1).drop_last() =~= vs.take(i as int));
        assert(vs.take(i + 1).last() == versions@[i as int]@);
        i = i + 1;
    }
    assert(vs.take(versions@.len() as int) =~= vs);
    string_of(&out)
}

/// The body of a result, by its source.
pub open spec fn source_block(src: SearchSource) -> Seq<char> {
    match src {
        SearchSource::Section { version, title, content, .. } =>
            "**Версия:** "@ + version@ + "\n"@ + "**Заголовок:** "@ + title@ + "\n\n"@ + content@ + "\n"@,
        SearchSource::ApiMethod { version, name, description, context } =>
            "**Метод:** "@ + name@ + "\n"@ + "**Версия:** "@ + version@ + "\n"@ + "**Контекст:** "@
                + context_text(context) + "\n"@ + "\n"@ + description@ + "\n"@,
        SearchSource::ApiObject { version, name, description } =>
            "**Объект:** "@ + name@ + "\n"@ + "**Версия:** "@ + version@ + "\n"@ + "\n"@ + description@ + "\n"@,
    }
}

/// A related item line.
pub open spec fn related_line(r: RelatedItem) -> Seq<char> {
    "- "@ + r.relationship@ + " — "@ + r.name@ + (if r.description@.len() > 0 { " ("@ + r.description@ + ")"@ } else { Seq::empty() }) + "\n"@
}

pub open spec fn related_lines(rs: Seq<RelatedItem>) -> Seq<char>
    decreases rs.len(),
{
    if rs.len() == 0 { Seq::empty() } else { related_lines(rs.drop_last()) + related_line(rs.last()) }
}

/// The block of the `n`-th result (counting from 1).
pub open spec fn result_block(n: nat, r: SearchResult) -> Seq<char> {
    "\n## Результат "@ + decimal(n) + " (score: "@ + r.score@ + ")\n\n"@
        + source_block(r.source)
        + (if r.highlights@.len() > 0 {
            "\n**Фрагменты:**\n"@ + bullet_lines(r.highlights@.map_values(|h: String| h@))
        } else {
            Seq::empty()
        })
        + (match r.related { Some(items) => "\n**Связанные:**\n"@ + related_lines(items@), None => Seq::empty() })
        + "\n---\n"@
}

pub open spec fn result_blocks(rs: Seq<SearchResult>) -> Seq<char>
    decreases rs.len(),
{
    if rs.len() == 0 { Seq::empty() } else { result_blocks(rs.drop_last()) + result_block(rs.len(), rs.last()) }
}

/// Each result's block is among the blocks of the results.
proof fn lemma_block_in_blocks(rs: Seq<SearchResult>, k: int) -> (i: int)
    requires
        0 <= k < rs.len(),
    ensures
        occurs_at(result_blocks(rs), result_block((k + 1) as nat, rs[k]), i),
    decreases rs.len(),
{
    let init = rs.drop_last();
    let b = result_block((k + 1) as nat, rs[k]);
    if k == rs.len() - 1 {
        assert(b.subrange(0, b.len() as int) =~= b);
        lemma_occurs_within(result_blocks(init), b, Seq::empty(), b, 0);
        assert(result_blocks(init) + b + Seq::<char>::empty() =~= result_blocks(rs));
        result_blocks(init).len() as int
    } else {
        assert(init[k] == rs[k]);
        let i = lemma_block_in_blocks(init, k);
        lemma_occurs_within(Seq::empty(), result_blocks(init), result_block(rs.len(), rs.last()), b, i);
        assert(Seq::<char>::empty() + result_blocks(init) + result_block(rs.len(), rs.last()) =~= result_blocks(rs));
        i
    }
}

/// The answer of a search shows the text of every section it found: the
/// section's title line is followed by its content, verbatim.
pub proof fn section_results_show_their_content(rs: Seq<SearchResult>, k: int)
    requires
        0 <= k < rs.len(),
        rs[k].source is Section,
    ensures
        exists|i: int| #[trigger] occurs_at(result_blocks(rs),
            "**Заголовок:** "@ + rs[k].source->title@ + "\n\n"@ + rs[k].source->content@ + "\n"@, i),
{
    let r = rs[k];
    let (version, title, content) = match r.source {
        SearchSource::Section { version, title, content, .. } => (version@, title@, content@),
        _ => (Seq::empty(), Seq::empty(), Seq::empty()),
    };
    let shown = "**Заголовок:** "@ + title + "\n\n"@ + content + "\n"@;
    let head = "\n## Результат "@ + decimal((k + 1) as nat) + " (score: "@ + r.score@ + ")\n\n"@
        + "**Версия:** "@ + version + "\n"@;
    let tail = (if r.highlights@.len() > 0 {
            "\n**Фрагменты:**\n"@ + bullet_lines(r.highlights@.map_values(|h: String| h@))
        } else {
            Seq::empty()
        })
        + (match r.related { Some(items) => "\n**Связанные:**\n"@ + related_lines(items@), None => Seq::empty() })
        + "\n---\n"@;
    let b = result_block((k + 1) as nat, r);
    assert(b =~= head + shown + tail);
    assert(shown.subrange(0, shown.len() as int) =~= shown);
    lemma_occurs_within(head, shown, tail, shown, 0);
    let i = lemma_block_in_blocks(rs, k);
    let whole = result_blocks(rs);
    assert(whole.subrange(i + head.len(), i + head.len() + shown.len()) =~= b.subrange(head.len() as int, (head.len() + shown.len()) as int));
    assert(occurs_at(whole, shown, i + head.len()));
}

fn push_lines(out: &mut Vec<char>, items: &Vec<String>)
    ensures
        final(out)@ == old(out)@ + bullet_lines(items@.map_values(|h: String| h@)),
{
    let ghost start = out@;
    let ghost views = items@.map_values(|h: String| h@);
    let mut i: usize = 0;
    while i < items.len()
        invariant
            0 <= i <= items@.len(),
            views == items@.map_values(|h: String| h@),
            out@ == start + bullet_lines(views.take(i as int)),
        decreases items@.len() - i,
    {
        assert(views.take(i + 1).drop_last() =~= views.take(i as int));
        push_str(out, "- ");
        push_str(out, items[i].as_str());
        push_str(out, "\n");
        i = i + 1;
    }
    assert(views.take(items@.len() as int) =~= views);
}

fn push_source(out: &mut Vec<char>, src: &SearchSource)
    ensures
        final(out)@ == old(out)@ + source_block(*src),
{
    let ghost before = out@;
    match src {
        SearchSource::Section { version, title, content, .. } => {
            push_str(out, "**Версия:** ");
            push_str(out, version.as_str());
            push_str(out, "\n");
            push_str(out, "**Заголовок:** ");
            push_str(out, title.as_str());
            push_str(out, "\n\n");
            push_str(out, content.as_str());
            push_str(out, "\n");
        },
        SearchSource::ApiMethod { version, name, description, context } => {
            push_str(out, "**Метод:** ");
            push_str(out, name.as_str());
            push_str(out, "\n");
            push_str(out, "**Версия:** ");
            push_str(out, version.as_str());
            push_str(out, "\n");
            push_str(out, "**Контекст:** ");
            push_str(out, context_label(context));
            push_str(out, "\n");
            push_str(out, "\n");
            push_str(out, description.as_str());
            push_str(out, "\n");
        },
        SearchSource::ApiObject { version, name, description } => {
            push_str(out, "**Объект:** ");
            push_str(out, name.as_str());
            push_str(out, "\n");
            push_str(out, "**Версия:** ");
            push_str(out, version.as_str());
            push_str(out, "\n");
            push_str(out, "\n");
            push_str(out, description.as_str());
            push_str(out, "\n");
        },
    }
    assert(out@ =~= before + source_block(*src));
}

fn push_related(out: &mut Vec<char>, items: &Vec<RelatedItem>)
    ensures
        final(out)@ == old(out)@ + related_lines(items@),
{
    let ghost start = out@;
    let mut k: usize = 0;
    while k < items.len()
        invariant
            0 <= k <= items@.len(),
            out@ == start + related_lines(items@.take(k as int)),
        decreases items@.len() - k,
    {
        let item = &items[k];
        assert(items@.take(k + 1).drop_last() =~= items@.take(k as int));
        let ghost before = out@;
        push_str(out, "- ");
        push_str(out, item.relationship.as_str());
        push_str(out, " — ");
        push_str(out, item.name.as_str());
        if item.description.as_str().unicode_len() > 0 {
            push_str(out, " (");
            push_str(out, item.description.as_str());
            push_str(out, ")");
        }
        push_str(out, "\n");
        assert(out@ =~= before + related_line(*item));
        k = k + 1;
    }
    assert(items@.take(items@.len() as int) =~= items@);
}

fn push_result(out: &mut Vec<char>, n: u64, r: &SearchResult)
    ensures
        final(out)@ == old(out)@ + result_block(n as nat, *r),
{
    let ghost before = out@;
    push_str(out, "\n## Результат ");
    push_decimal(out, n);
    push_str(out, " (score: ");
    push_str(out, r.score.as_str());
    push_str(out, ")\n\n");
    push_source(out, &r.source);
    let ghost mid = out@;
    if r.highlights.len() > 0 {
        push_str(out, "\n**Фрагменты:**\n");
        push_lines(out, &r.highlights);
    }
    let ghost mid2 = out@;
    match &r.related {
        Some(items) => {
            push_str(out, "\n**Связанные:**\n");
            push_related(out, items);
        },
        None => {},
    }
    push_str(out, "\n---\n");
    assert(out@ =~= before + result_block(n as nat, *r));
}

/// Search results in Markdown, numbered from 1.
pub fn format_search_results(results: &[SearchResult]) -> (res: String)
    requires
        results@.len() < u64::MAX,
    ensures
        res@ == result_blocks(results@),
{
    let mut out: Vec<char> = Vec::new();
    let mut i: usize = 0;
    while i < results.len()
        invariant
            0 <= i <= results@.len(),
            results@.len() < u64::MAX,
            out@ == result_blocks(results@.take(i as int)),
        decreases results@.len() - i,
    {
        assert(results@.take(i + 1).drop_last() =~= results@.take(i as int));
        push_result(&mut out, (i + 1) as u64, &results[i]);
        i = i + 1;
    }
    assert(results@.take(results@.len() as int) =~= results@);
    string_of(&out)
}

/// The block of the `n`-th usage example (counting from 1).
pub open spec fn usage_block(n: nat, e: UsageExample) -> Seq<char> {
    "\n## Пример "@ + decimal(n) + "\n\n"@ + "**Источник:** "@ + e.entity@ + "\n"@ + "**Версия:** "@ + e.version@ + "\n"@
        + (match e.description { Some(d) => "\n"@ + d@ + "\n"@, None => Seq::empty() })
        + "\n```bsl\n"@ + e.code@ + "\n```\n"@
}

pub open spec fn usage_blocks(es: Seq<UsageExample>) -> Seq<char>
    decreases es.len(),
{
    if es.len() == 0 { Seq::empty() } else { usage_blocks(es.drop_last()) + usage_block(es.len(), es.last()) }
}

fn push_usage(out: &mut Vec<char>, n: u64, e: &UsageExample)
    ensures
        final(out)@ == old(out)@ + usage_block(n as nat, *e),
{
    let ghost before = out@;
    push_str(out, "\n## Пример ");
    push_decimal(out, n);
    push_str(out, "\n\n");
    push_str(out, "**Источник:** ");
    push_str(out, e.entity.as_str());
    push_str(out, "\n");
    push_str(out, "**Версия:** ");
    push_str(out, e.version.as_str());
    push_str(out, "\n");
    match &e.description {
        Some(d) => {
            push_str(out, "\n");
            push_str(out, d.as_str());
            push_str(out, "\n");
        },
        None => {},
    }
    push_str(out, "\n```bsl\n");
    push_str(out, e.code.as_str());
    push_str(out, "\n```\n");
    assert(out@ =~= before + usage_block(n as nat, *e));
}

/// Usage examples of an entity in Markdown, numbered from 1.
pub fn format_usage_examples(entity: &str, examples: &[UsageExample]) -> (res: String)
    requires
        examples@.len() < u64::MAX,
    ensures
        res@ == "# Примеры использования: "@ + entity@ + "\n"@ + usage_blocks(examples@),
{
    let mut out: Vec<char> = Vec::new();
    push_str(&mut out, "# Примеры использования: ");
    push_str(&mut out, entity);
    push_str(&mut out, "\n");
    let ghost start = out@;
    let mut i: usize = 0;
    while i < examples.len()
        invariant
            0 <= i <= examples@.len(),
            examples@.len() < u64::MAX,
            out@ == start + usage_blocks(examples@.take(i as int)),
        decreases examples@.len() - i,
    {
        assert(examples@.take(i + 1).drop_last() =~= examples@.take(i as int));
        push_usage(&mut out, (i + 1) as u64, &examples[i]);
        i = i + 1;
    }
    assert(examples@.take(examples@.len() as int) =~= examples@);
    string_of(&out)
}

/// A tool argument value, as far as the tools read it.
#[derive(Debug, Clone)]
pub enum ArgValue {
    Str(String),
    Bool(bool),
    /// A non-negative integer that fits in `u64`.
    UInt(u64),
    Other,
}

/// The parameters of `tools/call`: the tool and its arguments by name.
#[derive(Debug, Clone)]
pub struct ToolCallParams {
    pub name: String,
    pub arguments: Vec<(String, ArgValue)>,
}

/// A search the index has to rank before the answer can be written.
#[derive(Debug, Clone)]
pub struct SearchRequest {
    pub query: String,
    pub version: String,
    pub context: Option<ExecutionContext>,
    pub include_related: bool,
    pub max_results: usize,
}

/// What a tool call comes to: an answer, or a search to rank first.
#[derive(Debug)]
pub enum ToolStep {
    Answer(crate::protocol::ToolCallResult),
    Search(SearchRequest),
}

/// The ceiling of search results no argument of the host goes past.
pub const MAX_SEARCH_RESULTS: usize = 500;

/// The value of the first argument with that name.
pub open spec fn arg_of(args: Seq<(String, ArgValue)>, key: Seq<char>) -> Option<ArgValue>
    decreases args.len(),
{
    if args.len() == 0 {
        None
    } else if args[0].0@ == key {
        Some(args[0].1)
    } else {
        arg_of(args.skip(1), key)
    }
}

pub open spec fn str_arg(args: Seq<(String, ArgValue)>, key: Seq<char>) -> Option<Seq<char>> {
    match arg_of(args, key) {
        Some(ArgValue::Str(s)) => Some(s@),
        _ => None,
    }
}

pub open spec fn bool_arg(args: Seq<(String, ArgValue)>, key: Seq<char>) -> Option<bool> {
    match arg_of(args, key) {
        Some(ArgValue::Bool(b)) => Some(b),
        _ => None,
    }
}

pub open spec fn uint_arg(args: Seq<(String, ArgValue)>, key: Seq<char>) -> Option<u64> {
    match arg_of(args, key) {
        Some(ArgValue::UInt(n)) => Some(n),
        _ => None,
    }
}

fn find_arg<'a>(args: &'a Vec<(String, ArgValue)>, key: &str) -> (res: Option<&'a ArgValue>)
    ensures
        match arg_of(args@, key@) {
            Some(v) => res == Some(&v),
            None => res is None,
        },
{
    let mut i: usize = 0;
    assert(args@.skip(0) =~= args@);
    while i < args.len()
        invariant
            0 <= i <= args@.len(),
            arg_of(args@, key@) == arg_of(args@.skip(i as int), key@),
        decreases args@.len() - i,
    {
        assert(args@.skip(i as int)[0] == args@[i as int]);
        assert(args@.skip(i as int).skip(1) =~= args@.skip(i + 1));
        if crate::text::same_text(args[i].0.as_str(), key) {
            return Some(&args[i].1);
        }
        i = i + 1;
    }
    None
}

fn string_arg<'a>(args: &'a Vec<(String, ArgValue)>, key: &str) -> (res: Option<&'a str>)
    ensures
        crate::platform::str_opt(res) == str_arg(args@, key@),
{
    assert(args@.skip(0) =~= args@);
    match find_arg(args, key) {
        Some(ArgValue::Str(s)) => Some(s.as_str()),
        _ => None,
    }
}

fn flag_arg(args: &Vec<(String, ArgValue)>, key: &str) -> (res: Option<bool>)
    ensures
        res == bool_arg(args@, key@),
{
    assert(args@.skip(0) =~= args@);
    match find_arg(args, key) {
        Some(ArgValue::Bool(b)) => Some(*b),
        _ => None,
    }
}

fn number_arg(args: &Vec<(String, ArgValue)>, key: &str) -> (res: Option<u64>)
    ensures
        res == uint_arg(args@, key@),
{
    assert(args@.skip(0) =~= args@);
    match find_arg(args, key) {
        Some(ArgValue::UInt(n)) => Some(*n),
        _ => None,
    }
}

/// `n` held between `lo` and `hi`.
pub open spec fn clamped(n: int, lo: int, hi: int) -> int {
    if n < lo { lo } else if n > hi { hi } else { n }
}

/// A tool call as the model sees it: an answer (text, error flag, count) or a
/// search request (query, version, context, related, limit).
pub enum StepModel {
    Answer(Seq<char>, Option<bool>, Option<usize>),
    Search(Seq<char>, Seq<char>, Option<ExecutionContext>, bool, nat),
}

/// What a tool call comes to, given the loaded versions in order (`vs`), the
/// build hint, the server's name and version and the configured result limit;
/// `Err` is a refusal of the parameters.
pub open spec fn tool_step(
    docs: Seq<crate::schema::Document>,
    vs: Seq<Seq<char>>,
    hint: Option<Seq<char>>,
    server_name: Seq<char>,
    server_version: Seq<char>,
    default_max: nat,
    name: Seq<char>,
    args: Seq<(String, ArgValue)>,
) -> Result<StepModel, Seq<char>> {
    let version = resolved_version(docs, vs, hint, str_arg(args, "version"@));
    if name == "search_1c_docs"@ {
        match str_arg(args, "query"@) {
            None => Err("ru: Отсутствует query, en: Missing query parameter"@),
            Some(q) => match version {
                Err(m) => Ok(StepModel::Answer(m, Some(false), Some(0usize))),
                Ok(v) => Ok(StepModel::Search(
                    q,
                    v,
                    match str_arg(args, "context"@) { Some(c) => context_named(c), None => None },
                    match bool_arg(args, "include_related"@) { Some(b) => b, None => true },
                    match uint_arg(args, "max_results"@) {
                        Some(n) => clamped(n as int, 1, MAX_SEARCH_RESULTS as int) as nat,
                        None => default_max,
                    },
                )),
            },
        }
    } else if name == "get_method_details"@ {
        match str_arg(args, "method_name"@) {
            None => Err("ru: Отсутствует method_name, en: Missing method_name parameter"@),
            Some(m) => match version {
                Err(t) => Ok(StepModel::Answer(t, Some(false), Some(0usize))),
                Ok(v) => match crate::knowledge::method_in(docs, v, m) {
                    Some(method) => Ok(StepModel::Answer(
                        method_card(method, v, match bool_arg(args, "include_examples"@) { Some(b) => b, None => true }),
                        Some(false),
                        Some(1usize),
                    )),
                    None => Ok(StepModel::Answer(
                        "ru: Метод '"@ + m + "' не найден в версии "@ + v + ", en: Method '"@ + m + "' not found in version "@ + v,
                        Some(true),
                        Some(0usize),
                    )),
                },
            },
        }
    } else if name == "find_usage_examples"@ {
        match str_arg(args, "entity_name"@) {
            None => Err("ru: Отсутствует entity_name, en: Missing entity_name parameter"@),
            Some(e) => match version {
                Err(t) => Ok(StepModel::Answer(t, Some(false), Some(0usize))),
                Ok(v) => {
                    let max = clamped(match uint_arg(args, "max_examples"@) { Some(n) => n as int, None => 5 }, 1, 20);
                    let found = crate::knowledge::usage_examples(docs, Some(v), e, max as nat);
                    Ok(StepModel::Answer(
                        if found.len() == 0 {
                            "ru: Примеры использования '"@ + e + "' не найдены в версии "@ + v
                                + ", en: No usage examples found for '"@ + e + "' in version "@ + v
                        } else {
                            "# Примеры использования: "@ + e + "\n"@ + usage_blocks(found)
                        },
                        Some(false),
                        Some(found.len() as usize),
                    ))
                },
            },
        }
    } else if name == "list_versions"@ {
        Ok(StepModel::Answer(versions_text(docs, vs, hint), Some(false), Some(vs.len() as usize)))
    } else if name == "server_info"@ {
        Ok(StepModel::Answer(
            crate::protocol::server_info_line(server_name, server_version, Some(summary_text(docs, vs))),
            Some(false),
            None,
        ))
    } else {
        Err("ru: Неизвестный инструмент: "@ + name + ", en: Unknown tool: "@ + name)
    }
}

/// A tool answer as the model sees it.
pub open spec fn answer_view(r: crate::protocol::ToolCallResult) -> Option<(Seq<char>, Option<bool>, Option<usize>)> {
    if r.content@.len() == 1 {
        match r.content@[0] {
            crate::protocol::Content::Text { text } => Some((text@, r.is_error, r.result_count)),
            _ => None,
        }
    } else {
        None
    }
}

/// A step as the model sees it.
pub open spec fn step_view(s: ToolStep) -> Option<StepModel> {
    match s {
        ToolStep::Answer(r) => match answer_view(r) {
            Some((t, e, c)) => Some(StepModel::Answer(t, e, c)),
            None => None,
        },
        ToolStep::Search(q) => Some(StepModel::Search(q.query@, q.version@, q.context, q.include_related, q.max_results as nat)),
    }
}

fn answer(text: String, is_error: Option<bool>, result_count: Option<usize>) -> (res: crate::protocol::ToolCallResult)
    ensures
        answer_view(res) == Some((text@, is_error, result_count)),
{
    let mut content: Vec<crate::protocol::Content> = Vec::new();
    content.push(crate::protocol::Content::Text { text });
    crate::protocol::ToolCallResult { content, is_error, result_count }
}

fn quoted_message(a: &str, x: &str, b: &str, y: &str, c: &str, x2: &str, d: &str, y2: &str) -> (res: String)
    ensures
        res@ == a@ + x@ + b@ + y@ + c@ + x2@ + d@ + y2@,
{
    let mut out: Vec<char> = Vec::new();
    push_str(&mut out, a);
    push_str(&mut out, x);
    push_str(&mut out, b);
    push_str(&mut out, y);
    push_str(&mut out, c);
    push_str(&mut out, x2);
    push_str(&mut out, d);
    push_str(&mut out, y2);
    string_of(&out)
}

/// `tools/call`: the tool's answer, or the search to rank before answering.
/// `Err` refuses the parameters: a missing argument or an unknown tool.
pub fn handle_tools_call(
    kb: &KnowledgeBase,
    progress: &Progress,
    server: &crate::protocol::ServerInfo,
    max_results: usize,
    params: &ToolCallParams,
) -> (res: Result<ToolStep, String>)
    ensures
        exists|vs: Seq<Seq<char>>| #[trigger] version_order(kb.docs(), vs) && match res {
            Ok(step) => tool_step(kb.docs(), vs, hint_of(progress.current(), progress.percent(), progress.stage()@),
                server.name@, server.version@, max_results as nat, params.name@, params.arguments@) == Ok::<StepModel, Seq<char>>(step_view(step).unwrap())
                && step_view(step) is Some,
            Err(m) => tool_step(kb.docs(), vs, hint_of(progress.current(), progress.percent(), progress.stage()@),
                server.name@, server.version@, max_results as nat, params.name@, params.arguments@) == Err::<StepModel, Seq<char>>(m@),
        },
{
    let versions = kb.versions();
    let ghost vs = versions@.map_values(|v: String| v@);
    let ghost hint = hint_of(progress.current(), progress.percent(), progress.stage()@);
    let args = &params.arguments;
    let name = params.name.as_str();
    proof {
        reveal_strlit("search_1c_docs");
        reveal_strlit("get_method_details");
        reveal_strlit("find_usage_examples");
        reveal_strlit("list_versions");
        reveal_strlit("server_info");
    }
    let ghost version_model = resolved_version(kb.docs(), vs, hint, str_arg(args@, "version"@));
    if crate::text::same_text(name, "search_1c_docs") {
        let query = match string_arg(args, "query") {
            Some(q) => q,
            None => {
                return Err(String::from_str("ru: Отсутствует query, en: Missing query parameter"));
            },
        };
        let version = match resolve_version_in(kb, &versions, string_arg(args, "version"), progress) {
            Ok(v) => v,
            Err(message) => {
                return Ok(ToolStep::Answer(answer(message, Some(false), Some(0))));
            },
        };
        let context = match string_arg(args, "context") {
            Some(c) => parse_context(c),
            None => None,
        };
        let include_related = match flag_arg(args, "include_related") {
            Some(b) => b,
            None => true,
        };
        let limit = match number_arg(args, "max_results") {
            Some(n) => if n < 1 { 1 } else if n > 500 { 500 } else { n as usize },
            None => max_results,
        };
        return Ok(ToolStep::Search(SearchRequest {
            query: String::from_str(query),
            version,
            context,
            include_related,
            max_results: limit,
        }));
    }
    if crate::text::same_text(name, "get_method_details") {
        let method_name = match string_arg(args, "method_name") {
            Some(m) => m,
            None => {
                return Err(String::from_str("ru: Отсутствует method_name, en: Missing method_name parameter"));
            },
        };
        let version = match resolve_version_in(kb, &versions, string_arg(args, "version"), progress) {
            Ok(v) => v,
            Err(message) => {
                return Ok(ToolStep::Answer(answer(message, Some(false), Some(0))));
            },
        };
        let include_examples = match flag_arg(args, "include_examples") {
            Some(b) => b,
            None => true,
        };
        let details = kb.get_method_details(method_name, Some(version.as_str()));
        return match details {
            Some(method) => {
                let text = format_method_details(method, version.as_str(), include_examples);
                Ok(ToolStep::Answer(answer(text, Some(false), Some(1))))
            },
            None => {
                let text = quoted_message(
                    "ru: Метод '", method_name, "' не найден в версии ", version.as_str(),
                    ", en: Method '", method_name, "' not found in version ", version.as_str(),
                );
                Ok(ToolStep::Answer(answer(text, Some(true), Some(0))))
            },
        };
    }
    if crate::text::same_text(name, "find_usage_examples") {
        let entity = match string_arg(args, "entity_name") {
            Some(e) => e,
            None => {
                return Err(String::from_str("ru: Отсутствует entity_name, en: Missing entity_name parameter"));
            },
        };
        let requested: u64 = match number_arg(args, "max_examples") {
            Some(n) => n,
            None => 5,
        };
        let max_examples: usize = if requested < 1 { 1 } else if requested > 20 { 20 } else { requested as usize };
        let version = match resolve_version_in(kb, &versions, string_arg(args, "version"), progress) {
            Ok(v) => v,
            Err(message) => {
                return Ok(ToolStep::Answer(answer(message, Some(false), Some(0))));
            },
        };
        let examples = kb.find_usage_examples(entity, Some(version.as_str()), max_examples);
        let count = examples.len();
        let text = if count == 0 {
            quoted_message(
                "ru: Примеры использования '", entity, "' не найдены в версии ", version.as_str(),
                ", en: No usage examples found for '", entity, "' in version ", version.as_str(),
            )
        } else {
            format_usage_examples(entity, examples.as_slice())
        };
        return Ok(ToolStep::Answer(answer(text, Some(false), Some(count))));
    }
    if crate::text::same_text(name, "list_versions") {
        let text = format_versions_in(kb, &versions, progress);
        return Ok(ToolStep::Answer(answer(text, Some(false), Some(versions.len()))));
    }
    if crate::text::same_text(name, crate::protocol::SERVER_INFO_TOOL) {
        let summary = knowledge_summary_in(kb, &versions);
        let text = crate::protocol::server_info_text(server.name.as_str(), server.version.as_str(), Some(summary.as_str()));
        return Ok(ToolStep::Answer(answer(text, Some(false), None)));
    }
    proof {
        reveal_strlit("");
    }
    Err(quoted_message("ru: Неизвестный инструмент: ", name, ", en: Unknown tool: ", name, "", "", "", ""))
}

/// The related lines of a result, from its model.
pub open spec fn related_model_lines(rs: Seq<(Seq<char>, Seq<char>, Seq<char>)>) -> Seq<char>
    decreases rs.len(),
{
    if rs.len() == 0 {
        Seq::empty()
    } else {
        related_model_lines(rs.drop_last()) + "- "@ + rs.last().1 + " — "@ + rs.last().0
            + (if rs.last().2.len() > 0 { " ("@ + rs.last().2 + ")"@ } else { Seq::empty() }) + "\n"@
    }
}

/// The block of the `n`-th result, from its model (a result has no fragments).
pub open spec fn model_block(n: nat, m: crate::knowledge::ResultModel) -> Seq<char> {
    "\n## Результат "@ + decimal(n) + " (score: "@ + m.0 + ")\n\n"@
        + source_block(m.1)
        + (match m.2 { Some(items) => "\n**Связанные:**\n"@ + related_model_lines(items), None => Seq::empty() })
        + "\n---\n"@
}

pub open spec fn model_blocks(ms: Seq<crate::knowledge::ResultModel>) -> Seq<char>
    decreases ms.len(),
{
    if ms.len() == 0 { Seq::empty() } else { model_blocks(ms.drop_last()) + model_block(ms.len(), ms.last()) }
}

/// The answer of a search, from the results as the model sees them.
pub open spec fn search_answer(query: Seq<char>, ms: Seq<crate::knowledge::ResultModel>) -> Seq<char> {
    if ms.len() == 0 {
        "ru: Результаты не найдены для запроса '"@ + query + "', en: No results found for query '"@ + query + "'"@
    } else {
        model_blocks(ms)
    }
}

proof fn lemma_related_lines(items: Seq<RelatedItem>)
    ensures
        related_lines(items) == related_model_lines(items.map_values(|i: RelatedItem| crate::knowledge::related_view(i))),
    decreases items.len(),
{
    if items.len() > 0 {
        lemma_related_lines(items.drop_last());
        assert(items.drop_last().map_values(|i: RelatedItem| crate::knowledge::related_view(i))
            =~= items.map_values(|i: RelatedItem| crate::knowledge::related_view(i)).drop_last());
    } else {
        assert(items.map_values(|i: RelatedItem| crate::knowledge::related_view(i)) =~= Seq::empty());
    }
}

proof fn lemma_result_blocks(rs: Seq<SearchResult>)
    requires
        forall|k: int| 0 <= k < rs.len() ==> (#[trigger] rs[k]).highlights@.len() == 0,
    ensures
        result_blocks(rs) == model_blocks(rs.map_values(|r: SearchResult| crate::knowledge::result_view(r))),
    decreases rs.len(),
{
    if rs.len() > 0 {
        lemma_result_blocks(rs.drop_last());
        let ms = rs.map_values(|r: SearchResult| crate::knowledge::result_view(r));
        assert(rs.drop_last().map_values(|r: SearchResult| crate::knowledge::result_view(r)) =~= ms.drop_last());
        let r = rs.last();
        assert(r.highlights@.len() == 0);
        match r.related {
            Some(items) => {
                lemma_related_lines(items@);
            },
            None => {},
        }
        assert(result_block(rs.len(), r) == model_block(ms.len(), ms.last()));
    } else {
        assert(rs.map_values(|r: SearchResult| crate::knowledge::result_view(r)) =~= Seq::empty());
    }
}

proof fn lemma_search_results_len(
    docs: Seq<crate::schema::Document>,
    qv: Option<Seq<char>>,
    qc: Option<ExecutionContext>,
    rel: bool,
    max: nat,
    hits: Seq<crate::knowledge::Hit>,
)
    ensures
        crate::knowledge::search_results(docs, qv, qc, rel, max, hits).len() <= hits.len(),
    decreases hits.len(),
{
    if hits.len() > 0 {
        lemma_search_results_len(docs, qv, qc, rel, max, hits.drop_last());
    }
}

/// The answer of `search_1c_docs` once the index has ranked the hits: the
/// results in Markdown, or the "not found" text; the count is the number of
/// results, and an empty answer is not a failure.
pub fn finish_search(kb: &KnowledgeBase, request: &SearchRequest, hits: &[crate::knowledge::Hit]) -> (res: crate::protocol::ToolCallResult)
    requires
        hits@.len() < u64::MAX,
    ensures
        answer_view(res) == Some((
            search_answer(request.query@, crate::knowledge::search_results(kb.docs(), Some(request.version@), request.context,
                request.include_related, request.max_results as nat, hits@)),
            Some(false),
            Some(crate::knowledge::search_results(kb.docs(), Some(request.version@), request.context,
                request.include_related, request.max_results as nat, hits@).len() as usize),
        )),
{
    let query = crate::knowledge::SearchQuery {
        query: request.query.as_str(),
        version: Some(request.version.as_str()),
        context: request.context,
        include_related: request.include_related,
        max_results: request.max_results,
    };
    let results = kb.search(&query, hits);
    let ghost ms = crate::knowledge::search_results(kb.docs(), Some(request.version@), request.context,
        request.include_related, request.max_results as nat, hits@);
    proof {
        lemma_search_results_len(kb.docs(), Some(request.version@), request.context,
            request.include_related, request.max_results as nat, hits@);
        assert(results@.map_values(|r: SearchResult| crate::knowledge::result_view(r)).len() == results@.len());
    }
    let count = results.len();
    let text = if count == 0 {
        let mut out: Vec<char> = Vec::new();
        push_str(&mut out, "ru: Результаты не найдены для запроса '");
        push_str(&mut out, request.query.as_str());
        push_str(&mut out, "', en: No results found for query '");
        push_str(&mut out, request.query.as_str());
        push_str(&mut out, "'");
        string_of(&out)
    } else {
        proof {
            lemma_result_blocks(results@);
        }
        format_search_results(results.as_slice())
    };
    answer(text, Some(false), Some(count))
}

/// Where a request goes, by its method.
#[derive(Debug, Clone, PartialEq, Eq)]
pub enum Route {
    Initialize,
    ToolsList,
    ToolsCall,
    PromptsList,
    PromptsGet,
    /// `ping` is answered with an empty result.
    Ping,
    /// A client notification: no answer is due.
    Notification,
    /// Not served; the text says which method.
    NotFound(String),
}

/// Why a request failed, and so which JSON-RPC code it is answered with.
#[derive(Debug, Clone, PartialEq, Eq)]
pub enum Failure {
    /// −32601: the method is not served here.
    MethodNotFound(String),
    /// −32602: the client's parameters are wrong.
    InvalidParams(String),
    /// −32603: the server failed.
    Internal(String),
}

impl Failure {
    /// The JSON-RPC error code: a missing method, wrong parameters and a server
    /// fault read differently to a client.
    pub fn code(&self) -> (res: i32)
        ensures
            res == match *self {
                Failure::MethodNotFound(_) => -32601i32,
                Failure::InvalidParams(_) => -32602i32,
                Failure::Internal(_) => -32603i32,
            },
    {
        match self {
            Failure::MethodNotFound(_) => -32601,
            Failure::InvalidParams(_) => -32602,
            Failure::Internal(_) => -32603,
        }
    }

    /// The error message.
    pub fn message(&self) -> (res: String)
        ensures
            res@ == match *self {
                Failure::MethodNotFound(m) => m@,
                Failure::InvalidParams(m) => m@,
                Failure::Internal(m) => m@,
            },
    {
        match self {
            Failure::MethodNotFound(m) => m.clone(),
            Failure::InvalidParams(m) => m.clone(),
            Failure::Internal(m) => m.clone(),
        }
    }
}

/// The text of a refused method.
pub open spec fn not_found_text(method: Seq<char>) -> Seq<char> {
    "ru: Метод не поддерживается: "@ + method + ", en: Method not found: "@ + method
}

/// The route of a method. `resources/*` is not served: the capability is not
/// declared. A `notifications/` method is a notification only without an id.
pub open spec fn route_of(method: Seq<char>, is_notification: bool) -> Route {
    if method == "initialize"@ {
        Route::Initialize
    } else if method == "tools/list"@ {
        Route::ToolsList
    } else if method == "tools/call"@ {
        Route::ToolsCall
    } else if method == "prompts/list"@ {
        Route::PromptsList
    } else if method == "prompts/get"@ {
        Route::PromptsGet
    } else if method == "ping"@ {
        Route::Ping
    } else if "notifications/"@.is_prefix_of(method) && is_notification {
        Route::Notification
    } else {
        Route::NotFound(arbitrary())
    }
}

/// Where a request goes.
pub fn route(method: &str, is_notification: bool) -> (res: Route)
    ensures
        match res {
            Route::NotFound(m) => route_of(method@, is_notification) is NotFound && m@ == not_found_text(method@),
            other => route_of(method@, is_notification) == other,
        },
{
    proof {
        reveal_strlit("initialize");
        reveal_strlit("tools/list");
        reveal_strlit("tools/call");
        reveal_strlit("prompts/list");
        reveal_strlit("prompts/get");
        reveal_strlit("ping");
    }
    if crate::text::same_text(method, "initialize") {
        return Route::Initialize;
    }
    if crate::text::same_text(method, "tools/list") {
        return Route::ToolsList;
    }
    if crate::text::same_text(method, "tools/call") {
        return Route::ToolsCall;
    }
    if crate::text::same_text(method, "prompts/list") {
        return Route::PromptsList;
    }
    if crate::text::same_text(method, "prompts/get") {
        return Route::PromptsGet;
    }
    if crate::text::same_text(method, "ping") {
        return Route::Ping;
    }
    let m = crate::text::chars_of(method);
    let prefix = crate::text::chars_of("notifications/");
    if crate::text::starts_with_chars(&m, &prefix) && is_notification {
        proof {
            assert("notifications/"@.is_prefix_of(method@));
        }
        return Route::Notification;
    }
    proof {
        if "notifications/"@.is_prefix_of(method@) {
            assert(method@.take(prefix@.len() as int) =~= prefix@);
        }
    }
    let mut out: Vec<char> = Vec::new();
    push_str(&mut out, "ru: Метод не поддерживается: ");
    push_str(&mut out, method);
    push_str(&mut out, ", en: Method not found: ");
    push_str(&mut out, method);
    Route::NotFound(string_of(&out))
}

/// A listed prompt as text: name, description, arguments (name, description,
/// required).
pub open spec fn prompt_view(p: crate::protocol::Prompt) -> (Seq<char>, Option<Seq<char>>, Option<Seq<(Seq<char>, Option<Seq<char>>, bool)>>) {
    (
        p.name@,
        crate::platform::string_opt(p.description),
        match p.arguments {
            Some(args) => Some(args@.map_values(|a: crate::protocol::PromptArgument| (a.name@, crate::platform::string_opt(a.description), a.required))),
            None => None,
        },
    )
}

/// A template as it is listed: every field carried over, description and
/// arguments always present.
pub open spec fn listed(t: crate::prompts::PromptTemplate) -> (Seq<char>, Option<Seq<char>>, Option<Seq<(Seq<char>, Option<Seq<char>>, bool)>>) {
    (
        t.name@,
        Some(t.description@),
        Some(t.arguments@.map_values(|a: crate::prompts::PromptArgument| (a.name@, Some(a.description@), a.required))),
    )
}

/// `prompts/list`: the loaded templates as MCP prompts.
pub fn handle_prompts_list(engine: &crate::prompts::PromptsEngine) -> (res: Vec<crate::protocol::Prompt>)
    ensures
        res@.map_values(|p: crate::protocol::Prompt| prompt_view(p))
            == engine.collection.prompts@.map_values(|t: crate::prompts::PromptTemplate| listed(t)),
{
    let templates = engine.list_prompts();
    let mut out: Vec<crate::protocol::Prompt> = Vec::new();
    let mut i: usize = 0;
    while i < templates.len()
        invariant
            0 <= i <= templates@.len(),
            templates@ == engine.collection.prompts@,
            out@.map_values(|p: crate::protocol::Prompt| prompt_view(p))
                == templates@.take(i as int).map_values(|t: crate::prompts::PromptTemplate| listed(t)),
        decreases templates@.len() - i,
    {
        let t = &templates[i];
        let mut args: Vec<crate::protocol::PromptArgument> = Vec::new();
        let mut k: usize = 0;
        while k < t.arguments.len()
            invariant
                0 <= k <= t.arguments@.len(),
                args@.map_values(|a: crate::protocol::PromptArgument| (a.name@, crate::platform::string_opt(a.description), a.required))
                    == t.arguments@.take(k as int).map_values(|a: crate::prompts::PromptArgument| (a.name@, Some(a.description@), a.required)),
            decreases t.arguments@.len() - k,
        {
            let a = &t.arguments[k];
            let ghost before = args@;
            args.push(crate::protocol::PromptArgument {
                name: a.name.clone(),
                description: Some(a.description.clone()),
                required: a.required,
            });
            assert(t.arguments@.take(k + 1) =~= t.arguments@.take(k as int).push(*a));
            assert(args@ =~= before.push(args@.last()));
            assert(args@.map_values(|a: crate::protocol::PromptArgument| (a.name@, crate::platform::string_opt(a.description), a.required))
                =~= before.map_values(|a: crate::protocol::PromptArgument| (a.name@, crate::platform::string_opt(a.description), a.required))
                    .push((a.name@, Some(a.description@), a.required)));
            assert(t.arguments@.take(k as int).push(*a).map_values(|a: crate::prompts::PromptArgument| (a.name@, Some(a.description@), a.required))
                =~= t.arguments@.take(k as int).map_values(|a: crate::prompts::PromptArgument| (a.name@, Some(a.description@), a.required))
                    .push((a.name@, Some(a.description@), a.required)));
            k = k + 1;
        }
        assert(t.arguments@.take(t.arguments@.len() as int) =~= t.arguments@);
        let ghost before = out@;
        let p = crate::protocol::Prompt { name: t.name.clone(), description: Some(t.description.clone()), arguments: Some(args) };
        out.push(p);
        assert(templates@.take(i + 1) =~= templates@.take(i as int).push(*t));
        assert(prompt_view(p) == listed(*t));
        assert(out@.map_values(|p: crate::protocol::Prompt| prompt_view(p))
            =~= before.map_values(|p: crate::protocol::Prompt| prompt_view(p)).push(prompt_view(p)));
        assert(templates@.take(i as int).push(*t).map_values(|t: crate::prompts::PromptTemplate| listed(t))
            =~= templates@.take(i as int).map_values(|t: crate::prompts::PromptTemplate| listed(t)).push(listed(*t)));
        i = i + 1;
    }
    assert(templates@.take(templates@.len() as int) =~= templates@);
    out
}

/// A `prompts/get` result with this description and one user message of this
/// text.
pub open spec fn prompt_result_is(r: crate::protocol::GetPromptResult, description: Seq<char>, text: Seq<char>) -> bool {
    &&& crate::platform::string_opt(r.description) == Some(description)
    &&& r.messages@.len() == 1
    &&& r.messages@[0].role@ == "user"@
    &&& (r.messages@[0].content matches crate::protocol::Content::Text { text: t } && t@ == text)
}

/// The text of the first message of a `prompts/get` result.
pub open spec fn first_text(r: crate::protocol::GetPromptResult) -> Seq<char> {
    match r.messages@[0].content {
        crate::protocol::Content::Text { text } => text@,
        _ => Seq::empty(),
    }
}

/// `prompts/get`: an unknown prompt is the client's mistake (−32602); a
/// template that does not render is the server's (−32603); otherwise one user
/// message with the rendered text, described as `Промпт: <name>`.
pub fn handle_prompts_get(engine: &crate::prompts::PromptsEngine, params: &crate::protocol::GetPromptParams) -> (res: Result<crate::protocol::GetPromptResult, Failure>)
    ensures
        match crate::prompts::first_prompt(engine.collection.prompts@, params.name@) {
            None => res matches Err(Failure::InvalidParams(m)) && m@ == crate::prompts::unknown_prompt_text(params.name@),
            Some(i) => match crate::prompts::prompt_context(engine.collection.prompts@[i], params.arguments@, None) {
                Err(m) => res matches Err(Failure::Internal(e)) && e@ == m,
                Ok(_) => match res {
                    Ok(r) => prompt_result_is(r, "Промпт: "@ + params.name@, first_text(r)),
                    Err(f) => f matches Failure::Internal(e)
                        && e@ == crate::prompts::render_failure_text(engine.collection.prompts@[i].name@),
                },
            },
        },
{
    if engine.get_prompt(params.name.as_str()).is_none() {
        let mut out: Vec<char> = Vec::new();
        push_str(&mut out, "ru: Промпт '");
        push_str(&mut out, params.name.as_str());
        push_str(&mut out, "' не найден, en: Prompt '");
        push_str(&mut out, params.name.as_str());
        push_str(&mut out, "' not found");
        return Err(Failure::InvalidParams(string_of(&out)));
    }
    match engine.render_prompt(params.name.as_str(), params.arguments.as_slice()) {
        Err(e) => Err(Failure::Internal(e)),
        Ok(rendered) => {
            let mut d: Vec<char> = Vec::new();
            push_str(&mut d, "Промпт: ");
            push_str(&mut d, params.name.as_str());
            let mut messages: Vec<crate::protocol::PromptMessage> = Vec::new();
            messages.push(crate::protocol::PromptMessage {
                role: String::from_str("user"),
                content: crate::protocol::Content::Text { text: rendered },
            });
            Ok(crate::protocol::GetPromptResult { description: Some(string_of(&d)), messages })
        },
    }
}

/// `initialize`: the protocol version, the capabilities (prompts only when
/// some are loaded) and the server with a summary of its data — the base and
/// the number of prompts — so that an empty base is visible at the handshake.
pub fn initialize_result(kb: &KnowledgeBase, server: &crate::protocol::ServerInfo, prompts_loaded: usize) -> (res: crate::protocol::InitializeResult)
    ensures
        res.protocol_version@ == crate::protocol::MCP_PROTOCOL_VERSION@,
        res.capabilities == crate::capabilities::get_server_capabilities_spec(prompts_loaded > 0),
        res.server_info.name@ == server.name@,
        res.server_info.version@ == server.version@,
        exists|vs: Seq<Seq<char>>| #[trigger] version_order(kb.docs(), vs)
            && (res.server_info.data matches Some(d) && d@ == summary_text(kb.docs(), vs) + "; промптов: "@ + crate::text::decimal(prompts_loaded as nat)),
{
    let summary = knowledge_summary(kb);
    let mut data: Vec<char> = Vec::new();
    push_str(&mut data, summary.as_str());
    push_str(&mut data, "; промптов: ");
    crate::text::push_decimal(&mut data, prompts_loaded as u64);
    crate::protocol::InitializeResult {
        protocol_version: String::from_str(crate::protocol::MCP_PROTOCOL_VERSION),
        capabilities: crate::capabilities::get_server_capabilities(prompts_loaded > 0),
        server_info: crate::protocol::ServerInfo {
            name: server.name.clone(),
            version: server.version.clone(),
            data: Some(string_of(&data)),
        },
    }
}

} // verus!
