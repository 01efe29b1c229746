//! Prompt templates: their arguments, the checks of given arguments, and the
//! rendering of a template through Tera.

use vstd::prelude::*;
use crate::platform::joined_with;
use crate::text::{chars_of, debug_quoted, debug_text, push_str, same_text, string_of};

verus! {

/// A collection of prompts.
#[derive(Debug, Clone)]
pub struct PromptsCollection {
    pub prompts: Vec<PromptTemplate>,
}

/// A prompt template.
#[derive(Debug, Clone)]
pub struct PromptTemplate {
    pub name: String,
    pub description: String,
    pub arguments: Vec<PromptArgument>,
    pub template: String,
}

/// An argument of a prompt template.
#[derive(Debug, Clone)]
pub struct PromptArgument {
    pub name: String,
    pub description: String,
    pub required: bool,
    pub choices: Option<Vec<String>>,
}

/// The loader of the prompts file.
#[derive(Debug, Clone)]
pub struct PromptsLoader {
    pub template_file: String,
}

impl PromptsLoader {
    /// A loader of the given file.
    pub fn new(template_file: &str) -> (res: Self)
        ensures
            res.template_file@ == template_file@,
    {
        PromptsLoader { template_file: String::from_str(template_file) }
    }
}

/// Name–value pairs as a map; a later pair of the same name wins.
pub open spec fn pairs_map(ps: Seq<(String, String)>) -> Map<Seq<char>, Seq<char>>
    decreases ps.len(),
{
    if ps.len() == 0 {
        Map::empty()
    } else {
        pairs_map(ps.drop_last()).insert(ps.last().0@, ps.last().1@)
    }
}

/// `{:?}` of a list of strings: `["a", "b"]`.
pub open spec fn debug_list(items: Seq<Seq<char>>) -> Seq<char> {
    "["@ + joined_with(items.map_values(|c: Seq<char>| debug_text(c)), ", "@) + "]"@
}

/// The refusal for a missing required argument.
pub open spec fn missing_argument_text(name: Seq<char>) -> Seq<char> {
    "ru: Отсутствует обязательный аргумент '"@ + name + "', en: Missing required argument '"@ + name + "'"@
}

/// The refusal for a value outside an argument's choices.
pub open spec fn invalid_value_text(value: Seq<char>, name: Seq<char>, choices: Seq<Seq<char>>) -> Seq<char> {
    "ru: Недопустимое значение '"@ + value + "' для аргумента '"@ + name + "', допустимые: "@ + debug_list(choices)
        + ", en: Invalid value '"@ + value + "' for argument '"@ + name + "', allowed: "@ + debug_list(choices)
}

/// The first refusal among a template's arguments, checked in order: a
/// required one that is missing, or a given value outside the choices.
pub open spec fn argument_error(params: Seq<PromptArgument>, given: Map<Seq<char>, Seq<char>>) -> Option<Seq<char>>
    decreases params.len(),
{
    if params.len() == 0 {
        None
    } else {
        let a = params[0];
        if a.required && !given.contains_key(a.name@) {
            Some(missing_argument_text(a.name@))
        } else if given.contains_key(a.name@) && a.choices is Some
            && !a.choices.unwrap()@.map_values(|c: String| c@).contains(given[a.name@]) {
            Some(invalid_value_text(given[a.name@], a.name@, a.choices.unwrap()@.map_values(|c: String| c@)))
        } else {
            argument_error(params.skip(1), given)
        }
    }
}

/// The value given for a name: the last pair of that name.
fn lookup<'a>(args: &'a [(String, String)], name: &str) -> (res: Option<&'a String>)
    ensures
        match res {
            Some(v) => pairs_map(args@).contains_key(name@) && pairs_map(args@)[name@] == v@,
            None => !pairs_map(args@).contains_key(name@),
        },
{
    let mut found: Option<&'a String> = None;
    let mut i: usize = 0;
    while i < args.len()
        invariant
            0 <= i <= args@.len(),
            match found {
                Some(v) => pairs_map(args@.take(i as int)).contains_key(name@) && pairs_map(args@.take(i as int))[name@] == v@,
                None => !pairs_map(args@.take(i as int)).contains_key(name@),
            },
        decreases args@.len() - i,
    {
        assert(args@.take(i + 1).drop_last() =~= args@.take(i as int));
        if same_text(args[i].0.as_str(), name) {
            found = Some(&args[i].1);
        }
        i = i + 1;
    }
    assert(args@.take(args@.len() as int) =~= args@);
    found
}

fn contains_string(items: &Vec<String>, value: &String) -> (res: bool)
    ensures
        res == items@.map_values(|c: String| c@).contains(value@),
{
    let ghost views = items@.map_values(|c: String| c@);
    let mut i: usize = 0;
    while i < items.len()
        invariant
            0 <= i <= items@.len(),
            views == items@.map_values(|c: String| c@),
            forall|k: int| 0 <= k < i ==> views[k] != value@,
        decreases items@.len() - i,
    {
        if same_text(items[i].as_str(), value.as_str()) {
            assert(views[i as int] == value@);
            return true;
        }
        i = i + 1;
    }
    false
}

fn debug_list_text(items: &Vec<String>) -> (res: String)
    ensures
        res@ == debug_list(items@.map_values(|c: String| c@)),
{
    let mut quoted: Vec<String> = Vec::new();
    let mut i: usize = 0;
    while i < items.len()
        invariant
            0 <= i <= items@.len(),
            quoted@.len() == i,
            forall|k: int| 0 <= k < i ==> #[trigger] quoted@[k]@ == debug_text(items@[k]@),
        decreases items@.len() - i,
    {
        let cs = chars_of(items[i].as_str());
        quoted.push(debug_quoted(&cs));
        i = i + 1;
    }
    let joined = crate::platform::join_strings(quoted.as_slice(), ", ");
    proof {
        assert(quoted@.map_values(|s: String| s@) =~= items@.map_values(|c: String| c@).map_values(|c: Seq<char>| debug_text(c)));
    }
    let mut out: Vec<char> = Vec::new();
    push_str(&mut out, "[");
    push_str(&mut out, joined.as_str());
    push_str(&mut out, "]");
    string_of(&out)
}

impl PromptTemplate {
    /// Checks the given arguments: every required one is there, and a given
    /// value of an argument with choices is one of them.
    pub fn validate_arguments(&self, args: &[(String, String)]) -> (res: Result<(), String>)
        ensures
            match res {
                Ok(()) => argument_error(self.arguments@, pairs_map(args@)) is None,
                Err(m) => argument_error(self.arguments@, pairs_map(args@)) == Some(m@),
            },
    {
        let mut i: usize = 0;
        assert(self.arguments@.skip(0) =~= self.arguments@);
        while i < self.arguments.len()
            invariant
                0 <= i <= self.arguments@.len(),
                argument_error(self.arguments@, pairs_map(args@)) == argument_error(self.arguments@.skip(i as int), pairs_map(args@)),
            decreases self.arguments@.len() - i,
        {
            let arg = &self.arguments[i];
            assert(self.arguments@.skip(i as int)[0] == *arg);
            assert(self.arguments@.skip(i as int).skip(1) =~= self.arguments@.skip(i + 1));
            let given = lookup(args, arg.name.as_str());
            if arg.required && given.is_none() {
                let mut out: Vec<char> = Vec::new();
                push_str(&mut out, "ru: Отсутствует обязательный аргумент '");
                push_str(&mut out, arg.name.as_str());
                push_str(&mut out, "', en: Missing required argument '");
                push_str(&mut out, arg.name.as_str());
                push_str(&mut out, "'");
                return Err(string_of(&out));
            }
            if let Some(value) = given {
                if let Some(choices) = &arg.choices {
                    if !contains_string(choices, value) {
                        let listed = debug_list_text(choices);
                        let mut out: Vec<char> = Vec::new();
                        push_str(&mut out, "ru: Недопустимое значение '");
                        push_str(&mut out, value.as_str());
                        push_str(&mut out, "' для аргумента '");
                        push_str(&mut out, arg.name.as_str());
                        push_str(&mut out, "', допустимые: ");
                        push_str(&mut out, listed.as_str());
                        push_str(&mut out, ", en: Invalid value '");
                        push_str(&mut out, value.as_str());
                        push_str(&mut out, "' for argument '");
                        push_str(&mut out, arg.name.as_str());
                        push_str(&mut out, "', allowed: ");
                        push_str(&mut out, listed.as_str());
                        return Err(string_of(&out));
                    }
                }
            }
            i = i + 1;
        }
        Ok(())
    }
}

/// Renders a template with string variables.
///
/// Trusted: `tera::Tera::render_str` on an instance with no templates of its
/// own (`Tera::default()`), the variables inserted one by one into a
/// `tera::Context`, a later one of the same name replacing an earlier one; a
/// Tera error gives `None`. Nothing is promised of the outcome: such an
/// instance registers `get_env`, so a template can read the process
/// environment, and the text is not a function of the template and the
/// variables alone.
#[verifier::external_body]
fn render_with_tera(template: &str, context: &[(String, String)]) -> Option<String> {
    let mut tera = tera::Tera::default();
    let mut ctx = tera::Context::new();
    for (key, value) in context {
        ctx.insert(key.as_str(), value);
    }
    tera.render_str(template, &ctx).ok()
}

/// The renderer of prompts.
#[derive(Debug, Clone)]
pub struct PromptsRenderer {}

/// The refusal when Tera cannot render a prompt.
pub open spec fn render_failure_text(name: Seq<char>) -> Seq<char> {
    "ru: Ошибка рендеринга промпта '"@ + name + "', en: Failed to render prompt '"@ + name + "'"@
}

/// The variables a prompt is rendered with: its arguments (and `related_docs`,
/// when given), or the refusal of its arguments, which are checked first.
pub open spec fn prompt_context(t: PromptTemplate, args: Seq<(String, String)>, docs: Option<Seq<char>>) -> Result<Map<Seq<char>, Seq<char>>, Seq<char>> {
    match argument_error(t.arguments@, pairs_map(args)) {
        Some(m) => Err(m),
        None => Ok(match docs {
            Some(d) => pairs_map(args).insert("related_docs"@, d),
            None => pairs_map(args),
        }),
    }
}

/// What a prompt comes to, given what Tera rendered of it (`None`: Tera
/// refused the template).
pub open spec fn render_outcome(t: PromptTemplate, rendered: Option<Seq<char>>) -> Result<Seq<char>, Seq<char>> {
    match rendered {
        Some(s) => Ok(s),
        None => Err(render_failure_text(t.name@)),
    }
}

/// A result as text.
pub open spec fn result_text(r: Result<String, String>) -> Result<Seq<char>, Seq<char>> {
    match r {
        Ok(s) => Ok(s@),
        Err(m) => Err(m@),
    }
}

/// What rendering a prompt may give, whatever Tera renders: the refusal of
/// its arguments when they are refused; else some rendered text, or the
/// refusal of a template Tera does not render.
pub open spec fn prompt_outcome(t: PromptTemplate, args: Seq<(String, String)>, docs: Option<Seq<char>>, res: Result<Seq<char>, Seq<char>>) -> bool {
    match prompt_context(t, args, docs) {
        Err(m) => res == Err::<Seq<char>, Seq<char>>(m),
        Ok(_) => res is Ok || res == Err::<Seq<char>, Seq<char>>(render_failure_text(t.name@)),
    }
}

impl PromptsRenderer {
    pub fn new() -> (res: Self) {
        PromptsRenderer {}
    }

    /// The variables a prompt is rendered with, the arguments checked first.
    pub fn context(&self, template: &PromptTemplate, arguments: &[(String, String)], related_docs: Option<String>) -> (res: Result<Vec<(String, String)>, String>)
        ensures
            match prompt_context(*template, arguments@, crate::platform::string_opt(related_docs)) {
                Err(m) => res matches Err(e) && e@ == m,
                Ok(c) => res matches Ok(v) && pairs_map(v@) == c,
            },
    {
        match template.validate_arguments(arguments) {
            Ok(()) => {},
            Err(m) => {
                return Err(m);
            },
        }
        let mut context: Vec<(String, String)> = Vec::new();
        let mut i: usize = 0;
        while i < arguments.len()
            invariant
                0 <= i <= arguments@.len(),
                pairs_map(context@) == pairs_map(arguments@.take(i as int)),
            decreases arguments@.len() - i,
        {
            let ghost before = context@;
            context.push((arguments[i].0.clone(), arguments[i].1.clone()));
            assert(context@.drop_last() =~= before);
            assert(arguments@.take(i + 1).drop_last() =~= arguments@.take(i as int));
            i = i + 1;
        }
        assert(arguments@.take(arguments@.len() as int) =~= arguments@);
        match related_docs {
            Some(docs) => {
                let ghost before = context@;
                context.push((String::from_str("related_docs"), docs));
                assert(context@.drop_last() =~= before);
            },
            None => {},
        }
        Ok(context)
    }

    /// What a prompt comes to, given what Tera rendered of it.
    pub fn finish(&self, template: &PromptTemplate, rendered: Option<String>) -> (res: Result<String, String>)
        ensures
            result_text(res) == render_outcome(*template, crate::platform::string_opt(rendered)),
    {
        match rendered {
            Some(s) => Ok(s),
            None => {
                let mut out: Vec<char> = Vec::new();
                push_str(&mut out, "ru: Ошибка рендеринга промпта '");
                push_str(&mut out, template.name.as_str());
                push_str(&mut out, "', en: Failed to render prompt '");
                push_str(&mut out, template.name.as_str());
                push_str(&mut out, "'");
                Err(string_of(&out))
            },
        }
    }

    /// Renders a prompt with its arguments: the variables of [`Self::context`]
    /// handed to Tera, its answer taken by [`Self::finish`].
    pub fn render(&self, template: &PromptTemplate, arguments: &[(String, String)], related_docs: Option<String>) -> (res: Result<String, String>)
        ensures
            prompt_outcome(*template, arguments@, crate::platform::string_opt(related_docs), result_text(res)),
    {
        let context = match self.context(template, arguments, related_docs) {
            Ok(c) => c,
            Err(m) => {
                return Err(m);
            },
        };
        let rendered = render_with_tera(template.template.as_str(), context.as_slice());
        self.finish(template, rendered)
    }
}

impl Default for PromptsRenderer {
    fn default() -> (res: Self) {
        PromptsRenderer {}
    }
}

/// The prompt engine: the loaded collection and the renderer.
pub struct PromptsEngine {
    pub collection: PromptsCollection,
    pub renderer: PromptsRenderer,
}

/// The position of the first prompt with a name.
pub open spec fn first_prompt(ps: Seq<PromptTemplate>, name: Seq<char>) -> Option<int> {
    if exists|i: int| 0 <= i < ps.len() && ps[i].name@ == name {
        Some(choose|i: int| 0 <= i < ps.len() && ps[i].name@ == name && forall|j: int| 0 <= j < i ==> ps[j].name@ != name)
    } else {
        None
    }
}

/// The refusal for an unknown prompt.
pub open spec fn unknown_prompt_text(name: Seq<char>) -> Seq<char> {
    "ru: Промпт '"@ + name + "' не найден, en: Prompt '"@ + name + "' not found"@
}

impl PromptsEngine {
    /// An engine with no prompts.
    pub fn new() -> (res: Self)
        ensures
            res.collection.prompts@.len() == 0,
    {
        PromptsEngine { collection: PromptsCollection { prompts: Vec::new() }, renderer: PromptsRenderer::new() }
    }

    /// The loaded prompts.
    pub fn list_prompts(&self) -> (res: &[PromptTemplate])
        ensures
            res@ == self.collection.prompts@,
    {
        self.collection.prompts.as_slice()
    }

    /// The first prompt of a name.
    pub fn get_prompt(&self, name: &str) -> (res: Option<&PromptTemplate>)
        ensures
            match first_prompt(self.collection.prompts@, name@) {
                Some(i) => res == Some(&self.collection.prompts@[i]),
                None => res is None,
            },
    {
        let ps = &self.collection.prompts;
        let mut i: usize = 0;
        while i < ps.len()
            invariant
                0 <= i <= ps@.len(),
                ps@ == self.collection.prompts@,
                forall|j: int| 0 <= j < i ==> ps@[j].name@ != name@,
            decreases ps@.len() - i,
        {
            if same_text(ps[i].name.as_str(), name) {
                proof {
                    let c = choose|c: int| 0 <= c < ps@.len() && ps@[c].name@ == name@ && forall|j: int| 0 <= j < c ==> ps@[j].name@ != name@;
                    if c > i {
                        assert(ps@[i as int].name@ == name@);
                    }
                }
                return Some(&ps[i]);
            }
            i = i + 1;
        }
        None
    }

    /// Renders a prompt by name with its arguments; knowledge-base documents
    /// are not injected.
    pub fn render_prompt(&self, name: &str, arguments: &[(String, String)]) -> (res: Result<String, String>)
        ensures
            match first_prompt(self.collection.prompts@, name@) {
                None => res matches Err(m) && m@ == unknown_prompt_text(name@),
                Some(i) => prompt_outcome(self.collection.prompts@[i], arguments@, None, result_text(res)),
            },
    {
        match self.get_prompt(name) {
            Some(template) => self.renderer.render(template, arguments, None),
            None => {
                let mut out: Vec<char> = Vec::new();
                push_str(&mut out, "ru: Промпт '");
                push_str(&mut out, name);
                push_str(&mut out, "' не найден, en: Prompt '");
                push_str(&mut out, name);
                push_str(&mut out, "' not found");
                Err(string_of(&out))
            },
        }
    }
}

impl Default for PromptsEngine {
    fn default() -> (res: Self)
        ensures
            res.collection.prompts@.len() == 0,
    {
        PromptsEngine::new()
    }
}

} // verus!
