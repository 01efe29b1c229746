//! Launch-parameter resolution: argument, then environment, then file, then
//! default — decided per key, never per source.
//!
//! Reading the process arguments and the environment is the caller's part:
//! every function here takes what was read as plain values.

use vstd::prelude::*;
use crate::text::{chars_of, push_str, push_chars, same_text, string_of};

verus! {

/// Where a setting's value came from.
#[derive(Debug, Clone, PartialEq, Eq)]
pub enum Source {
    Arg(String),
    Env(String),
    File(String),
    Default,
}

/// The mathematical form of a [`Source`].
pub enum SourceModel {
    Arg(Seq<char>),
    Env(Seq<char>),
    File(Seq<char>),
    Default,
}

impl View for Source {
    type V = SourceModel;

    open spec fn view(&self) -> SourceModel {
        match self {
            Source::Arg(n) => SourceModel::Arg(n@),
            Source::Env(n) => SourceModel::Env(n@),
            Source::File(p) => SourceModel::File(p@),
            Source::Default => SourceModel::Default,
        }
    }
}

/// How a source reads in the startup record: `--conf-dir`, `env NAME`,
/// `файл PATH`, `дефолт`.
pub open spec fn source_text(s: SourceModel) -> Seq<char> {
    match s {
        SourceModel::Arg(n) => n,
        SourceModel::Env(n) => "env "@ + n,
        SourceModel::File(p) => "файл "@ + p,
        SourceModel::Default => "дефолт"@,
    }
}

impl Source {
    /// The text of [`source_text`].
    pub fn describe(&self) -> (res: String)
        ensures
            res@ == source_text(self@),
    {
        let mut out: Vec<char> = Vec::new();
        match self {
            Source::Arg(n) => {
                push_str(&mut out, n.as_str());
            },
            Source::Env(n) => {
                push_str(&mut out, "env ");
                push_str(&mut out, n.as_str());
            },
            Source::File(p) => {
                push_str(&mut out, "файл ");
                push_str(&mut out, p.as_str());
            },
            Source::Default => {
                push_str(&mut out, "дефолт");
            },
        }
        string_of(&out)
    }
}

/// A value together with where it came from.
#[derive(Debug, Clone)]
pub struct Setting {
    pub value: String,
    pub source: Source,
}

/// The startup-record line `key = value (source)`.
pub open spec fn report_line(key: Seq<char>, value: Seq<char>, source: SourceModel) -> Seq<char> {
    key + " = "@ + value + " ("@ + source_text(source) + ")"@
}

/// The mask of a secret: its first three characters and `***`; a secret
/// shorter than four characters shows nothing but `***`.
pub open spec fn masked(secret: Seq<char>) -> Seq<char> {
    if secret.len() < 4 {
        "***"@
    } else {
        secret.take(3) + "***"@
    }
}

fn report_with(key: &str, value: &[char], source: &Source) -> (res: String)
    ensures
        res@ == report_line(key@, value@, source@),
{
    let mut out: Vec<char> = Vec::new();
    push_str(&mut out, key);
    push_str(&mut out, " = ");
    push_chars(&mut out, value);
    push_str(&mut out, " (");
    let src = source.describe();
    push_str(&mut out, src.as_str());
    push_str(&mut out, ")");
    string_of(&out)
}

impl Setting {
    /// The startup-record line: `conf-dir = /conf (--conf-dir)`.
    pub fn report(&self, key: &str) -> (res: String)
        ensures
            res@ == report_line(key@, self.value@, self.source@),
    {
        let value = chars_of(self.value.as_str());
        report_with(key, &value, &self.source)
    }

    /// The same line with the value masked, for passwords.
    pub fn report_masked(&self, key: &str) -> (res: String)
        ensures
            res@ == report_line(key@, masked(self.value@), self.source@),
    {
        let m = mask(self.value.as_str());
        let value = chars_of(m.as_str());
        report_with(key, &value, &self.source)
    }
}

/// A required parameter that no source gave. Its message names every place
/// where the parameter can be set.
#[derive(Debug, Clone)]
pub struct Missing {
    pub key: String,
    pub arg: String,
    pub env: String,
    pub file_hint: String,
}

/// The message of a [`Missing`] parameter.
pub open spec fn missing_message(key: Seq<char>, arg: Seq<char>, env: Seq<char>, file_hint: Seq<char>) -> Seq<char> {
    "не задан обязательный параметр "@ + key + ": укажите "@ + arg
        + " <значение>, переменную окружения "@ + env + " или "@ + file_hint
        + " в файле конфигурации"@
}

impl Missing {
    /// The text of the refusal.
    pub fn message(&self) -> (res: String)
        ensures
            res@ == missing_message(self.key@, self.arg@, self.env@, self.file_hint@),
    {
        let mut out: Vec<char> = Vec::new();
        push_str(&mut out, "не задан обязательный параметр ");
        push_str(&mut out, self.key.as_str());
        push_str(&mut out, ": укажите ");
        push_str(&mut out, self.arg.as_str());
        push_str(&mut out, " <значение>, переменную окружения ");
        push_str(&mut out, self.env.as_str());
        push_str(&mut out, " или ");
        push_str(&mut out, self.file_hint.as_str());
        push_str(&mut out, " в файле конфигурации");
        string_of(&out)
    }
}

/// The views of a list of strings.
pub open spec fn views(args: Seq<String>) -> Seq<Seq<char>> {
    args.map_values(|s: String| s@)
}

/// The first position at or after `i` that holds `name`; `args.len()` when
/// there is none.
pub open spec fn first_from(args: Seq<Seq<char>>, name: Seq<char>, i: int) -> int
    decreases args.len() - i,
{
    if i >= args.len() {
        args.len() as int
    } else if args[i] == name {
        i
    } else {
        first_from(args, name, i + 1)
    }
}

/// The value of `--name <value>` in an argument list whose first element is
/// the program: the element after the first `name` past position 0, if any.
pub open spec fn arg_value(args: Seq<Seq<char>>, name: Seq<char>) -> Option<Seq<char>> {
    let k = first_from(args, name, 1);
    if k + 1 < args.len() {
        Some(args[k + 1])
    } else {
        None
    }
}

proof fn lemma_first_from_bounds(args: Seq<Seq<char>>, name: Seq<char>, i: int)
    requires
        0 <= i,
    ensures
        i <= first_from(args, name, i) || first_from(args, name, i) == args.len(),
        first_from(args, name, i) <= args.len() || i > args.len(),
        first_from(args, name, i) < args.len() ==> args[first_from(args, name, i)] == name,
    decreases args.len() - i,
{
    if i < args.len() && args[i] != name {
        lemma_first_from_bounds(args, name, i + 1);
    }
}

/// The value of the argument `name <value>` in `args` (the separate form only;
/// `args[0]` is the program and is never a key).
pub fn arg_in(args: &[String], name: &str) -> (res: Option<String>)
    ensures
        match res {
            Some(v) => arg_value(views(args@), name@) == Some(v@),
            None => arg_value(views(args@), name@) is None,
        },
{
    let ghost a = views(args@);
    let mut i: usize = 1;
    while i < args.len()
        invariant
            1 <= i,
            a == views(args@),
            i <= args.len() || args.len() < 1,
            first_from(a, name@, 1) == first_from(a, name@, i as int),
        decreases args.len() - i,
    {
        assert(a[i as int] == args@[i as int]@);
        if same_text(args[i].as_str(), name) {
            proof {
                assert(first_from(a, name@, i as int) == i);
            }
            if i + 1 < args.len() {
                assert(a[i + 1] == args@[i + 1]@);
                return Some(args[i + 1].clone());
            } else {
                return None;
            }
        }
        i = i + 1;
    }
    proof {
        lemma_first_from_bounds(a, name@, 1);
    }
    None
}

/// Resolution of launch parameters against one configuration file.
pub struct Resolver {
    /// Path of the configuration file that was read; `None` — there was none.
    pub file: Option<String>,
}

/// What [`Resolver::get`] decides, over plain values: the argument wins, then
/// a non-empty environment value, then the file's value.
pub open spec fn resolved(
    file: Option<Seq<char>>,
    arg_name: Seq<char>,
    env_name: Seq<char>,
    from_file: Option<Seq<char>>,
    args: Seq<Seq<char>>,
    env_value: Option<Seq<char>>,
) -> Option<(Seq<char>, SourceModel)> {
    match arg_value(args, arg_name) {
        Some(v) => Some((v, SourceModel::Arg(arg_name))),
        None => match env_value {
            Some(v) if v.len() > 0 => Some((v, SourceModel::Env(env_name))),
            _ => match from_file {
                Some(v) => Some(
                    (
                        v,
                        SourceModel::File(
                            match file {
                                Some(p) => p,
                                None => Seq::<char>::empty(),
                            },
                        ),
                    ),
                ),
                None => None,
            },
        },
    }
}

/// A setting as the pair of its value and its source.
pub open spec fn setting_model(s: Setting) -> (Seq<char>, SourceModel) {
    (s.value@, s.source@)
}

/// An optional string as an optional character sequence.
pub open spec fn opt_view(o: Option<String>) -> Option<Seq<char>> {
    match o {
        Some(s) => Some(s@),
        None => None,
    }
}

impl Resolver {
    pub fn new(file: Option<String>) -> (res: Self)
        ensures
            res.file == file,
    {
        Resolver { file }
    }

    /// The value of a key by priority: argument `arg_name` in `args`, then
    /// `env_value` (the value of the variable `env_name`, as the caller read
    /// it) when it is not empty, then `from_file`; `None` when none gives one.
    pub fn get(
        &self,
        arg_name: &str,
        env_name: &str,
        from_file: Option<String>,
        args: &[String],
        env_value: Option<String>,
    ) -> (res: Option<Setting>)
        ensures
            match res {
                Some(s) => resolved(opt_view(self.file), arg_name@, env_name@, opt_view(from_file), views(args@), opt_view(env_value)) == Some(setting_model(s)),
                None => resolved(opt_view(self.file), arg_name@, env_name@, opt_view(from_file), views(args@), opt_view(env_value)) is None,
            },
    {
        match arg_in(args, arg_name) {
            Some(value) => {
                return Some(Setting { value, source: Source::Arg(String::from_str(arg_name)) });
            },
            None => {},
        }
        match env_value {
            Some(value) => {
                if value.as_str().unicode_len() > 0 {
                    return Some(Setting { value, source: Source::Env(String::from_str(env_name)) });
                }
            },
            None => {},
        }
        match from_file {
            Some(value) => {
                let path = match &self.file {
                    Some(p) => p.clone(),
                    None => String::new(),
                };
                Some(Setting { value, source: Source::File(path) })
            },
            None => None,
        }
    }

    /// The same with a default: the parameter is optional.
    pub fn get_or(
        &self,
        arg_name: &str,
        env_name: &str,
        from_file: Option<String>,
        default: &str,
        args: &[String],
        env_value: Option<String>,
    ) -> (res: Setting)
        ensures
            setting_model(res) == match resolved(opt_view(self.file), arg_name@, env_name@, opt_view(from_file), views(args@), opt_view(env_value)) {
                Some(p) => p,
                None => (default@, SourceModel::Default),
            },
    {
        match self.get(arg_name, env_name, from_file, args, env_value) {
            Some(s) => s,
            None => Setting { value: String::from_str(default), source: Source::Default },
        }
    }

    /// The same for a required parameter: no source — [`Missing`] naming every
    /// place where it can be set.
    pub fn require(
        &self,
        key: &str,
        arg_name: &str,
        env_name: &str,
        from_file: Option<String>,
        file_hint: &str,
        args: &[String],
        env_value: Option<String>,
    ) -> (res: Result<Setting, Missing>)
        ensures
            match res {
                Ok(s) => resolved(opt_view(self.file), arg_name@, env_name@, opt_view(from_file), views(args@), opt_view(env_value)) == Some(setting_model(s)),
                Err(m) => resolved(opt_view(self.file), arg_name@, env_name@, opt_view(from_file), views(args@), opt_view(env_value)) is None
                    && m.key@ == key@ && m.arg@ == arg_name@ && m.env@ == env_name@ && m.file_hint@ == file_hint@,
            },
    {
        match self.get(arg_name, env_name, from_file, args, env_value) {
            Some(s) => Ok(s),
            None => Err(Missing {
                key: String::from_str(key),
                arg: String::from_str(arg_name),
                env: String::from_str(env_name),
                file_hint: String::from_str(file_hint),
            }),
        }
    }
}

/// The mask of a secret for the log: `itcool` → `itc***`.
pub fn mask(secret: &str) -> (res: String)
    ensures
        res@ == masked(secret@),
{
    let cs = chars_of(secret);
    if cs.len() < 4 {
        return String::from_str("***");
    }
    let mut out: Vec<char> = Vec::new();
    out.push(cs[0]);
    out.push(cs[1]);
    out.push(cs[2]);
    push_str(&mut out, "***");
    assert(out@.take(3) =~= secret@.take(3));
    assert(out@ =~= secret@.take(3) + "***"@);
    string_of(&out)
}

/// The text without a leading byte-order mark, and whether there was one.
pub fn strip_bom(content: &str) -> (res: (&str, bool))
    ensures
        res.1 == (content@.len() > 0 && content@[0] == '\u{feff}'),
        res.0@ == if res.1 { content@.drop_first() } else { content@ },
{
    let n = content.unicode_len();
    if n > 0 && content.get_char(0) == '\u{feff}' {
        let rest = content.substring_char(1, n);
        assert(rest@ =~= content@.drop_first());
        (rest, true)
    } else {
        (content, false)
    }
}

} // verus!
