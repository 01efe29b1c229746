//! Start-up decisions of the server: the transport mode and where the platform
//! help comes from.

use vstd::prelude::*;
use crate::config::KnowledgeConfig;
use crate::lang::HelpLang;
use crate::platform::{from_dir, not_found_hint, Platform};
use crate::text::{push_str, string_of};
use crate::knowledge::{with_document, KnowledgeBase};
use crate::progress::{Outcome, Progress};
use crate::schema::Document;

verus! {

/// The refusal of a mode that no longer exists.
pub open spec fn unsupported_text(mode: Seq<char>) -> Seq<char> {
    "ru: Режим [server] mode = \""@ + mode
        + "\" не поддерживается: HTTP-транспорт удалён, сервер работает только по stdio. Поставьте mode = \"stdio\" или уберите ключ, en: Mode [server] mode = \""@
        + mode
        + "\" is not supported: the HTTP transport has been removed, the server speaks stdio only. Set mode = \"stdio\" or drop the key"@
}

/// The text refusing a mode that no longer exists.
pub fn unsupported_mode(mode: &str) -> (res: String)
    ensures
        res@ == unsupported_text(mode@),
{
    let mut out: Vec<char> = Vec::new();
    push_str(&mut out, "ru: Режим [server] mode = \"");
    push_str(&mut out, mode);
    push_str(&mut out, "\" не поддерживается: HTTP-транспорт удалён, сервер работает только по stdio. Поставьте mode = \"stdio\" или уберите ключ, en: Mode [server] mode = \"");
    push_str(&mut out, mode);
    push_str(&mut out, "\" is not supported: the HTTP transport has been removed, the server speaks stdio only. Set mode = \"stdio\" or drop the key");
    string_of(&out)
}

/// Only `stdio` runs; any other mode is refused with its text.
pub fn validate_mode(mode: &str) -> (res: Result<(), String>)
    ensures
        match res {
            Ok(()) => mode@ == "stdio"@,
            Err(m) => mode@ != "stdio"@ && m@ == unsupported_text(mode@),
        },
{
    if crate::text::same_text(mode, "stdio") {
        Ok(())
    } else {
        Err(unsupported_mode(mode))
    }
}

/// The platform to build from: the configured directory when there is one
/// (`in_dir` and `in_bin` tell where its entry book lies, see
/// [`crate::platform::book_places`]), else the installation found in the
/// standard places (`discovered`), else the hint naming where it was looked
/// for (`roots`).
pub fn resolve_platform(
    knowledge: &KnowledgeConfig,
    help_lang: &HelpLang,
    discovered: Option<Platform>,
    roots: &[String],
    in_dir: bool,
    in_bin: bool,
) -> (res: Result<Platform, String>)
    ensures
        knowledge.platform_dir is None ==> match discovered {
            Some(p) => res == Ok::<Platform, String>(p),
            None => res matches Err(m) && m@ == crate::platform::not_found_text(
                "shcntx_"@ + help_lang.suffix@ + ".hbk"@,
                crate::platform::joined_with(roots@.map_values(|s: String| s@), ", "@),
            ),
        },
        knowledge.platform_dir matches Some(dir) ==> crate::platform::gives(
            res,
            crate::platform::platform_of(dir@, *help_lang, crate::platform::string_opt(knowledge.platform_version), in_dir, in_bin),
        ),
{
    match &knowledge.platform_dir {
        Some(dir) => {
            let hint = match &knowledge.platform_version {
                Some(v) => Some(v.as_str()),
                None => None,
            };
            from_dir(dir.as_str(), help_lang, hint, in_dir, in_bin)
        },
        None => match discovered {
            Some(p) => Ok(p),
            None => Err(not_found_hint(help_lang, roots)),
        },
    }
}

/// The refusal of an unknown help language, which the tools answer with.
pub open spec fn unknown_language_text(code: Seq<char>) -> Seq<char> {
    "Неизвестный язык справки «"@ + code + "». Поддерживаются: ru, en."@
}

/// The refusal of an unknown help language.
pub fn unknown_language(code: &str) -> (res: String)
    ensures
        res@ == unknown_language_text(code@),
{
    let mut out: Vec<char> = Vec::new();
    push_str(&mut out, "Неизвестный язык справки «");
    push_str(&mut out, code);
    push_str(&mut out, "». Поддерживаются: ru, en.");
    string_of(&out)
}

/// What a self-build does with the cache it found: a cached index goes into
/// the base, which is then ready (`true`); without one the build starts.
pub fn adopt_cached(kb: &mut KnowledgeBase, progress: &mut Progress, cached: Option<Document>) -> (res: bool)
    ensures
        res == cached is Some,
        match cached {
            Some(doc) => final(kb).docs() == with_document(old(kb).docs(), doc)
                && final(kb).relations() == crate::graph::with_relationships(old(kb).relations(), doc.relationships@)
                && final(progress).current() == Outcome::Ready,
            None => *final(kb) == *old(kb)
                && final(progress).current() == Outcome::Building,
        },
        final(progress).percent() == old(progress).percent(),
        final(progress).stage() == old(progress).stage(),
{
    match cached {
        Some(doc) => {
            let _ = kb.add_document(doc);
            progress.set_outcome(Outcome::Ready);
            true
        },
        None => {
            progress.set_outcome(Outcome::Building);
            false
        },
    }
}

/// What a finished build leaves: its document in the base and the base ready,
/// or the failure with its reason — the tools then answer with it.
pub fn adopt_built(kb: &mut KnowledgeBase, progress: &mut Progress, built: Result<Document, String>)
    ensures
        match built {
            Ok(doc) => final(kb).docs() == with_document(old(kb).docs(), doc)
                && final(kb).relations() == crate::graph::with_relationships(old(kb).relations(), doc.relationships@)
                && final(progress).current() == Outcome::Ready,
            Err(reason) => *final(kb) == *old(kb)
                && final(progress).current() == Outcome::Failed(reason),
        },
        final(progress).percent() == old(progress).percent(),
        final(progress).stage() == old(progress).stage(),
{
    match built {
        Ok(doc) => {
            let _ = kb.add_document(doc);
            progress.set_outcome(Outcome::Ready);
        },
        Err(reason) => {
            progress.set_outcome(Outcome::Failed(reason));
        },
    }
}

} // verus!
