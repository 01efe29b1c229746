//! The built index kept between runs. Taking the help apart costs seconds, and
//! an MCP host starts the server as a child process on every connection; the
//! cache is valid while the platform version, the help language and the help
//! books it was built from stay the same.

use vstd::prelude::*;
use crate::lang::HelpLang;
use crate::platform::{join_path, joined, Platform};
use crate::text::{push_str, same_text, string_of};

verus! {

/// The print of one help book.
#[derive(Debug, Clone, PartialEq, Eq)]
pub struct SourceStamp {
    pub name: String,
    pub size: u64,
    /// Modification time in Unix seconds; `None` when the file system did not say.
    pub mtime: Option<u64>,
}

/// What decides whether a cache is still valid.
#[derive(Debug, Clone, PartialEq, Eq)]
pub struct Meta {
    pub platform_version: String,
    pub help_language: String,
    pub sources: Vec<SourceStamp>,
}

pub open spec fn stamp_view(s: SourceStamp) -> (Seq<char>, u64, Option<u64>) {
    (s.name@, s.size, s.mtime)
}

pub open spec fn meta_view(m: Meta) -> (Seq<char>, Seq<char>, Seq<(Seq<char>, u64, Option<u64>)>) {
    (m.platform_version@, m.help_language@, m.sources@.map_values(|s: SourceStamp| stamp_view(s)))
}

/// The directory of the cache under a base directory of caches.
pub open spec fn cache_root_of(base: Seq<char>) -> Seq<char> {
    joined(base, "itcoolmcplang1c"@)
}

/// The cache directory under `base` (the local application data on Windows,
/// `~/.cache` elsewhere); `None` when there is no base.
pub fn cache_root(base: Option<&str>) -> (res: Option<String>)
    ensures
        crate::platform::string_opt(res) == match crate::platform::str_opt(base) {
            Some(b) => Some(cache_root_of(b)),
            None => None,
        },
{
    match base {
        Some(b) => Some(join_path(b, "itcoolmcplang1c")),
        None => None,
    }
}

/// The cache file of one platform version and help language.
pub open spec fn cache_file_of(root: Seq<char>, lang: HelpLang, version: Seq<char>) -> Seq<char> {
    joined(root, "index-"@ + lang.code@ + "-"@ + version + ".json"@)
}

/// The cache file of a platform version and help language under the cache
/// directory; `None` when there is no cache directory.
pub fn path_for(root: Option<&str>, platform: &Platform, lang: &HelpLang) -> (res: Option<String>)
    ensures
        crate::platform::string_opt(res) == match crate::platform::str_opt(root) {
            Some(r) => Some(cache_file_of(r, *lang, platform.version@)),
            None => None,
        },
{
    match root {
        Some(r) => {
            let mut name: Vec<char> = Vec::new();
            push_str(&mut name, "index-");
            push_str(&mut name, lang.code);
            push_str(&mut name, "-");
            push_str(&mut name, platform.version.as_str());
            push_str(&mut name, ".json");
            let file = string_of(&name);
            Some(join_path(r, file.as_str()))
        },
        None => None,
    }
}

/// The print of a platform's help: its version, the language and the prints
/// of the books (taken from the file system by the caller).
pub fn meta_for(platform: &Platform, lang: &HelpLang, sources: Vec<SourceStamp>) -> (res: Meta)
    ensures
        res.platform_version@ == platform.version@,
        res.help_language@ == lang.code@,
        res.sources@ == sources@,
{
    Meta {
        platform_version: platform.version.clone(),
        help_language: String::from_str(lang.code),
        sources,
    }
}

fn same_stamp(a: &SourceStamp, b: &SourceStamp) -> (res: bool)
    ensures
        res == (stamp_view(*a) == stamp_view(*b)),
{
    same_text(a.name.as_str(), b.name.as_str()) && a.size == b.size && match (a.mtime, b.mtime) {
        (Some(x), Some(y)) => x == y,
        (None, None) => true,
        _ => false,
    }
}

/// Whether two prints are the same: a cache whose print differs from the
/// platform's is stale and gets rebuilt.
pub fn same_meta(a: &Meta, b: &Meta) -> (res: bool)
    ensures
        res == (meta_view(*a) == meta_view(*b)),
{
    let ghost av = meta_view(*a);
    let ghost bv = meta_view(*b);
    if !same_text(a.platform_version.as_str(), b.platform_version.as_str())
        || !same_text(a.help_language.as_str(), b.help_language.as_str())
        || a.sources.len() != b.sources.len() {
        proof {
            if av == bv {
                assert(av.2.len() == bv.2.len());
            }
        }
        return false;
    }
    let mut i: usize = 0;
    while i < a.sources.len()
        invariant
            0 <= i <= a.sources@.len(),
            a.sources@.len() == b.sources@.len(),
            av == meta_view(*a),
            bv == meta_view(*b),
            av.0 == bv.0 && av.1 == bv.1,
            forall|j: int| 0 <= j < i ==> av.2[j] == bv.2[j],
        decreases a.sources@.len() - i,
    {
        if !same_stamp(&a.sources[i], &b.sources[i]) {
            proof {
                assert(av.2[i as int] != bv.2[i as int]);
            }
            return false;
        }
        i = i + 1;
    }
    assert(av.2 =~= bv.2);
    true
}

} // verus!
