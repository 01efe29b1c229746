//! An installation of the 1C platform as the source of help: its `bin`
//! directory and its version.

use vstd::prelude::*;
use crate::lang::HelpLang;
use crate::text::{
    chars_of, debug_quoted, debug_text, parse_u64, parse_u64_chars, push_chars, push_str, same_chars,
    same_text, split_chars, split_on, string_of,
};

verus! {

/// The `bin` directory of an installation and the installation's version.
#[derive(Debug, Clone)]
pub struct Platform {
    pub bin_dir: String,
    /// The full version of the installation, such as `8.3.27.1936`.
    pub version: String,
}

/// The position of the `n`-th occurrence (counting from 1) of `c` at or after `i`.
pub open spec fn nth_index(s: Seq<char>, c: char, n: nat, i: int) -> Option<int>
    decreases s.len() - i,
{
    if i < 0 || i >= s.len() || n == 0 {
        None
    } else if s[i] == c {
        if n == 1 { Some(i) } else { nth_index(s, c, (n - 1) as nat, i + 1) }
    } else {
        nth_index(s, c, n, i + 1)
    }
}

/// The first three dot-separated components of a version, joined by dots.
pub open spec fn three_components(v: Seq<char>) -> Seq<char> {
    match nth_index(v, '.', 3, 0) {
        Some(j) => v.take(j),
        None => v,
    }
}

/// `dir` joined with a relative `name` by `/`, as `Path::join` does.
pub open spec fn joined(dir: Seq<char>, name: Seq<char>) -> Seq<char> {
    if dir.len() == 0 {
        name
    } else if dir.last() == '/' {
        dir + name
    } else {
        dir + "/"@ + name
    }
}

/// `dir` joined with a relative `name`.
pub fn join_path(dir: &str, name: &str) -> (res: String)
    ensures
        res@ == joined(dir@, name@),
{
    let d = chars_of(dir);
    let mut out: Vec<char> = Vec::new();
    push_chars(&mut out, &d);
    if d.len() > 0 && d[d.len() - 1] != '/' {
        out.push('/');
        proof {
            reveal_strlit("/");
            assert(out@ =~= dir@ + "/"@);
        }
    }
    push_str(&mut out, name);
    string_of(&out)
}

impl Platform {
    /// The version the knowledge base uses: three components, `8.3.27`.
    pub fn document_version(&self) -> (res: String)
        ensures
            res@ == three_components(self.version@),
    {
        let v = chars_of(self.version.as_str());
        let mut seen: usize = 0;
        let mut i: usize = 0;
        while i < v.len()
            invariant
                0 <= i <= v@.len(),
                v@ == self.version@,
                seen < 3,
                nth_index(v@, '.', 3, 0) == nth_index(v@, '.', (3 - seen) as nat, i as int),
            decreases v@.len() - i,
        {
            if v[i] == '.' {
                if seen == 2 {
                    let mut out: Vec<char> = Vec::new();
                    push_chars(&mut out, &v[0..i]);
                    assert(out@ =~= v@.take(i as int));
                    return string_of(&out);
                }
                seen = seen + 1;
            }
            i = i + 1;
        }
        string_of(&v)
    }

    /// The books of the language that are in the `bin` directory, given which
    /// of the candidates (see [`Self::book_candidates`]) are files there (the
    /// caller looks on disk): the entry book first, then the language books,
    /// in table order.
    pub fn help_books(&self, lang: &HelpLang, present: &[bool]) -> (res: Vec<String>)
        requires
            present@.len() == 4,
        ensures
            res@.map_values(|s: String| s@) == kept(candidate_books(self.bin_dir@, *lang), present@),
    {
        let candidates = book_paths(self.bin_dir.as_str(), lang);
        let ghost all = candidate_books(self.bin_dir@, *lang);
        let mut out: Vec<String> = Vec::new();
        let mut i: usize = 0;
        proof {
            assert(all.take(0) =~= Seq::<Seq<char>>::empty());
            assert(out@.map_values(|s: String| s@) =~= Seq::<Seq<char>>::empty());
        }
        while i < candidates.len()
            invariant
                0 <= i <= candidates@.len(),
                candidates@.len() == 4,
                present@.len() == 4,
                all == candidate_books(self.bin_dir@, *lang),
                forall|k: int| 0 <= k < candidates@.len() ==> #[trigger] candidates@[k]@ == all[k],
                out@.map_values(|s: String| s@) == kept(all.take(i as int), present@),
            decreases candidates@.len() - i,
        {
            proof {
                assert(all.take(i + 1).drop_last() =~= all.take(i as int));
                assert(all.take(i + 1).last() == all[i as int]);
            }
            let ghost before = out@;
            if present[i] {
                let p = candidates[i].clone();
                out.push(p);
                proof {
                    assert(out@.map_values(|s: String| s@) =~= before.map_values(|s: String| s@).push(all[i as int]));
                }
            }
            i = i + 1;
        }
        proof {
            assert(all.take(4) =~= all);
        }
        out
    }

    /// The help books the language may have in the `bin` directory, in the
    /// order [`Self::help_books`] takes its flags.
    pub fn book_candidates(&self, lang: &HelpLang) -> (res: Vec<String>)
        ensures
            res@.map_values(|s: String| s@) == candidate_books(self.bin_dir@, *lang),
    {
        let out = book_paths(self.bin_dir.as_str(), lang);
        assert(out@.map_values(|s: String| s@) =~= candidate_books(self.bin_dir@, *lang));
        out
    }
}

/// The items whose flag is set, in order.
pub open spec fn kept(items: Seq<Seq<char>>, keep: Seq<bool>) -> Seq<Seq<char>>
    decreases items.len(),
{
    if items.len() == 0 {
        Seq::empty()
    } else {
        let rest = kept(items.drop_last(), keep);
        if keep[items.len() - 1] { rest.push(items.last()) } else { rest }
    }
}

/// The help books a language may have in a `bin` directory.
pub open spec fn candidate_books(bin: Seq<char>, lang: HelpLang) -> Seq<Seq<char>> {
    seq![
        joined(bin, "shcntx_"@ + lang.suffix@ + ".hbk"@),
        joined(bin, lang.books[0].stem@ + "_"@ + lang.suffix@ + ".hbk"@),
        joined(bin, lang.books[1].stem@ + "_"@ + lang.suffix@ + ".hbk"@),
        joined(bin, lang.books[2].stem@ + "_"@ + lang.suffix@ + ".hbk"@),
    ]
}

fn book_paths(bin: &str, lang: &HelpLang) -> (res: Vec<String>)
    ensures
        res@.len() == 4,
        forall|k: int| 0 <= k < 4 ==> #[trigger] res@[k]@ == candidate_books(bin@, *lang)[k],
{
    let mut out: Vec<String> = Vec::new();
    let entry = lang.context_book();
    out.push(join_path(bin, entry.as_str()));
    let b0 = lang.books[0].file_name(lang);
    out.push(join_path(bin, b0.as_str()));
    let b1 = lang.books[1].file_name(lang);
    out.push(join_path(bin, b1.as_str()));
    let b2 = lang.books[2].file_name(lang);
    out.push(join_path(bin, b2.as_str()));
    out
}

/// The path segments of `p`: the parts between `/`, without empty and `.` parts.
pub open spec fn segments_from(p: Seq<char>, start: int, i: int) -> Seq<Seq<char>>
    decreases p.len() - i,
{
    if i < start || i > p.len() {
        Seq::empty()
    } else if i == p.len() || p[i] == '/' {
        let part = p.subrange(start, i);
        let rest = if i == p.len() { Seq::empty() } else { segments_from(p, i + 1, i + 1) };
        if part.len() == 0 || part == "."@ { rest } else { seq![part] + rest }
    } else {
        segments_from(p, start, i + 1)
    }
}

pub open spec fn segments(p: Seq<char>) -> Seq<Seq<char>> {
    segments_from(p, 0, 0)
}

/// Whether a character separates path segments on Windows, where both do.
pub open spec fn win_separator(c: char) -> bool {
    c == '/' || c == '\\'
}

/// The segments of a Windows path from a segment that began at `start`,
/// scanning at `i`: the parts between separators of either kind, without
/// empty and `.` parts.
pub open spec fn win_segments_from(p: Seq<char>, start: int, i: int) -> Seq<Seq<char>>
    decreases p.len() - i,
{
    if i < start || i > p.len() {
        Seq::empty()
    } else if i == p.len() || win_separator(p[i]) {
        let part = p.subrange(start, i);
        let rest = if i == p.len() { Seq::empty() } else { win_segments_from(p, i + 1, i + 1) };
        if part.len() == 0 || part == "."@ { rest } else { seq![part] + rest }
    } else {
        win_segments_from(p, start, i + 1)
    }
}

pub open spec fn win_segments(p: Seq<char>) -> Seq<Seq<char>> {
    win_segments_from(p, 0, 0)
}

/// A directory name that reads as a version: dot-separated runs of digits, at
/// least two of them.
pub open spec fn looks_like_version(name: Seq<char>) -> bool {
    &&& name.len() > 0
    &&& exists|i: int| 0 <= i < name.len() && name[i] == '.'
    &&& forall|i: int| 0 <= i < name.len() ==> ('0' <= #[trigger] name[i] <= '9' || name[i] == '.')
    &&& name[0] != '.'
    &&& name.last() != '.'
    &&& forall|i: int| 0 <= i < name.len() - 1 ==> !(#[trigger] name[i] == '.' && name[i + 1] == '.')
}

/// The version taken from a path: the name of the directory above `bin` (or of
/// the directory itself), if it reads as a version. The segments are split at
/// `\` too, so that a Windows installation path gives its version.
pub open spec fn detected_version(bin_dir: Seq<char>) -> Option<Seq<char>> {
    let s = win_segments(bin_dir);
    let s2 = if s.len() > 0 && s.last() == "bin"@ { s.drop_last() } else { s };
    if s2.len() == 0 || s2.last() == ".."@ || !looks_like_version(s2.last()) {
        None
    } else {
        Some(s2.last())
    }
}

pub fn segments_exec(p: &[char]) -> (res: Vec<Vec<char>>)
    ensures
        res@.len() == segments(p@).len(),
        forall|k: int| 0 <= k < res@.len() ==> #[trigger] res@[k]@ == segments(p@)[k],
{
    let mut out: Vec<Vec<char>> = Vec::new();
    let mut start: usize = 0;
    let mut i: usize = 0;
    let ghost mut done: Seq<Seq<char>> = Seq::empty();
    while i < p.len()
        invariant
            0 <= start <= i <= p@.len(),
            out@.len() == done.len(),
            forall|k: int| 0 <= k < out@.len() ==> #[trigger] out@[k]@ == done[k],
            done + segments_from(p@, start as int, i as int) == segments(p@),
        decreases p@.len() - i,
    {
        if p[i] == '/' {
            let part = &p[start..i];
            let is_dot = part.len() == 1 && part[0] == '.';
            proof {
                reveal_strlit(".");
                assert(part@ == p@.subrange(start as int, i as int));
                assert(is_dot == (part@ == "."@)) by {
                    if part@ == "."@ {
                        assert(part@.len() == 1 && part@[0] == '.');
                    }
                    if is_dot {
                        assert(part@ =~= "."@);
                    }
                }
            }
            if part.len() > 0 && !is_dot {
                let mut seg: Vec<char> = Vec::new();
                push_chars(&mut seg, part);
                out.push(seg);
                proof {
                    done = done.push(part@);
                }
            }
            start = i + 1;
        }
        i = i + 1;
    }
    let part = &p[start..p.len()];
    let is_dot = part.len() == 1 && part[0] == '.';
    proof {
        reveal_strlit(".");
        assert(part@ == p@.subrange(start as int, p@.len() as int));
        assert(is_dot == (part@ == "."@)) by {
            if part@ == "."@ {
                assert(part@.len() == 1 && part@[0] == '.');
            }
            if is_dot {
                assert(part@ =~= "."@);
            }
        }
    }
    if part.len() > 0 && !is_dot {
        let mut seg: Vec<char> = Vec::new();
        push_chars(&mut seg, part);
        out.push(seg);
        proof {
            done = done.push(part@);
        }
    }
    proof {
        assert(done =~= segments(p@));
    }
    out
}

/// The segments of a path split at either separator.
pub fn win_segments_exec(p: &[char]) -> (res: Vec<String>)
    ensures
        res@.map_values(|s: String| s@) == win_segments(p@),
{
    let mut out: Vec<String> = Vec::new();
    let mut start: usize = 0;
    let mut i: usize = 0;
    let ghost mut done: Seq<Seq<char>> = Seq::empty();
    while i < p.len()
        invariant
            0 <= start <= i <= p@.len(),
            out@.map_values(|s: String| s@) == done,
            done + win_segments_from(p@, start as int, i as int) == win_segments(p@),
        decreases p@.len() - i,
    {
        if p[i] == '/' || p[i] == '\\' {
            let part = &p[start..i];
            let is_dot = part.len() == 1 && part[0] == '.';
            proof {
                reveal_strlit(".");
                assert(part@ == p@.subrange(start as int, i as int));
                assert(is_dot == (part@ == "."@)) by {
                    if part@ == "."@ {
                        assert(part@.len() == 1 && part@[0] == '.');
                    }
                    if is_dot {
                        assert(part@ =~= "."@);
                    }
                }
            }
            if part.len() > 0 && !is_dot {
                let ghost before = out@;
                out.push(string_of(part));
                proof {
                    assert(out@.map_values(|s: String| s@) =~= before.map_values(|s: String| s@).push(part@));
                    done = done.push(part@);
                }
            }
            start = i + 1;
        }
        i = i + 1;
    }
    let part = &p[start..p.len()];
    let is_dot = part.len() == 1 && part[0] == '.';
    proof {
        reveal_strlit(".");
        assert(part@ == p@.subrange(start as int, p@.len() as int));
        assert(is_dot == (part@ == "."@)) by {
            if part@ == "."@ {
                assert(part@.len() == 1 && part@[0] == '.');
            }
            if is_dot {
                assert(part@ =~= "."@);
            }
        }
    }
    if part.len() > 0 && !is_dot {
        let ghost before = out@;
        out.push(string_of(part));
        proof {
            assert(out@.map_values(|s: String| s@) =~= before.map_values(|s: String| s@).push(part@));
            done = done.push(part@);
        }
    }
    proof {
        assert(done =~= win_segments(p@));
    }
    out
}

fn looks_like_version_exec(name: &[char]) -> (res: bool)
    ensures
        res == looks_like_version(name@),
{
    let n = name.len();
    if n == 0 || name[0] == '.' || name[n - 1] == '.' {
        return false;
    }
    let mut has_dot = false;
    let mut i: usize = 0;
    while i < n
        invariant
            0 <= i <= n,
            n == name@.len(),
            n > 0,
            name@[0] != '.',
            name@[n - 1] != '.',
            has_dot == (exists|k: int| 0 <= k < i && name@[k] == '.'),
            forall|k: int| 0 <= k < i ==> ('0' <= #[trigger] name@[k] <= '9' || name@[k] == '.'),
            forall|k: int| 0 <= k < i && k + 1 < n ==> !(#[trigger] name@[k] == '.' && name@[k + 1] == '.'),
        decreases n - i,
    {
        let c = name[i];
        if !(('0' <= c && c <= '9') || c == '.') {
            return false;
        }
        if c == '.' && i + 1 < n && name[i + 1] == '.' {
            assert(name@[i as int] == '.' && name@[i + 1] == '.');
            return false;
        }
        if c == '.' {
            has_dot = true;
        }
        i = i + 1;
    }
    has_dot
}

/// The version seen in a `bin` path: the name of the directory above `bin`,
/// if it reads as a version number.
pub fn detect_version(bin_dir: &str) -> (res: Option<String>)
    ensures
        match res {
            Some(v) => detected_version(bin_dir@) == Some(v@),
            None => detected_version(bin_dir@) is None,
        },
{
    let p = chars_of(bin_dir);
    let segs = win_segments_exec(&p);
    let ghost s = win_segments(bin_dir@);
    assert(segs@.map_values(|x: String| x@) == s);
    let mut n = segs.len();
    proof {
        reveal_strlit("bin");
        reveal_strlit("..");
    }
    if n > 0 && same_text(segs[n - 1].as_str(), "bin") {
        n = n - 1;
    }
    let ghost s2 = if s.len() > 0 && s.last() == "bin"@ { s.drop_last() } else { s };
    assert(s2.len() == n);
    if n == 0 {
        return None;
    }
    let name = chars_of(segs[n - 1].as_str());
    assert(name@ == s2.last());
    if same_text(segs[n - 1].as_str(), "..") || !looks_like_version_exec(&name) {
        return None;
    }
    Some(string_of(&name))
}

/// The numeric components of a dotted version; empty when any component is not
/// a number.
pub open spec fn version_numbers(v: Seq<char>) -> Seq<u64> {
    let parts = split_on(v, '.');
    if forall|k: int| 0 <= k < parts.len() ==> (#[trigger] parse_u64(parts[k])) is Some {
        parts.map_values(|p: Seq<char>| parse_u64(p).unwrap())
    } else {
        Seq::empty()
    }
}

/// The key by which versions compare: numeric components, so that `8.3.9` is
/// older than `8.3.27`.
pub fn version_key(version: &str) -> (res: Vec<u64>)
    ensures
        res@ == version_numbers(version@),
{
    let v = chars_of(version);
    let parts = split_chars(&v, '.');
    let ghost sp = split_on(version@, '.');
    let mut out: Vec<u64> = Vec::new();
    let mut i: usize = 0;
    while i < parts.len()
        invariant
            0 <= i <= parts@.len(),
            v@ == version@,
            sp == split_on(version@, '.'),
            parts@.len() == sp.len(),
            forall|k: int| 0 <= k < parts@.len() ==> #[trigger] parts@[k]@ == sp[k],
            out@.len() == i,
            forall|k: int| 0 <= k < i ==> (#[trigger] parse_u64(sp[k])) == Some(out@[k]),
        decreases parts@.len() - i,
    {
        match parse_u64_chars(&parts[i]) {
            Some(n) => {
                out.push(n);
            },
            None => {
                assert(parse_u64(sp[i as int]) is None);
                return Vec::new();
            },
        }
        i = i + 1;
    }
    assert(out@ =~= sp.map_values(|p: Seq<char>| parse_u64(p).unwrap()));
    out
}

/// Why a directory is refused as a platform: no help book in it or in its `bin`.
pub open spec fn no_book_message(dir: Seq<char>, book: Seq<char>, code: Seq<char>) -> Seq<char> {
    "ru: В каталоге "@ + debug_text(dir) + " нет файла справки "@ + book + " (язык "@ + code
        + "), en: No help file "@ + book + " (language "@ + code + ") in "@ + debug_text(dir)
}

/// Why a platform has no version: none was given and the path shows none.
pub open spec fn no_version_message(bin: Seq<char>) -> Seq<char> {
    "ru: Версию платформы не видно из пути "@ + debug_text(bin)
        + ": укажите --platform-version <версия>, en: Cannot detect platform version from "@
        + debug_text(bin) + ": pass --platform-version <version>"@
}

/// The characters of an optional string slice.
pub open spec fn str_opt(o: Option<&str>) -> Option<Seq<char>> {
    match o {
        Some(s) => Some(s@),
        None => None,
    }
}

/// The characters of an optional string.
pub open spec fn string_opt(o: Option<String>) -> Option<Seq<char>> {
    match o {
        Some(s) => Some(s@),
        None => None,
    }
}

/// The platform a directory names, given where its entry book was found: in
/// the directory itself (`in_dir`) or in its `bin` (`in_bin`).
pub open spec fn platform_of(
    dir: Seq<char>,
    lang: HelpLang,
    version_hint: Option<Seq<char>>,
    in_dir: bool,
    in_bin: bool,
) -> Result<(Seq<char>, Seq<char>), Seq<char>> {
    let book = "shcntx_"@ + lang.suffix@ + ".hbk"@;
    if !in_dir && !in_bin {
        Err(no_book_message(dir, book, lang.code@))
    } else {
        let bin = if in_dir { dir } else { joined(dir, "bin"@) };
        match version_hint {
            Some(v) if v.len() > 0 => Ok((bin, v)),
            _ => match detected_version(bin) {
                Some(v) => Ok((bin, v)),
                None => Err(no_version_message(bin)),
            },
        }
    }
}

/// A platform result is the modelled one.
pub open spec fn gives(res: Result<Platform, String>, model: Result<(Seq<char>, Seq<char>), Seq<char>>) -> bool {
    match res {
        Ok(p) => model == Ok::<(Seq<char>, Seq<char>), Seq<char>>((p.bin_dir@, p.version@)),
        Err(m) => model == Err::<(Seq<char>, Seq<char>), Seq<char>>(m@),
    }
}

/// The platform of a directory, given where its entry book lies (see
/// [`book_places`]): in the directory (`in_dir`), else in its `bin`
/// (`in_bin`).
pub fn from_dir(
    dir: &str,
    lang: &HelpLang,
    version_hint: Option<&str>,
    in_dir: bool,
    in_bin: bool,
) -> (res: Result<Platform, String>)
    ensures
        gives(res, platform_of(dir@, *lang, str_opt(version_hint), in_dir, in_bin)),
{
    let book = lang.context_book();
    if !in_dir && !in_bin {
        let d = chars_of(dir);
        let quoted = debug_quoted(&d);
        let mut msg: Vec<char> = Vec::new();
        push_str(&mut msg, "ru: В каталоге ");
        push_str(&mut msg, quoted.as_str());
        push_str(&mut msg, " нет файла справки ");
        push_str(&mut msg, book.as_str());
        push_str(&mut msg, " (язык ");
        push_str(&mut msg, lang.code);
        push_str(&mut msg, "), en: No help file ");
        push_str(&mut msg, book.as_str());
        push_str(&mut msg, " (language ");
        push_str(&mut msg, lang.code);
        push_str(&mut msg, ") in ");
        push_str(&mut msg, quoted.as_str());
        return Err(string_of(&msg));
    }
    let bin_dir = if in_dir { String::from_str(dir) } else { join_path(dir, "bin") };
    proof {
        reveal_strlit("bin");
    }
    match version_hint {
        Some(v) if v.unicode_len() > 0 => {
            return Ok(Platform { bin_dir, version: String::from_str(v) });
        },
        _ => {},
    }
    match detect_version(bin_dir.as_str()) {
        Some(version) => Ok(Platform { bin_dir, version }),
        None => {
            let b = chars_of(bin_dir.as_str());
            let quoted = debug_quoted(&b);
            let mut msg: Vec<char> = Vec::new();
            push_str(&mut msg, "ru: Версию платформы не видно из пути ");
            push_str(&mut msg, quoted.as_str());
            push_str(&mut msg, ": укажите --platform-version <версия>, en: Cannot detect platform version from ");
            push_str(&mut msg, quoted.as_str());
            push_str(&mut msg, ": pass --platform-version <version>");
            Err(string_of(&msg))
        },
    }
}

/// Where the entry book of the language may lie for a platform directory:
/// in the directory itself, else in its `bin`. The caller looks on disk and
/// hands the answers to [`from_dir`].
pub fn book_places(dir: &str, lang: &HelpLang) -> (res: (String, String))
    ensures
        res.0@ == joined(dir@, "shcntx_"@ + lang.suffix@ + ".hbk"@),
        res.1@ == joined(joined(dir@, "bin"@), "shcntx_"@ + lang.suffix@ + ".hbk"@),
{
    proof {
        reveal_strlit("bin");
    }
    let book = lang.context_book();
    let bin = join_path(dir, "bin");
    (join_path(dir, book.as_str()), join_path(bin.as_str(), book.as_str()))
}

/// The hint shown when no platform is found, naming the places searched.
pub open spec fn not_found_text(book: Seq<char>, roots: Seq<char>) -> Seq<char> {
    "Установка платформы 1С не найдена. Искали "@ + book + " внутри: "@ + roots
        + ". Укажите каталог bin явно: --platform-dir <путь> (или [knowledge] platform_dir в конфиге). Язык справки задаётся --help-lang ru|en."@
}

/// Items joined by a separator.
pub open spec fn joined_with(items: Seq<Seq<char>>, sep: Seq<char>) -> Seq<char>
    decreases items.len(),
{
    if items.len() == 0 {
        Seq::empty()
    } else if items.len() == 1 {
        items[0]
    } else {
        joined_with(items.drop_last(), sep) + sep + items.last()
    }
}

/// Strings joined by a separator.
pub fn join_strings(items: &[String], sep: &str) -> (res: String)
    ensures
        res@ == joined_with(items@.map_values(|s: String| s@), sep@),
{
    let ghost views = items@.map_values(|s: String| s@);
    let mut out: Vec<char> = Vec::new();
    let mut i: usize = 0;
    while i < items.len()
        invariant
            0 <= i <= items@.len(),
            views == items@.map_values(|s: String| s@),
            out@ == joined_with(views.take(i as int), sep@),
        decreases items@.len() - i,
    {
        if i > 0 {
            push_str(&mut out, sep);
        }
        push_str(&mut out, items[i].as_str());
        assert(views.take(i + 1).drop_last() =~= views.take(i as int));
        i = i + 1;
    }
    assert(views.take(items@.len() as int) =~= views);
    string_of(&out)
}

/// The hint shown when no installation is found; `roots` are the places that
/// were searched.
pub fn not_found_hint(lang: &HelpLang, roots: &[String]) -> (res: String)
    ensures
        res@ == not_found_text(
            "shcntx_"@ + lang.suffix@ + ".hbk"@,
            joined_with(roots@.map_values(|s: String| s@), ", "@),
        ),
{
    let book = lang.context_book();
    let listed = join_strings(roots, ", ");
    let mut out: Vec<char> = Vec::new();
    push_str(&mut out, "Установка платформы 1С не найдена. Искали ");
    push_str(&mut out, book.as_str());
    push_str(&mut out, " внутри: ");
    push_str(&mut out, listed.as_str());
    push_str(&mut out, ". Укажите каталог bin явно: --platform-dir <путь> (или [knowledge] platform_dir в конфиге). Язык справки задаётся --help-lang ru|en.");
    string_of(&out)
}

/// The newest installation among candidates — (name of the version
/// directory, its `bin`), for the directories whose `bin` holds the context
/// book, in the order they were found: a candidate whose name is not a dotted
/// number is passed over, versions compare by their numbers, and of equal
/// versions the one found last wins.
pub open spec fn latest_of(c: Seq<(Seq<char>, Seq<char>)>) -> Option<int>
    decreases c.len(),
{
    if c.len() == 0 {
        None
    } else {
        let rest = latest_of(c.drop_last());
        let k = version_numbers(c.last().0);
        if k.len() == 0 {
            rest
        } else {
            match rest {
                None => Some(c.len() - 1),
                Some(r) => if crate::knowledge::key_less(k, version_numbers(c[r].0)) { rest } else { Some(c.len() - 1) },
            }
        }
    }
}

proof fn lemma_latest_in_range(c: Seq<(Seq<char>, Seq<char>)>)
    ensures
        latest_of(c) matches Some(i) ==> 0 <= i < c.len() && version_numbers(c[i].0).len() > 0,
    decreases c.len(),
{
    if c.len() > 0 {
        lemma_latest_in_range(c.drop_last());
    }
}

/// The newest installation among the candidates found in the standard places.
pub fn discover(candidates: Vec<(String, String)>) -> (res: Option<Platform>)
    ensures
        match latest_of(candidates@.map_values(|p: (String, String)| (p.0@, p.1@))) {
            Some(i) => res matches Some(p) && p.version@ == candidates@[i].0@ && p.bin_dir@ == candidates@[i].1@,
            None => res is None,
        },
{
    let ghost cv = candidates@.map_values(|p: (String, String)| (p.0@, p.1@));
    let mut best: Option<usize> = None;
    let mut best_key: Vec<u64> = Vec::new();
    let mut i: usize = 0;
    while i < candidates.len()
        invariant
            0 <= i <= candidates@.len(),
            cv == candidates@.map_values(|p: (String, String)| (p.0@, p.1@)),
            latest_of(cv.take(i as int)) == match best { Some(b) => Some(b as int), None => None::<int> },
            best matches Some(b) ==> b < i && best_key@ == version_numbers(candidates@[b as int].0@),
        decreases candidates@.len() - i,
    {
        proof {
            assert(cv.take(i + 1).drop_last() =~= cv.take(i as int));
            assert(cv.take(i + 1).last() == cv[i as int]);
            lemma_latest_in_range(cv.take(i as int));
            if let Some(b) = best {
                assert(cv.take(i + 1)[b as int] == cv[b as int]);
            }
        }
        let key = version_key(candidates[i].0.as_str());
        if key.len() > 0 {
            let replace = match best {
                None => true,
                Some(_) => !crate::knowledge::key_less_exec(&key, &best_key),
            };
            if replace {
                best = Some(i);
                best_key = key;
            }
        }
        i = i + 1;
    }
    assert(cv.take(candidates@.len() as int) =~= cv);
    match best {
        Some(b) => Some(Platform { bin_dir: candidates[b].1.clone(), version: candidates[b].0.clone() }),
        None => None,
    }
}

} // verus!
