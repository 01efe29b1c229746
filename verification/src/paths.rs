//! Paths as they are shown to a person and resolved against the knowledge
//! root: no `.` segments, relative paths unfolded from a base directory.

use vstd::prelude::*;
use crate::platform::{joined, joined_with, segments, segments_from, win_segments, win_segments_exec, win_separator};
use crate::text::{chars_of, push_chars, push_str, string_of};

verus! {

/// A path that does not depend on a base: one that starts at the root (`/`),
/// or at a drive (`X:/`, `X:\`).
pub open spec fn absolute(p: Seq<char>) -> bool {
    (p.len() > 0 && p[0] == '/')
        || (p.len() >= 3 && (('a' <= p[0] <= 'z') || ('A' <= p[0] <= 'Z')) && p[1] == ':' && (p[2] == '/' || p[2] == '\\'))
}

/// A path cleaned for showing: its segments without `.`, joined by `/`, from
/// the root if it started there; `.` when nothing is left.
pub open spec fn normalized(p: Seq<char>) -> Seq<char> {
    let body = joined_with(segments(p), "/"@);
    let full = if p.len() > 0 && p[0] == '/' { "/"@ + body } else { body };
    if full.len() == 0 { "."@ } else { full }
}

/// A segment that names something: not empty, not `.`, without `/`.
pub open spec fn named_segment(s: Seq<char>) -> bool {
    &&& s.len() > 0
    &&& s != "."@
    &&& forall|m: int| 0 <= m < s.len() ==> s[m] != '/'
}

/// Every segment a path is split into names something.
proof fn lemma_segments_named(p: Seq<char>, start: int, i: int)
    requires
        0 <= start <= i <= p.len(),
        forall|m: int| start <= m < i ==> p[m] != '/',
    ensures
        forall|k: int| 0 <= k < segments_from(p, start, i).len() ==> named_segment(#[trigger] segments_from(p, start, i)[k]),
    decreases p.len() - i,
{
    if i == p.len() || p[i] == '/' {
        let part = p.subrange(start, i);
        let rest = if i == p.len() { Seq::<Seq<char>>::empty() } else { segments_from(p, i + 1, i + 1) };
        if i < p.len() {
            lemma_segments_named(p, i + 1, i + 1);
        }
        assert forall|k: int| 0 <= k < rest.len() implies named_segment(#[trigger] rest[k]) by {}
        if part.len() == 0 || part == "."@ {
            assert(segments_from(p, start, i) == rest);
        } else {
            assert forall|m: int| 0 <= m < part.len() implies part[m] != '/' by {
                assert(part[m] == p[start + m]);
            }
            assert(named_segment(part));
            assert(segments_from(p, start, i) == seq![part] + rest);
            assert forall|k: int| 0 <= k < (seq![part] + rest).len() implies named_segment(#[trigger] (seq![part] + rest)[k]) by {
                if k == 0 {
                    assert((seq![part] + rest)[0] == part);
                } else {
                    assert((seq![part] + rest)[k] == rest[k - 1]);
                }
            }
        }
    } else {
        lemma_segments_named(p, start, i + 1);
        assert(segments_from(p, start, i) == segments_from(p, start, i + 1));
    }
}

/// Splitting after a prefix is splitting the rest.
proof fn lemma_segments_shift(x: Seq<char>, y: Seq<char>, start: int, i: int)
    requires
        0 <= start <= i <= y.len(),
    ensures
        segments_from(x + y, x.len() + start, x.len() + i) == segments_from(y, start, i),
    decreases y.len() - i,
{
    let p = x + y;
    assert(p.subrange(x.len() + start, x.len() + i) =~= y.subrange(start, i));
    if i < y.len() {
        assert(p[x.len() + i] == y[i]);
        if y[i] == '/' {
            lemma_segments_shift(x, y, i + 1, i + 1);
        } else {
            lemma_segments_shift(x, y, start, i + 1);
        }
    }
}

/// Splitting at a `/`: the segments of the part before it, then those of
/// the part after it.
proof fn lemma_segments_concat(a: Seq<char>, b: Seq<char>, start: int, i: int)
    requires
        0 <= start <= i <= a.len(),
    ensures
        segments_from(a + "/"@ + b, start, i) == segments_from(a, start, i) + segments(b),
    decreases a.len() - i,
{
    reveal_strlit("/");
    let p = a + "/"@ + b;
    assert(p.subrange(start, i) =~= a.subrange(start, i));
    if i == a.len() {
        assert(p[i] == '/');
        lemma_segments_shift(a + "/"@, b, 0, 0);
        assert(a + "/"@ + b =~= (a + "/"@) + b);
    } else {
        assert(p[i] == a[i]);
        if a[i] == '/' {
            lemma_segments_concat(a, b, i + 1, i + 1);
            let part = a.subrange(start, i);
            let r = segments_from(a, i + 1, i + 1);
            assert(seq![part] + r + segments(b) =~= seq![part] + (r + segments(b)));
        } else {
            lemma_segments_concat(a, b, start, i + 1);
        }
    }
}

/// A segment with no `/` splits into itself.
proof fn lemma_segments_single(x: Seq<char>, i: int)
    requires
        named_segment(x),
        0 <= i <= x.len(),
    ensures
        segments_from(x, 0, i) == seq![x],
    decreases x.len() - i,
{
    if i < x.len() {
        lemma_segments_single(x, i + 1);
    } else {
        assert(x.subrange(0, i) =~= x);
    }
}

/// Named segments joined by `/` split back into themselves.
proof fn lemma_segments_joined(segs: Seq<Seq<char>>)
    requires
        forall|k: int| 0 <= k < segs.len() ==> named_segment(#[trigger] segs[k]),
    ensures
        segments(joined_with(segs, "/"@)) == segs,
    decreases segs.len(),
{
    if segs.len() == 0 {
        assert(segments(Seq::<char>::empty()) =~= Seq::<Seq<char>>::empty());
    } else if segs.len() == 1 {
        lemma_segments_single(segs[0], 0);
        assert(segs =~= seq![segs[0]]);
    } else {
        let init = segs.drop_last();
        assert forall|k: int| 0 <= k < init.len() implies named_segment(#[trigger] init[k]) by {
            assert(init[k] == segs[k]);
        }
        lemma_segments_joined(init);
        lemma_segments_concat(joined_with(init, "/"@), segs.last(), 0, 0);
        lemma_segments_single(segs.last(), 0);
        assert(segs =~= init + seq![segs.last()]);
    }
}

/// Cleaning a path keeps its segments, each of which names something (so no
/// `.` segment is left, while `..` is kept), and cleaning a cleaned path
/// changes nothing.
pub proof fn normalize_keeps_segments_and_settles(p: Seq<char>)
    ensures
        segments(normalized(p)) == segments(p),
        forall|k: int| 0 <= k < segments(p).len() ==> named_segment(#[trigger] segments(p)[k]),
        normalized(p) == "."@ || normalized(p) == (if p.len() > 0 && p[0] == '/' { "/"@ } else { Seq::empty() })
            + joined_with(segments(p), "/"@),
        normalized(normalized(p)) == normalized(p),
{
    reveal_strlit("/");
    reveal_strlit(".");
    lemma_segments_named(p, 0, 0);
    let segs = segments(p);
    let body = joined_with(segs, "/"@);
    lemma_segments_joined(segs);
    let n = normalized(p);
    if p.len() > 0 && p[0] == '/' {
        lemma_segments_concat(Seq::empty(), body, 0, 0);
        assert(Seq::<char>::empty() + "/"@ + body =~= "/"@ + body);
        assert(segments_from(Seq::<char>::empty(), 0, 0) =~= Seq::<Seq<char>>::empty());
        assert(segments(n) == segs);
        assert(n[0] == '/');
    } else if body.len() == 0 {
        assert(n == "."@);
        assert("."@.len() == 1);
        assert("."@.subrange(0, 1) =~= "."@);
        assert(segments_from("."@, 0, 1) =~= Seq::<Seq<char>>::empty());
        assert(segments_from("."@, 0, 0) == segments_from("."@, 0, 1));
        assert(segs.len() == 0) by {
            if segs.len() > 0 {
                lemma_joined_nonempty(segs);
            }
        }
    } else {
        assert(n == body);
        assert(segments(n) == segs);
        lemma_joined_starts_named(segs);
    }
}

/// Named segments joined are not empty.
proof fn lemma_joined_nonempty(segs: Seq<Seq<char>>)
    requires
        segs.len() > 0,
        forall|k: int| 0 <= k < segs.len() ==> named_segment(#[trigger] segs[k]),
    ensures
        joined_with(segs, "/"@).len() > 0,
    decreases segs.len(),
{
    if segs.len() > 1 {
        assert(named_segment(segs[segs.len() - 1]));
    } else {
        assert(named_segment(segs[0]));
    }
}

/// Named segments joined do not start with `/`.
proof fn lemma_joined_starts_named(segs: Seq<Seq<char>>)
    requires
        forall|k: int| 0 <= k < segs.len() ==> named_segment(#[trigger] segs[k]),
    ensures
        joined_with(segs, "/"@).len() > 0 ==> joined_with(segs, "/"@)[0] != '/',
    decreases segs.len(),
{
    if segs.len() == 1 {
        assert(named_segment(segs[0]));
    } else if segs.len() > 1 {
        let init = segs.drop_last();
        assert forall|k: int| 0 <= k < init.len() implies named_segment(#[trigger] init[k]) by {
            assert(init[k] == segs[k]);
        }
        lemma_joined_starts_named(init);
        lemma_joined_nonempty(init);
    }
}

/// Whether a path starts at the root or at a drive.
pub fn is_absolute(p: &str) -> (res: bool)
    ensures
        res == absolute(p@),
{
    let v = chars_of(p);
    (v.len() > 0 && v[0] == '/')
        || (v.len() >= 3 && (('a' <= v[0] && v[0] <= 'z') || ('A' <= v[0] && v[0] <= 'Z')) && v[1] == ':'
            && (v[2] == '/' || v[2] == '\\'))
}

fn segments_of(p: &[char]) -> (res: Vec<String>)
    ensures
        res@.map_values(|s: String| s@) == segments(p@),
{
    let parts = crate::platform::segments_exec(p);
    let mut out: Vec<String> = Vec::new();
    let mut i: usize = 0;
    while i < parts.len()
        invariant
            0 <= i <= parts@.len(),
            parts@.len() == segments(p@).len(),
            forall|k: int| 0 <= k < parts@.len() ==> #[trigger] parts@[k]@ == segments(p@)[k],
            out@.map_values(|s: String| s@) == segments(p@).take(i as int),
        decreases parts@.len() - i,
    {
        let ghost before = out@;
        out.push(string_of(&parts[i]));
        assert(out@.map_values(|s: String| s@) =~= before.map_values(|s: String| s@).push(parts@[i as int]@));
        assert(segments(p@).take(i + 1) =~= segments(p@).take(i as int).push(segments(p@)[i as int]));
        i = i + 1;
    }
    assert(segments(p@).take(parts@.len() as int) =~= segments(p@));
    out
}

/// A path for showing: without `.` segments; `.` when nothing is left.
pub fn normalize(p: &str) -> (res: String)
    ensures
        res@ == normalized(p@),
{
    let v = chars_of(p);
    let segs = segments_of(&v);
    let body = crate::platform::join_strings(segs.as_slice(), "/");
    let mut out: Vec<char> = Vec::new();
    if v.len() > 0 && v[0] == '/' {
        out.push('/');
    }
    push_str(&mut out, body.as_str());
    proof {
        reveal_strlit("/");
        if v@.len() > 0 && v@[0] == '/' {
            assert(out@ =~= "/"@ + body@);
        } else {
            assert(out@ =~= body@);
        }
    }
    if out.len() == 0 {
        proof {
            reveal_strlit(".");
        }
        return String::from_str(".");
    }
    string_of(&out)
}

/// A relative path unfolded from `base_dir`, an absolute one as it is; both
/// cleaned for showing.
pub fn resolve_relative(base_dir: &str, p: &str) -> (res: String)
    ensures
        res@ == (if absolute(p@) { normalized(p@) } else { normalized(joined(base_dir@, p@)) }),
{
    if is_absolute(p) {
        normalize(p)
    } else {
        let full = crate::platform::join_path(base_dir, p);
        normalize(full.as_str())
    }
}

// ── Windows flavour ────────────────────────────────────────────────────────

/// The length of the drive a Windows path starts with (`C:`): 2, or 0.
pub open spec fn drive_len(p: Seq<char>) -> int {
    if p.len() >= 2 && (('a' <= p[0] <= 'z') || ('A' <= p[0] <= 'Z')) && p[1] == ':' { 2 } else { 0 }
}

/// What stands between the drive and the first segment: `\\` for a network
/// path (two separators and no drive), `\` for a rooted one, else nothing.
pub open spec fn win_lead(p: Seq<char>) -> Seq<char> {
    let rest = p.skip(drive_len(p));
    if drive_len(p) == 0 && rest.len() >= 2 && win_separator(rest[0]) && win_separator(rest[1]) {
        "\\\\"@
    } else if rest.len() >= 1 && win_separator(rest[0]) {
        "\\"@
    } else {
        Seq::empty()
    }
}

/// A Windows path cleaned for showing: the drive, the root, then its segments
/// without `.`, all with the one separator `\`; `.` when nothing is left.
pub open spec fn normalized_windows(p: Seq<char>) -> Seq<char> {
    let full = p.take(drive_len(p)) + win_lead(p) + joined_with(win_segments(p.skip(drive_len(p))), "\\"@);
    if full.len() == 0 { "."@ } else { full }
}

/// A path for showing on Windows: without `.` segments and with one kind of
/// separator, `\` (a path half typed with `/` and half written by the system
/// reads worse than either); `.` when nothing is left.
pub fn normalize_windows(p: &str) -> (res: String)
    ensures
        res@ == normalized_windows(p@),
{
    let v = chars_of(p);
    let d: usize = if v.len() >= 2 && (('a' <= v[0] && v[0] <= 'z') || ('A' <= v[0] && v[0] <= 'Z')) && v[1] == ':' { 2 } else { 0 };
    let rest = &v[d..v.len()];
    assert(rest@ == v@.skip(d as int));
    let segs = win_segments_exec(rest);
    let body = crate::platform::join_strings(segs.as_slice(), "\\");
    let mut out: Vec<char> = Vec::new();
    push_chars(&mut out, &v[0..d]);
    assert(out@ == v@.take(d as int));
    let ghost lead = win_lead(p@);
    proof {
        reveal_strlit("\\");
        reveal_strlit("\\\\");
    }
    if d == 0 && rest.len() >= 2 && (rest[0] == '/' || rest[0] == '\\') && (rest[1] == '/' || rest[1] == '\\') {
        push_str(&mut out, "\\\\");
    } else if rest.len() >= 1 && (rest[0] == '/' || rest[0] == '\\') {
        push_str(&mut out, "\\");
    }
    assert(out@ == v@.take(d as int) + lead);
    push_str(&mut out, body.as_str());
    if out.len() == 0 {
        proof {
            reveal_strlit(".");
        }
        return String::from_str(".");
    }
    string_of(&out)
}

/// [`resolve_relative`] with the paths shown as on Windows.
pub fn resolve_relative_windows(base_dir: &str, p: &str) -> (res: String)
    ensures
        res@ == (if absolute(p@) { normalized_windows(p@) } else { normalized_windows(joined(base_dir@, p@)) }),
{
    if is_absolute(p) {
        normalize_windows(p)
    } else {
        let full = crate::platform::join_path(base_dir, p);
        normalize_windows(full.as_str())
    }
}

/// The directory of the knowledge JSON inside the root, given whether the
/// nested `data` is a directory (the caller looks on disk): that one when it
/// is (the loader walks recursively and the root would pull in neighbouring
/// backups), else the root itself.
pub fn knowledge_dir_in(root: &str, data_is_dir: bool) -> (res: String)
    ensures
        res@ == (if data_is_dir { joined(root@, "data"@) } else { root@ }),
{
    proof {
        reveal_strlit("data");
    }
    if data_is_dir {
        crate::platform::join_path(root, "data")
    } else {
        String::from_str(root)
    }
}

/// The configuration file inside a directory, given which names exist there
/// (the caller looks on disk, and for the older name only when the first is
/// missing): `itcoolmcplang1c.toml`, else the older name `config.toml` when
/// that one exists, else the first name.
pub fn config_in_dir(dir: &str, main_exists: bool, legacy_exists: bool) -> (res: String)
    ensures
        res@ == (if main_exists || !legacy_exists {
            joined(dir@, "itcoolmcplang1c.toml"@)
        } else {
            joined(dir@, "config.toml"@)
        }),
{
    proof {
        reveal_strlit("itcoolmcplang1c.toml");
        reveal_strlit("config.toml");
    }
    if main_exists || !legacy_exists {
        crate::platform::join_path(dir, "itcoolmcplang1c.toml")
    } else {
        crate::platform::join_path(dir, "config.toml")
    }
}

/// Whether a launch builds from the platform with no knowledge root and no
/// configuration file, so that the user's cache directory becomes the root.
pub fn wants_default_root(self_build: bool, root_given: bool, config_exists: bool) -> (res: bool)
    ensures
        res == (self_build && !root_given && !config_exists),
{
    self_build && !root_given && !config_exists
}

/// Whether a server launch has no knowledge directory at all: no root, no
/// configuration file, no default root, and neither `index` nor `--check`.
pub fn data_dir_missing(root_given: bool, config_exists: bool, default_root_given: bool, index_mode: bool, check_mode: bool) -> (res: bool)
    ensures
        res == (!root_given && !config_exists && !default_root_given && !index_mode && !check_mode),
{
    !root_given && !config_exists && !default_root_given && !index_mode && !check_mode
}

/// The knowledge directory at launch: with a root and no configuration file,
/// the root's nested `data` when that is a directory, else the root; with
/// neither, the default root; otherwise the configured directory unfolded from
/// the base (in the way of the system it runs on, `windows` or not).
pub fn launch_data_dir(
    root: Option<&str>,
    data_is_dir: bool,
    config_exists: bool,
    default_root: Option<&str>,
    base_dir: &str,
    configured: &str,
    windows: bool,
) -> (res: String)
    ensures
        res@ == match (root, config_exists, default_root) {
            (Some(r), false, _) => if data_is_dir { joined(r@, "data"@) } else { r@ },
            (None, false, Some(d)) => d@,
            _ => if windows {
                if absolute(configured@) { normalized_windows(configured@) } else { normalized_windows(joined(base_dir@, configured@)) }
            } else {
                if absolute(configured@) { normalized(configured@) } else { normalized(joined(base_dir@, configured@)) }
            },
        },
{
    match (root, config_exists, default_root) {
        (Some(r), false, _) => knowledge_dir_in(r, data_is_dir),
        (None, false, Some(d)) => String::from_str(d),
        _ => if windows {
            resolve_relative_windows(base_dir, configured)
        } else {
            resolve_relative(base_dir, configured)
        },
    }
}

} // verus!
