//! Regular expressions of the `regex` crate, behind contracts that name what
//! each search gives. Positions are counted in characters, not bytes.

use vstd::prelude::*;

verus! {

#[verifier::external_type_specification]
#[verifier::external_body]
pub struct ExRegex(regex::Regex);

/// The groups of the first match of `pattern` in `hay`, each as a character
/// range (`None` for a group that did not take part); `None` when nothing
/// matches.
pub uninterp spec fn rx_captures(pattern: Seq<char>, hay: Seq<char>) -> Option<Seq<Option<(int, int)>>>;

/// The groups of every successive non-overlapping match of `pattern` in `hay`.
pub uninterp spec fn rx_captures_all(pattern: Seq<char>, hay: Seq<char>) -> Seq<Seq<Option<(int, int)>>>;

/// The character range of the first match of `pattern` in `hay`.
pub uninterp spec fn rx_find(pattern: Seq<char>, hay: Seq<char>) -> Option<(int, int)>;

/// `hay` with every non-overlapping match of `pattern` replaced by `rep`
/// (where `$1` stands for the first group).
pub uninterp spec fn rx_replace_all(pattern: Seq<char>, hay: Seq<char>, rep: Seq<char>) -> Seq<char>;

/// Whether `pattern` matches somewhere in `hay`.
pub uninterp spec fn rx_is_match(pattern: Seq<char>, hay: Seq<char>) -> bool;

/// Whether `regex` compiles `pattern` (with its default limits).
pub uninterp spec fn rx_compiles(pattern: Seq<char>) -> bool;

/// The characters that have a meaning in a regular expression.
pub open spec fn rx_meta(c: char) -> bool {
    c == '\\' || c == '.' || c == '+' || c == '*' || c == '?' || c == '(' || c == ')' || c == '|' || c == '['
        || c == ']' || c == '{' || c == '}' || c == '^' || c == '$' || c == '#' || c == '&' || c == '-' || c == '~'
}

/// A text with a backslash put before every meta character.
pub open spec fn rx_escaped(text: Seq<char>) -> Seq<char>
    decreases text.len(),
{
    if text.len() == 0 {
        Seq::empty()
    } else {
        rx_escaped(text.drop_last()) + if rx_meta(text.last()) { seq!['\\', text.last()] } else { seq![text.last()] }
    }
}

/// Group ranges as integers.
pub open spec fn ranges(g: Seq<Option<(usize, usize)>>) -> Seq<Option<(int, int)>> {
    g.map_values(|x: Option<(usize, usize)>| match x {
        Some((s, e)) => Some((s as int, e as int)),
        None => None,
    })
}

/// A group range lies within the text and does not run backwards.
pub open spec fn in_text(g: Option<(int, int)>, len: int) -> bool {
    match g {
        Some((s, e)) => 0 <= s <= e <= len,
        None => true,
    }
}

/// The groups of a match lie within the text, and the whole match (group 0)
/// is always there.
pub open spec fn groups_in_text(groups: Seq<Option<(int, int)>>, len: int) -> bool {
    &&& groups.len() > 0
    &&& groups[0] is Some
    &&& forall|k: int| 0 <= k < groups.len() ==> in_text(#[trigger] groups[k], len)
    &&& forall|k: int| 0 <= k < groups.len() && (#[trigger] groups[k]) is Some ==>
            groups[0].unwrap().0 <= groups[k].unwrap().0 && groups[k].unwrap().1 <= groups[0].unwrap().1
}

/// A compiled regular expression and the pattern it was compiled from.
pub struct Pattern {
    source: String,
    rx: regex::Regex,
}

/// Compiles a pattern.
///
/// Trusted: `regex::Regex::new`, whose success depends on the pattern alone
/// (the builder's default limits are constants): named by `rx_compiles`.
#[verifier::external_body]
fn compile(source: &str) -> (res: Option<regex::Regex>)
    ensures
        res is Some <==> rx_compiles(source@),
{
    regex::Regex::new(source).ok()
}

/// `regex::escape`: the text with meta characters escaped.
///
/// Trusted: `regex::escape` calls `regex_syntax::escape`, which pushes a
/// backslash before each character for which `is_meta_character` holds (the
/// set [`rx_meta`] lists) and then the character itself.
#[verifier::external_body]
pub fn escape(text: &str) -> (res: String)
    ensures
        res@ == rx_escaped(text@),
{
    regex::escape(text)
}

impl Pattern {
    /// The pattern this expression was compiled from.
    pub closed spec fn source(&self) -> Seq<char> {
        self.source@
    }

    /// Compiles a pattern; `None` when `regex` refuses it.
    pub fn new(source: &str) -> (res: Option<Pattern>)
        ensures
            res is Some <==> rx_compiles(source@),
            res matches Some(p) ==> p.source() == source@,
    {
        match compile(source) {
            Some(rx) => Some(Pattern { source: String::from_str(source), rx }),
            None => None,
        }
    }

    /// `Regex::captures`: the groups of the first match, as character ranges.
    ///
    /// Trusted: the result is named by `rx_captures`; the regex documentation
    /// gives that group 0 is the whole match and every group lies within it.
    #[verifier::external_body]
    pub fn captures(&self, hay: &str) -> (res: Option<Vec<Option<(usize, usize)>>>)
        ensures
            match res {
                Some(g) => rx_captures(self.source(), hay@) == Some(ranges(g@)) && groups_in_text(rx_captures(self.source(), hay@).unwrap(), hay@.len() as int),
                None => rx_captures(self.source(), hay@) is None,
            },
    {
        let c = self.rx.captures(hay)?;
        let at = |b: usize| hay[..b].chars().count();
        Some((0..c.len()).map(|i| c.get(i).map(|m| (at(m.start()), at(m.end())))).collect())
    }

    /// `Regex::captures_iter`: the groups of every successive non-overlapping
    /// match, as character ranges.
    ///
    /// Trusted: named by `rx_captures_all`; the documentation gives that the
    /// matches come in order without overlapping.
    #[verifier::external_body]
    pub fn captures_all(&self, hay: &str) -> (res: Vec<Vec<Option<(usize, usize)>>>)
        ensures
            res@.len() == rx_captures_all(self.source(), hay@).len(),
            forall|i: int| 0 <= i < res@.len() ==> #[trigger] ranges(res@[i]@) == rx_captures_all(self.source(), hay@)[i],
            forall|i: int| 0 <= i < res@.len() ==> groups_in_text(#[trigger] rx_captures_all(self.source(), hay@)[i], hay@.len() as int),
            forall|i: int| 0 <= i < res@.len() - 1 ==>
                (#[trigger] rx_captures_all(self.source(), hay@)[i])[0].unwrap().1 <= rx_captures_all(self.source(), hay@)[i + 1][0].unwrap().0,
    {
        let at = |b: usize| hay[..b].chars().count();
        let groups = |c: regex::Captures| (0..c.len()).map(|i| c.get(i).map(|m| (at(m.start()), at(m.end())))).collect();
        self.rx.captures_iter(hay).map(groups).collect()
    }

    /// `Regex::find`: the character range of the first match.
    ///
    /// Trusted: named by `rx_find`; the range lies within the text.
    #[verifier::external_body]
    pub fn find(&self, hay: &str) -> (res: Option<(usize, usize)>)
        ensures
            match res {
                Some((s, e)) => rx_find(self.source(), hay@) == Some((s as int, e as int)) && s <= e <= hay@.len(),
                None => rx_find(self.source(), hay@) is None,
            },
    {
        let at = |b: usize| hay[..b].chars().count();
        self.rx.find(hay).map(|m| (at(m.start()), at(m.end())))
    }

    /// `Regex::replace_all`.
    ///
    /// Trusted: named by `rx_replace_all`.
    #[verifier::external_body]
    pub fn replace_all(&self, hay: &str, rep: &str) -> (res: String)
        ensures
            res@ == rx_replace_all(self.source(), hay@, rep@),
    {
        self.rx.replace_all(hay, rep).into_owned()
    }

    /// `Regex::is_match`.
    ///
    /// Trusted: named by `rx_is_match`.
    #[verifier::external_body]
    pub fn is_match(&self, hay: &str) -> (res: bool)
        ensures
            res == rx_is_match(self.source(), hay@),
    {
        self.rx.is_match(hay)
    }
}

} // verus!
