//! The progress of building the knowledge base from the platform help, as the
//! request handler sees it: while the index is being built, tools answer with
//! a soft refusal that carries the percentage instead of a protocol error.

use vstd::prelude::*;
use crate::text::{decimal, push_decimal, push_str, string_of};

verus! {

/// What the index builder is doing.
#[derive(Debug, Clone, PartialEq, Eq)]
pub enum Outcome {
    /// No build was started or none is needed: the knowledge base is in place.
    Idle,
    Building,
    /// No platform was found; the text already holds the instruction.
    NoPlatform(String),
    Failed(String),
    Ready,
}

/// The state of a build.
pub struct Progress {
    percent: u8,
    stage: &'static str,
    outcome: Outcome,
}

/// The overall percentage of `done` out of `total` within a stage that spans
/// `from..to`, capped at 100.
pub open spec fn stage_value(done: nat, total: nat, from: nat, to: nat) -> nat {
    let p: nat = if total == 0 {
        to
    } else {
        (from + (to - from) * (if done <= total { done } else { total }) / (total as int)) as nat
    };
    if p <= 100 { p } else { 100 }
}

/// The soft refusal while the index is being built.
pub open spec fn building_text(percent: nat, stage: Seq<char>) -> Seq<char> {
    "Идёт индексация справки платформы: "@ + decimal(percent) + "% ("@
        + (if stage.len() == 0 { "подготовка"@ } else { stage })
        + "). Повторите запрос через несколько секунд — разбор справки занимает секунды, его результат кэшируется, и следующий запуск сервера будет мгновенным."@
}

/// The soft refusal after a failed build.
pub open spec fn failed_text(reason: Seq<char>) -> Seq<char> {
    "Индексация справки платформы не удалась: "@ + reason + ". База знаний пуста."@
}

/// The text a tool answers with instead of a result; `None` when the base is
/// ready and the question should be answered.
pub open spec fn hint_of(outcome: Outcome, percent: nat, stage: Seq<char>) -> Option<Seq<char>> {
    match outcome {
        Outcome::Idle | Outcome::Ready => None,
        Outcome::Building => Some(building_text(percent, stage)),
        Outcome::NoPlatform(text) => Some(text@),
        Outcome::Failed(text) => Some(failed_text(text@)),
    }
}

impl Progress {
    /// Nothing started: idle, at 0%, with no stage.
    pub fn new() -> (res: Self)
        ensures
            res.percent() == 0,
            res.stage()@ == Seq::<char>::empty(),
            res.current() == Outcome::Idle,
    {
        proof {
            reveal_strlit("");
        }
        Progress { percent: 0, stage: "", outcome: Outcome::Idle }
    }

    pub closed spec fn percent(&self) -> nat {
        self.percent as nat
    }

    pub closed spec fn stage(&self) -> &'static str {
        self.stage
    }

    pub closed spec fn current(&self) -> Outcome {
        self.outcome
    }

    /// The current outcome.
    pub fn outcome(&self) -> (res: Outcome)
        ensures
            res == self.current(),
    {
        match &self.outcome {
            Outcome::Idle => Outcome::Idle,
            Outcome::Building => Outcome::Building,
            Outcome::NoPlatform(text) => Outcome::NoPlatform(text.clone()),
            Outcome::Failed(text) => Outcome::Failed(text.clone()),
            Outcome::Ready => Outcome::Ready,
        }
    }

    /// Sets the outcome; the percentage and the stage stay.
    pub fn set_outcome(&mut self, outcome: Outcome)
        ensures
            final(self).current() == outcome,
            final(self).percent() == old(self).percent(),
            final(self).stage() == old(self).stage(),
    {
        self.outcome = outcome;
    }

    /// The share `done / total` of a stage spanning `from..to`, recomputed into
    /// the overall percentage; the stage name changes only with the percentage.
    pub fn stage_percent(&mut self, stage: &'static str, done: usize, total: usize, from: usize, to: usize)
        requires
            from <= to,
        ensures
            final(self).percent() == stage_value(done as nat, total as nat, from as nat, to as nat),
            final(self).stage() == (if old(self).percent() != final(self).percent() {
                stage
            } else {
                old(self).stage()
            }),
            final(self).current() == old(self).current(),
    {
        let value: usize = if total == 0 {
            to
        } else {
            let share = if done <= total { done } else { total };
            let span = (to - from) as u128;
            proof {
                vstd::arithmetic::mul::lemma_mul_upper_bound(span as int, 0xffff_ffff_ffff_ffff, share as int, 0xffff_ffff_ffff_ffff);
                vstd::arithmetic::mul::lemma_mul_inequality(share as int, total as int, span as int);
                vstd::arithmetic::mul::lemma_mul_is_commutative(span as int, total as int);
                vstd::arithmetic::mul::lemma_mul_is_commutative(span as int, share as int);
                vstd::arithmetic::mul::lemma_mul_nonnegative(span as int, share as int);
                vstd::arithmetic::div_mod::lemma_div_is_ordered(span * share, span * total, total as int);
                vstd::arithmetic::div_mod::lemma_div_multiples_vanish(span as int, total as int);
                vstd::arithmetic::div_mod::lemma_div_pos_is_pos(span * share, total as int);
            }
            let q = span * (share as u128) / (total as u128);
            from + (q as usize)
        };
        let percent: u8 = if value <= 100 { value as u8 } else { 100 };
        if self.percent != percent {
            self.stage = stage;
        }
        self.percent = percent;
    }

    /// The text for a soft refusal of a tool; `None` when the base is ready.
    pub fn hint(&self) -> (res: Option<String>)
        ensures
            match res {
                Some(t) => hint_of(self.current(), self.percent(), self.stage()@) == Some(t@),
                None => hint_of(self.current(), self.percent(), self.stage()@) is None,
            },
    {
        match &self.outcome {
            Outcome::Idle | Outcome::Ready => None,
            Outcome::Building => {
                let mut out: Vec<char> = Vec::new();
                push_str(&mut out, "Идёт индексация справки платформы: ");
                push_decimal(&mut out, self.percent as u64);
                push_str(&mut out, "% (");
                if self.stage.unicode_len() == 0 {
                    push_str(&mut out, "подготовка");
                } else {
                    push_str(&mut out, self.stage);
                }
                push_str(&mut out, "). Повторите запрос через несколько секунд — разбор справки занимает секунды, его результат кэшируется, и следующий запуск сервера будет мгновенным.");
                Some(string_of(&out))
            },
            Outcome::NoPlatform(text) => Some(text.clone()),
            Outcome::Failed(text) => {
                let mut out: Vec<char> = Vec::new();
                push_str(&mut out, "Индексация справки платформы не удалась: ");
                push_str(&mut out, text.as_str());
                push_str(&mut out, ". База знаний пуста.");
                Some(string_of(&out))
            },
        }
    }
}

impl Default for Progress {
    fn default() -> (res: Self)
        ensures
            res.percent() == 0,
            res.stage()@ == Seq::<char>::empty(),
            res.current() == Outcome::Idle,
    {
        Progress::new()
    }
}

/// Where a long build reports how far it has come: the share `done / total`
/// of a stage that spans `from..to` of the whole.
pub trait Reporter {
    /// Whether the reporter keeps the percentage it is given (the
    /// library's [`Progress`] does; a reporter defined elsewhere is not held
    /// to it).
    open spec fn keeps_percent() -> bool {
        false
    }

    /// The overall percentage last reported, where the reporter keeps it.
    open spec fn reported_percent(&self) -> nat {
        0
    }

    fn stage_percent(&mut self, stage: &'static str, done: usize, total: usize, from: usize, to: usize)
        requires
            from <= to,
        ensures
            Self::keeps_percent() ==> final(self).reported_percent() == stage_value(done as nat, total as nat, from as nat, to as nat),
    ;
}

impl Reporter for Progress {
    open spec fn keeps_percent() -> bool {
        true
    }

    open spec fn reported_percent(&self) -> nat {
        self.percent()
    }

    /// As [`Progress::stage_percent`]: the percentage of the stage, the stage
    /// name when the percentage moved, the outcome kept.
    fn stage_percent(&mut self, stage: &'static str, done: usize, total: usize, from: usize, to: usize)
        ensures
            final(self).percent() == stage_value(done as nat, total as nat, from as nat, to as nat),
            final(self).stage() == (if old(self).percent() != final(self).percent() {
                stage
            } else {
                old(self).stage()
            }),
            final(self).current() == old(self).current(),
    {
        Progress::stage_percent(self, stage, done, total, from, to);
    }
}

/// The percentage a stage reports never leaves the stage's span, nor 100.
pub proof fn stage_value_in_span(done: nat, total: nat, from: nat, to: nat)
    requires
        from <= to,
    ensures
        stage_value(done, total, from, to) <= 100,
        from <= 100 ==> from <= stage_value(done, total, from, to),
        stage_value(done, total, from, to) <= to,
{
    if total != 0 {
        let share: nat = if done <= total { done } else { total };
        vstd::arithmetic::mul::lemma_mul_inequality(share as int, total as int, (to - from) as int);
        vstd::arithmetic::mul::lemma_mul_is_commutative((to - from) as int, total as int);
        vstd::arithmetic::mul::lemma_mul_is_commutative((to - from) as int, share as int);
        vstd::arithmetic::div_mod::lemma_div_is_ordered(((to - from) * share) as int, ((to - from) * total) as int, total as int);
        vstd::arithmetic::div_mod::lemma_div_multiples_vanish((to - from) as int, total as int);
        vstd::arithmetic::div_mod::lemma_div_pos_is_pos(((to - from) * share) as int, total as int);
        vstd::arithmetic::mul::lemma_mul_nonnegative((to - from) as int, share as int);
    }
}

/// What did not get into the base, and why.
#[derive(Debug, Default)]
pub struct Skipped {
    pub category: usize,
    pub dup_method: usize,
    pub no_owner: usize,
}

/// How many sections of one book were taken and how many skipped.
#[derive(Debug)]
pub struct BookStats {
    pub book: String,
    pub taken: usize,
    pub skipped: usize,
}

/// The result of a build, for the log and the command-line report.
#[derive(Debug)]
pub struct BuildReport {
    pub version: String,
    pub objects: usize,
    pub methods: usize,
    pub properties: usize,
    pub root_sections: usize,
    pub subsections: usize,
    pub skipped: Skipped,
    pub books: Vec<BookStats>,
}

/// The one-line report of a build.
pub open spec fn report_text(r: BuildReport) -> Seq<char> {
    "версия "@ + r.version@ + ": объектов "@ + decimal(r.objects as nat) + ", методов "@
        + decimal(r.methods as nat) + ", свойств "@ + decimal(r.properties as nat) + ", разделов "@
        + decimal(r.root_sections as nat) + " корневых / "@ + decimal(r.subsections as nat)
        + "; пропущено категорий "@ + decimal(r.skipped.category as nat) + ", дублей методов "@
        + decimal(r.skipped.dup_method as nat) + ", без владельца "@
        + decimal(r.skipped.no_owner as nat)
}

impl BuildReport {
    /// The report as one line of text.
    pub fn describe(&self) -> (res: String)
        ensures
            res@ == report_text(*self),
    {
        let mut out: Vec<char> = Vec::new();
        push_str(&mut out, "версия ");
        push_str(&mut out, self.version.as_str());
        push_str(&mut out, ": объектов ");
        push_decimal(&mut out, self.objects as u64);
        push_str(&mut out, ", методов ");
        push_decimal(&mut out, self.methods as u64);
        push_str(&mut out, ", свойств ");
        push_decimal(&mut out, self.properties as u64);
        push_str(&mut out, ", разделов ");
        push_decimal(&mut out, self.root_sections as u64);
        push_str(&mut out, " корневых / ");
        push_decimal(&mut out, self.subsections as u64);
        push_str(&mut out, "; пропущено категорий ");
        push_decimal(&mut out, self.skipped.category as u64);
        push_str(&mut out, ", дублей методов ");
        push_decimal(&mut out, self.skipped.dup_method as u64);
        push_str(&mut out, ", без владельца ");
        push_decimal(&mut out, self.skipped.no_owner as u64);
        string_of(&out)
    }
}

/// A text padded with spaces on the right to `width` characters.
pub open spec fn padded(s: Seq<char>, width: nat) -> Seq<char> {
    if s.len() >= width { s } else { s + Seq::new((width - s.len()) as nat, |i: int| ' ') }
}

impl BookStats {
    /// The report line of one book: its file, the sections taken and the pages
    /// skipped.
    pub fn line(&self) -> (res: String)
        ensures
            res@ == "   "@ + padded(self.book@, 18) + " "@ + decimal(self.taken as nat) + " разделов, пропущено "@
                + decimal(self.skipped as nat),
    {
        let mut out: Vec<char> = Vec::new();
        push_str(&mut out, "   ");
        let ghost start = out@;
        push_str(&mut out, self.book.as_str());
        let n = self.book.as_str().unicode_len();
        let mut k: usize = n;
        while k < 18
            invariant
                n == self.book@.len(),
                n <= k <= 18 || (n > 18 && k == n),
                out@ == start + self.book@ + Seq::new((k - n) as nat, |i: int| ' '),
            decreases 18 - k,
        {
            out.push(' ');
            assert(Seq::new((k + 1 - n) as nat, |i: int| ' ') =~= Seq::new((k - n) as nat, |i: int| ' ').push(' '));
            k = k + 1;
        }
        proof {
            if n >= 18 {
                assert(Seq::new((k - n) as nat, |i: int| ' ') =~= Seq::<char>::empty());
            }
            assert(out@ =~= start + padded(self.book@, 18));
        }
        push_str(&mut out, " ");
        push_decimal(&mut out, self.taken as u64);
        push_str(&mut out, " разделов, пропущено ");
        push_decimal(&mut out, self.skipped as u64);
        string_of(&out)
    }
}

} // verus!
