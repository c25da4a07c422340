//! A finding: what was looked at, what was seen, and how bad it is.

use vstd::prelude::*;
use crate::text;
use crate::text::owned;

verus! {

/// How bad a finding is.
#[derive(Debug, Clone, Copy, PartialEq, Eq, Structural)]
pub enum Severity {
    Okay,
    Warn,
    Critical,
    /// Told for its own sake, neither good nor bad.
    Info,
    Unknown,
}

/// A finding.
#[derive(Debug, Clone)]
pub struct Check {
    /// The name that a program knows the check by.
    pub name: &'static str,
    /// The name that a reader sees.
    pub label: &'static str,
    pub value: String,
    pub severity: Severity,
    /// What to do about it.
    pub hint: Option<String>,
}

/// The value of a finding.
pub struct CheckView {
    pub name: Seq<char>,
    pub label: Seq<char>,
    pub value: Seq<char>,
    pub severity: Severity,
    pub hint: Option<Seq<char>>,
}

impl View for Check {
    type V = CheckView;

    open spec fn view(&self) -> CheckView {
        CheckView {
            name: self.name@,
            label: self.label@,
            value: self.value@,
            severity: self.severity,
            hint: text::opt_view(self.hint),
        }
    }
}

/// The values of some findings.
pub open spec fn check_views(checks: Seq<Check>) -> Seq<CheckView> {
    Seq::new(checks.len(), |i: int| checks[i]@)
}

pub open spec fn ok_of(name: Seq<char>, label: Seq<char>, value: Seq<char>) -> CheckView {
    CheckView { name, label, value, severity: Severity::Okay, hint: None }
}

pub open spec fn warn_of(name: Seq<char>, label: Seq<char>, value: Seq<char>, hint: Seq<char>) -> CheckView {
    CheckView { name, label, value, severity: Severity::Warn, hint: Some(hint) }
}

pub open spec fn critical_of(
    name: Seq<char>,
    label: Seq<char>,
    value: Seq<char>,
    hint: Seq<char>,
) -> CheckView {
    CheckView { name, label, value, severity: Severity::Critical, hint: Some(hint) }
}

pub open spec fn unknown_of(name: Seq<char>, label: Seq<char>, value: Seq<char>) -> CheckView {
    CheckView { name, label, value, severity: Severity::Unknown, hint: None }
}

pub open spec fn info_of(name: Seq<char>, label: Seq<char>, value: Seq<char>) -> CheckView {
    CheckView { name, label, value, severity: Severity::Info, hint: None }
}

pub open spec fn info_hint_of(
    name: Seq<char>,
    label: Seq<char>,
    value: Seq<char>,
    hint: Seq<char>,
) -> CheckView {
    CheckView { name, label, value, severity: Severity::Info, hint: Some(hint) }
}

impl Check {
    pub fn ok(name: &'static str, label: &'static str, value: &str) -> (r: Check)
        ensures
            r@ == ok_of(name@, label@, value@),
    {
        Check { name, label, value: owned(value), severity: Severity::Okay, hint: None }
    }

    pub fn warn(name: &'static str, label: &'static str, value: &str, hint: &str) -> (r: Check)
        ensures
            r@ == warn_of(name@, label@, value@, hint@),
    {
        Check { name, label, value: owned(value), severity: Severity::Warn, hint: Some(owned(hint)) }
    }

    pub fn critical(name: &'static str, label: &'static str, value: &str, hint: &str) -> (r: Check)
        ensures
            r@ == critical_of(name@, label@, value@, hint@),
    {
        Check {
            name,
            label,
            value: owned(value),
            severity: Severity::Critical,
            hint: Some(owned(hint)),
        }
    }

    pub fn unknown(name: &'static str, label: &'static str, value: &str) -> (r: Check)
        ensures
            r@ == unknown_of(name@, label@, value@),
    {
        Check { name, label, value: owned(value), severity: Severity::Unknown, hint: None }
    }

    pub fn info(name: &'static str, label: &'static str, value: &str) -> (r: Check)
        ensures
            r@ == info_of(name@, label@, value@),
    {
        Check { name, label, value: owned(value), severity: Severity::Info, hint: None }
    }

    pub fn info_hint(name: &'static str, label: &'static str, value: &str, hint: &str) -> (r: Check)
        ensures
            r@ == info_hint_of(name@, label@, value@, hint@),
    {
        Check { name, label, value: owned(value), severity: Severity::Info, hint: Some(owned(hint)) }
    }

    /// A copy.
    pub fn copied(&self) -> (r: Check)
        ensures
            r@ == self@,
    {
        Check {
            name: self.name,
            label: self.label,
            value: owned(self.value.as_str()),
            severity: self.severity,
            hint: match &self.hint {
                Some(h) => Some(owned(h.as_str())),
                None => None,
            },
        }
    }
}

/// The exit code that a severity asks for.
pub open spec fn severity_exit(severity: Severity) -> int {
    match severity {
        Severity::Critical => 2,
        Severity::Warn => 1,
        _ => 0,
    }
}

/// The exit code that a severity asks for.
pub fn severity_to_exit(severity: Severity) -> (r: i32)
    ensures
        r == severity_exit(severity),
{
    match severity {
        Severity::Critical => 2,
        Severity::Warn => 1,
        Severity::Okay | Severity::Info | Severity::Unknown => 0,
    }
}

/// The exit code of a report: that of its worst finding.
pub open spec fn exit_code_of(checks: Seq<CheckView>) -> int
    decreases checks.len(),
{
    if checks.len() == 0 {
        0
    } else {
        let rest = exit_code_of(checks.drop_last());
        let last = severity_exit(checks.last().severity);
        if last > rest {
            last
        } else {
            rest
        }
    }
}

/// The exit code of a report: that of its worst finding.
pub fn exit_code(checks: &Vec<Check>) -> (r: i32)
    ensures
        r == exit_code_of(check_views(checks@)),
{
    let mut acc: i32 = 0;
    let mut i: usize = 0;
    let ghost all = check_views(checks@);
    while i < checks.len()
        invariant
            all == check_views(checks@),
            i <= checks@.len(),
            acc == exit_code_of(all.take(i as int)),
        decreases checks@.len() - i,
    {
        let code: i32 = severity_to_exit(checks[i].severity);
        proof {
            let t = all.take(i as int + 1);
            assert(t.drop_last() =~= all.take(i as int));
            assert(t.last() == checks@[i as int]@);
        }
        if code > acc {
            acc = code;
        }
        i += 1;
    }
    proof {
        assert(all.take(i as int) =~= all);
    }
    acc
}

/// A report exits with 2 exactly where a finding is critical, with 1 exactly where
/// none is and one warns, and with 0 otherwise.
pub proof fn law_exit_code_is_the_worst(checks: Seq<CheckView>)
    ensures
        exit_code_of(checks) == 2 <==> (exists|i: int|
            0 <= i < checks.len() && (#[trigger] checks[i]).severity == Severity::Critical),
        exit_code_of(checks) >= 1 <==> (exists|i: int|
            0 <= i < checks.len() && ((#[trigger] checks[i]).severity == Severity::Critical
                || checks[i].severity == Severity::Warn)),
        0 <= exit_code_of(checks) <= 2,
    decreases checks.len(),
{
    if checks.len() > 0 {
        let rest = checks.drop_last();
        law_exit_code_is_the_worst(rest);
        assert forall|i: int| 0 <= i < rest.len() implies #[trigger] rest[i] == checks[i] by {}
        if exit_code_of(rest) == 2 {
            let i = choose|i: int|
                0 <= i < rest.len() && (#[trigger] rest[i]).severity == Severity::Critical;
            assert(checks[i].severity == Severity::Critical);
        }
        if exit_code_of(rest) >= 1 {
            let i = choose|i: int|
                0 <= i < rest.len() && ((#[trigger] rest[i]).severity == Severity::Critical
                    || rest[i].severity == Severity::Warn);
            assert(checks[i] == rest[i]);
        }
        assert(checks[checks.len() - 1] == checks.last());
        assert forall|i: int| 0 <= i < checks.len() && i != checks.len() - 1 implies #[trigger] checks[i]
            == rest[i] by {}
    }
}

} // verus!
