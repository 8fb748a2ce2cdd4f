//! Environment diagnostics: turning probe results gathered at the boundary into named
//! checks with actionable problem messages.

use vstd::prelude::*;

verus! {

/// The outcome of one check.
#[derive(Debug, Clone, PartialEq, Eq)]
pub enum CheckStatus {
    Passed,
    Problem(String),
}

/// A named diagnostic result.
#[derive(Debug, Clone, PartialEq, Eq)]
pub struct Check {
    pub name: &'static str,
    pub status: CheckStatus,
}

/// Boolean probe results gathered at the IO boundary.
#[derive(Debug, Clone, Copy)]
pub struct Probes {
    /// The daemon's control socket could be connected to.
    pub daemon_reachable: bool,
}

/// The problem reported when the daemon cannot be reached.
pub open spec fn daemon_problem() -> Seq<char> {
    "ghostty-voiced is not reachable on its control socket — start it (e.g. `systemctl --user start ghostty-voiced`)"@
}

fn check(name: &'static str, ok: bool, problem: &str) -> (c: Check)
    ensures
        c.name == name,
        ok ==> c.status is Passed,
        !ok ==> (c.status matches CheckStatus::Problem(m) && m@ == problem@),
{
    Check {
        name,
        status: if ok {
            CheckStatus::Passed
        } else {
            CheckStatus::Problem(problem.to_owned())
        },
    }
}

/// Turn probe results into named checks: one `daemon` check, a problem exactly when
/// the daemon is unreachable.
pub fn evaluate(probes: &Probes) -> (checks: Vec<Check>)
    ensures
        checks@.len() == 1,
        checks@[0].name@ == "daemon"@,
        probes.daemon_reachable ==> checks@[0].status is Passed,
        !probes.daemon_reachable ==> (checks@[0].status matches CheckStatus::Problem(m) && m@
            == daemon_problem()),
{
    let mut v: Vec<Check> = Vec::new();
    v.push(
        check(
            "daemon",
            probes.daemon_reachable,
            "ghostty-voiced is not reachable on its control socket — start it (e.g. `systemctl --user start ghostty-voiced`)",
        ),
    );
    v
}

/// True when every check passed.
pub fn all_ok(checks: &[Check]) -> (b: bool)
    ensures
        b == forall|i: int| 0 <= i < checks@.len() ==> (#[trigger] checks@[i]).status is Passed,
{
    let mut i: usize = 0;
    while i < checks.len()
        invariant
            i <= checks@.len(),
            forall|k: int| 0 <= k < i ==> (#[trigger] checks@[k]).status is Passed,
        decreases checks@.len() - i,
    {
        match checks[i].status {
            CheckStatus::Passed => {},
            CheckStatus::Problem(_) => return false,
        }
        i += 1;
    }
    true
}

} // verus!
