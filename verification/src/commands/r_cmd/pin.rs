//! `uvr r pin`: writes a version of R down for a project.

use vstd::prelude::*;

use crate::error::UvrError;
use crate::r_version::detector;
use crate::r_version::detector::RInstallation;
use crate::strings;
use crate::text;

verus! {

/// What is told of a text that cannot be a version of R.
pub open spec fn refusal_text(v: Seq<char>) -> Seq<char> {
    "`"@ + v
        + "` is not a valid R version to pin. Expected `X.Y.Z` (e.g. 4.5.1) or a partial `X.Y` (e.g. 4.5)."@
}

/// Refuses to pin what cannot be a version of R, which no installation would ever
/// match.
pub fn check_pin(v: &str) -> (r: Result<(), UvrError>)
    ensures
        detector::is_r_version(v@) ==> r is Ok,
        !detector::is_r_version(v@) ==> (r matches Err(UvrError::Other(m)) && m@ == refusal_text(
            v@,
        )),
{
    if detector::is_plausible_r_version(v) {
        return Ok(());
    }
    let mut m = "`".to_owned();
    m.append(v);
    m.append(
        "` is not a valid R version to pin. Expected `X.Y.Z` (e.g. 4.5.1) or a partial `X.Y` (e.g. 4.5).",
    );
    Err(UvrError::Other(m))
}

/// An R that is installed meets a pin: it is of that version, or of one that the pin
/// is the beginning of.
pub open spec fn is_met(v: Seq<char>, installed: Seq<RInstallation>) -> bool {
    exists|i: int|
        #![trigger installed[i]]
        0 <= i < installed.len() && (installed[i].version@ == v || detector::extends_version(
            v,
            installed[i].version@,
        ))
}

/// What is warned of a pin, if anything.
pub open spec fn warning_of(v: Seq<char>, installed: Seq<RInstallation>) -> Option<Seq<char>> {
    if is_met(v, installed) {
        None
    } else {
        Some(
            "R "@ + v + " is not installed yet — run `uvr r install "@ + v
                + "` to use this pin."@,
        )
    }
}

/// The warning that nothing which is installed meets a pin.
pub fn pin_warning(v: &str, installed: &Vec<RInstallation>) -> (r: Option<String>)
    ensures
        r.deep_view() == warning_of(v@, installed@),
{
    let mut i: usize = 0;
    while i < installed.len()
        invariant
            i <= installed@.len(),
            forall|j: int|
                0 <= j < i ==> (#[trigger] installed@[j]).version@ != v@
                    && !detector::extends_version(v@, installed@[j].version@),
        decreases installed@.len() - i,
    {
        let version = installed[i].version.as_str();
        if text::same_str(version, v) || detector::version_matches_prefix(v, version) {
            let ghost found = installed@[i as int];
            assert(found.version@ == v@ || detector::extends_version(v@, found.version@));
            return None;
        }
        i += 1;
    }
    let mut m = "R ".to_owned();
    m.append(v);
    m.append(" is not installed yet — run `uvr r install ");
    m.append(v);
    m.append("` to use this pin.");
    Some(m)
}

/// What is told of a version that breaks the constraint of its project.
pub open spec fn conflict_text(resolved: Seq<char>, constraint: Seq<char>) -> Seq<char> {
    "The active R is "@ + resolved
        + ", which does not satisfy the [project] r_version constraint `"@ + constraint
        + "` in uvr.toml. Pin a matching version with `uvr r pin <version>`, or update the constraint."@
}

/// The answer to pinning the version in use, from whether it breaks the constraint.
pub fn refuse_conflict(resolved: &str, constraint: &str, conflicts: bool) -> (r: Result<
    (),
    UvrError,
>)
    ensures
        !conflicts ==> r is Ok,
        conflicts ==> (r matches Err(UvrError::Other(m)) && m@ == conflict_text(
            resolved@,
            constraint@,
        )),
{
    if !conflicts {
        return Ok(());
    }
    let mut m = "The active R is ".to_owned();
    m.append(resolved);
    m.append(", which does not satisfy the [project] r_version constraint `");
    m.append(constraint);
    m.append(
        "` in uvr.toml. Pin a matching version with `uvr r pin <version>`, or update the constraint.",
    );
    Err(UvrError::Other(m))
}

/// Refuses to pin the version in use where it breaks the constraint of the project.
/// A version that is named on purpose is not held to the constraint.
pub fn ensure_pin_satisfies_constraint(resolved: &str, constraint: Option<&str>) -> (r: Result<
    (),
    UvrError,
>)
    ensures
        match constraint {
            Some(c) => {
                &&& !detector::conflicts(resolved@, c@) ==> r is Ok
                &&& detector::conflicts(resolved@, c@) ==> (r matches Err(UvrError::Other(m)) && m@
                    == conflict_text(resolved@, c@))
            },
            None => r is Ok,
        },
{
    match constraint {
        Some(c) => {
            let conflicts = detector::pin_conflicts_with_constraint(resolved, c);
            refuse_conflict(resolved, c, conflicts)
        },
        None => Ok(()),
    }
}

/// What is to be pinned.
#[derive(Debug, PartialEq, Eq)]
pub enum PinSource {
    /// A version that was named, with what is installed.
    Named { version: String, installed: Vec<RInstallation> },
    /// The version in use, with the constraint of the project.
    Active { resolved: String, constraint: Option<String> },
}

/// A version to write down, and what to warn of.
#[derive(Debug, PartialEq, Eq)]
pub struct Pin {
    pub version: String,
    pub warning: Option<String>,
}

/// What pinning comes to.
pub open spec fn is_pinned(source: PinSource, r: Result<Pin, UvrError>) -> bool {
    match source {
        PinSource::Named { version, installed } => if detector::is_r_version(version@) {
            r matches Ok(p) && p.version@ == version@ && p.warning.deep_view() == warning_of(
                version@,
                installed@,
            )
        } else {
            r matches Err(UvrError::Other(m)) && m@ == refusal_text(version@)
        },
        PinSource::Active { resolved, constraint } => {
            let broken = constraint matches Some(c) && detector::conflicts(resolved@, c@);
            if broken {
                r matches Err(UvrError::Other(m)) && m@ == conflict_text(resolved@, constraint->0@)
            } else {
                r matches Ok(p) && p.version@ == resolved@ && p.warning is None
            }
        },
    }
}

/// Decides what is pinned. A version that was named is pinned if it can be one, and
/// the version in use if it does not break the constraint of the project.
pub fn run(source: PinSource) -> (r: Result<Pin, UvrError>)
    ensures
        is_pinned(source, r),
{
    match source {
        PinSource::Named { version, installed } => match check_pin(version.as_str()) {
            Ok(_) => {
                let warning = pin_warning(version.as_str(), &installed);
                Ok(Pin { version, warning })
            },
            Err(e) => Err(e),
        },
        PinSource::Active { resolved, constraint } => {
            let c = match &constraint {
                Some(c) => Some(c.as_str()),
                None => None,
            };
            match ensure_pin_satisfies_constraint(resolved.as_str(), c) {
                Ok(_) => Ok(Pin { version: resolved, warning: None }),
                Err(e) => Err(e),
            }
        },
    }
}

/// A pin is met by an R of its own version, and by one that goes on after it with a
/// point. Nothing else meets it. The warning comes where it is not met, and tells the
/// version, and how to install it.
pub proof fn law_what_meets_a_pin(
    v: Seq<char>,
    installed: Seq<RInstallation>,
    i: int,
    rest: Seq<char>,
)
    ensures
        0 <= i < installed.len() && installed[i].version@ == v ==> warning_of(v, installed) is None,
        0 <= i < installed.len() && installed[i].version@ == v + seq!['.'] + rest ==> warning_of(
            v,
            installed,
        ) is None,
        (forall|j: int|
            0 <= j < installed.len() ==> {
                let w = (#[trigger] installed[j]).version@;
                w != v && !(w.len() > v.len() && w.take(v.len() as int) == v && w[v.len() as int]
                    == '.')
            }) ==> warning_of(v, installed) is Some,
        warning_of(v, installed) matches Some(m) ==> strings::contains_text(m, v)
            && strings::contains_text(m, "uvr r install "@ + v),
{
    detector::law_partial_version(v, rest, v);
    if is_met(v, installed) {
        let j = choose|j: int|
            #![trigger installed[j]]
            0 <= j < installed.len() && (installed[j].version@ == v || detector::extends_version(
                v,
                installed[j].version@,
            ));
        let w = installed[j].version@;
        detector::law_partial_version(v, rest, w);
        if w != v {
            assert(w.take(v.len() as int) =~= v);
            assert(w[v.len() as int] == '.');
        }
    } else {
        let one = "R "@;
        let two = " is not installed yet — run `uvr r install "@;
        let end = "` to use this pin."@;
        let m = one + v + two + v + end;
        strings::lemma_contains_middle(one, v, two + v + end);
        assert(m =~= one + v + (two + v + end));
        let cut = " is not installed yet — run `"@;
        reveal_strlit(" is not installed yet — run `uvr r install ");
        reveal_strlit(" is not installed yet — run `");
        reveal_strlit("uvr r install ");
        assert(two =~= cut + "uvr r install "@);
        strings::lemma_contains_middle(one + v + cut, "uvr r install "@ + v, end);
        assert(m =~= one + v + cut + ("uvr r install "@ + v) + end);
    }
}

/// What is pinned is the version that was named or that is in use, never another. One
/// that was named is refused only where it can be no version of R, and one in use only
/// where it breaks the constraint; the refusal tells the version, and the constraint.
/// Only of a version that was named anything is warned.
pub proof fn law_pin(source: PinSource, r: Result<Pin, UvrError>)
    requires
        is_pinned(source, r),
    ensures
        match source {
            PinSource::Named { version, installed } => {
                &&& r is Ok <==> detector::is_r_version(version@)
                &&& r matches Ok(p) ==> p.version@ == version@ && (p.warning is None <==> is_met(
                    version@,
                    installed@,
                ))
                &&& r matches Err(e) ==> (e matches UvrError::Other(m) && strings::contains_text(
                    m@,
                    version@,
                ))
            },
            PinSource::Active { resolved, constraint } => {
                &&& r is Err <==> (constraint matches Some(c) && detector::conflicts(
                    resolved@,
                    c@,
                ))
                &&& r matches Ok(p) ==> p.version@ == resolved@ && p.warning is None
                &&& r matches Err(e) ==> (e matches UvrError::Other(m) && strings::contains_text(
                    m@,
                    resolved@,
                ) && strings::contains_text(m@, constraint->0@))
            },
        },
{
    if let PinSource::Named { version, installed } = source {
        let end =
            "` is not a valid R version to pin. Expected `X.Y.Z` (e.g. 4.5.1) or a partial `X.Y` (e.g. 4.5)."@;
        strings::lemma_contains_middle("`"@, version@, end);
    }
    if let PinSource::Active { resolved, constraint: Some(c) } = source {
        let one = "The active R is "@;
        let two = ", which does not satisfy the [project] r_version constraint `"@;
        let end =
            "` in uvr.toml. Pin a matching version with `uvr r pin <version>`, or update the constraint."@;
        strings::lemma_contains_middle(one, resolved@, two + c@ + end);
        assert(conflict_text(resolved@, c@) =~= one + resolved@ + (two + c@ + end));
        strings::lemma_contains_middle(one + resolved@ + two, c@, end);
    }
}

} // verus!
